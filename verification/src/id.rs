//! The shape of a spec id: `KIND-SEGMENT(-SEGMENT)*` where some segment after
//! the kind carries a digit.

use vstd::prelude::*;

verus! {

/// An ASCII letter.
pub open spec fn is_letter(c: char) -> bool {
    (65 <= c as u32 && c as u32 <= 90) || (97 <= c as u32 && c as u32 <= 122)
}

/// An ASCII digit.
pub open spec fn is_digit(c: char) -> bool {
    48 <= c as u32 && c as u32 <= 57
}

/// An ASCII letter or digit.
pub open spec fn is_alnum(c: char) -> bool {
    is_letter(c) || is_digit(c)
}

/// A character allowed inside the kind after its leading letter.
pub open spec fn is_kind_char(c: char) -> bool {
    is_alnum(c) || c == '_'
}

/// `s` cut at every `-`, as `str::split('-')` cuts it: `n` dashes give
/// `n + 1` pieces, some of which may be empty.
pub open spec fn split_dash(s: Seq<char>) -> Seq<Seq<char>>
    decreases s.len(),
{
    if s.len() == 0 {
        seq![Seq::<char>::empty()]
    } else {
        let init = split_dash(s.drop_last());
        if s.last() == '-' {
            init.push(Seq::<char>::empty())
        } else {
            init.update(init.len() - 1, init.last().push(s.last()))
        }
    }
}

/// The kind: an ASCII letter, then ASCII letters, digits or underscores.
pub open spec fn kind_ok(seg: Seq<char>) -> bool {
    &&& seg.len() > 0
    &&& is_letter(seg[0])
    &&& forall|i: int| 0 <= i < seg.len() ==> is_kind_char(#[trigger] seg[i])
}

/// A segment after the kind: non-empty, ASCII letters and digits only.
pub open spec fn segment_ok(seg: Seq<char>) -> bool {
    &&& seg.len() > 0
    &&& forall|i: int| 0 <= i < seg.len() ==> is_alnum(#[trigger] seg[i])
}

/// The segment holds an ASCII digit somewhere.
pub open spec fn has_digit(seg: Seq<char>) -> bool {
    exists|i: int| 0 <= i < seg.len() && is_digit(#[trigger] seg[i])
}

/// `s` is id-shaped: a kind, at least one further segment, every further
/// segment well formed, and at least one of them carrying a digit.
pub open spec fn id_shaped(s: Seq<char>) -> bool {
    let segs = split_dash(s);
    &&& segs.len() >= 2
    &&& kind_ok(segs[0])
    &&& forall|j: int| 1 <= j < segs.len() ==> segment_ok(#[trigger] segs[j])
    &&& exists|j: int| 1 <= j < segs.len() && has_digit(#[trigger] segs[j])
}

/// Splitting always yields at least one piece.
pub proof fn lemma_split_nonempty(s: Seq<char>)
    ensures
        split_dash(s).len() >= 1,
    decreases s.len(),
{
    if s.len() > 0 {
        lemma_split_nonempty(s.drop_last());
    }
}

fn char_is_letter(c: char) -> (b: bool)
    ensures
        b == is_letter(c),
{
    let u = c as u32;
    (65 <= u && u <= 90) || (97 <= u && u <= 122)
}

fn char_is_digit(c: char) -> (b: bool)
    ensures
        b == is_digit(c),
{
    let u = c as u32;
    48 <= u && u <= 57
}

fn char_is_alnum(c: char) -> (b: bool)
    ensures
        b == is_alnum(c),
{
    char_is_letter(c) || char_is_digit(c)
}

fn check_kind(seg: &Vec<char>) -> (b: bool)
    ensures
        b == kind_ok(seg@),
{
    if seg.len() == 0 || !char_is_letter(seg[0]) {
        return false;
    }
    let mut i: usize = 0;
    while i < seg.len()
        invariant
            i <= seg.len(),
            forall|k: int| 0 <= k < i ==> is_kind_char(#[trigger] seg@[k]),
        decreases seg.len() - i,
    {
        let c = seg[i];
        if !(char_is_alnum(c) || c == '_') {
            return false;
        }
        i = i + 1;
    }
    true
}

fn check_segment(seg: &Vec<char>) -> (b: bool)
    ensures
        b == segment_ok(seg@),
{
    if seg.len() == 0 {
        return false;
    }
    let mut i: usize = 0;
    while i < seg.len()
        invariant
            i <= seg.len(),
            forall|k: int| 0 <= k < i ==> is_alnum(#[trigger] seg@[k]),
        decreases seg.len() - i,
    {
        if !char_is_alnum(seg[i]) {
            return false;
        }
        i = i + 1;
    }
    true
}

fn find_digit(seg: &Vec<char>) -> (b: bool)
    ensures
        b == has_digit(seg@),
{
    let mut i: usize = 0;
    while i < seg.len()
        invariant
            i <= seg.len(),
            forall|k: int| 0 <= k < i ==> !is_digit(#[trigger] seg@[k]),
        decreases seg.len() - i,
    {
        if char_is_digit(seg[i]) {
            return true;
        }
        i = i + 1;
    }
    false
}

/// The pieces of `id` between dashes, in order.
fn split_segments(id: &str) -> (segs: Vec<Vec<char>>)
    ensures
        segs@.len() == split_dash(id@).len(),
        forall|k: int| 0 <= k < segs@.len() ==> (#[trigger] segs@[k])@ == split_dash(id@)[k],
{
    let n = id.unicode_len();
    let mut done: Vec<Vec<char>> = Vec::new();
    let mut cur: Vec<char> = Vec::new();
    let mut i: usize = 0;
    proof {
        assert(id@.take(0) =~= Seq::<char>::empty());
    }
    while i < n
        invariant
            n == id@.len(),
            i <= n,
            split_dash(id@.take(i as int)).len() == done@.len() + 1,
            forall|k: int|
                0 <= k < done@.len() ==> (#[trigger] done@[k])@ == split_dash(id@.take(i as int))[k],
            cur@ == split_dash(id@.take(i as int)).last(),
        decreases n - i,
    {
        let c = id.get_char(i);
        proof {
            assert(id@.take(i + 1).drop_last() =~= id@.take(i as int));
            assert(id@.take(i + 1).last() == c);
        }
        if c == '-' {
            done.push(cur);
            cur = Vec::new();
        } else {
            cur.push(c);
        }
        i = i + 1;
    }
    proof {
        assert(id@.take(n as int) =~= id@);
    }
    done.push(cur);
    done
}

/// Whether `id` has the shape of a spec id. Shape only: which kinds exist is
/// not this crate's concern, so `ZZ-001` passes as readily as `TC-707`.
pub fn is_id_shaped(id: &str) -> (shaped: bool)
    ensures
        shaped == id_shaped(id@),
{
    let segs = split_segments(id);
    let ghost spec_segs = split_dash(id@);
    if segs.len() < 2 {
        return false;
    }
    if !check_kind(&segs[0]) {
        return false;
    }
    let mut saw_number = false;
    let mut j: usize = 1;
    while j < segs.len()
        invariant
            spec_segs == split_dash(id@),
            segs@.len() == spec_segs.len(),
            forall|k: int| 0 <= k < segs@.len() ==> (#[trigger] segs@[k])@ == spec_segs[k],
            1 <= j <= segs@.len(),
            forall|k: int| 1 <= k < j ==> segment_ok(#[trigger] spec_segs[k]),
            saw_number <==> exists|k: int| 1 <= k < j && has_digit(#[trigger] spec_segs[k]),
        decreases segs.len() - j,
    {
        assert(segs@[j as int]@ == spec_segs[j as int]);
        if !check_segment(&segs[j]) {
            return false;
        }
        if find_digit(&segs[j]) {
            saw_number = true;
        }
        j = j + 1;
    }
    saw_number
}

pub proof fn lemma_split_without_dash(k: Seq<char>)
    requires
        forall|i: int| 0 <= i < k.len() ==> #[trigger] k[i] != '-',
    ensures
        split_dash(k) == seq![k],
    decreases k.len(),
{
    if k.len() == 0 {
        assert(k =~= Seq::<char>::empty());
        assert(split_dash(k) =~= seq![k]);
    } else {
        assert forall|i: int| 0 <= i < k.drop_last().len() implies #[trigger] k.drop_last()[i]
            != '-' by {
            assert(k.drop_last()[i] == k[i]);
        }
        lemma_split_without_dash(k.drop_last());
        assert(k[k.len() - 1] != '-');
        assert(k.drop_last().push(k.last()) =~= k);
        assert(split_dash(k) =~= seq![k]);
    }
}

proof fn lemma_split_after_prefix(k: Seq<char>, t: Seq<char>)
    requires
        forall|i: int| 0 <= i < k.len() ==> #[trigger] k[i] != '-',
    ensures
        split_dash(k + t) == split_dash(t).update(0, k + split_dash(t)[0]),
    decreases t.len(),
{
    let s = k + t;
    if t.len() == 0 {
        assert(s =~= k);
        lemma_split_without_dash(k);
        assert(k + split_dash(t)[0] =~= k);
        assert(split_dash(s) =~= split_dash(t).update(0, k + split_dash(t)[0]));
    } else {
        let p = t.drop_last();
        let c = t.last();
        lemma_split_after_prefix(k, p);
        lemma_split_nonempty(p);
        assert(s.drop_last() =~= k + p);
        assert(s.last() == c);
        let sp = split_dash(p);
        if c == '-' {
            assert(split_dash(t)[0] == sp[0]);
            assert(split_dash(s) =~= split_dash(t).update(0, k + split_dash(t)[0]));
        } else if sp.len() == 1 {
            assert((k + sp[0]).push(c) =~= k + sp[0].push(c));
            assert(split_dash(s) =~= split_dash(t).update(0, k + split_dash(t)[0]));
        } else {
            assert(split_dash(t)[0] == sp[0]);
            assert(split_dash(s) =~= split_dash(t).update(0, k + split_dash(t)[0]));
        }
    }
}

proof fn lemma_kind_extended(k: Seq<char>, p: Seq<char>)
    requires
        kind_ok(k),
    ensures
        kind_ok(k + p) == (forall|i: int| 0 <= i < p.len() ==> is_kind_char(#[trigger] p[i])),
{
    let q = k + p;
    if kind_ok(q) {
        assert forall|i: int| 0 <= i < p.len() implies is_kind_char(#[trigger] p[i]) by {
            assert(q[k.len() + i] == p[i]);
        }
    }
    if forall|i: int| 0 <= i < p.len() ==> is_kind_char(#[trigger] p[i]) {
        assert forall|i: int| 0 <= i < q.len() implies is_kind_char(#[trigger] q[i]) by {
            if i < k.len() {
                assert(q[i] == k[i]);
            } else {
                assert(q[i] == p[i - k.len()]);
            }
        }
        assert(q[0] == k[0]);
    }
}

/// Which kinds exist is not checked: two strings that begin with different
/// well-formed kinds and go on alike are accepted together or refused
/// together, whatever follows the kinds.
pub proof fn lemma_kind_vocabulary_unchecked(k1: Seq<char>, k2: Seq<char>, rest: Seq<char>)
    requires
        kind_ok(k1),
        kind_ok(k2),
    ensures
        id_shaped(k1 + rest) == id_shaped(k2 + rest),
{
    assert forall|i: int| 0 <= i < k1.len() implies #[trigger] k1[i] != '-' by {
        assert(is_kind_char(k1[i]));
    }
    assert forall|i: int| 0 <= i < k2.len() implies #[trigger] k2[i] != '-' by {
        assert(is_kind_char(k2[i]));
    }
    lemma_split_nonempty(rest);
    lemma_split_after_prefix(k1, rest);
    lemma_split_after_prefix(k2, rest);
    let t = split_dash(rest);
    lemma_kind_extended(k1, t[0]);
    lemma_kind_extended(k2, t[0]);
    let s1 = split_dash(k1 + rest);
    let s2 = split_dash(k2 + rest);
    assert(kind_ok(s1[0]) == kind_ok(s2[0]));
    assert forall|j: int| 1 <= j < s1.len() implies s1[j] == s2[j] by {
        assert(s1[j] == t[j]);
    }
    if id_shaped(k1 + rest) {
        let j = choose|j: int| 1 <= j < s1.len() && has_digit(#[trigger] s1[j]);
        assert(s2[j] == s1[j]);
    }
    if id_shaped(k2 + rest) {
        let j = choose|j: int| 1 <= j < s2.len() && has_digit(#[trigger] s2[j]);
        assert(s2[j] == s1[j]);
    }
}

proof fn lemma_split_chars(s: Seq<char>)
    ensures
        forall|j: int, i: int|
            0 <= j < split_dash(s).len() && 0 <= i < split_dash(s)[j].len() ==> s.contains(
                #[trigger] split_dash(s)[j][i],
            ),
        split_dash(s)[0].len() > 0 ==> s.len() > 0 && s[0] == split_dash(s)[0][0],
        split_dash(s).len() == 1 ==> split_dash(s)[0] == s,
    decreases s.len(),
{
    if s.len() > 0 {
        let p = s.drop_last();
        lemma_split_chars(p);
        lemma_split_nonempty(p);
        assert forall|j: int, i: int|
            0 <= j < split_dash(s).len() && 0 <= i < split_dash(s)[j].len() implies s.contains(
                #[trigger] split_dash(s)[j][i],
            ) by {
            let c = split_dash(s)[j][i];
            if s.last() != '-' && j == split_dash(p).len() - 1 && i == split_dash(p)[j].len() {
                assert(c == s[s.len() - 1]);
            } else {
                assert(c == split_dash(p)[j][i]);
                let m = choose|m: int| 0 <= m < p.len() && p[m] == c;
                assert(s[m] == c);
            }
        }
        if split_dash(s)[0].len() > 0 && split_dash(p)[0].len() > 0 {
            assert(split_dash(s)[0][0] == split_dash(p)[0][0]);
        }
        if split_dash(s).len() == 1 {
            assert(split_dash(s)[0] =~= s);
        }
    }
}

/// A digit after the kind is the whole discriminator between an id and
/// prose: every id-shaped string begins with an ASCII letter and holds an
/// ASCII digit, so a hyphenated word without a digit is never taken for an id.
pub proof fn lemma_ids_begin_with_a_letter_and_hold_a_digit(s: Seq<char>)
    requires
        id_shaped(s),
    ensures
        s.len() > 0 && is_letter(s[0]),
        exists|m: int| 0 <= m < s.len() && is_digit(#[trigger] s[m]),
{
    let segs = split_dash(s);
    lemma_split_chars(s);
    let j = choose|j: int| 1 <= j < segs.len() && has_digit(#[trigger] segs[j]);
    let i = choose|i: int| 0 <= i < segs[j].len() && is_digit(#[trigger] segs[j][i]);
    assert(s.contains(segs[j][i]));
    let m = choose|m: int| 0 <= m < s.len() && s[m] == segs[j][i];
    assert(is_digit(s[m]));
}

/// Cutting `a`, a dash and `b` gives the pieces of `a` followed by the pieces
/// of `b`.
pub proof fn lemma_split_concat(a: Seq<char>, b: Seq<char>)
    ensures
        split_dash(a + seq!['-'] + b) == split_dash(a) + split_dash(b),
    decreases b.len(),
{
    let s = a + seq!['-'] + b;
    if b.len() == 0 {
        assert(s.drop_last() =~= a);
        assert(split_dash(s) =~= split_dash(a) + split_dash(b));
    } else {
        lemma_split_concat(a, b.drop_last());
        lemma_split_nonempty(b.drop_last());
        assert(s.drop_last() =~= a + seq!['-'] + b.drop_last());
        assert(s.last() == b.last());
        assert(split_dash(s) =~= split_dash(a) + split_dash(b));
    }
}

/// A string splits into a single piece exactly when it holds no dash.
pub proof fn lemma_split_single(p: Seq<char>)
    ensures
        (split_dash(p).len() == 1) == (forall|d: int| 0 <= d < p.len() ==> #[trigger] p[d] != '-'),
    decreases p.len(),
{
    if p.len() > 0 {
        let q = p.drop_last();
        lemma_split_single(q);
        lemma_split_nonempty(q);
        if split_dash(p).len() == 1 {
            assert forall|d: int| 0 <= d < p.len() implies #[trigger] p[d] != '-' by {
                if d < q.len() {
                    assert(p[d] == q[d]);
                }
            }
        }
        if forall|d: int| 0 <= d < p.len() ==> #[trigger] p[d] != '-' {
            assert(p[p.len() - 1] != '-');
            assert forall|d: int| 0 <= d < q.len() implies #[trigger] q[d] != '-' by {
                assert(p[d] == q[d]);
            }
        }
    }
}

/// No dash stands before position `m` of `s`.
pub open spec fn before_any_dash(s: Seq<char>, m: int) -> bool {
    forall|d: int| 0 <= d < m ==> #[trigger] s[d] != '-'
}

/// The character at position `m` of `s` is the `i`-th of the `j`-th piece,
/// and that piece is the first exactly when no dash comes before `m`.
pub open spec fn placed(s: Seq<char>, m: int, j: int, i: int) -> bool {
    &&& 0 <= j < split_dash(s).len()
    &&& 0 <= i < split_dash(s)[j].len()
    &&& split_dash(s)[j][i] == s[m]
    &&& (j == 0 <==> before_any_dash(s, m))
}

proof fn lemma_before_dash_drop_last(s: Seq<char>)
    requires
        s.len() > 0,
    ensures
        forall|m: int|
            0 <= m < s.len() - 1 ==> #[trigger] before_any_dash(s, m) == before_any_dash(s.drop_last(), m),
        before_any_dash(s, s.len() - 1) == (split_dash(s.drop_last()).len() == 1),
{
    let p = s.drop_last();
    let n = p.len() as int;
    lemma_split_single(p);
    assert forall|m: int| 0 <= m < n implies #[trigger] before_any_dash(s, m) == before_any_dash(p, m) by {
        if before_any_dash(p, m) {
            assert forall|d: int| 0 <= d < m implies #[trigger] s[d] != '-' by {
                assert(s[d] == p[d]);
            }
        }
        if before_any_dash(s, m) {
            assert forall|d: int| 0 <= d < m implies #[trigger] p[d] != '-' by {
                assert(s[d] == p[d]);
            }
        }
    }
    if before_any_dash(s, n) {
        assert forall|d: int| 0 <= d < p.len() implies #[trigger] p[d] != '-' by {
            assert(s[d] == p[d]);
        }
    }
    if split_dash(p).len() == 1 {
        assert forall|d: int| 0 <= d < n implies #[trigger] s[d] != '-' by {
            assert(s[d] == p[d]);
        }
    }
}

/// The first piece of `s` is a prefix of `s`, and is all of `s` when `s`
/// holds no dash.
pub proof fn lemma_split_first_piece(s: Seq<char>)
    ensures
        split_dash(s)[0].len() <= s.len(),
        forall|i: int| 0 <= i < split_dash(s)[0].len() ==> #[trigger] split_dash(s)[0][i] == s[i],
        split_dash(s).len() == 1 ==> split_dash(s)[0] == s,
    decreases s.len(),
{
    lemma_split_nonempty(s);
    if s.len() == 0 {
        assert(split_dash(s)[0] =~= s);
        assert(split_dash(s)[0].len() == 0);
    } else {
        let p = s.drop_last();
        lemma_split_first_piece(p);
        lemma_split_nonempty(p);
        let sp = split_dash(p);
        let ss = split_dash(s);
        if ss.len() == 1 {
            assert(ss[0] =~= s);
        }
        assert forall|i: int| 0 <= i < ss[0].len() implies #[trigger] ss[0][i] == s[i] by {
            if i < sp[0].len() {
                assert(ss[0][i] == sp[0][i]);
                assert(s[i] == p[i]);
            } else {
                assert(sp.len() == 1);
                assert(sp[0] == p);
                assert(s.last() != '-');
                assert(ss[0] == sp[0].push(s.last()));
                assert(i == p.len());
            }
        }
    }
}

/// Every character of `s` but a dash lands in a piece, in the first piece
/// exactly when no dash comes before it.
pub proof fn lemma_split_placed(s: Seq<char>)
    ensures
        forall|m: int|
            0 <= m < s.len() && s[m] != '-' ==> exists|j: int, i: int| #[trigger] placed(s, m, j, i),
    decreases s.len(),
{
    if s.len() > 0 {
        let p = s.drop_last();
        let c = s.last();
        let n = p.len() as int;
        lemma_split_placed(p);
        lemma_split_nonempty(p);
        lemma_before_dash_drop_last(s);
        let sp = split_dash(p);
        let ss = split_dash(s);
        assert forall|m: int| 0 <= m < s.len() && s[m] != '-' implies exists|j: int, i: int|
            #[trigger] placed(s, m, j, i) by {
            if m < n {
                assert(s[m] == p[m]);
                let (j, i) = choose|j: int, i: int| #[trigger] placed(p, m, j, i);
                assert(ss[j][i] == sp[j][i]);
                assert(before_any_dash(s, m) == before_any_dash(p, m));
                assert(placed(s, m, j, i));
            } else {
                let j = sp.len() - 1;
                let i = sp[j].len() as int;
                assert(ss[j] == sp[j].push(c));
                assert(placed(s, m, j, i));
            }
        }
    }
}

/// Every character of a piece after the first stands after a dash in `s`.
pub proof fn lemma_split_later_pieces(s: Seq<char>)
    ensures
        forall|j: int, i: int|
            #![trigger split_dash(s)[j][i]]
            1 <= j < split_dash(s).len() && 0 <= i < split_dash(s)[j].len() ==> exists|m: int|
                0 <= m < s.len() && !before_any_dash(s, m) && #[trigger] s[m]
                    == split_dash(s)[j][i],
    decreases s.len(),
{
    if s.len() > 0 {
        let p = s.drop_last();
        let c = s.last();
        let n = p.len() as int;
        lemma_split_later_pieces(p);
        lemma_split_nonempty(p);
        lemma_before_dash_drop_last(s);
        let sp = split_dash(p);
        let ss = split_dash(s);
        assert forall|j: int, i: int|
            #![trigger ss[j][i]]
            1 <= j < ss.len() && 0 <= i < ss[j].len() implies exists|m: int|
            0 <= m < s.len() && !before_any_dash(s, m) && #[trigger] s[m] == ss[j][i] by {
            if j < sp.len() && i < sp[j].len() {
                assert(ss[j][i] == sp[j][i]);
                let m = choose|m: int|
                    0 <= m < p.len() && !before_any_dash(p, m) && #[trigger] p[m] == sp[j][i];
                assert(s[m] == p[m]);
                assert(before_any_dash(s, m) == before_any_dash(p, m));
            } else {
                assert(c != '-');
                assert(j == sp.len() - 1);
                assert(ss[j][i] == c);
                assert(s[n] == c);
            }
        }
    }
}

/// Two dashes in a row leave an empty piece between them, which is neither
/// the first piece nor the last.
pub proof fn lemma_split_double_dash(s: Seq<char>, m: int)
    requires
        0 <= m,
        m + 1 < s.len(),
        s[m] == '-',
        s[m + 1] == '-',
    ensures
        exists|j: int| 1 <= j < split_dash(s).len() - 1 && (#[trigger] split_dash(s)[j]).len() == 0,
    decreases s.len(),
{
    let p = s.drop_last();
    lemma_split_nonempty(p);
    if m + 1 == s.len() - 1 {
        let q = p.drop_last();
        lemma_split_nonempty(q);
        assert(p.last() == '-');
        let j = split_dash(p).len() - 1;
        assert(split_dash(p)[j].len() == 0);
        assert(split_dash(s)[j] == split_dash(p)[j]);
        assert(j >= 1);
    } else {
        assert(p[m] == '-' && p[m + 1] == '-');
        lemma_split_double_dash(p, m);
        let j = choose|j: int| 1 <= j < split_dash(p).len() - 1 && (#[trigger] split_dash(p)[j]).len() == 0;
        assert(split_dash(s)[j] == split_dash(p)[j]);
    }
}

/// A string of letters, digits and single inner dashes, not starting with a
/// dash, cuts into well-formed pieces, except that the last piece is empty
/// when the string is empty or ends with a dash.
pub proof fn lemma_split_clean(t: Seq<char>)
    requires
        t.len() > 0 ==> t[0] != '-',
        forall|d: int| 0 <= d < t.len() - 1 && t[d] == '-' ==> #[trigger] t[d + 1] != '-',
        forall|d: int| 0 <= d < t.len() ==> is_alnum(#[trigger] t[d]) || t[d] == '-',
    ensures
        forall|j: int| 0 <= j < split_dash(t).len() - 1 ==> segment_ok(#[trigger] split_dash(t)[j]),
        forall|i: int|
            0 <= i < split_dash(t).last().len() ==> is_alnum(#[trigger] split_dash(t).last()[i]),
        (split_dash(t).last().len() == 0) == (t.len() == 0 || t.last() == '-'),
    decreases t.len(),
{
    lemma_split_nonempty(t);
    if t.len() > 0 {
        let p = t.drop_last();
        let c = t.last();
        assert forall|d: int| 0 <= d < p.len() - 1 && p[d] == '-' implies #[trigger] p[d + 1] != '-' by {
            assert(t[d] == p[d] && t[d + 1] == p[d + 1]);
        }
        assert forall|d: int| 0 <= d < p.len() implies is_alnum(#[trigger] p[d]) || p[d] == '-' by {
            assert(t[d] == p[d]);
        }
        lemma_split_clean(p);
        lemma_split_nonempty(p);
        let sp = split_dash(p);
        if c == '-' {
            assert(p.len() > 0);
            let d = p.len() - 1;
            if t[d] == '-' {
                assert(t[d + 1] != '-');
            }
            assert(p.last() != '-');
            assert(segment_ok(sp.last()));
        } else {
            assert(is_alnum(c));
        }
    }
}

} // verus!
