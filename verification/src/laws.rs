//! What holds of the grammar and the attributes across all inputs.

use vstd::prelude::*;

use crate::grammar::{
    check,
    empty_string_message,
    no_ids_message,
    not_grammar_message,
    not_id_message,
    not_string_message,
    verdict,
};
use crate::id::{
    id_shaped,
    lemma_split_clean,
    lemma_split_concat,
    lemma_split_double_dash,
    lemma_split_first_piece,
    lemma_split_later_pieces,
    lemma_split_nonempty,
    lemma_split_placed,
    lemma_split_single,
    lemma_split_without_dash,
    placed,
    split_dash,
};
use crate::expand::{expansion, is_compile_error};
use crate::tokens::{all_at, respanned, span_of, token_respanned, Delimiter, Span, Token};

verus! {

/// What a refusal is about, apart from the attribute's name.
pub enum Fault {
    NotString { found: Seq<char> },
    EmptyString,
    NotId { id: Seq<char> },
    NotGrammar { found: Seq<char> },
    NoIds,
}

/// The message the attribute `name` gives for `fault`.
pub open spec fn wording(fault: Fault, name: Seq<char>) -> Seq<char> {
    match fault {
        Fault::NotString { found } => not_string_message(name, found),
        Fault::EmptyString => empty_string_message(name),
        Fault::NotId { id } => not_id_message(name, id),
        Fault::NotGrammar { found } => not_grammar_message(name, found),
        Fault::NoIds => no_ids_message(name),
    }
}

/// Two verdicts, of the attributes `name1` and `name2`, agree on acceptance;
/// where both refuse, they refuse at the same place and for the same fault,
/// their messages differing only in the name.
pub open spec fn same_up_to_name(
    a: Result<(), (Seq<char>, Span)>,
    b: Result<(), (Seq<char>, Span)>,
    name1: Seq<char>,
    name2: Seq<char>,
) -> bool {
    match (a, b) {
        (Ok(_), Ok(_)) => true,
        (Err((m1, s1)), Err((m2, s2))) => {
            &&& s1 == s2
            &&& exists|f: Fault| #[trigger] wording(f, name1) == m1 && wording(f, name2) == m2
        },
        _ => false,
    }
}

/// `name` occurs in `message` as a contiguous run of characters.
pub open spec fn mentions(message: Seq<char>, name: Seq<char>) -> bool {
    exists|i: int|
        0 <= i && i + name.len() <= message.len() && #[trigger] message.subrange(i, i + name.len())
            == name
}

proof fn lemma_infix(a: Seq<char>, b: Seq<char>, c: Seq<char>)
    ensures
        mentions((a + b) + c, b),
{
    let m = (a + b) + c;
    assert(m.subrange(a.len() as int, (a.len() + b.len()) as int) =~= b);
}

proof fn lemma_mentions_extend(m: Seq<char>, name: Seq<char>, more: Seq<char>)
    requires
        mentions(m, name),
    ensures
        mentions(m + more, name),
{
    let i = choose|i: int|
        0 <= i && i + name.len() <= m.len() && #[trigger] m.subrange(i, i + name.len()) == name;
    assert((m + more).subrange(i, i + name.len()) =~= m.subrange(i, i + name.len()));
}

/// Every message the grammar produces names the attribute that refused.
proof fn lemma_messages_name_the_attribute(name: Seq<char>, found: Seq<char>, id: Seq<char>)
    ensures
        mentions(not_string_message(name, found), name),
        mentions(empty_string_message(name), name),
        mentions(not_id_message(name, id), name),
        mentions(not_grammar_message(name, found), name),
        mentions(no_ids_message(name), name),
{
    let q = "`"@;
    let l1 = "` arguments must be string literals; found `"@;
    lemma_infix(q, name, l1);
    lemma_mentions_extend(q + name + l1, name, found);
    lemma_mentions_extend(q + name + l1 + found, name, q);
    lemma_infix(q, name, "` arguments must not be empty strings"@);
    lemma_infix(
        q + id
            + "` is not a spec id: expected `KIND-NUMBER`, optionally followed by `-SUBKIND-NUMBER` (for example `TC-707` or `FR-047-AC-1`). `"@,
        name,
        "` does not check which kinds exist — only that the argument is an id and not prose."@,
    );
    let l2 = "` takes comma-separated string literals; found `"@;
    lemma_infix(q, name, l2);
    lemma_mentions_extend(q + name + l2, name, found);
    lemma_mentions_extend(q + name + l2 + found, name, q);
    let l3 = "` needs at least one trace id, e.g. #["@;
    lemma_infix(q, name, l3);
    lemma_mentions_extend(q + name + l3, name, name);
    lemma_mentions_extend(q + name + l3 + name, name, "(\"FR-001-AC-1\")]"@);
}

/// The name of the attribute decides nothing but the wording: under any two
/// names the same token stream is accepted by both or refused by both, at the
/// same token and for the same fault; and every refusal names the attribute.
pub proof fn lemma_name_decides_only_wording(
    name1: Seq<char>,
    name2: Seq<char>,
    toks: Seq<Token>,
    expect_literal: bool,
    seen_any: bool,
)
    ensures
        same_up_to_name(
            check(name1, toks, expect_literal, seen_any),
            check(name2, toks, expect_literal, seen_any),
            name1,
            name2,
        ),
        check(name1, toks, expect_literal, seen_any) matches Err((m, _)) ==> mentions(m, name1),
    decreases toks,
{
    if toks.len() > 0 {
        let t = toks[0];
        let rest = toks.drop_first();
        lemma_messages_name_the_attribute(name1, crate::tokens::display(t), Seq::empty());
        let refused = Fault::NotGrammar { found: crate::tokens::display(t) };
        assert(wording(refused, name1) == not_grammar_message(name1, crate::tokens::display(t)));
        assert(wording(refused, name2) == not_grammar_message(name2, crate::tokens::display(t)));
        match t {
            Token::Literal { text, .. } => {
                if expect_literal {
                    lemma_name_decides_only_wording(name1, name2, rest, false, true);
                    match crate::grammar::literal_content(text@) {
                        Some(id) => {
                            lemma_messages_name_the_attribute(name1, text@, id);
                            let e = Fault::EmptyString;
                            assert(wording(e, name1) == empty_string_message(name1));
                            assert(wording(e, name2) == empty_string_message(name2));
                            let n = Fault::NotId { id };
                            assert(wording(n, name1) == not_id_message(name1, id));
                            assert(wording(n, name2) == not_id_message(name2, id));
                        },
                        None => {
                            lemma_messages_name_the_attribute(name1, text@, Seq::empty());
                            let f = Fault::NotString { found: text@ };
                            assert(wording(f, name1) == not_string_message(name1, text@));
                            assert(wording(f, name2) == not_string_message(name2, text@));
                        },
                    }
                }
            },
            Token::Punct { .. } => {
                lemma_name_decides_only_wording(name1, name2, rest, true, seen_any);
            },
            Token::Group { stream, .. } => {
                assert(decreases_to!(toks => toks[0]));
                lemma_name_decides_only_wording(name1, name2, stream@, true, false);
                lemma_name_decides_only_wording(name1, name2, rest, false, true);
            },
            Token::Ident { .. } => {},
        }
    } else {
        lemma_messages_name_the_attribute(name1, Seq::empty(), Seq::empty());
        assert(wording(Fault::NoIds, name1) == no_ids_message(name1));
        assert(wording(Fault::NoIds, name2) == no_ids_message(name2));
    }
}

/// `trace` and `implements` apply one grammar: each accepts exactly the
/// argument lists the other accepts and refuses the others at the same token
/// with the same message but for the attribute's name, and each names itself
/// in its refusals.
pub proof fn lemma_trace_and_implements_agree(attr: Seq<Token>)
    ensures
        same_up_to_name(verdict("trace"@, attr), verdict("implements"@, attr), "trace"@, "implements"@),
        verdict("trace"@, attr) matches Err((m, _)) ==> mentions(m, "trace"@),
        verdict("implements"@, attr) matches Err((m, _)) ==> mentions(m, "implements"@),
{
    lemma_name_decides_only_wording("trace"@, "implements"@, attr, true, false);
    lemma_name_decides_only_wording("implements"@, "trace"@, attr, true, false);
}

/// The source form of a plain string literal holding `id`.
pub open spec fn quoted_literal(id: Seq<char>) -> Seq<char> {
    seq!['"'] + id + seq!['"']
}

/// The `k`-th literal of a comma-separated list: a string literal holding `id`.
pub open spec fn literal_at(toks: Seq<Token>, k: int, id: Seq<char>) -> bool {
    toks[2 * k] matches Token::Literal { text, .. } && text@ == quoted_literal(id)
}

/// The separator after the `k`-th literal of a comma-separated list.
pub open spec fn comma_at(toks: Seq<Token>, k: int) -> bool {
    toks[2 * k + 1] matches Token::Punct { ch, .. } && ch == ','
}

/// `toks` is the string literals of `ids`, in order, separated by commas, and
/// followed by one more comma when `trailing`.
pub open spec fn is_literal_list(toks: Seq<Token>, ids: Seq<Seq<char>>, trailing: bool) -> bool {
    &&& ids.len() >= 1
    &&& toks.len() == 2 * ids.len() - 1 + (if trailing { 1int } else { 0int })
    &&& forall|k: int| #![trigger ids[k]] 0 <= k < ids.len() ==> literal_at(toks, k, ids[k])
    &&& forall|k: int| 0 <= k && 2 * k + 1 < toks.len() ==> #[trigger] comma_at(toks, k)
}

/// Every id from the `k`-th on is id-shaped.
pub open spec fn shaped_from(ids: Seq<Seq<char>>, k: int) -> bool {
    forall|j: int| k <= j < ids.len() ==> id_shaped(#[trigger] ids[j])
}

/// The `j`-th id is the first one from the `k`-th on that is not id-shaped.
pub open spec fn first_unshaped_from(ids: Seq<Seq<char>>, k: int, j: int) -> bool {
    &&& k <= j < ids.len()
    &&& !id_shaped(ids[j])
    &&& forall|i: int| k <= i < j ==> id_shaped(#[trigger] ids[i])
}

proof fn lemma_quoted_content(id: Seq<char>)
    ensures
        crate::grammar::literal_content(quoted_literal(id)) == Some(id),
{
    let q = quoted_literal(id);
    assert(q.subrange(1, q.len() - 1) =~= id);
}

proof fn lemma_empty_not_shaped()
    ensures
        !id_shaped(Seq::<char>::empty()),
{
    assert(split_dash(Seq::<char>::empty()).len() == 1);
}

proof fn lemma_literal_list_from(
    name: Seq<char>,
    toks: Seq<Token>,
    ids: Seq<Seq<char>>,
    trailing: bool,
    k: int,
    seen_any: bool,
)
    requires
        is_literal_list(toks, ids, trailing),
        0 <= k < ids.len(),
    ensures
        (check(name, toks.skip(2 * k), true, seen_any) is Ok) == shaped_from(ids, k),
        forall|j: int|
            #![trigger ids[j]]
            first_unshaped_from(ids, k, j) ==> (check(name, toks.skip(2 * k), true, seen_any) matches Err(
                (_, sp),
            ) && sp == span_of(toks[2 * j])),
    decreases ids.len() - k,
{
    let s = toks.skip(2 * k);
    let id = ids[k];
    assert(literal_at(toks, k, id));
    assert(s[0] == toks[2 * k]);
    lemma_quoted_content(id);
    lemma_empty_not_shaped();
    assert(s.len() > 0);
    assert(s[0] matches Token::Literal { text, .. } && text@ == quoted_literal(id));
    if id.len() == 0 || !id_shaped(id) {
        if id.len() == 0 {
            assert(id =~= Seq::<char>::empty());
        }
        assert(check(name, s, true, seen_any) matches Err((_, sp)) && sp == span_of(toks[2 * k]));
        assert(first_unshaped_from(ids, k, k));
        assert forall|j: int| #![trigger ids[j]] first_unshaped_from(ids, k, j) implies j == k by {
            if j > k {
                assert(id_shaped(ids[k]));
            }
        }
    } else {
        assert(s.drop_first() =~= toks.skip(2 * k + 1));
        if k == ids.len() - 1 && !trailing {
            assert(toks.skip(2 * k + 1).len() == 0);
            assert(check(name, toks.skip(2 * k + 1), false, true) is Ok);
            assert(check(name, s, true, seen_any) is Ok);
            assert forall|j: int| k <= j < ids.len() implies id_shaped(#[trigger] ids[j]) by {
                assert(j == k);
            }
        } else {
            assert(comma_at(toks, k));
            let s1 = toks.skip(2 * k + 1);
            assert(s1[0] == toks[2 * k + 1]);
            assert(s1.drop_first() =~= toks.skip(2 * k + 2));
            if k == ids.len() - 1 {
                assert(toks.skip(2 * k + 2).len() == 0);
                assert(check(name, toks.skip(2 * k + 2), true, true) is Ok);
                assert(check(name, s1, false, true) is Ok);
                assert forall|j: int| k <= j < ids.len() implies id_shaped(#[trigger] ids[j]) by {
                    assert(j == k);
                }
            } else {
                assert(toks.skip(2 * (k + 1)) == toks.skip(2 * k + 2));
                lemma_literal_list_from(name, toks, ids, trailing, k + 1, true);
                assert(check(name, s1, false, true) == check(name, toks.skip(2 * k + 2), true, true));
                assert(shaped_from(ids, k) == shaped_from(ids, k + 1));
                assert forall|j: int| #![trigger ids[j]] first_unshaped_from(ids, k, j) implies first_unshaped_from(
                    ids,
                    k + 1,
                    j,
                ) by {
                    assert(j != k);
                }
            }
        }
    }
}

/// The grammar in one statement: a non-empty list of string literals,
/// separated by commas and optionally followed by one more, is accepted
/// exactly when every literal holds an id-shaped string; when one does not,
/// the refusal is reported at the first such literal, wherever it stands.
pub proof fn lemma_literal_list(name: Seq<char>, toks: Seq<Token>, ids: Seq<Seq<char>>, trailing: bool)
    requires
        is_literal_list(toks, ids, trailing),
    ensures
        (verdict(name, toks) is Ok) == (forall|k: int| 0 <= k < ids.len() ==> id_shaped(#[trigger] ids[k])),
        forall|j: int|
            #![trigger ids[j]]
            first_unshaped_from(ids, 0, j) ==> (verdict(name, toks) matches Err((_, sp)) && sp
                == span_of(toks[2 * j])),
{
    assert(toks.skip(0) =~= toks);
    lemma_literal_list_from(name, toks, ids, trailing, 0, false);
}

/// Respanning puts every token, at any depth, at the one given span.
pub proof fn lemma_respan_places_everything(a: Seq<Token>, b: Seq<Token>, span: Span)
    requires
        respanned(a, b, span),
    ensures
        all_at(b, span),
    decreases a,
{
    assert forall|i: int| 0 <= i < b.len() implies {
        &&& span_of(#[trigger] b[i]) == span
        &&& (b[i] matches Token::Group { stream, .. } ==> all_at(stream@, span))
    } by {
        assert(token_respanned(a[i], b[i], span));
        match a[i] {
            Token::Group { stream: s1, .. } => match b[i] {
                Token::Group { stream: s2, .. } => {
                    assert(decreases_to!(a => a[i]));
                    lemma_respan_places_everything(s1@, s2@, span);
                },
                _ => {},
            },
            _ => {},
        }
    }
}

/// The diagnostic sits wholly at one place: every token of it, inside the
/// parentheses too, carries the span it was built for.
pub proof fn lemma_diagnostic_at_one_place(toks: Seq<Token>, message: Seq<char>, span: Span)
    requires
        is_compile_error(toks, message, span),
    ensures
        all_at(toks, span),
{
    match toks[7] {
        Token::Group { stream, .. } => {
            assert(all_at(stream@, span));
        },
        _ => {},
    }
}

/// The annotated item always comes out as it went in, at the end of the
/// expansion: alone when the argument list is accepted, after a diagnostic of
/// nine tokens, all at the refused token's span, when it is not.
pub proof fn lemma_item_passes_through(
    name: Seq<char>,
    attr: Seq<Token>,
    item: Seq<Token>,
    out: Seq<Token>,
)
    requires
        expansion(name, attr, item, out),
    ensures
        out.len() == item.len() + (if verdict(name, attr) is Ok { 0int } else { 9int }),
        out.skip(out.len() - item.len()) == item,
        verdict(name, attr) matches Err((_, sp)) ==> all_at(out.take(9), sp),
{
    match verdict(name, attr) {
        Ok(_) => {
            assert(out.skip(0) =~= out);
        },
        Err((m, sp)) => {
            lemma_diagnostic_at_one_place(out.take(9), m, sp);
        },
    }
}

/// An ASCII letter, by its code.
pub open spec fn ascii_letter(c: char) -> bool {
    (65 <= c as u32 && c as u32 <= 90) || (97 <= c as u32 && c as u32 <= 122)
}

/// An ASCII digit, by its code.
pub open spec fn ascii_digit(c: char) -> bool {
    48 <= c as u32 && c as u32 <= 57
}

/// What every id looks like, character by character: it begins with an ASCII
/// letter and holds a dash; it is made of ASCII letters, digits, underscores
/// and dashes, with no underscore after the first dash; it neither ends with
/// a dash nor holds two dashes in a row; and some character after a dash is a
/// digit. So prose (a space, a trailing or doubled dash, a hyphenated word
/// without a number) is never an id.
pub proof fn lemma_ids_have_the_documented_form(s: Seq<char>)
    requires
        id_shaped(s),
    ensures
        s.len() > 0 && ascii_letter(s[0]),
        exists|d: int| 0 <= d < s.len() && #[trigger] s[d] == '-',
        forall|m: int|
            0 <= m < s.len() ==> ascii_letter(#[trigger] s[m]) || ascii_digit(s[m]) || s[m] == '_'
                || s[m] == '-',
        forall|d: int, m: int|
            #![trigger s[d], s[m]]
            0 <= d < m < s.len() && s[d] == '-' ==> ascii_letter(s[m]) || ascii_digit(s[m]) || s[m]
                == '-',
        s.last() != '-',
        forall|m: int| 0 <= m < s.len() - 1 && #[trigger] s[m] == '-' ==> s[m + 1] != '-',
        exists|d: int, m: int|
            #![trigger s[d], s[m]]
            0 <= d < m < s.len() && s[d] == '-' && ascii_digit(s[m]),
{
    let segs = split_dash(s);
    lemma_split_nonempty(s);
    lemma_split_first_piece(s);
    lemma_split_placed(s);
    lemma_split_later_pieces(s);
    lemma_split_single(s);
    assert(segs[0][0] == s[0]);
    assert(segs.len() != 1);
    assert forall|m: int|
        0 <= m < s.len() implies ascii_letter(#[trigger] s[m]) || ascii_digit(s[m]) || s[m] == '_'
            || s[m] == '-' by {
        if s[m] != '-' {
            let (j, i) = choose|j: int, i: int| #[trigger] placed(s, m, j, i);
            if j == 0 {
                assert(crate::id::is_kind_char(segs[0][i]));
            } else {
                assert(crate::id::segment_ok(segs[j]));
                assert(crate::id::is_alnum(segs[j][i]));
            }
        }
    }
    assert forall|d: int, m: int|
        #![trigger s[d], s[m]]
        0 <= d < m < s.len() && s[d] == '-' implies ascii_letter(s[m]) || ascii_digit(s[m]) || s[m]
            == '-' by {
        if s[m] != '-' {
            let (j, i) = choose|j: int, i: int| #[trigger] placed(s, m, j, i);
            assert(!crate::id::before_any_dash(s, m));
            assert(j != 0);
            assert(crate::id::segment_ok(segs[j]));
            assert(crate::id::is_alnum(segs[j][i]));
        }
    }
    if s.last() == '-' {
        let p = s.drop_last();
        lemma_split_nonempty(p);
        assert(segs == split_dash(p).push(Seq::<char>::empty()));
        assert(crate::id::segment_ok(segs[segs.len() - 1]));
    }
    assert forall|m: int| 0 <= m < s.len() - 1 && #[trigger] s[m] == '-' implies s[m + 1] != '-' by {
        if s[m + 1] == '-' {
            lemma_split_double_dash(s, m);
            let j = choose|j: int| 1 <= j < split_dash(s).len() - 1 && (#[trigger] split_dash(s)[j]).len() == 0;
            assert(crate::id::segment_ok(segs[j]));
        }
    }
    let j = choose|j: int| 1 <= j < segs.len() && crate::id::has_digit(#[trigger] segs[j]);
    let i = choose|i: int| 0 <= i < segs[j].len() && crate::id::is_digit(#[trigger] segs[j][i]);
    assert(segs[j][i] == segs[j][i]);
    let m = choose|m: int| 0 <= m < s.len() && !crate::id::before_any_dash(s, m) && #[trigger] s[m] == segs[j][i];
    let d = choose|d: int| 0 <= d < m && s[d] == '-';
    assert(s[d] == '-' && ascii_digit(s[m]));
}

/// Every string of the documented form is an id: a kind (an ASCII letter,
/// then letters, digits or underscores), a dash, then letters, digits and
/// single inner dashes, with a digit somewhere after the kind, wherever it
/// stands.
pub proof fn lemma_documented_form_is_an_id(kind: Seq<char>, tail: Seq<char>)
    requires
        kind.len() > 0,
        ascii_letter(kind[0]),
        forall|i: int|
            0 <= i < kind.len() ==> ascii_letter(#[trigger] kind[i]) || ascii_digit(kind[i]) || kind[i]
                == '_',
        tail.len() > 0,
        tail[0] != '-',
        tail.last() != '-',
        forall|d: int| 0 <= d < tail.len() - 1 && #[trigger] tail[d] == '-' ==> tail[d + 1] != '-',
        forall|d: int|
            0 <= d < tail.len() ==> ascii_letter(#[trigger] tail[d]) || ascii_digit(tail[d]) || tail[d]
                == '-',
        exists|m: int| 0 <= m < tail.len() && ascii_digit(#[trigger] tail[m]),
    ensures
        id_shaped(kind + seq!['-'] + tail),
{
    let s = kind + seq!['-'] + tail;
    assert forall|i: int| 0 <= i < kind.len() implies #[trigger] kind[i] != '-' by {
        assert(ascii_letter(kind[i]) || ascii_digit(kind[i]) || kind[i] == '_');
    }
    lemma_split_without_dash(kind);
    lemma_split_concat(kind, tail);
    assert forall|d: int| 0 <= d < tail.len() - 1 && tail[d] == '-' implies #[trigger] tail[d + 1] != '-' by {
        assert(tail[d] == '-');
    }
    assert forall|d: int| 0 <= d < tail.len() implies crate::id::is_alnum(#[trigger] tail[d]) || tail[d] == '-' by {
        assert(ascii_letter(tail[d]) || ascii_digit(tail[d]) || tail[d] == '-');
    }
    lemma_split_clean(tail);
    lemma_split_nonempty(tail);
    lemma_split_placed(tail);
    let t = split_dash(tail);
    let segs = split_dash(s);
    assert(segs == seq![kind] + t);
    assert(crate::id::kind_ok(kind)) by {
        assert forall|i: int| 0 <= i < kind.len() implies crate::id::is_kind_char(#[trigger] kind[i]) by {
            assert(ascii_letter(kind[i]) || ascii_digit(kind[i]) || kind[i] == '_');
        }
    }
    assert(segs[0] == kind);
    assert forall|j: int| 1 <= j < segs.len() implies crate::id::segment_ok(#[trigger] segs[j]) by {
        assert(segs[j] == t[j - 1]);
        if j - 1 == t.len() - 1 {
            assert(t[j - 1] == t.last());
            assert forall|i: int| 0 <= i < t[j - 1].len() implies crate::id::is_alnum(#[trigger] t[j - 1][i]) by {
                assert(t.last()[i] == t[j - 1][i]);
            }
        } else {
            assert(crate::id::segment_ok(t[j - 1]));
        }
    }
    let m = choose|m: int| 0 <= m < tail.len() && ascii_digit(#[trigger] tail[m]);
    assert(tail[m] != '-');
    let (j, i) = choose|j: int, i: int| #[trigger] placed(tail, m, j, i);
    assert(crate::id::is_digit(t[j][i]));
    assert(segs[j + 1] == t[j]);
    assert(crate::id::has_digit(segs[j + 1]));
}

/// A top-level token that can stand as an argument: a literal, or the
/// invisible group a macro expansion wraps around one.
pub open spec fn is_argument(t: Token) -> bool {
    (t is Literal) || (t matches Token::Group { delimiter, .. } && delimiter == Delimiter::Invisible)
}

/// A comma.
pub open spec fn is_comma(t: Token) -> bool {
    t matches Token::Punct { ch, .. } && ch == ','
}

/// The literal's source form is a double-quoted id.
pub open spec fn quoted_id(text: Seq<char>) -> bool {
    &&& text.len() >= 2
    &&& text[0] == '"'
    &&& text.last() == '"'
    &&& id_shaped(text.subrange(1, text.len() - 1))
}

/// The top-level tokens are arguments and commas, alternating, and every
/// literal among them is a double-quoted id.
pub open spec fn arguments_and_commas(toks: Seq<Token>) -> bool {
    &&& forall|i: int| 0 <= i < toks.len() ==> is_argument(#[trigger] toks[i]) || is_comma(toks[i])
    &&& forall|i: int| 1 <= i < toks.len() ==> is_comma(#[trigger] toks[i]) == is_argument(toks[i - 1])
    &&& forall|i: int|
        0 <= i < toks.len() ==> (#[trigger] toks[i] matches Token::Literal { text, .. } ==> quoted_id(
            text@,
        ))
}

/// The documented form of an argument list: not empty, starting with an
/// argument, arguments and commas alternating (so at most one trailing
/// comma), every literal a double-quoted id, and every invisible group
/// holding a list of the same form.
pub open spec fn documented_form(toks: Seq<Token>) -> bool
    decreases toks,
{
    &&& toks.len() > 0
    &&& is_argument(toks[0])
    &&& arguments_and_commas(toks)
    &&& forall|i: int|
        0 <= i < toks.len() ==> (#[trigger] toks[i] matches Token::Group { stream, .. } ==> documented_form(
            stream@,
        ))
}

proof fn lemma_accepted_from(name: Seq<char>, toks: Seq<Token>, expect_literal: bool, seen_any: bool)
    requires
        check(name, toks, expect_literal, seen_any) is Ok,
    ensures
        arguments_and_commas(toks),
        forall|i: int|
            0 <= i < toks.len() ==> (#[trigger] toks[i] matches Token::Group { stream, .. } ==> documented_form(
                stream@,
            )),
        toks.len() > 0 ==> (if expect_literal {
            is_argument(toks[0])
        } else {
            is_comma(toks[0])
        }),
        toks.len() == 0 ==> seen_any,
    decreases toks,
{
    if toks.len() > 0 {
        let t = toks[0];
        let rest = toks.drop_first();
        match t {
            Token::Literal { .. } => {
                lemma_accepted_from(name, rest, false, true);
            },
            Token::Punct { .. } => {
                lemma_accepted_from(name, rest, true, seen_any);
            },
            Token::Group { stream, .. } => {
                assert(decreases_to!(toks => toks[0]));
                lemma_accepted_from(name, stream@, true, false);
                lemma_accepted_from(name, rest, false, true);
            },
            Token::Ident { .. } => {},
        }
        assert forall|i: int| 1 <= i < toks.len() implies toks[i] == rest[i - 1] by {}
    }
}

proof fn lemma_documented_accepted(name: Seq<char>, toks: Seq<Token>, expect_literal: bool, seen_any: bool)
    requires
        arguments_and_commas(toks),
        forall|i: int|
            0 <= i < toks.len() ==> (#[trigger] toks[i] matches Token::Group { stream, .. } ==> documented_form(
                stream@,
            )),
        toks.len() > 0 ==> (if expect_literal {
            is_argument(toks[0])
        } else {
            is_comma(toks[0])
        }),
        seen_any || (expect_literal && toks.len() > 0),
    ensures
        check(name, toks, expect_literal, seen_any) is Ok,
    decreases toks,
{
    if toks.len() > 0 {
        let t = toks[0];
        let rest = toks.drop_first();
        assert forall|i: int| 0 <= i < rest.len() implies rest[i] == toks[i + 1] by {}
        assert(arguments_and_commas(rest)) by {
            assert forall|i: int| 1 <= i < rest.len() implies is_comma(#[trigger] rest[i]) == is_argument(
                rest[i - 1],
            ) by {
                assert(rest[i] == toks[i + 1]);
                assert(rest[i - 1] == toks[i]);
            }
        }
        if rest.len() > 0 {
            assert(is_comma(toks[1]) == is_argument(toks[0]));
        }
        match t {
            Token::Literal { text, .. } => {
                lemma_empty_not_shaped();
                assert(quoted_id(text@));
                let id = text@.subrange(1, text@.len() - 1);
                if id.len() == 0 {
                    assert(id =~= Seq::<char>::empty());
                }
                lemma_documented_accepted(name, rest, false, true);
            },
            Token::Punct { .. } => {
                lemma_documented_accepted(name, rest, true, seen_any);
            },
            Token::Group { stream, .. } => {
                assert(decreases_to!(toks => toks[0]));
                assert(documented_form(stream@));
                lemma_documented_accepted(name, stream@, true, false);
                lemma_documented_accepted(name, rest, false, true);
            },
            Token::Ident { .. } => {},
        }
    }
}

/// An argument list is accepted exactly when it has the documented form: not
/// empty; string literals holding ids, and invisible groups holding lists of
/// the same form, separated by commas, with at most one trailing comma. So an
/// identifier, any punctuation but a comma, a bracketed group, a literal that
/// is not a double-quoted id, two arguments with no comma between them, and a
/// leading or doubled comma are each refused.
pub proof fn lemma_acceptance_is_the_documented_form(name: Seq<char>, attr: Seq<Token>)
    ensures
        (verdict(name, attr) is Ok) == documented_form(attr),
{
    if verdict(name, attr) is Ok {
        lemma_accepted_from(name, attr, true, false);
    }
    if documented_form(attr) {
        lemma_documented_accepted(name, attr, true, false);
    }
}

} // verus!
