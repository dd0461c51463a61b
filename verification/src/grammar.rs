//! The argument grammar of both attributes: `"lit"` (`,` `"lit"`)* with an
//! optional trailing comma, every literal id-shaped, and the first token at
//! fault reported with its own span.

use vstd::prelude::*;

use crate::id::{id_shaped, is_id_shaped};
use crate::tokens::{display, span_of, Delimiter, Span, Token};

verus! {

/// Why an argument list was refused, and where to underline it.
pub struct Rejection {
    pub message: String,
    pub span: Span,
}

/// The message for an argument that is not a string literal.
pub open spec fn not_string_message(name: Seq<char>, found: Seq<char>) -> Seq<char> {
    "`"@ + name + "` arguments must be string literals; found `"@ + found + "`"@
}

/// The message for an empty string literal.
pub open spec fn empty_string_message(name: Seq<char>) -> Seq<char> {
    "`"@ + name + "` arguments must not be empty strings"@
}

/// The message for a literal that is not id-shaped.
pub open spec fn not_id_message(name: Seq<char>, id: Seq<char>) -> Seq<char> {
    "`"@ + id
        + "` is not a spec id: expected `KIND-NUMBER`, optionally followed by `-SUBKIND-NUMBER` (for example `TC-707` or `FR-047-AC-1`). `"@
        + name + "` does not check which kinds exist — only that the argument is an id and not prose."@
}

/// The message for a token the grammar has no place for.
pub open spec fn not_grammar_message(name: Seq<char>, found: Seq<char>) -> Seq<char> {
    "`"@ + name + "` takes comma-separated string literals; found `"@ + found + "`"@
}

/// The message for an argument list with no id in it.
pub open spec fn no_ids_message(name: Seq<char>) -> Seq<char> {
    "`"@ + name + "` needs at least one trace id, e.g. #["@ + name + "(\"FR-001-AC-1\")]"@
}

/// The contents of a string literal's source form: what lies between an
/// opening and a closing double quote, or nothing when the form is not so
/// quoted (a raw or byte string, a number, a character).
pub open spec fn literal_content(text: Seq<char>) -> Option<Seq<char>> {
    if text.len() >= 2 && text[0] == '"' && text.last() == '"' {
        Some(text.subrange(1, text.len() - 1))
    } else {
        None
    }
}

/// The verdict on the token stream `toks` for the attribute `name`, read left
/// to right: `expect_literal` says whether a literal may come next, and
/// `seen_any` whether an id was already accepted. `Err` carries the message
/// and the span of the first token at fault.
pub open spec fn check(name: Seq<char>, toks: Seq<Token>, expect_literal: bool, seen_any: bool)
    -> Result<(), (Seq<char>, Span)>
    decreases toks,
{
    if toks.len() == 0 {
        if seen_any {
            Ok(())
        } else {
            Err((no_ids_message(name), Span::CallSite))
        }
    } else {
        let t = toks[0];
        let rest = toks.drop_first();
        let refused = Err((not_grammar_message(name, display(t)), span_of(t)));
        match t {
            Token::Literal { text, span } => if expect_literal {
                match literal_content(text@) {
                    None => Err((not_string_message(name, text@), span)),
                    Some(id) => if id.len() == 0 {
                        Err((empty_string_message(name), span))
                    } else if !id_shaped(id) {
                        Err((not_id_message(name, id), span))
                    } else {
                        check(name, rest, false, true)
                    },
                }
            } else {
                refused
            },
            Token::Punct { ch, .. } => if !expect_literal && ch == ',' {
                check(name, rest, true, seen_any)
            } else {
                refused
            },
            Token::Group { delimiter, stream, .. } => if expect_literal && delimiter == Delimiter::Invisible {
                match check(name, stream@, true, false) {
                    Err(e) => Err(e),
                    Ok(_) => check(name, rest, false, true),
                }
            } else {
                refused
            },
            Token::Ident { .. } => refused,
        }
    }
}

/// The verdict on a whole attribute argument list.
pub open spec fn verdict(name: Seq<char>, attr: Seq<Token>) -> Result<(), (Seq<char>, Span)> {
    check(name, attr, true, false)
}

/// The text of a single character.
///
/// Trusted: calls std's `String::from(char)`, which the documentation says
/// allocates a string holding that one character.
#[verifier::external_body]
fn char_text(c: char) -> (s: String)
    ensures
        s@ == seq![c],
{
    String::from(c)
}

fn not_string(name: &str, found: &str) -> (m: String)
    ensures
        m@ == not_string_message(name@, found@),
{
    let mut m = String::from_str("`");
    m.append(name);
    m.append("` arguments must be string literals; found `");
    m.append(found);
    m.append("`");
    m
}

fn empty_string(name: &str) -> (m: String)
    ensures
        m@ == empty_string_message(name@),
{
    let mut m = String::from_str("`");
    m.append(name);
    m.append("` arguments must not be empty strings");
    m
}

fn not_id(name: &str, id: &str) -> (m: String)
    ensures
        m@ == not_id_message(name@, id@),
{
    let mut m = String::from_str("`");
    m.append(id);
    m.append(
        "` is not a spec id: expected `KIND-NUMBER`, optionally followed by `-SUBKIND-NUMBER` (for example `TC-707` or `FR-047-AC-1`). `",
    );
    m.append(name);
    m.append("` does not check which kinds exist — only that the argument is an id and not prose.");
    m
}

fn not_grammar(name: &str, found: &str) -> (m: String)
    ensures
        m@ == not_grammar_message(name@, found@),
{
    let mut m = String::from_str("`");
    m.append(name);
    m.append("` takes comma-separated string literals; found `");
    m.append(found);
    m.append("`");
    m
}

fn no_ids(name: &str) -> (m: String)
    ensures
        m@ == no_ids_message(name@),
{
    let mut m = String::from_str("`");
    m.append(name);
    m.append("` needs at least one trace id, e.g. #[");
    m.append(name);
    m.append("(\"FR-001-AC-1\")]");
    m
}

/// The rejection for a token that has no place in the grammar.
fn refuse(name: &str, t: &Token) -> (r: Rejection)
    ensures
        r.message@ == not_grammar_message(name@, display(*t)),
        r.span == span_of(*t),
{
    match t {
        Token::Group { text, span, .. } => Rejection { message: not_grammar(name, text.as_str()), span: *span },
        Token::Ident { text, span } => Rejection { message: not_grammar(name, text.as_str()), span: *span },
        Token::Punct { ch, span, .. } => {
            let shown = char_text(*ch);
            Rejection { message: not_grammar(name, shown.as_str()), span: *span }
        },
        Token::Literal { text, span } => Rejection { message: not_grammar(name, text.as_str()), span: *span },
    }
}

fn strip_quotes(text: &str) -> (r: Option<&str>)
    ensures
        match r {
            Some(id) => literal_content(text@) == Some(id@),
            None => literal_content(text@) is None,
        },
{
    let n = text.unicode_len();
    if n >= 2 && text.get_char(0) == '"' && text.get_char(n - 1) == '"' {
        Some(text.substring_char(1, n - 1))
    } else {
        None
    }
}

/// Accept `"lit"` (`,` `"lit"`)* with an optional trailing comma, where every
/// literal is in id shape, and nothing else; an invisible group standing
/// where a literal may come is read through, as the fragment a macro
/// expansion put there.
pub fn validate(name: &str, attr: &Vec<Token>) -> (r: Result<(), Rejection>)
    ensures
        match r {
            Ok(_) => verdict(name@, attr@) is Ok,
            Err(e) => verdict(name@, attr@) == Err::<(), (Seq<char>, Span)>((e.message@, e.span)),
        },
    decreases attr@,
{
    let mut expect_literal = true;
    let mut seen_any = false;
    let mut i: usize = 0;
    proof {
        assert(attr@.skip(0) =~= attr@);
    }
    while i < attr.len()
        invariant
            i <= attr@.len(),
            verdict(name@, attr@) == check(name@, attr@.skip(i as int), expect_literal, seen_any),
        decreases attr@.len() - i,
    {
        let ghost suffix = attr@.skip(i as int);
        proof {
            assert(suffix[0] == attr@[i as int]);
            assert(suffix.drop_first() =~= attr@.skip(i + 1));
        }
        match &attr[i] {
            Token::Literal { text, span } => {
                if !expect_literal {
                    return Err(refuse(name, &attr[i]));
                }
                match strip_quotes(text.as_str()) {
                    None => {
                        return Err(Rejection { message: not_string(name, text.as_str()), span: *span });
                    },
                    Some(id) => {
                        if id.unicode_len() == 0 {
                            return Err(Rejection { message: empty_string(name), span: *span });
                        }
                        if !is_id_shaped(id) {
                            return Err(Rejection { message: not_id(name, id), span: *span });
                        }
                    },
                }
                expect_literal = false;
                seen_any = true;
            },
            Token::Punct { ch, .. } => {
                if expect_literal || *ch != ',' {
                    return Err(refuse(name, &attr[i]));
                }
                expect_literal = true;
            },
            Token::Group { delimiter, stream, .. } => {
                if !expect_literal || *delimiter != Delimiter::Invisible {
                    return Err(refuse(name, &attr[i]));
                }
                proof {
                    assert(decreases_to!(attr@ => attr@[i as int]));
                }
                match validate(name, stream) {
                    Err(e) => {
                        return Err(e);
                    },
                    Ok(_) => {},
                }
                expect_literal = false;
                seen_any = true;
            },
            Token::Ident { .. } => {
                return Err(refuse(name, &attr[i]));
            },
        }
        i = i + 1;
    }
    if !seen_any {
        return Err(Rejection { message: no_ids(name), span: Span::CallSite });
    }
    Ok(())
}

} // verus!
