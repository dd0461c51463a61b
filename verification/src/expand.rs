//! The two attributes: each validates its argument list and hands the
//! annotated item back unchanged, preceded by a spanned `compile_error!` when
//! the list is refused.

use vstd::prelude::*;

use crate::grammar::{validate, verdict, Rejection};
use crate::tokens::{respan, respanned, Delimiter, Span, Token};

verus! {

/// How std's `Debug` formats a string: the characters between double quotes,
/// with quotes, backslashes and unprintable characters escaped.
pub uninterp spec fn debug_quoted(s: Seq<char>) -> Seq<char>;

/// The string-literal form of `s`.
///
/// Trusted: calls std's `Debug` formatting of a `str` (`format!("{s:?}")`),
/// whose result depends on `s` alone; the contract names that result and says
/// nothing of the escaping rules themselves.
#[verifier::external_body]
fn debug_literal(s: &str) -> (lit: String)
    ensures
        lit@ == debug_quoted(s@),
{
    format!("{s:?}")
}

/// `toks` is `::core::compile_error!("<message>");`, the message written as
/// `Debug` writes a string, with every token at `span`.
pub open spec fn is_compile_error(toks: Seq<Token>, message: Seq<char>, span: Span) -> bool {
    &&& toks.len() == 9
    &&& toks[0] == Token::Punct { ch: ':', joint: true, span }
    &&& toks[1] == Token::Punct { ch: ':', joint: false, span }
    &&& toks[2] matches Token::Ident { text, span: s } && text@ == "core"@ && s == span
    &&& toks[3] == Token::Punct { ch: ':', joint: true, span }
    &&& toks[4] == Token::Punct { ch: ':', joint: false, span }
    &&& toks[5] matches Token::Ident { text, span: s } && text@ == "compile_error"@ && s == span
    &&& toks[6] == Token::Punct { ch: '!', joint: false, span }
    &&& toks[7] matches Token::Group { delimiter, stream, text, span: s } && delimiter
        == Delimiter::Parenthesis && s == span && stream@.len() == 1 && (stream@[0] matches Token::Literal {
        text: lit,
        span: s2,
    } && lit@ == debug_quoted(message) && s2 == span && text@ == "("@ + lit@ + ")"@)
    &&& toks[8] == Token::Punct { ch: ';', joint: false, span }
}

/// `out` is what the attribute `name` expands to, given the argument list
/// `attr` and the annotated item `item`: the item itself when the list is
/// accepted, else the spanned `compile_error!` followed by the item.
pub open spec fn expansion(name: Seq<char>, attr: Seq<Token>, item: Seq<Token>, out: Seq<Token>) -> bool {
    match verdict(name, attr) {
        Ok(_) => out == item,
        Err((message, span)) => {
            &&& out.len() == 9 + item.len()
            &&& is_compile_error(out.take(9), message, span)
            &&& out.skip(9) == item
        },
    }
}

/// Build `::core::compile_error!("…");` with every token, inside the
/// parentheses too, carrying `span`, so the diagnostic underlines the argument
/// that was refused rather than the whole attribute.
pub fn diagnostic(message: &str, span: Span) -> (out: Vec<Token>)
    ensures
        is_compile_error(out@, message@, span),
{
    let lit = debug_literal(message);
    let mut group_text = String::from_str("(");
    group_text.append(lit.as_str());
    group_text.append(")");
    let inner = vec![Token::Literal { text: lit, span: Span::CallSite }];
    let raw = vec![
        Token::Punct { ch: ':', joint: true, span: Span::CallSite },
        Token::Punct { ch: ':', joint: false, span: Span::CallSite },
        Token::Ident { text: String::from_str("core"), span: Span::CallSite },
        Token::Punct { ch: ':', joint: true, span: Span::CallSite },
        Token::Punct { ch: ':', joint: false, span: Span::CallSite },
        Token::Ident { text: String::from_str("compile_error"), span: Span::CallSite },
        Token::Punct { ch: '!', joint: false, span: Span::CallSite },
        Token::Group {
            delimiter: Delimiter::Parenthesis,
            stream: inner,
            text: group_text,
            span: Span::CallSite,
        },
        Token::Punct { ch: ';', joint: false, span: Span::CallSite },
    ];
    let ghost raw_view = raw@;
    let out = respan(raw, span);
    proof {
        assert(respanned(raw_view, out@, span));
        let tail = out@[7];
        assert(crate::tokens::token_respanned(raw_view[7], tail, span));
        match tail {
            Token::Group { stream, .. } => {
                assert(crate::tokens::token_respanned(inner@[0], stream@[0], span));
            },
            _ => {},
        }
        assert(crate::tokens::token_respanned(raw_view[0], out@[0], span));
        assert(crate::tokens::token_respanned(raw_view[1], out@[1], span));
        assert(crate::tokens::token_respanned(raw_view[2], out@[2], span));
        assert(crate::tokens::token_respanned(raw_view[3], out@[3], span));
        assert(crate::tokens::token_respanned(raw_view[4], out@[4], span));
        assert(crate::tokens::token_respanned(raw_view[5], out@[5], span));
        assert(crate::tokens::token_respanned(raw_view[6], out@[6], span));
        assert(crate::tokens::token_respanned(raw_view[8], out@[8], span));
    }
    out
}

/// Validate `attr` and return `item` untouched, preceded by a spanned
/// `compile_error!` when the argument list is not well formed.
pub fn expand(name: &str, attr: &Vec<Token>, item: Vec<Token>) -> (out: Vec<Token>)
    ensures
        expansion(name@, attr@, item@, out@),
{
    match validate(name, attr) {
        Ok(_) => item,
        Err(Rejection { message, span }) => {
            let mut out = diagnostic(message.as_str(), span);
            let ghost head = out@;
            let mut rest = item;
            out.append(&mut rest);
            proof {
                assert(out@.take(9) =~= head);
                assert(out@.skip(9) =~= item@);
            }
            out
        },
    }
}

/// Attach spec trace ids to an item, declaring that it verifies them: the
/// arguments must be id-shaped string literals, and the expansion is the item,
/// unchanged.
pub fn trace(attr: Vec<Token>, item: Vec<Token>) -> (out: Vec<Token>)
    ensures
        expansion("trace"@, attr@, item@, out@),
{
    expand("trace", &attr, item)
}

/// Attach spec ids to an item, declaring that it implements them: the same
/// grammar and the same pass-through as `trace`, under its own name.
pub fn implements(attr: Vec<Token>, item: Vec<Token>) -> (out: Vec<Token>)
    ensures
        expansion("implements"@, attr@, item@, out@),
{
    expand("implements", &attr, item)
}

} // verus!
