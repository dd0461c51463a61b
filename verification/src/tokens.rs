//! A plain-value model of a procedural macro's token stream: the tokens an
//! attribute receives and the tokens it hands back, each with the place in the
//! source it is reported at.

use vstd::prelude::*;

verus! {

/// Where a token is reported: at the macro's call site, or at one place in
/// the source, named by a number that the caller keeps the meaning of.
#[derive(Clone, Copy, Debug, PartialEq, Eq, Structural)]
pub enum Span {
    CallSite,
    Source(u64),
}

/// The brackets around a group; `Invisible` is the group without brackets
/// that wraps a macro-expanded fragment.
#[derive(Clone, Copy, Debug, PartialEq, Eq, Structural)]
pub enum Delimiter {
    Parenthesis,
    Brace,
    Bracket,
    Invisible,
}

/// One token tree. `text` is the token as it prints: an identifier's name, a
/// literal's source form (quotes included), a group's whole printed form.
#[derive(Debug)]
pub enum Token {
    Group { delimiter: Delimiter, stream: Vec<Token>, text: String, span: Span },
    Ident { text: String, span: Span },
    Punct { ch: char, joint: bool, span: Span },
    Literal { text: String, span: Span },
}

/// The span a token is reported at.
pub open spec fn span_of(t: Token) -> Span {
    match t {
        Token::Group { span, .. } => span,
        Token::Ident { span, .. } => span,
        Token::Punct { span, .. } => span,
        Token::Literal { span, .. } => span,
    }
}

/// How a token prints.
pub open spec fn display(t: Token) -> Seq<char> {
    match t {
        Token::Group { text, .. } => text@,
        Token::Ident { text, .. } => text@,
        Token::Punct { ch, .. } => seq![ch],
        Token::Literal { text, .. } => text@,
    }
}

/// `b` is `a` with its span, and every span inside it, replaced by `span`.
pub open spec fn token_respanned(a: Token, b: Token, span: Span) -> bool
    decreases a,
{
    match a {
        Token::Group { delimiter, stream, text, .. } => match b {
            Token::Group { delimiter: d2, stream: s2, text: t2, span: sp } => {
                &&& d2 == delimiter
                &&& t2 == text
                &&& sp == span
                &&& respanned(stream@, s2@, span)
            },
            _ => false,
        },
        Token::Ident { text, .. } => b == Token::Ident { text, span },
        Token::Punct { ch, joint, .. } => b == Token::Punct { ch, joint, span },
        Token::Literal { text, .. } => b == Token::Literal { text, span },
    }
}

/// `b` is the stream `a` with every span, at any depth, replaced by `span`.
pub open spec fn respanned(a: Seq<Token>, b: Seq<Token>, span: Span) -> bool
    decreases a,
{
    &&& a.len() == b.len()
    &&& forall|i: int| 0 <= i < a.len() ==> token_respanned(#[trigger] a[i], b[i], span)
}

/// Every token of the stream, at any depth, is reported at `span`.
pub open spec fn all_at(toks: Seq<Token>, span: Span) -> bool
    decreases toks,
{
    forall|i: int|
        0 <= i < toks.len() ==> {
            &&& span_of(#[trigger] toks[i]) == span
            &&& (toks[i] matches Token::Group { stream, .. } ==> all_at(stream@, span))
        }
}

/// Stamp `span` onto every token of the stream, inside groups too, so that a
/// diagnostic built from it underlines one place.
pub fn respan(stream: Vec<Token>, span: Span) -> (out: Vec<Token>)
    ensures
        respanned(stream@, out@, span),
    decreases stream@,
{
    let ghost orig = stream@;
    let mut rest = stream;
    let mut out: Vec<Token> = Vec::new();
    while rest.len() > 0
        invariant
            orig == stream@,
            out@.len() + rest@.len() == orig.len(),
            rest@ == orig.skip(out@.len() as int),
            forall|i: int| 0 <= i < out@.len() ==> token_respanned(#[trigger] orig[i], out@[i], span),
        decreases rest@.len(),
    {
        let ghost k = out@.len() as int;
        let t = rest.remove(0);
        assert(t == orig[k]);
        let stamped = match t {
            Token::Group { delimiter, stream: inner, text, .. } => {
                assert(decreases_to!(orig => orig[k]));
                let inner2 = respan(inner, span);
                Token::Group { delimiter, stream: inner2, text, span }
            },
            Token::Ident { text, .. } => Token::Ident { text, span },
            Token::Punct { ch, joint, .. } => Token::Punct { ch, joint, span },
            Token::Literal { text, .. } => Token::Literal { text, span },
        };
        out.push(stamped);
        proof {
            assert(rest@ =~= orig.skip(out@.len() as int));
        }
    }
    proof {
        assert(respanned(orig, out@, span));
    }
    out
}

} // verus!
