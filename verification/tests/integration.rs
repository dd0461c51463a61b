use ix_trace_rs::expand::{implements, trace};
use ix_trace_rs::tokens::{Delimiter, Span, Token};

fn lit(text: &str, at: u64) -> Token {
    Token::Literal { text: format!("{text:?}"), span: Span::Source(at) }
}

fn ident(text: &str, at: u64) -> Token {
    Token::Ident { text: text.to_string(), span: Span::Source(at) }
}

fn punct(ch: char, joint: bool, at: u64) -> Token {
    Token::Punct { ch, joint, span: Span::Source(at) }
}

fn group(delimiter: Delimiter, stream: Vec<Token>, text: &str, at: u64) -> Token {
    Token::Group { delimiter, stream, text: text.to_string(), span: Span::Source(at) }
}

/// The comma-separated literals of `ids`, as an attribute receives them.
fn args(ids: &[&str]) -> Vec<Token> {
    let mut out = Vec::new();
    for (k, id) in ids.iter().enumerate() {
        if k > 0 {
            out.push(punct(',', false, 1000 + k as u64));
        }
        out.push(lit(id, k as u64));
    }
    out
}

/// `fn <name>() -> u8 { <value> }`
fn function_item(name: &str, value: u8) -> Vec<Token> {
    let body = vec![Token::Literal { text: value.to_string(), span: Span::Source(207) }];
    vec![
        ident("fn", 200),
        ident(name, 201),
        group(Delimiter::Parenthesis, Vec::new(), "()", 202),
        punct('-', true, 203),
        punct('>', false, 204),
        ident("u8", 205),
        group(Delimiter::Brace, body, &format!("{{ {value} }}"), 206),
    ]
}

/// `struct <name> { value: u8, }`
fn struct_item(name: &str) -> Vec<Token> {
    let fields = vec![ident("value", 303), punct(':', false, 304), ident("u8", 305), punct(',', false, 306)];
    vec![
        ident("struct", 300),
        ident(name, 301),
        group(Delimiter::Brace, fields, "{ value : u8, }", 302),
    ]
}

fn same_token(a: &Token, b: &Token) -> bool {
    match (a, b) {
        (
            Token::Group { delimiter: d1, stream: s1, text: t1, span: p1 },
            Token::Group { delimiter: d2, stream: s2, text: t2, span: p2 },
        ) => d1 == d2 && t1 == t2 && p1 == p2 && same(s1, s2),
        (Token::Ident { text: t1, span: p1 }, Token::Ident { text: t2, span: p2 }) => t1 == t2 && p1 == p2,
        (
            Token::Punct { ch: c1, joint: j1, span: p1 },
            Token::Punct { ch: c2, joint: j2, span: p2 },
        ) => c1 == c2 && j1 == j2 && p1 == p2,
        (Token::Literal { text: t1, span: p1 }, Token::Literal { text: t2, span: p2 }) => t1 == t2 && p1 == p2,
        _ => false,
    }
}

fn same(a: &[Token], b: &[Token]) -> bool {
    a.len() == b.len() && a.iter().zip(b.iter()).all(|(x, y)| same_token(x, y))
}

fn single_marker() -> u8 {
    7
}

fn multiple_ids() -> u8 {
    9
}

fn normalized_argument_list() -> u8 {
    11
}

struct Annotated {
    value: u8,
}

#[test]
fn attribute_is_transparent_on_functions() {
    let out = trace(args(&["FR-051-AC-4"]), function_item("single_marker", 7));
    assert!(same(&out, &function_item("single_marker", 7)));
    let out = trace(args(&["FR-051-AC-4", "TC-744"]), function_item("multiple_ids", 9));
    assert!(same(&out, &function_item("multiple_ids", 9)));
    let mut trailing = args(&["FR-051-AC-4"]);
    trailing.push(punct(',', false, 999));
    let out = trace(trailing, function_item("normalized_argument_list", 11));
    assert!(same(&out, &function_item("normalized_argument_list", 11)));

    assert_eq!(single_marker(), 7);
    assert_eq!(multiple_ids(), 9);
    assert_eq!(normalized_argument_list(), 11);
}

#[test]
fn attribute_is_transparent_on_items() {
    let out = trace(args(&["FR-051-AC-6"]), struct_item("Annotated"));
    assert!(same(&out, &struct_item("Annotated")));
    let annotated = Annotated { value: 3 };
    assert_eq!(annotated.value, 3);
}

#[test]
fn attribute_composes_with_the_test_attribute() {
    // `#[test]` below the marker is part of the item the marker receives.
    let mut item = vec![
        punct('#', false, 400),
        group(Delimiter::Bracket, vec![ident("test", 402)], "[test]", 401),
    ];
    item.extend(function_item("single_marker", 7));
    let mut expected = vec![
        punct('#', false, 400),
        group(Delimiter::Bracket, vec![ident("test", 402)], "[test]", 401),
    ];
    expected.extend(function_item("single_marker", 7));
    let out = trace(args(&["TC-003", "FR-001-AC-4"]), item);
    assert!(same(&out, &expected));
    assert_eq!(single_marker(), 7);
}

fn implemented_marker() -> u8 {
    13
}

struct Scoped {
    value: u8,
}

#[test]
fn implements_is_transparent_on_functions_and_items() {
    let out = implements(args(&["FR-051-AC-4"]), function_item("implemented_marker", 13));
    assert!(same(&out, &function_item("implemented_marker", 13)));
    let out = implements(args(&["FR-051-AC-4", "FR-051-AC-6"]), struct_item("Scoped"));
    assert!(same(&out, &struct_item("Scoped")));
    assert_eq!(implemented_marker(), 13);
    assert_eq!(Scoped { value: 5 }.value, 5);
}

fn both_attributes() -> u8 {
    17
}

#[test]
fn trace_and_implements_compose() {
    // `#[implements(...)]` stays on the item that `#[trace(...)]` receives,
    // then runs on what `trace` hands back.
    let implements_attr = || {
        vec![
            punct('#', false, 500),
            group(Delimiter::Bracket, Vec::new(), "[implements(\"FR-051-AC-4\")]", 501),
        ]
    };
    let mut item = implements_attr();
    item.extend(function_item("both_attributes", 17));
    let after_trace = trace(args(&["TC-744"]), item);
    let mut expected = implements_attr();
    expected.extend(function_item("both_attributes", 17));
    assert!(same(&after_trace, &expected));

    let after_implements = implements(args(&["FR-051-AC-4"]), function_item("both_attributes", 17));
    assert!(same(&after_implements, &function_item("both_attributes", 17)));
    assert_eq!(both_attributes(), 17);
}

fn interface_ac_backed() -> u8 {
    19
}

#[test]
fn kind_segment_with_underscore_and_digit_compiles() {
    let out = trace(args(&["interface_004-AC-1"]), function_item("interface_ac_backed", 19));
    assert!(same(&out, &function_item("interface_ac_backed", 19)));
    assert_eq!(interface_ac_backed(), 19);
}
