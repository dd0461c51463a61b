use ix_trace_rs::expand::{diagnostic, implements, trace};
use ix_trace_rs::grammar::validate;
use ix_trace_rs::tokens::{respan, Delimiter, Span, Token};

fn lit(text: &str, at: u64) -> Token {
    Token::Literal { text: format!("{text:?}"), span: Span::Source(at) }
}

fn raw_lit(text: &str, at: u64) -> Token {
    Token::Literal { text: text.to_string(), span: Span::Source(at) }
}

fn comma(at: u64) -> Token {
    Token::Punct { ch: ',', joint: false, span: Span::Source(at) }
}

fn ident(text: &str, at: u64) -> Token {
    Token::Ident { text: text.to_string(), span: Span::Source(at) }
}

fn item() -> Vec<Token> {
    vec![ident("fn", 90), ident("annotated", 91)]
}

fn span_of(t: &Token) -> Span {
    match t {
        Token::Group { span, .. } | Token::Ident { span, .. } | Token::Punct { span, .. } | Token::Literal { span, .. } => {
            *span
        },
    }
}

fn all_at(toks: &[Token], at: Span) -> bool {
    toks.iter().all(|t| {
        span_of(t) == at
            && match t {
                Token::Group { stream, .. } => all_at(stream, at),
                _ => true,
            }
    })
}

/// The message a diagnostic carries, read back out of its string literal.
fn diagnostic_literal(out: &[Token]) -> String {
    match &out[7] {
        Token::Group { stream, .. } => match &stream[0] {
            Token::Literal { text, .. } => text.clone(),
            _ => panic!("no literal in the diagnostic"),
        },
        _ => panic!("no group in the diagnostic"),
    }
}

fn rejection(name: &str, attr: Vec<Token>) -> (String, Span) {
    match validate(name, &attr) {
        Ok(()) => panic!("accepted"),
        Err(r) => (r.message, r.span),
    }
}

#[test]
fn second_id_is_prose_is_reported_at_the_second_literal() {
    let attr = vec![lit("TC-707", 1), comma(2), lit("vague-response", 3)];
    let out = trace(attr, item());
    assert_eq!(out.len(), 11);
    assert!(all_at(&out[..9], Span::Source(3)));
    let expected = "`vague-response` is not a spec id: expected `KIND-NUMBER`, optionally followed by \
                    `-SUBKIND-NUMBER` (for example `TC-707` or `FR-047-AC-1`). `trace` does not check \
                    which kinds exist — only that the argument is an id and not prose.";
    assert_eq!(diagnostic_literal(&out), format!("{expected:?}"));
    match (&out[9], &out[10]) {
        (Token::Ident { text: a, .. }, Token::Ident { text: b, .. }) => {
            assert_eq!(a, "fn");
            assert_eq!(b, "annotated");
        },
        _ => panic!("the item did not follow the diagnostic"),
    }
}

#[test]
fn the_diagnostic_is_compile_error_with_the_message_as_a_literal() {
    let out = diagnostic("a \"quoted\" message", Span::Source(5));
    let shape: Vec<String> = out
        .iter()
        .map(|t| match t {
            Token::Punct { ch, .. } => ch.to_string(),
            Token::Ident { text, .. } => text.clone(),
            Token::Group { text, .. } => text.clone(),
            Token::Literal { text, .. } => text.clone(),
        })
        .collect();
    assert_eq!(shape, vec![":", ":", "core", ":", ":", "compile_error", "!", "(\"a \\\"quoted\\\" message\")", ";"]);
    assert!(all_at(&out, Span::Source(5)));
}

#[test]
fn implements_names_itself_when_it_refuses_prose() {
    let out = implements(vec![lit("hello world", 4)], item());
    let expected = "`hello world` is not a spec id: expected `KIND-NUMBER`, optionally followed by \
                    `-SUBKIND-NUMBER` (for example `TC-707` or `FR-047-AC-1`). `implements` does not \
                    check which kinds exist — only that the argument is an id and not prose.";
    assert_eq!(diagnostic_literal(&out), format!("{expected:?}"));
    assert!(all_at(&out[..9], Span::Source(4)));
}

#[test]
fn an_empty_argument_list_is_refused_at_the_call_site() {
    let (message, span) = rejection("trace", Vec::new());
    assert_eq!(message, "`trace` needs at least one trace id, e.g. #[trace(\"FR-001-AC-1\")]");
    assert_eq!(span, Span::CallSite);
}

#[test]
fn a_comma_alone_is_refused() {
    let (message, span) = rejection("trace", vec![comma(8)]);
    assert_eq!(message, "`trace` takes comma-separated string literals; found `,`");
    assert_eq!(span, Span::Source(8));
}

#[test]
fn a_non_literal_argument_is_refused_naming_the_token() {
    let (message, span) = rejection("trace", vec![ident("FR_001_AC_1", 6)]);
    assert_eq!(message, "`trace` takes comma-separated string literals; found `FR_001_AC_1`");
    assert_eq!(span, Span::Source(6));
}

#[test]
fn a_literal_that_is_not_a_string_is_refused() {
    let (message, span) = rejection("implements", vec![raw_lit("707", 2)]);
    assert_eq!(message, "`implements` arguments must be string literals; found `707`");
    assert_eq!(span, Span::Source(2));
    let (message, _) = rejection("trace", vec![raw_lit("r\"TC-707\"", 2)]);
    assert_eq!(message, "`trace` arguments must be string literals; found `r\"TC-707\"`");
}

#[test]
fn an_empty_string_is_refused() {
    let (message, span) = rejection("trace", vec![lit("", 3)]);
    assert_eq!(message, "`trace` arguments must not be empty strings");
    assert_eq!(span, Span::Source(3));
}

#[test]
fn two_literals_without_a_comma_are_refused_at_the_second() {
    let (message, span) = rejection("trace", vec![lit("TC-1", 1), lit("TC-2", 2)]);
    assert_eq!(message, "`trace` takes comma-separated string literals; found `\"TC-2\"`");
    assert_eq!(span, Span::Source(2));
}

#[test]
fn doubled_and_leading_commas_are_refused() {
    let (_, span) = rejection("trace", vec![lit("TC-1", 1), comma(2), comma(3)]);
    assert_eq!(span, Span::Source(3));
    let (_, span) = rejection("trace", vec![comma(4), lit("TC-1", 5)]);
    assert_eq!(span, Span::Source(4));
}

#[test]
fn a_trailing_comma_is_accepted() {
    assert!(validate("trace", &vec![lit("TC-1", 1), comma(2)]).is_ok());
    assert!(validate("trace", &vec![lit("TC-1", 1), comma(2), lit("FR-2-AC-1", 3), comma(4)]).is_ok());
}

#[test]
fn an_invisible_group_is_read_through() {
    let wrapped = Token::Group {
        delimiter: Delimiter::Invisible,
        stream: vec![lit("TC-707", 11)],
        text: "\"TC-707\"".to_string(),
        span: Span::Source(10),
    };
    assert!(validate("trace", &vec![wrapped]).is_ok());

    let prose = Token::Group {
        delimiter: Delimiter::Invisible,
        stream: vec![lit("prose", 13)],
        text: "\"prose\"".to_string(),
        span: Span::Source(12),
    };
    let (_, span) = rejection("trace", vec![prose]);
    assert_eq!(span, Span::Source(13));

    let empty = Token::Group {
        delimiter: Delimiter::Invisible,
        stream: Vec::new(),
        text: String::new(),
        span: Span::Source(14),
    };
    let (message, span) = rejection("trace", vec![empty]);
    assert_eq!(message, "`trace` needs at least one trace id, e.g. #[trace(\"FR-001-AC-1\")]");
    assert_eq!(span, Span::CallSite);
}

#[test]
fn an_invisible_group_needs_a_comma_before_it_like_a_literal() {
    let wrapped = |at: u64| Token::Group {
        delimiter: Delimiter::Invisible,
        stream: vec![lit("TC-2", at + 1)],
        text: "\"TC-2\"".to_string(),
        span: Span::Source(at),
    };
    let (message, span) = rejection("trace", vec![lit("TC-1", 1), wrapped(30)]);
    assert_eq!(message, "`trace` takes comma-separated string literals; found `\"TC-2\"`");
    assert_eq!(span, Span::Source(30));
    assert!(validate("trace", &vec![lit("TC-1", 1), comma(2), wrapped(40)]).is_ok());
    let (_, span) = rejection("trace", vec![wrapped(50), wrapped(60)]);
    assert_eq!(span, Span::Source(60));
    assert!(validate("trace", &vec![wrapped(50), comma(55), wrapped(60), comma(65)]).is_ok());
}

#[test]
fn a_bracketed_group_is_refused_as_printed() {
    let g = Token::Group {
        delimiter: Delimiter::Parenthesis,
        stream: vec![lit("TC-1", 21)],
        text: "(\"TC-1\")".to_string(),
        span: Span::Source(20),
    };
    let (message, span) = rejection("trace", vec![g]);
    assert_eq!(message, "`trace` takes comma-separated string literals; found `(\"TC-1\")`");
    assert_eq!(span, Span::Source(20));
}

#[test]
fn trace_and_implements_refuse_the_same_lists_at_the_same_token() {
    let lists: Vec<fn() -> Vec<Token>> = vec![
        || vec![lit("TC-1", 1), comma(2), lit("nope", 3)],
        || vec![lit("TC-1", 1), comma(2)],
        || vec![ident("x", 1)],
        || Vec::new(),
    ];
    for make in lists {
        let a = validate("trace", &make());
        let b = validate("implements", &make());
        match (a, b) {
            (Ok(()), Ok(())) => {},
            (Err(x), Err(y)) => {
                assert_eq!(x.span, y.span);
                assert!(x.message.contains("trace"));
                assert!(y.message.contains("implements"));
            },
            _ => panic!("the two attributes disagreed"),
        }
    }
}

#[test]
fn respan_reaches_inside_groups() {
    let toks = vec![
        ident("a", 1),
        Token::Group {
            delimiter: Delimiter::Brace,
            stream: vec![ident("b", 3), Token::Punct { ch: ';', joint: false, span: Span::CallSite }],
            text: "{ b; }".to_string(),
            span: Span::Source(2),
        },
    ];
    let out = respan(toks, Span::Source(42));
    assert_eq!(out.len(), 2);
    assert!(all_at(&out, Span::Source(42)));
    match &out[1] {
        Token::Group { stream, text, delimiter, .. } => {
            assert_eq!(stream.len(), 2);
            assert_eq!(text, "{ b; }");
            assert_eq!(*delimiter, Delimiter::Brace);
        },
        _ => panic!("the group was lost"),
    }
}
