use lexer_core::source::{CodePoint, Source, Span};
use lexer_core::error::{ParseET, ParseError};
use lexer_core::tokens::{Literal, NumLit, NumLitTy, TokIter, Token, TokenType};
use lexer_core::tokenizer::{str_to_num_lit, tokenize, unescape_str};
use lexer_core::patterns::ExpectIdent;

fn src(text: &str) -> Source {
    Source::new(1, String::from("test"), String::from(text))
}

fn toks(text: &str) -> Vec<Token> {
    tokenize(src(text)).expect("tokenization should succeed")
}

#[test]
fn from_points_orders_ends() {
    let s = src("hello world");
    let a = CodePoint(s.duplicate(), 7);
    let b = CodePoint(s.duplicate(), 2);
    let sp = Span::from_points(a, b);
    assert_eq!(sp.start, 2);
    assert_eq!(sp.end, 7);
    let a2 = CodePoint(s.duplicate(), 2);
    let b2 = CodePoint(s.duplicate(), 7);
    let sp2 = Span::from_points(a2, b2);
    assert_eq!(sp2.start, 2);
    assert_eq!(sp2.end, 7);
}

#[test]
fn combine_with_self_changes_nothing() {
    let s = src("hello");
    let mut sp = Span::from_points(CodePoint(s.duplicate(), 1), CodePoint(s.duplicate(), 3));
    let copy = sp.duplicate();
    sp.combine(copy);
    assert_eq!(sp.start, 1);
    assert_eq!(sp.end, 3);
    assert!(sp.equals(&Span::from_points(
        CodePoint(s.duplicate(), 1),
        CodePoint(s.duplicate(), 3)
    )));
}

#[test]
fn decode_without_escapes_is_identity() {
    let sp = Span::dummy();
    assert_eq!(unescape_str("hello world", &sp).unwrap(), "hello world");
    assert_eq!(unescape_str("", &sp).unwrap(), "");
}

#[test]
fn decode_escape_forms() {
    let sp = Span::dummy();
    assert_eq!(unescape_str("\\n", &sp).unwrap(), "\n");
    assert_eq!(unescape_str("\\t", &sp).unwrap(), "\t");
    assert_eq!(unescape_str("\\r", &sp).unwrap(), "\r");
    assert_eq!(unescape_str("\\\"", &sp).unwrap(), "\"");
    assert_eq!(unescape_str("\\x41", &sp).unwrap(), "A");
    assert_eq!(unescape_str("\\u{1F600}", &sp).unwrap(), "\u{1F600}");
}

#[test]
fn decode_bad_escapes() {
    let sp = Span::dummy();
    assert!(matches!(
        unescape_str("\\q", &sp),
        Err(ParseError { et: ParseET::LiteralError(..), .. })
    ));
    assert!(matches!(
        unescape_str("\\x4", &sp),
        Err(ParseError { et: ParseET::LiteralError(..), .. })
    ));
    assert!(matches!(
        unescape_str("\\u{}", &sp),
        Err(ParseError { et: ParseET::LiteralError(..), .. })
    ));
    assert!(matches!(
        unescape_str("\\u{110000}", &sp),
        Err(ParseError { et: ParseET::LiteralError(..), .. })
    ));
    assert!(matches!(
        unescape_str("\\uA", &sp),
        Err(ParseError { et: ParseET::LiteralError(..), .. })
    ));
    // a trailing lone backslash is dropped silently
    assert_eq!(unescape_str("ab\\", &sp).unwrap(), "ab");
}

#[test]
fn numeric_literals() {
    let (lit, ty) = str_to_num_lit(String::from("0x1F")).unwrap();
    assert!(matches!(lit, NumLit::Integer(31)));
    assert!(ty.is_none());

    let (lit, ty) = str_to_num_lit(String::from("3.14f32")).unwrap();
    match lit {
        NumLit::Float(body) => assert_eq!(body, "3.14"),
        _ => panic!("expected float"),
    }
    assert_eq!(ty, Some(NumLitTy::F32));

    let (lit, ty) = str_to_num_lit(String::from("10u8")).unwrap();
    assert!(matches!(lit, NumLit::Integer(10)));
    assert_eq!(ty, Some(NumLitTy::U8));

    assert!(matches!(
        str_to_num_lit(String::from("0x1F.5")),
        Err(ParseError { et: ParseET::LiteralError(..), .. })
    ));
    assert!(matches!(
        str_to_num_lit(String::from("5.0i128")),
        Err(ParseError { et: ParseET::LiteralError(..), .. })
    ));
}

#[test]
fn numeric_radixes_and_separators() {
    let (lit, _) = str_to_num_lit(String::from("0b1010")).unwrap();
    assert!(matches!(lit, NumLit::Integer(10)));
    let (lit, _) = str_to_num_lit(String::from("0o17")).unwrap();
    assert!(matches!(lit, NumLit::Integer(15)));
    let (lit, _) = str_to_num_lit(String::from("1_000_000")).unwrap();
    assert!(matches!(lit, NumLit::Integer(1000000)));
    assert!(matches!(
        str_to_num_lit(String::from("12zz")),
        Err(ParseError { et: ParseET::LiteralError(..), .. })
    ));
}

#[test]
fn tokenizer_statement_with_comment() {
    let ts = toks("x = 1 + 2 // sum");
    assert_eq!(ts.len(), 5);
    match &ts[0].tt {
        TokenType::Ident(s) => assert_eq!(s, "x"),
        _ => panic!("expected Ident"),
    }
    assert!(matches!(ts[1].tt, TokenType::Particle('=', false)));
    assert!(matches!(
        ts[2].tt,
        TokenType::Literal(Literal::Number(NumLit::Integer(1), None))
    ));
    assert!(matches!(ts[3].tt, TokenType::Particle('+', false)));
    assert!(matches!(
        ts[4].tt,
        TokenType::Literal(Literal::Number(NumLit::Integer(2), None))
    ));
}

#[test]
fn glue_detection() {
    let ts = toks("==");
    assert_eq!(ts.len(), 2);
    assert!(matches!(ts[0].tt, TokenType::Particle('=', false)));
    assert!(matches!(ts[1].tt, TokenType::Particle('=', true)));

    let ts = toks("a=b");
    assert_eq!(ts.len(), 3);
    assert!(matches!(ts[1].tt, TokenType::Particle('=', false)));
}

#[test]
fn unterminated_block_comment_is_eof() {
    let r = tokenize(src("/* never closes"));
    match r {
        Err(e) => assert!(matches!(e.et, ParseET::EOF)),
        Ok(_) => panic!("expected an error"),
    }
}

#[test]
fn block_comment_is_skipped() {
    let ts = toks("a /* hi */ b");
    assert_eq!(ts.len(), 2);
}

#[test]
fn string_and_char_and_bool_literals() {
    let ts = toks("\"he\\tllo\" 'z' true false");
    assert_eq!(ts.len(), 4);
    match &ts[0].tt {
        TokenType::Literal(Literal::String(s)) => assert_eq!(s, "he\tllo"),
        _ => panic!("expected string literal"),
    }
    assert!(matches!(ts[1].tt, TokenType::Literal(Literal::Char('z'))));
    assert!(matches!(ts[2].tt, TokenType::Literal(Literal::Bool(true))));
    assert!(matches!(ts[3].tt, TokenType::Literal(Literal::Bool(false))));
}

#[test]
fn bad_char_literal() {
    let r = tokenize(src("'ab'"));
    match r {
        Err(e) => assert!(matches!(e.et, ParseET::TokenizationError(_))),
        Ok(_) => panic!("expected an error"),
    }
}

#[test]
fn unterminated_string_is_eof() {
    let r = tokenize(src("\"never closes"));
    match r {
        Err(e) => {
            assert!(matches!(e.et, ParseET::EOF));
            assert_eq!(e.context, vec![String::from("tokenizing string literal")]);
        },
        Ok(_) => panic!("expected an error"),
    }
}

#[test]
fn token_spans_point_into_source() {
    let ts = toks("ab cd");
    assert_eq!(ts[0].loc.start, 0);
    assert_eq!(ts[0].loc.end, 1);
    assert_eq!(ts[1].loc.start, 3);
    assert_eq!(ts[1].loc.end, 4);
}

#[test]
fn expect_ident_mismatch_does_not_advance() {
    let ts = toks("bar baz");
    let mut iter = TokIter::new(ts);
    let r = ExpectIdent(String::from("foo")).consume(&mut iter);
    match r {
        Err(e) => match e.et {
            ParseET::ParsingError(msg) => {
                assert!(msg.contains("foo"));
                assert!(msg.contains("bar"));
            },
            _ => panic!("expected a parsing error"),
        },
        Ok(_) => panic!("expected an error"),
    }
    assert_eq!(iter.index, 0);
    // the cursor still sees the same token
    let r2 = ExpectIdent(String::from("bar")).consume(&mut iter);
    assert!(r2.is_ok());
    assert_eq!(iter.index, 1);
}

#[test]
fn error_context_accumulates() {
    let e = ParseET::EmptyInput.error().when("reading input").when("compiling");
    assert_eq!(
        e.context,
        vec![String::from("reading input"), String::from("compiling")]
    );
    assert!(e.loc.is_none());
    let located = e.at(Span::dummy());
    assert!(located.loc.is_some());
}

#[test]
fn division_glue_heuristic() {
    // after an identifier with a space, the slash is not glued
    let ts = toks("a / b");
    assert!(matches!(ts[1].tt, TokenType::Particle('/', false)));
    // directly after a parenthesis it is glued
    let ts = toks(")/2");
    assert!(matches!(ts[1].tt, TokenType::Particle('/', true)));
}

#[test]
fn render_span_excerpt() {
    let s = src("let x = 1;\nlet y = 2;\nlet z = 3;");
    // the span of "y" on line 2
    let sp = Span::from_points(CodePoint(s.duplicate(), 15), CodePoint(s.duplicate(), 15));
    let rendered = sp.render_span_code(0);
    assert_eq!(rendered, "  2 | let y = 2;\n    |     ^");
}

#[test]
fn render_error_diagnostic() {
    let s = src("a ? b");
    let sp = Span::from_points(CodePoint(s.duplicate(), 2), CodePoint(s.duplicate(), 2));
    let e = ParseET::TokenizationError(String::from("stray token"))
        .at(sp)
        .when("tokenizing input");
    let text = e.render();
    assert!(text.starts_with("Tokenization error:\n    stray token\n    while tokenizing input"));
    assert!(text.contains("test: 2\n"));
    assert!(text.contains("  1 | a ? b\n    |   ^"));
}

#[test]
fn hex_literals_with_f_digits() {
    let (lit, ty) = str_to_num_lit(String::from("0xff")).unwrap();
    assert!(matches!(lit, NumLit::Integer(255)));
    assert!(ty.is_none());

    let (lit, ty) = str_to_num_lit(String::from("0xffu8")).unwrap();
    assert!(matches!(lit, NumLit::Integer(255)));
    assert_eq!(ty, Some(NumLitTy::U8));

    let (lit, _) = str_to_num_lit(String::from("0xdeadbeef")).unwrap();
    assert!(matches!(lit, NumLit::Integer(0xdeadbeef)));

    let ts = toks("0xf");
    assert!(matches!(
        ts[0].tt,
        TokenType::Literal(Literal::Number(NumLit::Integer(15), None))
    ));
}

#[test]
fn render_skips_placeholder_location() {
    let e = ParseET::EmptyInput.error().at(Span::dummy()).when("reading input");
    let text = e.render();
    assert_eq!(text, "Input error:\n    input was empty\n    while reading input");
}
