use diatom_frontend::lexer::Lexer;
use diatom_frontend::token::Operator;
use diatom_frontend::token::Token;
use diatom_frontend::util::FileIterator;

#[test]
fn test_consume_int() {
    fn test_helper(s: &str, i: i64, should_fail: bool) {
        let mut iter = FileIterator::new(s);
        let result = Lexer::consume_num(&mut iter);
        if should_fail {
            assert!(
                result.is_err(),
                "Expected parse success! source = {s}, result = {:?}",
                result
            );
        } else if let Ok((Token::Integer(j), _)) = result {
            assert_eq!(i, j);
        } else {
            assert!(
                false,
                "Expected parse failure! source = {s} , result = {:?}",
                result
            );
        }
    }

    test_helper("1_23", 123, false);
    test_helper("0xf_f", 0xff, false);
    test_helper("0Xff", 0xff, false);
    test_helper("0b1__00011", 0b100011, false);
    test_helper("0o776_610_", 0o776610, false);
    test_helper("999+3", 999, false);
    test_helper("9_223_372_036_854_775_808", 0, true);
    test_helper(
        "9_223_372_036_854_775_807",
        9_223_372_036_854_775_807,
        false,
    );
    test_helper("0x8000000000000000", 0, true);
    test_helper("0x7fffffffffffffff", 9_223_372_036_854_775_807, false);
    test_helper("0o1000000000000000000000", 0, true);
    test_helper("0o777777777777777777777", 9_223_372_036_854_775_807, false);
    test_helper(
        "0b1000000000000000000000000000000000000000000000000000000000000000",
        0,
        true,
    );
    test_helper(
        "0b111111111111111111111111111111111111111111111111111111111111111",
        9_223_372_036_854_775_807,
        false,
    );
    test_helper("0xfft", 0, true);
    test_helper("0O999", 0, true);
    test_helper("123y", 0, true);
}

#[test]
fn test_consume_float() {
    fn test_helper(s: &str, i: f64, should_fail: bool) {
        let mut iter = FileIterator::new(s);
        let result = Lexer::consume_num(&mut iter);
        if should_fail {
            assert!(
                result.is_err(),
                "Expected parse success! source = {s}, result = {:?}",
                result
            );
        } else if let Ok((Token::Float(t), _)) = result {
            let j: f64 = t.parse().unwrap();
            assert_eq!(i, j);
        } else {
            assert!(
                false,
                "Expected parse failure! source = {s} , result = {:?}",
                result
            );
        }
    }

    test_helper("123e14", 123e14, false);
    test_helper("1_23e_14", 123e14, false);
    test_helper("123E-14", 123e-14, false);
    test_helper("123.", 123., false);
    test_helper("0.01__2", 0.012, false);
    test_helper("123e1y", 0., true);
}

// The float recognizer must agree with standard decimal-float parsing on
// every text a numeral scan can keep.
#[test]
fn test_float_text_matches_std() {
    for s in [
        "1.e5", "1.", "0.5", "12e3", "12E+3", "12e-3", "1.2.3", "12e", "1e+", "1e3.5", "1..",
        "007", "9e99",
    ] {
        let mut iter = FileIterator::new(s);
        let result = Lexer::consume_num(&mut iter);
        match result {
            Ok((Token::Float(t), _)) => {
                assert!(t.parse::<f64>().is_ok(), "kept float text must parse: {t}");
            }
            Ok((Token::Integer(_), _)) => {}
            Err(_) => {}
            other => panic!("unexpected token for {s}: {:?}", other),
        }
    }
    // A float-marked text the standard grammar rejects must be an error.
    let mut iter = FileIterator::new("1e3.5");
    assert!(Lexer::consume_num(&mut iter).is_err());
    let mut iter = FileIterator::new("12e");
    assert!(Lexer::consume_num(&mut iter).is_err());
}

#[test]
fn test_consume_string() {
    fn test_helper(s: &str, i: &str, should_fail: bool) {
        let mut iter = FileIterator::new(s);
        let result = Lexer::consume_string(&mut iter);
        if should_fail {
            assert!(
                result.is_err(),
                "Expected parse success! source = {s}, result = {:?}",
                result
            );
        } else if let Ok((Token::Str(j), _)) = result {
            assert_eq!(i, j);
        } else {
            assert!(
                false,
                "Expected parse failure! source = {s} , result = {:?}",
                result
            );
        }
    }

    test_helper(
        r#""abs__0a™£´∂`'`c\'\"k\n\rkk\x09'""#,
        "abs__0a™£´∂`'`c\'\"k\n\rkk\x09'",
        false,
    );
    test_helper(
        r#"'rrr__0a™£´∂`"`c\'\"k\n\rkk\u00E9"'"#,
        "rrr__0a™£´∂`\"`c\'\"k\n\rkk\u{00E9}\"",
        false,
    );
    test_helper("'\\xaz'", "", true);
    test_helper("'\\u@0'", "", true);
    test_helper("'\\U0000fFFf'", "\u{ffff}", false);
    test_helper("'\\ufFff'", "\u{ffff}", false);
    test_helper("'\\UdFFf'", "", true);
    test_helper("'\\uDfff'", "", true);
    test_helper("'", "", true);
}

#[test]
fn test_dispatch() {
    let file = r#"#!/bin/diatom -c
            fn fac(a) do
                b = 1 c =2 -- @@@@
                if a> 0 then return a *fac(a - 1) elsif
                a == 0 then return 1 else return 0
                end end
            ß = fac(5) å = ß**3//0x11f |> fac
            set = {'s', 'ma\u00E9', 65e52, 0b00110} dict = {:}.insert(('key', 98))
            🐶🐱 <> "Doa\x09 and cat'?'"
            "#;
    let lexer = Lexer::new(file.to_string(), "unit_test.dm".to_string());
    if lexer.has_error() {
        println!("{}", lexer.render_error());
    }
    assert!(!lexer.has_error());
}

// An unterminated string is a distinct diagnostic from a terminated string
// with a bad escape, and both leave the lexer usable.
#[test]
fn test_string_error_kinds() {
    let lexer = Lexer::new("'abc".to_string(), "t.dm".to_string());
    assert!(lexer.has_error());
    assert!(lexer.has_eof_error());
    assert!(!lexer.has_non_eof_error());

    let lexer = Lexer::new("'a\\q' 1".to_string(), "t.dm".to_string());
    assert!(lexer.has_error());
    assert!(!lexer.has_eof_error());
    assert!(lexer.has_non_eof_error());
}

// An invalid operator character is reported and scanning continues.
#[test]
fn test_invalid_operator_char() {
    let lexer = Lexer::new("a ? b".to_string(), "t.dm".to_string());
    assert!(lexer.has_error());
    let text = lexer.render_error();
    assert!(text.contains("invalid operator: ?"));
}

// Rendering the lexer's error log twice yields identical text.
#[test]
fn test_render_error_idempotent() {
    let lexer = Lexer::new("0xzz 'open".to_string(), "t.dm".to_string());
    assert!(lexer.has_error());
    let a = lexer.render_error();
    let b = lexer.render_error();
    assert_eq!(a, b);
}

// The shebang line is skipped unconditionally, comments run to the line
// end, and positions advance by line and offset.
#[test]
fn test_cursor_positions() {
    let mut it = FileIterator::new("ab\ncd");
    assert_eq!(it.peek(), Some('a'));
    assert_eq!(it.peek2(), (Some('a'), Some('b')));
    assert_eq!(it.next(), Some('a'));
    assert_eq!(it.next(), Some('b'));
    let loc = it.get_location();
    assert_eq!((loc.line, loc.offset), (0, 2));
    assert_eq!(it.next(), Some('\n'));
    let loc = it.get_location();
    assert_eq!((loc.line, loc.offset), (1, 0));
    assert_eq!(it.next(), Some('c'));
    assert_eq!(it.next(), Some('d'));
    assert_eq!(it.next(), None);
    assert_eq!(it.peek(), None);
    assert_eq!(it.peek2(), (None, None));

    let lexer = Lexer::new("#!shebang\n-- comment\n42".to_string(), "t.dm".to_string());
    assert!(!lexer.has_error());
}

// The token cursor replays the token sequence with two-token lookahead and
// a running span that extends as tokens are consumed.
#[test]
fn test_token_cursor() {
    let lexer = Lexer::new("a = 1".to_string(), "t.dm".to_string());
    assert!(!lexer.has_error());
    let mut it = lexer.iter();
    let (t1, t2) = it.peek2();
    assert!(matches!(t1, Some(Token::Id(_))));
    assert!(matches!(t2, Some(Token::Op(_))));
    assert!(it.next().is_some());
    assert!(it.next().is_some());
    let span = it.get_location();
    assert_eq!((span.start.line, span.start.offset), (0, 0));
    assert_eq!((span.end.line, span.end.offset), (0, 3));
    it.reset_location_counter();
    let span = it.get_location();
    assert_eq!(span.start, span.end);
    assert!(it.next().is_some());
    assert!(it.next().is_none());
    assert!(it.peek().is_none());
}

// Two-character operators are matched greedily before single-character
// ones.
#[test]
fn test_greedy_operators() {
    for (src, op) in [
        ("a // b", Operator::DivFloor),
        ("a ** b", Operator::Exp),
        ("a .. b", Operator::Range),
        ("a >= b", Operator::Ge),
        ("a <= b", Operator::Le),
        ("a == b", Operator::Eq),
        ("a <> b", Operator::Ne),
        ("a |> b", Operator::Pipeline),
    ] {
        let lexer = Lexer::new(src.to_string(), "t.dm".to_string());
        assert!(!lexer.has_error());
        let mut it = lexer.iter();
        it.next();
        match it.next() {
            Some(Token::Op(o)) => assert_eq!(*o, op, "source {src}"),
            other => panic!("expected an operator for {src}, got {:?}", other),
        }
    }
}
