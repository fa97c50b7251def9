use impo::lexer::{lex, Lexer};
use impo::tokens::{FloatLiteral, IntLiteral, Position, Token, TokenKind};

fn atom(name: &str) -> TokenKind {
    TokenKind::Atom(name.to_owned())
}

fn int_lit(base: u32, digits: &str, raw_value: usize) -> TokenKind {
    TokenKind::IntLiteral(IntLiteral { base, digits: digits.to_owned(), raw_value })
}

fn float(integral: &str, fractional: &str, power: &str) -> TokenKind {
    TokenKind::FloatLiteral(FloatLiteral {
        integral_digits: integral.to_owned(),
        fractional_digits: fractional.to_owned(),
        power: power.to_owned(),
    })
}

fn lexer_test(input: &str, expected_tokens: Vec<Token>) {
    let mut last_position = Position::start();
    let mut lexer = Lexer::new(input);
    for (i, expected) in expected_tokens.iter().enumerate() {
        let actual = lexer.next_token().unwrap();
        assert_eq!(&actual, expected, "Mismatch at token index {}", i);
        last_position = expected.position;
    }
    let length = input.chars().count();
    let expected_last_token = Token {
        kind: TokenKind::EndOfFile,
        position: last_position.add_horizontal(length - last_position.offset),
    };
    assert_eq!(lexer.next_token().unwrap(), expected_last_token, "Mismatch at end");
    assert_eq!(lexer.next_token().unwrap(), expected_last_token, "Mismatch at end, 2nd attempt");
}

fn lexer_test_ignore_positions(input: &str, expected_kinds: &[TokenKind]) {
    let mut lexer = Lexer::new(input);
    for (i, expected) in expected_kinds.iter().enumerate() {
        let actual = lexer.next_token().unwrap();
        assert_eq!(&actual.kind, expected, "Mismatch at token index {}", i);
    }
    let last = lexer.next_token().unwrap();
    assert_eq!(last.kind, TokenKind::EndOfFile, "Mismatch at end");
    assert_eq!(last.position.offset, input.len(), "Mismatch at end");
}

fn kinds_of(input: &str) -> Vec<TokenKind> {
    lex(input).unwrap().into_iter().map(|t| t.kind).collect()
}

#[test]
fn core_test_indentation() {
    lexer_test_ignore_positions(
        "foo1\n    foo2\n    foo3\n        foo4\nfoo5\n    foo6\n      \n\n    foo7\n\n\n        foo8\n\n\n    foo9\n",
        &[
            atom("foo1"),
            TokenKind::Newline,
            TokenKind::Indent,
            atom("foo2"),
            TokenKind::Newline,
            atom("foo3"),
            TokenKind::Newline,
            TokenKind::Indent,
            atom("foo4"),
            TokenKind::Newline,
            TokenKind::Unindent,
            TokenKind::Unindent,
            atom("foo5"),
            TokenKind::Newline,
            TokenKind::Indent,
            atom("foo6"),
            TokenKind::Newline,
            TokenKind::Newline,
            TokenKind::Newline,
            atom("foo7"),
            TokenKind::Newline,
            TokenKind::Newline,
            TokenKind::Newline,
            TokenKind::Indent,
            atom("foo8"),
            TokenKind::Newline,
            TokenKind::Unindent,
            TokenKind::Newline,
            TokenKind::Newline,
            atom("foo9"),
            TokenKind::Newline,
            TokenKind::Unindent,
        ],
    );
}

#[test]
fn test_indentation_endings_single_newline() {
    let inputs = [
        "foo1\n    foo2\n        foo3\n",
        "foo1  \n    foo2  \n        foo3  \n",
        "foo1\n    foo2\n        foo3\n  ",
    ];
    let expected = [
        atom("foo1"),
        TokenKind::Newline,
        TokenKind::Indent,
        atom("foo2"),
        TokenKind::Newline,
        TokenKind::Indent,
        atom("foo3"),
        TokenKind::Newline,
        TokenKind::Unindent,
        TokenKind::Unindent,
    ];
    for input in inputs {
        lexer_test_ignore_positions(input, &expected);
    }
}

#[test]
fn test_indentation_endings_no_newline() {
    let inputs = ["foo1\n    foo2\n        foo3", "foo1\n    foo2\n        foo3  "];
    let expected = [
        atom("foo1"),
        TokenKind::Newline,
        TokenKind::Indent,
        atom("foo2"),
        TokenKind::Newline,
        TokenKind::Indent,
        atom("foo3"),
        TokenKind::Unindent,
        TokenKind::Unindent,
    ];
    for input in inputs {
        lexer_test_ignore_positions(input, &expected);
    }
}

#[test]
fn test_indentation_ending_with_many_newline() {
    lexer_test(
        "foo1\n    foo2\n        foo3\n\n\n",
        vec![
            Token { kind: atom("foo1"), position: Position::new(0, 0, 0) },
            Token { kind: TokenKind::Newline, position: Position::new(0, 4, 4) },
            Token { kind: TokenKind::Indent, position: Position::new(0, 4, 4) },
            Token { kind: atom("foo2"), position: Position::new(1, 4, 9) },
            Token { kind: TokenKind::Newline, position: Position::new(1, 8, 13) },
            Token { kind: TokenKind::Indent, position: Position::new(1, 8, 13) },
            Token { kind: atom("foo3"), position: Position::new(2, 8, 22) },
            Token { kind: TokenKind::Newline, position: Position::new(2, 12, 26) },
            Token { kind: TokenKind::Unindent, position: Position::new(2, 12, 26) },
            Token { kind: TokenKind::Unindent, position: Position::new(2, 12, 26) },
            Token { kind: TokenKind::Newline, position: Position::new(3, 0, 27) },
            Token { kind: TokenKind::Newline, position: Position::new(4, 0, 28) },
            Token { kind: TokenKind::EndOfFile, position: Position::new(5, 0, 29) },
        ],
    );
}

#[test]
fn test_number() {
    lexer_test_ignore_positions(
        "0 0.0 1234567890 0xabcdef19 0o12345670 0b10101010 0.12345678 123.456789 1.3e123456 1.3e-12345 ",
        &[
            int_lit(10, "0", 0),
            float("0", "0", ""),
            int_lit(10, "1234567890", 1234567890),
            int_lit(16, "abcdef19", 2882400025),
            int_lit(8, "12345670", 2739128),
            int_lit(2, "10101010", 170),
            float("0", "12345678", ""),
            float("123", "456789", ""),
            float("1", "3", "123456"),
            float("1", "3", "-12345"),
        ],
    );
}

#[test]
fn test_bad_number() {
    lexer_test_ignore_positions(
        "3.foo 3.4.foo ",
        &[
            int_lit(10, "3", 3),
            TokenKind::Dot,
            atom("foo"),
            float("3", "4", ""),
            TokenKind::Dot,
            atom("foo"),
        ],
    );
}

#[test]
fn lex_simple_test_lex_single_char_operators() {
    check_lex_single_char_operators();
}

#[test]
fn lexer_test_lex_single_char_operators() {
    check_lex_single_char_operators();
}

fn check_lex_single_char_operators() {
    let input = "+ - * / < > ! | & . = : ,";
    let kinds = [
        TokenKind::Plus,
        TokenKind::Minus,
        TokenKind::Multiply,
        TokenKind::Divide,
        TokenKind::LessThan,
        TokenKind::GreaterThan,
        TokenKind::Bang,
        TokenKind::Pipe,
        TokenKind::Ampersand,
        TokenKind::Dot,
        TokenKind::Assign,
        TokenKind::Colon,
        TokenKind::Comma,
    ];
    lexer_test(
        input,
        kinds
            .iter()
            .enumerate()
            .map(|(index, kind)| Token { kind: kind.clone(), position: Position::new(0, index * 2, index * 2) })
            .collect(),
    );
}

#[test]
fn lex_simple_test_lex_double_char_operators() {
    check_lex_double_char_operators();
}

#[test]
fn lexer_test_lex_double_char_operators() {
    check_lex_double_char_operators();
}

fn check_lex_double_char_operators() {
    let input = "== != <= >= ->";
    let kinds = [
        TokenKind::Equals,
        TokenKind::NotEquals,
        TokenKind::LessThanEquals,
        TokenKind::GreaterThanEquals,
        TokenKind::Arrow,
    ];
    lexer_test(
        input,
        kinds
            .iter()
            .enumerate()
            .map(|(index, kind)| Token { kind: kind.clone(), position: Position::new(0, index * 3, index * 3) })
            .collect(),
    );
}

#[test]
fn lex_simple_test_lex_comments() {
    check_lex_comments();
}

#[test]
fn lexer_test_lex_comments() {
    check_lex_comments();
}

fn check_lex_comments() {
    lexer_test(
        "# comment 1\n# comment # with # extra # hash\r\n# final comment\r",
        vec![
            Token { kind: TokenKind::Comment("comment 1".to_owned()), position: Position::new(0, 0, 0) },
            Token { kind: TokenKind::Newline, position: Position::new(0, 11, 11) },
            Token {
                kind: TokenKind::Comment("comment # with # extra # hash".to_owned()),
                position: Position::new(1, 0, 12),
            },
            Token { kind: TokenKind::Newline, position: Position::new(1, 31, 43) },
            Token { kind: TokenKind::Comment("final comment".to_owned()), position: Position::new(2, 0, 45) },
            Token { kind: TokenKind::Newline, position: Position::new(2, 15, 60) },
        ],
    );
}

#[test]
fn lex_simple_test_lex_identifiers() {
    check_lex_identifiers();
}

#[test]
fn lexer_test_lex_identifiers() {
    check_lex_identifiers();
}

fn check_lex_identifiers() {
    lexer_test(
        "for and implements foo b12 andvar",
        vec![
            Token { kind: TokenKind::For, position: Position::new(0, 0, 0) },
            Token { kind: TokenKind::And, position: Position::new(0, 4, 4) },
            Token { kind: TokenKind::Implements, position: Position::new(0, 8, 8) },
            Token { kind: atom("foo"), position: Position::new(0, 19, 19) },
            Token { kind: atom("b12"), position: Position::new(0, 23, 23) },
            Token { kind: atom("andvar"), position: Position::new(0, 27, 27) },
        ],
    );
}

#[test]
fn test_string() {
    lexer_test(
        "\"hello world\" \"\\n\\r\\t\\\\\\\"\\'\\q\" \"\u{1F600}\" \"\" ",
        vec![
            Token { position: Position::new(0, 0, 0), kind: TokenKind::StringLiteral("hello world".to_owned()) },
            Token { position: Position::new(0, 14, 14), kind: TokenKind::StringLiteral("\n\r\t\\\"\'q".to_owned()) },
            Token { position: Position::new(0, 31, 31), kind: TokenKind::StringLiteral("\u{1F600}".to_owned()) },
            Token { position: Position::new(0, 35, 35), kind: TokenKind::StringLiteral("".to_owned()) },
        ],
    );
}

#[test]
fn indents_and_unindents_balance() {
    let inputs = [
        "a\n    b\n        c",
        "a\n    b\n        c\n",
        "a\n    b\n\n\n    c\nd\n",
        "if x:\n    if y:\n        z\n    w\n",
        "",
        "\n\n\n",
    ];
    for input in inputs {
        let kinds = kinds_of(input);
        let indents = kinds.iter().filter(|k| **k == TokenKind::Indent).count();
        let unindents = kinds.iter().filter(|k| **k == TokenKind::Unindent).count();
        assert_eq!(indents, unindents, "input {:?}", input);
    }
}

#[test]
fn lex_appends_final_newline() {
    assert_eq!(kinds_of("a"), vec![atom("a"), TokenKind::Newline]);
    assert_eq!(kinds_of("a\n"), vec![atom("a"), TokenKind::Newline]);
    assert_eq!(kinds_of(""), Vec::<TokenKind>::new());
}

#[test]
fn dot_after_integer_is_member_access() {
    assert_eq!(kinds_of("3.foo"), vec![int_lit(10, "3", 3), TokenKind::Dot, atom("foo"), TokenKind::Newline]);
    assert_eq!(
        kinds_of("3.4.foo"),
        vec![float("3", "4", ""), TokenKind::Dot, atom("foo"), TokenKind::Newline]
    );
    assert_eq!(kinds_of("0.foo"), vec![int_lit(10, "0", 0), TokenKind::Dot, atom("foo"), TokenKind::Newline]);
}

#[test]
fn indent_must_be_multiple_of_four() {
    let err = lex("a\n   b\n").unwrap_err();
    assert!(err.message.contains("must be a multiple of four"), "{}", err.message);
    assert_eq!(err.message, "Indent contains 3 spaces: must be a multiple of four");
    assert_eq!(err.render(), "line 1, col 2: Indent contains 3 spaces: must be a multiple of four");
}

#[test]
fn tab_in_indentation_is_rejected() {
    let err = lex("a\n\tb\n").unwrap_err();
    assert!(err.message.contains("Tabs"), "{}", err.message);
    assert!(!err.message.contains("multiple of four"));
    assert_eq!(err.position, Position::new(1, 0, 2));
}

#[test]
fn numeric_bases() {
    assert_eq!(kinds_of("0x1A"), vec![int_lit(16, "1A", 26), TokenKind::Newline]);
    assert_eq!(kinds_of("0o17"), vec![int_lit(8, "17", 15), TokenKind::Newline]);
    assert_eq!(kinds_of("0b101"), vec![int_lit(2, "101", 5), TokenKind::Newline]);
    let err = lex("01").unwrap_err();
    assert!(err.message.contains("Initial 0"), "{}", err.message);
    assert_eq!(kinds_of("0q"), vec![int_lit(10, "0", 0), atom("q"), TokenKind::Newline]);
    assert!(lex("0x1.5").is_err());
    assert!(lex("0x").is_err());
    assert!(lex("99999999999999999999999").is_err());
    assert!(lex("1.5e").is_err());
    assert!(lex("1.5e-").is_err());
    assert_eq!(kinds_of("1e5"), vec![int_lit(10, "1", 1), atom("e5"), TokenKind::Newline]);
}

#[test]
fn end_of_file_repeats() {
    let mut lexer = Lexer::new("a\n    b");
    let mut kinds = Vec::new();
    loop {
        let t = lexer.next_token().unwrap();
        if t.kind == TokenKind::EndOfFile {
            break;
        }
        kinds.push(t.kind);
    }
    assert_eq!(kinds, vec![atom("a"), TokenKind::Newline, TokenKind::Indent, atom("b"), TokenKind::Unindent]);
    let eof = Token { kind: TokenKind::EndOfFile, position: Position::new(1, 5, 7) };
    for _ in 0..5 {
        assert_eq!(lexer.next_token().unwrap(), eof);
    }
}

#[test]
fn other_operators() {
    assert_eq!(
        kinds_of("a << b >> c ^ ~d"),
        vec![
            atom("a"),
            TokenKind::ShiftLeft,
            atom("b"),
            TokenKind::ShiftRight,
            atom("c"),
            TokenKind::Caret,
            TokenKind::Tilde,
            atom("d"),
            TokenKind::Newline,
        ]
    );
}

#[test]
fn brackets_join_lines() {
    assert_eq!(
        kinds_of("f(a,\n    b)\n"),
        vec![
            atom("f"),
            TokenKind::LParen,
            atom("a"),
            TokenKind::Comma,
            atom("b"),
            TokenKind::RParen,
            TokenKind::Newline,
        ]
    );
}

#[test]
fn lexical_errors() {
    let err = lex("\"abc").unwrap_err();
    assert_eq!(err.message, "Unexpected end of string");
    assert_eq!(err.position, Position::new(0, 4, 4));
    let err = lex("a $ b").unwrap_err();
    assert_eq!(err.message, "Could not parse character '$'");
    assert_eq!(err.position, Position::new(0, 2, 2));
}

#[test]
fn keywords_and_booleans() {
    assert_eq!(
        kinds_of("true false instanceof constructor"),
        vec![
            TokenKind::BoolLiteral(true),
            TokenKind::BoolLiteral(false),
            TokenKind::InstanceOf,
            TokenKind::Constructor,
            TokenKind::Newline,
        ]
    );
}

#[test]
fn token_spans() {
    let t = Token { kind: atom("abc"), position: Position::new(0, 2, 2) };
    let span = t.span();
    assert_eq!(span.start, Position::new(0, 2, 2));
    assert_eq!(span.end, Position::new(0, 5, 5));
    let t = Token { kind: int_lit(16, "ff", 255), position: Position::new(0, 0, 0) };
    assert_eq!(t.end_position(), Position::new(0, 4, 4));
    let t = Token { kind: float("1", "5", "-3"), position: Position::new(0, 0, 0) };
    assert_eq!(t.end_position(), Position::new(0, 6, 6));
}
