use impo::ast::Identifier;
use impo::cli::{parse_cli_args, CliCommand};
use impo::errors::{LexerError, ParserError};
use impo::stmts::Comment;
use impo::stringpool::{ReadOnlyStringPool, StringPool};
use impo::text::{TextOffset, TextRange};
use impo::tokens::{FloatLiteral, IntLiteral, Position, Span};

#[test]
fn test_identifier_creation() {
    assert_eq!(
        Identifier::new_from_string("foo"),
        Identifier { parent: Vec::new(), name: "foo".to_owned() },
    );
    assert_eq!(
        Identifier::new_from_string("foo.bar.baz"),
        Identifier { parent: vec!["foo".to_owned(), "bar".to_owned()], name: "baz".to_owned() },
    );
}

#[test]
fn string_pool_round_trip() {
    let mut pool = StringPool::new();
    let a = pool.add("alpha".to_owned());
    let b = pool.add("beta".to_owned());
    assert_eq!(pool.lookup(a), "alpha");
    assert_eq!(pool.lookup(b), "beta");
    assert_eq!(ReadOnlyStringPool::lookup(&pool, a), "alpha");
    assert_ne!(a, b);
}

#[test]
fn comments_hold_their_lines() {
    assert!(Comment::empty().lines.is_empty());
    assert_eq!(Comment::new(vec!["x".to_owned()]).lines, vec!["x".to_owned()]);
}

#[test]
fn text_ranges() {
    let r = TextRange::new_absolute(TextOffset::new(3), TextOffset::new(10));
    assert_eq!(r.offset(), 3);
    assert_eq!(r.length(), 7);
    assert_eq!(r.start(), TextOffset::new(3));
    assert_eq!(r.end(), TextOffset::new(10));
    assert_eq!(TextRange::new(TextOffset::new(1), 2).end().offset, 3);
}

#[test]
fn span_union_takes_extremes() {
    let a = Span { start: Position::new(0, 1, 1), end: Position::new(0, 4, 4) };
    let b = Span { start: Position::new(0, 3, 3), end: Position::new(1, 2, 9) };
    let u = a.union(&b);
    assert_eq!(u.start, Position::new(0, 1, 1));
    assert_eq!(u.end, Position::new(1, 2, 9));
    assert_eq!(b.union(&a), u);
}

#[test]
fn position_advances_by_character() {
    let mut p = Position::start();
    p.advance('a');
    assert_eq!(p, Position::new(0, 1, 1));
    p.advance('\n');
    assert_eq!(p, Position::new(1, 0, 2));
    assert_eq!(p.add_horizontal(3), Position::new(1, 3, 5));
}

#[test]
fn errors_render() {
    let lexical = LexerError { position: Position::new(2, 4, 20), message: "bad".to_owned() };
    assert_eq!(lexical.render(), "line 3, col 5: bad");
    let inner = ParserError { span: None, message: "inner".to_owned(), source: None };
    let outer = ParserError {
        span: Some(Span { start: Position::new(0, 0, 0), end: Position::new(0, 1, 1) }),
        message: "outer".to_owned(),
        source: Some(Box::new(inner)),
    };
    assert_eq!(outer.error_lines(), vec!["line 1, col 1: outer".to_owned(), "unknown position: inner".to_owned()]);
    assert_eq!(outer.render(), "line 1, col 1: outer\n    unknown position: inner");
    let labelled = outer.add_context("rule");
    assert_eq!(labelled.message, "rule: outer");
    assert!(labelled.source.is_some());
}

#[test]
fn cli_arguments() {
    let args = |xs: &[&str]| xs.iter().map(|s| s.to_string()).collect::<Vec<String>>();
    assert_eq!(parse_cli_args(&args(&["impo"])), CliCommand::PrintHelp(1));
    assert_eq!(parse_cli_args(&args(&["impo", "-h"])), CliCommand::PrintHelp(0));
    assert_eq!(parse_cli_args(&args(&["impo", "--version"])), CliCommand::PrintVersion);
    assert_eq!(parse_cli_args(&args(&["impo", "repl"])), CliCommand::RunRepl);
    assert_eq!(parse_cli_args(&args(&["impo", "run", "x.impo"])), CliCommand::InterpretFile("x.impo".to_owned()));
    assert_eq!(parse_cli_args(&args(&["impo", "run"])), CliCommand::PrintHelp(2));
    assert_eq!(parse_cli_args(&args(&["impo", "other"])), CliCommand::PrintHelp(2));
}

#[test]
fn literals_print_as_written() {
    let hex = IntLiteral::new(16, "1A".to_owned()).unwrap();
    assert_eq!(hex.raw_value, 26);
    assert_eq!(hex.to_string(), "0x1A");
    assert_eq!(IntLiteral::new(10, "42".to_owned()).unwrap().to_string(), "42");
    assert_eq!(IntLiteral::new(2, "".to_owned()), None);
    assert_eq!(IntLiteral::new(10, "18446744073709551616".to_owned()), None);
    let f = FloatLiteral {
        integral_digits: "1".to_owned(),
        fractional_digits: "5".to_owned(),
        power: "-3".to_owned(),
    };
    assert_eq!(f.to_string(), "1.5e-3");
    let g = FloatLiteral { integral_digits: "0".to_owned(), fractional_digits: "25".to_owned(), power: "".to_owned() };
    assert_eq!(g.to_string(), "0.25");
}

#[test]
fn identifiers_print_with_dots() {
    assert_eq!(Identifier::new_from_string("a.b.c").to_string(), "a.b.c");
    assert_eq!(Identifier::new_from_string("x").to_string(), "x");
}
