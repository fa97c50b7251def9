use vstd::prelude::*;
use crate::errors::ParserError;
use crate::text_util::{push_str, string_of};
use crate::tokens::{Position, Span, Token, TokenKind, kind_width};

verus! {

pub open spec fn sat_add(a: usize, b: nat) -> usize {
    if a + b <= usize::MAX { (a + b) as usize } else { usize::MAX }
}

/// The span of a token's text; an end past the largest index is clamped.
pub open spec fn token_span(t: Token) -> Span {
    Span {
        start: t.position,
        end: Position {
            lineno: t.position.lineno,
            column: sat_add(t.position.column, kind_width(t.kind)),
            offset: sat_add(t.position.offset, kind_width(t.kind)),
        },
    }
}

fn sat_len(s: &String) -> (r: usize)
    ensures
        r == s@.len(),
{
    s.as_str().unicode_len()
}

fn width_of(kind: &TokenKind) -> (r: usize)
    ensures
        r == if kind_width(*kind) <= usize::MAX { kind_width(*kind) as usize } else { usize::MAX },
{
    match kind {
        TokenKind::Equals | TokenKind::NotEquals | TokenKind::LessThanEquals
        | TokenKind::GreaterThanEquals | TokenKind::Arrow | TokenKind::ShiftLeft
        | TokenKind::ShiftRight => 2,
        TokenKind::StringLiteral(s) => sat_len(s),
        TokenKind::IntLiteral(lit) => {
            let n = sat_len(&lit.digits);
            if lit.base == 10 { n } else { n.saturating_add(2) }
        },
        TokenKind::FloatLiteral(lit) => {
            let mut count = sat_len(&lit.integral_digits).saturating_add(1).saturating_add(
                sat_len(&lit.fractional_digits),
            );
            let p = sat_len(&lit.power);
            if p != 0 {
                count = count.saturating_add(1).saturating_add(p);
            }
            count
        },
        TokenKind::BoolLiteral(b) => if *b { 4 } else { 5 },
        TokenKind::Atom(s) => sat_len(s),
        TokenKind::Comment(s) => sat_len(s).saturating_add(2),
        TokenKind::Indent | TokenKind::Unindent | TokenKind::Newline | TokenKind::EndOfFile => 0,
        TokenKind::InstanceOf => 10,
        TokenKind::Or | TokenKind::If | TokenKind::To | TokenKind::In | TokenKind::Fn => 2,
        TokenKind::And | TokenKind::For => 3,
        TokenKind::Elif | TokenKind::Else | TokenKind::From => 4,
        TokenKind::While | TokenKind::Panic | TokenKind::Class | TokenKind::Const => 5,
        TokenKind::Return => 6,
        TokenKind::Foreach => 7,
        TokenKind::Sentinal => 8,
        TokenKind::Interface => 9,
        TokenKind::Implements => 10,
        TokenKind::Constructor => 11,
        _ => 1,
    }
}

/// The span of `t`'s text, clamped at the largest index.
pub fn span_of(t: &Token) -> (r: Span)
    ensures
        r == token_span(*t),
{
    let w = width_of(&t.kind);
    Span {
        start: t.position,
        end: Position {
            lineno: t.position.lineno,
            column: t.position.column.saturating_add(w),
            offset: t.position.offset.saturating_add(w),
        },
    }
}

/// A short name for a kind of token, for messages.
fn kind_name(kind: &TokenKind) -> &'static str {
    match kind {
        TokenKind::LParen => "LParen",
        TokenKind::RParen => "RParen",
        TokenKind::LBrace => "LBrace",
        TokenKind::RBrace => "RBrace",
        TokenKind::LSquare => "LSquare",
        TokenKind::RSquare => "RSquare",
        TokenKind::Plus => "Plus",
        TokenKind::Minus => "Minus",
        TokenKind::Multiply => "Multiply",
        TokenKind::Divide => "Divide",
        TokenKind::Percent => "Percent",
        TokenKind::Equals => "Equals",
        TokenKind::NotEquals => "NotEquals",
        TokenKind::LessThanEquals => "LessThanEquals",
        TokenKind::GreaterThanEquals => "GreaterThanEquals",
        TokenKind::LessThan => "LessThan",
        TokenKind::GreaterThan => "GreaterThan",
        TokenKind::ShiftLeft => "ShiftLeft",
        TokenKind::ShiftRight => "ShiftRight",
        TokenKind::Bang => "Bang",
        TokenKind::Tilde => "Tilde",
        TokenKind::Caret => "Caret",
        TokenKind::Pipe => "Pipe",
        TokenKind::Ampersand => "Ampersand",
        TokenKind::Dot => "Dot",
        TokenKind::Assign => "Assign",
        TokenKind::Colon => "Colon",
        TokenKind::Arrow => "Arrow",
        TokenKind::Comma => "Comma",
        TokenKind::StringLiteral(_) => "StringLiteral",
        TokenKind::IntLiteral(_) => "IntLiteral",
        TokenKind::FloatLiteral(_) => "FloatLiteral",
        TokenKind::BoolLiteral(_) => "BoolLiteral",
        TokenKind::Atom(_) => "Atom",
        TokenKind::InstanceOf => "InstanceOf",
        TokenKind::Or => "Or",
        TokenKind::And => "And",
        TokenKind::If => "If",
        TokenKind::Elif => "Elif",
        TokenKind::Else => "Else",
        TokenKind::For => "For",
        TokenKind::From => "From",
        TokenKind::To => "To",
        TokenKind::Foreach => "Foreach",
        TokenKind::In => "In",
        TokenKind::While => "While",
        TokenKind::Return => "Return",
        TokenKind::Panic => "Panic",
        TokenKind::Fn => "Fn",
        TokenKind::Constructor => "Constructor",
        TokenKind::Interface => "Interface",
        TokenKind::Class => "Class",
        TokenKind::Sentinal => "Sentinal",
        TokenKind::Const => "Const",
        TokenKind::Implements => "Implements",
        TokenKind::Comment(_) => "Comment",
        TokenKind::Indent => "Indent",
        TokenKind::Unindent => "Unindent",
        TokenKind::Newline => "Newline",
        TokenKind::EndOfFile => "EndOfFile",
    }
}

/// The span of the first of `tokens[pos..]` merged with `existing`, or
/// `existing` itself when no token is left.
pub fn compute_span(tokens: &[Token], pos: usize, existing: Option<Span>) -> (r: Option<Span>)
    ensures
        pos >= tokens@.len() ==> r == existing,
        pos < tokens@.len() ==> r == Some(match existing {
            Some(e) => crate::tokens::span_union(token_span(tokens@[pos as int]), e),
            None => token_span(tokens@[pos as int]),
        }),
{
    if pos >= tokens.len() {
        return existing;
    }
    let s = span_of(&tokens[pos]);
    match existing {
        Some(e) => Some(s.union(&e)),
        None => Some(s),
    }
}

/// The failure of running out of tokens while looking for `target`.
pub fn err_unexpected_eof(target: &str) -> (r: ParserError)
    ensures
        r.span is None,
        r.source is None,
        r.message@ == "Unexpected EOF, looking for "@ + target@,
{
    let mut message = string_of("Unexpected EOF, looking for ");
    push_str(&mut message, target);
    ParserError { span: None, message, source: None }
}

/// The failure of finding a token after a complete parse.
pub fn err_unexpected_token(token: &Token) -> (r: ParserError)
    ensures
        r.span == Some(token_span(*token)),
        r.source is None,
{
    let mut message = string_of("Unexpected token '");
    push_str(&mut message, kind_name(&token.kind));
    push_str(&mut message, "', expected EOF");
    ParserError { span: Some(span_of(token)), message, source: None }
}

/// The failure of finding `actual` where `expected` was wanted.
pub fn err_bad_match(expected: &str, actual: &Token) -> (r: ParserError)
    ensures
        r.span == Some(token_span(*actual)),
        r.source is None,
{
    let mut message = string_of("Expected ");
    push_str(&mut message, expected);
    push_str(&mut message, ", got ");
    push_str(&mut message, kind_name(&actual.kind));
    ParserError { span: Some(span_of(actual)), message, source: None }
}

/// A failure of rule `label` at `tokens[pos..]` caused by `other`: the span
/// grows to cover the next token and the cause is kept.
pub fn err_append(tokens: &[Token], pos: usize, label: &str, other: ParserError) -> (r: ParserError)
    ensures
        r.span == (if pos < tokens@.len() {
            Some(match other.span {
                Some(e) => crate::tokens::span_union(token_span(tokens@[pos as int]), e),
                None => token_span(tokens@[pos as int]),
            })
        } else {
            other.span
        }),
        r.source == Some(Box::new(other)),
{
    let span = compute_span(tokens, pos, other.span);
    let mut message = string_of("error from ");
    push_str(&mut message, label);
    ParserError { span, message, source: Some(Box::new(other)) }
}

/// Takes the next token, failing when none is left.
pub fn get_next(tokens: &[Token], pos: usize, target: &str) -> (r: Result<usize, ParserError>)
    ensures
        pos < tokens@.len() ==> r == Ok::<usize, ParserError>((pos + 1) as usize),
        pos >= tokens@.len() ==> (r matches Err(e) && e.span is None),
{
    if pos < tokens.len() {
        Ok(pos + 1)
    } else {
        Err(err_unexpected_eof(target))
    }
}

/// Kinds of token without a payload that the grammar asks for by name.
pub open spec fn expectable(k: TokenKind) -> bool {
    k == TokenKind::LParen || k == TokenKind::RParen || k == TokenKind::LSquare
    || k == TokenKind::RSquare || k == TokenKind::Comma || k == TokenKind::Colon
    || k == TokenKind::Dot || k == TokenKind::Arrow || k == TokenKind::Assign
    || k == TokenKind::Bang || k == TokenKind::Pipe || k == TokenKind::Newline
    || k == TokenKind::Indent || k == TokenKind::Unindent || k == TokenKind::Fn
    || k == TokenKind::If || k == TokenKind::Elif || k == TokenKind::Else
    || k == TokenKind::Return || k == TokenKind::Panic
}

/// Whether `actual` is the payload-free kind `expected`.
pub fn is_kind(actual: &TokenKind, expected: &TokenKind) -> (r: bool)
    requires
        expectable(*expected),
    ensures
        r == (*actual == *expected),
{
    match (actual, expected) {
        (TokenKind::LParen, TokenKind::LParen) => true,
        (TokenKind::RParen, TokenKind::RParen) => true,
        (TokenKind::LSquare, TokenKind::LSquare) => true,
        (TokenKind::RSquare, TokenKind::RSquare) => true,
        (TokenKind::Comma, TokenKind::Comma) => true,
        (TokenKind::Colon, TokenKind::Colon) => true,
        (TokenKind::Dot, TokenKind::Dot) => true,
        (TokenKind::Arrow, TokenKind::Arrow) => true,
        (TokenKind::Assign, TokenKind::Assign) => true,
        (TokenKind::Bang, TokenKind::Bang) => true,
        (TokenKind::Pipe, TokenKind::Pipe) => true,
        (TokenKind::Newline, TokenKind::Newline) => true,
        (TokenKind::Indent, TokenKind::Indent) => true,
        (TokenKind::Unindent, TokenKind::Unindent) => true,
        (TokenKind::Fn, TokenKind::Fn) => true,
        (TokenKind::If, TokenKind::If) => true,
        (TokenKind::Elif, TokenKind::Elif) => true,
        (TokenKind::Else, TokenKind::Else) => true,
        (TokenKind::Return, TokenKind::Return) => true,
        (TokenKind::Panic, TokenKind::Panic) => true,
        _ => false,
    }
}

/// Whether the token at `pos` exists and is of the payload-free kind `k`.
pub open spec fn token_is(tokens: Seq<Token>, pos: int, k: TokenKind) -> bool {
    0 <= pos < tokens.len() && tokens[pos].kind == k
}

/// Takes the next token when it is of kind `expected`.
pub fn expect(tokens: &[Token], pos: usize, expected: TokenKind, label: &str) -> (r: Result<usize, ParserError>)
    requires
        expectable(expected),
    ensures
        token_is(tokens@, pos as int, expected) ==> r == Ok::<usize, ParserError>((pos + 1) as usize),
        !token_is(tokens@, pos as int, expected) ==> r is Err,
{
    if pos >= tokens.len() {
        return Err(err_unexpected_eof(label));
    }
    if is_kind(&tokens[pos].kind, &expected) {
        Ok(pos + 1)
    } else {
        Err(err_bad_match(label, &tokens[pos]))
    }
}

/// Whether the token at `pos` exists and is of the payload-free kind `k`.
pub fn next_is(tokens: &[Token], pos: usize, expected: TokenKind) -> (r: bool)
    requires
        expectable(expected),
    ensures
        r == token_is(tokens@, pos as int, expected),
{
    pos < tokens.len() && is_kind(&tokens[pos].kind, &expected)
}

} // verus!
