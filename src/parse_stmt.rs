use vstd::prelude::*;
use crate::ast::{ExprNode, FuncType, Name, TypeNode};
use crate::errors::ParserError;
use crate::parse_expr::{ends_at, match_expr, match_name, s_expr};
use crate::parse_type::{is_name, match_type, name_list_end, names_more, s_return, s_type};
use crate::parser_core::{err_append, err_unexpected_token, expect, next_is, token_is, token_span};
use crate::stmts::{
    AssignmentStmt, Block, Comment, FuncImplementationDefStmt, FuncSignatureDefStmt, IfStmt,
    LineStmt, PanicStmt, Program, ReturnStmt, StmtNode,
};
use crate::tokens::{Token, TokenKind};

verus! {

/// Where the run of comment lines from `p` ends.
pub open spec fn comment_end(t: Seq<Token>, p: nat) -> nat
    decreases t.len() - p,
{
    if comment_at(t, p as int) is Some && token_is(t, (p + 1) as int, TokenKind::Newline) {
        comment_end(t, p + 2)
    } else {
        p
    }
}

/// `name : type`.
pub open spec fn s_param(t: Seq<Token>, p: nat) -> Option<nat> {
    if is_name(t, p as int) && token_is(t, (p + 1) as int, TokenKind::Colon) {
        s_type(t, p + 2)
    } else {
        None
    }
}

/// `, name : type` repeated from `q`, as many as read.
pub open spec fn s_params_more(t: Seq<Token>, q: nat) -> nat
    decreases t.len() - q,
{
    if token_is(t, q as int, TokenKind::Comma) {
        match s_param(t, q + 1) {
            Some(q2) => if q < q2 <= t.len() { s_params_more(t, q2) } else { q },
            None => q,
        }
    } else {
        q
    }
}

/// A function header, after its comment lines.
pub open spec fn s_header(t: Seq<Token>, p: nat) -> Option<nat> {
    let a0 = comment_end(t, p);
    if token_is(t, a0 as int, TokenKind::Fn) && is_name(t, (a0 + 1) as int) {
        let a3 = name_list_end(t, a0 + 2);
        if token_is(t, a3 as int, TokenKind::LParen) {
            let e = match s_param(t, a3 + 1) {
                Some(q) => if a3 < q <= t.len() { s_params_more(t, q) } else { a3 + 1 },
                None => a3 + 1,
            };
            if token_is(t, e as int, TokenKind::RParen) { Some(s_return(t, e + 1)) } else { None }
        } else {
            None
        }
    } else {
        None
    }
}

/// The grammar of statements as a recognizer: where a statement that
/// starts at `p` ends, or `None` when none reads there. Alternatives are
/// tried in order: signature, definition, `if`, assignment, expression
/// line, `return`, `panic`, empty line.
pub open spec fn s_stmt(t: Seq<Token>, p: nat) -> Option<nat>
    decreases t.len() - p, 2nat,
{
    let h = s_header(t, p);
    if h matches Some(e) && token_is(t, e as int, TokenKind::Newline) {
        Some(h->0 + 1)
    } else if h matches Some(e) && p < e <= t.len() && s_indented(t, e) is Some {
        s_indented(t, h->0)
    } else if s_if(t, p) is Some {
        s_if(t, p)
    } else if s_assign(t, p) is Some {
        s_assign(t, p)
    } else if s_line(t, p) is Some {
        s_line(t, p)
    } else if s_kwline(t, p, TokenKind::Return) is Some {
        s_kwline(t, p, TokenKind::Return)
    } else if s_kwline(t, p, TokenKind::Panic) is Some {
        s_kwline(t, p, TokenKind::Panic)
    } else if token_is(t, p as int, TokenKind::Newline) {
        Some(p + 1)
    } else {
        None
    }
}

/// `: Newline Indent block Unindent`.
pub open spec fn s_indented(t: Seq<Token>, p: nat) -> Option<nat>
    decreases t.len() - p, 4nat,
{
    if token_is(t, p as int, TokenKind::Colon) && token_is(t, (p + 1) as int, TokenKind::Newline)
        && token_is(t, (p + 2) as int, TokenKind::Indent) {
        match s_block(t, p + 3) {
            Some(b) => if token_is(t, b as int, TokenKind::Unindent) { Some(b + 1) } else { None },
            None => None,
        }
    } else {
        None
    }
}

/// One or more statements.
pub open spec fn s_block(t: Seq<Token>, p: nat) -> Option<nat>
    decreases t.len() - p, 3nat,
{
    match s_stmt(t, p) {
        Some(q) => if p < q <= t.len() { Some(s_block_more(t, q)) } else { None },
        None => None,
    }
}

/// Statements from `q`, as many as read.
pub open spec fn s_block_more(t: Seq<Token>, q: nat) -> nat
    decreases t.len() - q, 3nat,
{
    match s_stmt(t, q) {
        Some(q2) => if q < q2 <= t.len() { s_block_more(t, q2) } else { q },
        None => q,
    }
}

/// `keyword expr` and an indented block, for `if` and `elif`.
pub open spec fn s_branch(t: Seq<Token>, p: nat, keyword: TokenKind) -> Option<nat>
    decreases t.len() - p, 0nat,
{
    if token_is(t, p as int, keyword) {
        match s_expr(t, p + 1) {
            Some(q) => if p < q <= t.len() { s_indented(t, q) } else { None },
            None => None,
        }
    } else {
        None
    }
}

/// `elif` branches from `q`, as many as read.
pub open spec fn s_elifs(t: Seq<Token>, q: nat) -> nat
    decreases t.len() - q, 1nat,
{
    match s_branch(t, q, TokenKind::Elif) {
        Some(q2) => if q < q2 <= t.len() { s_elifs(t, q2) } else { q },
        None => q,
    }
}

/// `if` with its `elif` branches and an optional `else`, after comment lines.
pub open spec fn s_if(t: Seq<Token>, p: nat) -> Option<nat>
    decreases t.len() - p, 1nat,
{
    let a0 = comment_end(t, p);
    if p <= a0 <= t.len() {
        match s_branch(t, a0, TokenKind::If) {
            Some(b) => if p < b <= t.len() {
                let e = s_elifs(t, b);
                if p < e <= t.len() && token_is(t, e as int, TokenKind::Else) && s_indented(t, e + 1) is Some {
                    s_indented(t, e + 1)
                } else {
                    Some(e)
                }
            } else {
                None
            },
            None => None,
        }
    } else {
        None
    }
}

/// `target = value` and a line break, after comment lines.
pub open spec fn s_assign(t: Seq<Token>, p: nat) -> Option<nat> {
    let a0 = comment_end(t, p);
    match s_expr(t, a0) {
        Some(a1) => if token_is(t, a1 as int, TokenKind::Assign) {
            match s_expr(t, a1 + 1) {
                Some(a3) => if token_is(t, a3 as int, TokenKind::Newline) { Some(a3 + 1) } else { None },
                None => None,
            }
        } else {
            None
        },
        None => None,
    }
}

/// An expression and a line break, after comment lines.
pub open spec fn s_line(t: Seq<Token>, p: nat) -> Option<nat> {
    let a0 = comment_end(t, p);
    match s_expr(t, a0) {
        Some(a1) => if token_is(t, a1 as int, TokenKind::Newline) { Some(a1 + 1) } else { None },
        None => None,
    }
}

/// `keyword [expr]` and a line break, after comment lines.
pub open spec fn s_kwline(t: Seq<Token>, p: nat, keyword: TokenKind) -> Option<nat> {
    let a0 = comment_end(t, p);
    if token_is(t, a0 as int, keyword) {
        let a2 = match s_expr(t, a0 + 1) {
            Some(q) => q,
            None => a0 + 1,
        };
        if token_is(t, a2 as int, TokenKind::Newline) { Some(a2 + 1) } else { None }
    } else {
        None
    }
}

/// What a parse of a statement from `pos` promises on success: it took at
/// least one token.
pub open spec fn stmt_step<T>(tokens: &[Token], pos: usize, r: Result<(usize, T), ParserError>) -> bool {
    r matches Ok((next, _)) ==> pos < next <= tokens.len()
}

/// Parses a whole token sequence into a program. Every token must be used:
/// a token left over after the last statement is an error of its own.
pub fn parse(tokens: &[Token]) -> (r: Result<Program, ParserError>)
    ensures
        tokens@.len() == 0 ==> (r matches Ok(p) && p.body@.len() == 0),
        r is Ok <==> s_block_more(tokens@, 0) == tokens@.len(),
        r matches Err(e) ==> e.source is None && s_block_more(tokens@, 0) < tokens@.len()
            && e.span == Some(token_span(tokens@[s_block_more(tokens@, 0) as int])),
{
    let (rest, program) = match_program(tokens, 0);
    if rest < tokens.len() {
        Err(err_unexpected_token(&tokens[rest]))
    } else {
        Ok(program)
    }
}

/// Zero or more statements.
pub fn match_program(tokens: &[Token], pos: usize) -> (r: (usize, Program))
    requires
        pos <= tokens.len(),
    ensures
        r.0 == s_block_more(tokens@, pos as nat),
        pos <= r.0 <= tokens.len(),
        r.0 == pos ==> r.1.body@.len() == 0,
{
    let mut body: Block = Vec::new();
    let mut rest = pos;
    loop
        invariant
            pos <= rest <= tokens.len(),
            rest == pos ==> body@.len() == 0,
            s_block_more(tokens@, pos as nat) == s_block_more(tokens@, rest as nat),
        ensures
            pos <= rest <= tokens.len(),
            rest == pos ==> body@.len() == 0,
            s_block_more(tokens@, pos as nat) == rest as nat,
        decreases tokens.len() - rest,
    {
        match match_stmt(tokens, rest) {
            Ok((p, s)) => {
                body.push(s);
                rest = p;
            },
            Err(_) => {
                break;
            },
        }
    }
    (rest, Program { body })
}

/// One or more statements.
fn match_block(tokens: &[Token], pos: usize) -> (r: Result<(usize, Block), ParserError>)
    requires
        pos <= tokens.len(),
    ensures
        ends_at(s_block(tokens@, pos as nat), r),
        r matches Ok((next, b)) ==> pos < next <= tokens.len() && b@.len() >= 1,
    decreases tokens.len() - pos, 3nat,
{
    let (first_end, first) = match match_stmt(tokens, pos) {
        Ok(found) => found,
        Err(e) => {
            return Err(err_append(tokens, pos, "block", e));
        },
    };
    let mut body: Block = Vec::new();
    body.push(first);
    let mut rest = first_end;
    let ghost start = first_end as nat;
    loop
        invariant
            pos < rest <= tokens.len(),
            body@.len() >= 1,
            s_block_more(tokens@, start) == s_block_more(tokens@, rest as nat),
        ensures
            pos < rest <= tokens.len(),
            body@.len() >= 1,
            s_block_more(tokens@, start) == rest as nat,
        decreases tokens.len() - rest,
    {
        match match_stmt(tokens, rest) {
            Ok((p, s)) => {
                body.push(s);
                rest = p;
            },
            Err(_) => {
                break;
            },
        }
    }
    Ok((rest, body))
}

/// The statement alternatives, tried in order; the first that matches wins.
fn match_stmt(tokens: &[Token], pos: usize) -> (r: Result<(usize, StmtNode), ParserError>)
    requires
        pos <= tokens.len(),
    ensures
        ends_at(s_stmt(tokens@, pos as nat), r),
        stmt_step(tokens, pos, r),
    decreases tokens.len() - pos, 2nat,
{
    if let Ok((p, s)) = match_func_signature_def(tokens, pos) {
        return Ok((p, StmtNode::FuncSignatureDef(Box::new(s))));
    }
    if let Ok((p, s)) = match_func_implementation_def(tokens, pos) {
        return Ok((p, StmtNode::FuncImplementationDef(Box::new(s))));
    }
    if let Ok((p, s)) = match_if(tokens, pos) {
        return Ok((p, StmtNode::If(Box::new(s))));
    }
    if let Ok((p, s)) = match_assignment(tokens, pos) {
        return Ok((p, StmtNode::Assignment(Box::new(s))));
    }
    if let Ok((p, s)) = match_line(tokens, pos) {
        return Ok((p, StmtNode::Line(Box::new(s))));
    }
    if let Ok((p, s)) = match_return(tokens, pos) {
        return Ok((p, StmtNode::Return(Box::new(s))));
    }
    if let Ok((p, s)) = match_panic(tokens, pos) {
        return Ok((p, StmtNode::Panic(Box::new(s))));
    }
    match expect(tokens, pos, TokenKind::Newline, "Newline") {
        Ok(p) => Ok((p, StmtNode::EmptyLine)),
        Err(e) => Err(err_append(tokens, pos, "statement", e)),
    }
}

/// The text of the comment token at `i`, if that token is a comment.
pub open spec fn comment_at(tokens: Seq<Token>, i: int) -> Option<Seq<char>> {
    if 0 <= i < tokens.len() {
        match tokens[i].kind {
            TokenKind::Comment(t) => Some(t@),
            _ => None,
        }
    } else {
        None
    }
}

/// The run of comment lines, each a comment token and a newline, that
/// stands before a statement.
pub fn match_comment(tokens: &[Token], pos: usize) -> (r: (usize, Comment))
    requires
        pos <= tokens.len(),
    ensures
        r.0 == comment_end(tokens@, pos as nat),
        pos <= r.0 <= tokens.len(),
        r.0 == pos + 2 * r.1.lines@.len(),
        forall|i: int| 0 <= i < r.1.lines@.len() ==> comment_at(tokens@, pos + 2 * i) == Some(#[trigger] r.1.lines@[i]@)
            && token_is(tokens@, pos + 2 * i + 1, TokenKind::Newline),
        !(comment_at(tokens@, r.0 as int) is Some && token_is(tokens@, r.0 + 1, TokenKind::Newline)),
{
    let mut lines: Vec<String> = Vec::new();
    let mut rest = pos;
    loop
        invariant
            pos <= rest <= tokens.len(),
            rest == pos + 2 * lines@.len(),
            forall|i: int| 0 <= i < lines@.len() ==> comment_at(tokens@, pos + 2 * i) == Some(#[trigger] lines@[i]@)
                && token_is(tokens@, pos + 2 * i + 1, TokenKind::Newline),
            comment_end(tokens@, pos as nat) == comment_end(tokens@, rest as nat),
        ensures
            comment_end(tokens@, pos as nat) == rest as nat,
            rest == pos + 2 * lines@.len(),
            !(comment_at(tokens@, rest as int) is Some && token_is(tokens@, rest + 1, TokenKind::Newline)),
        decreases tokens.len() - rest,
    {
        if rest >= tokens.len() {
            break;
        }
        let text = match &tokens[rest].kind {
            TokenKind::Comment(t) => t,
            _ => {
                break;
            },
        };
        if !next_is(tokens, rest + 1, TokenKind::Newline) {
            break;
        }
        let ghost prev = lines@;
        lines.push(crate::text_util::string_of(text.as_str()));
        proof {
            assert forall|i: int| 0 <= i < lines@.len() implies comment_at(tokens@, pos + 2 * i) == Some(#[trigger] lines@[i]@)
                && token_is(tokens@, pos + 2 * i + 1, TokenKind::Newline) by {
                if i < prev.len() {
                    assert(lines@[i] == prev[i]);
                }
            }
        }
        rest = rest + 2;
    }
    (rest, Comment::new(lines))
}

/// `fn name [T, ...] (param: type, ...) -> type`, after any comment lines.
#[verifier::rlimit(60)]
fn match_func_header(tokens: &[Token], pos: usize) -> (r: Result<(usize, FuncSignatureDefStmt), ParserError>)
    requires
        pos <= tokens.len(),
    ensures
        ends_at(s_header(tokens@, pos as nat), r),
        stmt_step(tokens, pos, r),
{
    let (at0, comment) = match_comment(tokens, pos);
    let at1 = match expect(tokens, at0, TokenKind::Fn, "Fn") {
        Ok(p) => p,
        Err(e) => {
            return Err(e);
        },
    };
    let (at2, name) = match match_name(tokens, at1) {
        Ok(found) => found,
        Err(e) => {
            return Err(e);
        },
    };
    let (at3, typevars) = optional_names(tokens, at2);
    let mut rest = match expect(tokens, at3, TokenKind::LParen, "LParen") {
        Ok(p) => p,
        Err(e) => {
            return Err(e);
        },
    };
    let mut param_names: Vec<Name> = Vec::new();
    let mut param_types: Vec<TypeNode> = Vec::new();
    if let Ok((p, (n, t))) = match_param(tokens, rest) {
        param_names.push(n);
        param_types.push(t);
        rest = p;
        let ghost start = rest as nat;
        loop
            invariant
                pos < rest <= tokens.len(),
                s_params_more(tokens@, start) == s_params_more(tokens@, rest as nat),
            ensures
                pos < rest <= tokens.len(),
                s_params_more(tokens@, start) == rest as nat,
            decreases tokens.len() - rest,
        {
            if !next_is(tokens, rest, TokenKind::Comma) {
                break;
            }
            match match_param(tokens, rest + 1) {
                Ok((p, (n, t))) => {
                    param_names.push(n);
                    param_types.push(t);
                    rest = p;
                },
                Err(_) => {
                    break;
                },
            }
        }
    }
    let at4 = match expect(tokens, rest, TokenKind::RParen, "RParen") {
        Ok(p) => p,
        Err(e) => {
            return Err(e);
        },
    };
    let (at5, return_type) = if next_is(tokens, at4, TokenKind::Arrow) {
        match match_type(tokens, at4 + 1) {
            Ok(found) => found,
            Err(_) => (at4, TypeNode::Unit),
        }
    } else {
        (at4, TypeNode::Unit)
    };
    Ok((at5, FuncSignatureDefStmt {
        comment,
        name,
        signature: FuncType { typevars, param_types, return_type },
        param_names,
    }))
}

/// `[ name, ... ]` with at least one name, or nothing.
fn optional_names(tokens: &[Token], pos: usize) -> (r: (usize, Vec<Name>))
    requires
        pos <= tokens.len(),
    ensures
        r.0 == name_list_end(tokens@, pos as nat),
        pos <= r.0 <= tokens.len(),
{
    if !next_is(tokens, pos, TokenKind::LSquare) {
        return (pos, Vec::new());
    }
    let (first_end, first) = match match_name(tokens, pos + 1) {
        Ok(found) => found,
        Err(_) => {
            return (pos, Vec::new());
        },
    };
    let mut names: Vec<Name> = Vec::new();
    names.push(first);
    let mut rest = first_end;
    let ghost start = first_end as nat;
    loop
        invariant
            pos < rest <= tokens.len(),
            names_more(tokens@, start) == names_more(tokens@, rest as nat),
        ensures
            pos < rest <= tokens.len(),
            names_more(tokens@, start) == rest as nat,
        decreases tokens.len() - rest,
    {
        if !next_is(tokens, rest, TokenKind::Comma) {
            break;
        }
        match match_name(tokens, rest + 1) {
            Ok((p, n)) => {
                names.push(n);
                rest = p;
            },
            Err(_) => {
                break;
            },
        }
    }
    match expect(tokens, rest, TokenKind::RSquare, "RSquare") {
        Ok(p) => (p, names),
        Err(_) => (pos, Vec::new()),
    }
}

/// `name: type`.
fn match_param(tokens: &[Token], pos: usize) -> (r: Result<(usize, (Name, TypeNode)), ParserError>)
    requires
        pos <= tokens.len(),
    ensures
        ends_at(s_param(tokens@, pos as nat), r),
        stmt_step(tokens, pos, r),
{
    let (at1, name) = match match_name(tokens, pos) {
        Ok(found) => found,
        Err(e) => {
            return Err(e);
        },
    };
    let at2 = match expect(tokens, at1, TokenKind::Colon, "Colon") {
        Ok(p) => p,
        Err(e) => {
            return Err(e);
        },
    };
    match match_type(tokens, at2) {
        Ok((at3, t)) => Ok((at3, (name, t))),
        Err(e) => Err(e),
    }
}

/// A function header on a line of its own.
fn match_func_signature_def(tokens: &[Token], pos: usize) -> (r: Result<(usize, FuncSignatureDefStmt), ParserError>)
    requires
        pos <= tokens.len(),
    ensures
        ends_at(match s_header(tokens@, pos as nat) { Some(h) => if token_is(tokens@, h as int, TokenKind::Newline) { Some(h + 1) } else { None }, None => None }, r),
        stmt_step(tokens, pos, r),
{
    let (at1, header) = match match_func_header(tokens, pos) {
        Ok(found) => found,
        Err(e) => {
            return Err(e);
        },
    };
    match expect(tokens, at1, TokenKind::Newline, "Newline") {
        Ok(at2) => Ok((at2, header)),
        Err(e) => Err(e),
    }
}

/// `: Newline Indent block Unindent`, the body of a compound statement.
fn match_indented_block(tokens: &[Token], pos: usize) -> (r: Result<(usize, Block), ParserError>)
    requires
        pos <= tokens.len(),
    ensures
        ends_at(s_indented(tokens@, pos as nat), r),
        r matches Ok((next, b)) ==> pos < next <= tokens.len() && b@.len() >= 1,
    decreases tokens.len() - pos, 4nat,
{
    let at1 = match expect(tokens, pos, TokenKind::Colon, "Colon") {
        Ok(p) => p,
        Err(e) => {
            return Err(e);
        },
    };
    let at2 = match expect(tokens, at1, TokenKind::Newline, "Newline") {
        Ok(p) => p,
        Err(e) => {
            return Err(e);
        },
    };
    let at3 = match expect(tokens, at2, TokenKind::Indent, "Indent") {
        Ok(p) => p,
        Err(e) => {
            return Err(e);
        },
    };
    let (at4, body) = match match_block(tokens, at3) {
        Ok(found) => found,
        Err(e) => {
            return Err(e);
        },
    };
    match expect(tokens, at4, TokenKind::Unindent, "Unindent") {
        Ok(at5) => Ok((at5, body)),
        Err(e) => Err(e),
    }
}

/// A function header followed by an indented body.
fn match_func_implementation_def(tokens: &[Token], pos: usize) -> (r: Result<(usize, FuncImplementationDefStmt), ParserError>)
    requires
        pos <= tokens.len(),
    ensures
        ends_at(match s_header(tokens@, pos as nat) { Some(h) => if pos < h <= tokens.len() { s_indented(tokens@, h) } else { None }, None => None }, r),
        stmt_step(tokens, pos, r),
    decreases tokens.len() - pos, 1nat,
{
    let (at1, function) = match match_func_header(tokens, pos) {
        Ok(found) => found,
        Err(e) => {
            return Err(e);
        },
    };
    match match_indented_block(tokens, at1) {
        Ok((at2, body)) => Ok((at2, FuncImplementationDefStmt { function, body })),
        Err(e) => Err(e),
    }
}

/// `keyword expr : Newline Indent block Unindent` for `if` or `elif`.
fn match_branch(tokens: &[Token], pos: usize, keyword: TokenKind) -> (r: Result<(usize, (ExprNode, Block)), ParserError>)
    requires
        pos <= tokens.len(),
        keyword == TokenKind::If || keyword == TokenKind::Elif,
    ensures
        ends_at(s_branch(tokens@, pos as nat, keyword), r),
        stmt_step(tokens, pos, r),
    decreases tokens.len() - pos, 0nat,
{
    let at1 = match expect(tokens, pos, keyword, "If or Elif") {
        Ok(p) => p,
        Err(e) => {
            return Err(e);
        },
    };
    let (at2, cond) = match match_expr(tokens, at1) {
        Ok(found) => found,
        Err(e) => {
            return Err(e);
        },
    };
    match match_indented_block(tokens, at2) {
        Ok((at3, body)) => Ok((at3, (cond, body))),
        Err(e) => Err(e),
    }
}

/// `if` with its `elif` branches and an optional `else`.
fn match_if(tokens: &[Token], pos: usize) -> (r: Result<(usize, IfStmt), ParserError>)
    requires
        pos <= tokens.len(),
    ensures
        ends_at(s_if(tokens@, pos as nat), r),
        stmt_step(tokens, pos, r),
        r matches Ok((_, s)) ==> s.branches@.len() >= 1,
    decreases tokens.len() - pos, 1nat,
{
    let (at0, comment) = match_comment(tokens, pos);
    let (at1, first) = match match_branch(tokens, at0, TokenKind::If) {
        Ok(found) => found,
        Err(e) => {
            return Err(e);
        },
    };
    let mut branches: Vec<(ExprNode, Block)> = Vec::new();
    branches.push(first);
    let mut rest = at1;
    let ghost start = at1 as nat;
    loop
        invariant
            pos < rest <= tokens.len(),
            branches@.len() >= 1,
            s_elifs(tokens@, start) == s_elifs(tokens@, rest as nat),
        ensures
            pos < rest <= tokens.len(),
            branches@.len() >= 1,
            s_elifs(tokens@, start) == rest as nat,
        decreases tokens.len() - rest,
    {
        match match_branch(tokens, rest, TokenKind::Elif) {
            Ok((p, b)) => {
                branches.push(b);
                rest = p;
            },
            Err(_) => {
                break;
            },
        }
    }
    let mut fallback_branch: Option<Block> = None;
    if next_is(tokens, rest, TokenKind::Else) {
        if let Ok((p, body)) = match_indented_block(tokens, rest + 1) {
            fallback_branch = Some(body);
            rest = p;
        }
    }
    Ok((rest, IfStmt { comment, branches, fallback_branch }))
}

/// `target = value` on a line of its own.
fn match_assignment(tokens: &[Token], pos: usize) -> (r: Result<(usize, AssignmentStmt), ParserError>)
    requires
        pos <= tokens.len(),
    ensures
        ends_at(s_assign(tokens@, pos as nat), r),
        stmt_step(tokens, pos, r),
{
    let (at0, comment) = match_comment(tokens, pos);
    let (at1, target) = match match_expr(tokens, at0) {
        Ok(found) => found,
        Err(e) => {
            return Err(e);
        },
    };
    let at2 = match expect(tokens, at1, TokenKind::Assign, "Assign") {
        Ok(p) => p,
        Err(e) => {
            return Err(e);
        },
    };
    let (at3, value) = match match_expr(tokens, at2) {
        Ok(found) => found,
        Err(e) => {
            return Err(e);
        },
    };
    match expect(tokens, at3, TokenKind::Newline, "Newline") {
        Ok(at4) => Ok((at4, AssignmentStmt { comment, target, value })),
        Err(e) => Err(e),
    }
}

/// An expression on a line of its own.
fn match_line(tokens: &[Token], pos: usize) -> (r: Result<(usize, LineStmt), ParserError>)
    requires
        pos <= tokens.len(),
    ensures
        ends_at(s_line(tokens@, pos as nat), r),
        stmt_step(tokens, pos, r),
{
    let (at0, comment) = match_comment(tokens, pos);
    let (at1, expr) = match match_expr(tokens, at0) {
        Ok(found) => found,
        Err(e) => {
            return Err(e);
        },
    };
    match expect(tokens, at1, TokenKind::Newline, "Newline") {
        Ok(at2) => Ok((at2, LineStmt { comment, expr })),
        Err(e) => Err(e),
    }
}

/// `keyword [expr] Newline`, for `return` and `panic`.
fn match_keyword_line(tokens: &[Token], pos: usize, keyword: TokenKind) -> (r: Result<(usize, (Comment, Option<ExprNode>)), ParserError>)
    requires
        pos <= tokens.len(),
        keyword == TokenKind::Return || keyword == TokenKind::Panic,
    ensures
        ends_at(s_kwline(tokens@, pos as nat, keyword), r),
        stmt_step(tokens, pos, r),
{
    let (at0, comment) = match_comment(tokens, pos);
    let at1 = match expect(tokens, at0, keyword, "Return or Panic") {
        Ok(p) => p,
        Err(e) => {
            return Err(e);
        },
    };
    let (at2, value) = match match_expr(tokens, at1) {
        Ok((p, e)) => (p, Some(e)),
        Err(_) => (at1, None),
    };
    match expect(tokens, at2, TokenKind::Newline, "Newline") {
        Ok(at3) => Ok((at3, (comment, value))),
        Err(e) => Err(e),
    }
}

fn match_return(tokens: &[Token], pos: usize) -> (r: Result<(usize, ReturnStmt), ParserError>)
    requires
        pos <= tokens.len(),
    ensures
        ends_at(s_kwline(tokens@, pos as nat, TokenKind::Return), r),
        stmt_step(tokens, pos, r),
{
    match match_keyword_line(tokens, pos, TokenKind::Return) {
        Ok((p, (comment, value))) => Ok((p, ReturnStmt { comment, value })),
        Err(e) => Err(e),
    }
}

fn match_panic(tokens: &[Token], pos: usize) -> (r: Result<(usize, PanicStmt), ParserError>)
    requires
        pos <= tokens.len(),
    ensures
        ends_at(s_kwline(tokens@, pos as nat, TokenKind::Panic), r),
        stmt_step(tokens, pos, r),
{
    match match_keyword_line(tokens, pos, TokenKind::Panic) {
        Ok((p, (comment, value))) => Ok((p, PanicStmt { comment, value })),
        Err(e) => Err(e),
    }
}

} // verus!
