use vstd::prelude::*;
use crate::ast::{
    ExprNode, FieldLookupExpr, FuncCallExpr, IndexExpr, InfixExpr, InfixOp, Name, PrefixExpr,
    PrefixOp, RangeExpr, TupleLookupExpr, infix_power, prefix_power, wf_expr, wf_exprs, lemma_wf_exprs, binds_tighter, lemma_power_shape,
};
use crate::errors::ParserError;
use crate::parser_core::{err_append, err_bad_match, err_unexpected_eof, expect, next_is, token_is};
use crate::tokens::{FloatLiteral, IntLiteral, Token, TokenKind};

verus! {

/// A token as an expression tree remembers it: names, literal values and
/// punctuation.
pub enum Lexeme {
    Punct(TokenKind),
    Name(Seq<char>),
    Int(usize),
    Float(Seq<char>, Seq<char>, Seq<char>),
    Text(Seq<char>),
    Bool(bool),
}

pub open spec fn lexeme(k: TokenKind) -> Lexeme {
    match k {
        TokenKind::Atom(n) => Lexeme::Name(n@),
        TokenKind::IntLiteral(lit) => Lexeme::Int(lit.raw_value),
        TokenKind::FloatLiteral(lit) => Lexeme::Float(lit.integral_digits@, lit.fractional_digits@, lit.power@),
        TokenKind::StringLiteral(s) => Lexeme::Text(s@),
        TokenKind::BoolLiteral(b) => Lexeme::Bool(b),
        _ => Lexeme::Punct(k),
    }
}

/// The lexemes of `tokens[a..b]`.
pub open spec fn lexemes(tokens: Seq<Token>, a: int, b: int) -> Seq<Lexeme> {
    tokens.subrange(a, b).map_values(|t: Token| lexeme(t.kind))
}

pub proof fn lemma_lexemes_split(tokens: Seq<Token>, a: int, b: int, c: int)
    requires
        0 <= a <= b <= c <= tokens.len(),
    ensures
        lexemes(tokens, a, c) == lexemes(tokens, a, b) + lexemes(tokens, b, c),
{
    assert(lexemes(tokens, a, c) =~= lexemes(tokens, a, b) + lexemes(tokens, b, c));
}

pub proof fn lemma_lexemes_one(tokens: Seq<Token>, a: int)
    requires
        0 <= a < tokens.len(),
    ensures
        lexemes(tokens, a, a + 1) == seq![lexeme(tokens[a].kind)],
{
    assert(lexemes(tokens, a, a + 1) =~= seq![lexeme(tokens[a].kind)]);
}

pub proof fn lemma_lexemes_empty(tokens: Seq<Token>, a: int)
    requires
        0 <= a <= tokens.len(),
    ensures
        lexemes(tokens, a, a) == Seq::<Lexeme>::empty(),
{
    assert(lexemes(tokens, a, a) =~= Seq::<Lexeme>::empty());
}

/// The token that stands for an infix operator.
pub open spec fn infix_token(op: InfixOp) -> TokenKind {
    match op {
        InfixOp::LogicalOr => TokenKind::Or,
        InfixOp::LogicalAnd => TokenKind::And,
        InfixOp::Equals => TokenKind::Equals,
        InfixOp::NotEquals => TokenKind::NotEquals,
        InfixOp::LessThanEquals => TokenKind::LessThanEquals,
        InfixOp::GreaterThanEquals => TokenKind::GreaterThanEquals,
        InfixOp::LessThan => TokenKind::LessThan,
        InfixOp::GreaterThan => TokenKind::GreaterThan,
        InfixOp::To => TokenKind::To,
        InfixOp::InstanceOf => TokenKind::InstanceOf,
        InfixOp::BitwiseOr => TokenKind::Pipe,
        InfixOp::BitwiseXor => TokenKind::Caret,
        InfixOp::BitwiseAnd => TokenKind::Ampersand,
        InfixOp::BitwiseShiftLeft => TokenKind::ShiftLeft,
        InfixOp::BitwiseShiftRight => TokenKind::ShiftRight,
        InfixOp::Addition => TokenKind::Plus,
        InfixOp::Subtraction => TokenKind::Minus,
        InfixOp::Multiplication => TokenKind::Multiply,
        InfixOp::Division => TokenKind::Divide,
        InfixOp::Modulus => TokenKind::Percent,
    }
}

/// The token that stands for a prefix operator.
pub open spec fn prefix_token(op: PrefixOp) -> TokenKind {
    match op {
        PrefixOp::LogicalNegate => TokenKind::Bang,
        PrefixOp::NumericalNegate => TokenKind::Minus,
        PrefixOp::BitwiseNegate => TokenKind::Tilde,
    }
}

proof fn lemma_prefix_lexeme(k: TokenKind)
    ensures
        token_prefix(k) matches Some(op) ==> lexeme(k) == Lexeme::Punct(prefix_token(op)),
{
}

proof fn lemma_infix_lexeme(k: TokenKind)
    ensures
        token_infix(k) matches Some(op) ==> lexeme(k) == Lexeme::Punct(infix_token(op)),
{
}

/// The lexemes that an expression tree was read from, in order.
pub open spec fn yield_expr(e: ExprNode) -> Seq<Lexeme>
    decreases e,
{
    match e {
        ExprNode::FuncCall(b) => yield_expr(b.func) + seq![Lexeme::Punct(TokenKind::LParen)]
            + yield_args(b.params@) + seq![Lexeme::Punct(TokenKind::RParen)],
        ExprNode::ExplicitParenthesis(inner) => seq![Lexeme::Punct(TokenKind::LParen)] + yield_expr(*inner)
            + seq![Lexeme::Punct(TokenKind::RParen)],
        ExprNode::Infix(b) => yield_chain(b.exprs@, b.ops@),
        ExprNode::Prefix(b) => seq![Lexeme::Punct(prefix_token(b.op))] + yield_expr(b.expr),
        ExprNode::Index(b) => yield_expr(b.source) + seq![Lexeme::Punct(TokenKind::LSquare)]
            + yield_expr(b.index) + seq![Lexeme::Punct(TokenKind::RSquare)],
        ExprNode::Range(b) => yield_expr(b.start) + seq![Lexeme::Punct(TokenKind::To)] + yield_expr(b.end),
        ExprNode::FieldLookup(b) => yield_expr(b.source) + yield_names(b.name_chain@),
        ExprNode::TupleLookup(b) => yield_expr(b.source) + yield_indices(b.index_chain@),
        ExprNode::Variable(v) => seq![Lexeme::Name(v@)],
        ExprNode::Array(b) => seq![Lexeme::Punct(TokenKind::LSquare)] + yield_args(b.items@)
            + seq![Lexeme::Punct(TokenKind::RSquare)],
        ExprNode::Tuple(b) => seq![Lexeme::Punct(TokenKind::LParen)] + yield_args(b.items@)
            + seq![Lexeme::Punct(TokenKind::RParen)],
        ExprNode::StringLiteral(s) => seq![Lexeme::Text((*s)@)],
        ExprNode::IntLiteral(x) => seq![Lexeme::Int(x.raw_value)],
        ExprNode::FloatLiteral(x) => seq![Lexeme::Float(x.integral_digits@, x.fractional_digits@, x.power@)],
        ExprNode::BoolLiteral(b) => seq![Lexeme::Bool(b)],
        ExprNode::Error(_) => Seq::empty(),
    }
}

/// Operands joined by their operators.
pub open spec fn yield_chain(exprs: Seq<ExprNode>, ops: Seq<InfixOp>) -> Seq<Lexeme>
    decreases exprs,
{
    if exprs.len() == 0 {
        Seq::empty()
    } else if exprs.len() == 1 {
        yield_expr(exprs[0])
    } else {
        yield_chain(exprs.drop_last(), ops.drop_last()) + seq![Lexeme::Punct(infix_token(ops.last()))]
            + yield_expr(exprs.last())
    }
}

/// Expressions separated by commas.
pub open spec fn yield_args(items: Seq<ExprNode>) -> Seq<Lexeme>
    decreases items,
{
    if items.len() == 0 {
        Seq::empty()
    } else if items.len() == 1 {
        yield_expr(items[0])
    } else {
        yield_args(items.drop_last()) + seq![Lexeme::Punct(TokenKind::Comma)] + yield_expr(items.last())
    }
}

/// `.name` for each name.
pub open spec fn yield_names(names: Seq<Name>) -> Seq<Lexeme>
    decreases names.len(),
{
    if names.len() == 0 {
        Seq::empty()
    } else {
        yield_names(names.drop_last()) + seq![Lexeme::Punct(TokenKind::Dot), Lexeme::Name(names.last()@)]
    }
}

/// `.index` for each index.
pub open spec fn yield_indices(indices: Seq<usize>) -> Seq<Lexeme>
    decreases indices.len(),
{
    if indices.len() == 0 {
        Seq::empty()
    } else {
        yield_indices(indices.drop_last()) + seq![Lexeme::Punct(TokenKind::Dot), Lexeme::Int(indices.last())]
    }
}

/// A parse result `r` agrees with the recognizer's answer `s`: it succeeds
/// exactly when `s` does, ending where `s` ends.
pub open spec fn ends_at<X>(s: Option<nat>, r: Result<(usize, X), ParserError>) -> bool {
    match s {
        Some(n) => r matches Ok((next, _)) && next == n,
        None => r is Err,
    }
}

/// Where the run of `.name` suffixes from index `p` ends.
pub open spec fn field_end(t: Seq<Token>, p: nat) -> nat
    decreases t.len() - p,
{
    if field_step(t, p as int) {
        field_end(t, p + 2)
    } else {
        p
    }
}

/// Where the run of `.index` suffixes from index `p` ends.
pub open spec fn index_end(t: Seq<Token>, p: nat) -> nat
    decreases t.len() - p,
{
    if index_step(t, p as int) {
        index_end(t, p + 2)
    } else {
        p
    }
}

/// Where a lookup chain after an atom that ends at `p` ends.
pub open spec fn lookup_end(t: Seq<Token>, p: nat) -> nat {
    if field_step(t, p as int) {
        field_end(t, p)
    } else if index_step(t, p as int) {
        index_end(t, p)
    } else {
        p
    }
}

/// The grammar of expressions as a recognizer: where an expression that
/// starts at `p` ends, or `None` when none reads there. Alternatives are
/// tried in order and repetitions are greedy, as the parser does.
pub open spec fn s_expr(t: Seq<Token>, p: nat) -> Option<nat>
    decreases t.len() - p, 9nat,
{
    match s_build(t, p, 0) {
        Some(q) => Some(q),
        None => s_group(t, p),
    }
}

/// `( expr )`.
pub open spec fn s_group(t: Seq<Token>, p: nat) -> Option<nat>
    decreases t.len() - p, 2nat,
{
    if token_is(t, p as int, TokenKind::LParen) {
        match s_expr(t, p + 1) {
            Some(q) => if token_is(t, q as int, TokenKind::RParen) { Some(q + 1) } else { None },
            None => None,
        }
    } else {
        None
    }
}

/// A prefix operator and its operand, or an operand, then the operators
/// binding at least `min`.
pub open spec fn s_build(t: Seq<Token>, p: nat, min: u8) -> Option<nat>
    decreases t.len() - p, 7nat,
{
    if p < t.len() && token_prefix(t[p as int].kind) is Some {
        match s_build(t, p + 1, prefix_power(token_prefix(t[p as int].kind)->0)) {
            Some(h) => if p < h <= t.len() { s_climb(t, h, min) } else { None },
            None => None,
        }
    } else {
        match s_operand(t, p) {
            Some(h) => if p < h <= t.len() { s_climb(t, h, min) } else { None },
            None => None,
        }
    }
}

/// Infix operators binding at least `min` with their right sides, from `q`.
pub open spec fn s_climb(t: Seq<Token>, q: nat, min: u8) -> Option<nat>
    decreases t.len() - q, 7nat,
{
    if q < t.len() && token_infix(t[q as int].kind) is Some
        && infix_power(token_infix(t[q as int].kind)->0).0 >= min {
        match s_build(t, q + 1, infix_power(token_infix(t[q as int].kind)->0).1) {
            Some(q2) => if q < q2 <= t.len() { s_climb(t, q2, min) } else { None },
            None => None,
        }
    } else {
        Some(q)
    }
}

/// A unit and its call and index suffixes.
pub open spec fn s_operand(t: Seq<Token>, p: nat) -> Option<nat>
    decreases t.len() - p, 6nat,
{
    match s_unit(t, p) {
        Some(u) => if p < u <= t.len() { Some(s_postfix(t, u)) } else { None },
        None => None,
    }
}

/// The call and index suffixes from `q`, as many as read.
pub open spec fn s_postfix(t: Seq<Token>, q: nat) -> nat
    decreases t.len() - q, 6nat,
{
    if token_is(t, q as int, TokenKind::LParen) {
        match s_call_args(t, q) {
            Some(q2) => if q < q2 <= t.len() { s_postfix(t, q2) } else { q },
            None => q,
        }
    } else if token_is(t, q as int, TokenKind::LSquare) {
        match s_index(t, q) {
            Some(q2) => if q < q2 <= t.len() { s_postfix(t, q2) } else { q },
            None => q,
        }
    } else {
        q
    }
}

/// `( expr, ... )`.
pub open spec fn s_call_args(t: Seq<Token>, p: nat) -> Option<nat>
    decreases t.len() - p, 5nat,
{
    if token_is(t, p as int, TokenKind::LParen) {
        let e = match s_expr(t, p + 1) {
            Some(q) => if p < q <= t.len() { s_args_more(t, q) } else { p + 1 },
            None => p + 1,
        };
        if token_is(t, e as int, TokenKind::RParen) { Some(e + 1) } else { None }
    } else {
        None
    }
}

/// `, expr` repeated from `q`, as many as read.
pub open spec fn s_args_more(t: Seq<Token>, q: nat) -> nat
    decreases t.len() - q, 5nat,
{
    if token_is(t, q as int, TokenKind::Comma) {
        match s_expr(t, q + 1) {
            Some(q2) => if q < q2 <= t.len() { s_args_more(t, q2) } else { q },
            None => q,
        }
    } else {
        q
    }
}

/// `[ expr ]`.
pub open spec fn s_index(t: Seq<Token>, p: nat) -> Option<nat>
    decreases t.len() - p, 5nat,
{
    if token_is(t, p as int, TokenKind::LSquare) {
        match s_expr(t, p + 1) {
            Some(q) => if token_is(t, q as int, TokenKind::RSquare) { Some(q + 1) } else { None },
            None => None,
        }
    } else {
        None
    }
}

/// An atom and its lookup chain.
pub open spec fn s_unit(t: Seq<Token>, p: nat) -> Option<nat>
    decreases t.len() - p, 4nat,
{
    match s_atom(t, p) {
        Some(a) => Some(lookup_end(t, a)),
        None => None,
    }
}

/// A name, a literal, or a group.
pub open spec fn s_atom(t: Seq<Token>, p: nat) -> Option<nat>
    decreases t.len() - p, 3nat,
{
    if p < t.len() {
        match t[p as int].kind {
            TokenKind::Atom(_) | TokenKind::BoolLiteral(_) | TokenKind::IntLiteral(_)
            | TokenKind::FloatLiteral(_) | TokenKind::StringLiteral(_) => Some(p + 1),
            TokenKind::LParen => s_group(t, p),
            _ => None,
        }
    } else {
        None
    }
}

/// The infix operator that a token of kind `k` stands for.
pub open spec fn token_infix(k: TokenKind) -> Option<InfixOp> {
    match k {
        TokenKind::Or => Some(InfixOp::LogicalOr),
        TokenKind::And => Some(InfixOp::LogicalAnd),
        TokenKind::Equals => Some(InfixOp::Equals),
        TokenKind::NotEquals => Some(InfixOp::NotEquals),
        TokenKind::LessThanEquals => Some(InfixOp::LessThanEquals),
        TokenKind::GreaterThanEquals => Some(InfixOp::GreaterThanEquals),
        TokenKind::LessThan => Some(InfixOp::LessThan),
        TokenKind::GreaterThan => Some(InfixOp::GreaterThan),
        TokenKind::To => Some(InfixOp::To),
        TokenKind::InstanceOf => Some(InfixOp::InstanceOf),
        TokenKind::Pipe => Some(InfixOp::BitwiseOr),
        TokenKind::Caret => Some(InfixOp::BitwiseXor),
        TokenKind::Ampersand => Some(InfixOp::BitwiseAnd),
        TokenKind::ShiftLeft => Some(InfixOp::BitwiseShiftLeft),
        TokenKind::ShiftRight => Some(InfixOp::BitwiseShiftRight),
        TokenKind::Plus => Some(InfixOp::Addition),
        TokenKind::Minus => Some(InfixOp::Subtraction),
        TokenKind::Multiply => Some(InfixOp::Multiplication),
        TokenKind::Divide => Some(InfixOp::Division),
        TokenKind::Percent => Some(InfixOp::Modulus),
        _ => None,
    }
}

/// The prefix operator that a token of kind `k` stands for.
pub open spec fn token_prefix(k: TokenKind) -> Option<PrefixOp> {
    match k {
        TokenKind::Bang => Some(PrefixOp::LogicalNegate),
        TokenKind::Minus => Some(PrefixOp::NumericalNegate),
        TokenKind::Tilde => Some(PrefixOp::BitwiseNegate),
        _ => None,
    }
}

/// What a parse of an expression from `pos` promises on success: it took at
/// least one token, the tree is well formed, and read in order it gives
/// back exactly the tokens taken.
pub open spec fn expr_step(tokens: Seq<Token>, pos: usize, r: Result<(usize, ExprNode), ParserError>) -> bool {
    r matches Ok((next, e)) ==> {
        &&& pos < next <= tokens.len()
        &&& wf_expr(e)
        &&& lexemes(tokens, pos as int, next as int) == yield_expr(e)
    }
}

/// Every infix operator of `e`'s top node, if it is an infix node, has the
/// binding power `bp`.
pub open spec fn tier_is(e: ExprNode, bp: (u8, u8)) -> bool {
    e matches ExprNode::Infix(b) ==> forall|i: int| 0 <= i < b.ops@.len() ==> #[trigger] infix_power(b.ops@[i]) == bp
}

pub fn match_infix_op(tokens: &[Token], pos: usize) -> (r: Result<(usize, InfixOp), ParserError>)
    ensures
        pos < tokens.len() && token_infix(tokens@[pos as int].kind) is Some
            ==> r == Ok::<(usize, InfixOp), ParserError>(((pos + 1) as usize, token_infix(tokens@[pos as int].kind)->0)),
        !(pos < tokens.len() && token_infix(tokens@[pos as int].kind) is Some) ==> r is Err,
{
    if pos >= tokens.len() {
        return Err(err_unexpected_eof("infix op"));
    }
    let op = match &tokens[pos].kind {
        TokenKind::Or => InfixOp::LogicalOr,
        TokenKind::And => InfixOp::LogicalAnd,
        TokenKind::Equals => InfixOp::Equals,
        TokenKind::NotEquals => InfixOp::NotEquals,
        TokenKind::LessThanEquals => InfixOp::LessThanEquals,
        TokenKind::GreaterThanEquals => InfixOp::GreaterThanEquals,
        TokenKind::LessThan => InfixOp::LessThan,
        TokenKind::GreaterThan => InfixOp::GreaterThan,
        TokenKind::To => InfixOp::To,
        TokenKind::InstanceOf => InfixOp::InstanceOf,
        TokenKind::Pipe => InfixOp::BitwiseOr,
        TokenKind::Caret => InfixOp::BitwiseXor,
        TokenKind::Ampersand => InfixOp::BitwiseAnd,
        TokenKind::ShiftLeft => InfixOp::BitwiseShiftLeft,
        TokenKind::ShiftRight => InfixOp::BitwiseShiftRight,
        TokenKind::Plus => InfixOp::Addition,
        TokenKind::Minus => InfixOp::Subtraction,
        TokenKind::Multiply => InfixOp::Multiplication,
        TokenKind::Divide => InfixOp::Division,
        TokenKind::Percent => InfixOp::Modulus,
        _ => {
            return Err(err_bad_match("infix operator", &tokens[pos]));
        },
    };
    Ok((pos + 1, op))
}

pub fn match_prefix_op(tokens: &[Token], pos: usize) -> (r: Result<(usize, PrefixOp), ParserError>)
    ensures
        pos < tokens.len() && token_prefix(tokens@[pos as int].kind) is Some
            ==> r == Ok::<(usize, PrefixOp), ParserError>(((pos + 1) as usize, token_prefix(tokens@[pos as int].kind)->0)),
        !(pos < tokens.len() && token_prefix(tokens@[pos as int].kind) is Some) ==> r is Err,
{
    if pos >= tokens.len() {
        return Err(err_unexpected_eof("prefix op"));
    }
    let op = match &tokens[pos].kind {
        TokenKind::Bang => PrefixOp::LogicalNegate,
        TokenKind::Minus => PrefixOp::NumericalNegate,
        TokenKind::Tilde => PrefixOp::BitwiseNegate,
        _ => {
            return Err(err_bad_match("prefix operator", &tokens[pos]));
        },
    };
    Ok((pos + 1, op))
}

/// Joins `prev`, whose top operators have binding power `prev_bp`, with
/// `next` by `op`, whose binding power is `next_bp`. An infix node of the
/// same tier takes the new operand in place; `to` makes a range node; any
/// other operator makes a new infix node of two operands.
pub fn merge(prev_bp: (u8, u8), prev: ExprNode, op: InfixOp, next_bp: (u8, u8), next: ExprNode) -> (r: ((u8, u8), ExprNode))
    requires
        wf_expr(prev),
        wf_expr(next),
        next_bp == infix_power(op),
        tier_is(prev, prev_bp),
        binds_tighter(next, next_bp.0),
        prev is Infix ==> (prev_bp == next_bp || prev_bp.0 > next_bp.0),
    ensures
        wf_expr(r.1),
        tier_is(r.1, r.0),
        yield_expr(r.1) == yield_expr(prev) + seq![Lexeme::Punct(infix_token(op))] + yield_expr(next),
        prev_bp == next_bp && prev is Infix ==> r.0 == prev_bp && match (prev, r.1) {
            (ExprNode::Infix(a), ExprNode::Infix(b)) => b.exprs@ == a.exprs@.push(next) && b.ops@ == a.ops@.push(op),
            _ => false,
        },
        !(prev_bp == next_bp && prev is Infix) && op == InfixOp::To ==> r.0 == next_bp
            && r.1 == ExprNode::Range(Box::new(RangeExpr { start: prev, end: next })),
        !(prev_bp == next_bp && prev is Infix) && op != InfixOp::To ==> r.0 == next_bp && match r.1 {
            ExprNode::Infix(b) => b.exprs@ == seq![prev, next] && b.ops@ == seq![op],
            _ => false,
        },
{
    let ghost prev0 = prev;
    let prev = if prev_bp.0 == next_bp.0 && prev_bp.1 == next_bp.1 {
        match prev {
            ExprNode::Infix(b) => {
                proof {
                    lemma_wf_exprs(b.exprs@);
                    lemma_power_shape(op);
                    lemma_power_shape(b.ops@[0]);
                }
                let mut inner = *b;
                let ghost old_exprs = inner.exprs@;
                let ghost old_ops = inner.ops@;
                inner.exprs.push(next);
                inner.ops.push(op);
                let r = ExprNode::Infix(Box::new(inner));
                proof {
                    assert(inner.exprs@ == old_exprs.push(next));
                    lemma_wf_exprs(inner.exprs@);
                    assert forall|i: int| 0 <= i < inner.exprs@.len() implies #[trigger] wf_expr(inner.exprs@[i]) by {
                        if i < old_exprs.len() {
                            assert(inner.exprs@[i] == old_exprs[i]);
                        }
                    }
                    assert forall|i: int| 0 <= i < inner.ops@.len() implies #[trigger] infix_power(inner.ops@[i]) == prev_bp by {
                        if i < old_ops.len() {
                            assert(inner.ops@[i] == old_ops[i]);
                        }
                    }
                    assert(inner.ops@[0] == old_ops[0]);
                    assert(op != InfixOp::To);
                    assert forall|i: int| 0 <= i < inner.ops@.len() implies #[trigger] inner.ops@[i] != InfixOp::To by {
                        if i < old_ops.len() {
                            assert(inner.ops@[i] == old_ops[i]);
                        }
                    }
                    assert(inner.exprs@.drop_last() =~= old_exprs);
                    assert(inner.ops@.drop_last() =~= old_ops);
                    assert(inner.exprs@.last() == next);
                    assert(inner.ops@.last() == op);
                    assert(old_exprs.len() >= 2);
                    assert(yield_expr(r) == yield_chain(inner.exprs@, inner.ops@));
                    assert(yield_chain(inner.exprs@, inner.ops@) == yield_chain(inner.exprs@.drop_last(), inner.ops@.drop_last())
                        + seq![Lexeme::Punct(infix_token(inner.ops@.last()))] + yield_expr(inner.exprs@.last()));
                    assert(yield_expr(r) == yield_chain(old_exprs, old_ops) + seq![Lexeme::Punct(infix_token(op))] + yield_expr(next));
                    assert forall|i: int| 0 <= i < inner.exprs@.len() implies binds_tighter(#[trigger] inner.exprs@[i], infix_power(inner.ops@[0]).0) by {
                        if i < old_exprs.len() {
                            assert(inner.exprs@[i] == old_exprs[i]);
                        }
                    }
                }
                return (prev_bp, r);
            },
            other => other,
        }
    } else {
        prev
    };
    assert(prev == prev0);
    if matches!(op, InfixOp::To) {
        let r = ExprNode::Range(Box::new(RangeExpr { start: prev, end: next }));
        assert(yield_expr(r) == yield_expr(prev0) + seq![Lexeme::Punct(infix_token(op))] + yield_expr(next));
        return (next_bp, r);
    }
    let exprs = vec![prev, next];
    let ops = vec![op];
    let r = ExprNode::Infix(Box::new(InfixExpr { exprs, ops }));
    proof {
        assert(exprs@ =~= seq![prev0, next]);
        lemma_wf_exprs(exprs@);
        assert(exprs@.drop_last() =~= seq![prev0]);
        assert(ops@ =~= seq![op]);
        assert(ops@.drop_last() =~= Seq::<InfixOp>::empty());
        assert(exprs@.len() == 2);
        assert(yield_expr(r) == yield_chain(exprs@, ops@));
        assert(yield_chain(seq![prev0], Seq::<InfixOp>::empty()) == yield_expr(prev0));
        assert(yield_expr(r) == yield_expr(prev0) + seq![Lexeme::Punct(infix_token(op))] + yield_expr(next));
        assert(binds_tighter(exprs@[0], infix_power(op).0));
        assert(binds_tighter(exprs@[1], infix_power(op).0));
        assert(forall|i: int| 0 <= i < exprs@.len() ==> #[trigger] wf_expr(exprs@[i]));
    }
    (next_bp, r)
}

/// An expression: a chain of operators over operands, or a parenthesized
/// group.
pub fn match_expr(tokens: &[Token], pos: usize) -> (r: Result<(usize, ExprNode), ParserError>)
    requires
        pos <= tokens.len(),
    ensures
        s_build(tokens@, pos as nat, 0) is Some ==> (r matches Ok((next, _)) && !continues_at(tokens@, next as int, 0)),
        ends_at(s_expr(tokens@, pos as nat), r),
        expr_step(tokens@, pos, r),
    decreases tokens.len() - pos, 9nat,
{
    match match_operations(tokens, pos) {
        Ok(found) => Ok(found),
        Err(_) => match match_group(tokens, pos) {
            Ok(found) => Ok(found),
            Err(second) => Err(err_append(tokens, pos, "alternative", second).add_context("match_expr")),
        },
    }
}

/// `( expr )`, kept as its own node.
fn match_group(tokens: &[Token], pos: usize) -> (r: Result<(usize, ExprNode), ParserError>)
    requires
        pos <= tokens.len(),
    ensures
        ends_at(s_group(tokens@, pos as nat), r),
        expr_step(tokens@, pos, r),
        r matches Ok((next, e)) ==> e is ExplicitParenthesis && token_is(tokens@, pos as int, TokenKind::LParen)
            && token_is(tokens@, next - 1, TokenKind::RParen),
        !token_is(tokens@, pos as int, TokenKind::LParen) ==> r is Err,
    decreases tokens.len() - pos, 2nat,
{
    let at1 = match expect(tokens, pos, TokenKind::LParen, "LParen") {
        Ok(p) => p,
        Err(e) => {
            return Err(e.add_context("match_group"));
        },
    };
    let (at2, inner) = match match_expr(tokens, at1) {
        Ok(found) => found,
        Err(e) => {
            return Err(e.add_context("match_group"));
        },
    };
    let at3 = match expect(tokens, at2, TokenKind::RParen, "RParen") {
        Ok(p) => p,
        Err(e) => {
            return Err(e.add_context("match_group"));
        },
    };
    proof {
        lemma_lexemes_split(tokens@, pos as int, pos + 1, at2 as int);
        lemma_lexemes_split(tokens@, pos as int, at2 as int, at3 as int);
        lemma_lexemes_one(tokens@, pos as int);
        lemma_lexemes_one(tokens@, at2 as int);
    }
    let r = ExprNode::ExplicitParenthesis(Box::new(inner));
    assert(lexemes(tokens@, pos as int, at3 as int) =~= yield_expr(r));
    Ok((at3, r))
}

fn match_operations(tokens: &[Token], pos: usize) -> (r: Result<(usize, ExprNode), ParserError>)
    requires
        pos <= tokens.len(),
    ensures
        ends_at(s_build(tokens@, pos as nat, 0), r),
        expr_step(tokens@, pos, r),
        r matches Ok((next, _)) ==> !continues_at(tokens@, next as int, 0),
    decreases tokens.len() - pos, 8nat,
{
    match build(tokens, pos, 0) {
        Ok((p, e)) => Ok((p, e.0)),
        Err(e) => Err(e.add_context("match_operations")),
    }
}

/// Whether the token at `i` is an infix operator binding at least `min_bp`
/// to its left.
pub open spec fn continues_at(tokens: Seq<Token>, i: int, min_bp: u8) -> bool {
    0 <= i < tokens.len() && match token_infix(tokens[i].kind) {
        Some(op) => infix_power(op).0 >= min_bp,
        None => false,
    }
}

/// Precedence climbing: an operand, then every infix operator whose left
/// binding power is at least `min_bp`, each with the right side parsed at
/// the operator's right binding power. The result stops only where no such
/// operator follows, and its top operators all bind at least `min_bp`.
pub fn build(tokens: &[Token], pos: usize, min_bp: u8) -> (r: Result<(usize, (ExprNode, (u8, u8))), ParserError>)
    requires
        pos <= tokens.len(),
    ensures
        ends_at(s_build(tokens@, pos as nat, min_bp), r),
        r matches Ok((next, (e, bp))) ==> {
            &&& pos < next <= tokens.len()
            &&& wf_expr(e)
            &&& tier_is(e, bp)
            &&& (bp == (0u8, 0u8) || bp.0 >= min_bp)
            &&& !continues_at(tokens@, next as int, min_bp)
            &&& lexemes(tokens@, pos as int, next as int) == yield_expr(e)
        },
    decreases tokens.len() - pos, 7nat,
{
    let (head_end, head) = match match_prefix_op(tokens, pos) {
        Ok((at1, op)) => {
            let ((), right_bp) = op.binding_power();
            let (at2, sub) = match build(tokens, at1, right_bp) {
                Ok((at2, (sub, _))) => (at2, sub),
                Err(e) => {
                    return Err(e);
                },
            };
            let head = ExprNode::Prefix(Box::new(PrefixExpr { op, expr: sub }));
            proof {
                lemma_lexemes_split(tokens@, pos as int, at1 as int, at2 as int);
                lemma_lexemes_one(tokens@, pos as int);
                lemma_prefix_lexeme(tokens@[pos as int].kind);
                assert(lexemes(tokens@, pos as int, at2 as int) =~= yield_expr(head));
            }
            (at2, head)
        },
        Err(_) => match match_operand(tokens, pos) {
            Ok(found) => found,
            Err(e) => {
                return Err(e);
            },
        },
    };
    let mut rest = head_end;
    let mut curr = head;
    let mut curr_bp: (u8, u8) = (0, 0);
    loop
        invariant
            pos < rest <= tokens.len(),
            wf_expr(curr),
            tier_is(curr, curr_bp),
            curr_bp == (0u8, 0u8) || curr_bp.0 >= min_bp,
            curr is Infix ==> !continues_at(tokens@, rest as int, curr_bp.1),
            lexemes(tokens@, pos as int, rest as int) == yield_expr(curr),
            s_build(tokens@, pos as nat, min_bp) == s_climb(tokens@, rest as nat, min_bp),
        ensures
            s_build(tokens@, pos as nat, min_bp) == Some(rest as nat),
            lexemes(tokens@, pos as int, rest as int) == yield_expr(curr),
            pos < rest <= tokens.len(),
            wf_expr(curr),
            tier_is(curr, curr_bp),
            curr_bp == (0u8, 0u8) || curr_bp.0 >= min_bp,
            !continues_at(tokens@, rest as int, min_bp),
        decreases tokens.len() - rest,
    {
        let op = match match_infix_op(tokens, rest) {
            Ok((_, op)) => op,
            Err(_) => {
                break;
            },
        };
        let (left_bp, right_bp) = op.binding_power();
        if left_bp < min_bp {
            break;
        }
        let (tail_end, tail) = match build(tokens, rest + 1, right_bp) {
            Ok((p, (t, _))) => (p, t),
            Err(e) => {
                return Err(e);
            },
        };
        let ghost gc = curr;
        let ghost gt = tail;
        proof {
            lemma_power_shape(op);
            if let ExprNode::Infix(b) = gc {
                lemma_power_shape(b.ops@[0]);
                assert(infix_power(b.ops@[0]) == curr_bp);
            }
            if let ExprNode::Infix(t) = gt {
                lemma_power_shape(t.ops@[0]);
            }
        }
        let (bp, merged) = merge(curr_bp, curr, op, (left_bp, right_bp), tail);
        proof {
            lemma_lexemes_split(tokens@, pos as int, rest as int, tail_end as int);
            lemma_lexemes_split(tokens@, rest as int, rest + 1, tail_end as int);
            lemma_lexemes_one(tokens@, rest as int);
            lemma_infix_lexeme(tokens@[rest as int].kind);
            assert(lexemes(tokens@, pos as int, tail_end as int) =~= yield_expr(merged));
        }
        curr = merged;
        curr_bp = bp;
        rest = tail_end;
    }
    Ok((rest, (curr, curr_bp)))
}

/// A unit followed by any run of call suffixes `(args)` and index suffixes
/// `[expr]`, folded left to right.
fn match_operand(tokens: &[Token], pos: usize) -> (r: Result<(usize, ExprNode), ParserError>)
    requires
        pos <= tokens.len(),
    ensures
        ends_at(s_operand(tokens@, pos as nat), r),
        expr_step(tokens@, pos, r),
        r matches Ok((_, e)) ==> !(e is Infix),
    decreases tokens.len() - pos, 6nat,
{
    let (mut rest, mut curr) = match match_unit(tokens, pos) {
        Ok(found) => found,
        Err(e) => {
            return Err(e.add_context("match_operand"));
        },
    };
    loop
        invariant
            pos < rest <= tokens.len(),
            wf_expr(curr),
            !(curr is Infix),
            lexemes(tokens@, pos as int, rest as int) == yield_expr(curr),
            s_operand(tokens@, pos as nat) == Some(s_postfix(tokens@, rest as nat)),
        ensures
            pos < rest <= tokens.len(),
            wf_expr(curr),
            !(curr is Infix),
            lexemes(tokens@, pos as int, rest as int) == yield_expr(curr),
            s_operand(tokens@, pos as nat) == Some(rest as nat),
        decreases tokens.len() - rest,
    {
        if next_is(tokens, rest, TokenKind::LParen) {
            match match_call_args(tokens, rest) {
                Ok((at, params)) => {
                    proof {
                        lemma_wf_exprs(params@);
                        lemma_lexemes_split(tokens@, pos as int, rest as int, at as int);
                    }
                    let ghost before = curr;
                    let ghost args = params@;
                    curr = ExprNode::FuncCall(Box::new(FuncCallExpr { func: curr, params }));
                    assert(yield_expr(curr) == yield_expr(before) + seq![Lexeme::Punct(TokenKind::LParen)]
                        + yield_args(args) + seq![Lexeme::Punct(TokenKind::RParen)]);
                    assert(lexemes(tokens@, pos as int, at as int) =~= yield_expr(curr));
                    rest = at;
                },
                Err(_) => {
                    break;
                },
            }
        } else if next_is(tokens, rest, TokenKind::LSquare) {
            match match_index_suffix(tokens, rest) {
                Ok((at, index)) => {
                    proof {
                        lemma_lexemes_split(tokens@, pos as int, rest as int, at as int);
                    }
                    let ghost before = curr;
                    let ghost idx = index;
                    curr = ExprNode::Index(Box::new(IndexExpr { source: curr, index }));
                    assert(yield_expr(curr) == yield_expr(before) + seq![Lexeme::Punct(TokenKind::LSquare)]
                        + yield_expr(idx) + seq![Lexeme::Punct(TokenKind::RSquare)]);
                    assert(lexemes(tokens@, pos as int, at as int) =~= yield_expr(curr));
                    rest = at;
                },
                Err(_) => {
                    break;
                },
            }
        } else {
            break;
        }
    }
    Ok((rest, curr))
}

/// `( expr, expr, ... )`, possibly empty.
fn match_call_args(tokens: &[Token], pos: usize) -> (r: Result<(usize, Vec<ExprNode>), ParserError>)
    requires
        pos <= tokens.len(),
        token_is(tokens@, pos as int, TokenKind::LParen),
    ensures
        ends_at(s_call_args(tokens@, pos as nat), r),
        r matches Ok((next, items)) ==> {
            &&& pos < next <= tokens.len()
            &&& forall|i: int| 0 <= i < items@.len() ==> #[trigger] wf_expr(items@[i])
            &&& lexemes(tokens@, pos as int, next as int) == seq![Lexeme::Punct(TokenKind::LParen)]
                + yield_args(items@) + seq![Lexeme::Punct(TokenKind::RParen)]
        },
    decreases tokens.len() - pos, 5nat,
{
    let mut items: Vec<ExprNode> = Vec::new();
    let mut rest = pos + 1;
    proof {
        lemma_lexemes_one(tokens@, pos as int);
    }
    match match_expr(tokens, rest) {
        Ok((at, e)) => {
            let ghost first = e;
            let ghost first_end = at as nat;
            items.push(e);
            proof {
                lemma_lexemes_split(tokens@, pos as int, pos + 1, at as int);
                assert(items@ =~= seq![first]);
                assert(lexemes(tokens@, pos as int, at as int) =~= seq![Lexeme::Punct(TokenKind::LParen)] + yield_args(items@));
            }
            rest = at;
            loop
                invariant
                    pos < rest <= tokens.len(),
                    forall|i: int| 0 <= i < items@.len() ==> #[trigger] wf_expr(items@[i]),
                    items@.len() >= 1,
                    lexemes(tokens@, pos as int, rest as int) == seq![Lexeme::Punct(TokenKind::LParen)] + yield_args(items@),
                    s_args_more(tokens@, first_end) == s_args_more(tokens@, rest as nat),
                ensures
                    pos < rest <= tokens.len(),
                    forall|i: int| 0 <= i < items@.len() ==> #[trigger] wf_expr(items@[i]),
                    lexemes(tokens@, pos as int, rest as int) == seq![Lexeme::Punct(TokenKind::LParen)] + yield_args(items@),
                    s_args_more(tokens@, first_end) == rest as nat,
                decreases tokens.len() - rest,
            {
                if !next_is(tokens, rest, TokenKind::Comma) {
                    break;
                }
                match match_expr(tokens, rest + 1) {
                    Ok((at, e)) => {
                        let ghost prev = items@;
                        let ghost item = e;
                        items.push(e);
                        proof {
                            lemma_lexemes_split(tokens@, pos as int, rest as int, at as int);
                            lemma_lexemes_split(tokens@, rest as int, rest + 1, at as int);
                            lemma_lexemes_one(tokens@, rest as int);
                            assert(items@.drop_last() =~= prev);
                            assert(items@.last() == item);
                            assert(lexemes(tokens@, pos as int, at as int) =~= seq![Lexeme::Punct(TokenKind::LParen)] + yield_args(items@));
                        }
                        rest = at;
                    },
                    Err(_) => {
                        break;
                    },
                }
            }
        },
        Err(_) => {
            proof {
                lemma_lexemes_split(tokens@, pos as int, pos + 1, pos + 1);
                lemma_lexemes_empty(tokens@, pos + 1);
                assert(lexemes(tokens@, pos as int, rest as int) =~= seq![Lexeme::Punct(TokenKind::LParen)] + yield_args(items@));
            }
        },
    }
    match expect(tokens, rest, TokenKind::RParen, "RParen") {
        Ok(at) => {
            proof {
                lemma_lexemes_split(tokens@, pos as int, rest as int, at as int);
                lemma_lexemes_one(tokens@, rest as int);
                assert(lexemes(tokens@, pos as int, at as int) =~= seq![Lexeme::Punct(TokenKind::LParen)]
                    + yield_args(items@) + seq![Lexeme::Punct(TokenKind::RParen)]);
            }
            Ok((at, items))
        },
        Err(e) => Err(e),
    }
}

/// `[ expr ]`.
fn match_index_suffix(tokens: &[Token], pos: usize) -> (r: Result<(usize, ExprNode), ParserError>)
    requires
        pos <= tokens.len(),
        token_is(tokens@, pos as int, TokenKind::LSquare),
    ensures
        ends_at(s_index(tokens@, pos as nat), r),
        r matches Ok((next, e)) ==> {
            &&& pos < next <= tokens.len()
            &&& wf_expr(e)
            &&& lexemes(tokens@, pos as int, next as int) == seq![Lexeme::Punct(TokenKind::LSquare)]
                + yield_expr(e) + seq![Lexeme::Punct(TokenKind::RSquare)]
        },
    decreases tokens.len() - pos, 5nat,
{
    let (at1, index) = match match_expr(tokens, pos + 1) {
        Ok(found) => found,
        Err(e) => {
            return Err(e);
        },
    };
    match expect(tokens, at1, TokenKind::RSquare, "RSquare") {
        Ok(at2) => {
            proof {
                lemma_lexemes_split(tokens@, pos as int, pos + 1, at1 as int);
                lemma_lexemes_split(tokens@, pos as int, at1 as int, at2 as int);
                lemma_lexemes_one(tokens@, pos as int);
                lemma_lexemes_one(tokens@, at1 as int);
            }
            Ok((at2, index))
        },
        Err(e) => Err(e),
    }
}

/// An atom, followed by a chain of field names `.a.b` or of tuple indices
/// `.0.1` when there is one.
fn match_unit(tokens: &[Token], pos: usize) -> (r: Result<(usize, ExprNode), ParserError>)
    requires
        pos <= tokens.len(),
    ensures
        ends_at(s_unit(tokens@, pos as nat), r),
        expr_step(tokens@, pos, r),
        r matches Ok((_, e)) ==> !(e is Infix),
    decreases tokens.len() - pos, 4nat,
{
    let (p, atom) = match match_atom(tokens, pos) {
        Ok(found) => found,
        Err(e) => {
            return Err(e.add_context("match_unit"));
        },
    };
    let (end, e) = match_lookup(tokens, p, atom);
    proof {
        lemma_lexemes_split(tokens@, pos as int, p as int, end as int);
    }
    Ok((end, e))
}

/// The text of the identifier token at index `i`, if it is one.
pub open spec fn atom_text_at(tokens: Seq<Token>, i: int) -> Option<Seq<char>> {
    if 0 <= i < tokens.len() {
        match tokens[i].kind {
            TokenKind::Atom(n) => Some(n@),
            _ => None,
        }
    } else {
        None
    }
}

/// The value of the integer literal token at index `i`, if it is one.
pub open spec fn int_value_at(tokens: Seq<Token>, i: int) -> Option<usize> {
    if 0 <= i < tokens.len() {
        match tokens[i].kind {
            TokenKind::IntLiteral(lit) => Some(lit.raw_value),
            _ => None,
        }
    } else {
        None
    }
}

fn name_at(tokens: &[Token], i: usize) -> (r: Option<Name>)
    requires
        i < tokens.len(),
    ensures
        r is Some <==> atom_text_at(tokens@, i as int) is Some,
        r matches Some(n) ==> atom_text_at(tokens@, i as int) == Some(n@),
{
    match &tokens[i].kind {
        TokenKind::Atom(name) => Some(name.clone()),
        _ => None,
    }
}

fn index_at(tokens: &[Token], i: usize) -> (r: Option<usize>)
    requires
        i < tokens.len(),
    ensures
        r == int_value_at(tokens@, i as int),
{
    match &tokens[i].kind {
        TokenKind::IntLiteral(lit) => Some(lit.raw_value),
        _ => None,
    }
}

/// A `.name` suffix starts at index `i`.
pub open spec fn field_step(tokens: Seq<Token>, i: int) -> bool {
    token_is(tokens, i, TokenKind::Dot) && i + 1 < tokens.len() && tokens[i + 1].kind is Atom
}

/// A `.index` suffix starts at index `i`.
pub open spec fn index_step(tokens: Seq<Token>, i: int) -> bool {
    token_is(tokens, i, TokenKind::Dot) && i + 1 < tokens.len() && tokens[i + 1].kind is IntLiteral
}

/// The chain of `.name` suffixes, or else of `.index` suffixes, after
/// `source`; `source` itself when neither follows.
pub fn match_lookup(tokens: &[Token], pos: usize, source: ExprNode) -> (r: (usize, ExprNode))
    requires
        pos <= tokens.len(),
        wf_expr(source),
        !(source is Infix),
    ensures
        r.0 == lookup_end(tokens@, pos as nat),
        pos <= r.0 <= tokens.len(),
        wf_expr(r.1),
        !(r.1 is Infix),
        yield_expr(r.1) == yield_expr(source) + lexemes(tokens@, pos as int, r.0 as int),
        !field_step(tokens@, pos as int) && !index_step(tokens@, pos as int) ==> r == (pos, source),
        field_step(tokens@, pos as int) ==> {
            &&& r.1 matches ExprNode::FieldLookup(b)
            &&& b.source == source
            &&& r.0 == pos + 2 * b.name_chain@.len()
            &&& forall|i: int| 0 <= i < b.name_chain@.len() ==> #[trigger] field_step(tokens@, pos + 2 * i)
            &&& !field_step(tokens@, r.0 as int)
        },
        index_step(tokens@, pos as int) ==> {
            &&& r.1 matches ExprNode::TupleLookup(b)
            &&& b.source == source
            &&& r.0 == pos + 2 * b.index_chain@.len()
            &&& forall|i: int| 0 <= i < b.index_chain@.len() ==> #[trigger] index_step(tokens@, pos + 2 * i)
            &&& !index_step(tokens@, r.0 as int)
        },
{
    proof {
        lemma_lexemes_empty(tokens@, pos as int);
        assert(yield_expr(source) + lexemes(tokens@, pos as int, pos as int) =~= yield_expr(source));
    }
    if !(next_is(tokens, pos, TokenKind::Dot) && tokens.len() - pos > 1) {
        return (pos, source);
    }
    match &tokens[pos + 1].kind {
        TokenKind::Atom(_) => {
            let mut names: Vec<Name> = Vec::new();
            let mut rest = pos;
            loop
                invariant
                    pos <= rest <= tokens.len(),
                    rest == pos + 2 * names@.len(),
                    forall|i: int| 0 <= i < names@.len() ==> #[trigger] field_step(tokens@, pos + 2 * i),
                    lexemes(tokens@, pos as int, rest as int) == yield_names(names@),
                    field_end(tokens@, pos as nat) == field_end(tokens@, rest as nat),
                ensures
                    field_end(tokens@, pos as nat) == rest as nat,
                    rest == pos + 2 * names@.len(),
                    lexemes(tokens@, pos as int, rest as int) == yield_names(names@),
                    !field_step(tokens@, rest as int),
                decreases tokens.len() - rest,
            {
                if !(next_is(tokens, rest, TokenKind::Dot) && tokens.len() - rest > 1) {
                    break;
                }
                let found = name_at(tokens, rest + 1);
                match found {
                    Some(copy) => {
                        let ghost prev = names@;
                        let ghost text = copy@;
                        names.push(copy);
                        proof {
                            lemma_lexemes_split(tokens@, pos as int, rest as int, rest + 2);
                            lemma_lexemes_split(tokens@, rest as int, rest + 1, rest + 2);
                            lemma_lexemes_one(tokens@, rest as int);
                            lemma_lexemes_one(tokens@, rest + 1);
                            assert(names@.drop_last() =~= prev);
                            assert(names@.last()@ == text);
                            assert(lexemes(tokens@, pos as int, rest + 2) =~= yield_names(names@));
                        }
                        rest = rest + 2;
                    },
                    None => {
                        break;
                    },
                }
            }
            let ghost src = source;
            let ghost chain = names@;
            let r = ExprNode::FieldLookup(Box::new(FieldLookupExpr { source, name_chain: names }));
            assert(yield_expr(r) == yield_expr(src) + yield_names(chain));
            (rest, r)
        },
        TokenKind::IntLiteral(_) => {
            let mut indices: Vec<usize> = Vec::new();
            let mut rest = pos;
            loop
                invariant
                    pos <= rest <= tokens.len(),
                    rest == pos + 2 * indices@.len(),
                    forall|i: int| 0 <= i < indices@.len() ==> #[trigger] index_step(tokens@, pos + 2 * i),
                    lexemes(tokens@, pos as int, rest as int) == yield_indices(indices@),
                    index_end(tokens@, pos as nat) == index_end(tokens@, rest as nat),
                ensures
                    index_end(tokens@, pos as nat) == rest as nat,
                    rest == pos + 2 * indices@.len(),
                    lexemes(tokens@, pos as int, rest as int) == yield_indices(indices@),
                    !index_step(tokens@, rest as int),
                decreases tokens.len() - rest,
            {
                if !(next_is(tokens, rest, TokenKind::Dot) && tokens.len() - rest > 1) {
                    break;
                }
                let found = index_at(tokens, rest + 1);
                match found {
                    Some(value) => {
                        let ghost prev = indices@;
                        indices.push(value);
                        proof {
                            lemma_lexemes_split(tokens@, pos as int, rest as int, rest + 2);
                            lemma_lexemes_split(tokens@, rest as int, rest + 1, rest + 2);
                            lemma_lexemes_one(tokens@, rest as int);
                            lemma_lexemes_one(tokens@, rest + 1);
                            assert(indices@.drop_last() =~= prev);
                            assert(lexemes(tokens@, pos as int, rest + 2) =~= yield_indices(indices@));
                        }
                        rest = rest + 2;
                    },
                    None => {
                        break;
                    },
                }
            }
            let ghost src = source;
            let ghost chain = indices@;
            let r = ExprNode::TupleLookup(Box::new(TupleLookupExpr { source, index_chain: indices }));
            assert(yield_expr(r) == yield_expr(src) + yield_indices(chain));
            (rest, r)
        },
        _ => (pos, source),
    }
}

/// What the atom parser gives for a first token of kind `k` at `pos`: a
/// variable or literal of one token, a parenthesized group, or a failure.
pub open spec fn atom_result(k: TokenKind, pos: usize, r: Result<(usize, ExprNode), ParserError>) -> bool {
    match k {
        TokenKind::Atom(n) => r matches Ok((next, ExprNode::Variable(v))) && next == pos + 1 && v@ == n@,
        TokenKind::BoolLiteral(b) => r matches Ok((next, ExprNode::BoolLiteral(x))) && next == pos + 1 && x == b,
        TokenKind::IntLiteral(lit) => r matches Ok((next, ExprNode::IntLiteral(x))) && next == pos + 1
            && x.base == lit.base && x.digits@ == lit.digits@ && x.raw_value == lit.raw_value,
        TokenKind::FloatLiteral(lit) => r matches Ok((next, ExprNode::FloatLiteral(x))) && next == pos + 1
            && x.integral_digits@ == lit.integral_digits@ && x.fractional_digits@ == lit.fractional_digits@
            && x.power@ == lit.power@,
        TokenKind::StringLiteral(s) => r matches Ok((next, ExprNode::StringLiteral(x))) && next == pos + 1 && x@ == s@,
        TokenKind::LParen => r matches Ok((_, e)) ==> e is ExplicitParenthesis,
        _ => r is Err,
    }
}

/// A variable, a literal, or a parenthesized group.
fn match_atom(tokens: &[Token], pos: usize) -> (r: Result<(usize, ExprNode), ParserError>)
    requires
        pos <= tokens.len(),
    ensures
        ends_at(s_atom(tokens@, pos as nat), r),
        expr_step(tokens@, pos, r),
        r matches Ok((_, e)) ==> !(e is Infix),
        pos < tokens.len() ==> atom_result(tokens@[pos as int].kind, pos, r),
        pos >= tokens.len() ==> r is Err,
    decreases tokens.len() - pos, 3nat,
{
    if pos >= tokens.len() {
        return Err(err_unexpected_eof("atom").add_context("match_atom"));
    }
    proof {
        lemma_lexemes_one(tokens@, pos as int);
    }
    match &tokens[pos].kind {
        TokenKind::Atom(name) => Ok((pos + 1, ExprNode::Variable(name.clone()))),
        TokenKind::BoolLiteral(b) => Ok((pos + 1, ExprNode::BoolLiteral(*b))),
        TokenKind::IntLiteral(lit) => {
            let copy = IntLiteral { base: lit.base, digits: lit.digits.clone(), raw_value: lit.raw_value };
            Ok((pos + 1, ExprNode::IntLiteral(Box::new(copy))))
        },
        TokenKind::FloatLiteral(lit) => {
            let copy = FloatLiteral {
                integral_digits: lit.integral_digits.clone(),
                fractional_digits: lit.fractional_digits.clone(),
                power: lit.power.clone(),
            };
            Ok((pos + 1, ExprNode::FloatLiteral(Box::new(copy))))
        },
        TokenKind::StringLiteral(s) => Ok((pos + 1, ExprNode::StringLiteral(Box::new(s.clone())))),
        TokenKind::LParen => match_group(tokens, pos),
        _ => Err(err_bad_match("variable, literal or group", &tokens[pos]).add_context("match_atom")),
    }
}

/// An identifier token, giving its name.
pub fn match_name(tokens: &[Token], pos: usize) -> (r: Result<(usize, Name), ParserError>)
    ensures
        r matches Ok((next, name)) ==> {
            &&& next == pos + 1
            &&& pos < tokens.len()
            &&& tokens@[pos as int].kind matches TokenKind::Atom(n)
            &&& name@ == n@
        },
        r is Err <==> !(pos < tokens.len() && tokens@[pos as int].kind is Atom),
{
    if pos >= tokens.len() {
        return Err(err_unexpected_eof("name"));
    }
    match &tokens[pos].kind {
        TokenKind::Atom(name) => Ok((pos + 1, crate::text_util::string_of(name.as_str()))),
        _ => Err(err_bad_match("variable", &tokens[pos])),
    }
}

} // verus!

verus! {

/// A well-formed tree that reads back as `x to y`, for names `x` and `y`,
/// is the range node from `x` to `y`: `to` never forms an infix node.
pub proof fn lemma_to_reads_as_range(e: ExprNode, x: Seq<char>, y: Seq<char>)
    requires
        wf_expr(e),
        yield_expr(e) == seq![Lexeme::Name(x), Lexeme::Punct(TokenKind::To), Lexeme::Name(y)],
    ensures
        e is Range,
{
    let w = seq![Lexeme::Name(x), Lexeme::Punct(TokenKind::To), Lexeme::Name(y)];
    match e {
        ExprNode::Infix(b) => {
            let exprs = b.exprs@;
            let ops = b.ops@;
            assert(exprs.len() >= 2);
            assert(yield_expr(e) == yield_chain(exprs, ops));
            let a = yield_chain(exprs.drop_last(), ops.drop_last());
            assert(yield_chain(exprs, ops) == a + seq![Lexeme::Punct(infix_token(ops.last()))] + yield_expr(exprs.last()));
            assert(w == a + seq![Lexeme::Punct(infix_token(ops.last()))] + yield_expr(exprs.last()));
            assert(ops.last() != InfixOp::To) by {
                assert(ops[ops.len() - 1] != InfixOp::To);
            }
            assert(w[a.len() as int] == Lexeme::Punct(infix_token(ops.last())));
        },
        ExprNode::FuncCall(b) => {
            assert(w[w.len() - 1] == Lexeme::Punct(TokenKind::RParen));
        },
        ExprNode::ExplicitParenthesis(inner) => {
            assert(w[0] == Lexeme::Punct(TokenKind::LParen));
        },
        ExprNode::Prefix(b) => {
            assert(w[0] == Lexeme::Punct(prefix_token(b.op)));
        },
        ExprNode::Index(b) => {
            assert(w[w.len() - 1] == Lexeme::Punct(TokenKind::RSquare));
        },
        ExprNode::FieldLookup(b) => {
            let names = b.name_chain@;
            assert(names.len() >= 1);
            assert(yield_names(names) == yield_names(names.drop_last())
                + seq![Lexeme::Punct(TokenKind::Dot), Lexeme::Name(names.last()@)]);
            assert(w[w.len() - 2] == Lexeme::Punct(TokenKind::Dot));
        },
        ExprNode::TupleLookup(b) => {
            let idx = b.index_chain@;
            assert(idx.len() >= 1);
            assert(yield_indices(idx) == yield_indices(idx.drop_last())
                + seq![Lexeme::Punct(TokenKind::Dot), Lexeme::Int(idx.last())]);
            assert(w[w.len() - 1] == Lexeme::Int(idx.last()));
        },
        ExprNode::Array(b) => {
            assert(w[0] == Lexeme::Punct(TokenKind::LSquare));
        },
        ExprNode::Tuple(b) => {
            assert(w[0] == Lexeme::Punct(TokenKind::LParen));
        },
        ExprNode::Range(_) => {},
        _ => {
            assert(w.len() == 3);
        },
    }
}

} // verus!
