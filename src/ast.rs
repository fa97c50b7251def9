use vstd::prelude::*;
use crate::tokens::{Span, IntLiteral, FloatLiteral};

verus! {

/// The name of something that may be looked up in a scope.
pub type Name = String;

/// An expression. Each node owns its children.
#[derive(PartialEq, Eq, Debug, Hash)]
pub enum ExprNode {
    FuncCall(Box<FuncCallExpr>),
    ExplicitParenthesis(Box<ExprNode>),
    Infix(Box<InfixExpr>),
    Prefix(Box<PrefixExpr>),
    Index(Box<IndexExpr>),
    Range(Box<RangeExpr>),
    FieldLookup(Box<FieldLookupExpr>),
    TupleLookup(Box<TupleLookupExpr>),
    Variable(Name),
    Array(Box<ArrayExpr>),
    Tuple(Box<TupleExpr>),
    StringLiteral(Box<String>),
    IntLiteral(Box<IntLiteral>),
    FloatLiteral(Box<FloatLiteral>),
    BoolLiteral(bool),
    Error(Box<ErrorExpr>),
}

/// A chain of operators of one precedence tier, applied left to right:
/// `exprs` has one more item than `ops`.
#[derive(PartialEq, Eq, Debug, Hash)]
pub struct InfixExpr {
    pub exprs: Vec<ExprNode>,
    pub ops: Vec<InfixOp>,
}

#[derive(Clone, Copy, PartialEq, Eq, Debug, Hash)]
pub enum InfixOp {
    LogicalOr,
    LogicalAnd,
    Equals,
    NotEquals,
    LessThanEquals,
    GreaterThanEquals,
    LessThan,
    GreaterThan,
    To,
    InstanceOf,
    BitwiseOr,
    BitwiseXor,
    BitwiseAnd,
    BitwiseShiftLeft,
    BitwiseShiftRight,
    Addition,
    Subtraction,
    Multiplication,
    Division,
    Modulus,
}

/// How strongly an infix operator binds to its left and right operands.
/// The gap at (5, 6) belongs to logical negation, and (25, 26) to the
/// numeric and bitwise negations.
pub open spec fn infix_power(op: InfixOp) -> (u8, u8) {
    match op {
        InfixOp::LogicalOr => (1, 2),
        InfixOp::LogicalAnd => (3, 4),
        InfixOp::Equals | InfixOp::NotEquals | InfixOp::LessThanEquals
        | InfixOp::GreaterThanEquals | InfixOp::LessThan | InfixOp::GreaterThan => (7, 8),
        InfixOp::To => (9, 10),
        InfixOp::InstanceOf => (11, 12),
        InfixOp::BitwiseOr => (13, 14),
        InfixOp::BitwiseXor => (15, 16),
        InfixOp::BitwiseAnd => (17, 18),
        InfixOp::BitwiseShiftLeft | InfixOp::BitwiseShiftRight => (19, 20),
        InfixOp::Addition | InfixOp::Subtraction => (21, 22),
        InfixOp::Multiplication | InfixOp::Division | InfixOp::Modulus => (23, 24),
    }
}

pub open spec fn infix_symbol(op: InfixOp) -> Seq<char> {
    match op {
        InfixOp::LogicalOr => "or"@,
        InfixOp::LogicalAnd => "and"@,
        InfixOp::Equals => "=="@,
        InfixOp::NotEquals => "!="@,
        InfixOp::LessThanEquals => "<="@,
        InfixOp::GreaterThanEquals => ">="@,
        InfixOp::LessThan => "<"@,
        InfixOp::GreaterThan => ">"@,
        InfixOp::To => "to"@,
        InfixOp::InstanceOf => "instanceof"@,
        InfixOp::BitwiseOr => "|"@,
        InfixOp::BitwiseXor => "^"@,
        InfixOp::BitwiseAnd => "&"@,
        InfixOp::BitwiseShiftLeft => "<<"@,
        InfixOp::BitwiseShiftRight => ">>"@,
        InfixOp::Addition => "+"@,
        InfixOp::Subtraction => "-"@,
        InfixOp::Multiplication => "*"@,
        InfixOp::Division => "/"@,
        InfixOp::Modulus => "%"@,
    }
}

impl InfixOp {
    pub fn binding_power(&self) -> (r: (u8, u8))
        ensures
            r == infix_power(*self),
    {
        match self {
            InfixOp::LogicalOr => (1, 2),
            InfixOp::LogicalAnd => (3, 4),
            InfixOp::Equals | InfixOp::NotEquals | InfixOp::LessThanEquals
            | InfixOp::GreaterThanEquals | InfixOp::LessThan | InfixOp::GreaterThan => (7, 8),
            InfixOp::To => (9, 10),
            InfixOp::InstanceOf => (11, 12),
            InfixOp::BitwiseOr => (13, 14),
            InfixOp::BitwiseXor => (15, 16),
            InfixOp::BitwiseAnd => (17, 18),
            InfixOp::BitwiseShiftLeft | InfixOp::BitwiseShiftRight => (19, 20),
            InfixOp::Addition | InfixOp::Subtraction => (21, 22),
            InfixOp::Multiplication | InfixOp::Division | InfixOp::Modulus => (23, 24),
        }
    }

    pub fn to_symbol(&self) -> (r: String)
        ensures
            r@ == infix_symbol(*self),
    {
        let s = match self {
            InfixOp::LogicalOr => "or",
            InfixOp::LogicalAnd => "and",
            InfixOp::Equals => "==",
            InfixOp::NotEquals => "!=",
            InfixOp::LessThanEquals => "<=",
            InfixOp::GreaterThanEquals => ">=",
            InfixOp::LessThan => "<",
            InfixOp::GreaterThan => ">",
            InfixOp::To => "to",
            InfixOp::InstanceOf => "instanceof",
            InfixOp::BitwiseOr => "|",
            InfixOp::BitwiseXor => "^",
            InfixOp::BitwiseAnd => "&",
            InfixOp::BitwiseShiftLeft => "<<",
            InfixOp::BitwiseShiftRight => ">>",
            InfixOp::Addition => "+",
            InfixOp::Subtraction => "-",
            InfixOp::Multiplication => "*",
            InfixOp::Division => "/",
            InfixOp::Modulus => "%",
        };
        crate::text_util::string_of(s)
    }
}

#[derive(PartialEq, Eq, Debug, Hash)]
pub struct PrefixExpr {
    pub expr: ExprNode,
    pub op: PrefixOp,
}

#[derive(Clone, Copy, PartialEq, Eq, Debug, Hash)]
pub enum PrefixOp {
    LogicalNegate,
    NumericalNegate,
    BitwiseNegate,
}

/// How strongly a prefix operator binds to its operand on the right.
pub open spec fn prefix_power(op: PrefixOp) -> u8 {
    match op {
        PrefixOp::LogicalNegate => 6,
        PrefixOp::NumericalNegate | PrefixOp::BitwiseNegate => 26,
    }
}

pub open spec fn prefix_symbol(op: PrefixOp) -> Seq<char> {
    match op {
        PrefixOp::LogicalNegate => "!"@,
        PrefixOp::NumericalNegate => "-"@,
        PrefixOp::BitwiseNegate => "~"@,
    }
}

impl PrefixOp {
    /// Prefix operators bind only to the right, so the left power is `()`.
    pub fn binding_power(&self) -> (r: ((), u8))
        ensures
            r.1 == prefix_power(*self),
    {
        match self {
            PrefixOp::LogicalNegate => ((), 6),
            PrefixOp::NumericalNegate | PrefixOp::BitwiseNegate => ((), 26),
        }
    }

    pub fn to_symbol(&self) -> (r: String)
        ensures
            r@ == prefix_symbol(*self),
    {
        let s = match self {
            PrefixOp::LogicalNegate => "!",
            PrefixOp::NumericalNegate => "-",
            PrefixOp::BitwiseNegate => "~",
        };
        crate::text_util::string_of(s)
    }
}

#[derive(PartialEq, Eq, Debug, Hash)]
pub struct FuncCallExpr {
    pub func: ExprNode,
    pub params: Vec<ExprNode>,
}

#[derive(PartialEq, Eq, Debug, Hash)]
pub struct IndexExpr {
    pub source: ExprNode,
    pub index: ExprNode,
}

#[derive(PartialEq, Eq, Debug, Hash)]
pub struct FieldLookupExpr {
    pub source: ExprNode,
    pub name_chain: Vec<Name>,
}

#[derive(PartialEq, Eq, Debug, Hash)]
pub struct TupleLookupExpr {
    pub source: ExprNode,
    pub index_chain: Vec<usize>,
}

#[derive(PartialEq, Eq, Debug, Hash)]
pub struct RangeExpr {
    pub start: ExprNode,
    pub end: ExprNode,
}

#[derive(PartialEq, Eq, Debug, Hash)]
pub struct ArrayExpr {
    pub items: Vec<ExprNode>,
}

#[derive(PartialEq, Eq, Debug, Hash)]
pub struct TupleExpr {
    pub items: Vec<ExprNode>,
}

#[derive(Clone, PartialEq, Eq, Debug, Hash)]
pub struct ErrorExpr {
    pub message: String,
    pub span: Span,
}

/// An operand `child` of an infix node whose operators bind with left power
/// `t` is not itself an infix node, unless its operators bind tighter.
pub open spec fn binds_tighter(child: ExprNode, t: u8) -> bool {
    child matches ExprNode::Infix(c) ==> c.ops@.len() >= 1 && infix_power(c.ops@[0]).0 > t
}

/// Every infix operator binds as (odd, odd + 1), and only `to` binds as
/// `to` does.
pub proof fn lemma_power_shape(op: InfixOp)
    ensures
        infix_power(op).1 == infix_power(op).0 + 1,
        infix_power(op).0 % 2 == 1,
        infix_power(op) == infix_power(InfixOp::To) ==> op == InfixOp::To,
{
}

/// The structural invariant of an expression tree: every infix node has one
/// more operand than operators, at least one operator, and all its
/// operators in one precedence tier other than the range operator `to`
/// (a range is a node of its own); its operands that are infix nodes bind
/// tighter, so a chain of operators of one tier is always a single node;
/// lookup chains are not empty.
pub open spec fn wf_expr(e: ExprNode) -> bool
    decreases e,
{
    match e {
        ExprNode::FuncCall(b) => wf_expr(b.func) && wf_exprs(b.params@),
        ExprNode::ExplicitParenthesis(inner) => wf_expr(*inner),
        ExprNode::Infix(b) => {
            &&& b.ops@.len() >= 1
            &&& b.exprs@.len() == b.ops@.len() + 1
            &&& forall|i: int| 0 <= i < b.ops@.len() ==> #[trigger] infix_power(b.ops@[i]) == infix_power(b.ops@[0])
            &&& forall|i: int| 0 <= i < b.ops@.len() ==> #[trigger] b.ops@[i] != InfixOp::To
            &&& forall|i: int| 0 <= i < b.exprs@.len() ==> binds_tighter(#[trigger] b.exprs@[i], infix_power(b.ops@[0]).0)
            &&& wf_exprs(b.exprs@)
        },
        ExprNode::Prefix(b) => wf_expr(b.expr),
        ExprNode::Index(b) => wf_expr(b.source) && wf_expr(b.index),
        ExprNode::Range(b) => wf_expr(b.start) && wf_expr(b.end),
        ExprNode::FieldLookup(b) => wf_expr(b.source) && b.name_chain@.len() >= 1,
        ExprNode::TupleLookup(b) => wf_expr(b.source) && b.index_chain@.len() >= 1,
        ExprNode::Array(b) => wf_exprs(b.items@),
        ExprNode::Tuple(b) => wf_exprs(b.items@),
        _ => true,
    }
}

/// In a well-formed tree, no operand of an infix node is an infix node of
/// the same precedence tier: a chain such as `a + b - c` is one node with
/// all its operands and operators, never a nesting of two.
pub proof fn lemma_one_node_per_tier_chain(e: ExprNode)
    requires
        wf_expr(e),
        e is Infix,
    ensures
        forall|i: int| 0 <= i < (e->Infix_0).exprs@.len() ==>
            ((#[trigger] (e->Infix_0).exprs@[i]) matches ExprNode::Infix(c)
                ==> infix_power(c.ops@[0]) != infix_power((e->Infix_0).ops@[0])),
{
}

/// Every expression of `s` is well formed.
pub open spec fn wf_exprs(s: Seq<ExprNode>) -> bool
    decreases s,
{
    if s.len() == 0 {
        true
    } else {
        wf_exprs(s.drop_last()) && wf_expr(s.last())
    }
}

pub proof fn lemma_wf_exprs(s: Seq<ExprNode>)
    ensures
        wf_exprs(s) <==> forall|i: int| 0 <= i < s.len() ==> #[trigger] wf_expr(s[i]),
    decreases s.len(),
{
    if s.len() > 0 {
        lemma_wf_exprs(s.drop_last());
        if wf_exprs(s) {
            assert forall|i: int| 0 <= i < s.len() implies #[trigger] wf_expr(s[i]) by {
                if i < s.len() - 1 {
                    assert(s.drop_last()[i] == s[i]);
                }
            }
        }
        assert(s.last() == s[s.len() - 1]);
        if forall|i: int| 0 <= i < s.len() ==> #[trigger] wf_expr(s[i]) {
            assert forall|i: int| 0 <= i < s.drop_last().len() implies #[trigger] wf_expr(s.drop_last()[i]) by {
                assert(s.drop_last()[i] == s[i]);
            }
            assert(wf_expr(s[s.len() - 1]));
            assert(wf_exprs(s));
        }
    }
}

/// A possibly qualified name: the enclosing names, then the name itself.
#[derive(Clone, PartialEq, Eq, Debug, Hash)]
pub struct Identifier {
    pub parent: Vec<Name>,
    pub name: Name,
}

/// The parts of a qualified name put back together with dots between them.
pub open spec fn joined(parts: Seq<Seq<char>>) -> Seq<char>
    decreases parts.len(),
{
    if parts.len() == 0 {
        Seq::empty()
    } else if parts.len() == 1 {
        parts[0]
    } else {
        joined(parts.drop_last()) + seq!['.'] + parts.last()
    }
}

pub open spec fn dot_free(s: Seq<char>) -> bool {
    forall|i: int| 0 <= i < s.len() ==> s[i] != '.'
}

impl Identifier {
    /// All the parts of the name, outermost first.
    pub open spec fn parts(&self) -> Seq<Seq<char>> {
        self.parent@.map_values(|n: Name| n@).push(self.name@)
    }

    /// Splits `s` at every dot: the last part is the name, the others are
    /// its enclosing names.
    pub fn new_from_string(s: &str) -> (r: Identifier)
        ensures
            joined(r.parts()) == s@,
            forall|i: int| 0 <= i < r.parts().len() ==> dot_free(#[trigger] r.parts()[i]),
    {
        let n = s.unicode_len();
        let mut parent: Vec<Name> = Vec::new();
        let mut cur = String::new();
        let mut i: usize = 0;
        while i < n
            invariant
                n == s@.len(),
                i <= n,
                joined(parent@.map_values(|x: Name| x@).push(cur@)) == s@.subrange(0, i as int),
                forall|j: int| 0 <= j < parent@.len() ==> dot_free(#[trigger] parent@[j]@),
                dot_free(cur@),
            decreases n - i,
        {
            let c = s.get_char(i);
            let ghost views = parent@.map_values(|x: Name| x@);
            if c == '.' {
                let ghost old_cur = cur@;
                parent.push(cur);
                cur = String::new();
                proof {
                    let nv = parent@.map_values(|x: Name| x@);
                    assert(nv =~= views.push(old_cur));
                    let all = nv.push(cur@);
                    assert(all.drop_last() =~= nv);
                    assert(cur@ =~= Seq::<char>::empty());
                    assert(joined(all) =~= joined(nv) + seq!['.']);
                    assert(s@.subrange(0, i as int + 1) =~= s@.subrange(0, i as int).push('.'));
                }
            } else {
                let ghost old_cur = cur@;
                crate::text_util::push_char(&mut cur, c);
                proof {
                    let before = views.push(old_cur);
                    let after = views.push(cur@);
                    assert(before.drop_last() =~= views);
                    assert(after.drop_last() =~= views);
                    assert(joined(after) =~= joined(before).push(c));
                    assert(s@.subrange(0, i as int + 1) =~= s@.subrange(0, i as int).push(c));
                }
            }
            i = i + 1;
        }
        assert(s@.subrange(0, n as int) =~= s@);
        let r = Identifier { parent, name: cur };
        proof {
            assert(r.parts() =~= parent@.map_values(|x: Name| x@).push(cur@));
        }
        r
    }
}

impl Identifier {
    /// The name written out with dots between its parts.
    pub fn to_string(&self) -> (r: String)
        ensures
            r@ == joined(self.parts()),
    {
        let mut out = String::new();
        let mut i: usize = 0;
        let ghost views = self.parent@.map_values(|x: Name| x@);
        while i < self.parent.len()
            invariant
                i <= self.parent@.len(),
                views == self.parent@.map_values(|x: Name| x@),
                out@ == joined(views.subrange(0, i as int)),
            decreases self.parent@.len() - i,
        {
            let ghost before = out@;
            if i > 0 {
                crate::text_util::push_char(&mut out, '.');
            }
            crate::text_util::push_str(&mut out, self.parent[i].as_str());
            proof {
                let next = views.subrange(0, i as int + 1);
                assert(next.drop_last() =~= views.subrange(0, i as int));
                assert(out@ =~= joined(next));
            }
            i = i + 1;
        }
        let ghost before = out@;
        if self.parent.len() > 0 {
            crate::text_util::push_char(&mut out, '.');
        }
        crate::text_util::push_str(&mut out, self.name.as_str());
        proof {
            assert(views.subrange(0, views.len() as int) =~= views);
            let all = self.parts();
            assert(all.drop_last() =~= views);
            assert(out@ =~= joined(all));
        }
        out
    }
}

/// A type annotation.
#[derive(PartialEq, Eq, Debug, Hash)]
pub enum TypeNode {
    Reference(Box<ReferenceType>),
    Func(Box<FuncType>),
    Union(Box<UnionType>),
    Tuple(Box<TupleType>),
    Unit,
    Empty,
    Error(Box<ErrorType>),
}

/// A named type, with its type parameters.
#[derive(PartialEq, Eq, Debug, Hash)]
pub struct ReferenceType {
    pub identifier: Identifier,
    pub type_params: Vec<TypeNode>,
}

/// A function type: type variables, parameter types and the return type.
#[derive(PartialEq, Eq, Debug, Hash)]
pub struct FuncType {
    pub typevars: Vec<Name>,
    pub param_types: Vec<TypeNode>,
    pub return_type: TypeNode,
}

/// A value of any one of two or more types.
#[derive(PartialEq, Eq, Debug, Hash)]
pub struct UnionType {
    pub variants: Vec<TypeNode>,
}

#[derive(PartialEq, Eq, Debug, Hash)]
pub struct TupleType {
    pub items: Vec<TypeNode>,
}

#[derive(Clone, PartialEq, Eq, Debug, Hash)]
pub struct ErrorType {
    pub message: String,
    pub span: Span,
}

} // verus!
