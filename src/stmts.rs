use vstd::prelude::*;
use crate::ast::{ExprNode, FuncType, Identifier, Name};

verus! {

/// A run of statements at one indentation depth.
pub type Block = Vec<StmtNode>;

/// A statement. Each node owns its children.
#[derive(PartialEq, Eq, Debug, Hash)]
pub enum StmtNode {
    Program(Box<Program>),
    Import(Box<ImportStmt>),
    InterfaceDef(Box<InterfaceDefStmt>),
    ClassDef(Box<ClassDefStmt>),
    SentinalDef(Box<SentinalDefStmt>),
    FieldSignatureDef(Box<FieldSignatureDefStmt>),
    FuncSignatureDef(Box<FuncSignatureDefStmt>),
    FuncImplementationDef(Box<FuncImplementationDefStmt>),
    If(Box<IfStmt>),
    For(Box<ForStmt>),
    Foreach(Box<ForeachStmt>),
    While(Box<WhileStmt>),
    Return(Box<ReturnStmt>),
    Panic(Box<PanicStmt>),
    Assignment(Box<AssignmentStmt>),
    Line(Box<LineStmt>),
    EmptyLine,
}

/// The root of a parsed file.
#[derive(PartialEq, Eq, Debug, Hash)]
pub struct Program {
    pub body: Block,
}

/// The comment lines written just before a statement, without their `#`.
#[derive(Clone, PartialEq, Eq, Debug, Hash)]
pub struct Comment {
    pub lines: Vec<String>,
}

impl Comment {
    pub fn new(lines: Vec<String>) -> (r: Comment)
        ensures
            r.lines == lines,
    {
        Comment { lines }
    }

    pub fn empty() -> (r: Comment)
        ensures
            r.lines@.len() == 0,
    {
        Comment { lines: Vec::new() }
    }
}

#[derive(PartialEq, Eq, Debug, Hash)]
pub struct ImportStmt {
    pub comment: Comment,
    pub source: Identifier,
    pub imports: Vec<Name>,
}

#[derive(PartialEq, Eq, Debug, Hash)]
pub struct InterfaceDefStmt {
    pub comment: Comment,
    pub identifier: Identifier,
    pub fields: Vec<FieldSignatureDefStmt>,
    pub functions: Vec<FuncSignatureDefStmt>,
}

#[derive(PartialEq, Eq, Debug, Hash)]
pub struct ClassDefStmt {
    pub comment: Comment,
    pub identifier: Identifier,
    pub implements: Option<Identifier>,
    pub fields: Vec<FieldSignatureDefStmt>,
    pub functions: Vec<FuncImplementationDefStmt>,
}

#[derive(PartialEq, Eq, Debug, Hash)]
pub struct SentinalDefStmt {
    pub comment: Comment,
    pub identifier: Identifier,
}

#[derive(PartialEq, Eq, Debug, Hash)]
pub struct FieldSignatureDefStmt {
    pub comment: Comment,
    pub identifier: Identifier,
}

/// A function's name, type and parameter names, without a body.
#[derive(PartialEq, Eq, Debug, Hash)]
pub struct FuncSignatureDefStmt {
    pub comment: Comment,
    pub name: Name,
    pub signature: FuncType,
    pub param_names: Vec<Name>,
}

#[derive(PartialEq, Eq, Debug, Hash)]
pub struct FuncImplementationDefStmt {
    pub function: FuncSignatureDefStmt,
    pub body: Block,
}

/// `if` and `elif` branches in order, each a condition and a block, and
/// the `else` block if there is one.
#[derive(PartialEq, Eq, Debug, Hash)]
pub struct IfStmt {
    pub comment: Comment,
    pub branches: Vec<(ExprNode, Block)>,
    pub fallback_branch: Option<Block>,
}

#[derive(PartialEq, Eq, Debug, Hash)]
pub struct ForStmt {
    pub comment: Comment,
    pub variable: Name,
    pub start: i64,
    pub end: i64,
    pub body: Block,
}

#[derive(PartialEq, Eq, Debug, Hash)]
pub struct ForeachStmt {
    pub comment: Comment,
    pub variables: Vec<Name>,
    pub iterable: ExprNode,
    pub body: Block,
}

#[derive(PartialEq, Eq, Debug, Hash)]
pub struct WhileStmt {
    pub comment: Comment,
    pub cond: ExprNode,
    pub body: Block,
}

#[derive(PartialEq, Eq, Debug, Hash)]
pub struct ReturnStmt {
    pub comment: Comment,
    pub value: Option<ExprNode>,
}

#[derive(PartialEq, Eq, Debug, Hash)]
pub struct PanicStmt {
    pub comment: Comment,
    pub value: Option<ExprNode>,
}

#[derive(PartialEq, Eq, Debug, Hash)]
pub struct AssignmentStmt {
    pub comment: Comment,
    pub target: ExprNode,
    pub value: ExprNode,
}

#[derive(PartialEq, Eq, Debug, Hash)]
pub struct LineStmt {
    pub comment: Comment,
    pub expr: ExprNode,
}

} // verus!
