//! The engine's view of a parsed source file.
//!
//! The parser collaborator is out of scope: a caller parses a file with
//! whatever front end it likes and hands the engine this plain-data tree.
//! Every node that can receive a type-cache entry carries a `NodeId`: a
//! stable identifier assigned at parse time, unique within its file, standing
//! for the node's structural position in the originating tree.
//!
//! Syntax kinds the engine has no resolution rule for are kept as explicit
//! `Unsupported` forms: encountering one is a fatal condition for the whole
//! analysis run.

use vstd::prelude::*;

verus! {

/// The identity of a syntax node within its file.
pub type NodeId = u64;

/// A primitive keyword form of the type-annotation grammar.
#[derive(Debug, Clone, Copy, PartialEq, Eq, Structural)]
pub enum TsKeywordForm {
    AnyType,
    NumberType,
    BooleanType,
    UnknownType,
    VoidType,
    UndefinedType,
    NullLiteralType,
    NeverType,
    BigintType,
    StringType,
    SymbolType,
    NonPrimitiveType,
}

/// A type-annotation expression.
///
/// `Literal` carries the exact source text of a literal type (numeric,
/// string, boolean or bigint). `Unsupported` stands for the composite forms
/// (function, object, template-literal, union types) and any other kind the
/// engine has no rule for.
#[derive(Debug, Clone, PartialEq, Eq)]
pub enum TsTypeExpr {
    Keyword(TsKeywordForm),
    Literal { raw_text: String },
    Named { name: String },
    Unsupported,
}

/// An expression in statement or initializer position.
///
/// `Literal` carries the exact source text of a literal expression (numeric,
/// string, boolean, null or bigint); everything beyond literals and
/// identifier references is `Unsupported`.
#[derive(Debug, Clone, PartialEq, Eq)]
pub enum ExprKind {
    Literal { raw_text: String },
    Identifier { name: String },
    Unsupported,
}

/// An expression node: its identity and its kind.
#[derive(Debug, Clone, PartialEq, Eq)]
pub struct Expr {
    pub node: NodeId,
    pub kind: ExprKind,
}

/// One binding of a variable declaration statement; `node` is the binding
/// identifier node.
#[derive(Debug, Clone, PartialEq, Eq)]
pub struct VariableBinding {
    pub node: NodeId,
    pub annotation: Option<TsTypeExpr>,
    pub initializer: Option<Expr>,
}

/// A member of an interface declaration: a property signature with an
/// optional type annotation, or a member kind the engine has no rule for.
#[derive(Debug, Clone, PartialEq, Eq)]
pub enum InterfaceMember {
    Property { name: String, annotation: Option<TsTypeExpr> },
    Unsupported,
}

/// A parameter of a function declaration: a formal parameter with an
/// optional type annotation, or a parameter kind the engine has no rule for.
#[derive(Debug, Clone, PartialEq, Eq)]
pub enum ParamDecl {
    Formal { name: String, annotation: Option<TsTypeExpr> },
    Unsupported,
}

/// A top-level item of a module, in source order.
///
/// For declarations, `node` is the declaration's identifier node: the node
/// the type cache entry is keyed by.
#[derive(Debug, Clone, PartialEq, Eq)]
pub enum Statement {
    Variable { bindings: Vec<VariableBinding> },
    ExpressionStmt { expr: Expr },
    Interface { node: NodeId, name: String, members: Vec<InterfaceMember> },
    TypeAlias { node: NodeId, name: String, ty: TsTypeExpr },
    Function { node: NodeId, name: String, params: Vec<ParamDecl>, return_type: Option<TsTypeExpr> },
    Unsupported,
}

/// A parsed source file: its top-level statements in source order.
#[derive(Debug, Clone, PartialEq, Eq)]
pub struct Module {
    pub statements: Vec<Statement>,
}

} // verus!
