//! The canonical expression tree that lowering consumes: every binding has
//! its symbol, every typed part names its type variable.

use vstd::prelude::*;
use crate::subs::Variable;
use crate::symbol::Symbol;

verus! {

/// A literal that an arm of a multi-way conditional is matched against.
#[derive(Clone, Copy, Debug, PartialEq, Eq, Structural)]
pub enum Pattern {
    Int(i64),
    Byte(u8),
    Bool(bool),
    /// A tag of a union, by its discriminant.
    Tag(u64),
    /// A floating-point literal, by the bits of its 64-bit encoding.
    Float(u64),
}

/// A node of the canonical tree.
#[allow(inconsistent_fields)]
#[derive(Debug, PartialEq, Eq)]
pub enum CanExpr {
    Int(i64),
    /// A floating-point literal, by the bits of its 64-bit encoding.
    Float(u64),
    Str(String),
    Bool(bool),
    Byte(u8),
    /// A read of a local binding.
    Var(Symbol),
    /// A list literal.
    List { elem_var: Variable, elems: Vec<CanExpr> },
    /// A binding, and the body that sees it.
    Let { symbol: Symbol, var: Variable, value: Box<CanExpr>, body: Box<CanExpr> },
    /// A call of a top-level symbol; each argument with its type variable.
    Call { symbol: Symbol, args: Vec<(Variable, CanExpr)> },
    /// A call of a function value held in a local.
    CallValue { fn_var: Variable, func: Box<CanExpr>, args: Vec<CanExpr> },
    /// A conditional of two arms.
    If { cond_var: Variable, ret_var: Variable, cond: Box<CanExpr>, pass: Box<CanExpr>, fail: Box<CanExpr> },
    /// A multi-way conditional: arms tried in order, then the default.
    When {
        cond_var: Variable,
        ret_var: Variable,
        cond: Box<CanExpr>,
        branches: Vec<(Pattern, CanExpr)>,
        default: Box<CanExpr>,
    },
    /// A record; the fields in ascending order of their labels.
    Record(Vec<(Variable, CanExpr)>),
    /// A read of one field of a record.
    Access { record_var: Variable, field_var: Variable, label: u32, record: Box<CanExpr> },
    /// The construction of a value of a tag union.
    Tag { union_var: Variable, tag_id: u64, args: Vec<(Variable, CanExpr)> },
    /// An error that was found and reported before lowering.
    RuntimeError(String),
}

/// A top-level definition: its symbol, the symbols of its parameters, the
/// type variable of its result, and its body.
#[derive(Debug, PartialEq, Eq)]
pub struct Definition {
    pub symbol: Symbol,
    pub params: Vec<Symbol>,
    pub ret_var: Variable,
    pub body: CanExpr,
}

} // verus!
