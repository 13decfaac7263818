//! The lowered intermediate representation.

use vstd::prelude::*;
use crate::layout::{Layout, Shape, shapes};
use crate::symbol::Symbol;

verus! {

/// A node of the lowered tree. Every part that takes part in a typed
/// operation carries its own layout.
#[allow(inconsistent_fields)]
#[derive(Debug, PartialEq, Eq)]
pub enum Expr {
    Int(i64),
    /// A floating-point literal, by the bits of its 64-bit encoding.
    Float(u64),
    Str(String),
    Bool(bool),
    Byte(u8),
    /// Reads a local that was bound before.
    Load(Symbol),
    /// Binds each symbol to its value, in order, then evaluates the body.
    Store(Vec<(Symbol, Layout, Expr)>, Box<Expr>),
    FunctionPointer(Symbol),
    /// A call of the procedure being lowered, from its own tail position.
    Jump(Symbol, Vec<(Expr, Layout)>),
    CallByName(Symbol, Vec<(Expr, Layout)>),
    CallByPointer(Box<Expr>, Vec<Expr>, Layout),
    Cond { cond: Box<Expr>, cond_layout: Layout, pass: Box<Expr>, fail: Box<Expr>, ret_layout: Layout },
    /// Guarded arms, tried in order: each a condition and a value.
    Branches { cond: Box<Expr>, branches: Vec<(Expr, Expr)>, default: Box<Expr>, ret_layout: Layout },
    /// Dispatch on a discriminant: each arm a discriminant and a value.
    Switch {
        cond: Box<Expr>,
        cond_layout: Layout,
        branches: Vec<(u64, Expr)>,
        default_branch: Box<Expr>,
        ret_layout: Layout,
    },
    Tag { tag_layout: Layout, tag_id: u64, union_size: u64, arguments: Vec<(Expr, Layout)> },
    Struct(Vec<(Expr, Layout)>),
    Access { label: u32, field_layout: Layout, struct_layout: Layout, record: Box<Expr> },
    AccessAtIndex { index: u64, field_layouts: Vec<Layout>, expr: Box<Expr>, is_unwrapped: bool },
    Label(Symbol, Box<Expr>),
    Array { elem_layout: Layout, elems: Vec<Expr> },
    /// Signals, if it is ever evaluated, an error that was found earlier.
    RuntimeError(String),
}

/// The mathematical value of a lowered node.
#[allow(inconsistent_fields)]
pub enum ExprView {
    Int(i64),
    Float(u64),
    Str(Seq<char>),
    Bool(bool),
    Byte(u8),
    Load(Symbol),
    Store(Seq<(Symbol, Shape, ExprView)>, Box<ExprView>),
    FunctionPointer(Symbol),
    Jump(Symbol, Seq<(ExprView, Shape)>),
    CallByName(Symbol, Seq<(ExprView, Shape)>),
    CallByPointer(Box<ExprView>, Seq<ExprView>, Shape),
    Cond { cond: Box<ExprView>, cond_layout: Shape, pass: Box<ExprView>, fail: Box<ExprView>, ret_layout: Shape },
    Branches { cond: Box<ExprView>, branches: Seq<(ExprView, ExprView)>, default: Box<ExprView>, ret_layout: Shape },
    Switch {
        cond: Box<ExprView>,
        cond_layout: Shape,
        branches: Seq<(u64, ExprView)>,
        default_branch: Box<ExprView>,
        ret_layout: Shape,
    },
    Tag { tag_layout: Shape, tag_id: u64, union_size: u64, arguments: Seq<(ExprView, Shape)> },
    Struct(Seq<(ExprView, Shape)>),
    Access { label: u32, field_layout: Shape, struct_layout: Shape, record: Box<ExprView> },
    AccessAtIndex { index: u64, field_layouts: Seq<Shape>, expr: Box<ExprView>, is_unwrapped: bool },
    Label(Symbol, Box<ExprView>),
    Array { elem_layout: Shape, elems: Seq<ExprView> },
    RuntimeError(Seq<char>),
}

/// The values of a sequence of nodes.
pub open spec fn views(es: Seq<Expr>) -> Seq<ExprView>
    decreases es,
{
    Seq::new(es.len(), |i: int| if 0 <= i < es.len() { es[i].view() } else { ExprView::Bool(false) })
}

/// The values of a sequence of nodes that carry their layouts.
pub open spec fn typed_views(es: Seq<(Expr, Layout)>) -> Seq<(ExprView, Shape)>
    decreases es,
{
    Seq::new(
        es.len(),
        |i: int|
            if 0 <= i < es.len() {
                (es[i].0.view(), es[i].1.shape())
            } else {
                (ExprView::Bool(false), Shape::Bool)
            },
    )
}

/// The values of a sequence of bindings.
pub open spec fn binding_views(es: Seq<(Symbol, Layout, Expr)>) -> Seq<(Symbol, Shape, ExprView)>
    decreases es,
{
    Seq::new(
        es.len(),
        |i: int|
            if 0 <= i < es.len() {
                (es[i].0, es[i].1.shape(), es[i].2.view())
            } else {
                (Symbol { module_id: 0, ident_id: 0 }, Shape::Bool, ExprView::Bool(false))
            },
    )
}

/// The values of a sequence of guarded arms.
pub open spec fn guarded_views(es: Seq<(Expr, Expr)>) -> Seq<(ExprView, ExprView)>
    decreases es,
{
    Seq::new(
        es.len(),
        |i: int|
            if 0 <= i < es.len() {
                (es[i].0.view(), es[i].1.view())
            } else {
                (ExprView::Bool(false), ExprView::Bool(false))
            },
    )
}

/// The values of a sequence of arms keyed by discriminant.
pub open spec fn keyed_views(es: Seq<(u64, Expr)>) -> Seq<(u64, ExprView)>
    decreases es,
{
    Seq::new(
        es.len(),
        |i: int|
            if 0 <= i < es.len() {
                (es[i].0, es[i].1.view())
            } else {
                (0u64, ExprView::Bool(false))
            },
    )
}

impl Expr {
    /// The mathematical value of this node.
    pub open spec fn view(self) -> ExprView
        decreases self,
    {
        match self {
            Expr::Int(n) => ExprView::Int(n),
            Expr::Float(bits) => ExprView::Float(bits),
            Expr::Str(s) => ExprView::Str(s@),
            Expr::Bool(b) => ExprView::Bool(b),
            Expr::Byte(b) => ExprView::Byte(b),
            Expr::Load(s) => ExprView::Load(s),
            Expr::Store(bindings, body) => ExprView::Store(
                binding_views(bindings@),
                Box::new(body.view()),
            ),
            Expr::FunctionPointer(s) => ExprView::FunctionPointer(s),
            Expr::Jump(s, args) => ExprView::Jump(s, typed_views(args@)),
            Expr::CallByName(s, args) => ExprView::CallByName(s, typed_views(args@)),
            Expr::CallByPointer(f, args, l) => ExprView::CallByPointer(
                Box::new(f.view()),
                views(args@),
                l.shape(),
            ),
            Expr::Cond { cond, cond_layout, pass, fail, ret_layout } => ExprView::Cond {
                cond: Box::new(cond.view()),
                cond_layout: cond_layout.shape(),
                pass: Box::new(pass.view()),
                fail: Box::new(fail.view()),
                ret_layout: ret_layout.shape(),
            },
            Expr::Branches { cond, branches, default, ret_layout } => ExprView::Branches {
                cond: Box::new(cond.view()),
                branches: guarded_views(branches@),
                default: Box::new(default.view()),
                ret_layout: ret_layout.shape(),
            },
            Expr::Switch { cond, cond_layout, branches, default_branch, ret_layout } => ExprView::Switch {
                cond: Box::new(cond.view()),
                cond_layout: cond_layout.shape(),
                branches: keyed_views(branches@),
                default_branch: Box::new(default_branch.view()),
                ret_layout: ret_layout.shape(),
            },
            Expr::Tag { tag_layout, tag_id, union_size, arguments } => ExprView::Tag {
                tag_layout: tag_layout.shape(),
                tag_id,
                union_size,
                arguments: typed_views(arguments@),
            },
            Expr::Struct(fields) => ExprView::Struct(typed_views(fields@)),
            Expr::Access { label, field_layout, struct_layout, record } => ExprView::Access {
                label,
                field_layout: field_layout.shape(),
                struct_layout: struct_layout.shape(),
                record: Box::new(record.view()),
            },
            Expr::AccessAtIndex { index, field_layouts, expr, is_unwrapped } => ExprView::AccessAtIndex {
                index,
                field_layouts: shapes(field_layouts@),
                expr: Box::new(expr.view()),
                is_unwrapped,
            },
            Expr::Label(s, e) => ExprView::Label(s, Box::new(e.view())),
            Expr::Array { elem_layout, elems } => ExprView::Array {
                elem_layout: elem_layout.shape(),
                elems: views(elems@),
            },
            Expr::RuntimeError(msg) => ExprView::RuntimeError(msg@),
        }
    }
}

} // verus!
