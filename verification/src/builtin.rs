//! The builtin operations: which variant a call resolves to, from the
//! layouts of its arguments and from the uniqueness of the value it updates.

use vstd::prelude::*;
use crate::expr::{Expr, ExprView, typed_views};
use crate::layout::{Layout, LayoutError, Shape};
use crate::usage::Uniqueness;
use crate::symbol::{Symbol, list_symbol, LIST_LEN, LIST_GET_UNSAFE, LIST_SET, LIST_SET_IN_PLACE};

verus! {

/// Why lowering stopped.
#[derive(Clone, Copy, Debug, PartialEq, Eq, Structural)]
pub enum LowerError {
    /// A type that the tree reaches has no layout.
    Layout(LayoutError),
    /// A call names a builtin operation, but no variant of it takes
    /// arguments of this number and these layouts.
    UnknownBuiltin(Symbol),
    /// A definition is specialized for a number of arguments other than the
    /// number of its parameters.
    Arity(Symbol),
}

/// Whether a value of this shape is a list.
pub open spec fn is_list(s: Shape) -> bool {
    s is List || s is EmptyList
}

/// Whether the arguments fit the element update: a list, an index, and a
/// value of the list's element layout.
pub open spec fn fits_set(args: Seq<(ExprView, Shape)>) -> bool {
    &&& args.len() == 3
    &&& args[0].1 == Shape::List(Box::new(args[2].1))
    &&& args[1].1 == Shape::Int64
}

/// The variant that a call of a builtin resolves to. The in-place update is
/// chosen exactly where the updated list is unique, or was asked for by name.
pub open spec fn resolved(op: Symbol, args: Seq<(ExprView, Shape)>, uniq: Uniqueness) -> Result<
    Symbol,
    LowerError,
> {
    if op == list_symbol(LIST_LEN) && args.len() == 1 && is_list(args[0].1) {
        Ok(op)
    } else if op == list_symbol(LIST_GET_UNSAFE) && args.len() == 2 && is_list(args[0].1)
        && args[1].1 == Shape::Int64 {
        Ok(op)
    } else if op == list_symbol(LIST_SET) && fits_set(args) {
        if uniq == Uniqueness::Unique {
            Ok(list_symbol(LIST_SET_IN_PLACE))
        } else {
            Ok(op)
        }
    } else if op == list_symbol(LIST_SET_IN_PLACE) && fits_set(args) {
        Ok(op)
    } else {
        Err(LowerError::UnknownBuiltin(op))
    }
}

fn layout_is_list(l: &Layout) -> (r: bool)
    ensures
        r == is_list(l.shape()),
{
    match l {
        Layout::List(_) => true,
        Layout::EmptyList => true,
        _ => false,
    }
}

fn args_fit_set(args: &Vec<(Expr, Layout)>) -> (r: bool)
    ensures
        r == fits_set(typed_views(args@)),
{
    if args.len() != 3 {
        return false;
    }
    let index_ok = args[1].1.same(&Layout::Int64);
    match &args[0].1 {
        Layout::List(elem) => {
            let same = elem.same(&args[2].1);
            proof {
                assert(args@[0].1.shape() == Shape::List(Box::new(elem.shape())));
            }
            same && index_ok
        },
        _ => false,
    }
}

/// Resolves a call of a builtin operation to one of its variants.
///
/// `uniq` is the uniqueness fact of the first argument at this call. Fails
/// with `UnknownBuiltin` where no variant takes these arguments.
pub fn resolve_builtin(op: Symbol, args: &Vec<(Expr, Layout)>, uniq: Uniqueness) -> (r: Result<
    Symbol,
    LowerError,
>)
    ensures
        r == resolved(op, typed_views(args@), uniq),
{
    if op == Symbol::list(LIST_LEN) && args.len() == 1 && layout_is_list(&args[0].1) {
        Ok(op)
    } else if op == Symbol::list(LIST_GET_UNSAFE) && args.len() == 2 && layout_is_list(&args[0].1)
        && args[1].1.same(&Layout::Int64) {
        Ok(op)
    } else if op == Symbol::list(LIST_SET) && args_fit_set(args) {
        if uniq == Uniqueness::Unique {
            Ok(Symbol::list(LIST_SET_IN_PLACE))
        } else {
            Ok(op)
        }
    } else if op == Symbol::list(LIST_SET_IN_PLACE) && args_fit_set(args) {
        Ok(op)
    } else {
        Err(LowerError::UnknownBuiltin(op))
    }
}

} // verus!
