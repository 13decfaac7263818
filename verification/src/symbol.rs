//! Globally unique identifiers for bindings, builtins and procedures.

use vstd::prelude::*;

verus! {

/// A binding's identity: the module that owns it and its id inside that module.
#[derive(Clone, Copy, Debug, PartialEq, Eq, Structural, PartialOrd, Ord, Hash)]
pub struct Symbol {
    pub module_id: u32,
    pub ident_id: u32,
}

/// The module id under which the builtin list operations live.
pub const LIST_MODULE: u32 = 1;

/// `List.len`: the number of elements of a list.
pub const LIST_LEN: u32 = 0;

/// `List.getUnsafe`: read an element without a bounds check.
pub const LIST_GET_UNSAFE: u32 = 1;

/// `List.set`: the pure element update, which copies its input.
pub const LIST_SET: u32 = 2;

/// `List.set_in_place`: the destructive element update.
pub const LIST_SET_IN_PLACE: u32 = 3;

/// The symbol of the builtin list operation with the given id.
pub open spec fn list_symbol(ident_id: u32) -> Symbol {
    Symbol { module_id: LIST_MODULE, ident_id }
}

impl Symbol {
    /// The symbol of the builtin list operation with the given id.
    pub fn list(ident_id: u32) -> (s: Symbol)
        ensures
            s == list_symbol(ident_id),
    {
        Symbol { module_id: LIST_MODULE, ident_id }
    }

    /// Whether this symbol names an operation of the builtin list module.
    pub open spec fn is_builtin(self) -> bool {
        self.module_id == LIST_MODULE
    }

    /// Whether this symbol names an operation of the builtin list module.
    pub fn in_builtin_module(&self) -> (r: bool)
        ensures
            r == self.is_builtin(),
    {
        self.module_id == LIST_MODULE
    }
}

} // verus!
