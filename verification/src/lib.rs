//! Lowering of a type-solved canonical expression tree into a monomorphic
//! intermediate representation: concrete memory layouts, a table of
//! specialized procedures, and in-place variants of builtin calls chosen
//! from uniqueness facts.

pub mod symbol;
pub mod subs;
pub mod layout;
pub mod expr;
pub mod procs;
pub mod can;
pub mod builtin;
pub mod usage;
pub mod lower;
pub mod specialize;
pub mod outside;
pub mod ed_model;
pub mod laws;
