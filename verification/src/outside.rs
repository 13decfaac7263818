//! The outside types that the library holds.

use vstd::prelude::*;

verus! {

/// The non-empty list of the `nonempty` crate; nothing of its fields is read here.
#[verifier::external_type_specification]
#[verifier::external_body]
#[verifier::reject_recursive_types(T)]
pub struct ExNonEmpty<T>(nonempty::NonEmpty<T>);

} // verus!
