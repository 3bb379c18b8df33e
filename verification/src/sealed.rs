//! A trait that no type outside this crate can implement.

use vstd::prelude::*;

verus! {

/// Implemented only by types of this crate.
pub trait Sealed {}

} // verus!
