use vstd::prelude::*;

verus! {

/// Marker for the types that this crate alone may implement its marker traits for.
pub trait Sealed {}

} // verus!
