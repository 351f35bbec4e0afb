use vstd::prelude::*;

verus! {

/// Keeps the set of propagator states closed to this crate.
pub trait Sealed {

}

} // verus!
