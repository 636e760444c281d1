//! Traits of injectable types: components and the traits they are injected as.

use vstd::prelude::*;

verus! {

/// Marker trait for injectable types - components and aliases.
pub trait Injectable {}

/// Helper trait for traits implemented by components, allowing injection of components as the
/// types they implement: a type-erased instance pointer is turned into a typed one, or handed
/// back when it points to something else.
pub trait ComponentDowncast<P>: Injectable {
    /// The typed instance pointer.
    type Ptr;

    fn downcast(source: P) -> Result<Self::Ptr, P>;
}

} // verus!
