use vstd::prelude::*;

use crate::provide::internal::Sealed;

verus! {

/// Whether a storage holds directed or undirected edges.
pub trait Direction: Sealed {
    /// The storage is directed.
    spec fn spec_is_directed() -> bool;

    /// # Returns
    /// `true` for directed storages.
    fn is_directed() -> (b: bool)
        ensures
            b == Self::spec_is_directed(),
    ;

    /// # Returns
    /// `true` for undirected storages.
    fn is_undirected() -> (b: bool)
        ensures
            b == !Self::spec_is_directed(),
    {
        !Self::is_directed()
    }
}

/// Marker of directed storages.
#[derive(Debug, Clone, Copy, PartialEq, Eq, Hash)]
pub struct Directed;

impl Direction for Directed {
    open spec fn spec_is_directed() -> bool {
        true
    }

    fn is_directed() -> (b: bool) {
        true
    }
}

/// Marker of undirected storages.
#[derive(Debug, Clone, Copy, PartialEq, Eq, Hash)]
pub struct Undirected;

impl Direction for Undirected {
    open spec fn spec_is_directed() -> bool {
        false
    }

    fn is_directed() -> (b: bool) {
        false
    }
}

} // verus!
