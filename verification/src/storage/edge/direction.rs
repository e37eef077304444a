use vstd::prelude::*;

verus! {

/// Describes wether an entity is directed or not.
///
/// The entity can be an edge, a graph or any other struct that can act as an entity with
/// direction.
pub trait Direction {
    /// The entity has a direction.
    spec fn spec_is_directed() -> bool;

    /// # Returns
    /// `true` if the entity has direction, `false` otherwise.
    fn is_directed() -> (b: bool)
        ensures
            b == Self::spec_is_directed(),
    ;

    /// # Returns
    /// `true` if the entity has no direction, `false` otherwise.
    fn is_undirected() -> (b: bool)
        ensures
            b == !Self::spec_is_directed(),
    ;
}

/// Default implementation for a directed entity.
#[derive(Debug, Clone, Copy)]
pub struct Directed;

impl Direction for Directed {
    open spec fn spec_is_directed() -> bool {
        true
    }

    fn is_directed() -> (b: bool) {
        true
    }

    fn is_undirected() -> (b: bool) {
        false
    }
}

/// Default implementation for an undirected entity.
#[derive(Debug, Clone, Copy)]
pub struct Undirected;

impl Direction for Undirected {
    open spec fn spec_is_directed() -> bool {
        false
    }

    fn is_directed() -> (b: bool) {
        false
    }

    fn is_undirected() -> (b: bool) {
        true
    }
}

} // verus!
