use vstd::prelude::*;

verus! {

/// Identifier of an edge.
#[derive(Debug, Copy, Clone, PartialEq, Eq, Structural, PartialOrd, Ord, Hash)]
pub struct EdgeId(pub usize);

/// Which end of an edge a node's link describes: `Outgoing` at the source, `Incoming` at the
/// destination.
#[derive(Debug, Copy, Clone, PartialEq, Eq, Structural, Hash)]
pub enum Orientation {
    Incoming,
    Outgoing,
}

} // verus!
