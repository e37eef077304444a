use vstd::prelude::*;

verus! {

/// Identifier of a node.
#[derive(Debug, Copy, Clone, PartialEq, Eq, Structural, PartialOrd, Ord, Hash)]
pub struct NodeId(pub usize);

} // verus!
