use vstd::prelude::*;

use crate::provide::node::NodeId;

verus! {

/// Errors of the checked node operations.
#[derive(Debug, Copy, Clone, PartialEq, Eq, Structural)]
pub enum Error {
    /// The node does not exist.
    NodeNotFound(NodeId),
    /// The node already exists.
    NodeExists(NodeId),
}

} // verus!
