use vstd::prelude::*;

use crate::provide::node::NodeId;

verus! {

/// Errors that a storage reports about the nodes and edges it is given.
#[derive(Debug, Copy, Clone, PartialEq, Eq, Structural)]
pub enum ProviderError {
    /// The node is invalid.
    InvalidNode(NodeId),
    /// The node already exists in the storage.
    DuplicatedNode(NodeId),
    /// The node does not exist in the storage.
    NodeDoesNotExist(NodeId),
    /// The edge does not exist in the storage.
    EdgeDoesNotExist(NodeId, NodeId),
    /// The edge already exists in the storage.
    MultiEdge(NodeId, NodeId),
}

} // verus!
