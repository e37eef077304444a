use vstd::prelude::*;

use crate::provide::dir::Direction;
use crate::provide::node::NodeId;

verus! {

/// The key under which a storage records the edge from `src` to `dst`: the pair itself when
/// the storage is directed, the pair with the smaller node first when it is not.
pub open spec fn edge_key(directed: bool, src: NodeId, dst: NodeId) -> (NodeId, NodeId) {
    if directed || src.0 <= dst.0 {
        (src, dst)
    } else {
        (dst, src)
    }
}

/// A graph storage, seen as a set of nodes and a set of edge keys.
pub trait Storage {
    /// Direction of the edges.
    type Dir: Direction;

    /// The storage invariant.
    spec fn spec_wf(&self) -> bool;

    /// The nodes.
    spec fn spec_nodes(&self) -> Set<NodeId>;

    /// The edges, each under its `edge_key`.
    spec fn spec_edges(&self) -> Set<(NodeId, NodeId)>;
}

/// A storage that can be created empty.
pub trait EmptyStorage: Storage + Sized {
    /// # Returns
    /// A storage without nodes and edges.
    fn init() -> (s: Self)
        ensures
            s.spec_wf(),
            s.spec_nodes() == Set::<NodeId>::empty(),
            s.spec_edges() == Set::<(NodeId, NodeId)>::empty(),
    ;
}

/// A storage to which nodes can be added.
pub trait AddNode: Storage {
    /// Adds `node`, which must not exist yet.
    fn add_node(&mut self, node: NodeId)
        requires
            old(self).spec_wf(),
            !old(self).spec_nodes().contains(node),
        ensures
            final(self).spec_wf(),
            final(self).spec_nodes() == old(self).spec_nodes().insert(node),
            final(self).spec_edges() == old(self).spec_edges(),
    ;
}

/// A storage to which edges can be added.
pub trait AddEdge: Storage {
    /// Adds an edge from `src` to `dst`; both must exist and the edge must not.
    fn add_edge(&mut self, src: NodeId, dst: NodeId)
        requires
            old(self).spec_wf(),
            old(self).spec_nodes().contains(src),
            old(self).spec_nodes().contains(dst),
            !old(self).spec_edges().contains(edge_key(Self::Dir::spec_is_directed(), src, dst)),
        ensures
            final(self).spec_wf(),
            final(self).spec_nodes() == old(self).spec_nodes(),
            final(self).spec_edges() == old(self).spec_edges().insert(
                edge_key(Self::Dir::spec_is_directed(), src, dst),
            ),
    ;
}

} // verus!
