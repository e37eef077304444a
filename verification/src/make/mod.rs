//! Generators of common graphs: each adds its nodes, numbered from a start node, and its
//! edges to a storage.

pub mod empty_graph;
pub mod path_graph;
pub mod cycle_graph;
pub mod complete_graph;
pub mod star_graph;

pub use complete_graph::CompleteGraph;
pub use cycle_graph::CycleGraph;
pub use empty_graph::EmptyGraph;
pub use path_graph::PathGraph;
pub use star_graph::StarGraph;

use vstd::prelude::*;

use crate::provide::{AddEdge, AddNode, Direction, EmptyStorage, NodeId};

verus! {

/// The nodes numbered `start` to `end`, `end` left out.
pub open spec fn node_range(start: int, end: int) -> Set<NodeId> {
    Set::new(|n: NodeId| start <= n.0 < end)
}

/// A graph generator.
pub trait Make<S: EmptyStorage + AddNode + AddEdge> {
    /// Number of nodes the generator adds.
    spec fn spec_node_count(&self) -> nat;

    /// The edges the generator adds when its first node is `start`, each under its edge key.
    spec fn spec_edges(&self, start: int, directed: bool) -> Set<(NodeId, NodeId)>;

    /// The generator never adds an edge twice to a storage of this direction.
    spec fn spec_admits(&self, directed: bool) -> bool;

    /// # Returns
    /// A new storage that holds the generated graph, its nodes numbered from 0.
    fn make(&self) -> (s: S)
        requires
            self.spec_admits(S::Dir::spec_is_directed()),
            self.spec_node_count() <= usize::MAX,
        ensures
            s.spec_wf(),
            s.spec_nodes() == node_range(0, self.spec_node_count() as int),
            s.spec_edges() == self.spec_edges(0, S::Dir::spec_is_directed()),
    {
        let mut storage = S::init();
        let _ = self.append(&mut storage, NodeId(0));
        proof {
            assert(storage.spec_nodes() =~= node_range(0, self.spec_node_count() as int));
            assert(storage.spec_edges() =~= self.spec_edges(0, S::Dir::spec_is_directed()));
        }
        storage
    }

    /// Adds the generated graph to `storage`, its nodes numbered from `start`.
    ///
    /// # Returns
    /// The number after the last node added.
    fn append(&self, storage: &mut S, start: NodeId) -> (next: NodeId)
        requires
            old(storage).spec_wf(),
            self.spec_admits(S::Dir::spec_is_directed()),
            start.0 + self.spec_node_count() <= usize::MAX,
            node_range(start.0 as int, start.0 + self.spec_node_count()).disjoint(old(storage).spec_nodes()),
            self.spec_edges(start.0 as int, S::Dir::spec_is_directed()).disjoint(old(storage).spec_edges()),
        ensures
            final(storage).spec_wf(),
            next.0 == start.0 + self.spec_node_count(),
            final(storage).spec_nodes() == old(storage).spec_nodes().union(
                node_range(start.0 as int, start.0 + self.spec_node_count()),
            ),
            final(storage).spec_edges() == old(storage).spec_edges().union(
                self.spec_edges(start.0 as int, S::Dir::spec_is_directed()),
            ),
    ;
}

} // verus!
