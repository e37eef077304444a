use vstd::prelude::*;

use crate::make::{node_range, Make};
use crate::provide::{AddEdge, AddNode, EmptyStorage, NodeId};

verus! {

/// A graph of `node_count` nodes and no edges.
#[derive(Debug)]
pub struct EmptyGraph {
    node_count: usize,
}

impl EmptyGraph {
    /// The number of nodes.
    pub closed spec fn spec_count(&self) -> nat {
        self.node_count as nat
    }

    /// # Returns
    /// The generator of an empty graph on `node_count` nodes.
    pub fn new(node_count: usize) -> (g: Self)
        ensures
            g.spec_count() == node_count,
    {
        Self { node_count }
    }
}

impl<S: EmptyStorage + AddNode + AddEdge> Make<S> for EmptyGraph {
    open spec fn spec_node_count(&self) -> nat {
        self.spec_count()
    }

    open spec fn spec_edges(&self, start: int, directed: bool) -> Set<(NodeId, NodeId)> {
        Set::empty()
    }

    open spec fn spec_admits(&self, directed: bool) -> bool {
        true
    }

    fn append(&self, storage: &mut S, start: NodeId) -> (next: NodeId) {
        let next = start.0 + self.node_count;
        let mut i: usize = start.0;
        while i < next
            invariant
                start.0 <= i <= next,
                next == start.0 + self.spec_count(),
                storage.spec_wf(),
                node_range(start.0 as int, next as int).disjoint(old(storage).spec_nodes()),
                storage.spec_nodes() == old(storage).spec_nodes().union(node_range(start.0 as int, i as int)),
                storage.spec_edges() == old(storage).spec_edges(),
            decreases next - i,
        {
            proof {
                assert(node_range(start.0 as int, next as int).contains(NodeId(i)));
                assert(!node_range(start.0 as int, i as int).contains(NodeId(i)));
            }
            storage.add_node(NodeId(i));
            i = i + 1;
            proof {
                assert(storage.spec_nodes() =~= old(storage).spec_nodes().union(node_range(start.0 as int, i as int)));
            }
        }
        proof {
            assert(storage.spec_edges() =~= old(storage).spec_edges().union(Set::empty()));
        }
        NodeId(next)
    }
}

/// An empty graph on `n` nodes adds its `n` nodes and no edge, into any storage.
pub proof fn lemma_empty_graph_edges<S: EmptyStorage + AddNode + AddEdge>(g: EmptyGraph, start: usize, directed: bool)
    ensures
        <EmptyGraph as Make<S>>::spec_node_count(&g) == g.spec_count(),
        <EmptyGraph as Make<S>>::spec_admits(&g, directed),
        forall|e: (NodeId, NodeId)| !(#[trigger] <EmptyGraph as Make<S>>::spec_edges(&g, start as int, directed).contains(e)),
{
}

} // verus!
