use vstd::prelude::*;

use crate::make::{node_range, Make, PathGraph};
use crate::make::path_graph::{path_edge, path_edges};
use crate::provide::{edge_key, AddEdge, AddNode, Direction, EmptyStorage, NodeId};

verus! {

/// A cycle: a path on `node_count` nodes whose last node is joined back to the first.
#[derive(Debug)]
pub struct CycleGraph {
    node_count: usize,
}

impl CycleGraph {
    /// The number of nodes.
    pub closed spec fn spec_count(&self) -> nat {
        self.node_count as nat
    }

    /// # Returns
    /// The generator of a cycle on `node_count` nodes.
    pub fn new(node_count: usize) -> (g: Self)
        ensures
            g.spec_count() == node_count,
    {
        Self { node_count }
    }
}

/// The edge that closes a cycle from `start` to `end`: from its last node back to the first.
pub open spec fn closing_edge(directed: bool, start: int, end: int) -> (NodeId, NodeId) {
    edge_key(directed, NodeId((end - 1) as usize), NodeId(start as usize))
}

impl<S: EmptyStorage + AddNode + AddEdge> Make<S> for CycleGraph {
    open spec fn spec_node_count(&self) -> nat {
        self.spec_count()
    }

    open spec fn spec_edges(&self, start: int, directed: bool) -> Set<(NodeId, NodeId)> {
        path_edges(directed, start, start + self.spec_count()).insert(
            closing_edge(directed, start, start + self.spec_count()),
        )
    }

    /// A cycle needs a node, and an undirected cycle of two nodes would add its one edge
    /// twice.
    open spec fn spec_admits(&self, directed: bool) -> bool {
        self.spec_count() >= 1 && (directed || self.spec_count() != 2)
    }

    fn append(&self, storage: &mut S, start: NodeId) -> (next: NodeId) {
        let ghost d = S::Dir::spec_is_directed();
        let ghost end = start.0 + self.spec_count();
        let ghost closing = closing_edge(d, start.0 as int, end);
        proof {
            assert(path_edges(d, start.0 as int, end).subset_of(path_edges(d, start.0 as int, end).insert(closing)));
            assert(path_edges(d, start.0 as int, end).insert(closing).contains(closing));
            assert(!path_edges(d, start.0 as int, end).contains(closing)) by {
                if path_edges(d, start.0 as int, end).contains(closing) {
                    let i = choose|i: usize| start.0 <= i && i + 1 < end && closing == #[trigger] path_edge(d, i);
                    assert(path_edge(d, i).0 == NodeId(i));
                    assert(path_edge(d, i).1 == NodeId((i + 1) as usize));
                }
            }
        }
        let next = PathGraph::new(self.node_count).append(storage, start);
        storage.add_edge(NodeId(next.0 - 1), start);
        proof {
            assert(storage.spec_edges() =~= old(storage).spec_edges().union(path_edges(d, start.0 as int, end).insert(closing)));
        }
        next
    }
}

/// A cycle on `n >= 1` nodes numbered from `start` adds exactly the edges between each node
/// and the next one, `(i, i + 1)` for `start <= i < start + n - 1`, and the edge closing the
/// cycle from its last node back to the first, `(start + n - 1, start)`, each under the
/// storage's edge key, and nothing else. The closing edge is always there.
pub proof fn lemma_cycle_graph_edges<S: EmptyStorage + AddNode + AddEdge>(g: CycleGraph, start: usize, directed: bool)
    requires
        g.spec_count() >= 1,
    ensures
        <CycleGraph as Make<S>>::spec_node_count(&g) == g.spec_count(),
        directed || g.spec_count() != 2 ==> <CycleGraph as Make<S>>::spec_admits(&g, directed),
        forall|e: (NodeId, NodeId)| #[trigger] <CycleGraph as Make<S>>::spec_edges(&g, start as int, directed).contains(e)
            <==> (exists|i: usize| start <= i && i + 1 < start + g.spec_count()
                && e == #[trigger] edge_key(directed, NodeId(i), NodeId((i + 1) as usize)))
                || e == edge_key(directed, NodeId((start + g.spec_count() - 1) as usize), NodeId(start)),
        <CycleGraph as Make<S>>::spec_edges(&g, start as int, directed).contains(
            edge_key(directed, NodeId((start + g.spec_count() - 1) as usize), NodeId(start))),
{
    let es = <CycleGraph as Make<S>>::spec_edges(&g, start as int, directed);
    let n = g.spec_count();
    let closing = edge_key(directed, NodeId((start + n - 1) as usize), NodeId(start));
    assert(closing == closing_edge(directed, start as int, start + n));
    assert forall|e: (NodeId, NodeId)| #[trigger] es.contains(e)
        <==> (exists|i: usize| start <= i && i + 1 < start + n
            && e == #[trigger] edge_key(directed, NodeId(i), NodeId((i + 1) as usize))) || e == closing by {
        if es.contains(e) && e != closing {
            let i = choose|i: usize| start <= i && i + 1 < start + n && e == #[trigger] path_edge(directed, i);
            assert(e == edge_key(directed, NodeId(i), NodeId((i + 1) as usize)));
        }
        if exists|i: usize| start <= i && i + 1 < start + n
            && e == #[trigger] edge_key(directed, NodeId(i), NodeId((i + 1) as usize)) {
            let i = choose|i: usize| start <= i && i + 1 < start + n
                && e == #[trigger] edge_key(directed, NodeId(i), NodeId((i + 1) as usize));
            assert(e == path_edge(directed, i));
            assert(path_edges(directed, start as int, start + n).contains(e));
        }
    }
}

} // verus!
