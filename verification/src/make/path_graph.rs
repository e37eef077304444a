use vstd::prelude::*;

use crate::make::{node_range, EmptyGraph, Make};
use crate::provide::{edge_key, AddEdge, AddNode, Direction, EmptyStorage, NodeId};

verus! {

/// The edge between node `i` and node `i + 1`, under its edge key.
pub open spec fn path_edge(directed: bool, i: usize) -> (NodeId, NodeId) {
    edge_key(directed, NodeId(i), NodeId((i + 1) as usize))
}

/// The edges between consecutive nodes from `start` up to `end`, `end` left out.
pub open spec fn path_edges(directed: bool, start: int, end: int) -> Set<(NodeId, NodeId)> {
    Set::new(|e: (NodeId, NodeId)| exists|i: usize| start <= i && i + 1 < end && e == #[trigger] path_edge(directed, i))
}

/// A path: `node_count` nodes, each joined to the next.
#[derive(Debug)]
pub struct PathGraph {
    node_count: usize,
}

impl PathGraph {
    /// The number of nodes.
    pub closed spec fn spec_count(&self) -> nat {
        self.node_count as nat
    }

    /// # Returns
    /// The generator of a path on `node_count` nodes.
    pub fn new(node_count: usize) -> (g: Self)
        ensures
            g.spec_count() == node_count,
    {
        Self { node_count }
    }
}

impl<S: EmptyStorage + AddNode + AddEdge> Make<S> for PathGraph {
    open spec fn spec_node_count(&self) -> nat {
        self.spec_count()
    }

    open spec fn spec_edges(&self, start: int, directed: bool) -> Set<(NodeId, NodeId)> {
        path_edges(directed, start, start + self.spec_count())
    }

    open spec fn spec_admits(&self, directed: bool) -> bool {
        true
    }

    fn append(&self, storage: &mut S, start: NodeId) -> (next: NodeId) {
        let ghost d = S::Dir::spec_is_directed();
        let ghost nodes0 = storage.spec_nodes();
        let ghost edges0 = storage.spec_edges();
        let next = EmptyGraph::new(self.node_count).append(storage, start);
        let mut i: usize = start.0;
        while next.0 - i > 1
            invariant
                start.0 <= i <= next.0,
                start.0 < next.0 ==> i < next.0,
                next.0 == start.0 + self.spec_count(),
                storage.spec_wf(),
                storage.spec_nodes() == nodes0.union(node_range(start.0 as int, next.0 as int)),
                path_edges(d, start.0 as int, next.0 as int).disjoint(edges0),
                storage.spec_edges() == edges0.union(path_edges(d, start.0 as int, (i + 1) as int)),
                d == S::Dir::spec_is_directed(),
            decreases next.0 - i,
        {
            proof {
                assert(node_range(start.0 as int, next.0 as int).contains(NodeId(i)));
                assert(node_range(start.0 as int, next.0 as int).contains(NodeId((i + 1) as usize)));
                assert(path_edges(d, start.0 as int, next.0 as int).contains(path_edge(d, i)));
                assert(!path_edges(d, start.0 as int, (i + 1) as int).contains(path_edge(d, i))) by {
                    if path_edges(d, start.0 as int, (i + 1) as int).contains(path_edge(d, i)) {
                        let j = choose|j: usize| start.0 <= j && j + 1 < i + 1 && path_edge(d, i) == #[trigger] path_edge(d, j);
                        assert(path_edge(d, i).0 == NodeId(i));
                        assert(path_edge(d, j).0 == NodeId(j));
                    }
                }
            }
            storage.add_edge(NodeId(i), NodeId(i + 1));
            i = i + 1;
            proof {
                assert(storage.spec_edges() =~= edges0.union(path_edges(d, start.0 as int, (i + 1) as int))) by {
                    assert forall|e: (NodeId, NodeId)| #[trigger] path_edges(d, start.0 as int, (i + 1) as int).contains(e)
                        <==> (path_edges(d, start.0 as int, i as int).contains(e) || e == path_edge(d, (i - 1) as usize)) by {
                        if path_edges(d, start.0 as int, (i + 1) as int).contains(e) {
                            let j = choose|j: usize| start.0 <= j && j + 1 < i + 1 && e == #[trigger] path_edge(d, j);
                            if j + 1 < i {
                                assert(path_edges(d, start.0 as int, i as int).contains(e));
                            }
                        }
                        if e == path_edge(d, (i - 1) as usize) {
                            assert(path_edges(d, start.0 as int, (i + 1) as int).contains(e));
                        }
                    }
                }
            }
        }
        proof {
            if next.0 > start.0 {
                assert(i + 1 == next.0);
            } else {
                assert(path_edges(d, start.0 as int, (i + 1) as int) =~= path_edges(d, start.0 as int, next.0 as int));
            }
        }
        next
    }
}

/// A path on `n` nodes numbered from `start` adds exactly the edges between each node and
/// the next one, under the storage's edge key, whatever the direction: `(i, i + 1)` for
/// `start <= i < start + n - 1`, and nothing else.
pub proof fn lemma_path_graph_edges<S: EmptyStorage + AddNode + AddEdge>(g: PathGraph, start: usize, directed: bool)
    ensures
        <PathGraph as Make<S>>::spec_node_count(&g) == g.spec_count(),
        <PathGraph as Make<S>>::spec_admits(&g, directed),
        forall|e: (NodeId, NodeId)| #[trigger] <PathGraph as Make<S>>::spec_edges(&g, start as int, directed).contains(e)
            <==> exists|i: usize| start <= i && i + 1 < start + g.spec_count()
                && e == #[trigger] edge_key(directed, NodeId(i), NodeId((i + 1) as usize)),
{
    let es = <PathGraph as Make<S>>::spec_edges(&g, start as int, directed);
    let n = g.spec_count();
    assert forall|e: (NodeId, NodeId)| #[trigger] es.contains(e)
        <==> exists|i: usize| start <= i && i + 1 < start + n
            && e == #[trigger] edge_key(directed, NodeId(i), NodeId((i + 1) as usize)) by {
        if es.contains(e) {
            let i = choose|i: usize| start <= i && i + 1 < start + n && e == #[trigger] path_edge(directed, i);
            assert(e == edge_key(directed, NodeId(i), NodeId((i + 1) as usize)));
        }
        if exists|i: usize| start <= i && i + 1 < start + n
            && e == #[trigger] edge_key(directed, NodeId(i), NodeId((i + 1) as usize)) {
            let i = choose|i: usize| start <= i && i + 1 < start + n
                && e == #[trigger] edge_key(directed, NodeId(i), NodeId((i + 1) as usize));
            assert(e == path_edge(directed, i));
        }
    }
}

} // verus!
