use vstd::prelude::*;

use crate::make::{node_range, EmptyGraph, Make};
use crate::provide::{edge_key, AddEdge, AddNode, Direction, EmptyStorage, NodeId};

verus! {

/// The edge from the center `start` to node `other`, under its edge key.
pub open spec fn star_edge(directed: bool, start: usize, other: usize) -> (NodeId, NodeId) {
    edge_key(directed, NodeId(start), NodeId(other))
}

/// The edges from the center `start` to each node after it, up to `end`, `end` left out.
pub open spec fn star_edges(directed: bool, start: usize, end: int) -> Set<(NodeId, NodeId)> {
    Set::new(|e: (NodeId, NodeId)| exists|o: usize| start < o < end && e == #[trigger] star_edge(directed, start, o))
}

/// A star: the first of `node_count` nodes joined to each of the others.
#[derive(Debug)]
pub struct StarGraph {
    node_count: usize,
}

impl StarGraph {
    /// The number of nodes.
    pub closed spec fn spec_count(&self) -> nat {
        self.node_count as nat
    }

    /// # Returns
    /// The generator of a star on `node_count` nodes.
    pub fn new(node_count: usize) -> (g: Self)
        ensures
            g.spec_count() == node_count,
    {
        Self { node_count }
    }
}

impl<S: EmptyStorage + AddNode + AddEdge> Make<S> for StarGraph {
    open spec fn spec_node_count(&self) -> nat {
        self.spec_count()
    }

    open spec fn spec_edges(&self, start: int, directed: bool) -> Set<(NodeId, NodeId)> {
        star_edges(directed, start as usize, start + self.spec_count())
    }

    open spec fn spec_admits(&self, directed: bool) -> bool {
        true
    }

    fn append(&self, storage: &mut S, start: NodeId) -> (next: NodeId) {
        let ghost d = S::Dir::spec_is_directed();
        let ghost nodes0 = storage.spec_nodes();
        let ghost edges0 = storage.spec_edges();
        let next = EmptyGraph::new(self.node_count).append(storage, start);
        let mut o: usize = start.0;
        while next.0 - o > 1
            invariant
                start.0 <= o <= next.0,
                start.0 < next.0 ==> o < next.0,
                next.0 == start.0 + self.spec_count(),
                storage.spec_wf(),
                storage.spec_nodes() == nodes0.union(node_range(start.0 as int, next.0 as int)),
                star_edges(d, start.0, next.0 as int).disjoint(edges0),
                storage.spec_edges() == edges0.union(star_edges(d, start.0, o + 1)),
                d == S::Dir::spec_is_directed(),
            decreases next.0 - o,
        {
            proof {
                assert(node_range(start.0 as int, next.0 as int).contains(start));
                assert(node_range(start.0 as int, next.0 as int).contains(NodeId((o + 1) as usize)));
                assert(star_edges(d, start.0, next.0 as int).contains(star_edge(d, start.0, (o + 1) as usize)));
                assert(!star_edges(d, start.0, o + 1).contains(star_edge(d, start.0, (o + 1) as usize))) by {
                    if star_edges(d, start.0, o + 1).contains(star_edge(d, start.0, (o + 1) as usize)) {
                        let p = choose|p: usize| start.0 < p < o + 1 && star_edge(d, start.0, (o + 1) as usize) == #[trigger] star_edge(d, start.0, p);
                        assert(star_edge(d, start.0, p).1 == NodeId(p));
                    }
                }
            }
            storage.add_edge(start, NodeId(o + 1));
            o = o + 1;
            proof {
                assert(storage.spec_edges() =~= edges0.union(star_edges(d, start.0, o + 1))) by {
                    assert forall|e: (NodeId, NodeId)| #[trigger] star_edges(d, start.0, o + 1).contains(e)
                        <==> (star_edges(d, start.0, o as int).contains(e) || e == star_edge(d, start.0, o)) by {
                        if star_edges(d, start.0, o + 1).contains(e) {
                            let p = choose|p: usize| start.0 < p < o + 1 && e == #[trigger] star_edge(d, start.0, p);
                            if p < o {
                                assert(star_edges(d, start.0, o as int).contains(e));
                            }
                        }
                        if e == star_edge(d, start.0, o) {
                            assert(star_edges(d, start.0, o + 1).contains(e));
                        }
                    }
                }
            }
        }
        proof {
            if next.0 > start.0 {
                assert(o + 1 == next.0);
            } else {
                assert(star_edges(d, start.0, o + 1) =~= star_edges(d, start.0, next.0 as int));
            }
        }
        next
    }
}

/// A star on `n` nodes numbered from `start` adds exactly the edges from the center `start`
/// to each other node, `(start, o)` for `start < o < start + n`, under the storage's edge
/// key, and nothing else.
pub proof fn lemma_star_graph_edges<S: EmptyStorage + AddNode + AddEdge>(g: StarGraph, start: usize, directed: bool)
    ensures
        <StarGraph as Make<S>>::spec_node_count(&g) == g.spec_count(),
        <StarGraph as Make<S>>::spec_admits(&g, directed),
        forall|e: (NodeId, NodeId)| #[trigger] <StarGraph as Make<S>>::spec_edges(&g, start as int, directed).contains(e)
            <==> exists|o: usize| start < o && o < start + g.spec_count()
                && e == #[trigger] edge_key(directed, NodeId(start), NodeId(o)),
{
    let es = <StarGraph as Make<S>>::spec_edges(&g, start as int, directed);
    let n = g.spec_count();
    assert forall|e: (NodeId, NodeId)| #[trigger] es.contains(e)
        <==> exists|o: usize| start < o && o < start + n
            && e == #[trigger] edge_key(directed, NodeId(start), NodeId(o)) by {
        if es.contains(e) {
            let o = choose|o: usize| start < o < start + n && e == #[trigger] star_edge(directed, start, o);
            assert(e == edge_key(directed, NodeId(start), NodeId(o)));
        }
        if exists|o: usize| start < o && o < start + n
            && e == #[trigger] edge_key(directed, NodeId(start), NodeId(o)) {
            let o = choose|o: usize| start < o && o < start + n
                && e == #[trigger] edge_key(directed, NodeId(start), NodeId(o));
            assert(e == star_edge(directed, start, o));
        }
    }
}

} // verus!
