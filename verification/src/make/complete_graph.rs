use vstd::prelude::*;

use crate::make::{node_range, EmptyGraph, Make};
use crate::provide::{edge_key, AddEdge, AddNode, Direction, EmptyStorage, NodeId};

verus! {

/// The edges from each node to each other node from `start` up to `end` (`end` left out),
/// counting only the pairs `(a, b)` that come before `(src, dst)` in row order.
pub open spec fn complete_edges_before(directed: bool, start: int, end: int, src: int, dst: int) -> Set<(NodeId, NodeId)> {
    Set::new(|e: (NodeId, NodeId)| exists|a: usize, b: usize|
        #![trigger edge_key(directed, NodeId(a), NodeId(b))]
        start <= a < end && start <= b < end && a != b && (a < src || (a == src && b < dst))
            && e == edge_key(directed, NodeId(a), NodeId(b)))
}

/// A complete graph: each of `node_count` nodes joined to each other one.
#[derive(Debug)]
pub struct CompleteGraph {
    node_count: usize,
}

impl CompleteGraph {
    /// The number of nodes.
    pub closed spec fn spec_count(&self) -> nat {
        self.node_count as nat
    }

    /// # Returns
    /// The generator of a complete graph on `node_count` nodes.
    pub fn new(node_count: usize) -> (g: Self)
        ensures
            g.spec_count() == node_count,
    {
        Self { node_count }
    }
}

impl<S: EmptyStorage + AddNode + AddEdge> Make<S> for CompleteGraph {
    open spec fn spec_node_count(&self) -> nat {
        self.spec_count()
    }

    open spec fn spec_edges(&self, start: int, directed: bool) -> Set<(NodeId, NodeId)> {
        complete_edges_before(directed, start, start + self.spec_count(), start + self.spec_count(), start)
    }

    /// Every ordered pair of distinct nodes is added, so an undirected storage would get each
    /// edge twice once there are two nodes.
    open spec fn spec_admits(&self, directed: bool) -> bool {
        directed || self.spec_count() <= 1
    }

    fn append(&self, storage: &mut S, start: NodeId) -> (next: NodeId) {
        let ghost d = S::Dir::spec_is_directed();
        let ghost nodes0 = storage.spec_nodes();
        let ghost edges0 = storage.spec_edges();
        let next = EmptyGraph::new(self.node_count).append(storage, start);
        let ghost s = start.0 as int;
        let ghost e = next.0 as int;
        let undirected = S::Dir::is_undirected();
        let mut src: usize = start.0;
        while src < next.0
            invariant
                start.0 <= src <= next.0,
                next.0 == start.0 + self.spec_count(),
                s == start.0,
                e == next.0,
                d == S::Dir::spec_is_directed(),
                undirected == !d,
                d || self.spec_count() <= 1,
                storage.spec_wf(),
                storage.spec_nodes() == nodes0.union(node_range(s, e)),
                complete_edges_before(d, s, e, e, s).disjoint(edges0),
                storage.spec_edges() == edges0.union(complete_edges_before(d, s, e, src as int, s)),
            decreases next.0 - src,
        {
            let mut dst: usize = start.0;
            while dst < next.0
                invariant
                    start.0 <= src < next.0,
                    start.0 <= dst <= next.0,
                    next.0 == start.0 + self.spec_count(),
                    s == start.0,
                    e == next.0,
                    d == S::Dir::spec_is_directed(),
                    undirected == !d,
                    d || self.spec_count() <= 1,
                    storage.spec_wf(),
                    storage.spec_nodes() == nodes0.union(node_range(s, e)),
                    complete_edges_before(d, s, e, e, s).disjoint(edges0),
                    storage.spec_edges() == edges0.union(complete_edges_before(d, s, e, src as int, dst as int)),
                decreases next.0 - dst,
            {
                let ghost before = storage.spec_edges();
                if (undirected && src < dst) || src != dst {
                    proof {
                        assert(src != dst);
                        assert(d);
                        let key = edge_key(d, NodeId(src), NodeId(dst));
                        assert(node_range(s, e).contains(NodeId(src)));
                        assert(node_range(s, e).contains(NodeId(dst)));
                        assert(complete_edges_before(d, s, e, e, s).contains(key));
                        assert(!complete_edges_before(d, s, e, src as int, dst as int).contains(key)) by {
                            if complete_edges_before(d, s, e, src as int, dst as int).contains(key) {
                                let (a, b) = choose|a: usize, b: usize|
                                    #![trigger edge_key(d, NodeId(a), NodeId(b))]
                                    s <= a < e && s <= b < e && a != b && (a < src || (a == src && b < dst))
                                        && key == edge_key(d, NodeId(a), NodeId(b));
                                assert(edge_key(d, NodeId(a), NodeId(b)) == (NodeId(a), NodeId(b)));
                            }
                        }
                    }
                    storage.add_edge(NodeId(src), NodeId(dst));
                }
                proof {
                    let key = edge_key(d, NodeId(src), NodeId(dst));
                    assert forall|x: (NodeId, NodeId)| #[trigger] complete_edges_before(d, s, e, src as int, dst + 1).contains(x)
                        <==> (complete_edges_before(d, s, e, src as int, dst as int).contains(x) || (src != dst && x == key)) by {
                        if complete_edges_before(d, s, e, src as int, dst + 1).contains(x) {
                            let (a, b) = choose|a: usize, b: usize|
                                #![trigger edge_key(d, NodeId(a), NodeId(b))]
                                s <= a < e && s <= b < e && a != b && (a < src || (a == src && b < dst + 1))
                                    && x == edge_key(d, NodeId(a), NodeId(b));
                            if a < src || b < dst {
                                assert(complete_edges_before(d, s, e, src as int, dst as int).contains(x));
                            }
                        }
                        if src != dst && x == key {
                            assert(complete_edges_before(d, s, e, src as int, dst + 1).contains(x));
                        }
                    }
                    assert(storage.spec_edges() =~= edges0.union(complete_edges_before(d, s, e, src as int, dst + 1)));
                }
                dst = dst + 1;
            }
            proof {
                assert(complete_edges_before(d, s, e, src as int, e) =~= complete_edges_before(d, s, e, src + 1, s)) by {
                    assert forall|x: (NodeId, NodeId)| #[trigger] complete_edges_before(d, s, e, src as int, e).contains(x)
                        <==> complete_edges_before(d, s, e, src + 1, s).contains(x) by {
                        if complete_edges_before(d, s, e, src + 1, s).contains(x) {
                            let (a, b) = choose|a: usize, b: usize|
                                #![trigger edge_key(d, NodeId(a), NodeId(b))]
                                s <= a < e && s <= b < e && a != b && (a < src + 1 || (a == src + 1 && b < s))
                                    && x == edge_key(d, NodeId(a), NodeId(b));
                            assert(complete_edges_before(d, s, e, src as int, e).contains(x));
                        }
                        if complete_edges_before(d, s, e, src as int, e).contains(x) {
                            let (a, b) = choose|a: usize, b: usize|
                                #![trigger edge_key(d, NodeId(a), NodeId(b))]
                                s <= a < e && s <= b < e && a != b && (a < src || (a == src && b < e))
                                    && x == edge_key(d, NodeId(a), NodeId(b));
                            assert(complete_edges_before(d, s, e, src + 1, s).contains(x));
                        }
                    }
                }
            }
            src = src + 1;
        }
        next
    }
}

/// A complete graph on `n` nodes numbered from `start` adds exactly one edge for each ordered
/// pair `(a, b)` of distinct nodes, under the storage's edge key, and nothing else; in a
/// directed storage that is every pair `(a, b)` with `a != b`.
pub proof fn lemma_complete_graph_edges<S: EmptyStorage + AddNode + AddEdge>(g: CompleteGraph, start: usize, directed: bool)
    ensures
        <CompleteGraph as Make<S>>::spec_node_count(&g) == g.spec_count(),
        directed || g.spec_count() <= 1 ==> <CompleteGraph as Make<S>>::spec_admits(&g, directed),
        forall|e: (NodeId, NodeId)| #[trigger] <CompleteGraph as Make<S>>::spec_edges(&g, start as int, directed).contains(e)
            <==> exists|a: usize, b: usize| start <= a && a < start + g.spec_count() && start <= b && b < start + g.spec_count()
                && a != b && e == #[trigger] edge_key(directed, NodeId(a), NodeId(b)),
        directed ==> forall|a: usize, b: usize|
            #[trigger] <CompleteGraph as Make<S>>::spec_edges(&g, start as int, directed).contains((NodeId(a), NodeId(b)))
            <==> (start <= a && a < start + g.spec_count() && start <= b && b < start + g.spec_count() && a != b),
{
    let es = <CompleteGraph as Make<S>>::spec_edges(&g, start as int, directed);
    let n = g.spec_count();
    let s = start as int;
    let e_ = s + n;
    assert forall|e: (NodeId, NodeId)| #[trigger] es.contains(e)
        <==> exists|a: usize, b: usize| start <= a && a < start + n && start <= b && b < start + n
            && a != b && e == #[trigger] edge_key(directed, NodeId(a), NodeId(b)) by {
        if es.contains(e) {
            let (a, b) = choose|a: usize, b: usize|
                #![trigger edge_key(directed, NodeId(a), NodeId(b))]
                s <= a < e_ && s <= b < e_ && a != b && (a < e_ || (a == e_ && b < s))
                    && e == edge_key(directed, NodeId(a), NodeId(b));
            assert(e == edge_key(directed, NodeId(a), NodeId(b)));
        }
        if exists|a: usize, b: usize| start <= a && a < start + n && start <= b && b < start + n
            && a != b && e == #[trigger] edge_key(directed, NodeId(a), NodeId(b)) {
            let (a, b) = choose|a: usize, b: usize| start <= a && a < start + n && start <= b && b < start + n
                && a != b && e == #[trigger] edge_key(directed, NodeId(a), NodeId(b));
            assert(complete_edges_before(directed, s, e_, e_, s).contains(e));
        }
    }
    if directed {
        assert forall|a: usize, b: usize|
            #[trigger] es.contains((NodeId(a), NodeId(b)))
            <==> (start <= a && a < start + n && start <= b && b < start + n && a != b) by {
            if es.contains((NodeId(a), NodeId(b))) {
                let (a2, b2) = choose|a2: usize, b2: usize| start <= a2 && a2 < start + n && start <= b2 && b2 < start + n
                    && a2 != b2 && (NodeId(a), NodeId(b)) == #[trigger] edge_key(directed, NodeId(a2), NodeId(b2));
                assert(edge_key(directed, NodeId(a2), NodeId(b2)) == (NodeId(a2), NodeId(b2)));
            }
            if start <= a && a < start + n && start <= b && b < start + n && a != b {
                assert(edge_key(directed, NodeId(a), NodeId(b)) == (NodeId(a), NodeId(b)));
            }
        }
    }
}

} // verus!
