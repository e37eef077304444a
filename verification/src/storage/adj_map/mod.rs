//! Adjacency map storage: an insertion-ordered table from each node to its links, and a
//! table of the edges.

pub mod graph_wf;
pub mod index;
pub mod iters;
pub mod laws;
pub mod links;
pub mod table;

use vstd::prelude::*;
use core::marker::PhantomData;

use crate::provide::{AddEdge, AddNode, Direction, EmptyStorage, NodeId, Orientation, ProviderError, Storage, edge_key};
use crate::storage::adj_map::graph_wf::{
    lemma_add_isolated_wf, lemma_with_edge_links_wf, lemma_without_edge_links_wf,
    lemma_without_node_links_wf, with_edge_links, without_edge_links, without_node_links,
    Adjacency,
};
use crate::storage::adj_map::iters::{oriented, OrientedNeighbors};
use crate::storage::adj_map::links::{drop_links_to, lemma_links_without, links_to, links_without};
use crate::storage::adj_map::index::{
    edge_entries, edge_table_contains, edge_table_insert, edge_table_items, edge_table_len,
    edge_table_new, entry_keys, node_entries, node_table_contains, node_table_get_mut, LinkList,
    node_table_get, node_table_insert, node_table_keys, node_table_len, node_table_new,
    node_table_swap_remove, edge_table_swap_remove, swap_removed, EdgeTable, NodeTable,
    node_table_clone, edge_table_clone,
};
use crate::storage::adj_map::table::{
    adjacency, lemma_adjacency_push, lemma_adjacency_swap_remove, lemma_adjacency_update,
    key_index, lemma_key_index, lemma_key_of_entry, lemma_swap_removed_no_duplicates, table_wf,
    Entries,
};

verus! {

/// The edge key of `(src, dst)` as a pair of plain ids.
pub open spec fn sorted_pair(directed: bool, src: usize, dst: usize) -> (usize, usize) {
    if directed || src <= dst {
        (src, dst)
    } else {
        (dst, src)
    }
}

/// Position of `x` in `s`.
pub open spec fn position<T>(s: Seq<T>, x: T) -> int {
    choose|i: int| 0 <= i < s.len() && s[i] == x
}

/// `s` with `x` swap-removed, where it is an element.
pub open spec fn seq_without(s: Seq<(usize, usize)>, x: (usize, usize)) -> Seq<(usize, usize)> {
    if s.contains(x) {
        swap_removed(s, position(s, x))
    } else {
        s
    }
}

/// The key of the edge that `link`, a link of node `n`, stands for.
pub open spec fn link_edge(directed: bool, n: usize, link: (usize, Orientation)) -> (usize, usize) {
    if directed {
        match link.1 {
            Orientation::Outgoing => (n, link.0),
            Orientation::Incoming => (link.0, n),
        }
    } else {
        sorted_pair(false, n, link.0)
    }
}

/// `edges` after swap-removing, in order, the edge of each link of node `n`.
pub open spec fn edges_without_links(
    edges: Seq<(usize, usize)>,
    n: usize,
    links: Seq<(usize, Orientation)>,
    directed: bool,
) -> Seq<(usize, usize)>
    decreases links.len(),
{
    if links.len() == 0 {
        edges
    } else {
        seq_without(edges_without_links(edges, n, links.drop_last(), directed), link_edge(directed, n, links.last()))
    }
}

/// A storage that maps each node to its links, in the order the nodes were added, and keeps
/// the edges in the order they were added. An undirected edge is kept with its smaller node
/// first. A node's link `(other, Outgoing)` stands for an edge from the node to `other`, and
/// `(other, Incoming)` for an edge from `other` to the node.
#[derive(Debug)]
pub struct AdjMap<Dir> {
    nodes: NodeTable,
    edges: EdgeTable,
    phantom_dir: PhantomData<Dir>,
}

impl<Dir: Direction> AdjMap<Dir> {
    /// The node table's entries.
    pub closed spec fn spec_entries(&self) -> Entries {
        node_entries(self.nodes)
    }

    /// The nodes, in the order they are kept.
    pub open spec fn spec_node_seq(&self) -> Seq<usize> {
        entry_keys(self.spec_entries())
    }

    /// Each node with its links.
    pub open spec fn spec_adj(&self) -> Adjacency {
        adjacency(self.spec_entries())
    }

    /// The edges, in the order they are kept.
    pub closed spec fn spec_edge_seq(&self) -> Seq<(usize, usize)> {
        edge_entries(self.edges)
    }

    /// The map invariant: nodes and edges are kept once each, links point to nodes, and two
    /// nodes link to each other or not at all.
    pub open spec fn wf(&self) -> bool {
        &&& table_wf(self.spec_entries())
        &&& self.spec_edge_seq().no_duplicates()
    }

    /// The key under which the edge from `node1` to `node2` is kept.
    fn sort_nodes(&self, node1: NodeId, node2: NodeId) -> (r: (usize, usize))
        ensures
            r == sorted_pair(Dir::spec_is_directed(), node1.0, node2.0),
    {
        if Dir::is_directed() || node1.0 <= node2.0 {
            (node1.0, node2.0)
        } else {
            (node2.0, node1.0)
        }
    }

    /// The edge that a link `(node2, orientation)` of `node1` stands for: from `node1` when
    /// the link is outgoing, into it when incoming.
    fn orient_nodes(&self, node1: NodeId, node2: NodeId, orientation: Orientation) -> (r: (usize, usize))
        ensures
            r == link_edge(true, node1.0, (node2.0, orientation)),
    {
        match orientation {
            Orientation::Outgoing => (node1.0, node2.0),
            Orientation::Incoming => (node2.0, node1.0),
        }
    }

    /// # Returns
    /// `true` if `node` is a node of the map.
    pub fn contains_node(&self, node: NodeId) -> (b: bool)
        ensures
            b == self.spec_node_seq().contains(node.0),
    {
        node_table_contains(&self.nodes, node.0)
    }

    /// # Returns
    /// Number of nodes.
    pub fn node_count(&self) -> (n: usize)
        ensures
            n == self.spec_node_seq().len(),
    {
        node_table_len(&self.nodes)
    }

    /// # Returns
    /// The nodes, in the order they are kept.
    pub fn nodes(&self) -> (r: Vec<NodeId>)
        ensures
            r@ == self.spec_node_seq().map_values(|k: usize| NodeId(k)),
    {
        let keys = node_table_keys(&self.nodes);
        let mut r: Vec<NodeId> = Vec::new();
        let mut i: usize = 0;
        while i < keys.len()
            invariant
                i <= keys@.len(),
                keys@ == self.spec_node_seq(),
                r@ == keys@.take(i as int).map_values(|k: usize| NodeId(k)),
            decreases keys@.len() - i,
        {
            r.push(NodeId(keys[i]));
            i = i + 1;
            proof {
                assert(keys@.take(i as int).drop_last() =~= keys@.take(i - 1));
                assert(r@ =~= keys@.take(i as int).map_values(|k: usize| NodeId(k)));
            }
        }
        proof {
            assert(keys@.take(i as int) =~= keys@);
        }
        r
    }

    /// # Returns
    /// `true` if the map has an edge from `src_node` to `dst_node` (in either direction when
    /// undirected).
    pub fn contains_edge(&self, src_node: NodeId, dst_node: NodeId) -> (b: bool)
        ensures
            b == self.spec_edge_seq().contains(sorted_pair(Dir::spec_is_directed(), src_node.0, dst_node.0)),
    {
        let key = self.sort_nodes(src_node, dst_node);
        edge_table_contains(&self.edges, key)
    }

    /// # Returns
    /// `true` if there is an edge from `node` to `successor`.
    pub fn is_successor(&self, node: NodeId, successor: NodeId) -> (b: bool)
        ensures
            b == self.spec_edge_seq().contains(sorted_pair(Dir::spec_is_directed(), node.0, successor.0)),
    {
        let key = self.sort_nodes(node, successor);
        edge_table_contains(&self.edges, key)
    }

    /// # Returns
    /// `true` if there is an edge from `predecessor` to `node`.
    pub fn is_predecessor(&self, node: NodeId, predecessor: NodeId) -> (b: bool)
        ensures
            b == self.spec_edge_seq().contains(sorted_pair(Dir::spec_is_directed(), predecessor.0, node.0)),
    {
        let key = self.sort_nodes(predecessor, node);
        edge_table_contains(&self.edges, key)
    }

    /// # Returns
    /// Number of edges.
    pub fn edge_count(&self) -> (n: usize)
        ensures
            n == self.spec_edge_seq().len(),
    {
        edge_table_len(&self.edges)
    }

    /// # Returns
    /// The edges, in the order they are kept, each as its key.
    pub fn edges(&self) -> (r: Vec<(NodeId, NodeId)>)
        ensures
            r@ == self.spec_edge_seq().map_values(|p: (usize, usize)| (NodeId(p.0), NodeId(p.1))),
    {
        let items = edge_table_items(&self.edges);
        let mut r: Vec<(NodeId, NodeId)> = Vec::new();
        let mut i: usize = 0;
        while i < items.len()
            invariant
                i <= items@.len(),
                items@ == self.spec_edge_seq(),
                r@ == items@.take(i as int).map_values(|p: (usize, usize)| (NodeId(p.0), NodeId(p.1))),
            decreases items@.len() - i,
        {
            let (s, d) = items[i];
            r.push((NodeId(s), NodeId(d)));
            i = i + 1;
            proof {
                assert(items@.take(i as int).drop_last() =~= items@.take(i - 1));
                assert(r@ =~= items@.take(i as int).map_values(|p: (usize, usize)| (NodeId(p.0), NodeId(p.1))));
            }
        }
        proof {
            assert(items@.take(i as int) =~= items@);
        }
        r
    }

    /// # Returns
    /// The links of `node`, a node of the map.
    pub fn links(&self, node: NodeId) -> (r: &LinkList)
        requires
            self.wf(),
            self.spec_node_seq().contains(node.0),
        ensures
            r@ == self.spec_adj()[node.0],
    {
        let ghost e = self.spec_entries();
        let got = node_table_get(&self.nodes, node.0);
        proof {
            let l = got.unwrap();
            let i = choose|i: int| 0 <= i < e.len() && #[trigger] e[i].0 == node.0 && e[i].1 == l@;
            lemma_key_index(e, i);
        }
        got.unwrap()
    }

    /// Appends `link` to the links of `node`, a node of the map.
    fn push_link(&mut self, node: usize, link: (usize, Orientation))
        requires
            entry_keys(old(self).spec_entries()).no_duplicates(),
            old(self).spec_node_seq().contains(node),
        ensures
            final(self).spec_node_seq() == old(self).spec_node_seq(),
            final(self).spec_adj() == old(self).spec_adj().insert(node, old(self).spec_adj()[node].push(link)),
            final(self).edges == old(self).edges,
    {
        let ghost e = self.spec_entries();
        let r = node_table_get_mut(&mut self.nodes, node);
        match r {
            Some(l) => {
                let ghost i = choose|i: int| 0 <= i < e.len() && #[trigger] e[i].0 == node && e[i].1 == l@;
                proof {
                    assert forall|j: int| 0 <= j < e.len() && #[trigger] e[j].0 == node implies j == i by {
                        assert(entry_keys(e)[j] == e[j].0);
                        assert(entry_keys(e)[i] == e[i].0);
                    }
                }
                l.push(link);
                proof {
                    lemma_key_index(e, i);
                    lemma_adjacency_update(e, i, e[i].1.push(link));
                }
            }
            None => {}
        }
    }
}

impl<Dir: Direction> AdjMap<Dir> {
    /// Drops the links to `other` from the links of `node`, a node of the map.
    fn drop_links(&mut self, node: usize, other: usize)
        requires
            entry_keys(old(self).spec_entries()).no_duplicates(),
            old(self).spec_node_seq().contains(node),
        ensures
            final(self).spec_node_seq() == old(self).spec_node_seq(),
            final(self).spec_adj() == old(self).spec_adj().insert(node, links_without(old(self).spec_adj()[node], other)),
            final(self).edges == old(self).edges,
    {
        let ghost e = self.spec_entries();
        let r = node_table_get_mut(&mut self.nodes, node);
        match r {
            Some(l) => {
                let ghost i = choose|i: int| 0 <= i < e.len() && #[trigger] e[i].0 == node && e[i].1 == l@;
                proof {
                    assert forall|j: int| 0 <= j < e.len() && #[trigger] e[j].0 == node implies j == i by {
                        assert(entry_keys(e)[j] == e[j].0);
                        assert(entry_keys(e)[i] == e[i].0);
                    }
                }
                drop_links_to(l, other);
                proof {
                    lemma_key_index(e, i);
                    lemma_adjacency_update(e, i, links_without(e[i].1, other));
                }
            }
            None => {}
        }
    }

    /// Removes the edge from `src_node` to `dst_node` and the links between its ends. Both
    /// nodes and the edge must exist.
    pub fn del_edge(&mut self, src_node: NodeId, dst_node: NodeId)
        requires
            old(self).wf(),
            old(self).spec_node_seq().contains(src_node.0),
            old(self).spec_node_seq().contains(dst_node.0),
            old(self).spec_edge_seq().contains(sorted_pair(Dir::spec_is_directed(), src_node.0, dst_node.0)),
        ensures
            final(self).wf(),
            ({
                let (s, d) = sorted_pair(Dir::spec_is_directed(), src_node.0, dst_node.0);
                &&& final(self).spec_edge_seq() == seq_without(old(self).spec_edge_seq(), (s, d))
                &&& final(self).spec_node_seq() == old(self).spec_node_seq()
                &&& final(self).spec_adj() == without_edge_links(old(self).spec_adj(), s, d)
            }),
    {
        let ghost a = self.spec_adj();
        let ghost es = self.spec_edge_seq();
        let sorted = self.sort_nodes(src_node, dst_node);
        let (s, d) = sorted;
        proof {
            lemma_without_edge_links_wf(a, s, d);
        }
        let _ = edge_table_swap_remove(&mut self.edges, sorted);
        proof {
            let i = position(es, sorted);
            assert(0 <= i < es.len() && es[i] == sorted);
            assert forall|j: int| 0 <= j < es.len() && #[trigger] es[j] == sorted implies j == i by {}
            lemma_swap_removed_no_duplicates(es, i);
        }
        self.drop_links(s, d);
        if s != d {
            self.drop_links(d, s);
        }
        proof {
            assert(self.spec_adj() =~= without_edge_links(a, s, d));
        }
    }

    /// Removes `node`, which must exist, with its links, the links to it, and the edges that
    /// its links stand for.
    pub fn del_node(&mut self, node: NodeId)
        requires
            old(self).wf(),
            old(self).spec_node_seq().contains(node.0),
        ensures
            final(self).wf(),
            final(self).spec_node_seq() == swap_removed(old(self).spec_node_seq(), position(old(self).spec_node_seq(), node.0)),
            final(self).spec_adj() == without_node_links(old(self).spec_adj(), node.0),
            final(self).spec_edge_seq() == edges_without_links(
                old(self).spec_edge_seq(),
                node.0,
                old(self).spec_adj()[node.0],
                Dir::spec_is_directed(),
            ),
    {
        let ghost e = self.spec_entries();
        let ghost a = self.spec_adj();
        let ghost es = self.spec_edge_seq();
        let ghost n = node.0;
        let ghost ks = self.spec_node_seq();
        let removed = node_table_swap_remove(&mut self.nodes, node.0);
        let links: LinkList = match removed {
            Some(l) => l,
            None => Vec::new(),
        };
        proof {
            lemma_key_of_entry(e, n);
            let i = key_index(e, n);
            assert forall|j: int| 0 <= j < e.len() && #[trigger] e[j].0 == n implies j == i by {
                assert(entry_keys(e)[j] == e[j].0);
                assert(entry_keys(e)[i] == e[i].0);
            }
            lemma_key_index(e, i);
            lemma_adjacency_swap_remove(e, i);
            assert(links@ == a[n]);
            assert(position(ks, n) == i) by {
                let p = position(ks, n);
                assert(0 <= p < ks.len() && ks[p] == n);
                assert(ks[i] == n);
            }
            lemma_without_node_links_wf(a, n);
        }
        let directed = Dir::is_directed();
        let mut k: usize = 0;
        while k < links.len()
            invariant
                k <= links@.len(),
                n == node.0,
                links@ == a[n],
                a.contains_key(n),
                directed == Dir::spec_is_directed(),
                crate::storage::adj_map::table::links_closed(a),
                crate::storage::adj_map::table::links_symmetric(a),
                entry_keys(self.spec_entries()).no_duplicates(),
                self.spec_node_seq() == swap_removed(ks, position(ks, n)),
                self.spec_adj().dom() == a.dom().remove(n),
                forall|u: usize| #[trigger] self.spec_adj().contains_key(u) ==> self.spec_adj()[u] == (
                    if links_to(links@.take(k as int), u) { links_without(a[u], n) } else { a[u] }),
                self.spec_edge_seq() == edges_without_links(es, n, links@.take(k as int), directed),
                self.spec_edge_seq().no_duplicates(),
            decreases links@.len() - k,
        {
            let (neighbor, orientation) = links[k];
            let ghost before = self.spec_adj();
            proof {
                assert(links@[k as int] == a[n][k as int]);
                assert(a.contains_key(a[n][k as int].0));
                assert(links@.take(k + 1).drop_last() =~= links@.take(k as int));
                assert(links@.take(k + 1).last() == links@[k as int]);
                crate::storage::adj_map::links::lemma_links_to_push(links@.take(k as int), links@[k as int], neighbor);
                assert(links@.take(k + 1) =~= links@.take(k as int).push(links@[k as int]));
            }
            proof {
                assert((neighbor, orientation) == links@[k as int]);
                if neighbor != n {
                    assert(self.spec_adj().contains_key(neighbor));
                    assert(self.spec_node_seq().contains(neighbor));
                }
            }
            if neighbor != node.0 {
                self.drop_links(neighbor, node.0);
                proof {
                    lemma_links_without(a[neighbor], n);
                }
            }
            let edge = if directed {
                self.orient_nodes(node, NodeId(neighbor), orientation)
            } else {
                self.sort_nodes(node, NodeId(neighbor))
            };
            let ghost cur = self.spec_edge_seq();
            let _ = edge_table_swap_remove(&mut self.edges, edge);
            proof {
                if directed {
                    match orientation {
                        Orientation::Outgoing => assert(edge == link_edge(directed, n, links@[k as int])),
                        Orientation::Incoming => assert(edge == link_edge(directed, n, links@[k as int])),
                    }
                } else {
                    assert(edge == link_edge(directed, n, links@[k as int]));
                }
                if cur.contains(edge) {
                    let i = position(cur, edge);
                    assert(0 <= i < cur.len() && cur[i] == edge);
                    assert forall|j: int| 0 <= j < cur.len() && #[trigger] cur[j] == edge implies j == i by {}
                    lemma_swap_removed_no_duplicates(cur, i);
                }
                assert forall|u: usize| #[trigger] self.spec_adj().contains_key(u) implies self.spec_adj()[u] == (
                    if links_to(links@.take(k + 1), u) { links_without(a[u], n) } else { a[u] }) by {
                    crate::storage::adj_map::links::lemma_links_to_push(links@.take(k as int), links@[k as int], u);
                    lemma_links_without(a[u], n);
                }
            }
            k = k + 1;
        }
        proof {
            assert(links@.take(k as int) =~= links@);
            let target = without_node_links(a, n);
            assert forall|u: usize| #[trigger] self.spec_adj().contains_key(u) implies self.spec_adj()[u] == target[u] by {
                lemma_links_without(a[u], n);
                if !links_to(links@, u) {
                    assert(u != n);
                    assert(!links_to(a[u], n));
                }
            }
            assert(self.spec_adj() =~= target);
        }
    }

    /// The nodes of the links of `node` with orientation `orientation`, or of all its links
    /// when the map is undirected.
    fn oriented_nodes(&self, node: NodeId, orientation: Orientation) -> (r: Vec<NodeId>)
        requires
            self.wf(),
            self.spec_node_seq().contains(node.0),
        ensures
            r@ == oriented(self.spec_adj()[node.0], orientation, !Dir::spec_is_directed()),
    {
        let ghost e = self.spec_entries();
        let mut r: Vec<NodeId> = Vec::new();
        match node_table_get(&self.nodes, node.0) {
            Some(l) => {
                proof {
                    let i = choose|i: int| 0 <= i < e.len() && #[trigger] e[i].0 == node.0 && e[i].1 == l@;
                    lemma_key_index(e, i);
                }
                let ghost target = oriented(l@, orientation, !Dir::spec_is_directed());
                let mut walk: OrientedNeighbors<'_, Dir> = OrientedNeighbors::new(l, orientation);
                loop
                    invariant
                        walk.wf(),
                        r@ + walk.remaining() == target,
                    ensures
                        r@ == target,
                    decreases walk.remaining().len(),
                {
                    match walk.next() {
                        Some(n) => {
                            proof {
                                assert(r@.push(n) + walk.remaining() =~= r@ + seq![n].add(walk.remaining()));
                            }
                            r.push(n);
                        }
                        None => {
                            proof {
                                assert(r@ + walk.remaining() =~= r@);
                            }
                            break;
                        }
                    }
                }
            }
            None => {}
        }
        r
    }

    /// # Returns
    /// The nodes that `node`, a node of the map, has an edge to (all its neighbors when
    /// undirected), one per link.
    pub fn successors(&self, node: NodeId) -> (r: Vec<NodeId>)
        requires
            self.wf(),
            self.spec_node_seq().contains(node.0),
        ensures
            r@ == oriented(self.spec_adj()[node.0], Orientation::Outgoing, !Dir::spec_is_directed()),
    {
        self.oriented_nodes(node, Orientation::Outgoing)
    }

    /// # Returns
    /// The nodes that have an edge to `node`, a node of the map (all its neighbors when
    /// undirected), one per link.
    pub fn predecessors(&self, node: NodeId) -> (r: Vec<NodeId>)
        requires
            self.wf(),
            self.spec_node_seq().contains(node.0),
        ensures
            r@ == oriented(self.spec_adj()[node.0], Orientation::Incoming, !Dir::spec_is_directed()),
    {
        self.oriented_nodes(node, Orientation::Incoming)
    }

    /// # Returns
    /// The other ends of the edges into `node`, a node of the map, one per edge.
    pub fn incoming_edges(&self, node: NodeId) -> (r: Vec<NodeId>)
        requires
            self.wf(),
            self.spec_node_seq().contains(node.0),
        ensures
            r@ == oriented(self.spec_adj()[node.0], Orientation::Incoming, !Dir::spec_is_directed()),
    {
        self.oriented_nodes(node, Orientation::Incoming)
    }

    /// # Returns
    /// The other ends of the edges out of `node`, a node of the map, one per edge.
    pub fn outgoing_edges(&self, node: NodeId) -> (r: Vec<NodeId>)
        requires
            self.wf(),
            self.spec_node_seq().contains(node.0),
        ensures
            r@ == oriented(self.spec_adj()[node.0], Orientation::Outgoing, !Dir::spec_is_directed()),
    {
        self.oriented_nodes(node, Orientation::Outgoing)
    }

    /// # Returns
    /// Number of edges into `node`, a node of the map.
    pub fn in_degree(&self, node: NodeId) -> (n: usize)
        requires
            self.wf(),
            self.spec_node_seq().contains(node.0),
        ensures
            n == oriented(self.spec_adj()[node.0], Orientation::Incoming, !Dir::spec_is_directed()).len(),
    {
        self.incoming_edges(node).len()
    }

    /// # Returns
    /// Number of edges out of `node`, a node of the map.
    pub fn out_degree(&self, node: NodeId) -> (n: usize)
        requires
            self.wf(),
            self.spec_node_seq().contains(node.0),
        ensures
            n == oriented(self.spec_adj()[node.0], Orientation::Outgoing, !Dir::spec_is_directed()).len(),
    {
        self.outgoing_edges(node).len()
    }
}

/// Checked versions of the node and edge operations: each tests the nodes it is given, and
/// the edge where it matters, before it acts.
impl<Dir: Direction> AdjMap<Dir> {
    /// # Returns
    /// * `Ok`: The successors of `node`, as `successors` gives them.
    /// * `Err`: `InvalidNode(node)` if `node` is not a node of the map.
    pub fn successors_checked(&self, node: NodeId) -> (r: Result<Vec<NodeId>, ProviderError>)
        requires
            self.wf(),
        ensures
            r is Ok <==> self.spec_node_seq().contains(node.0),
            r matches Ok(v) ==> v@ == oriented(self.spec_adj()[node.0], Orientation::Outgoing, !Dir::spec_is_directed()),
            r matches Err(e) ==> e == ProviderError::InvalidNode(node),
    {
        if !self.contains_node(node) {
            Err(ProviderError::InvalidNode(node))
        } else {
            Ok(self.successors(node))
        }
    }

    /// # Returns
    /// * `Ok`: The predecessors of `node`, as `predecessors` gives them.
    /// * `Err`: `InvalidNode(node)` if `node` is not a node of the map.
    pub fn predecessors_checked(&self, node: NodeId) -> (r: Result<Vec<NodeId>, ProviderError>)
        requires
            self.wf(),
        ensures
            r is Ok <==> self.spec_node_seq().contains(node.0),
            r matches Ok(v) ==> v@ == oriented(self.spec_adj()[node.0], Orientation::Incoming, !Dir::spec_is_directed()),
            r matches Err(e) ==> e == ProviderError::InvalidNode(node),
    {
        if !self.contains_node(node) {
            Err(ProviderError::InvalidNode(node))
        } else {
            Ok(self.predecessors(node))
        }
    }

    /// # Returns
    /// * `Ok`: The other ends of the edges into `node`.
    /// * `Err`: `InvalidNode(node)` if `node` is not a node of the map.
    pub fn incoming_edges_checked(&self, node: NodeId) -> (r: Result<Vec<NodeId>, ProviderError>)
        requires
            self.wf(),
        ensures
            r is Ok <==> self.spec_node_seq().contains(node.0),
            r matches Ok(v) ==> v@ == oriented(self.spec_adj()[node.0], Orientation::Incoming, !Dir::spec_is_directed()),
            r matches Err(e) ==> e == ProviderError::InvalidNode(node),
    {
        if !self.contains_node(node) {
            Err(ProviderError::InvalidNode(node))
        } else {
            Ok(self.incoming_edges(node))
        }
    }

    /// # Returns
    /// * `Ok`: The other ends of the edges out of `node`.
    /// * `Err`: `InvalidNode(node)` if `node` is not a node of the map.
    pub fn outgoing_edges_checked(&self, node: NodeId) -> (r: Result<Vec<NodeId>, ProviderError>)
        requires
            self.wf(),
        ensures
            r is Ok <==> self.spec_node_seq().contains(node.0),
            r matches Ok(v) ==> v@ == oriented(self.spec_adj()[node.0], Orientation::Outgoing, !Dir::spec_is_directed()),
            r matches Err(e) ==> e == ProviderError::InvalidNode(node),
    {
        if !self.contains_node(node) {
            Err(ProviderError::InvalidNode(node))
        } else {
            Ok(self.outgoing_edges(node))
        }
    }

    /// # Returns
    /// * `Ok`: Number of edges into `node`.
    /// * `Err`: `InvalidNode(node)` if `node` is not a node of the map.
    pub fn in_degree_checked(&self, node: NodeId) -> (r: Result<usize, ProviderError>)
        requires
            self.wf(),
        ensures
            r is Ok <==> self.spec_node_seq().contains(node.0),
            r matches Ok(n) ==> n == oriented(self.spec_adj()[node.0], Orientation::Incoming, !Dir::spec_is_directed()).len(),
            r matches Err(e) ==> e == ProviderError::InvalidNode(node),
    {
        if !self.contains_node(node) {
            Err(ProviderError::InvalidNode(node))
        } else {
            Ok(self.in_degree(node))
        }
    }

    /// # Returns
    /// * `Ok`: Number of edges out of `node`.
    /// * `Err`: `InvalidNode(node)` if `node` is not a node of the map.
    pub fn out_degree_checked(&self, node: NodeId) -> (r: Result<usize, ProviderError>)
        requires
            self.wf(),
        ensures
            r is Ok <==> self.spec_node_seq().contains(node.0),
            r matches Ok(n) ==> n == oriented(self.spec_adj()[node.0], Orientation::Outgoing, !Dir::spec_is_directed()).len(),
            r matches Err(e) ==> e == ProviderError::InvalidNode(node),
    {
        if !self.contains_node(node) {
            Err(ProviderError::InvalidNode(node))
        } else {
            Ok(self.out_degree(node))
        }
    }

    /// # Returns
    /// * `Ok`: Whether there is an edge from `node` to `successor`.
    /// * `Err`: `InvalidNode` of the first of `node`, `successor` that is not a node.
    pub fn is_successor_checked(&self, node: NodeId, successor: NodeId) -> (r: Result<bool, ProviderError>)
        ensures
            r is Ok <==> self.spec_node_seq().contains(node.0) && self.spec_node_seq().contains(successor.0),
            r matches Ok(b) ==> b == self.spec_edge_seq().contains(sorted_pair(Dir::spec_is_directed(), node.0, successor.0)),
            r matches Err(e) ==> e == ProviderError::InvalidNode(
                if !self.spec_node_seq().contains(node.0) { node } else { successor },
            ),
    {
        if !self.contains_node(node) {
            Err(ProviderError::InvalidNode(node))
        } else if !self.contains_node(successor) {
            Err(ProviderError::InvalidNode(successor))
        } else {
            Ok(self.is_successor(node, successor))
        }
    }

    /// # Returns
    /// * `Ok`: Whether there is an edge from `predecessor` to `node`.
    /// * `Err`: `InvalidNode` of the first of `node`, `predecessor` that is not a node.
    pub fn is_predecessor_checked(&self, node: NodeId, predecessor: NodeId) -> (r: Result<bool, ProviderError>)
        ensures
            r is Ok <==> self.spec_node_seq().contains(node.0) && self.spec_node_seq().contains(predecessor.0),
            r matches Ok(b) ==> b == self.spec_edge_seq().contains(sorted_pair(Dir::spec_is_directed(), predecessor.0, node.0)),
            r matches Err(e) ==> e == ProviderError::InvalidNode(
                if !self.spec_node_seq().contains(node.0) { node } else { predecessor },
            ),
    {
        if !self.contains_node(node) {
            Err(ProviderError::InvalidNode(node))
        } else if !self.contains_node(predecessor) {
            Err(ProviderError::InvalidNode(predecessor))
        } else {
            Ok(self.is_predecessor(node, predecessor))
        }
    }

    /// # Returns
    /// * `Ok`: Whether there is an edge from `src_node` to `dst_node`.
    /// * `Err`: `InvalidNode` of the first of `src_node`, `dst_node` that is not a node.
    pub fn contains_edge_checked(&self, src_node: NodeId, dst_node: NodeId) -> (r: Result<bool, ProviderError>)
        ensures
            r is Ok <==> self.spec_node_seq().contains(src_node.0) && self.spec_node_seq().contains(dst_node.0),
            r matches Ok(b) ==> b == self.spec_edge_seq().contains(sorted_pair(Dir::spec_is_directed(), src_node.0, dst_node.0)),
            r matches Err(e) ==> e == ProviderError::InvalidNode(
                if !self.spec_node_seq().contains(src_node.0) { src_node } else { dst_node },
            ),
    {
        if !self.contains_node(src_node) {
            Err(ProviderError::InvalidNode(src_node))
        } else if !self.contains_node(dst_node) {
            Err(ProviderError::InvalidNode(dst_node))
        } else {
            Ok(self.contains_edge(src_node, dst_node))
        }
    }

    /// Adds `node` unless it exists.
    ///
    /// # Returns
    /// * `Ok`: If `node` was added, as `add_node` adds it.
    /// * `Err`: `DuplicatedNode(node)` otherwise; nothing changes then.
    pub fn add_node_checked(&mut self, node: NodeId) -> (r: Result<(), ProviderError>)
        requires
            old(self).wf(),
        ensures
            final(self).wf(),
            r is Ok <==> !old(self).spec_node_seq().contains(node.0),
            r is Ok ==> final(self).spec_node_seq() == old(self).spec_node_seq().push(node.0)
                && final(self).spec_adj() == old(self).spec_adj().insert(node.0, Seq::empty())
                && final(self).spec_edge_seq() == old(self).spec_edge_seq(),
            r matches Err(e) ==> e == ProviderError::DuplicatedNode(node) && *final(self) == *old(self),
    {
        if self.contains_node(node) {
            Err(ProviderError::DuplicatedNode(node))
        } else {
            proof {
                assert(!self.spec_nodes().contains(node));
            }
            self.add_node(node);
            Ok(())
        }
    }

    /// Deletes `node` if it exists.
    ///
    /// # Returns
    /// * `Ok`: If `node` was deleted, as `del_node` deletes it.
    /// * `Err`: `NodeDoesNotExist(node)` otherwise; nothing changes then.
    pub fn del_node_checked(&mut self, node: NodeId) -> (r: Result<(), ProviderError>)
        requires
            old(self).wf(),
        ensures
            final(self).wf(),
            r is Ok <==> old(self).spec_node_seq().contains(node.0),
            r is Ok ==> final(self).spec_node_seq() == swap_removed(old(self).spec_node_seq(), position(old(self).spec_node_seq(), node.0))
                && final(self).spec_adj() == without_node_links(old(self).spec_adj(), node.0)
                && final(self).spec_edge_seq() == edges_without_links(
                    old(self).spec_edge_seq(),
                    node.0,
                    old(self).spec_adj()[node.0],
                    Dir::spec_is_directed(),
                ),
            r matches Err(e) ==> e == ProviderError::NodeDoesNotExist(node) && *final(self) == *old(self),
    {
        if !self.contains_node(node) {
            Err(ProviderError::NodeDoesNotExist(node))
        } else {
            self.del_node(node);
            Ok(())
        }
    }

    /// Adds the edge from `src_node` to `dst_node` if both nodes exist and the edge does not.
    ///
    /// # Returns
    /// * `Ok`: If the edge was added, as `add_edge` adds it.
    /// * `Err`: `InvalidNode` of the first of `src_node`, `dst_node` that is not a node, else
    ///   `MultiEdge(src_node, dst_node)` if the edge exists; nothing changes then.
    pub fn add_edge_checked(&mut self, src_node: NodeId, dst_node: NodeId) -> (r: Result<(), ProviderError>)
        requires
            old(self).wf(),
        ensures
            final(self).wf(),
            ({
                let (s, d) = sorted_pair(Dir::spec_is_directed(), src_node.0, dst_node.0);
                let valid = old(self).spec_node_seq().contains(src_node.0) && old(self).spec_node_seq().contains(dst_node.0);
                &&& r is Ok <==> valid && !old(self).spec_edge_seq().contains((s, d))
                &&& r is Ok ==> final(self).spec_edge_seq() == old(self).spec_edge_seq().push((s, d))
                    && final(self).spec_node_seq() == old(self).spec_node_seq()
                    && final(self).spec_adj() == with_edge_links(old(self).spec_adj(), s, d)
                &&& r matches Err(e) ==> *final(self) == *old(self) && e == (
                    if !old(self).spec_node_seq().contains(src_node.0) {
                        ProviderError::InvalidNode(src_node)
                    } else if !old(self).spec_node_seq().contains(dst_node.0) {
                        ProviderError::InvalidNode(dst_node)
                    } else {
                        ProviderError::MultiEdge(src_node, dst_node)
                    })
            }),
    {
        if !self.contains_node(src_node) {
            Err(ProviderError::InvalidNode(src_node))
        } else if !self.contains_node(dst_node) {
            Err(ProviderError::InvalidNode(dst_node))
        } else if self.contains_edge(src_node, dst_node) {
            Err(ProviderError::MultiEdge(src_node, dst_node))
        } else {
            proof {
                assert(self.spec_nodes().contains(src_node));
                assert(self.spec_nodes().contains(dst_node));
                assert(!self.spec_edges().contains(edge_key(Dir::spec_is_directed(), src_node, dst_node)));
            }
            self.add_edge(src_node, dst_node);
            Ok(())
        }
    }

    /// Deletes the edge from `src_node` to `dst_node` if both nodes and the edge exist.
    ///
    /// # Returns
    /// * `Ok`: If the edge was deleted, as `del_edge` deletes it.
    /// * `Err`: `InvalidNode` of the first of `src_node`, `dst_node` that is not a node, else
    ///   `EdgeDoesNotExist(src_node, dst_node)` if there is no such edge; nothing changes then.
    pub fn del_edge_checked(&mut self, src_node: NodeId, dst_node: NodeId) -> (r: Result<(), ProviderError>)
        requires
            old(self).wf(),
        ensures
            final(self).wf(),
            ({
                let (s, d) = sorted_pair(Dir::spec_is_directed(), src_node.0, dst_node.0);
                let valid = old(self).spec_node_seq().contains(src_node.0) && old(self).spec_node_seq().contains(dst_node.0);
                &&& r is Ok <==> valid && old(self).spec_edge_seq().contains((s, d))
                &&& r is Ok ==> final(self).spec_edge_seq() == seq_without(old(self).spec_edge_seq(), (s, d))
                    && final(self).spec_node_seq() == old(self).spec_node_seq()
                    && final(self).spec_adj() == without_edge_links(old(self).spec_adj(), s, d)
                &&& r matches Err(e) ==> *final(self) == *old(self) && e == (
                    if !old(self).spec_node_seq().contains(src_node.0) {
                        ProviderError::InvalidNode(src_node)
                    } else if !old(self).spec_node_seq().contains(dst_node.0) {
                        ProviderError::InvalidNode(dst_node)
                    } else {
                        ProviderError::EdgeDoesNotExist(src_node, dst_node)
                    })
            }),
    {
        if !self.contains_node(src_node) {
            Err(ProviderError::InvalidNode(src_node))
        } else if !self.contains_node(dst_node) {
            Err(ProviderError::InvalidNode(dst_node))
        } else if !self.contains_edge(src_node, dst_node) {
            Err(ProviderError::EdgeDoesNotExist(src_node, dst_node))
        } else {
            self.del_edge(src_node, dst_node);
            Ok(())
        }
    }
}

impl<Dir: Direction> Clone for AdjMap<Dir> {
    /// # Returns
    /// A map with the same nodes, links and edges, in the same order.
    fn clone(&self) -> (c: Self)
        ensures
            c.spec_node_seq() == self.spec_node_seq(),
            c.spec_adj() == self.spec_adj(),
            c.spec_edge_seq() == self.spec_edge_seq(),
            self.wf() ==> c.wf(),
    {
        AdjMap {
            nodes: node_table_clone(&self.nodes),
            edges: edge_table_clone(&self.edges),
            phantom_dir: PhantomData,
        }
    }
}

impl<Dir: Direction> Storage for AdjMap<Dir> {
    type Dir = Dir;

    open spec fn spec_wf(&self) -> bool {
        self.wf()
    }

    open spec fn spec_nodes(&self) -> Set<NodeId> {
        Set::new(|n: NodeId| self.spec_node_seq().contains(n.0))
    }

    open spec fn spec_edges(&self) -> Set<(NodeId, NodeId)> {
        Set::new(|p: (NodeId, NodeId)| self.spec_edge_seq().contains((p.0.0, p.1.0)))
    }
}

impl<Dir: Direction> EmptyStorage for AdjMap<Dir> {
    fn init() -> (s: Self)
        ensures
            s.spec_node_seq() == Seq::<usize>::empty(),
            s.spec_edge_seq() == Seq::<(usize, usize)>::empty(),
    {
        let s = AdjMap { nodes: node_table_new(), edges: edge_table_new(), phantom_dir: PhantomData };
        proof {
            assert(s.spec_node_seq() =~= Seq::<usize>::empty());
            assert(s.spec_nodes() =~= Set::<NodeId>::empty());
            assert(s.spec_edges() =~= Set::<(NodeId, NodeId)>::empty());
        }
        s
    }
}

impl<Dir: Direction> AddNode for AdjMap<Dir> {
    /// Adds `node` without links, after the nodes already kept.
    fn add_node(&mut self, node: NodeId)
        ensures
            final(self).spec_node_seq() == old(self).spec_node_seq().push(node.0),
            final(self).spec_adj() == old(self).spec_adj().insert(node.0, Seq::empty()),
            final(self).spec_edge_seq() == old(self).spec_edge_seq(),
    {
        let ghost e = self.spec_entries();
        let ghost a = self.spec_adj();
        proof {
            assert(!self.spec_node_seq().contains(node.0)) by {
                if self.spec_node_seq().contains(node.0) {
                    assert(old(self).spec_nodes().contains(node));
                }
            }
        }
        let links: LinkList = Vec::new();
        let _ = node_table_insert(&mut self.nodes, node.0, links);
        proof {
            let empty: Seq<(usize, Orientation)> = Seq::empty();
            assert(links@ =~= empty);
            lemma_adjacency_push(e, node.0, empty);
            lemma_add_isolated_wf(a, node.0);
            assert(final(self).spec_nodes() =~= old(self).spec_nodes().insert(node)) by {
                assert forall|n: NodeId| final(self).spec_nodes().contains(n) <==> old(self).spec_nodes().insert(node).contains(n) by {
                    let ks = entry_keys(e);
                    if ks.push(node.0).contains(n.0) {
                        let j = choose|j: int| 0 <= j < ks.len() + 1 && ks.push(node.0)[j] == n.0;
                        if j < ks.len() {
                            assert(ks[j] == n.0);
                        }
                    }
                    if ks.contains(n.0) {
                        let j = choose|j: int| 0 <= j < ks.len() && ks[j] == n.0;
                        assert(ks.push(node.0)[j] == n.0);
                    }
                    if n == node {
                        assert(ks.push(node.0)[ks.len() as int] == n.0);
                    }
                }
            }
            assert(final(self).spec_edges() =~= old(self).spec_edges());
        }
    }
}

impl<Dir: Direction> AddEdge for AdjMap<Dir> {
    /// Adds the edge from `src_node` to `dst_node` after the edges already kept, and links
    /// its ends.
    fn add_edge(&mut self, src_node: NodeId, dst_node: NodeId)
        ensures
            ({
                let (s, d) = sorted_pair(Dir::spec_is_directed(), src_node.0, dst_node.0);
                &&& final(self).spec_edge_seq() == old(self).spec_edge_seq().push((s, d))
                &&& final(self).spec_node_seq() == old(self).spec_node_seq()
                &&& final(self).spec_adj() == with_edge_links(old(self).spec_adj(), s, d)
            }),
    {
        let ghost a = self.spec_adj();
        let sorted = self.sort_nodes(src_node, dst_node);
        let (s, d) = sorted;
        proof {
            assert(old(self).spec_nodes().contains(src_node));
            assert(old(self).spec_nodes().contains(dst_node));
            assert(!self.spec_edge_seq().contains(sorted)) by {
                if self.spec_edge_seq().contains(sorted) {
                    let key = edge_key(Dir::spec_is_directed(), src_node, dst_node);
                    assert(old(self).spec_edges().contains(key));
                }
            }
            lemma_with_edge_links_wf(a, s, d);
        }
        let _ = edge_table_insert(&mut self.edges, sorted);
        self.push_link(s, (d, Orientation::Outgoing));
        if s != d {
            self.push_link(d, (s, Orientation::Incoming));
        }
        proof {
            assert(final(self).spec_adj() =~= with_edge_links(a, s, d));
            let key = edge_key(Dir::spec_is_directed(), src_node, dst_node);
            assert(final(self).spec_nodes() =~= old(self).spec_nodes());
            assert(final(self).spec_edges() =~= old(self).spec_edges().insert(key)) by {
                let es = old(self).spec_edge_seq();
                assert forall|p: (NodeId, NodeId)| final(self).spec_edges().contains(p) <==> old(self).spec_edges().insert(key).contains(p) by {
                    let q = (p.0.0, p.1.0);
                    if es.push(sorted).contains(q) {
                        let j = choose|j: int| 0 <= j < es.len() + 1 && es.push(sorted)[j] == q;
                        if j < es.len() {
                            assert(es[j] == q);
                        }
                    }
                    if es.contains(q) {
                        let j = choose|j: int| 0 <= j < es.len() && es[j] == q;
                        assert(es.push(sorted)[j] == q);
                    }
                    if p == key {
                        assert(es.push(sorted)[es.len() as int] == q);
                    }
                }
            }
        }
    }
}

/// Adding a node and deleting it again gives back the nodes, in order, the links, and the
/// edges of before.
pub proof fn lemma_add_then_del_node(
    nodes: Seq<usize>,
    a: Adjacency,
    edges: Seq<(usize, usize)>,
    n: usize,
    directed: bool,
)
    requires
        nodes.no_duplicates(),
        !nodes.contains(n),
        crate::storage::adj_map::table::links_closed(a),
        !a.contains_key(n),
    ensures
        swap_removed(nodes.push(n), position(nodes.push(n), n)) == nodes,
        without_node_links(a.insert(n, Seq::empty()), n) == a,
        edges_without_links(edges, n, Seq::empty(), directed) == edges,
{
    let ks = nodes.push(n);
    let p = position(ks, n);
    assert(ks[nodes.len() as int] == n);
    assert(0 <= p < ks.len() && ks[p] == n);
    if p < nodes.len() {
        assert(nodes[p] == n);
    }
    assert(swap_removed(ks, p) =~= nodes);
    let b = without_node_links(a.insert(n, Seq::empty()), n);
    assert forall|u: usize| #[trigger] b.contains_key(u) implies b[u] == a[u] by {
        lemma_links_without(a[u], n);
        if links_to(a[u], n) {
            let k = choose|k: int| 0 <= k < a[u].len() && (#[trigger] a[u][k]).0 == n;
            assert(a.contains_key(a[u][k].0));
        }
    }
    assert(b =~= a);
}

/// Adding an edge between two nodes that have no links to each other and deleting it again
/// gives back the links and the edges, in order, of before.
pub proof fn lemma_add_then_del_edge(a: Adjacency, edges: Seq<(usize, usize)>, s: usize, d: usize)
    requires
        a.contains_key(s),
        a.contains_key(d),
        !links_to(a[s], d),
        !links_to(a[d], s),
        edges.no_duplicates(),
        !edges.contains((s, d)),
    ensures
        without_edge_links(with_edge_links(a, s, d), s, d) == a,
        seq_without(edges.push((s, d)), (s, d)) == edges,
{
    let pushed = edges.push((s, d));
    let p = position(pushed, (s, d));
    assert(pushed[edges.len() as int] == (s, d));
    assert(pushed.contains((s, d)));
    assert(0 <= p < pushed.len() && pushed[p] == (s, d));
    if p < edges.len() {
        assert(edges[p] == (s, d));
    }
    assert(swap_removed(pushed, p) =~= edges);
    let a1 = a.insert(s, a[s].push((d, Orientation::Outgoing)));
    crate::storage::adj_map::links::lemma_links_to_push(a[s], (d, Orientation::Outgoing), d);
    let ls = a[s].push((d, Orientation::Outgoing));
    assert(ls.drop_last() =~= a[s]);
    assert(links_without(ls, d) == links_without(a[s], d));
    lemma_links_without(a[s], d);
    if s != d {
        let ld = a1[d].push((s, Orientation::Incoming));
        assert(a1[d] == a[d]);
        assert(ld.drop_last() =~= a[d]);
        assert(links_without(ld, s) == links_without(a[d], s));
        lemma_links_without(a[d], s);
    }
    assert(without_edge_links(with_edge_links(a, s, d), s, d) =~= a);
}

} // verus!
