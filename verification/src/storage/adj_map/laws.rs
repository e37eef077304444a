use vstd::prelude::*;

use crate::provide::{NodeId, Orientation};
use crate::storage::adj_map::iters::oriented;
use crate::storage::adj_map::graph_wf::{with_edge_links, without_edge_links, without_node_links, Adjacency};
use crate::storage::adj_map::links::{lemma_links_without, links_without};
use crate::storage::adj_map::table::lemma_swap_removed_no_duplicates;
use crate::storage::adj_map::{edges_without_links, link_edge, position, seq_without, sorted_pair};

verus! {

/// The links mirror the edges: an edge `(s, d)` has the link `(d, Outgoing)` at `s` and,
/// unless it is a self loop, `(s, Incoming)` at `d`; every link is one of these; no node
/// holds a link twice; and an undirected map keeps each edge with its smaller node first.
pub open spec fn mirrors(a: Adjacency, e: Seq<(usize, usize)>, directed: bool) -> bool {
    &&& forall|u: usize| #[trigger] a.contains_key(u) ==> a[u].no_duplicates()
    &&& forall|u: usize, x: usize|
        a.contains_key(u) && #[trigger] a[u].contains((x, Orientation::Outgoing)) ==> e.contains((u, x))
    &&& forall|u: usize, x: usize|
        a.contains_key(u) && #[trigger] a[u].contains((x, Orientation::Incoming)) ==> e.contains((x, u)) && x != u
    &&& forall|s: usize, d: usize| #[trigger] e.contains((s, d)) ==> {
        &&& a.contains_key(s)
        &&& a.contains_key(d)
        &&& a[s].contains((d, Orientation::Outgoing))
        &&& (s != d ==> a[d].contains((s, Orientation::Incoming)))
    }
    &&& !directed ==> forall|s: usize, d: usize| #[trigger] e.contains((s, d)) ==> s <= d
}

/// Whether the edge `(s, d)` has `n` as an end.
pub open spec fn touches(edge: (usize, usize), n: usize) -> bool {
    edge.0 == n || edge.1 == n
}

proof fn lemma_push_contains<T>(l: Seq<T>, x: T, y: T)
    ensures
        l.push(x).contains(y) <==> (l.contains(y) || y == x),
{
    if l.push(x).contains(y) {
        let k = choose|k: int| 0 <= k < l.len() + 1 && l.push(x)[k] == y;
        if k < l.len() {
            assert(l[k] == y);
        }
    }
    if l.contains(y) {
        let k = choose|k: int| 0 <= k < l.len() && l[k] == y;
        assert(l.push(x)[k] == y);
    }
    if y == x {
        assert(l.push(x)[l.len() as int] == y);
    }
}

proof fn lemma_push_no_duplicates<T>(l: Seq<T>, x: T)
    requires
        l.no_duplicates(),
        !l.contains(x),
    ensures
        l.push(x).no_duplicates(),
{
    let p = l.push(x);
    assert forall|i: int, j: int| 0 <= i < j < p.len() implies p[i] != p[j] by {
        if j == l.len() {
            assert(p[i] == l[i]);
        } else {
            assert(p[i] == l[i] && p[j] == l[j]);
        }
    }
}

proof fn lemma_links_without_no_duplicates(l: Seq<(usize, Orientation)>, n: usize)
    requires
        l.no_duplicates(),
    ensures
        links_without(l, n).no_duplicates(),
    decreases l.len(),
{
    if l.len() > 0 {
        let prev = l.drop_last();
        assert(prev.no_duplicates()) by {
            assert forall|i: int, j: int| 0 <= i < j < prev.len() implies prev[i] != prev[j] by {
                assert(prev[i] == l[i] && prev[j] == l[j]);
            }
        }
        lemma_links_without_no_duplicates(prev, n);
        if l.last().0 != n {
            lemma_links_without(prev, n);
            assert(!prev.contains(l.last())) by {
                if prev.contains(l.last()) {
                    let k = choose|k: int| 0 <= k < prev.len() && prev[k] == l.last();
                    assert(l[k] == l[l.len() - 1]);
                }
            }
            lemma_push_no_duplicates(links_without(prev, n), l.last());
        }
    }
}

/// Swap-removing the edges of a node's links, one by one, leaves exactly the edges that are
/// the edge of no link, each still once.
pub proof fn lemma_edges_without_links(e: Seq<(usize, usize)>, n: usize, links: Seq<(usize, Orientation)>, directed: bool)
    requires
        e.no_duplicates(),
    ensures
        edges_without_links(e, n, links, directed).no_duplicates(),
        forall|y: (usize, usize)| #[trigger] edges_without_links(e, n, links, directed).contains(y) <==>
            (e.contains(y) && !(exists|k: int| 0 <= k < links.len() && link_edge(directed, n, #[trigger] links[k]) == y)),
    decreases links.len(),
{
    if links.len() > 0 {
        let prev_links = links.drop_last();
        lemma_edges_without_links(e, n, prev_links, directed);
        let prev = edges_without_links(e, n, prev_links, directed);
        let x = link_edge(directed, n, links.last());
        if prev.contains(x) {
            let p = position(prev, x);
            assert(0 <= p < prev.len() && prev[p] == x);
            lemma_swap_removed_no_duplicates(prev, p);
        }
        let r = edges_without_links(e, n, links, directed);
        assert forall|y: (usize, usize)| #[trigger] r.contains(y) <==>
            (e.contains(y) && !(exists|k: int| 0 <= k < links.len() && link_edge(directed, n, #[trigger] links[k]) == y)) by {
            if exists|k: int| 0 <= k < links.len() && link_edge(directed, n, #[trigger] links[k]) == y {
                let k = choose|k: int| 0 <= k < links.len() && link_edge(directed, n, #[trigger] links[k]) == y;
                if k < prev_links.len() {
                    assert(prev_links[k] == links[k]);
                }
            }
            if exists|k: int| 0 <= k < prev_links.len() && link_edge(directed, n, #[trigger] prev_links[k]) == y {
                let k = choose|k: int| 0 <= k < prev_links.len() && link_edge(directed, n, #[trigger] prev_links[k]) == y;
                assert(prev_links[k] == links[k]);
            }
            assert(links[links.len() - 1] == links.last());
        }
    }
}

/// A new map mirrors its edges.
pub proof fn lemma_mirrors_empty(directed: bool)
    ensures
        mirrors(Map::empty(), Seq::empty(), directed),
{
}

/// Adding a node keeps the links mirroring the edges.
pub proof fn lemma_mirrors_add_node(a: Adjacency, e: Seq<(usize, usize)>, directed: bool, n: usize)
    requires
        mirrors(a, e, directed),
        !a.contains_key(n),
    ensures
        mirrors(a.insert(n, Seq::empty()), e, directed),
{
    let a2 = a.insert(n, Seq::empty());
    assert forall|u: usize| #[trigger] a2.contains_key(u) implies a2[u].no_duplicates() by {
        if u != n {
            assert(a.contains_key(u));
        }
    }
}

/// Adding an edge that is not there yet, between two nodes, keeps the links mirroring the
/// edges.
pub proof fn lemma_mirrors_add_edge(a: Adjacency, e: Seq<(usize, usize)>, directed: bool, src: usize, dst: usize)
    requires
        mirrors(a, e, directed),
        a.contains_key(src),
        a.contains_key(dst),
        !e.contains(sorted_pair(directed, src, dst)),
    ensures
        ({
            let (s, d) = sorted_pair(directed, src, dst);
            mirrors(with_edge_links(a, s, d), e.push((s, d)), directed)
        }),
{
    let (s, d) = sorted_pair(directed, src, dst);
    let a2 = with_edge_links(a, s, d);
    let e2 = e.push((s, d));
    let out = (d, Orientation::Outgoing);
    let inc = (s, Orientation::Incoming);
    assert(!a[s].contains(out));
    assert(s != d ==> !a[d].contains(inc));
    assert(a2[s] == a[s].push(out));
    assert(s != d ==> a2[d] == a[d].push(inc));
    assert forall|y: (usize, usize)| #[trigger] e2.contains(y) <==> (e.contains(y) || y == (s, d)) by {
        lemma_push_contains(e, (s, d), y);
    }
    assert forall|u: usize| #[trigger] a2.contains_key(u) implies a2[u].no_duplicates() by {
        if u == s {
            lemma_push_no_duplicates(a[s], out);
        } else if u == d {
            lemma_push_no_duplicates(a[d], inc);
        }
    }
    assert forall|u: usize, l: (usize, Orientation)| a2.contains_key(u) && #[trigger] a2[u].contains(l) implies
        a[u].contains(l) || (u == s && l == out) || (u == d && s != d && l == inc) by {
        if u == s {
            lemma_push_contains(a[s], out, l);
        } else if u == d {
            lemma_push_contains(a[d], inc, l);
        }
    }
    assert forall|u: usize, l: (usize, Orientation)| a.contains_key(u) && #[trigger] a[u].contains(l) implies a2[u].contains(l) by {
        if u == s {
            lemma_push_contains(a[s], out, l);
        } else if u == d {
            lemma_push_contains(a[d], inc, l);
        }
    }
    assert(a2[s].contains(out)) by {
        lemma_push_contains(a[s], out, out);
    }
    assert(s != d ==> a2[d].contains(inc)) by {
        if s != d {
            lemma_push_contains(a[d], inc, inc);
        }
    }
}

/// Deleting an edge keeps the links mirroring the edges, unless the map is directed and
/// holds the reverse edge too: the links between the two nodes all go then, the reverse
/// edge's included.
pub proof fn lemma_mirrors_del_edge(a: Adjacency, e: Seq<(usize, usize)>, directed: bool, src: usize, dst: usize)
    requires
        mirrors(a, e, directed),
        e.no_duplicates(),
        e.contains(sorted_pair(directed, src, dst)),
        directed && src != dst ==> !e.contains((dst, src)),
    ensures
        ({
            let (s, d) = sorted_pair(directed, src, dst);
            mirrors(without_edge_links(a, s, d), seq_without(e, (s, d)), directed)
        }),
{
    let (s, d) = sorted_pair(directed, src, dst);
    let a2 = without_edge_links(a, s, d);
    let e2 = seq_without(e, (s, d));
    let p = position(e, (s, d));
    assert(0 <= p < e.len() && e[p] == (s, d));
    lemma_swap_removed_no_duplicates(e, p);
    lemma_links_without(a[s], d);
    lemma_links_without(a[d], s);
    assert(a2[s] == links_without(a[s], d));
    assert(s != d ==> a2[d] == links_without(a[d], s));
    assert(!e.contains((d, s)) || s == d) by {
        if !directed && e.contains((d, s)) {
            assert(d <= s);
        }
    }
    assert forall|u: usize| #[trigger] a2.contains_key(u) implies a2[u].no_duplicates() by {
        if u == s {
            lemma_links_without_no_duplicates(a[s], d);
        } else if u == d {
            lemma_links_without_no_duplicates(a[d], s);
        }
    }
}

/// Deleting a node keeps the links mirroring the edges, and leaves exactly the edges that do
/// not have the node as an end.
pub proof fn lemma_mirrors_del_node(a: Adjacency, e: Seq<(usize, usize)>, directed: bool, n: usize)
    requires
        mirrors(a, e, directed),
        e.no_duplicates(),
        a.contains_key(n),
    ensures
        mirrors(without_node_links(a, n), edges_without_links(e, n, a[n], directed), directed),
        forall|y: (usize, usize)| #[trigger] edges_without_links(e, n, a[n], directed).contains(y) <==>
            (e.contains(y) && !touches(y, n)),
{
    let links = a[n];
    let a2 = without_node_links(a, n);
    let e2 = edges_without_links(e, n, links, directed);
    lemma_edges_without_links(e, n, links, directed);
    assert forall|y: (usize, usize)| #[trigger] e2.contains(y) <==> (e.contains(y) && !touches(y, n)) by {
        if e.contains(y) && touches(y, n) {
            let (p, q) = y;
            if p == n {
                assert(links.contains((q, Orientation::Outgoing)));
                let k = choose|k: int| 0 <= k < links.len() && links[k] == (q, Orientation::Outgoing);
                assert(link_edge(directed, n, links[k]) == y);
            } else {
                assert(links.contains((p, Orientation::Incoming)));
                let k = choose|k: int| 0 <= k < links.len() && links[k] == (p, Orientation::Incoming);
                assert(link_edge(directed, n, links[k]) == y);
            }
        }
        if exists|k: int| 0 <= k < links.len() && link_edge(directed, n, #[trigger] links[k]) == y {
            let k = choose|k: int| 0 <= k < links.len() && link_edge(directed, n, #[trigger] links[k]) == y;
            let l = links[k];
            assert(links.contains(l));
            match l.1 {
                Orientation::Outgoing => {
                    assert(e.contains((n, l.0)));
                }
                Orientation::Incoming => {
                    assert(e.contains((l.0, n)));
                }
            }
        }
    }
    assert forall|u: usize| #[trigger] a2.contains_key(u) implies a2[u].no_duplicates() by {
        lemma_links_without_no_duplicates(a[u], n);
    }
    assert forall|u: usize, l: (usize, Orientation)| a2.contains_key(u) && #[trigger] a2[u].contains(l) implies
        a[u].contains(l) && l.0 != n by {
        lemma_links_without(a[u], n);
    }
    assert forall|s: usize, d: usize| #[trigger] e2.contains((s, d)) implies {
        &&& a2.contains_key(s)
        &&& a2.contains_key(d)
        &&& a2[s].contains((d, Orientation::Outgoing))
        &&& (s != d ==> a2[d].contains((s, Orientation::Incoming)))
    } by {
        lemma_links_without(a[s], n);
        lemma_links_without(a[d], n);
    }
}

/// A node is among the oriented nodes of `l` exactly when some link of `l` to it qualifies.
pub proof fn lemma_oriented_contains(l: Seq<(usize, Orientation)>, o: Orientation, any: bool, n: usize)
    ensures
        oriented(l, o, any).contains(NodeId(n)) <==>
            exists|k: int| 0 <= k < l.len() && (#[trigger] l[k]).0 == n && (any || l[k].1 == o),
    decreases l.len(),
{
    if l.len() > 0 {
        let rest = l.drop_first();
        lemma_oriented_contains(rest, o, any, n);
        let r = oriented(rest, o, any);
        if any || l[0].1 == o {
            lemma_push_front_contains(r, NodeId(l[0].0), NodeId(n));
        }
        if exists|k: int| 0 <= k < rest.len() && (#[trigger] rest[k]).0 == n && (any || rest[k].1 == o) {
            let k = choose|k: int| 0 <= k < rest.len() && (#[trigger] rest[k]).0 == n && (any || rest[k].1 == o);
            assert(l[k + 1] == rest[k]);
        }
        if exists|k: int| 0 <= k < l.len() && (#[trigger] l[k]).0 == n && (any || l[k].1 == o) {
            let k = choose|k: int| 0 <= k < l.len() && (#[trigger] l[k]).0 == n && (any || l[k].1 == o);
            if k > 0 {
                assert(rest[k - 1] == l[k]);
            }
        }
    }
}

proof fn lemma_push_front_contains<T>(r: Seq<T>, x: T, y: T)
    ensures
        seq![x].add(r).contains(y) <==> (y == x || r.contains(y)),
{
    let p = seq![x].add(r);
    if p.contains(y) {
        let k = choose|k: int| 0 <= k < p.len() && p[k] == y;
        if k > 0 {
            assert(r[k - 1] == y);
        }
    }
    if r.contains(y) {
        let k = choose|k: int| 0 <= k < r.len() && r[k] == y;
        assert(p[k + 1] == y);
    }
    if y == x {
        assert(p[0] == y);
    }
}

/// On a map whose links mirror its edges, the neighbors that the links give are the ends of
/// the edges: in a directed map, the successors of `u` are the nodes `u` has an edge to, and
/// its predecessors the other nodes that have an edge to `u`; in an undirected map, both are
/// the nodes that share an edge with `u`.
pub proof fn lemma_neighbors_mirror_edges(a: Adjacency, e: Seq<(usize, usize)>, directed: bool, u: usize, v: usize)
    requires
        mirrors(a, e, directed),
        a.contains_key(u),
    ensures
        directed ==> (oriented(a[u], Orientation::Outgoing, false).contains(NodeId(v)) <==> e.contains((u, v))),
        directed ==> (oriented(a[u], Orientation::Incoming, false).contains(NodeId(v)) <==> (e.contains((v, u)) && v != u)),
        !directed ==> (oriented(a[u], Orientation::Outgoing, true).contains(NodeId(v)) <==> e.contains(sorted_pair(false, u, v))),
        !directed ==> (oriented(a[u], Orientation::Incoming, true).contains(NodeId(v)) <==> e.contains(sorted_pair(false, u, v))),
{
    let l = a[u];
    let out = (v, Orientation::Outgoing);
    let inc = (v, Orientation::Incoming);
    lemma_oriented_contains(l, Orientation::Outgoing, !directed, v);
    lemma_oriented_contains(l, Orientation::Incoming, !directed, v);
    assert forall|k: int| 0 <= k < l.len() && (#[trigger] l[k]).0 == v implies l[k] == out || l[k] == inc by {
        match l[k].1 {
            Orientation::Outgoing => {}
            Orientation::Incoming => {}
        }
    }
    if l.contains(out) {
        let k = choose|k: int| 0 <= k < l.len() && l[k] == out;
        assert(l[k].0 == v);
    }
    if l.contains(inc) {
        let k = choose|k: int| 0 <= k < l.len() && l[k] == inc;
        assert(l[k].0 == v);
    }
    assert((exists|k: int| 0 <= k < l.len() && (#[trigger] l[k]).0 == v && l[k].1 == Orientation::Outgoing) <==> l.contains(out));
    assert((exists|k: int| 0 <= k < l.len() && (#[trigger] l[k]).0 == v && l[k].1 == Orientation::Incoming) <==> l.contains(inc));
    if !directed {
        if e.contains(sorted_pair(false, u, v)) {
            if u <= v {
                assert(l.contains(out));
            } else {
                assert(l.contains(inc));
            }
        }
        if l.contains(inc) {
            assert(e.contains((v, u)));
            assert(v <= u);
        }
        if l.contains(out) {
            assert(e.contains((u, v)));
            assert(u <= v);
        }
    }
}

/// Appending a link appends its node to the oriented nodes when the link qualifies.
pub proof fn lemma_oriented_push(l: Seq<(usize, Orientation)>, x: (usize, Orientation), o: Orientation, any: bool)
    ensures
        oriented(l.push(x), o, any) == oriented(l, o, any) + (if any || x.1 == o {
            seq![NodeId(x.0)]
        } else {
            Seq::<NodeId>::empty()
        }),
    decreases l.len(),
{
    let tail = if any || x.1 == o { seq![NodeId(x.0)] } else { Seq::<NodeId>::empty() };
    if l.len() == 0 {
        let e = Seq::<(usize, Orientation)>::empty();
        assert(l.push(x).drop_first() =~= e);
        assert(oriented(e, o, any) == Seq::<NodeId>::empty());
        assert(l.push(x)[0] == x);
        assert(oriented(l.push(x), o, any) =~= tail);
    } else {
        let rest = l.drop_first();
        lemma_oriented_push(rest, x, o, any);
        assert(l.push(x).drop_first() =~= rest.push(x));
        assert(l.push(x)[0] == l[0]);
        if any || l[0].1 == o {
            assert(oriented(l.push(x), o, any) =~= seq![NodeId(l[0].0)].add(oriented(rest, o, any) + tail));
        } else {
            assert(oriented(l.push(x), o, any) =~= oriented(rest, o, any) + tail);
        }
    }
}

/// Adding an edge between two different nodes `s` and `d` gives `s` one more successor, `d`,
/// at the end of its successors (so one more outgoing edge), and `d` one more predecessor,
/// `s` (so one more incoming edge); when undirected, each also becomes a neighbor of the other
/// both ways.
pub proof fn lemma_add_edge_degrees(a: Adjacency, s: usize, d: usize, directed: bool)
    requires
        a.contains_key(s),
        a.contains_key(d),
        s != d,
    ensures
        ({
            let b = with_edge_links(a, s, d);
            &&& oriented(b[s], Orientation::Outgoing, !directed)
                == oriented(a[s], Orientation::Outgoing, !directed).push(NodeId(d))
            &&& oriented(b[d], Orientation::Incoming, !directed)
                == oriented(a[d], Orientation::Incoming, !directed).push(NodeId(s))
            &&& !directed ==> oriented(b[s], Orientation::Incoming, true)
                == oriented(a[s], Orientation::Incoming, true).push(NodeId(d))
            &&& !directed ==> oriented(b[d], Orientation::Outgoing, true)
                == oriented(a[d], Orientation::Outgoing, true).push(NodeId(s))
            &&& directed ==> oriented(b[s], Orientation::Incoming, false) == oriented(a[s], Orientation::Incoming, false)
            &&& directed ==> oriented(b[d], Orientation::Outgoing, false) == oriented(a[d], Orientation::Outgoing, false)
            &&& forall|u: usize| u != s && u != d ==> #[trigger] b[u] == a[u]
        }),
{
    let b = with_edge_links(a, s, d);
    assert(b[s] == a[s].push((d, Orientation::Outgoing)));
    assert(b[d] == a[d].push((s, Orientation::Incoming)));
    lemma_oriented_push(a[s], (d, Orientation::Outgoing), Orientation::Outgoing, !directed);
    lemma_oriented_push(a[d], (s, Orientation::Incoming), Orientation::Incoming, !directed);
    lemma_oriented_push(a[s], (d, Orientation::Outgoing), Orientation::Incoming, !directed);
    lemma_oriented_push(a[d], (s, Orientation::Incoming), Orientation::Outgoing, !directed);
    assert(seq![NodeId(d)] =~= Seq::<NodeId>::empty().push(NodeId(d)));
    assert(oriented(a[s], Orientation::Outgoing, !directed) + seq![NodeId(d)]
        =~= oriented(a[s], Orientation::Outgoing, !directed).push(NodeId(d)));
    assert(oriented(a[d], Orientation::Incoming, !directed) + seq![NodeId(s)]
        =~= oriented(a[d], Orientation::Incoming, !directed).push(NodeId(s)));
    assert(oriented(a[s], Orientation::Incoming, !directed) + seq![NodeId(d)]
        =~= oriented(a[s], Orientation::Incoming, !directed).push(NodeId(d)));
    assert(oriented(a[d], Orientation::Outgoing, !directed) + seq![NodeId(s)]
        =~= oriented(a[d], Orientation::Outgoing, !directed).push(NodeId(s)));
    assert(oriented(a[s], Orientation::Incoming, !directed) + Seq::<NodeId>::empty()
        =~= oriented(a[s], Orientation::Incoming, !directed));
    assert(oriented(a[d], Orientation::Outgoing, !directed) + Seq::<NodeId>::empty()
        =~= oriented(a[d], Orientation::Outgoing, !directed));
}

} // verus!
