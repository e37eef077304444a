use vstd::prelude::*;

use crate::provide::Orientation;
use crate::storage::adj_map::links::{lemma_links_to_push, lemma_links_without, links_to, links_without};
use crate::storage::adj_map::table::{links_closed, links_symmetric};

verus! {

/// A node map.
pub type Adjacency = Map<usize, Seq<(usize, Orientation)>>;

/// The map after linking `s` to `d` (outgoing) and `d` to `s` (incoming, unless it is a
/// self loop).
pub open spec fn with_edge_links(a: Adjacency, s: usize, d: usize) -> Adjacency {
    let a1 = a.insert(s, a[s].push((d, Orientation::Outgoing)));
    if s == d {
        a1
    } else {
        a1.insert(d, a1[d].push((s, Orientation::Incoming)))
    }
}

/// The map after dropping the links between `s` and `d` at both ends.
pub open spec fn without_edge_links(a: Adjacency, s: usize, d: usize) -> Adjacency {
    let a1 = a.insert(s, links_without(a[s], d));
    if s == d {
        a1
    } else {
        a1.insert(d, links_without(a1[d], s))
    }
}

/// The map after removing node `n` and every link to it.
pub open spec fn without_node_links(a: Adjacency, n: usize) -> Adjacency {
    a.remove(n).map_values(|l: Seq<(usize, Orientation)>| links_without(l, n))
}

/// A new node without links keeps the map closed and symmetric.
pub proof fn lemma_add_isolated_wf(a: Adjacency, k: usize)
    requires
        links_closed(a),
        links_symmetric(a),
        !a.contains_key(k),
    ensures
        links_closed(a.insert(k, Seq::empty())),
        links_symmetric(a.insert(k, Seq::empty())),
{
    let a2 = a.insert(k, Seq::empty());
    assert forall|u: usize, v: usize| #![trigger links_to(a2[u], v)]
        a2.contains_key(u) && a2.contains_key(v) && u != v implies (links_to(a2[u], v) <==> links_to(a2[v], u)) by {
        if u == k {
            assert(!links_to(a2[u], v));
            if links_to(a[v], u) {
                let j = choose|j: int| 0 <= j < a[v].len() && (#[trigger] a[v][j]).0 == u;
                assert(a.contains_key(a[v][j].0));
            }
        } else if v == k {
            assert(!links_to(a2[v], u));
            if links_to(a[u], v) {
                let j = choose|j: int| 0 <= j < a[u].len() && (#[trigger] a[u][j]).0 == v;
                assert(a.contains_key(a[u][j].0));
            }
        } else {
            assert(links_to(a[u], v) <==> links_to(a[v], u));
        }
    }
}

/// Linking two nodes of a closed and symmetric map keeps it so.
pub proof fn lemma_with_edge_links_wf(a: Adjacency, s: usize, d: usize)
    requires
        links_closed(a),
        links_symmetric(a),
        a.contains_key(s),
        a.contains_key(d),
    ensures
        links_closed(with_edge_links(a, s, d)),
        links_symmetric(with_edge_links(a, s, d)),
        with_edge_links(a, s, d).dom() == a.dom(),
{
    let a2 = with_edge_links(a, s, d);
    assert(a2.dom() =~= a.dom());
    assert forall|u: usize, k: int| a2.contains_key(u) && 0 <= k < a2[u].len() implies a2.contains_key(#[trigger] a2[u][k].0) by {
        if k < a[u].len() {
            assert(a2[u][k] == a[u][k]);
        }
    }
    assert forall|u: usize, v: usize| #![trigger links_to(a2[u], v)]
        a2.contains_key(u) && a2.contains_key(v) && u != v implies (links_to(a2[u], v) <==> links_to(a2[v], u)) by {
        assert(links_to(a[u], v) <==> links_to(a[v], u));
        if u == s {
            lemma_links_to_push(a[s], (d, Orientation::Outgoing), v);
        }
        if u == d && s != d {
            lemma_links_to_push(a[d], (s, Orientation::Incoming), v);
        }
        if v == s {
            lemma_links_to_push(a[s], (d, Orientation::Outgoing), u);
        }
        if v == d && s != d {
            lemma_links_to_push(a[d], (s, Orientation::Incoming), u);
        }
    }
}

/// Unlinking two nodes of a closed and symmetric map keeps it so.
pub proof fn lemma_without_edge_links_wf(a: Adjacency, s: usize, d: usize)
    requires
        links_closed(a),
        links_symmetric(a),
        a.contains_key(s),
        a.contains_key(d),
    ensures
        links_closed(without_edge_links(a, s, d)),
        links_symmetric(without_edge_links(a, s, d)),
        without_edge_links(a, s, d).dom() == a.dom(),
{
    let a2 = without_edge_links(a, s, d);
    lemma_links_without(a[s], d);
    lemma_links_without(a[d], s);
    assert(a2.dom() =~= a.dom());
    assert forall|u: usize, k: int| a2.contains_key(u) && 0 <= k < a2[u].len() implies a2.contains_key(#[trigger] a2[u][k].0) by {
        let x = a2[u][k];
        assert(a2[u].contains(x));
        if u == s || u == d {
            assert(a[u].contains(x));
            let j = choose|j: int| 0 <= j < a[u].len() && a[u][j] == x;
            assert(a.contains_key(a[u][j].0));
        }
    }
    assert forall|u: usize, v: usize| #![trigger links_to(a2[u], v)]
        a2.contains_key(u) && a2.contains_key(v) && u != v implies (links_to(a2[u], v) <==> links_to(a2[v], u)) by {
        assert(links_to(a[u], v) <==> links_to(a[v], u));
    }
}

/// Removing a node and every link to it keeps a closed and symmetric map so.
pub proof fn lemma_without_node_links_wf(a: Adjacency, n: usize)
    requires
        links_closed(a),
        links_symmetric(a),
    ensures
        links_closed(without_node_links(a, n)),
        links_symmetric(without_node_links(a, n)),
        without_node_links(a, n).dom() == a.dom().remove(n),
{
    let a2 = without_node_links(a, n);
    assert(a2.dom() =~= a.dom().remove(n));
    assert forall|u: usize, k: int| a2.contains_key(u) && 0 <= k < a2[u].len() implies a2.contains_key(#[trigger] a2[u][k].0) by {
        lemma_links_without(a[u], n);
        let x = a2[u][k];
        assert(a2[u].contains(x));
        assert(a[u].contains(x));
        let j = choose|j: int| 0 <= j < a[u].len() && a[u][j] == x;
        assert(a.contains_key(a[u][j].0));
    }
    assert forall|u: usize, v: usize| #![trigger links_to(a2[u], v)]
        a2.contains_key(u) && a2.contains_key(v) && u != v implies (links_to(a2[u], v) <==> links_to(a2[v], u)) by {
        lemma_links_without(a[u], n);
        lemma_links_without(a[v], n);
        assert(links_to(a[u], v) <==> links_to(a[v], u));
    }
}

} // verus!
