use vstd::prelude::*;

use crate::provide::Orientation;
use crate::storage::adj_map::index::{entry_keys, swap_removed};
use crate::storage::adj_map::links::links_to;

verus! {

/// Entries of a node table: each node with its links.
pub type Entries = Seq<(usize, Seq<(usize, Orientation)>)>;

/// Position of the entry with key `k`.
pub open spec fn key_index(e: Entries, k: usize) -> int {
    choose|i: int| 0 <= i < e.len() && (#[trigger] e[i]).0 == k
}

/// The entries as a map from node to links.
pub open spec fn adjacency(e: Entries) -> Map<usize, Seq<(usize, Orientation)>> {
    Map::new(|k: usize| entry_keys(e).contains(k), |k: usize| e[key_index(e, k)].1)
}

/// Every link points to a node of the map.
pub open spec fn links_closed(a: Map<usize, Seq<(usize, Orientation)>>) -> bool {
    forall|u: usize, k: int| a.contains_key(u) && 0 <= k < a[u].len() ==> a.contains_key(#[trigger] a[u][k].0)
}

/// Two distinct nodes link to each other or not at all.
pub open spec fn links_symmetric(a: Map<usize, Seq<(usize, Orientation)>>) -> bool {
    forall|u: usize, v: usize| #![trigger links_to(a[u], v)]
        a.contains_key(u) && a.contains_key(v) && u != v ==> (links_to(a[u], v) <==> links_to(a[v], u))
}

/// The node table invariant: keys are distinct, links point to nodes, and links come in
/// pairs.
pub open spec fn table_wf(e: Entries) -> bool {
    &&& entry_keys(e).no_duplicates()
    &&& links_closed(adjacency(e))
    &&& links_symmetric(adjacency(e))
}

/// With distinct keys, the entry with key `e[i].0` is at `i`.
pub proof fn lemma_key_index(e: Entries, i: int)
    requires
        entry_keys(e).no_duplicates(),
        0 <= i < e.len(),
    ensures
        key_index(e, e[i].0) == i,
        adjacency(e).contains_key(e[i].0),
        adjacency(e)[e[i].0] == e[i].1,
{
    let k = e[i].0;
    assert(entry_keys(e)[i] == k);
    let j = key_index(e, k);
    assert(0 <= j < e.len() && e[j].0 == k);
    assert(entry_keys(e)[j] == k);
}

/// A key of the map is the key of some entry.
pub proof fn lemma_key_of_entry(e: Entries, k: usize)
    requires
        entry_keys(e).contains(k),
    ensures
        0 <= key_index(e, k) < e.len(),
        e[key_index(e, k)].0 == k,
{
    let i = choose|i: int| 0 <= i < entry_keys(e).len() && entry_keys(e)[i] == k;
    assert(e[i].0 == k);
}

/// Replacing the links of an entry replaces them in the map and keeps the keys.
pub proof fn lemma_adjacency_update(e: Entries, i: int, l: Seq<(usize, Orientation)>)
    requires
        entry_keys(e).no_duplicates(),
        0 <= i < e.len(),
    ensures
        entry_keys(e.update(i, (e[i].0, l))) == entry_keys(e),
        adjacency(e.update(i, (e[i].0, l))) == adjacency(e).insert(e[i].0, l),
{
    let e2 = e.update(i, (e[i].0, l));
    assert(entry_keys(e2) =~= entry_keys(e));
    let a = adjacency(e);
    let a2 = adjacency(e2);
    lemma_key_index(e2, i);
    assert forall|k: usize| #[trigger] a2.contains_key(k) implies a2[k] == a.insert(e[i].0, l)[k] by {
        lemma_key_of_entry(e2, k);
        let j = key_index(e2, k);
        if j != i {
            lemma_key_index(e, j);
            lemma_key_index(e2, j);
        }
    }
    assert(a2 =~= a.insert(e[i].0, l));
}

/// Appending an entry with a new key adds it to the map and to the keys.
pub proof fn lemma_adjacency_push(e: Entries, k: usize, l: Seq<(usize, Orientation)>)
    requires
        entry_keys(e).no_duplicates(),
        !entry_keys(e).contains(k),
    ensures
        entry_keys(e.push((k, l))) == entry_keys(e).push(k),
        entry_keys(e.push((k, l))).no_duplicates(),
        adjacency(e.push((k, l))) == adjacency(e).insert(k, l),
{
    let e2 = e.push((k, l));
    assert(entry_keys(e2) =~= entry_keys(e).push(k));
    let a = adjacency(e);
    let a2 = adjacency(e2);
    lemma_key_index(e2, e.len() as int);
    assert forall|m: usize| #[trigger] a2.contains_key(m) <==> a.insert(k, l).contains_key(m) by {
        let ks = entry_keys(e);
        let ks2 = entry_keys(e2);
        if ks2.contains(m) {
            let j = choose|j: int| 0 <= j < ks2.len() && ks2[j] == m;
            if j < ks.len() {
                assert(ks[j] == m);
            }
        }
        if ks.contains(m) {
            let j = choose|j: int| 0 <= j < ks.len() && ks[j] == m;
            assert(ks2[j] == m);
        }
        if m == k {
            assert(ks2[ks.len() as int] == m);
        }
    }
    assert forall|m: usize| #[trigger] a2.contains_key(m) implies a2[m] == a.insert(k, l)[m] by {
        lemma_key_of_entry(e2, m);
        let j = key_index(e2, m);
        if j != e.len() {
            lemma_key_index(e, j);
            lemma_key_index(e2, j);
        }
    }
    assert(a2 =~= a.insert(k, l));
}

/// Swap-removing an entry removes its key from the map and from the keys.
pub proof fn lemma_adjacency_swap_remove(e: Entries, i: int)
    requires
        entry_keys(e).no_duplicates(),
        0 <= i < e.len(),
    ensures
        entry_keys(swap_removed(e, i)) == swap_removed(entry_keys(e), i),
        entry_keys(swap_removed(e, i)).no_duplicates(),
        adjacency(swap_removed(e, i)) == adjacency(e).remove(e[i].0),
{
    let e2 = swap_removed(e, i);
    let ks = entry_keys(e);
    assert(entry_keys(e2) =~= swap_removed(ks, i));
    lemma_swap_removed_no_duplicates(ks, i);
    let a = adjacency(e);
    let a2 = adjacency(e2);
    assert forall|m: usize| #[trigger] a2.contains_key(m) <==> a.remove(e[i].0).contains_key(m) by {
        if a2.contains_key(m) {
            lemma_key_of_entry(e2, m);
            let j = key_index(e2, m);
            if j == i {
                assert(e2[j] == e[e.len() - 1]);
                assert(ks[e.len() - 1] == m);
                assert(ks[i] != ks[e.len() - 1]);
            } else {
                assert(e2[j] == e[j]);
                assert(ks[j] == m);
                assert(ks[i] != ks[j]);
            }
        }
        if a.remove(e[i].0).contains_key(m) {
            lemma_key_of_entry(e, m);
            let j = key_index(e, m);
            assert(j != i);
            if j == e.len() - 1 {
                assert(e2[i] == e[j]);
                assert(entry_keys(e2)[i] == m);
            } else {
                assert(e2[j] == e[j]);
                assert(entry_keys(e2)[j] == m);
            }
        }
    }
    assert forall|m: usize| #[trigger] a2.contains_key(m) implies a2[m] == a.remove(e[i].0)[m] by {
        lemma_key_of_entry(e2, m);
        let j = key_index(e2, m);
        lemma_key_index(e2, j);
        if j == i {
            lemma_key_index(e, e.len() - 1);
        } else {
            lemma_key_index(e, j);
        }
    }
    assert(a2 =~= a.remove(e[i].0));
}

/// Swap-removing keeps a sequence free of duplicates, and removes exactly the element at `i`
/// from its members.
pub proof fn lemma_swap_removed_no_duplicates<T>(s: Seq<T>, i: int)
    requires
        s.no_duplicates(),
        0 <= i < s.len(),
    ensures
        swap_removed(s, i).no_duplicates(),
        swap_removed(s, i).len() == s.len() - 1,
        forall|x: T| #[trigger] swap_removed(s, i).contains(x) <==> (s.contains(x) && x != s[i]),
{
    let r = swap_removed(s, i);
    let last = s.len() - 1;
    assert forall|a: int, b: int| 0 <= a < b < r.len() implies r[a] != r[b] by {
        if a == i {
            assert(r[a] == s[last]);
            assert(r[b] == s[b]);
        } else if b == i {
            assert(r[b] == s[last]);
            assert(r[a] == s[a]);
        } else {
            assert(r[a] == s[a]);
            assert(r[b] == s[b]);
        }
    }
    assert forall|x: T| #[trigger] r.contains(x) <==> (s.contains(x) && x != s[i]) by {
        if r.contains(x) {
            let a = choose|a: int| 0 <= a < r.len() && r[a] == x;
            if a == i {
                assert(s[last] == x);
            } else {
                assert(s[a] == x);
            }
        }
        if s.contains(x) && x != s[i] {
            let a = choose|a: int| 0 <= a < s.len() && s[a] == x;
            assert(a != i);
            if a == last {
                assert(r[i] == x);
            } else {
                assert(r[a] == x);
            }
        }
    }
}

} // verus!
