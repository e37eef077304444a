use vstd::prelude::*;

use indexmap::{IndexMap, IndexSet};

use crate::provide::Orientation;

verus! {

/// `indexmap::IndexMap`, held opaque; its contents are named by `node_entries`.
#[verifier::external_type_specification]
#[verifier::external_body]
#[verifier::reject_recursive_types(K)]
#[verifier::reject_recursive_types(V)]
#[verifier::reject_recursive_types(S)]
pub struct ExIndexMap<K, V, S>(IndexMap<K, V, S>);

/// `indexmap::IndexSet`, held opaque; its contents are named by `edge_entries`.
#[verifier::external_type_specification]
#[verifier::external_body]
#[verifier::reject_recursive_types(T)]
#[verifier::reject_recursive_types(S)]
pub struct ExIndexSet<T, S>(IndexSet<T, S>);

/// A node's links: the other end of each edge at the node, and which end the node is.
pub type LinkList = Vec<(usize, Orientation)>;

/// The node table of an adjacency map.
pub type NodeTable = IndexMap<usize, LinkList>;

/// The edge table of an adjacency map.
pub type EdgeTable = IndexSet<(usize, usize)>;

/// The entries of a node table, in the table's order: each key with its value.
pub uninterp spec fn node_entries(m: NodeTable) -> Seq<(usize, Seq<(usize, Orientation)>)>;

/// The elements of an edge table, in the table's order.
pub uninterp spec fn edge_entries(s: EdgeTable) -> Seq<(usize, usize)>;

/// `s` with the element at `i` replaced by the last one and the last one dropped, as
/// `Vec::swap_remove` leaves it.
pub open spec fn swap_removed<T>(s: Seq<T>, i: int) -> Seq<T> {
    s.update(i, s.last()).drop_last()
}

/// The keys of the entries.
pub open spec fn entry_keys(e: Seq<(usize, Seq<(usize, Orientation)>)>) -> Seq<usize> {
    e.map_values(|p: (usize, Seq<(usize, Orientation)>)| p.0)
}

/// `IndexMap::new`: the new map is empty.
#[verifier::external_body]
pub(crate) fn node_table_new() -> (m: NodeTable)
    ensures
        node_entries(m) == Seq::<(usize, Seq<(usize, Orientation)>)>::empty(),
{
    IndexMap::new()
}

/// `IndexMap::len`: the number of entries.
#[verifier::external_body]
pub(crate) fn node_table_len(m: &NodeTable) -> (n: usize)
    ensures
        n == node_entries(*m).len(),
{
    m.len()
}

/// `IndexMap::contains_key`: whether an entry has key `k`.
#[verifier::external_body]
pub(crate) fn node_table_contains(m: &NodeTable, k: usize) -> (b: bool)
    ensures
        b == entry_keys(node_entries(*m)).contains(k),
{
    m.contains_key(&k)
}

/// `IndexMap::get`: the value of an entry with key `k`, if there is one.
#[verifier::external_body]
pub(crate) fn node_table_get(m: &NodeTable, k: usize) -> (r: Option<&LinkList>)
    ensures
        r is Some <==> entry_keys(node_entries(*m)).contains(k),
        r matches Some(v) ==> exists|i: int|
            0 <= i < node_entries(*m).len() && #[trigger] node_entries(*m)[i].0 == k
                && node_entries(*m)[i].1 == v@,
{
    m.get(&k)
}

/// `IndexMap::get_mut`: the value of an entry with key `k`, if there is one, to be changed
/// in place; the entry keeps its key and position.
#[verifier::external_body]
pub(crate) fn node_table_get_mut(m: &mut NodeTable, k: usize) -> (r: Option<&mut LinkList>)
    ensures
        r is Some <==> entry_keys(node_entries(*old(m))).contains(k),
        r is None ==> node_entries(*final(m)) == node_entries(*old(m)),
        r matches Some(v) ==> exists|i: int|
            0 <= i < node_entries(*old(m)).len() && #[trigger] node_entries(*old(m))[i].0 == k
                && node_entries(*old(m))[i].1 == v@
                && node_entries(*final(m)) == node_entries(*old(m)).update(i, (k, final(v)@)),
{
    m.get_mut(&k)
}

/// `IndexMap::insert`: a new key is appended last with its value and `None` is returned; an
/// existing key keeps its position, gets the new value, and its old value is returned.
#[verifier::external_body]
pub(crate) fn node_table_insert(m: &mut NodeTable, k: usize, v: LinkList) -> (r: Option<LinkList>)
    ensures
        !entry_keys(node_entries(*old(m))).contains(k) ==> r is None
            && node_entries(*final(m)) == node_entries(*old(m)).push((k, v@)),
        entry_keys(node_entries(*old(m))).contains(k) ==> r is Some && exists|i: int|
            0 <= i < node_entries(*old(m)).len() && #[trigger] node_entries(*old(m))[i].0 == k
                && r.unwrap()@ == node_entries(*old(m))[i].1
                && node_entries(*final(m)) == node_entries(*old(m)).update(i, (k, v@)),
{
    m.insert(k, v)
}

/// `IndexMap::swap_remove`: removes an entry with key `k`, moving the last entry into its
/// place, and returns its value; `None`, with the map unchanged, where there is none.
#[verifier::external_body]
pub(crate) fn node_table_swap_remove(m: &mut NodeTable, k: usize) -> (r: Option<LinkList>)
    ensures
        r is Some <==> entry_keys(node_entries(*old(m))).contains(k),
        r is None ==> node_entries(*final(m)) == node_entries(*old(m)),
        r matches Some(v) ==> exists|i: int|
            0 <= i < node_entries(*old(m)).len() && #[trigger] node_entries(*old(m))[i].0 == k
                && node_entries(*old(m))[i].1 == v@
                && node_entries(*final(m)) == swap_removed(node_entries(*old(m)), i),
{
    m.swap_remove(&k)
}

/// `IndexMap::keys`: the keys, in the map's order.
#[verifier::external_body]
pub(crate) fn node_table_keys(m: &NodeTable) -> (r: Vec<usize>)
    ensures
        r@ == entry_keys(node_entries(*m)),
{
    m.keys().copied().collect()
}

/// `IndexSet::new`: the new set is empty.
#[verifier::external_body]
pub(crate) fn edge_table_new() -> (s: EdgeTable)
    ensures
        edge_entries(s) == Seq::<(usize, usize)>::empty(),
{
    IndexSet::new()
}

/// `IndexSet::len`: the number of elements.
#[verifier::external_body]
pub(crate) fn edge_table_len(s: &EdgeTable) -> (n: usize)
    ensures
        n == edge_entries(*s).len(),
{
    s.len()
}

/// `IndexSet::contains`: whether `x` is an element.
#[verifier::external_body]
pub(crate) fn edge_table_contains(s: &EdgeTable, x: (usize, usize)) -> (b: bool)
    ensures
        b == edge_entries(*s).contains(x),
{
    s.contains(&x)
}

/// `IndexSet::insert`: a new element is appended last and `true` is returned; an existing
/// one leaves the set unchanged and `false` is returned.
#[verifier::external_body]
pub(crate) fn edge_table_insert(s: &mut EdgeTable, x: (usize, usize)) -> (b: bool)
    ensures
        b == !edge_entries(*old(s)).contains(x),
        b ==> edge_entries(*final(s)) == edge_entries(*old(s)).push(x),
        !b ==> edge_entries(*final(s)) == edge_entries(*old(s)),
{
    s.insert(x)
}

/// `IndexSet::swap_remove`: removes `x`, moving the last element into its place, and
/// returns `true`; `false`, with the set unchanged, where `x` is not an element.
#[verifier::external_body]
pub(crate) fn edge_table_swap_remove(s: &mut EdgeTable, x: (usize, usize)) -> (b: bool)
    ensures
        b == edge_entries(*old(s)).contains(x),
        !b ==> edge_entries(*final(s)) == edge_entries(*old(s)),
        b ==> exists|i: int|
            0 <= i < edge_entries(*old(s)).len() && #[trigger] edge_entries(*old(s))[i] == x
                && edge_entries(*final(s)) == swap_removed(edge_entries(*old(s)), i),
{
    s.swap_remove(&x)
}

/// `IndexSet::iter`: the elements, in the set's order.
#[verifier::external_body]
pub(crate) fn edge_table_items(s: &EdgeTable) -> (r: Vec<(usize, usize)>)
    ensures
        r@ == edge_entries(*s),
{
    s.iter().copied().collect()
}

/// `IndexMap::clone`: the copy has the same entries in the same order (keys and links are
/// plain values, copied as they are).
#[verifier::external_body]
pub(crate) fn node_table_clone(m: &NodeTable) -> (c: NodeTable)
    ensures
        node_entries(c) == node_entries(*m),
{
    m.clone()
}

/// `IndexSet::clone`: the copy has the same elements in the same order.
#[verifier::external_body]
pub(crate) fn edge_table_clone(s: &EdgeTable) -> (c: EdgeTable)
    ensures
        edge_entries(c) == edge_entries(*s),
{
    s.clone()
}

} // verus!
