use vstd::prelude::*;
use std::collections::HashSet;
use core::marker::PhantomData;

use crate::graph::{DefaultEdge, DirectedEdge, Edge, EdgeDir, UndirectedEdge};
use crate::storage::ids::take_any;
use crate::storage::Error;
use crate::storage::adj_matrix::{deref_edges, deref_pairs, deref_triples, lemma_upper_from, upper_triples};
use crate::storage::counting::{
    count_eq, count_gt, count_lt, flip, lemma_counts_add, lemma_counts_partition, lemma_pair_sum_congruent_on,
    lemma_pair_sum_swap, lemma_upper_counts, pair_sum, row_sum,
};

verus! {

broadcast use vstd::std_specs::hash::group_hash_axioms;

/// An adjacency list that uses undirected default edges.
pub type List<W, Dir = UndirectedEdge> = AdjList<W, DefaultEdge<W>, Dir>;

/// An adjacency list that uses directed default edges.
pub type DiList<W> = AdjList<W, DefaultEdge<W>, DirectedEdge>;

/// `AdjList` is a collection of unordered lists used to represent a finite graph. Each list
/// describes the neighbors of a vertex, as `(dst_id, edge)` pairs.
///
/// |V| is the number of lists: removing a vertex keeps its list, and the id is reused by a
/// later `add_vertex`. A directed list stores |V| + |E| elements; an undirected one stores
/// each edge at both ends (a self loop twice in one list), so |V| + 2|E| elements.
///
/// The model: the present vertices `spec_vertices()`, the list of vertex `v`
/// `spec_list(v)`, and the live edges `spec_ends()`, a map from edge id to the
/// (source, destination) pair it was added with.
pub struct AdjList<W, E: Edge<W>, Dir: EdgeDir = UndirectedEdge> {
    edges_of: Vec<Vec<(usize, E)>>,
    reusable_vertex_ids: HashSet<usize>,
    max_edge_id: usize,
    reusable_edge_ids: HashSet<usize>,
    vertex_count: usize,
    edge_ends: Ghost<Map<usize, (usize, usize)>>,
    phantom_w: PhantomData<W>,
    phantom_dir: PhantomData<Dir>,
}

/// Entries of `s` whose edge id is not `id`, in order.
pub open spec fn without_id<E: Edge<W>, W>(s: Seq<(usize, E)>, id: usize) -> Seq<(usize, E)>
    decreases s.len(),
{
    if s.len() == 0 {
        Seq::empty()
    } else {
        let prev = without_id::<E, W>(s.drop_last(), id);
        if s.last().1.spec_id() == id {
            prev
        } else {
            prev.push(s.last())
        }
    }
}

/// Entries of the list of vertex `u` that survive the removal of vertex `v`: none when
/// `u == v`, else those whose destination is not `v`.
pub open spec fn kept_after_removal<E>(s: Seq<(usize, E)>, u: usize, v: usize) -> Seq<(usize, E)>
    decreases s.len(),
{
    if s.len() == 0 || u == v {
        Seq::empty()
    } else {
        let prev = kept_after_removal(s.drop_last(), u, v);
        if s.last().0 == v {
            prev
        } else {
            prev.push(s.last())
        }
    }
}

impl<W, E: Edge<W>, Dir: EdgeDir> AdjList<W, E, Dir> {
    /// Total number of vertex slots (|V|).
    pub closed spec fn spec_total(&self) -> nat {
        self.edges_of@.len()
    }

    /// Number of vertices present in the graph.
    pub closed spec fn spec_vertex_count(&self) -> nat {
        self.vertex_count as nat
    }

    /// `v` is a vertex of the graph.
    pub closed spec fn spec_has_vertex(&self, v: usize) -> bool {
        v < self.spec_total() && !self.reusable_vertex_ids@.contains(v)
    }

    /// A vertex has an id below the number of slots.
    pub proof fn lemma_vertex_below_total(&self, v: usize)
        requires
            self.spec_has_vertex(v),
        ensures
            v < self.spec_total(),
    {
    }

    /// The vertices of the graph.
    pub open spec fn spec_vertices(&self) -> Set<usize> {
        Set::new(|v: usize| self.spec_has_vertex(v))
    }

    /// Ids of removed vertices, waiting to be reused.
    pub closed spec fn spec_reusable_vertex_ids(&self) -> Set<usize> {
        self.reusable_vertex_ids@
    }

    /// Ids of removed edges, waiting to be reused.
    pub closed spec fn spec_reusable_edge_ids(&self) -> Set<usize> {
        self.reusable_edge_ids@
    }

    /// The list of vertex `v`: `(dst_id, edge)` pairs in insertion order.
    pub closed spec fn spec_list(&self, v: usize) -> Seq<(usize, E)> {
        self.edges_of@[v as int]@
    }

    /// The live edges: edge id to the (source, destination) pair it was added with.
    pub closed spec fn spec_ends(&self) -> Map<usize, (usize, usize)> {
        self.edge_ends@
    }

    /// One more than the largest edge id handed out so far.
    pub closed spec fn spec_max_edge_id(&self) -> usize {
        self.max_edge_id
    }

    /// The ends of the edges with ids `0..n`, in order of id.
    pub open spec fn ends_upto(&self, n: nat) -> Seq<(usize, usize)> {
        Seq::new(n, |j: int| self.spec_ends()[j as usize])
    }

    /// Number of edges in the graph.
    pub open spec fn spec_edge_count(&self) -> nat {
        self.spec_ends().dom().len()
    }

    /// A new edge can get an id: either one is reusable or a fresh one fits in `usize`.
    pub open spec fn spec_can_add_edge(&self) -> bool {
        !self.spec_reusable_edge_ids().is_empty() || self.spec_max_edge_id() < usize::MAX
    }

    /// A new vertex can get an id: either one is reusable or a fresh one fits in `usize`.
    pub open spec fn spec_can_add_vertex(&self) -> bool {
        !self.spec_reusable_vertex_ids().is_empty() || self.spec_total() < usize::MAX
    }

    /// The vertices below `n`, in increasing order.
    pub closed spec fn present_upto(&self, n: nat) -> Seq<usize>
        decreases n,
    {
        if n == 0 {
            Seq::empty()
        } else {
            let prev = self.present_upto((n - 1) as nat);
            if self.spec_has_vertex((n - 1) as usize) {
                prev.push((n - 1) as usize)
            } else {
                prev
            }
        }
    }

    /// The vertices of the graph in increasing order, as `vertices()` lists them.
    pub closed spec fn spec_vertex_seq(&self) -> Seq<usize> {
        self.present_upto(self.spec_total())
    }

    /// An entry `(x, edge with id)` in the list of `v` stands for a live edge from `v` to `x`,
    /// or, when undirected, from `x` to `v`.
    pub open spec fn entry_ok(&self, v: usize, x: usize, id: usize) -> bool {
        &&& self.spec_ends().dom().contains(id)
        &&& (self.spec_ends()[id] == (v, x) || (!Dir::spec_is_directed() && self.spec_ends()[id] == (x, v)))
    }

    /// The list of `v` holds an entry towards `x` with edge id `id`.
    pub open spec fn list_has(&self, v: usize, x: usize, id: usize) -> bool {
        exists|k: int| 0 <= k < self.spec_list(v).len() && (#[trigger] self.spec_list(v)[k]).0 == x
            && self.spec_list(v)[k].1.spec_id() == id
    }

    /// The storage invariant: the lists agree with the model and, when undirected, the two
    /// ends of every pair of vertices hold as many entries towards each other.
    pub closed spec fn wf(&self) -> bool {
        &&& self.wf_entries()
        &&& !Dir::spec_is_directed() ==> self.balanced()
    }

    /// The lists agree with the model: the counters, the reusable ids and the live edges fit,
    /// every entry stands for a live edge, and every live edge has its entries.
    pub closed spec fn wf_entries(&self) -> bool {
        let t = self.spec_total();
        let r = self.reusable_vertex_ids@;
        let re = self.reusable_edge_ids@;
        let ends = self.edge_ends@;
        let m = self.max_edge_id;
        &&& r.finite()
        &&& re.finite()
        &&& forall|v: usize| #[trigger] r.contains(v) ==> v < t
        &&& self.vertex_count + r.len() == t
        &&& forall|id: usize| #[trigger] re.contains(id) ==> id < m
        &&& forall|id: usize| #[trigger] ends.dom().contains(id) <==> (id < m && !re.contains(id))
        &&& forall|v: usize| v < t && !self.spec_has_vertex(v) ==> (#[trigger] self.edges_of@[v as int])@.len() == 0
        &&& forall|v: usize, k: int| v < t && 0 <= k < self.edges_of@[v as int]@.len() ==>
                self.entry_ok(v, (#[trigger] self.edges_of@[v as int]@[k]).0, self.edges_of@[v as int]@[k].1.spec_id())
        &&& forall|id: usize| #[trigger] ends.dom().contains(id) ==> {
                let (s, d) = ends[id];
                &&& self.spec_has_vertex(s)
                &&& self.spec_has_vertex(d)
                &&& self.list_has(s, d, id)
                &&& (!Dir::spec_is_directed() ==> self.list_has(d, s, id))
            }
    }

    /// The counters agree with the model: `vertex_count` counts the vertices and
    /// `max_edge_id - |reusable edge ids|` counts the live edges.
    proof fn lemma_counts(&self)
        requires
            self.wf(),
        ensures
            self.spec_vertices().finite(),
            self.spec_vertices().len() == self.vertex_count,
            self.edge_ends@.dom().finite(),
            self.edge_ends@.dom().len() == self.max_edge_id - self.reusable_edge_ids@.len(),
    {
        let t = self.edges_of.len();
        let range_v = Set::<usize>::range(0, t);
        vstd::set_lib::range_set_properties::<usize>(0, t);
        let r = self.reusable_vertex_ids@;
        assert(range_v.intersect(r) =~= r);
        vstd::set_lib::lemma_set_difference_len(range_v, r);
        assert(self.spec_vertices() =~= range_v.difference(r));
        let m = self.max_edge_id;
        let range_e = Set::<usize>::range(0, m);
        vstd::set_lib::range_set_properties::<usize>(0, m);
        let re = self.reusable_edge_ids@;
        assert(range_e.intersect(re) =~= re);
        vstd::set_lib::lemma_set_difference_len(range_e, re);
        assert(self.edge_ends@.dom() =~= range_e.difference(re));
    }

    proof fn lemma_present_upto(&self, n: nat)
        requires
            n <= self.spec_total(),
        ensures
            forall|i: int| 0 <= i < self.present_upto(n).len() ==> #[trigger] self.spec_has_vertex(self.present_upto(n)[i]),
        decreases n,
    {
        if n > 0 {
            self.lemma_present_upto((n - 1) as nat);
            let prev = self.present_upto((n - 1) as nat);
            assert forall|i: int| 0 <= i < self.present_upto(n).len() implies #[trigger] self.spec_has_vertex(self.present_upto(n)[i]) by {
                if i < prev.len() {
                    assert(self.present_upto(n)[i] == prev[i]);
                }
            }
        }
    }
}

impl<W, E: Edge<W>, Dir: EdgeDir> AdjList<W, E, Dir> {
    /// Initializes an empty adjacency list.
    pub fn init() -> (l: Self)
        ensures
            l.wf(),
            l.spec_vertices() == Set::<usize>::empty(),
            l.spec_total() == 0,
            l.spec_vertex_count() == 0,
            l.spec_reusable_vertex_ids() == Set::<usize>::empty(),
            l.spec_reusable_edge_ids() == Set::<usize>::empty(),
            l.spec_ends() == Map::<usize, (usize, usize)>::empty(),
            l.spec_max_edge_id() == 0,
    {
        let l = AdjList {
            edges_of: Vec::new(),
            reusable_vertex_ids: HashSet::new(),
            max_edge_id: 0,
            reusable_edge_ids: HashSet::new(),
            vertex_count: 0,
            edge_ends: Ghost(Map::empty()),
            phantom_w: PhantomData,
            phantom_dir: PhantomData,
        };
        proof {
            assert(l.spec_vertices() =~= Set::<usize>::empty());
            assert(l.edge_ends@.dom() =~= Set::<usize>::empty());
        }
        l
    }

    // # Returns
    // * `Some`: Containing a vertex id that can be reused; it is no longer reusable.
    // * `None`: If there is no id to reuse.
    fn next_reusable_vertex_id(&mut self) -> (r: Option<usize>)
        ensures
            match r {
                Some(id) => old(self).reusable_vertex_ids@.contains(id)
                    && final(self).reusable_vertex_ids@ == old(self).reusable_vertex_ids@.remove(id),
                None => old(self).reusable_vertex_ids@.is_empty()
                    && final(self).reusable_vertex_ids@ == old(self).reusable_vertex_ids@,
            },
            final(self).edges_of == old(self).edges_of,
            final(self).vertex_count == old(self).vertex_count,
            final(self).max_edge_id == old(self).max_edge_id,
            final(self).reusable_edge_ids == old(self).reusable_edge_ids,
            final(self).edge_ends == old(self).edge_ends,
    {
        take_any(&mut self.reusable_vertex_ids)
    }

    // # Returns
    // * `Some`: Containing an edge id that can be reused; it is no longer reusable.
    // * `None`: If there is no id to reuse.
    fn next_reusable_edge_id(&mut self) -> (r: Option<usize>)
        ensures
            match r {
                Some(id) => old(self).reusable_edge_ids@.contains(id)
                    && final(self).reusable_edge_ids@ == old(self).reusable_edge_ids@.remove(id),
                None => old(self).reusable_edge_ids@.is_empty()
                    && final(self).reusable_edge_ids@ == old(self).reusable_edge_ids@,
            },
            final(self).edges_of == old(self).edges_of,
            final(self).vertex_count == old(self).vertex_count,
            final(self).max_edge_id == old(self).max_edge_id,
            final(self).reusable_vertex_ids == old(self).reusable_vertex_ids,
            final(self).edge_ends == old(self).edge_ends,
    {
        take_any(&mut self.reusable_edge_ids)
    }

    /// # Returns
    /// Total number of vertex slots in the storage (|V|), removed vertices included.
    pub fn total_vertex_count(&self) -> (n: usize)
        ensures
            n == self.spec_total(),
    {
        self.edges_of.len()
    }

    /// # Returns
    /// `true` if edges of this storage are directed.
    pub fn is_directed(&self) -> (b: bool)
        ensures
            b == Dir::spec_is_directed(),
    {
        Dir::is_directed()
    }

    /// # Returns
    /// `true` if edges of this storage are undirected.
    pub fn is_undirected(&self) -> (b: bool)
        ensures
            b == !Dir::spec_is_directed(),
    {
        Dir::is_undirected()
    }

    /// # Returns
    /// `true` if the storage contains the vertex with id `vertex_id`.
    pub fn contains_vertex(&self, vertex_id: usize) -> (b: bool)
        ensures
            b == self.spec_has_vertex(vertex_id),
    {
        vertex_id < self.total_vertex_count() && !self.reusable_vertex_ids.contains(&vertex_id)
    }

    /// # Returns
    /// `true` if the storage contains the edge with id `edge_id`.
    pub fn contains_edge(&self, edge_id: usize) -> (b: bool)
        requires
            self.wf(),
        ensures
            b == self.spec_ends().dom().contains(edge_id),
    {
        edge_id < self.max_edge_id && !self.reusable_edge_ids.contains(&edge_id)
    }

    /// # Returns
    /// Number of vertices in the graph.
    pub fn vertex_count(&self) -> (n: usize)
        requires
            self.wf(),
        ensures
            n == self.spec_vertex_count(),
            n == self.spec_vertices().len(),
    {
        proof { self.lemma_counts(); }
        self.vertex_count
    }

    /// # Returns
    /// Number of edges in the graph.
    pub fn edge_count(&self) -> (n: usize)
        requires
            self.wf(),
        ensures
            n == self.spec_edge_count(),
    {
        proof { self.lemma_counts(); }
        self.max_edge_id - self.reusable_edge_ids.len()
    }

    /// # Returns
    /// The lists of all vertex slots, the list of slot `v` at index `v`.
    pub fn edge_lists(&self) -> (r: &Vec<Vec<(usize, E)>>)
        ensures
            r@.len() == self.spec_total(),
            forall|v: usize| v < self.spec_total() ==> (#[trigger] r@[v as int])@ == self.spec_list(v),
    {
        &self.edges_of
    }

    /// # Returns
    /// Ids of removed vertices, which later `add_vertex` calls hand out again.
    pub fn reusable_vertex_ids(&self) -> (r: &HashSet<usize>)
        ensures
            r@ == self.spec_reusable_vertex_ids(),
    {
        &self.reusable_vertex_ids
    }

    /// # Returns
    /// Ids of the vertices present in the graph, in increasing order.
    pub fn vertices(&self) -> (vs: Vec<usize>)
        ensures
            vs@ == self.spec_vertex_seq(),
            forall|a: int, b: int| 0 <= a < b < vs@.len() ==> vs@[a] < vs@[b],
            forall|v: usize| vs@.contains(v) <==> self.spec_has_vertex(v),
            forall|i: int| 0 <= i < vs@.len() ==> #[trigger] vs@[i] < self.spec_total(),
    {
        let t = self.total_vertex_count();
        let mut vs: Vec<usize> = Vec::new();
        let mut i: usize = 0;
        while i < t
            invariant
                t == self.spec_total(),
                i <= t,
                vs@ == self.present_upto(i as nat),
                forall|a: int, b: int| 0 <= a < b < vs@.len() ==> vs@[a] < vs@[b],
                forall|a: int| 0 <= a < vs@.len() ==> vs@[a] < i,
                forall|v: usize| vs@.contains(v) <==> (v < i && self.spec_has_vertex(v)),
            decreases t - i,
        {
            let ghost old_vs = vs@;
            if !self.reusable_vertex_ids.contains(&i) {
                vs.push(i);
                proof {
                    assert forall|v: usize| vs@.contains(v) <==> (old_vs.contains(v) || v == i) by {
                        if v == i {
                            assert(vs@[old_vs.len() as int] == i);
                        }
                        if vs@.contains(v) && v != i {
                            let k = choose|k: int| 0 <= k < vs@.len() && vs@[k] == v;
                            assert(old_vs[k] == v);
                        }
                        if old_vs.contains(v) {
                            let k = choose|k: int| 0 <= k < old_vs.len() && old_vs[k] == v;
                            assert(vs@[k] == v);
                        }
                    }
                }
            }
            proof {
                assert forall|v: usize| vs@.contains(v) <==> (v < i + 1 && self.spec_has_vertex(v)) by {
                    assert(old_vs.contains(v) <==> (v < i && self.spec_has_vertex(v)));
                }
            }
            i = i + 1;
        }
        vs
    }

    /// Adds a vertex to the graph, reusing the id of a removed vertex when there is one.
    ///
    /// # Returns
    /// Unique id of the newly added vertex.
    pub fn add_vertex(&mut self) -> (id: usize)
        requires
            old(self).wf(),
            old(self).spec_can_add_vertex(),
        ensures
            final(self).wf(),
            !old(self).spec_has_vertex(id),
            final(self).spec_vertices() == old(self).spec_vertices().insert(id),
            final(self).spec_vertex_count() == old(self).spec_vertex_count() + 1,
            final(self).spec_ends() == old(self).spec_ends(),
            final(self).spec_max_edge_id() == old(self).spec_max_edge_id(),
            final(self).spec_reusable_edge_ids() == old(self).spec_reusable_edge_ids(),
            final(self).spec_list(id).len() == 0,
            forall|v: usize| v != id && v < old(self).spec_total() ==> #[trigger] final(self).spec_list(v) == old(self).spec_list(v),
            old(self).spec_reusable_vertex_ids().is_empty() ==> {
                &&& id == old(self).spec_total()
                &&& final(self).spec_total() == old(self).spec_total() + 1
                &&& final(self).spec_reusable_vertex_ids() == old(self).spec_reusable_vertex_ids()
            },
            !old(self).spec_reusable_vertex_ids().is_empty() ==> {
                &&& old(self).spec_reusable_vertex_ids().contains(id)
                &&& final(self).spec_total() == old(self).spec_total()
                &&& final(self).spec_reusable_vertex_ids() == old(self).spec_reusable_vertex_ids().remove(id)
            },
    {
        let ghost old_self = *self;
        proof {
            vstd::set_lib::lemma_set_empty_equivalency_len(self.reusable_vertex_ids@);
            assert(self.edges_of.len() == self.spec_total());
            if !self.reusable_vertex_ids@.is_empty() {
                let x = self.reusable_vertex_ids@.choose();
                assert(self.reusable_vertex_ids@.contains(x));
            }
        }
        let id = match self.next_reusable_vertex_id() {
            Some(id) => id,
            None => {
                self.edges_of.push(Vec::new());
                self.edges_of.len() - 1
            },
        };
        self.vertex_count = self.vertex_count + 1;
        proof {
            assert forall|v: usize| v != id && v < old_self.spec_total() implies #[trigger] self.spec_list(v) == old_self.spec_list(v) by {
                assert(self.edges_of@[v as int] == old_self.edges_of@[v as int]);
            }
            assert(self.spec_vertices() =~= old_self.spec_vertices().insert(id));
            assert forall|v: usize, k: int| v < self.spec_total() && 0 <= k < self.edges_of@[v as int]@.len() implies
                self.entry_ok(v, (#[trigger] self.edges_of@[v as int]@[k]).0, self.edges_of@[v as int]@[k].1.spec_id()) by {
                assert(v != id);
                assert(self.edges_of@[v as int] == old_self.edges_of@[v as int]);
                assert(old_self.entry_ok(v, old_self.edges_of@[v as int]@[k].0, old_self.edges_of@[v as int]@[k].1.spec_id()));
            }
            assert forall|i: usize| #[trigger] self.edge_ends@.dom().contains(i) implies {
                let (s, d) = self.edge_ends@[i];
                &&& self.spec_has_vertex(s)
                &&& self.spec_has_vertex(d)
                &&& self.list_has(s, d, i)
                &&& (!Dir::spec_is_directed() ==> self.list_has(d, s, i))
            } by {
                let (s, d) = self.edge_ends@[i];
                assert(old_self.list_has(s, d, i));
                assert(self.spec_list(s) == old_self.spec_list(s));
                let k = choose|k: int| 0 <= k < old_self.spec_list(s).len() && (#[trigger] old_self.spec_list(s)[k]).0 == d
                    && old_self.spec_list(s)[k].1.spec_id() == i;
                assert(self.spec_list(s)[k] == old_self.spec_list(s)[k]);
                if !Dir::spec_is_directed() {
                    assert(old_self.list_has(d, s, i));
                    assert(self.spec_list(d) == old_self.spec_list(d));
                    let k2 = choose|k: int| 0 <= k < old_self.spec_list(d).len() && (#[trigger] old_self.spec_list(d)[k]).0 == s
                        && old_self.spec_list(d)[k].1.spec_id() == i;
                    assert(self.spec_list(d)[k2] == old_self.spec_list(d)[k2]);
                }
            }
        }
        proof {
            assert(self.wf_entries());
            if !Dir::spec_is_directed() {
                Self::lemma_balanced_add_vertex(old_self, *self, id);
            }
        }
        id
    }
}

impl<W, E: Edge<W>, Dir: EdgeDir> AdjList<W, E, Dir> {
    /// The list of `dst` once an edge from `src` to `dst` is added, before its own entry:
    /// for a self loop the list already holds the entry added at the source.
    pub open spec fn list_before_back_entry(old_l: Self, src: usize, dst: usize, e: E) -> Seq<(usize, E)> {
        if src == dst {
            old_l.spec_list(src).push((dst, e))
        } else {
            old_l.spec_list(dst)
        }
    }

    /// The effect of adding `edge` from `src` to `dst` under id `id`, as stated by `add_edge`:
    /// the list of `src` gets `(dst, edge)`; when undirected, the list of `dst` also gets
    /// `(src, clone of edge)`.
    pub open spec fn added_edge(old_l: Self, new_l: Self, src: usize, dst: usize, edge: E, id: usize) -> bool {
        &&& new_l.wf()
        &&& Self::added_edge_model(old_l, new_l, src, dst, edge, id)
    }

    /// The change of the model that `added_edge` describes, leaving well-formedness aside.
    pub open spec fn added_edge_model(old_l: Self, new_l: Self, src: usize, dst: usize, edge: E, id: usize) -> bool {
        let e = edge.spec_with_id(id);
        &&& new_l.spec_vertices() == old_l.spec_vertices()
        &&& new_l.spec_vertex_count() == old_l.spec_vertex_count()
        &&& new_l.spec_total() == old_l.spec_total()
        &&& new_l.spec_reusable_vertex_ids() == old_l.spec_reusable_vertex_ids()
        &&& !old_l.spec_ends().dom().contains(id)
        &&& new_l.spec_ends() == old_l.spec_ends().insert(id, (src, dst))
        &&& forall|v: usize| v < old_l.spec_total() && v != src && (Dir::spec_is_directed() || v != dst)
                ==> #[trigger] new_l.spec_list(v) == old_l.spec_list(v)
        &&& (Dir::spec_is_directed() || src != dst) ==> new_l.spec_list(src) == old_l.spec_list(src).push((dst, e))
        &&& !Dir::spec_is_directed() ==> {
                let mid = Self::list_before_back_entry(old_l, src, dst, e);
                &&& new_l.spec_list(dst).len() == mid.len() + 1
                &&& new_l.spec_list(dst).drop_last() == mid
                &&& new_l.spec_list(dst).last().0 == src
                &&& cloned(e, new_l.spec_list(dst).last().1)
                &&& new_l.spec_list(dst).last().1.spec_id() == id
            }
        &&& !old_l.spec_reusable_edge_ids().is_empty() ==> {
                &&& old_l.spec_reusable_edge_ids().contains(id)
                &&& new_l.spec_reusable_edge_ids() == old_l.spec_reusable_edge_ids().remove(id)
                &&& new_l.spec_max_edge_id() == old_l.spec_max_edge_id()
            }
        &&& old_l.spec_reusable_edge_ids().is_empty() ==> {
                &&& id == old_l.spec_max_edge_id()
                &&& new_l.spec_reusable_edge_ids() == old_l.spec_reusable_edge_ids()
                &&& new_l.spec_max_edge_id() == old_l.spec_max_edge_id() + 1
            }
    }

    /// Adds `edge` from vertex `src_id` to vertex `dst_id`. In an undirected list, a clone of
    /// the edge is stored at `dst_id` too.
    ///
    /// # Returns
    /// * `Ok`: Containing unique id of the newly added edge (a reused one when an edge was
    ///   removed before).
    /// * `Err`: `VertexNotFound` if vertex `src_id`, or else vertex `dst_id`, does not exist;
    ///   nothing changes then.
    pub fn add_edge(&mut self, src_id: usize, dst_id: usize, edge: E) -> (r: Result<usize, Error>)
        requires
            old(self).wf(),
            old(self).spec_can_add_edge(),
        ensures
            final(self).wf(),
            r is Ok <==> old(self).spec_has_vertex(src_id) && old(self).spec_has_vertex(dst_id),
            r matches Ok(id) ==> Self::added_edge(*old(self), *final(self), src_id, dst_id, edge, id),
            r matches Err(e) ==> *final(self) == *old(self) && e.spec_kind() == crate::storage::ErrorKind::VertexNotFound
                && e.spec_msg() == crate::storage::error::vnf_msg(
                    if !old(self).spec_has_vertex(src_id) { src_id } else { dst_id }),
    {
        if !self.contains_vertex(src_id) {
            return Err(Error::new_vnf(src_id));
        }
        if !self.contains_vertex(dst_id) {
            return Err(Error::new_vnf(dst_id));
        }
        let ghost old_self = *self;
        let ghost old_edge = edge;
        proof {
            vstd::set_lib::lemma_set_empty_equivalency_len(self.reusable_edge_ids@);
            if !self.reusable_edge_ids@.is_empty() {
                let x = self.reusable_edge_ids@.choose();
                assert(self.reusable_edge_ids@.contains(x));
            }
        }
        let mut edge = edge;
        let edge_id = match self.next_reusable_edge_id() {
            Some(id) => id,
            None => {
                self.max_edge_id = self.max_edge_id + 1;
                self.max_edge_id - 1
            },
        };
        edge.set_id(edge_id);
        proof { old_edge.lemma_with_id(edge_id); }
        let ghost e = edge;
        if Dir::is_directed() {
            self.edges_of[src_id].push((dst_id, edge));
        } else {
            let copy = edge.clone();
            proof { e.lemma_clone_keeps_id(copy); }
            self.edges_of[src_id].push((dst_id, edge));
            self.edges_of[dst_id].push((src_id, copy));
        }
        proof {
            self.edge_ends@ = self.edge_ends@.insert(edge_id, (src_id, dst_id));
            assert(self.spec_vertices() =~= old_self.spec_vertices());
            assert forall|v: usize| v < old_self.spec_total() && v != src_id && (Dir::spec_is_directed() || v != dst_id)
                implies #[trigger] self.spec_list(v) == old_self.spec_list(v) by {
            }
            let ls = old_self.spec_list(src_id);
            assert(self.spec_list(src_id)[ls.len() as int] == (dst_id, e));
            if Dir::spec_is_directed() || src_id != dst_id {
                assert(self.spec_list(src_id) =~= ls.push((dst_id, e)));
            }
            if !Dir::spec_is_directed() {
                let mid = Self::list_before_back_entry(old_self, src_id, dst_id, e);
                assert(self.spec_list(dst_id).drop_last() =~= mid);
            }
            // The old lists are prefixes of the new ones.
            assert forall|v: usize, k: int| v < old_self.spec_total() && 0 <= k < old_self.spec_list(v).len() implies
                k < self.spec_list(v).len() && #[trigger] self.spec_list(v)[k] == old_self.spec_list(v)[k] by {
                if v == src_id && (Dir::spec_is_directed() || src_id != dst_id) {
                    assert(self.spec_list(v)[k] == ls.push((dst_id, e))[k]);
                } else if !Dir::spec_is_directed() && v == dst_id {
                    let mid = Self::list_before_back_entry(old_self, src_id, dst_id, e);
                    assert(self.spec_list(v).drop_last()[k] == self.spec_list(v)[k]);
                    if src_id == dst_id {
                        assert(mid[k] == ls[k]);
                    }
                } else {
                    assert(self.edges_of@[v as int] == old_self.edges_of@[v as int]);
                }
            }
            // Every entry still stands for a live edge.
            assert forall|v: usize, k: int| v < self.spec_total() && 0 <= k < self.edges_of@[v as int]@.len() implies
                self.entry_ok(v, (#[trigger] self.edges_of@[v as int]@[k]).0, self.edges_of@[v as int]@[k].1.spec_id()) by {
                let ov = old_self.edges_of@[v as int]@;
                if k < ov.len() {
                    assert(self.spec_list(v)[k] == old_self.spec_list(v)[k]);
                    assert(old_self.entry_ok(v, ov[k].0, ov[k].1.spec_id()));
                } else if v == src_id && (Dir::spec_is_directed() || src_id != dst_id) {
                    assert(self.spec_list(v)[k] == (dst_id, e));
                } else if !Dir::spec_is_directed() && v == dst_id {
                    let mid = Self::list_before_back_entry(old_self, src_id, dst_id, e);
                    if k < mid.len() {
                        assert(self.spec_list(v).drop_last()[k] == self.spec_list(v)[k]);
                        assert(mid[k] == (dst_id, e));
                    }
                } else {
                    assert(self.edges_of@[v as int] == old_self.edges_of@[v as int]);
                }
            }
            assert forall|i: usize| #[trigger] self.edge_ends@.dom().contains(i) implies {
                let (s, d) = self.edge_ends@[i];
                &&& self.spec_has_vertex(s)
                &&& self.spec_has_vertex(d)
                &&& self.list_has(s, d, i)
                &&& (!Dir::spec_is_directed() ==> self.list_has(d, s, i))
            } by {
                let (s, d) = self.edge_ends@[i];
                if i == edge_id {
                    assert(self.spec_list(src_id)[ls.len() as int] == (dst_id, e));
                    if !Dir::spec_is_directed() {
                        let n = self.spec_list(dst_id).len() - 1;
                        assert(self.spec_list(dst_id)[n] == self.spec_list(dst_id).last());
                    }
                } else {
                    assert(old_self.list_has(s, d, i));
                    let k = choose|k: int| 0 <= k < old_self.spec_list(s).len() && (#[trigger] old_self.spec_list(s)[k]).0 == d
                        && old_self.spec_list(s)[k].1.spec_id() == i;
                    assert(self.spec_list(s)[k] == old_self.spec_list(s)[k]);
                    if !Dir::spec_is_directed() {
                        assert(old_self.list_has(d, s, i));
                        let k2 = choose|k: int| 0 <= k < old_self.spec_list(d).len() && (#[trigger] old_self.spec_list(d)[k]).0 == s
                            && old_self.spec_list(d)[k].1.spec_id() == i;
                        assert(self.spec_list(d)[k2] == old_self.spec_list(d)[k2]);
                    }
                }
            }
        }
        proof {
            assert(self.wf_entries());
            assert(Self::added_edge_model(old_self, *self, src_id, dst_id, old_edge, edge_id));
            if !Dir::spec_is_directed() {
                Self::lemma_balanced_add_edge(old_self, *self, src_id, dst_id, old_edge, edge_id);
            }
        }
        Ok(edge_id)
    }
}

/// The entry `p` points to `x` and carries edge id `id`.
pub open spec fn entry_is<E: Edge<W>, W>(p: (usize, E), x: usize, id: usize) -> bool {
    p.0 == x && p.1.spec_id() == id
}

/// Ids of the entries of `s` that the removal of vertex `v` takes out of the list of `u`.
pub open spec fn removed_ids<E: Edge<W>, W>(s: Seq<(usize, E)>, u: usize, v: usize) -> Set<usize> {
    Set::new(|id: usize| exists|k: int| 0 <= k < s.len() && (u == v || (#[trigger] s[k]).0 == v) && s[k].1.spec_id() == id)
}

// # Returns
// Position of the first entry of `list` towards `x` with edge id `id`, if there is one.
fn position_of<W, E: Edge<W>>(list: &Vec<(usize, E)>, x: usize, id: usize) -> (r: Option<usize>)
    ensures
        match r {
            Some(k) => k < list@.len() && entry_is::<E, W>(list@[k as int], x, id),
            None => forall|k: int| 0 <= k < list@.len() ==> !entry_is::<E, W>(#[trigger] list@[k], x, id),
        },
{
    let mut k: usize = 0;
    while k < list.len()
        invariant
            k <= list@.len(),
            forall|q: int| 0 <= q < k ==> !entry_is::<E, W>(#[trigger] list@[q], x, id),
        decreases list@.len() - k,
    {
        if list[k].0 == x && list[k].1.get_id() == id {
            return Some(k);
        }
        k = k + 1;
    }
    None
}

// Removes from `list` every entry with edge id `id`.
fn drop_id<W, E: Edge<W>>(list: &mut Vec<(usize, E)>, id: usize)
    ensures
        final(list)@ == without_id::<E, W>(old(list)@, id),
{
    let ghost orig = list@;
    let mut i: usize = 0;
    let ghost mut j: int = 0;
    while i < list.len()
        invariant
            0 <= j <= orig.len(),
            i <= list@.len(),
            list@.take(i as int) == without_id::<E, W>(orig.take(j), id),
            list@.skip(i as int) == orig.skip(j),
        decreases list@.len() - i,
    {
        let ghost cur = list@;
        assert(cur.skip(i as int).len() == cur.len() - i);
        assert(orig.skip(j).len() > 0);
        assert(j < orig.len());
        assert(cur.skip(i as int)[0] == orig.skip(j)[0]);
        assert(cur[i as int] == orig[j]);
        assert(orig.take(j + 1).drop_last() =~= orig.take(j));
        if list[i].1.get_id() == id {
            let _ = list.remove(i);
            proof {
                assert(list@.take(i as int) =~= cur.take(i as int));
                assert forall|t: int| 0 <= t < orig.skip(j + 1).len() implies #[trigger] orig.skip(j + 1)[t] == list@.skip(i as int)[t] by {
                    assert(orig.skip(j)[t + 1] == cur.skip(i as int)[t + 1]);
                }
                assert(list@.skip(i as int) =~= orig.skip(j + 1));
            }
        } else {
            proof {
                assert(list@.take(i + 1) =~= cur.take(i as int).push(cur[i as int]));
                assert forall|t: int| 0 <= t < orig.skip(j + 1).len() implies #[trigger] orig.skip(j + 1)[t] == list@.skip(i + 1)[t] by {
                    assert(orig.skip(j)[t + 1] == cur.skip(i as int)[t + 1]);
                }
                assert(list@.skip(i + 1) =~= orig.skip(j + 1));
            }
            i = i + 1;
        }
        proof { j = j + 1; }
    }
    proof {
        assert(list@.take(i as int) =~= list@);
        assert(orig.skip(j).len() == 0);
        assert(orig.take(j) =~= orig);
    }
}

// Removes from the list of vertex `u` the entries that the removal of vertex `v` takes out
// (all of them when `u == v`), adding their edge ids to `freed`.
fn drop_towards<W, E: Edge<W>>(list: &mut Vec<(usize, E)>, u: usize, v: usize, freed: &mut HashSet<usize>)
    ensures
        final(list)@ == kept_after_removal(old(list)@, u, v),
        final(freed)@ == old(freed)@.union(removed_ids::<E, W>(old(list)@, u, v)),
{
    let ghost orig = list@;
    let ghost start = freed@;
    let mut i: usize = 0;
    let ghost mut j: int = 0;
    while i < list.len()
        invariant
            0 <= j <= orig.len(),
            i <= list@.len(),
            list@.take(i as int) == kept_after_removal(orig.take(j), u, v),
            list@.skip(i as int) == orig.skip(j),
            freed@ == start.union(removed_ids::<E, W>(orig.take(j), u, v)),
        decreases list@.len() - i,
    {
        let ghost cur = list@;
        let ghost before = freed@;
        assert(cur.skip(i as int).len() == cur.len() - i);
        assert(orig.skip(j).len() > 0);
        assert(j < orig.len());
        assert(cur.skip(i as int)[0] == orig.skip(j)[0]);
        assert(cur[i as int] == orig[j]);
        let ghost t1 = orig.take(j + 1);
        assert(t1.drop_last() =~= orig.take(j));
        assert(t1.last() == orig[j]);
        if u == v || list[i].0 == v {
            let id = list[i].1.get_id();
            let _ = list.remove(i);
            freed.insert(id);
            proof {
                assert(list@.take(i as int) =~= cur.take(i as int));
                assert forall|t: int| 0 <= t < orig.skip(j + 1).len() implies #[trigger] orig.skip(j + 1)[t] == list@.skip(i as int)[t] by {
                    assert(orig.skip(j)[t + 1] == cur.skip(i as int)[t + 1]);
                }
                assert(list@.skip(i as int) =~= orig.skip(j + 1));
                assert(removed_ids::<E, W>(t1, u, v) =~= removed_ids::<E, W>(orig.take(j), u, v).insert(id)) by {
                    assert forall|x: usize| #[trigger] removed_ids::<E, W>(t1, u, v).contains(x) implies
                        removed_ids::<E, W>(orig.take(j), u, v).insert(id).contains(x) by {
                        let k = choose|k: int| 0 <= k < t1.len() && (u == v || (#[trigger] t1[k]).0 == v) && t1[k].1.spec_id() == x;
                        if k < j {
                            assert(orig.take(j)[k] == t1[k]);
                        }
                    }
                    assert forall|x: usize| #[trigger] removed_ids::<E, W>(orig.take(j), u, v).contains(x) implies
                        removed_ids::<E, W>(t1, u, v).contains(x) by {
                        let k = choose|k: int| 0 <= k < orig.take(j).len() && (u == v || (#[trigger] orig.take(j)[k]).0 == v)
                            && orig.take(j)[k].1.spec_id() == x;
                        assert(t1[k] == orig.take(j)[k]);
                    }
                    assert(t1[j] == orig[j]);
                }
                assert(freed@ =~= start.union(removed_ids::<E, W>(t1, u, v)));
            }
        } else {
            proof {
                assert(list@.take(i + 1) =~= cur.take(i as int).push(cur[i as int]));
                assert forall|t: int| 0 <= t < orig.skip(j + 1).len() implies #[trigger] orig.skip(j + 1)[t] == list@.skip(i + 1)[t] by {
                    assert(orig.skip(j)[t + 1] == cur.skip(i as int)[t + 1]);
                }
                assert(list@.skip(i + 1) =~= orig.skip(j + 1));
                assert(removed_ids::<E, W>(t1, u, v) =~= removed_ids::<E, W>(orig.take(j), u, v)) by {
                    assert forall|x: usize| #[trigger] removed_ids::<E, W>(t1, u, v).contains(x) implies
                        removed_ids::<E, W>(orig.take(j), u, v).contains(x) by {
                        let k = choose|k: int| 0 <= k < t1.len() && (u == v || (#[trigger] t1[k]).0 == v) && t1[k].1.spec_id() == x;
                        assert(k != j);
                        assert(orig.take(j)[k] == t1[k]);
                    }
                    assert forall|x: usize| #[trigger] removed_ids::<E, W>(orig.take(j), u, v).contains(x) implies
                        removed_ids::<E, W>(t1, u, v).contains(x) by {
                        let k = choose|k: int| 0 <= k < orig.take(j).len() && (u == v || (#[trigger] orig.take(j)[k]).0 == v)
                            && orig.take(j)[k].1.spec_id() == x;
                        assert(t1[k] == orig.take(j)[k]);
                    }
                }
            }
            i = i + 1;
        }
        proof { j = j + 1; }
    }
    proof {
        assert(list@.take(i as int) =~= list@);
        assert(orig.skip(j).len() == 0);
        assert(orig.take(j) =~= orig);
    }
}

// Replaces each entry of `list` towards `x` with edge id `id` by `(x, clone of e)`.
fn replace_entries<W, E: Edge<W>>(list: &mut Vec<(usize, E)>, x: usize, id: usize, e: &E)
    ensures
        final(list)@.len() == old(list)@.len(),
        forall|k: int| 0 <= k < old(list)@.len() ==> if entry_is::<E, W>(#[trigger] old(list)@[k], x, id) {
            final(list)@[k].0 == x && cloned(*e, final(list)@[k].1)
        } else {
            final(list)@[k] == old(list)@[k]
        },
{
    let ghost orig = list@;
    let mut k: usize = 0;
    while k < list.len()
        invariant
            list@.len() == orig.len(),
            k <= list@.len(),
            forall|q: int| 0 <= q < k ==> if entry_is::<E, W>(#[trigger] orig[q], x, id) {
                list@[q].0 == x && cloned(*e, list@[q].1)
            } else {
                list@[q] == orig[q]
            },
            forall|q: int| k <= q < list@.len() ==> #[trigger] list@[q] == orig[q],
        decreases list@.len() - k,
    {
        if list[k].0 == x && list[k].1.get_id() == id {
            let c = e.clone();
            list.set(k, (x, c));
        }
        k = k + 1;
    }
}

/// An entry survives `without_id` exactly when it carries another id.
pub proof fn lemma_without_id_contains<E: Edge<W>, W>(s: Seq<(usize, E)>, id: usize, q: (usize, E))
    ensures
        without_id::<E, W>(s, id).contains(q) <==> (s.contains(q) && q.1.spec_id() != id),
    decreases s.len(),
{
    if s.len() > 0 {
        let prev = s.drop_last();
        lemma_without_id_contains::<E, W>(prev, id, q);
        let w = without_id::<E, W>(s, id);
        let wp = without_id::<E, W>(prev, id);
        if s.contains(q) && q.1.spec_id() != id {
            let k = choose|k: int| 0 <= k < s.len() && s[k] == q;
            if k < prev.len() {
                assert(prev[k] == q);
                let k2 = choose|k2: int| 0 <= k2 < wp.len() && wp[k2] == q;
                assert(w[k2] == q);
            } else {
                assert(w[w.len() - 1] == q);
            }
        }
        if w.contains(q) {
            let k = choose|k: int| 0 <= k < w.len() && w[k] == q;
            if k < wp.len() {
                assert(w[k] == wp[k]);
                assert(wp.contains(q));
                let k2 = choose|k2: int| 0 <= k2 < prev.len() && prev[k2] == q;
                assert(s[k2] == q);
            } else {
                assert(q == s.last());
                assert(s[s.len() - 1] == q);
            }
        }
    }
}

/// Removing an entry that carries `id` before dropping `id` changes nothing.
pub proof fn lemma_without_id_remove<E: Edge<W>, W>(s: Seq<(usize, E)>, id: usize, k: int)
    requires
        0 <= k < s.len(),
        s[k].1.spec_id() == id,
    ensures
        without_id::<E, W>(s.remove(k), id) == without_id::<E, W>(s, id),
    decreases s.len(),
{
    if k == s.len() - 1 {
        assert(s.remove(k) =~= s.drop_last());
    } else {
        let r = s.remove(k);
        assert(r.drop_last() =~= s.drop_last().remove(k));
        assert(r.last() == s.last());
        lemma_without_id_remove::<E, W>(s.drop_last(), id, k);
    }
}

/// An entry survives the removal of vertex `v` from the list of `u` exactly when `u` is not
/// `v` and the entry does not point to `v`.
pub proof fn lemma_kept_contains<E>(s: Seq<(usize, E)>, u: usize, v: usize, q: (usize, E))
    ensures
        kept_after_removal(s, u, v).contains(q) <==> (s.contains(q) && u != v && q.0 != v),
    decreases s.len(),
{
    if s.len() > 0 && u != v {
        let prev = s.drop_last();
        lemma_kept_contains(prev, u, v, q);
        let w = kept_after_removal(s, u, v);
        let wp = kept_after_removal(prev, u, v);
        if s.contains(q) && q.0 != v {
            let k = choose|k: int| 0 <= k < s.len() && s[k] == q;
            if k < prev.len() {
                assert(prev[k] == q);
                let k2 = choose|k2: int| 0 <= k2 < wp.len() && wp[k2] == q;
                assert(w[k2] == q);
            } else {
                assert(w[w.len() - 1] == q);
            }
        }
        if w.contains(q) {
            let k = choose|k: int| 0 <= k < w.len() && w[k] == q;
            if k < wp.len() {
                assert(w[k] == wp[k]);
                assert(wp.contains(q));
                let k2 = choose|k2: int| 0 <= k2 < prev.len() && prev[k2] == q;
                assert(s[k2] == q);
            } else {
                assert(q == s.last());
                assert(s[s.len() - 1] == q);
            }
        }
    }
}

impl<W, E: Edge<W>, Dir: EdgeDir> AdjList<W, E, Dir> {
    /// An entry of a list of a well-formed storage carrying `id` lies at an end of edge `id`;
    /// in a directed storage, at its source.
    proof fn lemma_entry_at_end(&self, v: usize, k: int)
        requires
            self.wf(),
            v < self.spec_total(),
            0 <= k < self.spec_list(v).len(),
        ensures
            self.entry_ok(v, self.spec_list(v)[k].0, self.spec_list(v)[k].1.spec_id()),
    {
        assert(self.edges_of@[v as int]@[k] == self.spec_list(v)[k]);
    }

    /// The effect of removing the edge with id `edge_id` between `src` and `dst`, handing out
    /// `removed`, as stated by `remove_edge`.
    pub open spec fn removed_edge(old_l: Self, new_l: Self, src: usize, dst: usize, edge_id: usize, removed: E) -> bool {
        &&& new_l.wf()
        &&& Self::removed_edge_model(old_l, new_l, src, dst, edge_id, removed)
    }

    /// The change of the model that `removed_edge` describes, leaving well-formedness aside.
    pub open spec fn removed_edge_model(old_l: Self, new_l: Self, src: usize, dst: usize, edge_id: usize, removed: E) -> bool {
        &&& new_l.spec_vertices() == old_l.spec_vertices()
        &&& new_l.spec_vertex_count() == old_l.spec_vertex_count()
        &&& new_l.spec_total() == old_l.spec_total()
        &&& new_l.spec_reusable_vertex_ids() == old_l.spec_reusable_vertex_ids()
        &&& new_l.spec_max_edge_id() == old_l.spec_max_edge_id()
        &&& old_l.spec_ends().dom().contains(edge_id)
        &&& new_l.spec_ends() == old_l.spec_ends().remove(edge_id)
        &&& new_l.spec_reusable_edge_ids() == old_l.spec_reusable_edge_ids().insert(edge_id)
        &&& removed.spec_id() == edge_id
        &&& old_l.spec_list(src).contains((dst, removed))
        &&& new_l.spec_list(src) == without_id::<E, W>(old_l.spec_list(src), edge_id)
        &&& !Dir::spec_is_directed() ==> new_l.spec_list(dst) == without_id::<E, W>(old_l.spec_list(dst), edge_id)
        &&& forall|v: usize| v < old_l.spec_total() && v != src && (Dir::spec_is_directed() || v != dst)
                ==> #[trigger] new_l.spec_list(v) == old_l.spec_list(v)
    }

    /// Removes the edge with id `edge_id` from `src_id` to `dst_id` (in an undirected list, both
    /// of its stored copies); its id becomes reusable.
    ///
    /// # Returns
    /// * `Ok`: Containing the removed edge.
    /// * `Err`: `VertexNotFound` if vertex `dst_id`, or else vertex `src_id`, does not exist.
    /// * `Err`: `InvalidEdgeId` if there is no edge with id `edge_id` from source to destination.
    pub fn remove_edge(&mut self, src_id: usize, dst_id: usize, edge_id: usize) -> (r: Result<E, Error>)
        requires
            old(self).wf(),
        ensures
            final(self).wf(),
            r is Ok <==> old(self).spec_has_vertex(src_id) && old(self).spec_has_vertex(dst_id)
                && old(self).list_has(src_id, dst_id, edge_id),
            r matches Ok(e) ==> Self::removed_edge(*old(self), *final(self), src_id, dst_id, edge_id, e),
            r matches Err(e) ==> *final(self) == *old(self) && ({
                if !old(self).spec_has_vertex(src_id) || !old(self).spec_has_vertex(dst_id) {
                    &&& e.spec_kind() == crate::storage::ErrorKind::VertexNotFound
                    &&& e.spec_msg() == crate::storage::error::vnf_msg(
                        if !old(self).spec_has_vertex(dst_id) { dst_id } else { src_id })
                } else {
                    &&& e.spec_kind() == crate::storage::ErrorKind::InvalidEdgeId
                    &&& e.spec_msg() == crate::storage::error::iei_msg(src_id, dst_id, edge_id)
                }
            }),
    {
        if !self.contains_vertex(dst_id) {
            return Err(Error::new_vnf(dst_id));
        }
        if !self.contains_vertex(src_id) {
            return Err(Error::new_vnf(src_id));
        }
        let k = match position_of(&self.edges_of[src_id], dst_id, edge_id) {
            Some(k) => k,
            None => {
                proof {
                    if self.list_has(src_id, dst_id, edge_id) {
                        let q = choose|q: int| 0 <= q < self.spec_list(src_id).len() && (#[trigger] self.spec_list(src_id)[q]).0 == dst_id
                            && self.spec_list(src_id)[q].1.spec_id() == edge_id;
                        assert(!entry_is::<E, W>(self.edges_of@[src_id as int]@[q], dst_id, edge_id));
                    }
                }
                return Err(Error::new_iei(src_id, dst_id, edge_id));
            },
        };
        let ghost old_self = *self;
        let ghost ls = old_self.spec_list(src_id);
        let ghost ld = old_self.spec_list(dst_id);
        proof {
            self.lemma_entry_at_end(src_id, k as int);
            assert(ls[k as int] == self.edges_of@[src_id as int]@[k as int]);
            assert(ls.contains(ls[k as int]));
        }
        let (_, removed) = self.edges_of[src_id].remove(k);
        drop_id(&mut self.edges_of[src_id], edge_id);
        proof {
            lemma_without_id_remove::<E, W>(ls, edge_id, k as int);
        }
        if !Dir::is_directed() && src_id != dst_id {
            drop_id(&mut self.edges_of[dst_id], edge_id);
        }
        self.reusable_edge_ids.insert(edge_id);
        proof {
            self.edge_ends@ = self.edge_ends@.remove(edge_id);
            let ends = old_self.edge_ends@;
            // Which lists changed.
            assert forall|v: usize| v < old_self.spec_total() && v != src_id && (Dir::spec_is_directed() || v != dst_id)
                implies #[trigger] self.spec_list(v) == old_self.spec_list(v) by {
            }
            // Entries with the removed id lie only in the lists of its ends.
            assert forall|v: usize, q: int| v < old_self.spec_total() && 0 <= q < old_self.spec_list(v).len()
                && (#[trigger] old_self.spec_list(v)[q]).1.spec_id() == edge_id
                implies v == src_id || (!Dir::spec_is_directed() && v == dst_id) by {
                old_self.lemma_entry_at_end(v, q);
            }
            assert(self.spec_vertices() =~= old_self.spec_vertices());
            assert forall|v: usize, q: int| v < self.spec_total() && 0 <= q < self.edges_of@[v as int]@.len() implies
                self.entry_ok(v, (#[trigger] self.edges_of@[v as int]@[q]).0, self.edges_of@[v as int]@[q].1.spec_id()) by {
                let p = self.edges_of@[v as int]@[q];
                assert(self.spec_list(v)[q] == p);
                assert(self.spec_list(v).contains(p));
                if v == src_id || (!Dir::spec_is_directed() && v == dst_id) {
                    lemma_without_id_contains::<E, W>(old_self.spec_list(v), edge_id, p);
                } else {
                    assert(self.spec_list(v) == old_self.spec_list(v));
                }
                let q2 = choose|q2: int| 0 <= q2 < old_self.spec_list(v).len() && old_self.spec_list(v)[q2] == p;
                old_self.lemma_entry_at_end(v, q2);
            }
            assert forall|i: usize| #[trigger] self.edge_ends@.dom().contains(i) implies {
                let (s, d) = self.edge_ends@[i];
                &&& self.spec_has_vertex(s)
                &&& self.spec_has_vertex(d)
                &&& self.list_has(s, d, i)
                &&& (!Dir::spec_is_directed() ==> self.list_has(d, s, i))
            } by {
                let (s, d) = self.edge_ends@[i];
                assert(old_self.list_has(s, d, i));
                let q = choose|q: int| 0 <= q < old_self.spec_list(s).len() && (#[trigger] old_self.spec_list(s)[q]).0 == d
                    && old_self.spec_list(s)[q].1.spec_id() == i;
                let p = old_self.spec_list(s)[q];
                assert(old_self.spec_list(s).contains(p));
                lemma_without_id_contains::<E, W>(old_self.spec_list(s), edge_id, p);
                assert(self.spec_list(s).contains(p));
                let q1 = choose|q1: int| 0 <= q1 < self.spec_list(s).len() && self.spec_list(s)[q1] == p;
                assert((#[trigger] self.spec_list(s)[q1]).0 == d);
                if !Dir::spec_is_directed() {
                    assert(old_self.list_has(d, s, i));
                    let q2 = choose|q2: int| 0 <= q2 < old_self.spec_list(d).len() && (#[trigger] old_self.spec_list(d)[q2]).0 == s
                        && old_self.spec_list(d)[q2].1.spec_id() == i;
                    let p2 = old_self.spec_list(d)[q2];
                    assert(old_self.spec_list(d).contains(p2));
                    lemma_without_id_contains::<E, W>(old_self.spec_list(d), edge_id, p2);
                    assert(self.spec_list(d).contains(p2));
                    let q3 = choose|q3: int| 0 <= q3 < self.spec_list(d).len() && self.spec_list(d)[q3] == p2;
                    assert((#[trigger] self.spec_list(d)[q3]).0 == s);
                }
            }
        }
        proof {
            assert(self.wf_entries());
            assert(Self::removed_edge_model(old_self, *self, src_id, dst_id, edge_id, removed));
            if !Dir::spec_is_directed() {
                Self::lemma_balanced_remove_edge(old_self, *self, src_id, dst_id, edge_id, removed);
            }
        }
        Ok(removed)
    }
}

/// The list `new` is `old` with every entry towards `x` carrying `id` replaced by a clone of
/// `e` towards `x`.
pub open spec fn replaced<E: Edge<W> + Clone, W>(old: Seq<(usize, E)>, new: Seq<(usize, E)>, x: usize, id: usize, e: E) -> bool {
    &&& new.len() == old.len()
    &&& forall|k: int| 0 <= k < old.len() ==> if entry_is::<E, W>(#[trigger] old[k], x, id) {
            new[k].0 == x && cloned(e, new[k].1)
        } else {
            new[k] == old[k]
        }
}

impl<W, E: Edge<W>, Dir: EdgeDir> AdjList<W, E, Dir> {
    /// The effect of replacing the edge with id `edge_id` between `src` and `dst` by `edge`,
    /// as stated by `update_edge`: each stored copy becomes a clone of `edge` with that id.
    pub open spec fn updated_edge(old_l: Self, new_l: Self, src: usize, dst: usize, edge_id: usize, edge: E) -> bool {
        &&& new_l.wf()
        &&& Self::updated_edge_model(old_l, new_l, src, dst, edge_id, edge)
    }

    /// The change of the model that `updated_edge` describes, leaving well-formedness aside.
    pub open spec fn updated_edge_model(old_l: Self, new_l: Self, src: usize, dst: usize, edge_id: usize, edge: E) -> bool {
        let e = edge.spec_with_id(edge_id);
        &&& new_l.spec_vertices() == old_l.spec_vertices()
        &&& new_l.spec_vertex_count() == old_l.spec_vertex_count()
        &&& new_l.spec_total() == old_l.spec_total()
        &&& new_l.spec_reusable_vertex_ids() == old_l.spec_reusable_vertex_ids()
        &&& new_l.spec_max_edge_id() == old_l.spec_max_edge_id()
        &&& new_l.spec_ends() == old_l.spec_ends()
        &&& new_l.spec_reusable_edge_ids() == old_l.spec_reusable_edge_ids()
        &&& replaced::<E, W>(old_l.spec_list(src), new_l.spec_list(src), dst, edge_id, e)
        &&& (!Dir::spec_is_directed() && src != dst) ==> replaced::<E, W>(old_l.spec_list(dst), new_l.spec_list(dst), src, edge_id, e)
        &&& forall|v: usize| v < old_l.spec_total() && v != src && (Dir::spec_is_directed() || v != dst)
                ==> #[trigger] new_l.spec_list(v) == old_l.spec_list(v)
    }

    /// Replaces the edge with id `edge_id` from `src_id` to `dst_id` by `edge`, which takes over
    /// the id.
    ///
    /// # Returns
    /// * `Ok`: If the edge was updated.
    /// * `Err`: `VertexNotFound` if vertex `dst_id`, or else vertex `src_id`, does not exist.
    /// * `Err`: `InvalidEdgeId` if there is no edge with id `edge_id` from source to destination.
    pub fn update_edge(&mut self, src_id: usize, dst_id: usize, edge_id: usize, edge: E) -> (r: Result<(), Error>)
        requires
            old(self).wf(),
        ensures
            final(self).wf(),
            r is Ok <==> old(self).spec_has_vertex(src_id) && old(self).spec_has_vertex(dst_id)
                && old(self).list_has(src_id, dst_id, edge_id),
            r is Ok ==> Self::updated_edge(*old(self), *final(self), src_id, dst_id, edge_id, edge),
            r matches Err(e) ==> *final(self) == *old(self) && ({
                if !old(self).spec_has_vertex(src_id) || !old(self).spec_has_vertex(dst_id) {
                    &&& e.spec_kind() == crate::storage::ErrorKind::VertexNotFound
                    &&& e.spec_msg() == crate::storage::error::vnf_msg(
                        if !old(self).spec_has_vertex(dst_id) { dst_id } else { src_id })
                } else {
                    &&& e.spec_kind() == crate::storage::ErrorKind::InvalidEdgeId
                    &&& e.spec_msg() == crate::storage::error::iei_msg(src_id, dst_id, edge_id)
                }
            }),
    {
        if !self.contains_vertex(dst_id) {
            return Err(Error::new_vnf(dst_id));
        }
        if !self.contains_vertex(src_id) {
            return Err(Error::new_vnf(src_id));
        }
        match position_of(&self.edges_of[src_id], dst_id, edge_id) {
            Some(_) => {},
            None => {
                proof {
                    if self.list_has(src_id, dst_id, edge_id) {
                        let q = choose|q: int| 0 <= q < self.spec_list(src_id).len() && (#[trigger] self.spec_list(src_id)[q]).0 == dst_id
                            && self.spec_list(src_id)[q].1.spec_id() == edge_id;
                        assert(!entry_is::<E, W>(self.edges_of@[src_id as int]@[q], dst_id, edge_id));
                    }
                }
                return Err(Error::new_iei(src_id, dst_id, edge_id));
            },
        }
        let ghost old_self = *self;
        let ghost old_edge = edge;
        let mut edge = edge;
        edge.set_id(edge_id);
        proof { old_edge.lemma_with_id(edge_id); }
        let ghost e = edge;
        replace_entries(&mut self.edges_of[src_id], dst_id, edge_id, &edge);
        let ghost mid = *self;
        if !Dir::is_directed() {
            replace_entries(&mut self.edges_of[dst_id], src_id, edge_id, &edge);
        }
        proof {
            let ls = old_self.spec_list(src_id);
            // Replaced entries keep their destination and id.
            assert forall|v: usize, q: int| v < self.spec_total() && 0 <= q < self.spec_list(v).len() implies
                q < old_self.spec_list(v).len() && (#[trigger] self.spec_list(v)[q]).0 == old_self.spec_list(v)[q].0
                && self.spec_list(v)[q].1.spec_id() == old_self.spec_list(v)[q].1.spec_id() by {
                let o = old_self.spec_list(v)[q];
                let m = mid.spec_list(v)[q];
                if v == src_id {
                    if entry_is::<E, W>(o, dst_id, edge_id) {
                        e.lemma_clone_keeps_id(m.1);
                    }
                } else {
                    assert(mid.edges_of@[v as int] == old_self.edges_of@[v as int]);
                }
                if !Dir::spec_is_directed() && v == dst_id {
                    if entry_is::<E, W>(m, src_id, edge_id) {
                        e.lemma_clone_keeps_id(self.spec_list(v)[q].1);
                    }
                } else {
                    assert(self.edges_of@[v as int] == mid.edges_of@[v as int]);
                }
            }
            assert forall|v: usize| v < old_self.spec_total() && v != src_id && (Dir::spec_is_directed() || v != dst_id)
                implies #[trigger] self.spec_list(v) == old_self.spec_list(v) by {
                assert(mid.edges_of@[v as int] == old_self.edges_of@[v as int]);
            }
            if !Dir::spec_is_directed() && src_id == dst_id {
                assert forall|k: int| 0 <= k < ls.len() implies if entry_is::<E, W>(#[trigger] ls[k], dst_id, edge_id) {
                    self.spec_list(src_id)[k].0 == dst_id && cloned(e, self.spec_list(src_id)[k].1)
                } else {
                    self.spec_list(src_id)[k] == ls[k]
                } by {
                    if entry_is::<E, W>(ls[k], dst_id, edge_id) {
                        e.lemma_clone_keeps_id(mid.spec_list(src_id)[k].1);
                        assert(entry_is::<E, W>(mid.spec_list(src_id)[k], src_id, edge_id));
                    }
                }
            }
            assert(self.spec_vertices() =~= old_self.spec_vertices());
            assert forall|v: usize, q: int| v < self.spec_total() && 0 <= q < self.edges_of@[v as int]@.len() implies
                self.entry_ok(v, (#[trigger] self.edges_of@[v as int]@[q]).0, self.edges_of@[v as int]@[q].1.spec_id()) by {
                assert(self.spec_list(v)[q] == self.edges_of@[v as int]@[q]);
                old_self.lemma_entry_at_end(v, q);
            }
            assert forall|i: usize| #[trigger] self.edge_ends@.dom().contains(i) implies {
                let (s, d) = self.edge_ends@[i];
                &&& self.spec_has_vertex(s)
                &&& self.spec_has_vertex(d)
                &&& self.list_has(s, d, i)
                &&& (!Dir::spec_is_directed() ==> self.list_has(d, s, i))
            } by {
                let (s, d) = self.edge_ends@[i];
                assert(old_self.list_has(s, d, i));
                let q = choose|q: int| 0 <= q < old_self.spec_list(s).len() && (#[trigger] old_self.spec_list(s)[q]).0 == d
                    && old_self.spec_list(s)[q].1.spec_id() == i;
                assert(self.spec_list(s)[q].0 == d);
                if !Dir::spec_is_directed() {
                    assert(old_self.list_has(d, s, i));
                    let q2 = choose|q2: int| 0 <= q2 < old_self.spec_list(d).len() && (#[trigger] old_self.spec_list(d)[q2]).0 == s
                        && old_self.spec_list(d)[q2].1.spec_id() == i;
                    assert(self.spec_list(d)[q2].0 == s);
                }
            }
        }
        proof {
            assert(self.wf_entries());
            assert(Self::updated_edge_model(old_self, *self, src_id, dst_id, edge_id, old_edge));
            if !Dir::spec_is_directed() {
                Self::lemma_balanced_update_edge(old_self, *self, src_id, dst_id, edge_id, old_edge);
            }
        }
        Ok(())
    }
}

impl<W, E: Edge<W>, Dir: EdgeDir> AdjList<W, E, Dir> {
    /// Ids of the live edges incident to `v`.
    pub open spec fn incident_ids(&self, v: usize) -> Set<usize> {
        self.spec_ends().dom().filter(|id: usize| self.spec_ends()[id].0 == v || self.spec_ends()[id].1 == v)
    }

    /// Ids freed while the lists of slots below `u` drop what the removal of `v` takes out.
    spec fn freed_below(&self, u: int, v: usize) -> Set<usize> {
        Set::new(|id: usize| exists|w: usize| w < u && (#[trigger] removed_ids::<E, W>(self.spec_list(w), w, v)).contains(id))
    }

    /// The effect of removing vertex `v` on the model, as stated by `remove_vertex`.
    pub open spec fn removed_vertex(old_l: Self, new_l: Self, v: usize) -> bool {
        &&& new_l.wf()
        &&& Self::removed_vertex_model(old_l, new_l, v)
    }

    /// The change of the model that `removed_vertex` describes, leaving well-formedness aside.
    pub open spec fn removed_vertex_model(old_l: Self, new_l: Self, v: usize) -> bool {
        &&& new_l.spec_vertices() == old_l.spec_vertices().remove(v)
        &&& new_l.spec_vertex_count() + 1 == old_l.spec_vertex_count()
        &&& new_l.spec_total() == old_l.spec_total()
        &&& new_l.spec_reusable_vertex_ids() == old_l.spec_reusable_vertex_ids().insert(v)
        &&& new_l.spec_max_edge_id() == old_l.spec_max_edge_id()
        &&& forall|id: usize| #[trigger] new_l.spec_ends().dom().contains(id) <==>
                (old_l.spec_ends().dom().contains(id) && !old_l.incident_ids(v).contains(id))
        &&& forall|id: usize| #[trigger] new_l.spec_ends().dom().contains(id) ==> new_l.spec_ends()[id] == old_l.spec_ends()[id]
        &&& new_l.spec_reusable_edge_ids() == old_l.spec_reusable_edge_ids().union(old_l.incident_ids(v))
        &&& forall|u: usize| u < old_l.spec_total() ==> #[trigger] new_l.spec_list(u) == kept_after_removal(old_l.spec_list(u), u, v)
    }

    /// Removes the vertex with id `vertex_id` together with every edge incident to it; the ids
    /// of those edges become reusable, as does the vertex id.
    ///
    /// # Returns
    /// * `Ok`: If the vertex was removed.
    /// * `Err`: `VertexNotFound` if there is no vertex with id `vertex_id`, and nothing changes.
    pub fn remove_vertex(&mut self, vertex_id: usize) -> (r: Result<(), Error>)
        requires
            old(self).wf(),
        ensures
            final(self).wf(),
            r is Ok <==> old(self).spec_has_vertex(vertex_id),
            r is Ok ==> Self::removed_vertex(*old(self), *final(self), vertex_id),
            r matches Err(e) ==> *final(self) == *old(self) && e.spec_kind() == crate::storage::ErrorKind::VertexNotFound
                && e.spec_msg() == crate::storage::error::vnf_msg(vertex_id),
    {
        if !self.contains_vertex(vertex_id) {
            return Err(Error::new_vnf(vertex_id));
        }
        let ghost old_self = *self;
        let v = vertex_id;
        let t = self.edges_of.len();
        let mut u: usize = 0;
        while u < t
            invariant
                t == old_self.spec_total(),
                self.edges_of@.len() == t,
                u <= t,
                self.vertex_count == old_self.vertex_count,
                self.reusable_vertex_ids == old_self.reusable_vertex_ids,
                self.max_edge_id == old_self.max_edge_id,
                self.edge_ends == old_self.edge_ends,
                forall|w: usize| w < u ==> #[trigger] self.spec_list(w) == kept_after_removal(old_self.spec_list(w), w, v),
                forall|w: usize| u <= w < t ==> #[trigger] self.spec_list(w) == old_self.spec_list(w),
                self.reusable_edge_ids@ == old_self.reusable_edge_ids@.union(old_self.freed_below(u as int, v)),
            decreases t - u,
        {
            let ghost before = *self;
            drop_towards(&mut self.edges_of[u], u, v, &mut self.reusable_edge_ids);
            proof {
                assert(before.spec_list(u) == old_self.spec_list(u));
                assert(self.spec_list(u) == kept_after_removal(before.spec_list(u), u, v));
                assert forall|w: usize| w < u + 1 implies #[trigger] self.spec_list(w) == kept_after_removal(old_self.spec_list(w), w, v) by {
                    if w < u {
                        assert(before.spec_list(w) == self.spec_list(w));
                    }
                }
                assert forall|w: usize| u + 1 <= w < t implies #[trigger] self.spec_list(w) == old_self.spec_list(w) by {
                    assert(before.spec_list(w) == self.spec_list(w));
                }
                assert(old_self.freed_below(u + 1, v) =~= old_self.freed_below(u as int, v).union(
                    removed_ids::<E, W>(old_self.spec_list(u), u, v))) by {
                    assert forall|id: usize| #[trigger] old_self.freed_below(u + 1, v).contains(id) implies
                        old_self.freed_below(u as int, v).union(removed_ids::<E, W>(old_self.spec_list(u), u, v)).contains(id) by {
                        let w = choose|w: usize| w < u + 1 && (#[trigger] removed_ids::<E, W>(old_self.spec_list(w), w, v)).contains(id);
                        if w < u {
                            assert(old_self.freed_below(u as int, v).contains(id));
                        }
                    }
                }
                assert(self.reusable_edge_ids@ =~= old_self.reusable_edge_ids@.union(old_self.freed_below(u + 1, v)));
            }
            u = u + 1;
        }
        let ghost after_loop = *self;
        assert(forall|w: usize| w < t ==> #[trigger] after_loop.spec_list(w) == kept_after_removal(old_self.spec_list(w), w, v));
        let ghost inc = old_self.incident_ids(v);
        proof {
            let ends = old_self.edge_ends@;
            assert(old_self.freed_below(t as int, v) =~= inc) by {
                assert forall|id: usize| #[trigger] old_self.freed_below(t as int, v).contains(id) implies inc.contains(id) by {
                    let w = choose|w: usize| w < t && (#[trigger] removed_ids::<E, W>(old_self.spec_list(w), w, v)).contains(id);
                    let s = old_self.spec_list(w);
                    let k = choose|k: int| 0 <= k < s.len() && (w == v || (#[trigger] s[k]).0 == v) && s[k].1.spec_id() == id;
                    old_self.lemma_entry_at_end(w, k);
                }
                assert forall|id: usize| #[trigger] inc.contains(id) implies old_self.freed_below(t as int, v).contains(id) by {
                    let (s, d) = ends[id];
                    assert(old_self.list_has(s, d, id));
                    let k = choose|k: int| 0 <= k < old_self.spec_list(s).len() && (#[trigger] old_self.spec_list(s)[k]).0 == d
                        && old_self.spec_list(s)[k].1.spec_id() == id;
                    assert(removed_ids::<E, W>(old_self.spec_list(s), s, v).contains(id));
                }
            }
        }
        proof {
            self.edge_ends@ = Map::new(|id: usize| old_self.edge_ends@.dom().contains(id) && !inc.contains(id),
                |id: usize| old_self.edge_ends@[id]);
            old_self.lemma_counts();
            assert(old_self.spec_vertices().contains(v));
        }
        self.reusable_vertex_ids.insert(v);
        self.vertex_count = self.vertex_count - 1;
        proof {
            assert(self.spec_vertices() =~= old_self.spec_vertices().remove(v));
            assert(self.reusable_edge_ids@ =~= old_self.reusable_edge_ids@.union(inc));
            assert forall|id: usize| #[trigger] self.reusable_edge_ids@.contains(id) implies id < self.max_edge_id by {
                if inc.contains(id) {
                    assert(old_self.edge_ends@.dom().contains(id));
                }
            }
            assert forall|w: usize| w < self.spec_total() && !self.spec_has_vertex(w) implies
                (#[trigger] self.edges_of@[w as int])@.len() == 0 by {
                assert(after_loop.spec_list(w) == kept_after_removal(old_self.spec_list(w), w, v));
                if w != v {
                    assert(old_self.spec_list(w).len() == 0);
                }
            }
            assert forall|w: usize, k: int| w < self.spec_total() && 0 <= k < self.edges_of@[w as int]@.len() implies
                self.entry_ok(w, (#[trigger] self.edges_of@[w as int]@[k]).0, self.edges_of@[w as int]@[k].1.spec_id()) by {
                let p = self.edges_of@[w as int]@[k];
                assert(after_loop.spec_list(w) == kept_after_removal(old_self.spec_list(w), w, v));
                assert(self.spec_list(w)[k] == p);
                assert(self.spec_list(w).contains(p));
                lemma_kept_contains(old_self.spec_list(w), w, v, p);
                let k2 = choose|k2: int| 0 <= k2 < old_self.spec_list(w).len() && old_self.spec_list(w)[k2] == p;
                old_self.lemma_entry_at_end(w, k2);
            }
            assert forall|i: usize| #[trigger] self.edge_ends@.dom().contains(i) implies {
                let (s, d) = self.edge_ends@[i];
                &&& self.spec_has_vertex(s)
                &&& self.spec_has_vertex(d)
                &&& self.list_has(s, d, i)
                &&& (!Dir::spec_is_directed() ==> self.list_has(d, s, i))
            } by {
                let (s, d) = self.edge_ends@[i];
                assert(old_self.list_has(s, d, i));
                let q = choose|q: int| 0 <= q < old_self.spec_list(s).len() && (#[trigger] old_self.spec_list(s)[q]).0 == d
                    && old_self.spec_list(s)[q].1.spec_id() == i;
                let p = old_self.spec_list(s)[q];
                assert(old_self.spec_list(s).contains(p));
                assert(after_loop.spec_list(s) == kept_after_removal(old_self.spec_list(s), s, v));
                lemma_kept_contains(old_self.spec_list(s), s, v, p);
                let q1 = choose|q1: int| 0 <= q1 < self.spec_list(s).len() && self.spec_list(s)[q1] == p;
                assert((#[trigger] self.spec_list(s)[q1]).0 == d);
                if !Dir::spec_is_directed() {
                    assert(old_self.list_has(d, s, i));
                    let q2 = choose|q2: int| 0 <= q2 < old_self.spec_list(d).len() && (#[trigger] old_self.spec_list(d)[q2]).0 == s
                        && old_self.spec_list(d)[q2].1.spec_id() == i;
                    let p2 = old_self.spec_list(d)[q2];
                    assert(old_self.spec_list(d).contains(p2));
                    assert(after_loop.spec_list(d) == kept_after_removal(old_self.spec_list(d), d, v));
                    lemma_kept_contains(old_self.spec_list(d), d, v, p2);
                    let q3 = choose|q3: int| 0 <= q3 < self.spec_list(d).len() && self.spec_list(d)[q3] == p2;
                    assert((#[trigger] self.spec_list(d)[q3]).0 == s);
                }
            }
            assert forall|w: usize| w < old_self.spec_total() implies #[trigger] self.spec_list(w) == kept_after_removal(old_self.spec_list(w), w, v) by {
                assert(after_loop.spec_list(w) == kept_after_removal(old_self.spec_list(w), w, v));
            }
        }
        proof {
            assert(self.wf_entries());
            assert(Self::removed_vertex_model(old_self, *self, v));
            if !Dir::spec_is_directed() {
                Self::lemma_balanced_remove_vertex(old_self, *self, v);
            }
        }
        Ok(())
    }
}

/// The edges of the entries of `s` towards `dst`, in order.
pub open spec fn edges_towards<E>(s: Seq<(usize, E)>, dst: usize) -> Seq<E>
    decreases s.len(),
{
    if s.len() == 0 {
        Seq::empty()
    } else {
        let prev = edges_towards(s.drop_last(), dst);
        if s.last().0 == dst {
            prev.push(s.last().1)
        } else {
            prev
        }
    }
}

impl<W, E: Edge<W>, Dir: EdgeDir> AdjList<W, E, Dir> {
    /// The entries of the lists of `srcs`, list by list, as `(src, dst, edge)`.
    pub open spec fn entries_of(&self, srcs: Seq<usize>) -> Seq<(usize, usize, E)>
        decreases srcs.len(),
    {
        if srcs.len() == 0 {
            Seq::empty()
        } else {
            let v = srcs.last();
            self.entries_of(srcs.drop_last()) + self.spec_list(v).map_values(|p: (usize, E)| (v, p.0, p.1))
        }
    }

    /// All edges, as `edges()` lists them: every entry when directed; when undirected, the
    /// entries whose source is at most their destination.
    pub open spec fn spec_edges(&self) -> Seq<(usize, usize, E)> {
        let all = self.entries_of(self.spec_vertex_seq());
        if Dir::spec_is_directed() {
            all
        } else {
            upper_triples(all)
        }
    }

    // # Returns
    // * `Ok`: Containing the list of vertex `vertex_id`.
    // * `Err`: `VertexNotFound` if vertex `vertex_id` does not exist.
    fn edges_of(&self, vertex_id: usize) -> (r: Result<&Vec<(usize, E)>, Error>)
        ensures
            r is Ok <==> self.spec_has_vertex(vertex_id),
            r matches Ok(l) ==> l@ == self.spec_list(vertex_id),
            r matches Err(e) ==> e.spec_kind() == crate::storage::ErrorKind::VertexNotFound
                && e.spec_msg() == crate::storage::error::vnf_msg(vertex_id),
    {
        if !self.contains_vertex(vertex_id) {
            Err(Error::new_vnf(vertex_id))
        } else {
            Ok(&self.edges_of[vertex_id])
        }
    }

    // # Returns
    // The list of slot `vertex_id`, which only has to be in range.
    fn edges_of_unsafe(&self, vertex_id: usize) -> (l: &Vec<(usize, E)>)
        requires
            vertex_id < self.spec_total(),
        ensures
            l@ == self.spec_list(vertex_id),
    {
        &self.edges_of[vertex_id]
    }

    /// # Returns
    /// * `Ok`: All edges from vertex `src_id` as `(dst_id, edge)`, in the order of its list.
    /// * `Err`: `VertexNotFound` if vertex `src_id` does not exist.
    pub fn edges_from(&self, src_id: usize) -> (r: Result<Vec<(usize, &E)>, Error>)
        ensures
            r is Ok <==> self.spec_has_vertex(src_id),
            r matches Ok(v) ==> deref_pairs(v@) == self.spec_list(src_id),
            r matches Err(e) ==> e.spec_kind() == crate::storage::ErrorKind::VertexNotFound
                && e.spec_msg() == crate::storage::error::vnf_msg(src_id),
    {
        let l = match self.edges_of(src_id) {
            Ok(l) => l,
            Err(e) => return Err(e),
        };
        let mut out: Vec<(usize, &E)> = Vec::new();
        let mut k: usize = 0;
        while k < l.len()
            invariant
                k <= l@.len(),
                deref_pairs(out@) == l@.take(k as int),
            decreases l@.len() - k,
        {
            let ghost before = out@;
            out.push((l[k].0, &l[k].1));
            proof {
                assert(deref_pairs(out@) =~= deref_pairs(before).push(l@[k as int]));
                assert(l@.take(k + 1) =~= l@.take(k as int).push(l@[k as int]));
            }
            k = k + 1;
        }
        assert(l@.take(l@.len() as int) =~= l@);
        Ok(out)
    }

    /// # Returns
    /// * `Ok`: Destinations of the edges from vertex `src_id`, in the order of its list (a
    ///   destination reached by several edges comes once per edge).
    /// * `Err`: `VertexNotFound` if vertex `src_id` does not exist.
    pub fn neighbors(&self, src_id: usize) -> (r: Result<Vec<usize>, Error>)
        ensures
            r is Ok <==> self.spec_has_vertex(src_id),
            r matches Ok(v) ==> v@ == self.spec_list(src_id).map_values(|p: (usize, E)| p.0),
            r matches Err(e) ==> e.spec_kind() == crate::storage::ErrorKind::VertexNotFound
                && e.spec_msg() == crate::storage::error::vnf_msg(src_id),
    {
        let l = match self.edges_of(src_id) {
            Ok(l) => l,
            Err(e) => return Err(e),
        };
        let mut out: Vec<usize> = Vec::new();
        let mut k: usize = 0;
        while k < l.len()
            invariant
                k <= l@.len(),
                out@ == l@.take(k as int).map_values(|p: (usize, E)| p.0),
            decreases l@.len() - k,
        {
            out.push(l[k].0);
            proof {
                assert(l@.take(k + 1).map_values(|p: (usize, E)| p.0) =~= l@.take(k as int).map_values(|p: (usize, E)| p.0).push(l@[k as int].0));
            }
            k = k + 1;
        }
        assert(l@.take(l@.len() as int) =~= l@);
        Ok(out)
    }

    /// # Returns
    /// * `Ok`: Edges from vertex `src_id` to vertex `dst_id`, in the order of the list of `src_id`.
    /// * `Err`: `VertexNotFound` if vertex `src_id`, or else vertex `dst_id`, does not exist.
    pub fn edges_between(&self, src_id: usize, dst_id: usize) -> (r: Result<Vec<&E>, Error>)
        ensures
            r is Ok <==> self.spec_has_vertex(src_id) && self.spec_has_vertex(dst_id),
            r matches Ok(v) ==> deref_edges(v@) == edges_towards(self.spec_list(src_id), dst_id),
            r matches Err(e) ==> e.spec_kind() == crate::storage::ErrorKind::VertexNotFound
                && e.spec_msg() == crate::storage::error::vnf_msg(
                    if !self.spec_has_vertex(src_id) { src_id } else { dst_id }),
    {
        let l = match self.edges_of(src_id) {
            Ok(l) => l,
            Err(e) => return Err(e),
        };
        if !self.contains_vertex(dst_id) {
            return Err(Error::new_vnf(dst_id));
        }
        let mut out: Vec<&E> = Vec::new();
        let mut k: usize = 0;
        while k < l.len()
            invariant
                k <= l@.len(),
                deref_edges(out@) == edges_towards(l@.take(k as int), dst_id),
            decreases l@.len() - k,
        {
            let ghost before = out@;
            if l[k].0 == dst_id {
                out.push(&l[k].1);
                proof {
                    assert(deref_edges(out@) =~= deref_edges(before).push(l@[k as int].1));
                }
            }
            proof {
                let t = l@.take(k + 1);
                assert(t.drop_last() =~= l@.take(k as int));
                assert(t.last() == l@[k as int]);
            }
            k = k + 1;
        }
        assert(l@.take(l@.len() as int) =~= l@);
        Ok(out)
    }

    /// # Returns
    /// * `Ok`: Containing an edge with id `edge_id` from `src_id` to `dst_id`.
    /// * `Err`: `VertexNotFound` if vertex `src_id`, or else vertex `dst_id`, does not exist.
    /// * `Err`: `InvalidEdgeId` if there is no edge with id `edge_id` from source to destination.
    pub fn edge_between(&self, src_id: usize, dst_id: usize, edge_id: usize) -> (r: Result<&E, Error>)
        ensures
            r is Ok <==> self.spec_has_vertex(src_id) && self.spec_has_vertex(dst_id)
                && self.list_has(src_id, dst_id, edge_id),
            r matches Ok(e) ==> e.spec_id() == edge_id && self.spec_list(src_id).contains((dst_id, *e)),
            r matches Err(e) ==> {
                if !self.spec_has_vertex(src_id) || !self.spec_has_vertex(dst_id) {
                    &&& e.spec_kind() == crate::storage::ErrorKind::VertexNotFound
                    &&& e.spec_msg() == crate::storage::error::vnf_msg(
                        if !self.spec_has_vertex(src_id) { src_id } else { dst_id })
                } else {
                    &&& e.spec_kind() == crate::storage::ErrorKind::InvalidEdgeId
                    &&& e.spec_msg() == crate::storage::error::iei_msg(src_id, dst_id, edge_id)
                }
            },
    {
        let l = match self.edges_of(src_id) {
            Ok(l) => l,
            Err(e) => return Err(e),
        };
        if !self.contains_vertex(dst_id) {
            return Err(Error::new_vnf(dst_id));
        }
        match position_of(l, dst_id, edge_id) {
            Some(k) => {
                proof {
                    assert(self.spec_list(src_id)[k as int] == l@[k as int]);
                    assert(entry_is::<E, W>(self.spec_list(src_id)[k as int], dst_id, edge_id));
                }
                Ok(&l[k].1)
            },
            None => {
                proof {
                    if self.list_has(src_id, dst_id, edge_id) {
                        let q = choose|q: int| 0 <= q < self.spec_list(src_id).len() && (#[trigger] self.spec_list(src_id)[q]).0 == dst_id
                            && self.spec_list(src_id)[q].1.spec_id() == edge_id;
                        assert(!entry_is::<E, W>(l@[q], dst_id, edge_id));
                    }
                }
                Err(Error::new_iei(src_id, dst_id, edge_id))
            },
        }
    }

    /// # Returns
    /// * `Ok`: `true` if there is any edge from `src_id` to `dst_id`, `false` otherwise.
    /// * `Err`: `VertexNotFound` if vertex `src_id`, or else vertex `dst_id`, does not exist.
    pub fn has_any_edge(&self, src_id: usize, dst_id: usize) -> (r: Result<bool, Error>)
        ensures
            r is Ok <==> self.spec_has_vertex(src_id) && self.spec_has_vertex(dst_id),
            r matches Ok(b) ==> b == exists|k: int| 0 <= k < self.spec_list(src_id).len()
                && (#[trigger] self.spec_list(src_id)[k]).0 == dst_id,
            r matches Err(e) ==> e.spec_kind() == crate::storage::ErrorKind::VertexNotFound
                && e.spec_msg() == crate::storage::error::vnf_msg(
                    if !self.spec_has_vertex(src_id) { src_id } else { dst_id }),
    {
        let l = match self.edges_of(src_id) {
            Ok(l) => l,
            Err(e) => return Err(e),
        };
        if !self.contains_vertex(dst_id) {
            return Err(Error::new_vnf(dst_id));
        }
        let mut k: usize = 0;
        while k < l.len()
            invariant
                k <= l@.len(),
                l@ == self.spec_list(src_id),
                self.spec_has_vertex(src_id) && self.spec_has_vertex(dst_id),
                forall|q: int| 0 <= q < k ==> (#[trigger] l@[q]).0 != dst_id,
            decreases l@.len() - k,
        {
            if l[k].0 == dst_id {
                assert(self.spec_list(src_id)[k as int].0 == dst_id);
                return Ok(true);
            }
            k = k + 1;
        }
        proof {
            assert forall|q: int| 0 <= q < self.spec_list(src_id).len() implies (#[trigger] self.spec_list(src_id)[q]).0 != dst_id by {
                assert(l@[q] == self.spec_list(src_id)[q]);
            }
        }
        Ok(false)
    }
}

impl<W, E: Edge<W>, Dir: EdgeDir> AdjList<W, E, Dir> {
    /// Every entry of every list as `(src_id, dst_id, edge)`, vertex by vertex in increasing
    /// order: an undirected edge comes once from each end (a self loop twice).
    pub fn as_directed_edges(&self) -> (r: Vec<(usize, usize, &E)>)
        ensures
            deref_triples(r@) == self.entries_of(self.spec_vertex_seq()),
    {
        let vs = self.vertices();
        proof { self.lemma_present_upto(self.spec_total()); }
        let mut out: Vec<(usize, usize, &E)> = Vec::new();
        let mut a: usize = 0;
        while a < vs.len()
            invariant
                vs@ == self.spec_vertex_seq(),
                forall|i: int| 0 <= i < vs@.len() ==> #[trigger] self.spec_has_vertex(vs@[i]),
                a <= vs@.len(),
                deref_triples(out@) == self.entries_of(vs@.take(a as int)),
            decreases vs@.len() - a,
        {
            let src_id = vs[a];
            assert(self.spec_has_vertex(vs@[a as int]));
            let l = self.edges_of_unsafe(src_id);
            let ghost row_start = deref_triples(out@);
            let mut b: usize = 0;
            while b < l.len()
                invariant
                    b <= l@.len(),
                    deref_triples(out@) == row_start + l@.take(b as int).map_values(|p: (usize, E)| (src_id, p.0, p.1)),
                decreases l@.len() - b,
            {
                let ghost before = out@;
                out.push((src_id, l[b].0, &l[b].1));
                proof {
                    assert(deref_triples(out@) =~= deref_triples(before).push((src_id, l@[b as int].0, l@[b as int].1)));
                    assert(l@.take(b + 1).map_values(|p: (usize, E)| (src_id, p.0, p.1)) =~=
                        l@.take(b as int).map_values(|p: (usize, E)| (src_id, p.0, p.1)).push((src_id, l@[b as int].0, l@[b as int].1)));
                }
                b = b + 1;
            }
            proof {
                assert(l@.take(l@.len() as int) =~= l@);
                let t = vs@.take(a as int + 1);
                assert(t.drop_last() =~= vs@.take(a as int));
                assert(t.last() == vs@[a as int]);
            }
            a = a + 1;
        }
        assert(vs@.take(vs@.len() as int) =~= vs@);
        out
    }

    /// All edges as `(src_id, dst_id, edge)`. A directed storage lists every edge as
    /// `as_directed_edges` does; an undirected one lists the entries with `src_id <= dst_id`.
    pub fn edges(&self) -> (r: Vec<(usize, usize, &E)>)
        ensures
            deref_triples(r@) == self.spec_edges(),
    {
        let all = self.as_directed_edges();
        if Dir::is_directed() {
            return all;
        }
        let mut out: Vec<(usize, usize, &E)> = Vec::new();
        let mut k: usize = 0;
        while k < all.len()
            invariant
                k <= all@.len(),
                deref_triples(out@) == upper_triples(deref_triples(all@).take(k as int)),
            decreases all@.len() - k,
        {
            let ghost before = out@;
            let t = all[k];
            if t.0 <= t.1 {
                out.push(t);
                proof {
                    assert(deref_triples(out@) =~= deref_triples(before).push((t.0, t.1, *t.2)));
                }
            }
            proof {
                let s = deref_triples(all@).take(k as int + 1);
                assert(s.drop_last() =~= deref_triples(all@).take(k as int));
                assert(s.last() == (t.0, t.1, *t.2));
            }
            k = k + 1;
        }
        assert(deref_triples(all@).take(all@.len() as int) =~= deref_triples(all@));
        out
    }

    /// # Returns
    /// * `Ok`: Containing the edge with id `edge_id`, as stored at one of its ends.
    /// * `Err`: `EdgeNotFound` if there is no such edge.
    pub fn edge(&self, edge_id: usize) -> (r: Result<&E, Error>)
        requires
            self.wf(),
        ensures
            r is Ok <==> self.spec_ends().dom().contains(edge_id),
            r matches Ok(e) ==> e.spec_id() == edge_id && ({
                let (s, d) = self.spec_ends()[edge_id];
                self.spec_list(s).contains((d, *e)) || self.spec_list(d).contains((s, *e))
            }),
            r matches Err(e) ==> e.spec_kind() == crate::storage::ErrorKind::EdgeNotFound
                && e.spec_msg() == crate::storage::error::enf_msg(edge_id),
    {
        let t = self.edges_of.len();
        let mut v: usize = 0;
        while v < t
            invariant
                self.wf(),
                t == self.spec_total(),
                v <= t,
                forall|w: usize, k: int| w < v && 0 <= k < self.spec_list(w).len() ==> (#[trigger] self.spec_list(w)[k]).1.spec_id() != edge_id,
            decreases t - v,
        {
            let l = self.edges_of_unsafe(v);
            let mut k: usize = 0;
            while k < l.len()
                invariant
                    self.wf(),
                    v < self.spec_total(),
                    l@ == self.spec_list(v),
                    k <= l@.len(),
                    forall|q: int| 0 <= q < k ==> (#[trigger] l@[q]).1.spec_id() != edge_id,
                decreases l@.len() - k,
            {
                if l[k].1.get_id() == edge_id {
                    proof {
                        self.lemma_entry_at_end(v, k as int);
                        assert(self.spec_list(v)[k as int] == l@[k as int]);
                        assert(self.spec_list(v).contains(l@[k as int]));
                    }
                    return Ok(&l[k].1);
                }
                k = k + 1;
            }
            proof {
                assert forall|w: usize, q: int| w < v + 1 && 0 <= q < self.spec_list(w).len() implies
                    (#[trigger] self.spec_list(w)[q]).1.spec_id() != edge_id by {
                    if w == v {
                        assert(l@[q] == self.spec_list(w)[q]);
                    }
                }
            }
            v = v + 1;
        }
        proof {
            if self.edge_ends@.dom().contains(edge_id) {
                let (s, d) = self.edge_ends@[edge_id];
                assert(self.list_has(s, d, edge_id));
                let q = choose|q: int| 0 <= q < self.spec_list(s).len() && (#[trigger] self.spec_list(s)[q]).0 == d
                    && self.spec_list(s)[q].1.spec_id() == edge_id;
                assert(false);
            }
        }
        Err(Error::new_enf(edge_id))
    }
}

/// The elements of `s` whose flag in `keep` is set, in order.
pub open spec fn selected<A>(s: Seq<A>, keep: Seq<bool>) -> Seq<A>
    decreases s.len(),
{
    if s.len() == 0 || keep.len() == 0 {
        Seq::empty()
    } else {
        let prev = selected(s.drop_last(), keep.drop_last());
        if keep.last() {
            prev.push(s.last())
        } else {
            prev
        }
    }
}

/// Each selected element is an element whose flag is set.
pub proof fn lemma_selected_from<A>(s: Seq<A>, keep: Seq<bool>, q: int)
    requires
        keep.len() == s.len(),
        0 <= q < selected(s, keep).len(),
    ensures
        exists|i: int| 0 <= i < s.len() && keep[i] && s[i] == #[trigger] selected(s, keep)[q],
    decreases s.len(),
{
    let prev = selected(s.drop_last(), keep.drop_last());
    if q < prev.len() {
        lemma_selected_from(s.drop_last(), keep.drop_last(), q);
        let i = choose|i: int| 0 <= i < s.drop_last().len() && keep.drop_last()[i] && s.drop_last()[i] == #[trigger] prev[q];
        assert(selected(s, keep)[q] == prev[q]);
        assert(s[i] == s.drop_last()[i]);
    } else {
        let i = s.len() - 1;
        assert(keep[i] && s[i] == selected(s, keep)[q]);
    }
}

// # Returns
// Position of `x` in `v`, if it is there.
fn index_in(v: &Vec<usize>, x: usize) -> (r: Option<usize>)
    ensures
        match r {
            Some(k) => k < v@.len() && v@[k as int] == x,
            None => !v@.contains(x),
        },
{
    let mut k: usize = 0;
    while k < v.len()
        invariant
            k <= v@.len(),
            forall|q: int| 0 <= q < k ==> v@[q] != x,
        decreases v@.len() - k,
    {
        if v[k] == x {
            return Some(k);
        }
        k = k + 1;
    }
    None
}

/// The list of vertex `v` after adding, in order, the edges whose ends are `ends`, each
/// entry given as (neighbor, index of the edge in `ends`): an edge from `s` to `d` appends
/// `(d, j)` to the list of `s` and, when undirected, then `(s, j)` to the list of `d` (a
/// self loop twice to one list).
pub open spec fn list_skeleton(ends: Seq<(usize, usize)>, v: usize, directed: bool) -> Seq<(usize, usize)>
    decreases ends.len(),
{
    if ends.len() == 0 {
        Seq::empty()
    } else {
        let j = (ends.len() - 1) as usize;
        let prev = list_skeleton(ends.drop_last(), v, directed);
        let (s, d) = ends.last();
        let a = if s == v { prev.push((d, j)) } else { prev };
        if !directed && d == v { a.push((s, j)) } else { a }
    }
}

/// The list `l` follows the skeleton `sk`: entry `k` points to `sk[k].0` and holds, with id
/// `sk[k].1`, a clone of the edge `copies[sk[k].1]` given that id.
pub open spec fn list_matches<E: Edge<W>, W>(l: Seq<(usize, E)>, sk: Seq<(usize, usize)>, copies: Seq<E>) -> bool {
    &&& l.len() == sk.len()
    &&& forall|k: int| 0 <= k < sk.len() ==> {
            &&& (#[trigger] l[k]).0 == sk[k].0
            &&& l[k].1.spec_id() == sk[k].1
            &&& cloned(copies[sk[k].1 as int].spec_with_id(sk[k].1), l[k].1)
        }
}

impl<W, E: Edge<W>, Dir: EdgeDir> AdjList<W, E, Dir> {
    /// Adding an edge only appends to lists: what a list held, it still holds.
    proof fn lemma_added_edge_keeps(old_l: Self, new_l: Self, src: usize, dst: usize, edge: E, id: usize, v: usize, p: (usize, E))
        requires
            Self::added_edge(old_l, new_l, src, dst, edge, id),
            v < old_l.spec_total(),
            old_l.spec_list(v).contains(p),
        ensures
            new_l.spec_list(v).contains(p),
    {
        let e = edge.spec_with_id(id);
        let ol = old_l.spec_list(v);
        let k = choose|k: int| 0 <= k < ol.len() && ol[k] == p;
        if v == src && (Dir::spec_is_directed() || src != dst) {
            assert(new_l.spec_list(v)[k] == ol.push((dst, e))[k]);
        } else if !Dir::spec_is_directed() && v == dst {
            let mid = Self::list_before_back_entry(old_l, src, dst, e);
            assert(new_l.spec_list(v).drop_last()[k] == new_l.spec_list(v)[k]);
            assert(mid[k] == ol[k]);
        } else {
            assert(new_l.spec_list(v) == ol);
        }
    }

    /// Adding the edge with index `id` (the number of edges added so far) keeps each list in
    /// step with its skeleton.
    proof fn lemma_filter_list_step(old_l: Self, new_l: Self, src: usize, dst: usize, c: E, id: usize, v: usize,
        pos: Seq<(usize, usize)>, copies: Seq<E>)
        requires
            Self::added_edge(old_l, new_l, src, dst, c, id),
            id == pos.len(),
            copies.len() == pos.len(),
            v < old_l.spec_total(),
            list_matches::<E, W>(old_l.spec_list(v), list_skeleton(pos, v, Dir::spec_is_directed()), copies),
        ensures
            list_matches::<E, W>(new_l.spec_list(v), list_skeleton(pos.push((src, dst)), v, Dir::spec_is_directed()),
                copies.push(c)),
    {
        let dir = Dir::spec_is_directed();
        let np = pos.push((src, dst));
        let nc = copies.push(c);
        assert(np.drop_last() =~= pos);
        let sk0 = list_skeleton(pos, v, dir);
        let sk1 = list_skeleton(np, v, dir);
        let ol = old_l.spec_list(v);
        let nl = new_l.spec_list(v);
        let e = c.spec_with_id(id);
        assert(nc[id as int] == c);
        assert forall|k: int| 0 <= k < sk0.len() implies sk0[k].1 < id && #[trigger] nc[sk0[k].1 as int] == copies[sk0[k].1 as int] by {
            Self::lemma_skeleton_indices(pos, v, k);
        }
        if v == src && (dir || src != dst) {
            assert(sk1 =~= sk0.push((dst, id)));
            assert(nl == ol.push((dst, e)));
            assert forall|k: int| 0 <= k < sk1.len() implies {
                &&& (#[trigger] nl[k]).0 == sk1[k].0
                &&& nl[k].1.spec_id() == sk1[k].1
                &&& cloned(nc[sk1[k].1 as int].spec_with_id(sk1[k].1), nl[k].1)
            } by {
                if k == sk0.len() {
                    c.lemma_with_id(id);
                } else {
                    assert(nl[k] == ol[k]);
                    assert(sk1[k] == sk0[k]);
                }
            }
        } else if !dir && v == dst {
            let mid = Self::list_before_back_entry(old_l, src, dst, e);
            let a = if src == v { sk0.push((dst, id)) } else { sk0 };
            assert(sk1 =~= a.push((src, id)));
            assert(nl.drop_last() == mid);
            assert forall|k: int| 0 <= k < sk1.len() implies {
                &&& (#[trigger] nl[k]).0 == sk1[k].0
                &&& nl[k].1.spec_id() == sk1[k].1
                &&& cloned(nc[sk1[k].1 as int].spec_with_id(sk1[k].1), nl[k].1)
            } by {
                if k == sk1.len() - 1 {
                    assert(nl[k] == nl.last());
                } else {
                    assert(nl[k] == mid[k]);
                    assert(sk1[k] == a[k]);
                    if k == sk0.len() {
                        c.lemma_with_id(id);
                    } else {
                        assert(a[k] == sk0[k]);
                        assert(mid[k] == ol[k]);
                    }
                }
            }
        } else {
            assert(sk1 =~= sk0);
            assert(nl == ol);
        }
    }

    /// The entries of a skeleton refer to edges of `ends`.
    proof fn lemma_skeleton_indices(ends: Seq<(usize, usize)>, v: usize, k: int)
        requires
            0 <= k < list_skeleton(ends, v, Dir::spec_is_directed()).len(),
        ensures
            list_skeleton(ends, v, Dir::spec_is_directed())[k].1 < ends.len(),
        decreases ends.len(),
    {
        let dir = Dir::spec_is_directed();
        let prev = list_skeleton(ends.drop_last(), v, dir);
        if k < prev.len() {
            Self::lemma_skeleton_indices(ends.drop_last(), v, k);
            let (s, d) = ends.last();
            let a = if s == v { prev.push((d, (ends.len() - 1) as usize)) } else { prev };
            assert(a[k] == prev[k]);
        }
    }

    /// What `filter` builds, given the answers of the filters: `kv` for each vertex of
    /// `vertices()`, `ke` for each entry of `edges()` (false without asking when an end was
    /// dropped), and `copies`, the clones of the kept edges. The kept vertices become
    /// `0..n` in order; the `j`-th kept edge gets id `j` and joins the new ids of its ends;
    /// each list holds exactly the entries that adding the kept edges in order gives it.
    pub open spec fn filter_result<F: Fn(&usize) -> bool, G: Fn(&usize, &usize, &E) -> bool>(
        &self, r: Self, vertex_filter: F, edge_filter: G, kv: Seq<bool>, ke: Seq<bool>, copies: Seq<E>) -> bool
    {
        let vs = self.spec_vertex_seq();
        let es = self.spec_edges();
        let fv = selected(vs, kv);
        let kept = selected(es, ke);
        &&& kv.len() == vs.len()
        &&& forall|i: int| 0 <= i < vs.len() ==> vertex_filter.ensures((&vs[i],), #[trigger] kv[i])
        &&& ke.len() == es.len()
        &&& forall|i: int| 0 <= i < es.len() ==> (#[trigger] ke[i] ==> fv.contains(es[i].0) && fv.contains(es[i].1))
        &&& forall|i: int| 0 <= i < es.len() && fv.contains(es[i].0) && fv.contains(es[i].1)
                ==> edge_filter.ensures((&es[i].0, &es[i].1, &es[i].2), #[trigger] ke[i])
        &&& r.wf()
        &&& r.spec_total() == fv.len()
        &&& r.spec_vertex_count() == fv.len()
        &&& r.spec_reusable_vertex_ids().is_empty()
        &&& r.spec_reusable_edge_ids().is_empty()
        &&& r.spec_max_edge_id() == kept.len()
        &&& copies.len() == kept.len()
        &&& forall|j: usize| #[trigger] r.spec_ends().dom().contains(j) <==> j < kept.len()
        &&& forall|j: usize| j < kept.len() ==> {
                let (s, d) = #[trigger] r.spec_ends()[j];
                &&& s < fv.len() && fv[s as int] == kept[j as int].0
                &&& d < fv.len() && fv[d as int] == kept[j as int].1
                &&& cloned(kept[j as int].2, copies[j as int])
                &&& r.spec_list(s).contains((d, copies[j as int].spec_with_id(j)))
            }
        &&& forall|v: usize| v < fv.len() ==> #[trigger] list_matches::<E, W>(r.spec_list(v),
                list_skeleton(r.ends_upto(kept.len()), v, Dir::spec_is_directed()),
                copies)
    }

    /// # Returns
    /// A new storage holding the vertices that `vertex_filter` keeps, renumbered `0..n` in
    /// increasing order of their old ids, and clones of the edges of `edges()` whose ends
    /// are both kept and that `edge_filter` keeps, added in that order.
    pub fn filter<F: Fn(&usize) -> bool, G: Fn(&usize, &usize, &E) -> bool>(&self, vertex_filter: F, edge_filter: G) -> (r: Self)
        requires
            self.wf(),
            forall|v: &usize| #[trigger] vertex_filter.requires((v,)),
            forall|s: &usize, d: &usize, e: &E| #[trigger] edge_filter.requires((s, d, e)),
        ensures
            exists|kv: Seq<bool>, ke: Seq<bool>, copies: Seq<E>|
                #[trigger] self.filter_result(r, vertex_filter, edge_filter, kv, ke, copies),
    {
        let vs = self.vertices();
        let mut fv: Vec<usize> = Vec::new();
        let ghost mut kv: Seq<bool> = Seq::empty();
        let mut i: usize = 0;
        while i < vs.len()
            invariant
                vs@ == self.spec_vertex_seq(),
                i <= vs@.len(),
                kv.len() == i,
                fv@ == selected(vs@.take(i as int), kv),
                fv@.len() <= i,
                forall|q: int| 0 <= q < i ==> vertex_filter.ensures((&vs@[q],), #[trigger] kv[q]),
                forall|v: &usize| #[trigger] vertex_filter.requires((v,)),
            decreases vs@.len() - i,
        {
            let b = vertex_filter(&vs[i]);
            if b {
                fv.push(vs[i]);
            }
            proof {
                let t = vs@.take(i + 1);
                assert(t.drop_last() =~= vs@.take(i as int));
                assert(kv.push(b).drop_last() =~= kv);
                kv = kv.push(b);
            }
            i = i + 1;
        }
        assert(vs@.take(vs@.len() as int) =~= vs@);
        let es = self.edges();
        let mut kept: Vec<(usize, usize, &E)> = Vec::new();
        let ghost mut ke: Seq<bool> = Seq::empty();
        let mut i: usize = 0;
        while i < es.len()
            invariant
                deref_triples(es@) == self.spec_edges(),
                fv@ == selected(self.spec_vertex_seq(), kv),
                i <= es@.len(),
                ke.len() == i,
                deref_triples(kept@) == selected(deref_triples(es@).take(i as int), ke),
                kept@.len() <= i,
                forall|q: int| 0 <= q < i ==> (#[trigger] ke[q] ==> fv@.contains(es@[q].0) && fv@.contains(es@[q].1)),
                forall|q: int| 0 <= q < i && fv@.contains(es@[q].0) && fv@.contains(es@[q].1)
                    ==> edge_filter.ensures((&es@[q].0, &es@[q].1, es@[q].2), #[trigger] ke[q]),
                forall|s: &usize, d: &usize, e: &E| #[trigger] edge_filter.requires((s, d, e)),
            decreases es@.len() - i,
        {
            let (s, d, e) = es[i];
            let keep = match index_in(&fv, s) {
                Some(_) => match index_in(&fv, d) {
                    Some(_) => edge_filter(&s, &d, e),
                    None => false,
                },
                None => false,
            };
            if keep {
                kept.push((s, d, e));
            }
            proof {
                let t = deref_triples(es@).take(i + 1);
                assert(t.drop_last() =~= deref_triples(es@).take(i as int));
                assert(ke.push(keep).drop_last() =~= ke);
                assert(t.last() == (s, d, *e));
                if keep {
                    assert(deref_triples(kept@) =~= selected(deref_triples(es@).take(i as int), ke).push((s, d, *e)));
                }
                ke = ke.push(keep);
            }
            i = i + 1;
        }
        assert(deref_triples(es@).take(es@.len() as int) =~= deref_triples(es@));
        proof {
            let kept_spec = deref_triples(kept@);
            assert forall|q: int| 0 <= q < kept_spec.len() implies fv@.contains(#[trigger] kept_spec[q].0) && fv@.contains(kept_spec[q].1) by {
                lemma_selected_from(deref_triples(es@), ke, q);
                let i = choose|i: int| 0 <= i < deref_triples(es@).len() && ke[i] && deref_triples(es@)[i] == #[trigger] selected(deref_triples(es@), ke)[q];
                assert(deref_triples(es@)[i].0 == es@[i].0);
            }
        }
        let n = fv.len();
        let mut storage = Self::init();
        let mut i: usize = 0;
        while i < n
            invariant
                n == fv@.len(),
                i <= n,
                storage.wf(),
                storage.spec_total() == i,
                storage.spec_vertex_count() == i,
                storage.spec_reusable_vertex_ids().is_empty(),
                storage.spec_reusable_edge_ids().is_empty(),
                storage.spec_max_edge_id() == 0,
                storage.spec_ends().dom().is_empty(),
                forall|v: usize| v < i ==> (#[trigger] storage.spec_list(v)).len() == 0,
            decreases n - i,
        {
            let ghost before = storage;
            let added = storage.add_vertex();
            proof {
                assert(before.spec_reusable_vertex_ids() =~= Set::<usize>::empty());
                assert(added == i);
            }
            i = i + 1;
        }
        let ghost mut copies: Seq<E> = Seq::empty();
        let ghost mut pos: Seq<(usize, usize)> = Seq::empty();
        let ghost kept_spec = deref_triples(kept@);
        proof {
            assert forall|v: usize| v < n implies #[trigger] list_matches::<E, W>(storage.spec_list(v),
                list_skeleton(pos, v, Dir::spec_is_directed()), copies) by {
                assert(storage.spec_list(v).len() == 0);
            }
        }
        let mut j: usize = 0;
        while j < kept.len()
            invariant
                n == fv@.len(),
                kept_spec == deref_triples(kept@),
                forall|q: int| 0 <= q < kept_spec.len() ==> fv@.contains(#[trigger] kept_spec[q].0) && fv@.contains(kept_spec[q].1),
                j <= kept@.len(),
                storage.wf(),
                storage.spec_total() == n,
                storage.spec_vertex_count() == n,
                storage.spec_reusable_vertex_ids().is_empty(),
                storage.spec_reusable_edge_ids().is_empty(),
                storage.spec_max_edge_id() == j,
                copies.len() == j,
                forall|x: usize| #[trigger] storage.spec_ends().dom().contains(x) <==> x < j,
                forall|x: usize| x < j ==> {
                    let (s, d) = #[trigger] storage.spec_ends()[x];
                    &&& s < n && fv@[s as int] == kept_spec[x as int].0
                    &&& d < n && fv@[d as int] == kept_spec[x as int].1
                    &&& cloned(kept_spec[x as int].2, copies[x as int])
                    &&& storage.spec_list(s).contains((d, copies[x as int].spec_with_id(x)))
                },
                pos.len() == j,
                forall|x: usize| x < j ==> #[trigger] storage.spec_ends()[x] == pos[x as int],
                forall|v: usize| v < n ==> #[trigger] list_matches::<E, W>(storage.spec_list(v),
                    list_skeleton(pos, v, Dir::spec_is_directed()), copies),
            decreases kept@.len() - j,
        {
            let (s, d, e) = kept[j];
            proof {
                assert(kept_spec[j as int] == (s, d, *e));
                assert(fv@.contains(kept_spec[j as int].0));
            }
            let ps = match index_in(&fv, s) {
                Some(k) => k,
                None => vstd::pervasive::unreached(),
            };
            let pd = match index_in(&fv, d) {
                Some(k) => k,
                None => vstd::pervasive::unreached(),
            };
            let c = e.clone();
            let ghost before = storage;
            proof {
                assert(before.spec_reusable_edge_ids() =~= Set::<usize>::empty());
                assert(before.spec_has_vertex(ps) && before.spec_has_vertex(pd));
            }
            let r = storage.add_edge(ps, pd, c);
            let id = match r {
                Ok(id) => id,
                Err(_) => vstd::pervasive::unreached(),
            };
            proof {
                assert(id == j);
                let e_new = c.spec_with_id(id);
                assert(storage.spec_list(ps).contains((pd, e_new))) by {
                    if Dir::spec_is_directed() || ps != pd {
                        let n0 = before.spec_list(ps).len() as int;
                        assert(storage.spec_list(ps)[n0] == (pd, e_new));
                    } else {
                        let mid = Self::list_before_back_entry(before, ps, pd, e_new);
                        let n0 = before.spec_list(ps).len() as int;
                        assert(mid[n0] == (pd, e_new));
                        assert(storage.spec_list(pd).drop_last()[n0] == storage.spec_list(pd)[n0]);
                    }
                }
                assert forall|x: usize| x < j implies {
                    let (s2, d2) = #[trigger] storage.spec_ends()[x];
                    storage.spec_list(s2).contains((d2, copies[x as int].spec_with_id(x)))
                } by {
                    let (s2, d2) = before.spec_ends()[x];
                    assert(before.spec_ends().dom().contains(x));
                    Self::lemma_added_edge_keeps(before, storage, ps, pd, c, id, s2, (d2, copies[x as int].spec_with_id(x)));
                }
                let ghost old_copies = copies;
                let ghost old_pos = pos;
                copies = copies.push(c);
                pos = pos.push((ps, pd));
                assert(pos.drop_last() =~= old_pos);
                assert forall|v: usize| v < n implies #[trigger] list_matches::<E, W>(storage.spec_list(v),
                    list_skeleton(pos, v, Dir::spec_is_directed()), copies) by {
                    Self::lemma_filter_list_step(before, storage, ps, pd, c, id, v, old_pos, old_copies);
                }
            }
            j = j + 1;
        }
        proof {
            assert(storage.ends_upto(kept_spec.len()) =~= pos);
            assert(self.filter_result(storage, vertex_filter, edge_filter, kv, ke, copies));
        }
        storage
    }
}

/// Copies a set of ids.
///
/// Calls `Clone::clone` of std's `HashSet`, which the contract takes to give a set with the
/// same elements.
#[verifier::external_body]
fn copy_ids(set: &HashSet<usize>) -> (r: HashSet<usize>)
    ensures
        r@ == set@,
{
    set.clone()
}

// # Returns
// A list whose entries point where those of `l` point, each with a clone of its edge.
fn clone_list<W, E: Edge<W>>(l: &Vec<(usize, E)>) -> (r: Vec<(usize, E)>)
    ensures
        r@.len() == l@.len(),
        forall|k: int| 0 <= k < l@.len() ==> (#[trigger] r@[k]).0 == l@[k].0 && cloned(l@[k].1, r@[k].1)
            && r@[k].1.spec_id() == l@[k].1.spec_id(),
{
    let mut r: Vec<(usize, E)> = Vec::new();
    let mut k: usize = 0;
    while k < l.len()
        invariant
            k <= l@.len(),
            r@.len() == k,
            forall|q: int| 0 <= q < k ==> (#[trigger] r@[q]).0 == l@[q].0 && cloned(l@[q].1, r@[q].1)
                && r@[q].1.spec_id() == l@[q].1.spec_id(),
        decreases l@.len() - k,
    {
        let c = l[k].1.clone();
        proof { l@[k as int].1.lemma_clone_keeps_id(c); }
        r.push((l[k].0, c));
        k = k + 1;
    }
    r
}

impl<W, E: Edge<W>, Dir: EdgeDir> Clone for AdjList<W, E, Dir> {
    /// # Returns
    /// A storage with the same vertices, ids and lists, each entry holding a clone of the edge.
    fn clone(&self) -> (r: Self)
        ensures
            self.wf() ==> r.wf(),
            r.spec_total() == self.spec_total(),
            r.spec_vertex_count() == self.spec_vertex_count(),
            r.spec_reusable_vertex_ids() == self.spec_reusable_vertex_ids(),
            r.spec_reusable_edge_ids() == self.spec_reusable_edge_ids(),
            r.spec_max_edge_id() == self.spec_max_edge_id(),
            r.spec_ends() == self.spec_ends(),
            forall|v: usize| v < self.spec_total() ==> (#[trigger] r.spec_list(v)).len() == self.spec_list(v).len(),
            forall|v: usize, k: int| v < self.spec_total() && 0 <= k < self.spec_list(v).len() ==>
                (#[trigger] r.spec_list(v)[k]).0 == self.spec_list(v)[k].0 && cloned(self.spec_list(v)[k].1, r.spec_list(v)[k].1),
    {
        let mut lists: Vec<Vec<(usize, E)>> = Vec::new();
        let mut v: usize = 0;
        while v < self.edges_of.len()
            invariant
                v <= self.edges_of@.len(),
                lists@.len() == v,
                forall|w: int| 0 <= w < v ==> (#[trigger] lists@[w])@.len() == self.edges_of@[w]@.len(),
                forall|w: int, k: int| 0 <= w < v && 0 <= k < self.edges_of@[w]@.len() ==>
                    (#[trigger] lists@[w]@[k]).0 == self.edges_of@[w]@[k].0
                    && cloned(self.edges_of@[w]@[k].1, lists@[w]@[k].1)
                    && lists@[w]@[k].1.spec_id() == self.edges_of@[w]@[k].1.spec_id(),
            decreases self.edges_of@.len() - v,
        {
            let l = clone_list(&self.edges_of[v]);
            lists.push(l);
            v = v + 1;
        }
        let r = AdjList {
            edges_of: lists,
            reusable_vertex_ids: copy_ids(&self.reusable_vertex_ids),
            max_edge_id: self.max_edge_id,
            reusable_edge_ids: copy_ids(&self.reusable_edge_ids),
            vertex_count: self.vertex_count,
            edge_ends: Ghost(self.edge_ends@),
            phantom_w: PhantomData,
            phantom_dir: PhantomData,
        };
        proof {
            assert forall|w: usize, k: int| w < self.spec_total() && 0 <= k < self.spec_list(w).len() implies
                (#[trigger] r.spec_list(w)[k]).0 == self.spec_list(w)[k].0 && cloned(self.spec_list(w)[k].1, r.spec_list(w)[k].1) by {
                assert(r.spec_list(w)[k] == lists@[w as int]@[k]);
            }
            if self.wf() {
                assert forall|w: usize, k: int| w < r.spec_total() && 0 <= k < r.edges_of@[w as int]@.len() implies
                    r.entry_ok(w, (#[trigger] r.edges_of@[w as int]@[k]).0, r.edges_of@[w as int]@[k].1.spec_id()) by {
                    self.lemma_entry_at_end(w, k);
                    assert(self.spec_list(w)[k] == self.edges_of@[w as int]@[k]);
                }
                assert forall|i: usize| #[trigger] r.edge_ends@.dom().contains(i) implies {
                    let (s, d) = r.edge_ends@[i];
                    &&& r.spec_has_vertex(s)
                    &&& r.spec_has_vertex(d)
                    &&& r.list_has(s, d, i)
                    &&& (!Dir::spec_is_directed() ==> r.list_has(d, s, i))
                } by {
                    let (s, d) = r.edge_ends@[i];
                    assert(self.list_has(s, d, i));
                    let q = choose|q: int| 0 <= q < self.spec_list(s).len() && (#[trigger] self.spec_list(s)[q]).0 == d
                        && self.spec_list(s)[q].1.spec_id() == i;
                    assert(self.spec_list(s)[q] == self.edges_of@[s as int]@[q]);
                    assert(r.spec_list(s)[q] == lists@[s as int]@[q]);
                    if !Dir::spec_is_directed() {
                        assert(self.list_has(d, s, i));
                        let q2 = choose|q2: int| 0 <= q2 < self.spec_list(d).len() && (#[trigger] self.spec_list(d)[q2]).0 == s
                            && self.spec_list(d)[q2].1.spec_id() == i;
                        assert(self.spec_list(d)[q2] == self.edges_of@[d as int]@[q2]);
                        assert(r.spec_list(d)[q2] == lists@[d as int]@[q2]);
                    }
                }
                assert(r.wf_entries());
                if !Dir::spec_is_directed() {
                    Self::lemma_balanced_clone(*self, r);
                }
            }
        }
        r
    }
}

impl<W, E: Edge<W>, Dir: EdgeDir> AdjList<W, E, Dir> {
    /// Every live edge joins two vertices of the graph and is stored at its source towards its
    /// destination; an undirected one also at its destination towards its source.
    pub proof fn lemma_edge_endpoints(&self, edge_id: usize)
        requires
            self.wf(),
            self.spec_ends().dom().contains(edge_id),
        ensures
            self.spec_has_vertex(self.spec_ends()[edge_id].0),
            self.spec_has_vertex(self.spec_ends()[edge_id].1),
            self.list_has(self.spec_ends()[edge_id].0, self.spec_ends()[edge_id].1, edge_id),
            !Dir::spec_is_directed() ==> self.list_has(self.spec_ends()[edge_id].1, self.spec_ends()[edge_id].0, edge_id),
    {
    }

    /// Every entry of a list stands for a live edge at one of its ends, pointing to the other.
    pub proof fn lemma_entry_is_live_edge(&self, v: usize, k: int)
        requires
            self.wf(),
            v < self.spec_total(),
            0 <= k < self.spec_list(v).len(),
        ensures
            self.entry_ok(v, self.spec_list(v)[k].0, self.spec_list(v)[k].1.spec_id()),
            self.spec_has_vertex(v),
            self.spec_has_vertex(self.spec_list(v)[k].0),
    {
        self.lemma_entry_at_end(v, k);
    }

    /// The neighbors of `src` are the destinations of its edges.
    pub proof fn lemma_neighbors_are_edge_destinations(&self, src: usize, d: usize)
        ensures
            self.spec_list(src).map_values(|p: (usize, E)| p.0).contains(d) <==>
                exists|k: int| 0 <= k < self.spec_list(src).len() && (#[trigger] self.spec_list(src)[k]).0 == d,
    {
        let l = self.spec_list(src);
        let m = l.map_values(|p: (usize, E)| p.0);
        if m.contains(d) {
            let k = choose|k: int| 0 <= k < m.len() && m[k] == d;
            assert(l[k].0 == d);
        }
        if exists|k: int| 0 <= k < l.len() && (#[trigger] l[k]).0 == d {
            let k = choose|k: int| 0 <= k < l.len() && (#[trigger] l[k]).0 == d;
            assert(m[k] == d);
        }
    }

    /// Adding an edge raises the edge count by one; the new edge is live under its id, joins
    /// the given vertices, and is stored at its source (and, undirected, at its destination).
    pub proof fn lemma_add_edge_law(old_l: Self, new_l: Self, src: usize, dst: usize, edge: E, id: usize)
        requires
            old_l.wf(),
            Self::added_edge(old_l, new_l, src, dst, edge, id),
        ensures
            new_l.spec_edge_count() == old_l.spec_edge_count() + 1,
            new_l.spec_ends().dom().contains(id),
            new_l.spec_ends()[id] == (src, dst),
            new_l.spec_list(src).contains((dst, edge.spec_with_id(id))),
            new_l.list_has(src, dst, id),
            !Dir::spec_is_directed() ==> new_l.list_has(dst, src, id),
    {
        old_l.lemma_counts();
        edge.lemma_with_id(id);
        new_l.lemma_edge_endpoints(id);
        let e = edge.spec_with_id(id);
        let n = old_l.spec_list(src).len() as int;
        if Dir::spec_is_directed() || src != dst {
            assert(new_l.spec_list(src)[n] == (dst, e));
        } else {
            let mid = Self::list_before_back_entry(old_l, src, dst, e);
            assert(mid[n] == (dst, e));
            assert(new_l.spec_list(dst).drop_last()[n] == new_l.spec_list(dst)[n]);
        }
    }

    /// Removing an edge lowers the edge count by one; its id is no longer live, no list holds
    /// an entry with it and `edges()` lists no edge with it; every other edge stays, with its
    /// ends.
    pub proof fn lemma_remove_edge_law(old_l: Self, new_l: Self, src: usize, dst: usize, edge_id: usize, removed: E)
        requires
            old_l.wf(),
            Self::removed_edge(old_l, new_l, src, dst, edge_id, removed),
        ensures
            new_l.spec_edge_count() + 1 == old_l.spec_edge_count(),
            !new_l.spec_ends().dom().contains(edge_id),
            forall|v: usize, k: int| v < new_l.spec_total() && 0 <= k < new_l.spec_list(v).len()
                ==> (#[trigger] new_l.spec_list(v)[k]).1.spec_id() != edge_id,
            forall|k: int| 0 <= k < new_l.spec_edges().len() ==> (#[trigger] new_l.spec_edges()[k]).2.spec_id() != edge_id,
            forall|id: usize| id != edge_id && #[trigger] old_l.spec_ends().dom().contains(id)
                ==> new_l.spec_ends().dom().contains(id) && new_l.spec_ends()[id] == old_l.spec_ends()[id],
    {
        old_l.lemma_counts();
        assert forall|v: usize, k: int| v < new_l.spec_total() && 0 <= k < new_l.spec_list(v).len()
            implies (#[trigger] new_l.spec_list(v)[k]).1.spec_id() != edge_id by {
            new_l.lemma_entry_at_end(v, k);
        }
        new_l.lemma_edges_in_lists();
    }

    /// Each triple `(s, d, e)` of `edges()` comes from an entry `(d, e)` of the list of
    /// vertex `s`, and so stands for a live edge with id `e.spec_id()`.
    pub proof fn lemma_edges_in_lists(&self)
        requires
            self.wf(),
        ensures
            forall|k: int| 0 <= k < self.spec_edges().len() ==> {
                let t = #[trigger] self.spec_edges()[k];
                &&& self.spec_has_vertex(t.0)
                &&& t.0 < self.spec_total()
                &&& self.spec_list(t.0).contains((t.1, t.2))
                &&& self.entry_ok(t.0, t.1, t.2.spec_id())
            },
    {
        let vs = self.spec_vertex_seq();
        self.lemma_present_upto(self.spec_total());
        self.lemma_entries_from(vs);
        let all = self.entries_of(vs);
        assert forall|k: int| 0 <= k < all.len() implies {
            let t = #[trigger] all[k];
            &&& self.spec_has_vertex(t.0)
            &&& t.0 < self.spec_total()
            &&& self.spec_list(t.0).contains((t.1, t.2))
            &&& self.entry_ok(t.0, t.1, t.2.spec_id())
        } by {
            let t = all[k];
            let i = choose|i: int| 0 <= i < vs.len() && vs[i] == t.0;
            assert(self.spec_has_vertex(vs[i]));
            let q = choose|q: int| 0 <= q < self.spec_list(t.0).len() && self.spec_list(t.0)[q] == (t.1, t.2);
            self.lemma_entry_is_live_edge(t.0, q);
        }
        if !Dir::spec_is_directed() {
            lemma_upper_from(all);
            assert forall|k: int| 0 <= k < self.spec_edges().len() implies {
                let t = #[trigger] self.spec_edges()[k];
                &&& self.spec_has_vertex(t.0)
                &&& t.0 < self.spec_total()
                &&& self.spec_list(t.0).contains((t.1, t.2))
                &&& self.entry_ok(t.0, t.1, t.2.spec_id())
            } by {
                let t = self.spec_edges()[k];
                assert(all.contains(t));
                let q = choose|q: int| 0 <= q < all.len() && all[q] == t;
            }
        }
    }

    /// Each triple of `entries_of(srcs)` comes from a vertex of `srcs` and an entry of its
    /// list.
    proof fn lemma_entries_from(&self, srcs: Seq<usize>)
        ensures
            forall|k: int| 0 <= k < self.entries_of(srcs).len() ==> {
                let t = #[trigger] self.entries_of(srcs)[k];
                &&& srcs.contains(t.0)
                &&& self.spec_list(t.0).contains((t.1, t.2))
            },
        decreases srcs.len(),
    {
        if srcs.len() > 0 {
            let prev = srcs.drop_last();
            self.lemma_entries_from(prev);
            let v = srcs.last();
            let pe = self.entries_of(prev);
            let tail = self.spec_list(v).map_values(|p: (usize, E)| (v, p.0, p.1));
            assert forall|k: int| 0 <= k < self.entries_of(srcs).len() implies {
                let t = #[trigger] self.entries_of(srcs)[k];
                &&& srcs.contains(t.0)
                &&& self.spec_list(t.0).contains((t.1, t.2))
            } by {
                if k < pe.len() {
                    assert(self.entries_of(srcs)[k] == pe[k]);
                    let i = choose|i: int| 0 <= i < prev.len() && prev[i] == pe[k].0;
                    assert(srcs[i] == prev[i]);
                } else {
                    let q = k - pe.len();
                    assert(self.entries_of(srcs)[k] == tail[q]);
                    assert(srcs[srcs.len() - 1] == v);
                    assert(self.spec_list(v)[q] == (tail[q].1, tail[q].2));
                }
            }
        }
    }

    /// Removing a vertex removes exactly the edges incident to it: the edge count drops by
    /// their number, no list holds an entry towards the vertex, and no edge of `edges()`
    /// touches it or carries the id of one of those edges.
    pub proof fn lemma_remove_vertex_law(old_l: Self, new_l: Self, v: usize)
        requires
            old_l.wf(),
            Self::removed_vertex(old_l, new_l, v),
        ensures
            new_l.spec_edge_count() + old_l.incident_ids(v).len() == old_l.spec_edge_count(),
            new_l.spec_vertex_count() + 1 == old_l.spec_vertex_count(),
            new_l.incident_ids(v).is_empty(),
            forall|u: usize, k: int| u < new_l.spec_total() && 0 <= k < new_l.spec_list(u).len()
                ==> (#[trigger] new_l.spec_list(u)[k]).0 != v,
            forall|k: int| 0 <= k < new_l.spec_edges().len() ==> {
                let t = #[trigger] new_l.spec_edges()[k];
                &&& t.0 != v
                &&& t.1 != v
                &&& !old_l.incident_ids(v).contains(t.2.spec_id())
            },
    {
        old_l.lemma_counts();
        new_l.lemma_counts();
        let dom = old_l.spec_ends().dom();
        let inc = old_l.incident_ids(v);
        dom.lemma_len_filter(|id: usize| old_l.spec_ends()[id].0 == v || old_l.spec_ends()[id].1 == v);
        assert(new_l.spec_ends().dom() =~= dom.difference(inc));
        vstd::set_lib::lemma_set_disjoint_lens(new_l.spec_ends().dom(), inc);
        assert(new_l.spec_ends().dom() + inc =~= dom);
        assert(new_l.incident_ids(v) =~= Set::<usize>::empty());
        assert forall|u: usize, k: int| u < new_l.spec_total() && 0 <= k < new_l.spec_list(u).len()
            implies (#[trigger] new_l.spec_list(u)[k]).0 != v by {
            new_l.lemma_entry_at_end(u, k);
        }
        new_l.lemma_edges_in_lists();
        assert forall|k: int| 0 <= k < new_l.spec_edges().len() implies {
            let t = #[trigger] new_l.spec_edges()[k];
            &&& t.0 != v
            &&& t.1 != v
            &&& !old_l.incident_ids(v).contains(t.2.spec_id())
        } by {
            let t = new_l.spec_edges()[k];
            let q = choose|q: int| 0 <= q < new_l.spec_list(t.0).len() && new_l.spec_list(t.0)[q] == (t.1, t.2);
            assert(new_l.spec_list(t.0)[q].0 != v);
            assert(new_l.spec_ends().dom().contains(t.2.spec_id()));
        }
    }
}

/// Number of entries of `s` towards `b`.
pub open spec fn count_towards<E>(s: Seq<(usize, E)>, b: usize) -> nat
    decreases s.len(),
{
    if s.len() == 0 {
        0
    } else {
        count_towards(s.drop_last(), b) + if s.last().0 == b { 1nat } else { 0nat }
    }
}

/// Number of entries of `s` towards `b` that carry edge id `id`.
pub open spec fn count_id_towards<E: Edge<W>, W>(s: Seq<(usize, E)>, id: usize, b: usize) -> nat
    decreases s.len(),
{
    if s.len() == 0 {
        0
    } else {
        count_id_towards::<E, W>(s.drop_last(), id, b) + if s.last().0 == b && s.last().1.spec_id() == id { 1nat } else { 0nat }
    }
}

/// Counting after appending an entry.
pub proof fn lemma_count_push<E: Edge<W>, W>(s: Seq<(usize, E)>, y: (usize, E), id: usize, b: usize)
    ensures
        count_towards(s.push(y), b) == count_towards(s, b) + if y.0 == b { 1nat } else { 0nat },
        count_id_towards::<E, W>(s.push(y), id, b) == count_id_towards::<E, W>(s, id, b)
            + if y.0 == b && y.1.spec_id() == id { 1nat } else { 0nat },
{
    assert(s.push(y).drop_last() =~= s);
}

/// Counting after dropping the entries with edge id `id`.
pub proof fn lemma_count_without_id<E: Edge<W>, W>(s: Seq<(usize, E)>, id: usize, id2: usize, b: usize)
    ensures
        count_towards(without_id::<E, W>(s, id), b) + count_id_towards::<E, W>(s, id, b) == count_towards(s, b),
        count_id_towards::<E, W>(without_id::<E, W>(s, id), id2, b)
            == if id2 == id { 0 } else { count_id_towards::<E, W>(s, id2, b) },
    decreases s.len(),
{
    if s.len() > 0 {
        lemma_count_without_id::<E, W>(s.drop_last(), id, id2, b);
        let prev = without_id::<E, W>(s.drop_last(), id);
        if s.last().1.spec_id() != id {
            lemma_count_push::<E, W>(prev, s.last(), id2, b);
        }
    }
}

/// Counting after dropping the entries towards a removed vertex `v` (all of them, at `v`
/// itself).
pub proof fn lemma_count_kept<E: Edge<W>, W>(s: Seq<(usize, E)>, u: usize, v: usize, id: usize, b: usize)
    ensures
        count_towards(kept_after_removal(s, u, v), b) == if u == v || b == v { 0 } else { count_towards(s, b) },
        count_id_towards::<E, W>(kept_after_removal(s, u, v), id, b) <= count_id_towards::<E, W>(s, id, b),
    decreases s.len(),
{
    if s.len() > 0 && u != v {
        lemma_count_kept::<E, W>(s.drop_last(), u, v, id, b);
        let prev = kept_after_removal(s.drop_last(), u, v);
        if s.last().0 != v {
            lemma_count_push::<E, W>(prev, s.last(), id, b);
        }
    }
}

/// The lists agree entry by entry on destination and edge id.
pub open spec fn same_shape<E: Edge<W>, W>(s: Seq<(usize, E)>, t: Seq<(usize, E)>) -> bool {
    &&& s.len() == t.len()
    &&& forall|k: int| 0 <= k < s.len() ==> (#[trigger] s[k]).0 == t[k].0 && s[k].1.spec_id() == t[k].1.spec_id()
}

/// Lists that agree entry by entry on destination and edge id count alike.
pub proof fn lemma_count_same_shape<E: Edge<W>, W>(s: Seq<(usize, E)>, t: Seq<(usize, E)>, id: usize, b: usize)
    requires
        same_shape::<E, W>(s, t),
    ensures
        count_towards(s, b) == count_towards(t, b),
        count_id_towards::<E, W>(s, id, b) == count_id_towards::<E, W>(t, id, b),
    decreases s.len(),
{
    if s.len() > 0 {
        let (s2, t2) = (s.drop_last(), t.drop_last());
        assert forall|k: int| 0 <= k < s2.len() implies (#[trigger] s2[k]).0 == t2[k].0 && s2[k].1.spec_id() == t2[k].1.spec_id() by {
            assert(s2[k] == s[k] && t2[k] == t[k]);
        }
        lemma_count_same_shape::<E, W>(s2, t2, id, b);
        assert(s.last() == s[s.len() - 1] && t.last() == t[t.len() - 1]);
    }
}

/// A list holding an entry towards `b` with edge id `id` counts at least one.
pub proof fn lemma_count_id_positive<E: Edge<W>, W>(s: Seq<(usize, E)>, id: usize, b: usize, k: int)
    requires
        0 <= k < s.len(),
        s[k].0 == b,
        s[k].1.spec_id() == id,
    ensures
        count_id_towards::<E, W>(s, id, b) >= 1,
    decreases s.len(),
{
    if k < s.len() - 1 {
        assert(s.drop_last()[k] == s[k]);
        lemma_count_id_positive::<E, W>(s.drop_last(), id, b, k);
    }
}

/// When every entry towards `b` carries edge id `id`, they are all counted with it.
pub proof fn lemma_count_all_with_id<E: Edge<W>, W>(s: Seq<(usize, E)>, id: usize, b: usize)
    requires
        forall|k: int| 0 <= k < s.len() && (#[trigger] s[k]).0 == b ==> s[k].1.spec_id() == id,
    ensures
        count_id_towards::<E, W>(s, id, b) == count_towards(s, b),
    decreases s.len(),
{
    if s.len() > 0 {
        let p = s.drop_last();
        assert forall|k: int| 0 <= k < p.len() && (#[trigger] p[k]).0 == b implies p[k].1.spec_id() == id by {
            assert(p[k] == s[k]);
        }
        lemma_count_all_with_id::<E, W>(p, id, b);
        assert(s.last() == s[s.len() - 1]);
    }
}

impl<W, E: Edge<W>, Dir: EdgeDir> AdjList<W, E, Dir> {
    /// Two slots hold as many entries towards each other, and no slot holds two entries with
    /// the same edge id towards another slot.
    pub open spec fn balanced(&self) -> bool {
        &&& forall|a: usize, b: usize| a < self.spec_total() && b < self.spec_total() && a != b ==>
                #[trigger] count_towards(self.spec_list(a), b) == #[trigger] count_towards(self.spec_list(b), a)
        &&& forall|a: usize, id: usize, b: usize| a < self.spec_total() && a != b ==>
                #[trigger] count_id_towards::<E, W>(self.spec_list(a), id, b) <= 1
    }

    /// No list of a well-formed storage holds an entry towards `b` when `b` is not a vertex,
    /// and the lists of slots that are not vertices are empty.
    proof fn lemma_no_entries_towards(&self, a: usize, b: usize)
        requires
            self.wf(),
            a < self.spec_total(),
            !self.spec_has_vertex(b) || !self.spec_has_vertex(a),
        ensures
            count_towards(self.spec_list(a), b) == 0,
    {
        let l = self.spec_list(a);
        if count_towards(l, b) > 0 {
            let k = self.lemma_count_witness(l, b);
            self.lemma_entry_is_live_edge(a, k);
        }
    }

    proof fn lemma_count_witness(&self, l: Seq<(usize, E)>, b: usize) -> (k: int)
        requires
            count_towards(l, b) > 0,
        ensures
            0 <= k < l.len(),
            l[k].0 == b,
        decreases l.len(),
    {
        if l.last().0 == b {
            l.len() - 1
        } else {
            let k = self.lemma_count_witness(l.drop_last(), b);
            assert(l[k] == l.drop_last()[k]);
            k
        }
    }

    /// A well-formed undirected storage is balanced: two vertices hold as many entries
    /// towards each other.
    pub proof fn lemma_wf_balanced(&self)
        requires
            self.wf(),
            !Dir::spec_is_directed(),
        ensures
            self.balanced(),
    {
    }

    /// A new storage is balanced.
    pub proof fn lemma_balanced_init(l: Self)
        requires
            l.spec_total() == 0,
        ensures
            l.balanced(),
    {
    }

    /// Adding a vertex keeps a storage balanced.
    pub proof fn lemma_balanced_add_vertex(old_l: Self, new_l: Self, id: usize)
        requires
            old_l.wf(),
            old_l.balanced(),
            new_l.wf_entries(),
            !old_l.spec_has_vertex(id),
            new_l.spec_list(id).len() == 0,
            new_l.spec_total() == old_l.spec_total() || (new_l.spec_total() == old_l.spec_total() + 1 && id == old_l.spec_total()),
            forall|v: usize| v != id && v < old_l.spec_total() ==> #[trigger] new_l.spec_list(v) == old_l.spec_list(v),
        ensures
            new_l.balanced(),
    {
        assert forall|a: usize, b: usize| a < new_l.spec_total() && b < new_l.spec_total() && a != b implies
            #[trigger] count_towards(new_l.spec_list(a), b) == #[trigger] count_towards(new_l.spec_list(b), a) by {
            if a == id || b == id {
                let other = if a == id { b } else { a };
                assert(count_towards(new_l.spec_list(id), other) == 0);
                if other < old_l.spec_total() {
                    if id < old_l.spec_total() {
                        old_l.lemma_no_entries_towards(other, id);
                    } else {
                        if count_towards(old_l.spec_list(other), id) > 0 {
                            let k = old_l.lemma_count_witness(old_l.spec_list(other), id);
                            old_l.lemma_entry_is_live_edge(other, k);
                        }
                    }
                }
            }
        }
        assert forall|a: usize, i: usize, b: usize| a < new_l.spec_total() && a != b implies
            #[trigger] count_id_towards::<E, W>(new_l.spec_list(a), i, b) <= 1 by {
            if a == id {
                assert(new_l.spec_list(id) =~= Seq::<(usize, E)>::empty());
            }
        }
    }

    /// Adding an edge keeps a storage balanced.
    pub proof fn lemma_balanced_add_edge(old_l: Self, new_l: Self, src: usize, dst: usize, edge: E, id: usize)
        requires
            old_l.wf(),
            old_l.balanced(),
            !Dir::spec_is_directed(),
            Self::added_edge_model(old_l, new_l, src, dst, edge, id),
            old_l.spec_has_vertex(src),
            old_l.spec_has_vertex(dst),
        ensures
            new_l.balanced(),
    {
        let e = edge.spec_with_id(id);
        // the fresh id is in no list yet
        assert forall|v: usize, b: usize| v < old_l.spec_total() implies
            #[trigger] count_id_towards::<E, W>(old_l.spec_list(v), id, b) == 0 by {
            let l = old_l.spec_list(v);
            if count_id_towards::<E, W>(l, id, b) > 0 {
                let k = lemma_id_witness::<E, W>(l, id, b);
                old_l.lemma_entry_is_live_edge(v, k);
            }
        }
        let ls = old_l.spec_list(src);
        let ld = old_l.spec_list(dst);
        let nd = new_l.spec_list(dst);
        if src != dst {
            assert(nd =~= ld.push(nd.last()));
        } else {
            let mid = Self::list_before_back_entry(old_l, src, dst, e);
            assert(nd =~= mid.push(nd.last()));
        }
        edge.lemma_with_id(id);
        assert forall|a: usize, b: usize| a < new_l.spec_total() && b < new_l.spec_total() && a != b implies
            #[trigger] count_towards(new_l.spec_list(a), b) == #[trigger] count_towards(new_l.spec_list(b), a) by {
            lemma_count_push::<E, W>(ls, (dst, e), id, b);
            lemma_count_push::<E, W>(ls, (dst, e), id, a);
            lemma_count_push::<E, W>(ld, nd.last(), id, b);
            lemma_count_push::<E, W>(ld, nd.last(), id, a);
            assert(count_towards(old_l.spec_list(a), b) == count_towards(old_l.spec_list(b), a));
        }
        assert forall|a: usize, i: usize, b: usize| a < new_l.spec_total() && a != b implies
            #[trigger] count_id_towards::<E, W>(new_l.spec_list(a), i, b) <= 1 by {
            lemma_count_push::<E, W>(ls, (dst, e), i, b);
            lemma_count_push::<E, W>(ld, nd.last(), i, b);
            assert(count_id_towards::<E, W>(old_l.spec_list(a), i, b) <= 1);
        }
    }
}

impl<W, E: Edge<W>, Dir: EdgeDir> AdjList<W, E, Dir> {
    /// In the list of `v`, the entries that carry edge id `id`, live between `v` and `w`
    /// (`v != w`), all point to `w`.
    proof fn lemma_id_points_to(&self, v: usize, w: usize, id: usize, b: usize)
        requires
            self.wf(),
            v < self.spec_total(),
            v != w,
            self.spec_ends().dom().contains(id),
            self.spec_ends()[id] == (v, w) || self.spec_ends()[id] == (w, v),
            b != w,
        ensures
            count_id_towards::<E, W>(self.spec_list(v), id, b) == 0,
    {
        let l = self.spec_list(v);
        if count_id_towards::<E, W>(l, id, b) > 0 {
            let k = lemma_id_witness::<E, W>(l, id, b);
            self.lemma_entry_at_end(v, k);
        }
    }

    /// Removing an edge keeps an undirected storage balanced.
    pub proof fn lemma_balanced_remove_edge(old_l: Self, new_l: Self, src: usize, dst: usize, edge_id: usize, removed: E)
        requires
            old_l.wf(),
            old_l.balanced(),
            !Dir::spec_is_directed(),
            Self::removed_edge_model(old_l, new_l, src, dst, edge_id, removed),
            src < old_l.spec_total(),
            dst < old_l.spec_total(),
        ensures
            new_l.balanced(),
    {
        let ls = old_l.spec_list(src);
        let ld = old_l.spec_list(dst);
        let k0 = choose|k: int| 0 <= k < ls.len() && ls[k] == (dst, removed);
        old_l.lemma_entry_at_end(src, k0);
        let ends = old_l.spec_ends()[edge_id];
        lemma_count_id_positive::<E, W>(ls, edge_id, dst, k0);
        if src != dst {
            old_l.lemma_edge_endpoints(edge_id);
            // the entry at the other end
            assert(old_l.list_has(dst, src, edge_id)) by {
                if ends == (src, dst) {
                } else {
                }
            }
            let k1 = choose|k: int| 0 <= k < ld.len() && (#[trigger] ld[k]).0 == src && ld[k].1.spec_id() == edge_id;
            lemma_count_id_positive::<E, W>(ld, edge_id, src, k1);
        }
        assert forall|a: usize, b: usize| a < new_l.spec_total() && b < new_l.spec_total() && a != b implies
            #[trigger] count_towards(new_l.spec_list(a), b) == #[trigger] count_towards(new_l.spec_list(b), a) by {
            lemma_count_without_id::<E, W>(ls, edge_id, edge_id, b);
            lemma_count_without_id::<E, W>(ls, edge_id, edge_id, a);
            lemma_count_without_id::<E, W>(ld, edge_id, edge_id, b);
            lemma_count_without_id::<E, W>(ld, edge_id, edge_id, a);
            assert(count_towards(old_l.spec_list(a), b) == count_towards(old_l.spec_list(b), a));
            if src != dst {
                if b != dst { old_l.lemma_id_points_to(src, dst, edge_id, b); }
                if a != dst { old_l.lemma_id_points_to(src, dst, edge_id, a); }
                if b != src { old_l.lemma_id_points_to(dst, src, edge_id, b); }
                if a != src { old_l.lemma_id_points_to(dst, src, edge_id, a); }
                assert(count_id_towards::<E, W>(ls, edge_id, dst) <= 1);
                assert(count_id_towards::<E, W>(ld, edge_id, src) <= 1);
            } else {
                if a == src {
                    let l = ls;
                    if count_id_towards::<E, W>(l, edge_id, b) > 0 {
                        let k = lemma_id_witness::<E, W>(l, edge_id, b);
                        old_l.lemma_entry_at_end(src, k);
                    }
                }
                if b == src {
                    let l = ls;
                    if count_id_towards::<E, W>(l, edge_id, a) > 0 {
                        let k = lemma_id_witness::<E, W>(l, edge_id, a);
                        old_l.lemma_entry_at_end(src, k);
                    }
                }
            }
        }
        assert forall|a: usize, i: usize, b: usize| a < new_l.spec_total() && a != b implies
            #[trigger] count_id_towards::<E, W>(new_l.spec_list(a), i, b) <= 1 by {
            lemma_count_without_id::<E, W>(ls, edge_id, i, b);
            lemma_count_without_id::<E, W>(ld, edge_id, i, b);
            assert(count_id_towards::<E, W>(old_l.spec_list(a), i, b) <= 1);
        }
    }

    /// Replacing an edge keeps an undirected storage balanced.
    pub proof fn lemma_balanced_update_edge(old_l: Self, new_l: Self, src: usize, dst: usize, edge_id: usize, edge: E)
        requires
            old_l.wf(),
            old_l.balanced(),
            !Dir::spec_is_directed(),
            Self::updated_edge_model(old_l, new_l, src, dst, edge_id, edge),
            src < old_l.spec_total(),
            dst < old_l.spec_total(),
        ensures
            new_l.balanced(),
    {
        let e = edge.spec_with_id(edge_id);
        edge.lemma_with_id(edge_id);
        assert forall|v: usize| v < old_l.spec_total() implies
            #[trigger] same_shape::<E, W>(old_l.spec_list(v), new_l.spec_list(v)) by {
            let (o, n) = (old_l.spec_list(v), new_l.spec_list(v));
            if v == src || v == dst {
                let x = if v == src { dst } else { src };
                assert(replaced::<E, W>(o, n, x, edge_id, e));
                assert forall|k: int| 0 <= k < o.len() implies (#[trigger] o[k]).0 == n[k].0 && o[k].1.spec_id() == n[k].1.spec_id() by {
                    if entry_is::<E, W>(o[k], x, edge_id) {
                        e.lemma_clone_keeps_id(n[k].1);
                    }
                }
            }
        }
        assert forall|a: usize, b: usize| a < new_l.spec_total() && b < new_l.spec_total() && a != b implies
            #[trigger] count_towards(new_l.spec_list(a), b) == #[trigger] count_towards(new_l.spec_list(b), a) by {
            lemma_count_same_shape::<E, W>(old_l.spec_list(a), new_l.spec_list(a), 0, b);
            lemma_count_same_shape::<E, W>(old_l.spec_list(b), new_l.spec_list(b), 0, a);
            assert(count_towards(old_l.spec_list(a), b) == count_towards(old_l.spec_list(b), a));
        }
        assert forall|a: usize, i: usize, b: usize| a < new_l.spec_total() && a != b implies
            #[trigger] count_id_towards::<E, W>(new_l.spec_list(a), i, b) <= 1 by {
            lemma_count_same_shape::<E, W>(old_l.spec_list(a), new_l.spec_list(a), i, b);
            assert(count_id_towards::<E, W>(old_l.spec_list(a), i, b) <= 1);
        }
    }

    /// A copy whose lists hold clones of the entries, towards the same vertices, is balanced
    /// with the storage it copies.
    pub proof fn lemma_balanced_clone(orig: Self, copy: Self)
        requires
            orig.balanced(),
            copy.spec_total() == orig.spec_total(),
            forall|v: usize| v < orig.spec_total() ==> (#[trigger] copy.spec_list(v)).len() == orig.spec_list(v).len(),
            forall|v: usize, k: int| v < orig.spec_total() && 0 <= k < orig.spec_list(v).len() ==>
                (#[trigger] copy.spec_list(v)[k]).0 == orig.spec_list(v)[k].0 && cloned(orig.spec_list(v)[k].1, copy.spec_list(v)[k].1),
        ensures
            copy.balanced(),
    {
        assert forall|v: usize| v < orig.spec_total() implies
            #[trigger] same_shape::<E, W>(orig.spec_list(v), copy.spec_list(v)) by {
            assert forall|k: int| 0 <= k < orig.spec_list(v).len() implies
                (#[trigger] orig.spec_list(v)[k]).0 == copy.spec_list(v)[k].0
                    && orig.spec_list(v)[k].1.spec_id() == copy.spec_list(v)[k].1.spec_id() by {
                orig.spec_list(v)[k].1.lemma_clone_keeps_id(copy.spec_list(v)[k].1);
            }
        }
        assert forall|a: usize, b: usize| a < copy.spec_total() && b < copy.spec_total() && a != b implies
            #[trigger] count_towards(copy.spec_list(a), b) == #[trigger] count_towards(copy.spec_list(b), a) by {
            lemma_count_same_shape::<E, W>(orig.spec_list(a), copy.spec_list(a), 0, b);
            lemma_count_same_shape::<E, W>(orig.spec_list(b), copy.spec_list(b), 0, a);
            assert(count_towards(orig.spec_list(a), b) == count_towards(orig.spec_list(b), a));
        }
        assert forall|a: usize, i: usize, b: usize| a < copy.spec_total() && a != b implies
            #[trigger] count_id_towards::<E, W>(copy.spec_list(a), i, b) <= 1 by {
            lemma_count_same_shape::<E, W>(orig.spec_list(a), copy.spec_list(a), i, b);
            assert(count_id_towards::<E, W>(orig.spec_list(a), i, b) <= 1);
        }
    }

    /// Removing a vertex keeps a storage balanced.
    pub proof fn lemma_balanced_remove_vertex(old_l: Self, new_l: Self, v: usize)
        requires
            old_l.wf(),
            old_l.balanced(),
            Self::removed_vertex_model(old_l, new_l, v),
        ensures
            new_l.balanced(),
    {
        assert forall|a: usize, b: usize| a < new_l.spec_total() && b < new_l.spec_total() && a != b implies
            #[trigger] count_towards(new_l.spec_list(a), b) == #[trigger] count_towards(new_l.spec_list(b), a) by {
            lemma_count_kept::<E, W>(old_l.spec_list(a), a, v, 0, b);
            lemma_count_kept::<E, W>(old_l.spec_list(b), b, v, 0, a);
            assert(count_towards(old_l.spec_list(a), b) == count_towards(old_l.spec_list(b), a));
        }
        assert forall|a: usize, i: usize, b: usize| a < new_l.spec_total() && a != b implies
            #[trigger] count_id_towards::<E, W>(new_l.spec_list(a), i, b) <= 1 by {
            lemma_count_kept::<E, W>(old_l.spec_list(a), a, v, i, b);
            assert(count_id_towards::<E, W>(old_l.spec_list(a), i, b) <= 1);
        }
    }
}

/// `count_towards(l, b)` summed over the `b` of `vs` below `a`.
pub open spec fn sum_below<E>(l: Seq<(usize, E)>, a: usize, vs: Seq<usize>) -> nat
    decreases vs.len(),
{
    if vs.len() == 0 {
        0
    } else {
        sum_below(l, a, vs.drop_last()) + if vs.last() < a { count_towards(l, vs.last()) } else { 0 }
    }
}

/// `count_towards(l, b)` summed over the `b` of `vs` above `a`.
pub open spec fn sum_above<E>(l: Seq<(usize, E)>, a: usize, vs: Seq<usize>) -> nat
    decreases vs.len(),
{
    if vs.len() == 0 {
        0
    } else {
        sum_above(l, a, vs.drop_last()) + if vs.last() > a { count_towards(l, vs.last()) } else { 0 }
    }
}

proof fn lemma_sums_push<E: Edge<W>, W>(l: Seq<(usize, E)>, y: (usize, E), a: usize, vs: Seq<usize>)
    requires
        vs.no_duplicates(),
    ensures
        sum_below(l.push(y), a, vs) == sum_below(l, a, vs) + if y.0 < a && vs.contains(y.0) { 1nat } else { 0nat },
        sum_above(l.push(y), a, vs) == sum_above(l, a, vs) + if y.0 > a && vs.contains(y.0) { 1nat } else { 0nat },
    decreases vs.len(),
{
    if vs.len() > 0 {
        let rest = vs.drop_last();
        assert(rest.no_duplicates()) by {
            assert forall|i: int, j: int| 0 <= i < j < rest.len() implies rest[i] != rest[j] by {
                assert(rest[i] == vs[i] && rest[j] == vs[j]);
            }
        }
        lemma_sums_push::<E, W>(l, y, a, rest);
        lemma_count_push::<E, W>(l, y, 0, vs.last());
        assert(vs.contains(y.0) <==> (rest.contains(y.0) || vs.last() == y.0)) by {
            if vs.contains(y.0) {
                let k = choose|k: int| 0 <= k < vs.len() && vs[k] == y.0;
                if k < rest.len() {
                    assert(rest[k] == y.0);
                }
            }
            if rest.contains(y.0) {
                let k = choose|k: int| 0 <= k < rest.len() && rest[k] == y.0;
                assert(vs[k] == y.0);
            }
            assert(vs[vs.len() - 1] == vs.last());
        }
        assert(!(rest.contains(y.0) && vs.last() == y.0)) by {
            if rest.contains(y.0) && vs.last() == y.0 {
                let k = choose|k: int| 0 <= k < rest.len() && rest[k] == y.0;
                assert(vs[k] == vs[vs.len() - 1]);
            }
        }
    }
}

/// The entries of the list `l` of vertex `a` with their destination below `a`, and above
/// it, counted destination by destination over `vs`, which lists each destination once.
proof fn lemma_row_counts<E: Edge<W>, W>(a: usize, l: Seq<(usize, E)>, t: Seq<(usize, usize, E)>, vs: Seq<usize>)
    requires
        t.len() == l.len(),
        forall|k: int| 0 <= k < t.len() ==> (#[trigger] t[k]).0 == a && t[k].1 == l[k].0,
        vs.no_duplicates(),
        forall|k: int| 0 <= k < l.len() ==> vs.contains((#[trigger] l[k]).0),
    ensures
        count_gt(t) == sum_below(l, a, vs),
        count_lt(t) == sum_above(l, a, vs),
    decreases l.len(),
{
    if l.len() == 0 {
        lemma_sums_empty::<E>(l, a, vs);
    } else {
        let (l2, t2) = (l.drop_last(), t.drop_last());
        assert forall|k: int| 0 <= k < t2.len() implies (#[trigger] t2[k]).0 == a && t2[k].1 == l2[k].0 by {
            assert(t2[k] == t[k] && l2[k] == l[k]);
        }
        assert forall|k: int| 0 <= k < l2.len() implies vs.contains((#[trigger] l2[k]).0) by {
            assert(l2[k] == l[k]);
        }
        lemma_row_counts::<E, W>(a, l2, t2, vs);
        assert(l =~= l2.push(l.last()));
        assert(t.last() == t[t.len() - 1] && l.last() == l[l.len() - 1]);
        lemma_sums_push::<E, W>(l2, l.last(), a, vs);
    }
}

proof fn lemma_sums_empty<E>(l: Seq<(usize, E)>, a: usize, vs: Seq<usize>)
    requires
        l.len() == 0,
    ensures
        sum_below(l, a, vs) == 0,
        sum_above(l, a, vs) == 0,
    decreases vs.len(),
{
    if vs.len() > 0 {
        lemma_sums_empty(l, a, vs.drop_last());
    }
}

impl<W, E: Edge<W>, Dir: EdgeDir> AdjList<W, E, Dir> {
    /// Number of entries of the list of `a` towards `b`, where `b < a`; 0 for other pairs.
    pub open spec fn down_counts(&self) -> spec_fn(usize, usize) -> nat {
        |a: usize, b: usize| if b < a { count_towards(self.spec_list(a), b) } else { 0 }
    }

    /// Number of entries of the list of `a` towards `b`, where `b > a`; 0 for other pairs.
    pub open spec fn up_counts(&self) -> spec_fn(usize, usize) -> nat {
        |a: usize, b: usize| if b > a { count_towards(self.spec_list(a), b) } else { 0 }
    }

    proof fn lemma_row_sums(&self, a: usize, vs: Seq<usize>)
        ensures
            row_sum(a, vs, self.down_counts()) == sum_below(self.spec_list(a), a, vs),
            row_sum(a, vs, self.up_counts()) == sum_above(self.spec_list(a), a, vs),
        decreases vs.len(),
    {
        if vs.len() > 0 {
            self.lemma_row_sums(a, vs.drop_last());
        }
    }

    /// The vertex sequence lists the vertices in increasing order, each once.
    proof fn lemma_present_facts(&self, n: nat)
        requires
            n <= self.spec_total(),
            n <= usize::MAX,
        ensures
            forall|i: int, j: int| 0 <= i < j < self.present_upto(n).len() ==> self.present_upto(n)[i] < self.present_upto(n)[j],
            forall|i: int| 0 <= i < self.present_upto(n).len() ==> self.present_upto(n)[i] < n,
            forall|v: usize| v < n && self.spec_has_vertex(v) ==> self.present_upto(n).contains(v),
        decreases n,
    {
        if n > 0 {
            let m = (n - 1) as nat;
            self.lemma_present_facts(m);
            let prev = self.present_upto(m);
            let cur = self.present_upto(n);
            assert forall|i: int| 0 <= i < cur.len() implies cur[i] < n by {
                if i < prev.len() {
                    assert(cur[i] == prev[i]);
                }
            }
            assert forall|i: int, j: int| 0 <= i < j < cur.len() implies cur[i] < cur[j] by {
                assert(cur[i] == prev[i]);
                if j < prev.len() {
                    assert(cur[j] == prev[j]);
                } else {
                    assert(cur == prev.push(m as usize));
                    assert(cur[j] == m);
                    assert(prev[i] < m);
                }
            }
            assert forall|v: usize| v < n && self.spec_has_vertex(v) implies cur.contains(v) by {
                if v < m {
                    let k = choose|k: int| 0 <= k < prev.len() && prev[k] == v;
                    assert(cur[k] == v);
                } else {
                    assert(cur[cur.len() - 1] == v);
                }
            }
        }
    }

    proof fn lemma_entries_counts(&self, srcs: Seq<usize>, vs: Seq<usize>)
        requires
            self.wf(),
            vs.no_duplicates(),
            forall|v: usize| self.spec_has_vertex(v) ==> vs.contains(v),
            forall|i: int| 0 <= i < srcs.len() ==> self.spec_has_vertex(#[trigger] srcs[i]),
        ensures
            count_gt(self.entries_of(srcs)) == pair_sum(srcs, vs, self.down_counts()),
            count_lt(self.entries_of(srcs)) == pair_sum(srcs, vs, self.up_counts()),
        decreases srcs.len(),
    {
        if srcs.len() > 0 {
            let rest = srcs.drop_last();
            assert forall|i: int| 0 <= i < rest.len() implies self.spec_has_vertex(#[trigger] rest[i]) by {
                assert(rest[i] == srcs[i]);
            }
            self.lemma_entries_counts(rest, vs);
            let v = srcs.last();
            assert(self.spec_has_vertex(srcs[srcs.len() - 1]));
            let l = self.spec_list(v);
            let whole = self.entries_of(srcs);
            let prev = self.entries_of(rest);
            let t = whole.subrange(prev.len() as int, whole.len() as int);
            assert(whole =~= prev + t);
            assert forall|k: int| 0 <= k < t.len() implies (#[trigger] t[k]).0 == v && t[k].1 == l[k].0 by {
                assert(t[k] == whole[prev.len() + k]);
            }
            assert forall|k: int| 0 <= k < l.len() implies vs.contains((#[trigger] l[k]).0) by {
                self.lemma_entry_is_live_edge(v, k);
            }
            lemma_counts_add(prev, t);
            lemma_row_counts::<E, W>(v, l, t, vs);
            self.lemma_row_sums(v, vs);
        }
    }

    /// `as_directed_edges` lists as many edges as `edges` in a directed storage; in an
    /// undirected one it lists each edge of `edges` that is no self loop twice over, once from
    /// each end, and each self loop once: `edges` holds the self loops and the edges whose
    /// source is below their destination.
    pub proof fn lemma_as_directed_count(&self)
        requires
            self.wf(),
        ensures
            ({
                let all = self.entries_of(self.spec_vertex_seq());
                &&& Dir::spec_is_directed() ==> all.len() == self.spec_edges().len()
                &&& !Dir::spec_is_directed() ==>
                    all.len() == count_eq(self.spec_edges()) + 2 * count_lt(self.spec_edges())
                &&& !Dir::spec_is_directed() ==>
                    self.spec_edges().len() == count_eq(self.spec_edges()) + count_lt(self.spec_edges())
                &&& !Dir::spec_is_directed() ==> all.len() + count_eq(self.spec_edges()) == 2 * self.spec_edges().len()
            }),
    {
        let vs = self.spec_vertex_seq();
        let all = self.entries_of(vs);
        if !Dir::spec_is_directed() {
            assert(self.spec_total() == self.edges_of.len());
            self.lemma_present_facts(self.spec_total());
            self.lemma_present_upto(self.spec_total());
            assert(vs.no_duplicates()) by {
                assert forall|i: int, j: int| 0 <= i < j < vs.len() implies vs[i] != vs[j] by {}
            }
            assert forall|v: usize| self.spec_has_vertex(v) implies vs.contains(v) by {}
            lemma_counts_partition(all);
            lemma_upper_counts(all);
            self.lemma_entries_counts(vs, vs);
            lemma_pair_sum_swap(vs, vs, self.down_counts());
            assert forall|a: usize, b: usize| vs.contains(a) && vs.contains(b) implies
                #[trigger] flip(self.down_counts())(a, b) == self.up_counts()(a, b) by {
                let ka = choose|k: int| 0 <= k < vs.len() && vs[k] == a;
                let kb = choose|k: int| 0 <= k < vs.len() && vs[k] == b;
                if a < b {
                    assert(count_towards(self.spec_list(b), a) == count_towards(self.spec_list(a), b));
                }
            }
            lemma_pair_sum_congruent_on(vs, vs, flip(self.down_counts()), self.up_counts());
        }
    }
}

/// A list whose count of entries towards `b` with id `id` is positive holds such an entry.
pub proof fn lemma_id_witness<E: Edge<W>, W>(s: Seq<(usize, E)>, id: usize, b: usize) -> (k: int)
    requires
        count_id_towards::<E, W>(s, id, b) > 0,
    ensures
        0 <= k < s.len(),
        s[k].0 == b,
        s[k].1.spec_id() == id,
    decreases s.len(),
{
    if s.last().0 == b && s.last().1.spec_id() == id {
        s.len() - 1
    } else {
        let k = lemma_id_witness::<E, W>(s.drop_last(), id, b);
        assert(s[k] == s.drop_last()[k]);
        k
    }
}

} // verus!
