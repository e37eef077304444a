pub mod utils;

use vstd::prelude::*;
use std::collections::HashSet;
use core::marker::PhantomData;

use crate::graph::{DefaultEdge, DirectedEdge, Edge, EdgeDir, UndirectedEdge};
use crate::storage::ids::take_any;
use crate::storage::Error;
use crate::storage::counting::{
    count_eq, count_lt, count_gt, flip, lemma_counts_add, lemma_counts_partition, lemma_counts_same_ends,
    lemma_pair_sum_congruent, lemma_pair_sum_swap, lemma_upper_counts, pair_sum, row_sum,
};
use utils::{from_ij, from_ij_fits, lemma_from_ij_bound, lemma_from_ij_fits, lemma_from_ij_injective, lemma_from_ij_lower, lemma_matrix_len_ge, lemma_matrix_len_step, matrix_len, spec_from_ij};

verus! {

broadcast use vstd::std_specs::hash::group_hash_axioms;

/// An adjacency matrix that uses undirected default edges.
pub type Mat<W, Dir = UndirectedEdge> = AdjMatrix<W, DefaultEdge<W>, Dir>;

/// An adjacency matrix that uses directed default edges.
pub type DiMat<W> = AdjMatrix<W, DefaultEdge<W>, DirectedEdge>;

/// `AdjMatrix` is a matrix used to represent a finite graph.
/// The elements of the matrix indicate whether pairs of vertices are adjacent or not in the graph.
///
/// |V| is the total number of vertex slots: removing a vertex keeps its slot, and the id is
/// reused by a later `add_vertex`. A directed matrix stores |V|² lists of edges, an undirected
/// one the (|V|² + |V|)/2 lists of the lower triangle.
///
/// The model: the present vertices `spec_vertices()`, the list of edges from `i` to `j`
/// `spec_slot(i, j)`, and the live edges `spec_ends()`, a map from edge id to the
/// (source, destination) pair it was added with.
pub struct AdjMatrix<W, E: Edge<W>, Dir: EdgeDir = UndirectedEdge> {
    vec: Vec<Vec<E>>,
    reusable_vertex_ids: HashSet<usize>,
    max_edge_id: usize,
    reusable_edge_ids: HashSet<usize>,
    vertex_count: usize,
    edge_ends: Ghost<Map<usize, (usize, usize)>>,
    phantom_w: PhantomData<W>,
    phantom_dir: PhantomData<Dir>,
}

impl<W, E: Edge<W>, Dir: EdgeDir> AdjMatrix<W, E, Dir> {
    /// Index of the list of edges between `i` and `j` in the flat vector.
    pub open spec fn idx(i: usize, j: usize) -> int {
        spec_from_ij(i as nat, j as nat, Dir::spec_is_directed()) as int
    }

    /// Total number of vertex slots (|V|).
    pub closed spec fn spec_total(&self) -> nat {
        self.vertex_count as nat + self.reusable_vertex_ids@.len()
    }

    /// Number of vertices present in the graph.
    pub closed spec fn spec_vertex_count(&self) -> nat {
        self.vertex_count as nat
    }

    /// `v` is a vertex of the graph.
    pub closed spec fn spec_has_vertex(&self, v: usize) -> bool {
        v < self.spec_total() && !self.reusable_vertex_ids@.contains(v)
    }

    /// A vertex has an id below the number of slots.
    pub proof fn lemma_vertex_below_total(&self, v: usize)
        requires
            self.spec_has_vertex(v),
        ensures
            v < self.spec_total(),
    {
    }

    /// The vertices of the graph.
    pub open spec fn spec_vertices(&self) -> Set<usize> {
        Set::new(|v: usize| self.spec_has_vertex(v))
    }

    /// Ids of removed vertices, waiting to be reused.
    pub closed spec fn spec_reusable_vertex_ids(&self) -> Set<usize> {
        self.reusable_vertex_ids@
    }

    /// Ids of removed edges, waiting to be reused.
    pub closed spec fn spec_reusable_edge_ids(&self) -> Set<usize> {
        self.reusable_edge_ids@
    }

    /// Edges stored from `i` to `j` (for undirected matrices, between `i` and `j`).
    pub closed spec fn spec_slot(&self, i: usize, j: usize) -> Seq<E> {
        self.vec@[Self::idx(i, j)]@
    }

    /// The live edges: edge id to the (source, destination) pair it was added with.
    pub closed spec fn spec_ends(&self) -> Map<usize, (usize, usize)> {
        self.edge_ends@
    }

    /// One more than the largest edge id handed out so far.
    pub closed spec fn spec_max_edge_id(&self) -> usize {
        self.max_edge_id
    }

    /// The vertices below `n`, in increasing order.
    pub closed spec fn present_upto(&self, n: nat) -> Seq<usize>
        decreases n,
    {
        if n == 0 {
            Seq::empty()
        } else {
            let prev = self.present_upto((n - 1) as nat);
            if self.spec_has_vertex((n - 1) as usize) {
                prev.push((n - 1) as usize)
            } else {
                prev
            }
        }
    }

    /// The vertices of the graph in increasing order, as `vertices()` lists them.
    pub closed spec fn spec_vertex_seq(&self) -> Seq<usize> {
        self.present_upto(self.spec_total())
    }

    /// Length of the flat vector of edge lists.
    pub closed spec fn spec_storage_len(&self) -> nat {
        self.vec@.len()
    }

    /// Number of edges in the graph.
    pub open spec fn spec_edge_count(&self) -> nat {
        self.spec_ends().dom().len()
    }

    /// A new edge can get an id: either one is reusable or a fresh one fits in `usize`.
    pub open spec fn spec_can_add_edge(&self) -> bool {
        !self.spec_reusable_edge_ids().is_empty() || self.spec_max_edge_id() < usize::MAX
    }

    /// A new vertex can be stored: either an id is reusable or the grown matrix still fits.
    pub open spec fn spec_can_add_vertex(&self) -> bool {
        !self.spec_reusable_vertex_ids().is_empty()
            || matrix_len(self.spec_total() + 1, Dir::spec_is_directed()) <= isize::MAX
    }

    spec fn slot_has_id(&self, p: int, id: usize) -> bool {
        exists|k: int| 0 <= k < self.vec@[p]@.len() && #[trigger] self.vec@[p]@[k].spec_id() == id
    }

    /// The storage invariant.
    pub closed spec fn wf(&self) -> bool {
        let t = self.spec_total();
        let r = self.reusable_vertex_ids@;
        let re = self.reusable_edge_ids@;
        let ends = self.edge_ends@;
        let m = self.max_edge_id;
        &&& r.finite()
        &&& re.finite()
        &&& forall|v: usize| #[trigger] r.contains(v) ==> v < t
        &&& self.vec@.len() == matrix_len(t, Dir::spec_is_directed())
        &&& self.vec@.len() <= isize::MAX
        &&& t <= isize::MAX
        &&& forall|id: usize| #[trigger] re.contains(id) ==> id < m
        &&& forall|id: usize| #[trigger] ends.dom().contains(id) <==> (id < m && !re.contains(id))
        &&& forall|id: usize| #[trigger] ends.dom().contains(id) ==> {
                let (s, d) = ends[id];
                &&& self.spec_has_vertex(s)
                &&& self.spec_has_vertex(d)
                &&& self.slot_has_id(Self::idx(s, d), id)
            }
        &&& forall|p: int, k: int| 0 <= p < self.vec@.len() && 0 <= k < self.vec@[p]@.len() ==> {
                let id = #[trigger] self.vec@[p]@[k].spec_id();
                &&& ends.dom().contains(id)
                &&& Self::idx(ends[id].0, ends[id].1) == p
            }
        &&& forall|p: int, k1: int, k2: int|
                0 <= p < self.vec@.len() && 0 <= k1 < self.vec@[p]@.len() && 0 <= k2 < self.vec@[p]@.len() && k1 != k2
                ==> #[trigger] self.vec@[p]@[k1].spec_id() != #[trigger] self.vec@[p]@[k2].spec_id()
    }

    proof fn lemma_index_in_bounds(&self, i: usize, j: usize)
        requires
            self.wf(),
            i < self.spec_total(),
            j < self.spec_total(),
        ensures
            from_ij_fits(i, j, Dir::spec_is_directed()),
            0 <= Self::idx(i, j) < self.vec@.len(),
    {
        lemma_from_ij_fits(i, j, self.spec_total(), Dir::spec_is_directed());
        lemma_from_ij_bound(i as nat, j as nat, self.spec_total(), Dir::spec_is_directed());
    }

    /// A slot involving a vertex slot that holds no vertex stores no edge.
    proof fn lemma_absent_slot_empty(&self, v: usize, o: usize)
        requires
            self.wf(),
            v < self.spec_total(),
            o < self.spec_total(),
            !self.spec_has_vertex(v) || !self.spec_has_vertex(o),
        ensures
            self.vec@[Self::idx(v, o)]@.len() == 0,
            self.vec@[Self::idx(o, v)]@.len() == 0,
    {
        self.lemma_index_in_bounds(v, o);
        self.lemma_index_in_bounds(o, v);
        let p = Self::idx(v, o);
        if self.vec@[p]@.len() > 0 {
            let id = self.vec@[p]@[0].spec_id();
            let (s, d) = self.edge_ends@[id];
            assert(self.spec_has_vertex(s) && self.spec_has_vertex(d));
            lemma_from_ij_injective(s as nat, d as nat, v as nat, o as nat, Dir::spec_is_directed());
        }
        let q = Self::idx(o, v);
        if self.vec@[q]@.len() > 0 {
            let id = self.vec@[q]@[0].spec_id();
            let (s, d) = self.edge_ends@[id];
            assert(self.spec_has_vertex(s) && self.spec_has_vertex(d));
            lemma_from_ij_injective(s as nat, d as nat, o as nat, v as nat, Dir::spec_is_directed());
        }
    }

    /// The counters agree with the model: `vertex_count` counts the vertices and
    /// `max_edge_id - |reusable edge ids|` counts the live edges.
    proof fn lemma_counts(&self)
        requires
            self.wf(),
        ensures
            self.spec_vertices().finite(),
            self.spec_vertices().len() == self.vertex_count,
            self.edge_ends@.dom().finite(),
            self.edge_ends@.dom().len() == self.max_edge_id - self.reusable_edge_ids@.len(),
    {
        let t = self.spec_total();
        let range_v = Set::<usize>::range(0, t as usize);
        vstd::set_lib::range_set_properties::<usize>(0, t as usize);
        let r = self.reusable_vertex_ids@;
        assert(range_v.intersect(r) =~= r);
        vstd::set_lib::lemma_set_difference_len(range_v, r);
        assert(self.spec_vertices() =~= range_v.difference(r));
        let m = self.max_edge_id;
        let range_e = Set::<usize>::range(0, m);
        vstd::set_lib::range_set_properties::<usize>(0, m);
        let re = self.reusable_edge_ids@;
        assert(range_e.intersect(re) =~= re);
        vstd::set_lib::lemma_set_difference_len(range_e, re);
        assert(self.edge_ends@.dom() =~= range_e.difference(re));
    }
}


impl<W, E: Edge<W>, Dir: EdgeDir> AdjMatrix<W, E, Dir> {
    /// Initializes an empty adjacency matrix.
    pub fn init() -> (m: Self)
        ensures
            m.wf(),
            m.spec_vertices() == Set::<usize>::empty(),
            m.spec_total() == 0,
            m.spec_vertex_count() == 0,
            m.spec_storage_len() == 0,
            m.spec_reusable_vertex_ids() == Set::<usize>::empty(),
            m.spec_reusable_edge_ids() == Set::<usize>::empty(),
            m.spec_ends() == Map::<usize, (usize, usize)>::empty(),
            m.spec_max_edge_id() == 0,
    {
        let m = AdjMatrix {
            vec: Vec::new(),
            reusable_vertex_ids: HashSet::new(),
            max_edge_id: 0,
            reusable_edge_ids: HashSet::new(),
            vertex_count: 0,
            edge_ends: Ghost(Map::empty()),
            phantom_w: PhantomData,
            phantom_dir: PhantomData,
        };
        assert(m.spec_vertices() =~= Set::<usize>::empty());
        m
    }

    // Takes an id of a removed vertex out of the reusable ids, if there is one.
    fn next_reusable_vertex_id(&mut self) -> (r: Option<usize>)
        ensures
            match r {
                Some(id) => old(self).reusable_vertex_ids@.contains(id)
                    && final(self).reusable_vertex_ids@ == old(self).reusable_vertex_ids@.remove(id),
                None => old(self).reusable_vertex_ids@ == Set::<usize>::empty()
                    && final(self).reusable_vertex_ids@ == old(self).reusable_vertex_ids@,
            },
            final(self).vec == old(self).vec,
            final(self).vertex_count == old(self).vertex_count,
            final(self).max_edge_id == old(self).max_edge_id,
            final(self).reusable_edge_ids == old(self).reusable_edge_ids,
            final(self).edge_ends == old(self).edge_ends,
    {
        take_any(&mut self.reusable_vertex_ids)
    }

    // Takes an id of a removed edge out of the reusable ids, if there is one.
    fn next_reusable_edge_id(&mut self) -> (r: Option<usize>)
        ensures
            match r {
                Some(id) => old(self).reusable_edge_ids@.contains(id)
                    && final(self).reusable_edge_ids@ == old(self).reusable_edge_ids@.remove(id),
                None => old(self).reusable_edge_ids@ == Set::<usize>::empty()
                    && final(self).reusable_edge_ids@ == old(self).reusable_edge_ids@,
            },
            final(self).vec == old(self).vec,
            final(self).vertex_count == old(self).vertex_count,
            final(self).max_edge_id == old(self).max_edge_id,
            final(self).reusable_vertex_ids == old(self).reusable_vertex_ids,
            final(self).edge_ends == old(self).edge_ends,
    {
        take_any(&mut self.reusable_edge_ids)
    }

    /// # Returns
    /// Total number of vertex slots in the storage (|V|), removed vertices included.
    pub fn total_vertex_count(&self) -> (n: usize)
        requires
            self.wf(),
        ensures
            n == self.spec_total(),
    {
        self.vertex_count + self.reusable_vertex_ids.len()
    }

    /// # Returns
    /// `true` if edges of this storage are directed.
    pub fn is_directed(&self) -> (b: bool)
        ensures
            b == Dir::spec_is_directed(),
    {
        Dir::is_directed()
    }

    /// # Returns
    /// `true` if edges of this storage are undirected.
    pub fn is_undirected(&self) -> (b: bool)
        ensures
            b == !Dir::spec_is_directed(),
    {
        Dir::is_undirected()
    }

    /// # Returns
    /// `true` if the storage contains the vertex with id `vertex_id`.
    pub fn contains_vertex(&self, vertex_id: usize) -> (b: bool)
        requires
            self.wf(),
        ensures
            b == self.spec_has_vertex(vertex_id),
    {
        vertex_id < self.total_vertex_count() && !self.reusable_vertex_ids.contains(&vertex_id)
    }

    /// # Returns
    /// `true` if the storage contains the edge with id `edge_id`.
    pub fn contains_edge(&self, edge_id: usize) -> (b: bool)
        requires
            self.wf(),
        ensures
            b == self.spec_ends().dom().contains(edge_id),
    {
        edge_id < self.max_edge_id && !self.reusable_edge_ids.contains(&edge_id)
    }

    /// # Returns
    /// Number of vertices in the graph.
    pub fn vertex_count(&self) -> (n: usize)
        requires
            self.wf(),
        ensures
            n == self.spec_vertex_count(),
            n == self.spec_vertices().len(),
    {
        proof { self.lemma_counts(); }
        self.vertex_count
    }

    /// # Returns
    /// Number of edges in the graph.
    pub fn edge_count(&self) -> (n: usize)
        requires
            self.wf(),
        ensures
            n == self.spec_edge_count(),
    {
        proof { self.lemma_counts(); }
        self.max_edge_id - self.reusable_edge_ids.len()
    }

    /// # Returns
    /// Ids of the vertices present in the graph, in increasing order.
    pub fn vertices(&self) -> (vs: Vec<usize>)
        requires
            self.wf(),
        ensures
            vs@ == self.spec_vertex_seq(),
            forall|a: int, b: int| 0 <= a < b < vs@.len() ==> vs@[a] < vs@[b],
            forall|v: usize| vs@.contains(v) <==> self.spec_has_vertex(v),
            forall|i: int| 0 <= i < vs@.len() ==> #[trigger] vs@[i] < self.spec_total(),
    {
        let t = self.total_vertex_count();
        let mut vs: Vec<usize> = Vec::new();
        let mut i: usize = 0;
        while i < t
            invariant
                self.wf(),
                t == self.spec_total(),
                i <= t,
                vs@ == self.present_upto(i as nat),
                forall|a: int, b: int| 0 <= a < b < vs@.len() ==> vs@[a] < vs@[b],
                forall|a: int| 0 <= a < vs@.len() ==> vs@[a] < i,
                forall|v: usize| vs@.contains(v) <==> (v < i && self.spec_has_vertex(v)),
            decreases t - i,
        {
            let ghost old_vs = vs@;
            if !self.reusable_vertex_ids.contains(&i) {
                vs.push(i);
                proof {
                    assert forall|v: usize| vs@.contains(v) <==> (old_vs.contains(v) || v == i) by {
                        if v == i {
                            assert(vs@[old_vs.len() as int] == i);
                        }
                        if vs@.contains(v) && v != i {
                            let k = choose|k: int| 0 <= k < vs@.len() && vs@[k] == v;
                            assert(old_vs[k] == v);
                        }
                        if old_vs.contains(v) {
                            let k = choose|k: int| 0 <= k < old_vs.len() && old_vs[k] == v;
                            assert(vs@[k] == v);
                        }
                    }
                }
            }
            proof {
                assert forall|v: usize| vs@.contains(v) <==> (v < i + 1 && self.spec_has_vertex(v)) by {
                    assert(old_vs.contains(v) <==> (v < i && self.spec_has_vertex(v)));
                }
            }
            i = i + 1;
        }
        vs
    }

    // # Returns
    // Index of the list of edges between `src_id` and `dst_id` in the flat vector.
    fn slot_index(&self, src_id: usize, dst_id: usize) -> (p: usize)
        requires
            self.wf(),
            src_id < self.spec_total(),
            dst_id < self.spec_total(),
        ensures
            p == Self::idx(src_id, dst_id),
            p < self.vec@.len(),
    {
        proof { self.lemma_index_in_bounds(src_id, dst_id); }
        from_ij(src_id, dst_id, Dir::is_directed())
    }

    /// Adds a vertex to the graph, reusing the id of a removed vertex when there is one.
    ///
    /// # Returns
    /// Unique id of the newly added vertex.
    pub fn add_vertex(&mut self) -> (id: usize)
        requires
            old(self).wf(),
            old(self).spec_can_add_vertex(),
        ensures
            final(self).wf(),
            !old(self).spec_has_vertex(id),
            final(self).spec_vertices() == old(self).spec_vertices().insert(id),
            final(self).spec_vertex_count() == old(self).spec_vertex_count() + 1,
            final(self).spec_ends() == old(self).spec_ends(),
            final(self).spec_max_edge_id() == old(self).spec_max_edge_id(),
            final(self).spec_reusable_edge_ids() == old(self).spec_reusable_edge_ids(),
            forall|i: usize, j: usize| old(self).spec_has_vertex(i) && old(self).spec_has_vertex(j)
                ==> #[trigger] final(self).spec_slot(i, j) == old(self).spec_slot(i, j),
            forall|v: usize| #[trigger] final(self).spec_has_vertex(v)
                ==> final(self).spec_slot(id, v).len() == 0 && final(self).spec_slot(v, id).len() == 0,
            old(self).spec_reusable_vertex_ids().is_empty() ==> {
                &&& id == old(self).spec_total()
                &&& final(self).spec_total() == old(self).spec_total() + 1
                &&& final(self).spec_reusable_vertex_ids() == old(self).spec_reusable_vertex_ids()
                &&& final(self).spec_storage_len() == matrix_len(old(self).spec_total() + 1, Dir::spec_is_directed())
            },
            !old(self).spec_reusable_vertex_ids().is_empty() ==> {
                &&& old(self).spec_reusable_vertex_ids().contains(id)
                &&& final(self).spec_total() == old(self).spec_total()
                &&& final(self).spec_reusable_vertex_ids() == old(self).spec_reusable_vertex_ids().remove(id)
                &&& final(self).spec_storage_len() == old(self).spec_storage_len()
            },
    {
        proof { self.lemma_counts(); }
        let ghost old_self = *self;
        if let Some(reusable_id) = self.next_reusable_vertex_id() {
            proof {
                assert(old_self.reusable_vertex_ids@.remove(reusable_id).len() + 1 == old_self.reusable_vertex_ids@.len());
                assert(old_self.spec_vertices().len() <= old_self.spec_total());
            }
            self.vertex_count = self.vertex_count + 1;
            proof {
                assert(self.spec_total() == old_self.spec_total());
                assert forall|v: usize| #[trigger] self.spec_has_vertex(v) implies
                    self.spec_slot(reusable_id, v).len() == 0 && self.spec_slot(v, reusable_id).len() == 0 by {
                    old_self.lemma_absent_slot_empty(reusable_id, v);
                }
                assert forall|id: usize| #[trigger] self.edge_ends@.dom().contains(id) implies {
                    let (s, d) = self.edge_ends@[id];
                    &&& self.spec_has_vertex(s)
                    &&& self.spec_has_vertex(d)
                    &&& self.slot_has_id(Self::idx(s, d), id)
                } by {
                    assert(old_self.slot_has_id(Self::idx(self.edge_ends@[id].0, self.edge_ends@[id].1), id));
                }
                assert(self.spec_vertices() =~= old_self.spec_vertices().insert(reusable_id));
            }
            reusable_id
        } else {
            let t = self.vertex_count;
            proof {
                assert(old_self.reusable_vertex_ids@ =~= Set::<usize>::empty());
                lemma_matrix_len_step(t as nat, Dir::spec_is_directed());
                lemma_matrix_len_ge(t as nat + 1, Dir::spec_is_directed());
            }
            let extra: usize = if Dir::is_directed() { 2 * t + 1 } else { t + 1 };
            let mut added: usize = 0;
            while added < extra
                invariant
                    added <= extra,
                    self.vec@.len() == old_self.vec@.len() + added,
                    forall|p: int| 0 <= p < old_self.vec@.len() ==> #[trigger] self.vec@[p] == old_self.vec@[p],
                    forall|p: int| old_self.vec@.len() <= p < self.vec@.len() ==> (#[trigger] self.vec@[p])@.len() == 0,
                    self.reusable_vertex_ids@ == old_self.reusable_vertex_ids@,
                    self.reusable_edge_ids == old_self.reusable_edge_ids,
                    self.vertex_count == old_self.vertex_count,
                    self.max_edge_id == old_self.max_edge_id,
                    self.edge_ends == old_self.edge_ends,
                decreases extra - added,
            {
                self.vec.push(Vec::new());
                added = added + 1;
            }
            self.vertex_count = self.vertex_count + 1;
            proof {
                let old_len = old_self.vec@.len() as int;
                assert(self.spec_total() == t + 1);
                assert forall|p: int, k: int| 0 <= p < self.vec@.len() && 0 <= k < self.vec@[p]@.len() implies {
                    let id = #[trigger] self.vec@[p]@[k].spec_id();
                    &&& self.edge_ends@.dom().contains(id)
                    &&& Self::idx(self.edge_ends@[id].0, self.edge_ends@[id].1) == p
                } by {
                    if p >= old_len {
                        assert(self.vec@[p]@.len() == 0);
                    } else {
                        assert(self.vec@[p] == old_self.vec@[p]);
                    }
                }
                assert forall|p: int, k1: int, k2: int|
                    0 <= p < self.vec@.len() && 0 <= k1 < self.vec@[p]@.len() && 0 <= k2 < self.vec@[p]@.len() && k1 != k2
                    implies #[trigger] self.vec@[p]@[k1].spec_id() != #[trigger] self.vec@[p]@[k2].spec_id() by {
                    if p < old_len {
                        assert(self.vec@[p] == old_self.vec@[p]);
                    }
                }
                assert forall|id: usize| #[trigger] self.edge_ends@.dom().contains(id) implies {
                    let (s, d) = self.edge_ends@[id];
                    &&& self.spec_has_vertex(s)
                    &&& self.spec_has_vertex(d)
                    &&& self.slot_has_id(Self::idx(s, d), id)
                } by {
                    let (s, d) = self.edge_ends@[id];
                    old_self.lemma_index_in_bounds(s, d);
                    let q = Self::idx(s, d);
                    assert(old_self.slot_has_id(q, id));
                    assert(self.vec@[q] == old_self.vec@[q]);
                }
                assert forall|i: usize, j: usize| old_self.spec_has_vertex(i) && old_self.spec_has_vertex(j)
                    implies #[trigger] self.spec_slot(i, j) == old_self.spec_slot(i, j) by {
                    old_self.lemma_index_in_bounds(i, j);
                }
                assert forall|v: usize| #[trigger] self.spec_has_vertex(v) implies
                    self.spec_slot(t, v).len() == 0 && self.spec_slot(v, t).len() == 0 by {
                    lemma_from_ij_lower(t as nat, v as nat, Dir::spec_is_directed());
                    lemma_from_ij_lower(v as nat, t as nat, Dir::spec_is_directed());
                    self.lemma_index_in_bounds(t, v);
                    self.lemma_index_in_bounds(v, t);
                }
                assert(self.spec_vertices() =~= old_self.spec_vertices().insert(t));
            }
            t
        }
    }
}

impl<W, E: Edge<W>, Dir: EdgeDir> AdjMatrix<W, E, Dir> {
    /// `(i, j)` and `(s, d)` name the same list of edges: the same ordered pair when directed,
    /// the same unordered pair when undirected.
    pub open spec fn same_slot(i: usize, j: usize, s: usize, d: usize) -> bool {
        if Dir::spec_is_directed() {
            i == s && j == d
        } else {
            (i == s && j == d) || (i == d && j == s)
        }
    }

    proof fn lemma_same_slot(&self, i: usize, j: usize, s: usize, d: usize)
        ensures
            Self::same_slot(i, j, s, d) <==> Self::idx(i, j) == Self::idx(s, d),
    {
        if Self::idx(i, j) == Self::idx(s, d) {
            lemma_from_ij_injective(i as nat, j as nat, s as nat, d as nat, Dir::spec_is_directed());
        }
    }

    // # Returns
    // Position of the edge with id `edge_id` in the list at `p`, if it is there.
    fn position_in_slot(&self, p: usize, edge_id: usize) -> (r: Option<usize>)
        requires
            p < self.vec@.len(),
        ensures
            match r {
                Some(k) => k < self.vec@[p as int]@.len() && self.vec@[p as int]@[k as int].spec_id() == edge_id,
                None => forall|k: int| 0 <= k < self.vec@[p as int]@.len() ==> #[trigger] self.vec@[p as int]@[k].spec_id() != edge_id,
            },
    {
        let slot = &self.vec[p];
        let mut k: usize = 0;
        while k < slot.len()
            invariant
                *slot == self.vec@[p as int],
                k <= slot@.len(),
                forall|q: int| 0 <= q < k ==> #[trigger] slot@[q].spec_id() != edge_id,
            decreases slot@.len() - k,
        {
            if slot[k].get_id() == edge_id {
                return Some(k);
            }
            k = k + 1;
        }
        None
    }

    // Empties the list at `p`, freeing the ids of the edges it held.
    fn clear_slot(&mut self, p: usize)
        requires
            old(self).wf(),
            p < old(self).vec@.len(),
        ensures
            final(self).wf(),
            final(self).vec@.len() == old(self).vec@.len(),
            final(self).vec@[p as int]@.len() == 0,
            forall|q: int| 0 <= q < old(self).vec@.len() && q != p ==> #[trigger] final(self).vec@[q] == old(self).vec@[q],
            final(self).vertex_count == old(self).vertex_count,
            final(self).reusable_vertex_ids@ == old(self).reusable_vertex_ids@,
            final(self).max_edge_id == old(self).max_edge_id,
            forall|id: usize| #[trigger] final(self).edge_ends@.dom().contains(id) <==>
                (old(self).edge_ends@.dom().contains(id) && !old(self).slot_has_id(p as int, id)),
            forall|id: usize| #[trigger] final(self).edge_ends@.dom().contains(id) ==>
                final(self).edge_ends@[id] == old(self).edge_ends@[id],
            forall|id: usize| #[trigger] final(self).reusable_edge_ids@.contains(id) <==>
                (old(self).reusable_edge_ids@.contains(id) || old(self).slot_has_id(p as int, id)),
    {
        let ghost old_self = *self;
        let ghost old_slot = self.vec@[p as int]@;
        while self.vec[p].len() > 0
            invariant
                self.wf(),
                self.vec@.len() == old_self.vec@.len(),
                p < self.vec@.len(),
                self.vec@[p as int]@.len() <= old_slot.len(),
                self.vec@[p as int]@ == old_slot.take(self.vec@[p as int]@.len() as int),
                forall|q: int| 0 <= q < old_self.vec@.len() && q != p ==> #[trigger] self.vec@[q] == old_self.vec@[q],
                self.vertex_count == old_self.vertex_count,
                self.reusable_vertex_ids@ == old_self.reusable_vertex_ids@,
                self.max_edge_id == old_self.max_edge_id,
                forall|id: usize| #[trigger] self.edge_ends@.dom().contains(id) <==>
                    (old_self.edge_ends@.dom().contains(id) && !(exists|k: int|
                        self.vec@[p as int]@.len() <= k < old_slot.len() && #[trigger] old_slot[k].spec_id() == id)),
                forall|id: usize| #[trigger] self.edge_ends@.dom().contains(id) ==>
                    self.edge_ends@[id] == old_self.edge_ends@[id],
                forall|id: usize| #[trigger] self.reusable_edge_ids@.contains(id) <==>
                    (old_self.reusable_edge_ids@.contains(id) || (exists|k: int|
                        self.vec@[p as int]@.len() <= k < old_slot.len() && #[trigger] old_slot[k].spec_id() == id)),
            decreases self.vec@[p as int]@.len(),
        {
            let ghost before = *self;
            let len = self.vec[p].len();
            let id = self.vec[p][len - 1].get_id();
            let _ = self.vec[p].pop();
            self.reusable_edge_ids.insert(id);
            proof {
                self.edge_ends@ = self.edge_ends@.remove(id);
                let n = len as int - 1;
                assert(before.vec@[p as int]@[n] == old_slot[n]);
                assert(old_slot[n].spec_id() == id);
                assert forall|k: int| 0 <= k < n implies #[trigger] self.vec@[p as int]@[k].spec_id() != id by {
                    assert(before.vec@[p as int]@[k] == self.vec@[p as int]@[k]);
                }
                assert(self.vec@[p as int]@ =~= old_slot.take(n));
                assert forall|i: usize| #[trigger] self.edge_ends@.dom().contains(i) implies {
                    let (s, d) = self.edge_ends@[i];
                    &&& self.spec_has_vertex(s)
                    &&& self.spec_has_vertex(d)
                    &&& self.slot_has_id(Self::idx(s, d), i)
                } by {
                    let (s, d) = self.edge_ends@[i];
                    let q = Self::idx(s, d);
                    assert(before.edge_ends@.dom().contains(i));
                    before.lemma_index_in_bounds(s, d);
                    assert(before.slot_has_id(q, i));
                    let k = choose|k: int| 0 <= k < before.vec@[q]@.len() && #[trigger] before.vec@[q]@[k].spec_id() == i;
                    if q == p {
                        assert(k != n);
                        assert(self.vec@[q]@[k] == before.vec@[q]@[k]);
                    } else {
                        assert(self.vec@[q] == before.vec@[q]);
                    }
                }
                assert forall|q: int, k: int| 0 <= q < self.vec@.len() && 0 <= k < self.vec@[q]@.len() implies {
                    let i = #[trigger] self.vec@[q]@[k].spec_id();
                    &&& self.edge_ends@.dom().contains(i)
                    &&& Self::idx(self.edge_ends@[i].0, self.edge_ends@[i].1) == q
                } by {
                    if q == p {
                        assert(self.vec@[q]@[k] == before.vec@[q]@[k]);
                        assert(before.vec@[q]@[k].spec_id() != before.vec@[q]@[n].spec_id());
                    } else {
                        assert(self.vec@[q] == before.vec@[q]);
                        if before.vec@[q]@[k].spec_id() == id {
                            assert(Self::idx(before.edge_ends@[id].0, before.edge_ends@[id].1) == p);
                        }
                    }
                }
                assert forall|q: int, k1: int, k2: int|
                    0 <= q < self.vec@.len() && 0 <= k1 < self.vec@[q]@.len() && 0 <= k2 < self.vec@[q]@.len() && k1 != k2
                    implies #[trigger] self.vec@[q]@[k1].spec_id() != #[trigger] self.vec@[q]@[k2].spec_id() by {
                    if q == p {
                        assert(self.vec@[q]@[k1] == before.vec@[q]@[k1]);
                        assert(self.vec@[q]@[k2] == before.vec@[q]@[k2]);
                    } else {
                        assert(self.vec@[q] == before.vec@[q]);
                    }
                }
                assert forall|i: usize| #[trigger] self.edge_ends@.dom().contains(i) <==>
                    (old_self.edge_ends@.dom().contains(i) && !(exists|k: int|
                        n <= k < old_slot.len() && #[trigger] old_slot[k].spec_id() == i)) by {
                    if i != id {
                        if exists|k: int| n <= k < old_slot.len() && #[trigger] old_slot[k].spec_id() == i {
                            let k = choose|k: int| n <= k < old_slot.len() && #[trigger] old_slot[k].spec_id() == i;
                            assert(k != n);
                        }
                    }
                }
                assert forall|i: usize| #[trigger] self.reusable_edge_ids@.contains(i) <==>
                    (old_self.reusable_edge_ids@.contains(i) || (exists|k: int|
                        n <= k < old_slot.len() && #[trigger] old_slot[k].spec_id() == i)) by {
                    if i != id {
                        if exists|k: int| n <= k < old_slot.len() && #[trigger] old_slot[k].spec_id() == i {
                            let k = choose|k: int| n <= k < old_slot.len() && #[trigger] old_slot[k].spec_id() == i;
                            assert(k != n);
                        }
                    }
                }
            }
        }
        proof {
            assert forall|id: usize| old_self.slot_has_id(p as int, id) <==> (exists|k: int|
                0 <= k < old_slot.len() && #[trigger] old_slot[k].spec_id() == id) by {
            }
        }
    }
}

impl<W, E: Edge<W>, Dir: EdgeDir> AdjMatrix<W, E, Dir> {
    /// The effect of removing vertex `v` on the model, as stated by `remove_vertex`.
    pub open spec fn removed_vertex(old_m: Self, new_m: Self, v: usize) -> bool {
        &&& new_m.wf()
        &&& new_m.spec_vertices() == old_m.spec_vertices().remove(v)
        &&& new_m.spec_vertex_count() + 1 == old_m.spec_vertex_count()
        &&& new_m.spec_total() == old_m.spec_total()
        &&& new_m.spec_storage_len() == old_m.spec_storage_len()
        &&& new_m.spec_reusable_vertex_ids() == old_m.spec_reusable_vertex_ids().insert(v)
        &&& new_m.spec_max_edge_id() == old_m.spec_max_edge_id()
        &&& forall|id: usize| #[trigger] new_m.spec_ends().dom().contains(id) <==>
                (old_m.spec_ends().dom().contains(id) && old_m.spec_ends()[id].0 != v && old_m.spec_ends()[id].1 != v)
        &&& forall|id: usize| #[trigger] new_m.spec_ends().dom().contains(id) ==> new_m.spec_ends()[id] == old_m.spec_ends()[id]
        &&& forall|id: usize| #[trigger] new_m.spec_reusable_edge_ids().contains(id) <==>
                (old_m.spec_reusable_edge_ids().contains(id) || (old_m.spec_ends().dom().contains(id)
                    && (old_m.spec_ends()[id].0 == v || old_m.spec_ends()[id].1 == v)))
        &&& forall|i: usize, j: usize| new_m.spec_has_vertex(i) && new_m.spec_has_vertex(j)
                ==> #[trigger] new_m.spec_slot(i, j) == old_m.spec_slot(i, j)
    }

    /// Removes the vertex with id `vertex_id` together with every edge incident to it;
    /// the ids of those edges become reusable.
    ///
    /// The vertex must be in the storage.
    pub fn remove_vertex_unchecked(&mut self, vertex_id: usize)
        requires
            old(self).wf(),
            old(self).spec_has_vertex(vertex_id),
        ensures
            Self::removed_vertex(*old(self), *final(self), vertex_id),
    {
        let ghost old_self = *self;
        let v = vertex_id;
        let vs = self.vertices();
        let mut k: usize = 0;
        while k < vs.len()
            invariant
                self.wf(),
                k <= vs@.len(),
                forall|a: int, b: int| 0 <= a < b < vs@.len() ==> vs@[a] < vs@[b],
                forall|x: usize| vs@.contains(x) <==> old_self.spec_has_vertex(x),
                self.spec_has_vertex(v),
                self.vertex_count == old_self.vertex_count,
                self.reusable_vertex_ids@ == old_self.reusable_vertex_ids@,
                self.max_edge_id == old_self.max_edge_id,
                self.vec@.len() == old_self.vec@.len(),
                forall|q: int| 0 <= q < k ==> (#[trigger] self.spec_slot(v, vs@[q])).len() == 0
                    && self.spec_slot(vs@[q], v).len() == 0,
                forall|id: usize| #[trigger] self.edge_ends@.dom().contains(id) ==>
                    old_self.edge_ends@.dom().contains(id) && self.edge_ends@[id] == old_self.edge_ends@[id],
                forall|id: usize| old_self.edge_ends@.dom().contains(id) && !(#[trigger] self.edge_ends@.dom().contains(id)) ==>
                    old_self.edge_ends@[id].0 == v || old_self.edge_ends@[id].1 == v,
                forall|id: usize| #[trigger] self.reusable_edge_ids@.contains(id) <==>
                    (old_self.reusable_edge_ids@.contains(id) || (old_self.edge_ends@.dom().contains(id)
                        && !self.edge_ends@.dom().contains(id))),
                forall|i: usize, j: usize| i != v && j != v && old_self.spec_has_vertex(i) && old_self.spec_has_vertex(j)
                    ==> #[trigger] self.spec_slot(i, j) == old_self.spec_slot(i, j),
            decreases vs@.len() - k,
        {
            let o = vs[k];
            assert(vs@.contains(o));
            let ghost mid0 = *self;
            let p1 = self.slot_index(v, o);
            self.clear_slot(p1);
            let ghost mid1 = *self;
            let p2 = self.slot_index(o, v);
            self.clear_slot(p2);
            proof {
                assert forall|id: usize| old_self.edge_ends@.dom().contains(id) && !(#[trigger] self.edge_ends@.dom().contains(id))
                    implies old_self.edge_ends@[id].0 == v || old_self.edge_ends@[id].1 == v by {
                    if mid0.edge_ends@.dom().contains(id) {
                        let (s, d) = mid0.edge_ends@[id];
                        let q = if mid1.edge_ends@.dom().contains(id) { p2 as int } else { p1 as int };
                        let mm = if mid1.edge_ends@.dom().contains(id) { mid1 } else { mid0 };
                        assert(mm.slot_has_id(q, id));
                        let kk = choose|kk: int| 0 <= kk < mm.vec@[q]@.len() && #[trigger] mm.vec@[q]@[kk].spec_id() == id;
                        assert(Self::idx(mm.edge_ends@[id].0, mm.edge_ends@[id].1) == q);
                        if mid1.edge_ends@.dom().contains(id) {
                            self.lemma_same_slot(s, d, o, v);
                        } else {
                            self.lemma_same_slot(s, d, v, o);
                        }
                    }
                }
                assert forall|q: int| 0 <= q < k + 1 implies (#[trigger] self.spec_slot(v, vs@[q])).len() == 0
                    && self.spec_slot(vs@[q], v).len() == 0 by {
                    assert(vs@.contains(vs@[q]));
                    self.lemma_index_in_bounds(v, vs@[q]);
                    self.lemma_index_in_bounds(vs@[q], v);
                    let a = Self::idx(v, vs@[q]);
                    let b = Self::idx(vs@[q], v);
                    if q < k {
                        assert(mid0.spec_slot(v, vs@[q]).len() == 0);
                        assert(mid0.spec_slot(vs@[q], v).len() == 0);
                        if a != p1 as int {
                            assert(mid1.vec@[a] == mid0.vec@[a]);
                        }
                        if a != p2 as int {
                            assert(self.vec@[a] == mid1.vec@[a]);
                        }
                        if b != p1 as int {
                            assert(mid1.vec@[b] == mid0.vec@[b]);
                        }
                        if b != p2 as int {
                            assert(self.vec@[b] == mid1.vec@[b]);
                        }
                    } else {
                        if a != p2 as int {
                            assert(self.vec@[a] == mid1.vec@[a]);
                        }
                    }
                }
                assert forall|i: usize, j: usize| i != v && j != v && old_self.spec_has_vertex(i) && old_self.spec_has_vertex(j)
                    implies #[trigger] self.spec_slot(i, j) == old_self.spec_slot(i, j) by {
                    self.lemma_index_in_bounds(i, j);
                    self.lemma_same_slot(i, j, v, o);
                    self.lemma_same_slot(i, j, o, v);
                    assert(mid0.spec_slot(i, j) == old_self.spec_slot(i, j));
                }
            }
            k = k + 1;
        }
        proof {
            assert forall|id: usize| #[trigger] self.edge_ends@.dom().contains(id) implies
                self.edge_ends@[id].0 != v && self.edge_ends@[id].1 != v by {
                let (s, d) = self.edge_ends@[id];
                self.lemma_index_in_bounds(s, d);
                if s == v || d == v {
                    let o = if s == v { d } else { s };
                    assert(vs@.contains(o));
                    let q = choose|q: int| 0 <= q < vs@.len() && vs@[q] == o;
                    assert(self.spec_slot(v, vs@[q]).len() == 0);
                    assert(self.slot_has_id(Self::idx(s, d), id));
                }
            }
        }
        let ghost before_insert = *self;
        proof {
            self.lemma_counts();
            assert(self.spec_vertices().contains(v));
        }
        self.reusable_vertex_ids.insert(v);
        self.vertex_count = self.vertex_count - 1;
        proof {
            assert(self.spec_total() == old_self.spec_total());
            assert forall|id: usize| #[trigger] self.edge_ends@.dom().contains(id) implies {
                let (s, d) = self.edge_ends@[id];
                &&& self.spec_has_vertex(s)
                &&& self.spec_has_vertex(d)
                &&& self.slot_has_id(Self::idx(s, d), id)
            } by {
                assert(before_insert.edge_ends@.dom().contains(id));
                let (s, d) = self.edge_ends@[id];
                assert(s != v && d != v);
                let q = Self::idx(s, d);
                assert(before_insert.slot_has_id(q, id));
                let kk = choose|kk: int| 0 <= kk < before_insert.vec@[q]@.len() && #[trigger] before_insert.vec@[q]@[kk].spec_id() == id;
                assert(self.vec@[q]@[kk].spec_id() == id);
            }
            assert(self.spec_vertices() =~= old_self.spec_vertices().remove(v));
            assert forall|id: usize| #[trigger] self.edge_ends@.dom().contains(id) <==>
                (old_self.edge_ends@.dom().contains(id) && old_self.edge_ends@[id].0 != v && old_self.edge_ends@[id].1 != v) by {
            }
            assert forall|i: usize, j: usize| self.spec_has_vertex(i) && self.spec_has_vertex(j)
                implies #[trigger] self.spec_slot(i, j) == old_self.spec_slot(i, j) by {
                assert(before_insert.spec_slot(i, j) == old_self.spec_slot(i, j));
            }
        }
    }

    /// Removes the vertex with id `vertex_id` together with every edge incident to it;
    /// the ids of those edges become reusable.
    ///
    /// # Returns
    /// * `Ok`: If the vertex was removed.
    /// * `Err`: `VertexNotFound` if there is no vertex with id `vertex_id`, and nothing changes.
    pub fn remove_vertex(&mut self, vertex_id: usize) -> (r: Result<(), Error>)
        requires
            old(self).wf(),
        ensures
            final(self).wf(),
            r is Ok <==> old(self).spec_has_vertex(vertex_id),
            r is Ok ==> Self::removed_vertex(*old(self), *final(self), vertex_id),
            r matches Err(e) ==> *final(self) == *old(self) && e.spec_kind() == crate::storage::ErrorKind::VertexNotFound
                && e.spec_msg() == crate::storage::error::vnf_msg(vertex_id),
    {
        if !self.contains_vertex(vertex_id) {
            return Err(Error::new_vnf(vertex_id));
        }
        self.remove_vertex_unchecked(vertex_id);
        Ok(())
    }
}

impl<W, E: Edge<W>, Dir: EdgeDir> AdjMatrix<W, E, Dir> {
    /// The effect of adding `edge` from `src` to `dst` under id `id`, as stated by `add_edge`.
    pub open spec fn added_edge(old_m: Self, new_m: Self, src: usize, dst: usize, edge: E, id: usize) -> bool {
        &&& new_m.wf()
        &&& new_m.spec_vertices() == old_m.spec_vertices()
        &&& new_m.spec_vertex_count() == old_m.spec_vertex_count()
        &&& new_m.spec_total() == old_m.spec_total()
        &&& new_m.spec_reusable_vertex_ids() == old_m.spec_reusable_vertex_ids()
        &&& new_m.spec_storage_len() == old_m.spec_storage_len()
        &&& !old_m.spec_ends().dom().contains(id)
        &&& new_m.spec_ends() == old_m.spec_ends().insert(id, (src, dst))
        &&& new_m.spec_slot(src, dst) == old_m.spec_slot(src, dst).push(edge.spec_with_id(id))
        &&& forall|i: usize, j: usize| old_m.spec_has_vertex(i) && old_m.spec_has_vertex(j) && !Self::same_slot(i, j, src, dst)
                ==> #[trigger] new_m.spec_slot(i, j) == old_m.spec_slot(i, j)
        &&& !old_m.spec_reusable_edge_ids().is_empty() ==> {
                &&& old_m.spec_reusable_edge_ids().contains(id)
                &&& new_m.spec_reusable_edge_ids() == old_m.spec_reusable_edge_ids().remove(id)
                &&& new_m.spec_max_edge_id() == old_m.spec_max_edge_id()
            }
        &&& old_m.spec_reusable_edge_ids().is_empty() ==> {
                &&& id == old_m.spec_max_edge_id()
                &&& new_m.spec_reusable_edge_ids() == old_m.spec_reusable_edge_ids()
                &&& new_m.spec_max_edge_id() == old_m.spec_max_edge_id() + 1
            }
    }

    /// Adds `edge` from vertex `src_id` to vertex `dst_id`, giving it a fresh id (a reused one
    /// when an edge was removed before).
    ///
    /// Both vertices must be in the storage.
    ///
    /// # Returns
    /// Unique id of the newly added edge.
    pub fn add_edge_unchecked(&mut self, src_id: usize, dst_id: usize, edge: E) -> (edge_id: usize)
        requires
            old(self).wf(),
            old(self).spec_has_vertex(src_id),
            old(self).spec_has_vertex(dst_id),
            old(self).spec_can_add_edge(),
        ensures
            Self::added_edge(*old(self), *final(self), src_id, dst_id, edge, edge_id),
    {
        let ghost old_self = *self;
        let ghost old_edge = edge;
        let mut edge = edge;
        let p = self.slot_index(src_id, dst_id);
        let edge_id = match self.next_reusable_edge_id() {
            Some(id) => id,
            None => {
                self.max_edge_id = self.max_edge_id + 1;
                self.max_edge_id - 1
            },
        };
        edge.set_id(edge_id);
        proof { old_edge.lemma_with_id(edge_id); }
        let ghost before_push = *self;
        self.vec[p].push(edge);
        proof {
            self.edge_ends@ = self.edge_ends@.insert(edge_id, (src_id, dst_id));
            let n = before_push.vec@[p as int]@.len() as int;
            assert(self.vec@[p as int]@[n].spec_id() == edge_id);
            assert forall|id: usize| #[trigger] self.edge_ends@.dom().contains(id) implies {
                let (s, d) = self.edge_ends@[id];
                &&& self.spec_has_vertex(s)
                &&& self.spec_has_vertex(d)
                &&& self.slot_has_id(Self::idx(s, d), id)
            } by {
                if id != edge_id {
                    let (s, d) = self.edge_ends@[id];
                    let q = Self::idx(s, d);
                    old_self.lemma_index_in_bounds(s, d);
                    assert(old_self.slot_has_id(q, id));
                    let kk = choose|kk: int| 0 <= kk < old_self.vec@[q]@.len() && #[trigger] old_self.vec@[q]@[kk].spec_id() == id;
                    assert(self.vec@[q]@[kk].spec_id() == id);
                }
            }
            assert forall|q: int, k: int| 0 <= q < self.vec@.len() && 0 <= k < self.vec@[q]@.len() implies {
                let i = #[trigger] self.vec@[q]@[k].spec_id();
                &&& self.edge_ends@.dom().contains(i)
                &&& Self::idx(self.edge_ends@[i].0, self.edge_ends@[i].1) == q
            } by {
                if q != p || k != n {
                    assert(self.vec@[q]@[k] == old_self.vec@[q]@[k]);
                }
            }
            assert forall|q: int, k1: int, k2: int|
                0 <= q < self.vec@.len() && 0 <= k1 < self.vec@[q]@.len() && 0 <= k2 < self.vec@[q]@.len() && k1 != k2
                implies #[trigger] self.vec@[q]@[k1].spec_id() != #[trigger] self.vec@[q]@[k2].spec_id() by {
                if q != p || k1 != n {
                    assert(self.vec@[q]@[k1] == old_self.vec@[q]@[k1]);
                }
                if q != p || k2 != n {
                    assert(self.vec@[q]@[k2] == old_self.vec@[q]@[k2]);
                }
            }
            assert(self.spec_vertices() =~= old_self.spec_vertices());
            assert forall|i: usize, j: usize| old_self.spec_has_vertex(i) && old_self.spec_has_vertex(j) && !Self::same_slot(i, j, src_id, dst_id)
                implies #[trigger] self.spec_slot(i, j) == old_self.spec_slot(i, j) by {
                self.lemma_same_slot(i, j, src_id, dst_id);
                old_self.lemma_index_in_bounds(i, j);
            }
            assert(self.spec_slot(src_id, dst_id) =~= old_self.spec_slot(src_id, dst_id).push(old_edge.spec_with_id(edge_id)));
        }
        edge_id
    }

    /// Adds `edge` from vertex `src_id` to vertex `dst_id`.
    ///
    /// # Returns
    /// * `Ok`: Containing unique id of the newly added edge.
    /// * `Err`: `VertexNotFound` if vertex `src_id`, or else vertex `dst_id`, does not exist;
    ///   nothing changes then.
    pub fn add_edge(&mut self, src_id: usize, dst_id: usize, edge: E) -> (r: Result<usize, Error>)
        requires
            old(self).wf(),
            old(self).spec_can_add_edge(),
        ensures
            final(self).wf(),
            r is Ok <==> old(self).spec_has_vertex(src_id) && old(self).spec_has_vertex(dst_id),
            r matches Ok(id) ==> Self::added_edge(*old(self), *final(self), src_id, dst_id, edge, id),
            r matches Err(e) ==> *final(self) == *old(self) && e.spec_kind() == crate::storage::ErrorKind::VertexNotFound
                && e.spec_msg() == crate::storage::error::vnf_msg(
                    if !old(self).spec_has_vertex(src_id) { src_id } else { dst_id }),
    {
        if !self.contains_vertex(src_id) {
            return Err(Error::new_vnf(src_id));
        }
        if !self.contains_vertex(dst_id) {
            return Err(Error::new_vnf(dst_id));
        }
        Ok(self.add_edge_unchecked(src_id, dst_id, edge))
    }
}

impl<W, E: Edge<W>, Dir: EdgeDir> AdjMatrix<W, E, Dir> {
    /// The list of edges between `src` and `dst` holds an edge with id `edge_id`.
    pub open spec fn slot_contains_id(&self, src: usize, dst: usize, edge_id: usize) -> bool {
        exists|k: int| 0 <= k < self.spec_slot(src, dst).len() && #[trigger] self.spec_slot(src, dst)[k].spec_id() == edge_id
    }

    /// Everything but the list of edges between `src` and `dst` is unchanged.
    pub open spec fn same_except_slot(old_m: Self, new_m: Self, src: usize, dst: usize) -> bool {
        &&& new_m.wf()
        &&& new_m.spec_vertices() == old_m.spec_vertices()
        &&& new_m.spec_vertex_count() == old_m.spec_vertex_count()
        &&& new_m.spec_total() == old_m.spec_total()
        &&& new_m.spec_reusable_vertex_ids() == old_m.spec_reusable_vertex_ids()
        &&& new_m.spec_storage_len() == old_m.spec_storage_len()
        &&& new_m.spec_max_edge_id() == old_m.spec_max_edge_id()
        &&& forall|i: usize, j: usize| old_m.spec_has_vertex(i) && old_m.spec_has_vertex(j) && !Self::same_slot(i, j, src, dst)
                ==> #[trigger] new_m.spec_slot(i, j) == old_m.spec_slot(i, j)
    }

    /// The effect of replacing the edge with id `edge_id` between `src` and `dst` by `edge`,
    /// as stated by `update_edge`.
    pub open spec fn updated_edge(old_m: Self, new_m: Self, src: usize, dst: usize, edge_id: usize, edge: E) -> bool {
        &&& Self::same_except_slot(old_m, new_m, src, dst)
        &&& new_m.spec_ends() == old_m.spec_ends()
        &&& new_m.spec_reusable_edge_ids() == old_m.spec_reusable_edge_ids()
        &&& exists|k: int| 0 <= k < old_m.spec_slot(src, dst).len()
                && #[trigger] old_m.spec_slot(src, dst)[k].spec_id() == edge_id
                && new_m.spec_slot(src, dst) == old_m.spec_slot(src, dst).update(k, edge.spec_with_id(edge_id))
    }

    /// The effect of removing the edge with id `edge_id` between `src` and `dst`, handing out
    /// `removed`, as stated by `remove_edge`.
    pub open spec fn removed_edge(old_m: Self, new_m: Self, src: usize, dst: usize, edge_id: usize, removed: E) -> bool {
        &&& Self::same_except_slot(old_m, new_m, src, dst)
        &&& new_m.spec_ends() == old_m.spec_ends().remove(edge_id)
        &&& old_m.spec_ends().dom().contains(edge_id)
        &&& new_m.spec_reusable_edge_ids() == old_m.spec_reusable_edge_ids().insert(edge_id)
        &&& removed.spec_id() == edge_id
        &&& exists|k: int| 0 <= k < old_m.spec_slot(src, dst).len()
                && #[trigger] old_m.spec_slot(src, dst)[k] == removed
                && new_m.spec_slot(src, dst) == old_m.spec_slot(src, dst).update(k, old_m.spec_slot(src, dst).last()).drop_last()
    }

    /// Replaces the edge with id `edge_id` from `src_id` to `dst_id` by `edge`, which takes
    /// over the id.
    ///
    /// Both vertices must exist and the edge must be there.
    pub fn update_edge_unchecked(&mut self, src_id: usize, dst_id: usize, edge_id: usize, edge: E)
        requires
            old(self).wf(),
            old(self).spec_has_vertex(src_id),
            old(self).spec_has_vertex(dst_id),
            old(self).slot_contains_id(src_id, dst_id, edge_id),
        ensures
            Self::updated_edge(*old(self), *final(self), src_id, dst_id, edge_id, edge),
    {
        let ghost old_self = *self;
        let ghost old_edge = edge;
        let mut edge = edge;
        let p = self.slot_index(src_id, dst_id);
        let k = match self.position_in_slot(p, edge_id) {
            Some(k) => k,
            None => vstd::pervasive::unreached(),
        };
        edge.set_id(edge_id);
        proof { old_edge.lemma_with_id(edge_id); }
        self.vec[p].set(k, edge);
        proof {
            assert forall|id: usize| #[trigger] self.edge_ends@.dom().contains(id) implies {
                let (s, d) = self.edge_ends@[id];
                &&& self.spec_has_vertex(s)
                &&& self.spec_has_vertex(d)
                &&& self.slot_has_id(Self::idx(s, d), id)
            } by {
                let (s, d) = self.edge_ends@[id];
                let q = Self::idx(s, d);
                old_self.lemma_index_in_bounds(s, d);
                assert(old_self.slot_has_id(q, id));
                let kk = choose|kk: int| 0 <= kk < old_self.vec@[q]@.len() && #[trigger] old_self.vec@[q]@[kk].spec_id() == id;
                assert(self.vec@[q]@[kk].spec_id() == id);
            }
            assert forall|q: int, j: int| 0 <= q < self.vec@.len() && 0 <= j < self.vec@[q]@.len() implies {
                let i = #[trigger] self.vec@[q]@[j].spec_id();
                &&& self.edge_ends@.dom().contains(i)
                &&& Self::idx(self.edge_ends@[i].0, self.edge_ends@[i].1) == q
            } by {
                assert(self.vec@[q]@[j].spec_id() == old_self.vec@[q]@[j].spec_id());
            }
            assert forall|q: int, k1: int, k2: int|
                0 <= q < self.vec@.len() && 0 <= k1 < self.vec@[q]@.len() && 0 <= k2 < self.vec@[q]@.len() && k1 != k2
                implies #[trigger] self.vec@[q]@[k1].spec_id() != #[trigger] self.vec@[q]@[k2].spec_id() by {
                assert(self.vec@[q]@[k1].spec_id() == old_self.vec@[q]@[k1].spec_id());
                assert(self.vec@[q]@[k2].spec_id() == old_self.vec@[q]@[k2].spec_id());
            }
            assert(self.spec_vertices() =~= old_self.spec_vertices());
            assert forall|i: usize, j: usize| old_self.spec_has_vertex(i) && old_self.spec_has_vertex(j) && !Self::same_slot(i, j, src_id, dst_id)
                implies #[trigger] self.spec_slot(i, j) == old_self.spec_slot(i, j) by {
                self.lemma_same_slot(i, j, src_id, dst_id);
                old_self.lemma_index_in_bounds(i, j);
            }
            assert(self.spec_slot(src_id, dst_id) =~= old_self.spec_slot(src_id, dst_id).update(k as int, old_edge.spec_with_id(edge_id)));
            assert(old_self.spec_slot(src_id, dst_id)[k as int].spec_id() == edge_id);
        }
    }

    /// Replaces the edge with id `edge_id` from `src_id` to `dst_id` by `edge`, which takes
    /// over the id.
    ///
    /// # Returns
    /// * `Ok`: If the edge was updated.
    /// * `Err`: `VertexNotFound` if vertex `src_id`, or else vertex `dst_id`, does not exist.
    /// * `Err`: `InvalidEdgeId` if there is no edge with id `edge_id` from source to destination.
    pub fn update_edge(&mut self, src_id: usize, dst_id: usize, edge_id: usize, edge: E) -> (r: Result<(), Error>)
        requires
            old(self).wf(),
        ensures
            final(self).wf(),
            r is Ok <==> old(self).spec_has_vertex(src_id) && old(self).spec_has_vertex(dst_id)
                && old(self).slot_contains_id(src_id, dst_id, edge_id),
            r is Ok ==> Self::updated_edge(*old(self), *final(self), src_id, dst_id, edge_id, edge),
            r matches Err(e) ==> *final(self) == *old(self) && ({
                if !old(self).spec_has_vertex(src_id) || !old(self).spec_has_vertex(dst_id) {
                    &&& e.spec_kind() == crate::storage::ErrorKind::VertexNotFound
                    &&& e.spec_msg() == crate::storage::error::vnf_msg(
                        if !old(self).spec_has_vertex(src_id) { src_id } else { dst_id })
                } else {
                    &&& e.spec_kind() == crate::storage::ErrorKind::InvalidEdgeId
                    &&& e.spec_msg() == crate::storage::error::iei_msg(src_id, dst_id, edge_id)
                }
            }),
    {
        if !self.contains_vertex(src_id) {
            return Err(Error::new_vnf(src_id));
        }
        if !self.contains_vertex(dst_id) {
            return Err(Error::new_vnf(dst_id));
        }
        let p = self.slot_index(src_id, dst_id);
        match self.position_in_slot(p, edge_id) {
            Some(k) => {
                proof {
                    assert(self.spec_slot(src_id, dst_id)[k as int].spec_id() == edge_id);
                }
                self.update_edge_unchecked(src_id, dst_id, edge_id, edge);
                Ok(())
            },
            None => Err(Error::new_iei(src_id, dst_id, edge_id)),
        }
    }

    /// Removes the edge with id `edge_id` from `src_id` to `dst_id`; its id becomes reusable.
    ///
    /// Both vertices must exist and the edge must be there.
    ///
    /// # Returns
    /// The removed edge.
    pub fn remove_edge_unchecked(&mut self, src_id: usize, dst_id: usize, edge_id: usize) -> (removed: E)
        requires
            old(self).wf(),
            old(self).spec_has_vertex(src_id),
            old(self).spec_has_vertex(dst_id),
            old(self).slot_contains_id(src_id, dst_id, edge_id),
        ensures
            Self::removed_edge(*old(self), *final(self), src_id, dst_id, edge_id, removed),
    {
        let ghost old_self = *self;
        let p = self.slot_index(src_id, dst_id);
        let k = match self.position_in_slot(p, edge_id) {
            Some(k) => k,
            None => vstd::pervasive::unreached(),
        };
        self.reusable_edge_ids.insert(edge_id);
        let removed = self.vec[p].swap_remove(k);
        proof {
            self.edge_ends@ = self.edge_ends@.remove(edge_id);
            let old_slot = old_self.vec@[p as int]@;
            let n = old_slot.len() - 1;
            assert(self.vec@[p as int]@ =~= old_slot.update(k as int, old_slot.last()).drop_last());
            assert(old_self.edge_ends@.dom().contains(edge_id));
            assert forall|id: usize| #[trigger] self.edge_ends@.dom().contains(id) implies {
                let (s, d) = self.edge_ends@[id];
                &&& self.spec_has_vertex(s)
                &&& self.spec_has_vertex(d)
                &&& self.slot_has_id(Self::idx(s, d), id)
            } by {
                let (s, d) = self.edge_ends@[id];
                let q = Self::idx(s, d);
                old_self.lemma_index_in_bounds(s, d);
                assert(old_self.slot_has_id(q, id));
                let kk = choose|kk: int| 0 <= kk < old_self.vec@[q]@.len() && #[trigger] old_self.vec@[q]@[kk].spec_id() == id;
                if q == p {
                    assert(kk != k);
                    if kk == n {
                        assert(self.vec@[q]@[k as int].spec_id() == id);
                    } else {
                        assert(self.vec@[q]@[kk].spec_id() == id);
                    }
                } else {
                    assert(self.vec@[q]@[kk].spec_id() == id);
                }
            }
            assert forall|q: int, j: int| 0 <= q < self.vec@.len() && 0 <= j < self.vec@[q]@.len() implies {
                let i = #[trigger] self.vec@[q]@[j].spec_id();
                &&& self.edge_ends@.dom().contains(i)
                &&& Self::idx(self.edge_ends@[i].0, self.edge_ends@[i].1) == q
            } by {
                if q == p {
                    let src_pos = if j == k { n } else { j };
                    assert(self.vec@[q]@[j] == old_slot[src_pos]);
                    assert(src_pos != k);
                } else {
                    assert(self.vec@[q]@[j] == old_self.vec@[q]@[j]);
                }
            }
            assert forall|q: int, k1: int, k2: int|
                0 <= q < self.vec@.len() && 0 <= k1 < self.vec@[q]@.len() && 0 <= k2 < self.vec@[q]@.len() && k1 != k2
                implies #[trigger] self.vec@[q]@[k1].spec_id() != #[trigger] self.vec@[q]@[k2].spec_id() by {
                if q == p {
                    let a = if k1 == k { n } else { k1 };
                    let b = if k2 == k { n } else { k2 };
                    assert(self.vec@[q]@[k1] == old_slot[a]);
                    assert(self.vec@[q]@[k2] == old_slot[b]);
                } else {
                    assert(self.vec@[q] == old_self.vec@[q]);
                }
            }
            assert(self.spec_vertices() =~= old_self.spec_vertices());
            assert forall|i: usize, j: usize| old_self.spec_has_vertex(i) && old_self.spec_has_vertex(j) && !Self::same_slot(i, j, src_id, dst_id)
                implies #[trigger] self.spec_slot(i, j) == old_self.spec_slot(i, j) by {
                self.lemma_same_slot(i, j, src_id, dst_id);
                old_self.lemma_index_in_bounds(i, j);
            }
            assert(old_self.spec_slot(src_id, dst_id)[k as int] == removed);
        }
        removed
    }

    /// Removes the edge with id `edge_id` from `src_id` to `dst_id`; its id becomes reusable.
    ///
    /// # Returns
    /// * `Ok`: Containing the removed edge.
    /// * `Err`: `VertexNotFound` if vertex `src_id`, or else vertex `dst_id`, does not exist.
    /// * `Err`: `InvalidEdgeId` if there is no edge with id `edge_id` from source to destination.
    pub fn remove_edge(&mut self, src_id: usize, dst_id: usize, edge_id: usize) -> (r: Result<E, Error>)
        requires
            old(self).wf(),
        ensures
            final(self).wf(),
            r is Ok <==> old(self).spec_has_vertex(src_id) && old(self).spec_has_vertex(dst_id)
                && old(self).slot_contains_id(src_id, dst_id, edge_id),
            r matches Ok(e) ==> Self::removed_edge(*old(self), *final(self), src_id, dst_id, edge_id, e),
            r matches Err(e) ==> *final(self) == *old(self) && ({
                if !old(self).spec_has_vertex(src_id) || !old(self).spec_has_vertex(dst_id) {
                    &&& e.spec_kind() == crate::storage::ErrorKind::VertexNotFound
                    &&& e.spec_msg() == crate::storage::error::vnf_msg(
                        if !old(self).spec_has_vertex(src_id) { src_id } else { dst_id })
                } else {
                    &&& e.spec_kind() == crate::storage::ErrorKind::InvalidEdgeId
                    &&& e.spec_msg() == crate::storage::error::iei_msg(src_id, dst_id, edge_id)
                }
            }),
    {
        if !self.contains_vertex(src_id) {
            return Err(Error::new_vnf(src_id));
        }
        if !self.contains_vertex(dst_id) {
            return Err(Error::new_vnf(dst_id));
        }
        let p = self.slot_index(src_id, dst_id);
        match self.position_in_slot(p, edge_id) {
            Some(k) => {
                proof {
                    assert(self.spec_slot(src_id, dst_id)[k as int].spec_id() == edge_id);
                }
                Ok(self.remove_edge_unchecked(src_id, dst_id, edge_id))
            },
            None => Err(Error::new_iei(src_id, dst_id, edge_id)),
        }
    }
}

/// Forgets the reference in each entry of a list of `(vertex, &edge)` pairs.
pub open spec fn deref_pairs<E>(s: Seq<(usize, &E)>) -> Seq<(usize, E)> {
    s.map_values(|t: (usize, &E)| (t.0, *t.1))
}

/// Forgets the reference in each entry of a list of `(source, destination, &edge)` triples.
pub open spec fn deref_triples<E>(s: Seq<(usize, usize, &E)>) -> Seq<(usize, usize, E)> {
    s.map_values(|t: (usize, usize, &E)| (t.0, t.1, *t.2))
}

/// Forgets the reference in each entry of a list of edges.
pub open spec fn deref_edges<E>(s: Seq<&E>) -> Seq<E> {
    s.map_values(|e: &E| *e)
}

impl<W, E: Edge<W>, Dir: EdgeDir> AdjMatrix<W, E, Dir> {
    /// Outgoing edges of `src` towards each vertex of `dsts` in turn, as `(dst, edge)`.
    pub open spec fn out_edges(&self, src: usize, dsts: Seq<usize>) -> Seq<(usize, E)>
        decreases dsts.len(),
    {
        if dsts.len() == 0 {
            Seq::empty()
        } else {
            let d = dsts.last();
            self.out_edges(src, dsts.drop_last()) + self.spec_slot(src, d).map_values(|e: E| (d, e))
        }
    }

    /// Edges from `src` to each vertex of `dsts` in turn, as `(src, dst, edge)`.
    pub open spec fn row_edges(&self, src: usize, dsts: Seq<usize>) -> Seq<(usize, usize, E)>
        decreases dsts.len(),
    {
        if dsts.len() == 0 {
            Seq::empty()
        } else {
            let d = dsts.last();
            self.row_edges(src, dsts.drop_last()) + self.spec_slot(src, d).map_values(|e: E| (src, d, e))
        }
    }

    /// Edges from each vertex of `srcs` to each vertex of `dsts`, row by row.
    pub open spec fn all_edges(&self, srcs: Seq<usize>, dsts: Seq<usize>) -> Seq<(usize, usize, E)>
        decreases srcs.len(),
    {
        if srcs.len() == 0 {
            Seq::empty()
        } else {
            self.all_edges(srcs.drop_last(), dsts) + self.row_edges(srcs.last(), dsts)
        }
    }

    // # Returns
    // The list of edges between `src_id` and `dst_id`; the ids only have to be in range.
    fn get_unsafe(&self, src_id: usize, dst_id: usize) -> (v: &Vec<E>)
        requires
            self.wf(),
            src_id < self.spec_total(),
            dst_id < self.spec_total(),
        ensures
            v@ == self.spec_slot(src_id, dst_id),
    {
        let p = self.slot_index(src_id, dst_id);
        &self.vec[p]
    }

    // # Returns
    // * `Ok`: Containing the list of edges from source to destination.
    // * `Err`: If either source vertex or destination vertex does not exist in the storage.
    fn get(&self, src_id: usize, dst_id: usize) -> (r: Result<&Vec<E>, Error>)
        requires
            self.wf(),
        ensures
            r is Ok <==> self.spec_has_vertex(src_id) && self.spec_has_vertex(dst_id),
            r matches Ok(v) ==> v@ == self.spec_slot(src_id, dst_id),
            r matches Err(e) ==> e.spec_kind() == crate::storage::ErrorKind::VertexNotFound
                && e.spec_msg() == crate::storage::error::vnf_msg(
                    if !self.spec_has_vertex(src_id) { src_id } else { dst_id }),
    {
        if !self.contains_vertex(src_id) {
            Err(Error::new_vnf(src_id))
        } else if !self.contains_vertex(dst_id) {
            Err(Error::new_vnf(dst_id))
        } else {
            Ok(self.get_unsafe(src_id, dst_id))
        }
    }

    /// # Returns
    /// Edges from vertex `src_id` to vertex `dst_id`.
    ///
    /// Both vertices must exist.
    pub fn index(&self, src_id: usize, dst_id: usize) -> (v: &Vec<E>)
        requires
            self.wf(),
            self.spec_has_vertex(src_id),
            self.spec_has_vertex(dst_id),
        ensures
            v@ == self.spec_slot(src_id, dst_id),
    {
        self.get_unsafe(src_id, dst_id)
    }

    fn refs_of<'a>(v: &'a Vec<E>) -> (r: Vec<&'a E>)
        ensures
            deref_edges(r@) == v@,
    {
        let mut r: Vec<&'a E> = Vec::new();
        let mut k: usize = 0;
        while k < v.len()
            invariant
                k <= v@.len(),
                r@.len() == k,
                deref_edges(r@) == v@.take(k as int),
            decreases v@.len() - k,
        {
            let ghost old_r = r@;
            let item = &v[k];
            r.push(item);
            proof {
                let n = k as int;
                assert(*item == v@[n]);
                assert(r@[n] == item);
                assert forall|i: int| 0 <= i < n + 1 implies #[trigger] deref_edges(r@)[i] == v@.take(n + 1)[i] by {
                    if i < n {
                        assert(r@[i] == old_r[i]);
                        assert(deref_edges(old_r)[i] == v@.take(n)[i]);
                    }
                }
            }
            k = k + 1;
            assert(deref_edges(r@) =~= v@.take(k as int));
        }
        assert(v@.take(v@.len() as int) =~= v@);
        r
    }

    /// # Returns
    /// Edges from vertex `src_id` to vertex `dst_id`.
    ///
    /// Both vertices must exist.
    pub fn edges_between_unchecked(&self, src_id: usize, dst_id: usize) -> (r: Vec<&E>)
        requires
            self.wf(),
            self.spec_has_vertex(src_id),
            self.spec_has_vertex(dst_id),
        ensures
            deref_edges(r@) == self.spec_slot(src_id, dst_id),
    {
        Self::refs_of(self.index(src_id, dst_id))
    }

    /// # Returns
    /// * `Ok`: Edges from vertex `src_id` to vertex `dst_id`.
    /// * `Err`: `VertexNotFound` if vertex `src_id`, or else vertex `dst_id`, does not exist.
    pub fn edges_between(&self, src_id: usize, dst_id: usize) -> (r: Result<Vec<&E>, Error>)
        requires
            self.wf(),
        ensures
            r is Ok <==> self.spec_has_vertex(src_id) && self.spec_has_vertex(dst_id),
            r matches Ok(v) ==> deref_edges(v@) == self.spec_slot(src_id, dst_id),
            r matches Err(e) ==> e.spec_kind() == crate::storage::ErrorKind::VertexNotFound
                && e.spec_msg() == crate::storage::error::vnf_msg(
                    if !self.spec_has_vertex(src_id) { src_id } else { dst_id }),
    {
        match self.get(src_id, dst_id) {
            Ok(v) => Ok(Self::refs_of(v)),
            Err(e) => Err(e),
        }
    }

    /// # Returns
    /// * `Ok`: Containing the edge with id `edge_id` from `src_id` to `dst_id`.
    /// * `Err`: `VertexNotFound` if vertex `src_id`, or else vertex `dst_id`, does not exist.
    /// * `Err`: `InvalidEdgeId` if there is no edge with id `edge_id` from source to destination.
    pub fn edge_between(&self, src_id: usize, dst_id: usize, edge_id: usize) -> (r: Result<&E, Error>)
        requires
            self.wf(),
        ensures
            r is Ok <==> self.spec_has_vertex(src_id) && self.spec_has_vertex(dst_id)
                && self.slot_contains_id(src_id, dst_id, edge_id),
            r matches Ok(e) ==> e.spec_id() == edge_id && self.spec_slot(src_id, dst_id).contains(*e),
            r matches Err(e) ==> {
                if !self.spec_has_vertex(src_id) || !self.spec_has_vertex(dst_id) {
                    &&& e.spec_kind() == crate::storage::ErrorKind::VertexNotFound
                    &&& e.spec_msg() == crate::storage::error::vnf_msg(
                        if !self.spec_has_vertex(src_id) { src_id } else { dst_id })
                } else {
                    &&& e.spec_kind() == crate::storage::ErrorKind::InvalidEdgeId
                    &&& e.spec_msg() == crate::storage::error::iei_msg(src_id, dst_id, edge_id)
                }
            },
    {
        match self.get(src_id, dst_id) {
            Err(e) => Err(e),
            Ok(v) => {
                let p = self.slot_index(src_id, dst_id);
                match self.position_in_slot(p, edge_id) {
                    Some(k) => {
                        proof { assert(self.spec_slot(src_id, dst_id)[k as int].spec_id() == edge_id); }
                        Ok(&v[k])
                    },
                    None => Err(Error::new_iei(src_id, dst_id, edge_id)),
                }
            },
        }
    }

    /// # Returns
    /// The edge with id `edge_id` from `src_id` to `dst_id`.
    ///
    /// Both vertices must exist and the edge must be there.
    pub fn edge_between_unchecked(&self, src_id: usize, dst_id: usize, edge_id: usize) -> (e: &E)
        requires
            self.wf(),
            self.spec_has_vertex(src_id),
            self.spec_has_vertex(dst_id),
            self.slot_contains_id(src_id, dst_id, edge_id),
        ensures
            e.spec_id() == edge_id && self.spec_slot(src_id, dst_id).contains(*e),
    {
        let v = self.index(src_id, dst_id);
        let p = self.slot_index(src_id, dst_id);
        match self.position_in_slot(p, edge_id) {
            Some(k) => &v[k],
            None => vstd::pervasive::unreached(),
        }
    }

    /// # Returns
    /// * `Ok`: `true` if there is any edge from `src_id` to `dst_id`, `false` otherwise.
    /// * `Err`: `VertexNotFound` if vertex `src_id`, or else vertex `dst_id`, does not exist.
    pub fn has_any_edge(&self, src_id: usize, dst_id: usize) -> (r: Result<bool, Error>)
        requires
            self.wf(),
        ensures
            r is Ok <==> self.spec_has_vertex(src_id) && self.spec_has_vertex(dst_id),
            r matches Ok(b) ==> b == (self.spec_slot(src_id, dst_id).len() > 0),
            r matches Err(e) ==> e.spec_kind() == crate::storage::ErrorKind::VertexNotFound
                && e.spec_msg() == crate::storage::error::vnf_msg(
                    if !self.spec_has_vertex(src_id) { src_id } else { dst_id }),
    {
        match self.get(src_id, dst_id) {
            Ok(v) => Ok(!v.is_empty()),
            Err(e) => Err(e),
        }
    }

    /// # Returns
    /// `true` if there is any edge from `src_id` to `dst_id`, `false` otherwise.
    ///
    /// Both vertices must exist.
    pub fn has_any_edge_unchecked(&self, src_id: usize, dst_id: usize) -> (b: bool)
        requires
            self.wf(),
            self.spec_has_vertex(src_id),
            self.spec_has_vertex(dst_id),
        ensures
            b == (self.spec_slot(src_id, dst_id).len() > 0),
    {
        !self.index(src_id, dst_id).is_empty()
    }
}

/// The edges of `t` that leave `src`, as `(dst, edge)`, in order.
pub open spec fn edges_leaving<E>(t: Seq<(usize, usize, E)>, src: usize) -> Seq<(usize, E)>
    decreases t.len(),
{
    if t.len() == 0 {
        Seq::empty()
    } else {
        let prev = edges_leaving(t.drop_last(), src);
        if t.last().0 == src {
            prev.push((t.last().1, t.last().2))
        } else {
            prev
        }
    }
}

/// `edges_leaving` of a concatenation concatenates.
pub proof fn lemma_edges_leaving_add<E>(a: Seq<(usize, usize, E)>, b: Seq<(usize, usize, E)>, src: usize)
    ensures
        edges_leaving(a + b, src) == edges_leaving(a, src) + edges_leaving(b, src),
    decreases b.len(),
{
    if b.len() == 0 {
        assert(a + b =~= a);
        assert(edges_leaving(a, src) + edges_leaving(b, src) =~= edges_leaving(a, src));
    } else {
        lemma_edges_leaving_add(a, b.drop_last(), src);
        assert((a + b).drop_last() =~= a + b.drop_last());
        assert((a + b).last() == b.last());
        if b.last().0 == src {
            assert(edges_leaving(a + b, src) =~= edges_leaving(a, src) + edges_leaving(b, src));
        } else {
            assert(edges_leaving(a + b, src) =~= edges_leaving(a, src) + edges_leaving(b, src));
        }
    }
}

/// The edges of one slot, all from `x` to `d`, leave `src` exactly when `x == src`.
proof fn lemma_edges_leaving_slot<E>(es: Seq<E>, x: usize, d: usize, src: usize)
    ensures
        edges_leaving(es.map_values(|e: E| (x, d, e)), src)
            == (if x == src { es.map_values(|e: E| (d, e)) } else { Seq::empty() }),
    decreases es.len(),
{
    let m = es.map_values(|e: E| (x, d, e));
    if es.len() == 0 {
        assert(m.len() == 0);
        assert(es.map_values(|e: E| (d, e)) =~= Seq::<(usize, E)>::empty());
    } else {
        lemma_edges_leaving_slot(es.drop_last(), x, d, src);
        assert(m.drop_last() =~= es.drop_last().map_values(|e: E| (x, d, e)));
        assert(m.last() == (x, d, es.last()));
        if x == src {
            assert(es.map_values(|e: E| (d, e)) =~= es.drop_last().map_values(|e: E| (d, e)).push((d, es.last())));
        }
    }
}

/// Each triple kept by `upper_triples` is one of `s`.
pub proof fn lemma_upper_from<E>(s: Seq<(usize, usize, E)>)
    ensures
        forall|k: int| 0 <= k < upper_triples(s).len() ==> s.contains(#[trigger] upper_triples(s)[k]),
    decreases s.len(),
{
    if s.len() > 0 {
        let p = s.drop_last();
        lemma_upper_from(p);
        assert forall|k: int| 0 <= k < upper_triples(s).len() implies s.contains(#[trigger] upper_triples(s)[k]) by {
            if k < upper_triples(p).len() {
                assert(upper_triples(s)[k] == upper_triples(p)[k]);
                let i = choose|i: int| 0 <= i < p.len() && p[i] == upper_triples(p)[k];
                assert(s[i] == p[i]);
            } else {
                assert(s[s.len() - 1] == upper_triples(s)[k]);
            }
        }
    }
}

/// The triples of `s` whose source is at most their destination.
pub open spec fn upper_triples<E>(s: Seq<(usize, usize, E)>) -> Seq<(usize, usize, E)>
    decreases s.len(),
{
    if s.len() == 0 {
        Seq::empty()
    } else {
        let prev = upper_triples(s.drop_last());
        if s.last().0 <= s.last().1 {
            prev.push(s.last())
        } else {
            prev
        }
    }
}

impl<W, E: Edge<W>, Dir: EdgeDir> AdjMatrix<W, E, Dir> {
    /// The vertices of `dsts` that `src` has at least one edge to, in the order of `dsts`.
    pub open spec fn neighbors_in(&self, src: usize, dsts: Seq<usize>) -> Seq<usize>
        decreases dsts.len(),
    {
        if dsts.len() == 0 {
            Seq::empty()
        } else {
            let prev = self.neighbors_in(src, dsts.drop_last());
            if self.spec_slot(src, dsts.last()).len() > 0 {
                prev.push(dsts.last())
            } else {
                prev
            }
        }
    }

    /// All edges, each undirected edge once, as `edges()` lists them.
    pub open spec fn spec_edges(&self) -> Seq<(usize, usize, E)> {
        let vs = self.spec_vertex_seq();
        if Dir::spec_is_directed() {
            self.all_edges(vs, vs)
        } else {
            upper_triples(self.all_edges(vs, vs))
        }
    }

    // Appends the edges from `src_id` to `dst_id` to `out`, as `(dst_id, edge)`.
    fn append_out<'a>(&'a self, out: &mut Vec<(usize, &'a E)>, src_id: usize, dst_id: usize)
        requires
            self.wf(),
            src_id < self.spec_total(),
            dst_id < self.spec_total(),
        ensures
            deref_pairs(final(out)@) == deref_pairs(old(out)@) + self.spec_slot(src_id, dst_id).map_values(|e: E| (dst_id, e)),
    {
        let v = self.get_unsafe(src_id, dst_id);
        let ghost start = out@;
        let mut k: usize = 0;
        while k < v.len()
            invariant
                k <= v@.len(),
                v@ == self.spec_slot(src_id, dst_id),
                out@.len() == start.len() + k,
                deref_pairs(out@) == deref_pairs(start) + v@.take(k as int).map_values(|e: E| (dst_id, e)),
            decreases v@.len() - k,
        {
            let ghost before = out@;
            let item = &v[k];
            out.push((dst_id, item));
            proof {
                let n = k as int;
                let target = deref_pairs(start) + v@.take(n + 1).map_values(|e: E| (dst_id, e));
                assert(deref_pairs(before) == deref_pairs(start) + v@.take(n).map_values(|e: E| (dst_id, e)));
                assert forall|i: int| 0 <= i < out@.len() implies #[trigger] deref_pairs(out@)[i] == target[i] by {
                    if i < before.len() {
                        assert(out@[i] == before[i]);
                        assert(deref_pairs(before)[i] == deref_pairs(out@)[i]);
                    }
                }
                assert(deref_pairs(out@) =~= target);
            }
            k = k + 1;
        }
        assert(v@.take(v@.len() as int) =~= v@);
    }

    // Appends the edges from `src_id` to `dst_id` to `out`, as `(src_id, dst_id, edge)`.
    fn append_row<'a>(&'a self, out: &mut Vec<(usize, usize, &'a E)>, src_id: usize, dst_id: usize)
        requires
            self.wf(),
            src_id < self.spec_total(),
            dst_id < self.spec_total(),
        ensures
            deref_triples(final(out)@) == deref_triples(old(out)@) + self.spec_slot(src_id, dst_id).map_values(|e: E| (src_id, dst_id, e)),
    {
        let v = self.get_unsafe(src_id, dst_id);
        let ghost start = out@;
        let mut k: usize = 0;
        while k < v.len()
            invariant
                k <= v@.len(),
                v@ == self.spec_slot(src_id, dst_id),
                out@.len() == start.len() + k,
                deref_triples(out@) == deref_triples(start) + v@.take(k as int).map_values(|e: E| (src_id, dst_id, e)),
            decreases v@.len() - k,
        {
            let ghost before = out@;
            let item = &v[k];
            out.push((src_id, dst_id, item));
            proof {
                let n = k as int;
                let target = deref_triples(start) + v@.take(n + 1).map_values(|e: E| (src_id, dst_id, e));
                assert(deref_triples(before) == deref_triples(start) + v@.take(n).map_values(|e: E| (src_id, dst_id, e)));
                assert forall|i: int| 0 <= i < out@.len() implies #[trigger] deref_triples(out@)[i] == target[i] by {
                    if i < before.len() {
                        assert(out@[i] == before[i]);
                        assert(deref_triples(before)[i] == deref_triples(out@)[i]);
                    }
                }
                assert(deref_triples(out@) =~= target);
            }
            k = k + 1;
        }
        assert(v@.take(v@.len() as int) =~= v@);
    }

    proof fn lemma_vertex_seq_bounds(&self)
        requires
            self.wf(),
        ensures
            forall|i: int| 0 <= i < self.spec_vertex_seq().len() ==> #[trigger] self.spec_has_vertex(self.spec_vertex_seq()[i]),
    {
        self.lemma_present_upto(self.spec_total());
    }

    proof fn lemma_present_upto(&self, n: nat)
        requires
            self.wf(),
            n <= self.spec_total(),
        ensures
            forall|i: int| 0 <= i < self.present_upto(n).len() ==> #[trigger] self.spec_has_vertex(self.present_upto(n)[i]),
        decreases n,
    {
        if n > 0 {
            self.lemma_present_upto((n - 1) as nat);
            let prev = self.present_upto((n - 1) as nat);
            assert forall|i: int| 0 <= i < self.present_upto(n).len() implies #[trigger] self.spec_has_vertex(self.present_upto(n)[i]) by {
                if i < prev.len() {
                    assert(self.present_upto(n)[i] == prev[i]);
                }
            }
        }
    }

    /// # Returns
    /// All edges from vertex `src_id` as `(dst_id, edge)`, destination by destination in
    /// increasing order.
    ///
    /// The vertex must exist.
    pub fn edges_from_unchecked(&self, src_id: usize) -> (r: Vec<(usize, &E)>)
        requires
            self.wf(),
            self.spec_has_vertex(src_id),
        ensures
            deref_pairs(r@) == self.out_edges(src_id, self.spec_vertex_seq()),
    {
        let vs = self.vertices();
        proof { self.lemma_vertex_seq_bounds(); }
        let mut out: Vec<(usize, &E)> = Vec::new();
        let mut k: usize = 0;
        while k < vs.len()
            invariant
                self.wf(),
                self.spec_has_vertex(src_id),
                vs@ == self.spec_vertex_seq(),
                forall|i: int| 0 <= i < vs@.len() ==> #[trigger] self.spec_has_vertex(vs@[i]),
                k <= vs@.len(),
                deref_pairs(out@) == self.out_edges(src_id, vs@.take(k as int)),
            decreases vs@.len() - k,
        {
            assert(self.spec_has_vertex(vs@[k as int]));
            self.append_out(&mut out, src_id, vs[k]);
            proof {
                let t = vs@.take(k as int + 1);
                assert(t.drop_last() =~= vs@.take(k as int));
                assert(t.last() == vs@[k as int]);
            }
            k = k + 1;
        }
        assert(vs@.take(vs@.len() as int) =~= vs@);
        out
    }

    /// # Returns
    /// * `Ok`: All edges from vertex `src_id` as `(dst_id, edge)`.
    /// * `Err`: `VertexNotFound` if vertex `src_id` does not exist.
    pub fn edges_from(&self, src_id: usize) -> (r: Result<Vec<(usize, &E)>, Error>)
        requires
            self.wf(),
        ensures
            r is Ok <==> self.spec_has_vertex(src_id),
            r matches Ok(v) ==> deref_pairs(v@) == self.out_edges(src_id, self.spec_vertex_seq()),
            r matches Err(e) ==> e.spec_kind() == crate::storage::ErrorKind::VertexNotFound
                && e.spec_msg() == crate::storage::error::vnf_msg(src_id),
    {
        if !self.contains_vertex(src_id) {
            return Err(Error::new_vnf(src_id));
        }
        Ok(self.edges_from_unchecked(src_id))
    }

    /// # Returns
    /// Ids of the vertices that `src_id` has at least one edge to, in increasing order.
    ///
    /// The vertex must exist.
    pub fn neighbors_unchecked(&self, src_id: usize) -> (r: Vec<usize>)
        requires
            self.wf(),
            self.spec_has_vertex(src_id),
        ensures
            r@ == self.neighbors_in(src_id, self.spec_vertex_seq()),
    {
        let vs = self.vertices();
        proof { self.lemma_vertex_seq_bounds(); }
        let mut out: Vec<usize> = Vec::new();
        let mut k: usize = 0;
        while k < vs.len()
            invariant
                self.wf(),
                self.spec_has_vertex(src_id),
                vs@ == self.spec_vertex_seq(),
                forall|i: int| 0 <= i < vs@.len() ==> #[trigger] self.spec_has_vertex(vs@[i]),
                k <= vs@.len(),
                out@ == self.neighbors_in(src_id, vs@.take(k as int)),
            decreases vs@.len() - k,
        {
            let dst_id = vs[k];
            assert(self.spec_has_vertex(vs@[k as int]));
            if !self.get_unsafe(src_id, dst_id).is_empty() {
                out.push(dst_id);
            }
            proof {
                let t = vs@.take(k as int + 1);
                assert(t.drop_last() =~= vs@.take(k as int));
                assert(t.last() == vs@[k as int]);
            }
            k = k + 1;
        }
        assert(vs@.take(vs@.len() as int) =~= vs@);
        out
    }

    /// # Returns
    /// * `Ok`: Ids of the vertices that `src_id` has at least one edge to.
    /// * `Err`: `VertexNotFound` if vertex `src_id` does not exist.
    pub fn neighbors(&self, src_id: usize) -> (r: Result<Vec<usize>, Error>)
        requires
            self.wf(),
        ensures
            r is Ok <==> self.spec_has_vertex(src_id),
            r matches Ok(v) ==> v@ == self.neighbors_in(src_id, self.spec_vertex_seq()),
            r matches Err(e) ==> e.spec_kind() == crate::storage::ErrorKind::VertexNotFound
                && e.spec_msg() == crate::storage::error::vnf_msg(src_id),
    {
        if !self.contains_vertex(src_id) {
            return Err(Error::new_vnf(src_id));
        }
        Ok(self.neighbors_unchecked(src_id))
    }

    /// Every edge as `(src_id, dst_id, edge)`, treating each undirected edge as two directed
    /// ones (a self loop once): for each source in increasing order, each destination in
    /// increasing order.
    pub fn as_directed_edges(&self) -> (r: Vec<(usize, usize, &E)>)
        requires
            self.wf(),
        ensures
            deref_triples(r@) == self.all_edges(self.spec_vertex_seq(), self.spec_vertex_seq()),
    {
        let vs = self.vertices();
        proof { self.lemma_vertex_seq_bounds(); }
        let mut out: Vec<(usize, usize, &E)> = Vec::new();
        let mut a: usize = 0;
        while a < vs.len()
            invariant
                self.wf(),
                vs@ == self.spec_vertex_seq(),
                forall|i: int| 0 <= i < vs@.len() ==> #[trigger] self.spec_has_vertex(vs@[i]),
                a <= vs@.len(),
                deref_triples(out@) == self.all_edges(vs@.take(a as int), vs@),
            decreases vs@.len() - a,
        {
            let src_id = vs[a];
            assert(self.spec_has_vertex(vs@[a as int]));
            let ghost row_start = deref_triples(out@);
            let mut b: usize = 0;
            while b < vs.len()
                invariant
                    self.wf(),
                    vs@ == self.spec_vertex_seq(),
                    forall|i: int| 0 <= i < vs@.len() ==> #[trigger] self.spec_has_vertex(vs@[i]),
                    b <= vs@.len(),
                    self.spec_has_vertex(src_id),
                    deref_triples(out@) == row_start + self.row_edges(src_id, vs@.take(b as int)),
                decreases vs@.len() - b,
            {
                assert(self.spec_has_vertex(vs@[b as int]));
                self.append_row(&mut out, src_id, vs[b]);
                proof {
                    let t = vs@.take(b as int + 1);
                    assert(t.drop_last() =~= vs@.take(b as int));
                    assert(t.last() == vs@[b as int]);
                    assert(row_start + self.row_edges(src_id, t) =~= row_start + self.row_edges(src_id, vs@.take(b as int))
                        + self.spec_slot(src_id, vs@[b as int]).map_values(|e: E| (src_id, vs@[b as int], e)));
                }
                b = b + 1;
            }
            proof {
                assert(vs@.take(vs@.len() as int) =~= vs@);
                let t = vs@.take(a as int + 1);
                assert(t.drop_last() =~= vs@.take(a as int));
                assert(t.last() == vs@[a as int]);
            }
            a = a + 1;
        }
        assert(vs@.take(vs@.len() as int) =~= vs@);
        out
    }

    /// All edges as `(src_id, dst_id, edge)`. A directed storage lists every edge as
    /// `as_directed_edges` does; an undirected one lists each edge once, with
    /// `src_id <= dst_id`.
    pub fn edges(&self) -> (r: Vec<(usize, usize, &E)>)
        requires
            self.wf(),
        ensures
            deref_triples(r@) == self.spec_edges(),
    {
        let all = self.as_directed_edges();
        if Dir::is_directed() {
            return all;
        }
        let mut out: Vec<(usize, usize, &E)> = Vec::new();
        let mut k: usize = 0;
        while k < all.len()
            invariant
                k <= all@.len(),
                deref_triples(out@) == upper_triples(deref_triples(all@).take(k as int)),
            decreases all@.len() - k,
        {
            let ghost before = out@;
            let t = all[k];
            if t.0 <= t.1 {
                out.push(t);
                proof {
                    assert(deref_triples(out@) =~= deref_triples(before).push((t.0, t.1, *t.2)));
                }
            }
            proof {
                let s = deref_triples(all@).take(k as int + 1);
                assert(s.drop_last() =~= deref_triples(all@).take(k as int));
                assert(s.last() == (t.0, t.1, *t.2));
            }
            k = k + 1;
        }
        assert(deref_triples(all@).take(all@.len() as int) =~= deref_triples(all@));
        out
    }

    /// # Returns
    /// * `Ok`: Containing the edge with id `edge_id`.
    /// * `Err`: `EdgeNotFound` if there is no such edge.
    pub fn edge(&self, edge_id: usize) -> (r: Result<&E, Error>)
        requires
            self.wf(),
        ensures
            r is Ok <==> self.spec_ends().dom().contains(edge_id),
            r matches Ok(e) ==> e.spec_id() == edge_id
                && self.spec_slot(self.spec_ends()[edge_id].0, self.spec_ends()[edge_id].1).contains(*e),
            r matches Err(e) ==> e.spec_kind() == crate::storage::ErrorKind::EdgeNotFound
                && e.spec_msg() == crate::storage::error::enf_msg(edge_id),
    {
        let mut p: usize = 0;
        while p < self.vec.len()
            invariant
                self.wf(),
                p <= self.vec@.len(),
                forall|q: int, k: int| 0 <= q < p && 0 <= k < self.vec@[q]@.len() ==> #[trigger] self.vec@[q]@[k].spec_id() != edge_id,
            decreases self.vec@.len() - p,
        {
            match self.position_in_slot(p, edge_id) {
                Some(k) => {
                    proof {
                        let (s, d) = self.edge_ends@[edge_id];
                        assert(self.edge_ends@.dom().contains(self.vec@[p as int]@[k as int].spec_id()));
                        assert(Self::idx(s, d) == p);
                        assert(self.spec_slot(s, d)[k as int] == self.vec@[p as int]@[k as int]);
                    }
                    return Ok(&self.vec[p][k]);
                },
                None => {},
            }
            p = p + 1;
        }
        proof {
            if self.edge_ends@.dom().contains(edge_id) {
                let (s, d) = self.edge_ends@[edge_id];
                self.lemma_index_in_bounds(s, d);
                let q = Self::idx(s, d);
                assert(self.slot_has_id(q, edge_id));
                let kk = choose|kk: int| 0 <= kk < self.vec@[q]@.len() && #[trigger] self.vec@[q]@[kk].spec_id() == edge_id;
                assert(false);
            }
        }
        Err(Error::new_enf(edge_id))
    }

    /// # Returns
    /// The edge with id `edge_id`.
    ///
    /// The edge must exist.
    pub fn edge_unchecked(&self, edge_id: usize) -> (e: &E)
        requires
            self.wf(),
            self.spec_ends().dom().contains(edge_id),
        ensures
            e.spec_id() == edge_id
                && self.spec_slot(self.spec_ends()[edge_id].0, self.spec_ends()[edge_id].1).contains(*e),
    {
        match self.edge(edge_id) {
            Ok(e) => e,
            Err(_) => vstd::pervasive::unreached(),
        }
    }
}

impl<W, E: Edge<W>, Dir: EdgeDir> AdjMatrix<W, E, Dir> {
    /// # Returns
    /// Length of the flat vector of edge lists: |V|² when directed, (|V|² + |V|)/2 when undirected.
    pub fn storage_len(&self) -> (n: usize)
        requires
            self.wf(),
        ensures
            n == self.spec_storage_len(),
            n == matrix_len(self.spec_total(), Dir::spec_is_directed()),
    {
        self.vec.len()
    }

    /// # Returns
    /// Ids of removed vertices, which later `add_vertex` calls hand out again.
    pub fn reusable_vertex_ids(&self) -> (r: &HashSet<usize>)
        ensures
            r@ == self.spec_reusable_vertex_ids(),
    {
        &self.reusable_vertex_ids
    }

    /// Ids of the live edges incident to `v`.
    pub open spec fn incident_ids(&self, v: usize) -> Set<usize> {
        self.spec_ends().dom().filter(|id: usize| self.spec_ends()[id].0 == v || self.spec_ends()[id].1 == v)
    }

    /// Every live edge joins two vertices of the graph and is stored in the list between them.
    pub proof fn lemma_edge_endpoints(&self, edge_id: usize)
        requires
            self.wf(),
            self.spec_ends().dom().contains(edge_id),
        ensures
            self.spec_has_vertex(self.spec_ends()[edge_id].0),
            self.spec_has_vertex(self.spec_ends()[edge_id].1),
            self.slot_contains_id(self.spec_ends()[edge_id].0, self.spec_ends()[edge_id].1, edge_id),
    {
        let (s, d) = self.edge_ends@[edge_id];
        let p = Self::idx(s, d);
        assert(self.slot_has_id(p, edge_id));
        let k = choose|k: int| 0 <= k < self.vec@[p]@.len() && #[trigger] self.vec@[p]@[k].spec_id() == edge_id;
        assert(self.spec_slot(s, d)[k].spec_id() == edge_id);
    }

    /// In an undirected matrix the edges from `i` to `j` are the edges from `j` to `i`.
    pub proof fn lemma_undirected_symmetric(&self, i: usize, j: usize)
        requires
            !Dir::spec_is_directed(),
        ensures
            self.spec_slot(i, j) == self.spec_slot(j, i),
    {
        utils::lemma_from_ij_symmetric(i as nat, j as nat);
    }

    /// Adding an edge raises the edge count by one; the new edge is live under its id,
    /// joins the given vertices, and is stored between them with that id.
    pub proof fn lemma_add_edge_law(old_m: Self, new_m: Self, src: usize, dst: usize, edge: E, id: usize)
        requires
            old_m.wf(),
            Self::added_edge(old_m, new_m, src, dst, edge, id),
        ensures
            new_m.spec_edge_count() == old_m.spec_edge_count() + 1,
            new_m.spec_ends().dom().contains(id),
            new_m.spec_ends()[id] == (src, dst),
            new_m.spec_slot(src, dst).contains(edge.spec_with_id(id)),
            edge.spec_with_id(id).spec_id() == id,
    {
        old_m.lemma_counts();
        edge.lemma_with_id(id);
        let n = old_m.spec_slot(src, dst).len() as int;
        assert(new_m.spec_slot(src, dst)[n] == edge.spec_with_id(id));
    }

    /// Removing an edge lowers the edge count by one, and its id is no longer live.
    pub proof fn lemma_remove_edge_law(old_m: Self, new_m: Self, src: usize, dst: usize, edge_id: usize, removed: E)
        requires
            old_m.wf(),
            Self::removed_edge(old_m, new_m, src, dst, edge_id, removed),
        ensures
            new_m.spec_edge_count() + 1 == old_m.spec_edge_count(),
            !new_m.spec_ends().dom().contains(edge_id),
    {
        old_m.lemma_counts();
    }

    /// Removing a vertex removes exactly the edges incident to it: the edge count drops by
    /// their number, and no edge of `edges()` touches the vertex or carries the id of one of
    /// those edges.
    pub proof fn lemma_remove_vertex_law(old_m: Self, new_m: Self, v: usize)
        requires
            old_m.wf(),
            Self::removed_vertex(old_m, new_m, v),
        ensures
            new_m.spec_edge_count() + old_m.incident_ids(v).len() == old_m.spec_edge_count(),
            new_m.spec_vertex_count() + 1 == old_m.spec_vertex_count(),
            new_m.incident_ids(v).is_empty(),
            forall|k: int| 0 <= k < new_m.spec_edges().len() ==> {
                let t = #[trigger] new_m.spec_edges()[k];
                &&& t.0 != v
                &&& t.1 != v
                &&& !old_m.incident_ids(v).contains(t.2.spec_id())
            },
    {
        new_m.lemma_edges_in_slots();
        old_m.lemma_counts();
        new_m.lemma_counts();
        let dom = old_m.spec_ends().dom();
        let inc = old_m.incident_ids(v);
        dom.lemma_len_filter(|id: usize| old_m.spec_ends()[id].0 == v || old_m.spec_ends()[id].1 == v);
        assert(new_m.spec_ends().dom() =~= dom.difference(inc));
        vstd::set_lib::lemma_set_disjoint_lens(new_m.spec_ends().dom(), inc);
        assert(new_m.spec_ends().dom() + inc =~= dom);
        assert(new_m.incident_ids(v) =~= Set::<usize>::empty());
    }

    /// A vertex with no edge to or from any vertex, such as one just added by `add_vertex`,
    /// has no outgoing edges and no neighbors, and no edge of `edges()` starts or ends at it.
    pub proof fn lemma_isolated_vertex(&self, v: usize)
        requires
            self.wf(),
            forall|w: usize| #[trigger] self.spec_has_vertex(w)
                ==> self.spec_slot(v, w).len() == 0 && self.spec_slot(w, v).len() == 0,
        ensures
            self.out_edges(v, self.spec_vertex_seq()).len() == 0,
            self.neighbors_in(v, self.spec_vertex_seq()).len() == 0,
            forall|k: int| 0 <= k < self.spec_edges().len()
                ==> (#[trigger] self.spec_edges()[k]).0 != v && self.spec_edges()[k].1 != v,
    {
        let vs = self.spec_vertex_seq();
        self.lemma_vertex_seq_bounds();
        assert forall|k: int| 0 <= k < vs.len() implies self.spec_slot(v, #[trigger] vs[k]).len() == 0 by {
            assert(self.spec_has_vertex(vs[k]));
        }
        self.lemma_row_empty(v, vs);
        let all = self.all_edges(vs, vs);
        self.lemma_all_edges_from(vs, vs);
        assert forall|k: int| 0 <= k < all.len() implies (#[trigger] all[k]).0 != v && all[k].1 != v by {
            let (s0, d0, _) = all[k];
            assert(self.spec_has_vertex(s0) && self.spec_has_vertex(d0)) by {
                let i = choose|i: int| 0 <= i < vs.len() && vs[i] == s0;
                let j = choose|j: int| 0 <= j < vs.len() && vs[j] == d0;
            }
        }
        if !Dir::spec_is_directed() {
            lemma_upper_from(all);
            assert forall|k: int| 0 <= k < self.spec_edges().len()
                implies (#[trigger] self.spec_edges()[k]).0 != v && self.spec_edges()[k].1 != v by {
                assert(all.contains(upper_triples(all)[k]));
            }
        }
    }

    /// Each triple `(s, d, e)` of `edges()` joins two vertices and holds an edge stored
    /// between them, which is live.
    pub proof fn lemma_edges_in_slots(&self)
        requires
            self.wf(),
        ensures
            forall|k: int| 0 <= k < self.spec_edges().len() ==> {
                let t = #[trigger] self.spec_edges()[k];
                &&& self.spec_has_vertex(t.0)
                &&& self.spec_has_vertex(t.1)
                &&& self.spec_slot(t.0, t.1).contains(t.2)
                &&& self.spec_ends().dom().contains(t.2.spec_id())
            },
    {
        let vs = self.spec_vertex_seq();
        self.lemma_vertex_seq_bounds();
        let all = self.all_edges(vs, vs);
        self.lemma_all_edges_from(vs, vs);
        assert forall|k: int| 0 <= k < all.len() implies {
            let t = #[trigger] all[k];
            &&& self.spec_has_vertex(t.0)
            &&& self.spec_has_vertex(t.1)
            &&& self.spec_slot(t.0, t.1).contains(t.2)
            &&& self.spec_ends().dom().contains(t.2.spec_id())
        } by {
            let t = all[k];
            let i = choose|i: int| 0 <= i < vs.len() && vs[i] == t.0;
            let j = choose|j: int| 0 <= j < vs.len() && vs[j] == t.1;
            assert(self.spec_has_vertex(vs[i]) && self.spec_has_vertex(vs[j]));
            self.lemma_vertex_below_total(t.0);
            self.lemma_vertex_below_total(t.1);
            self.lemma_index_in_bounds(t.0, t.1);
            let q = choose|q: int| 0 <= q < self.spec_slot(t.0, t.1).len() && self.spec_slot(t.0, t.1)[q] == t.2;
            assert(self.vec@[Self::idx(t.0, t.1)]@[q].spec_id() == t.2.spec_id());
        }
        if !Dir::spec_is_directed() {
            lemma_upper_from(all);
            assert forall|k: int| 0 <= k < self.spec_edges().len() implies {
                let t = #[trigger] self.spec_edges()[k];
                &&& self.spec_has_vertex(t.0)
                &&& self.spec_has_vertex(t.1)
                &&& self.spec_slot(t.0, t.1).contains(t.2)
                &&& self.spec_ends().dom().contains(t.2.spec_id())
            } by {
                let t = self.spec_edges()[k];
                assert(all.contains(t));
                let q = choose|q: int| 0 <= q < all.len() && all[q] == t;
            }
        }
    }

    /// The edges of `as_directed_edges()` that leave a vertex `src`, in order, are exactly
    /// those that `edges_from(src)` gives: each edge leaving `src` once.
    pub proof fn lemma_edges_from_are_leaving_edges(&self, src: usize)
        requires
            self.wf(),
            self.spec_has_vertex(src),
        ensures
            edges_leaving(self.all_edges(self.spec_vertex_seq(), self.spec_vertex_seq()), src)
                == self.out_edges(src, self.spec_vertex_seq()),
    {
        let vs = self.spec_vertex_seq();
        self.lemma_vertex_below_total(src);
        assert(self.spec_total() <= usize::MAX);
        self.lemma_sorted_upto(self.spec_total());
        assert(vs.contains(src));
        assert(vs.no_duplicates()) by {
            assert forall|i: int, j: int| 0 <= i < vs.len() && 0 <= j < vs.len() && i != j implies vs[i] != vs[j] by {
                if i < j { assert(vs[i] < vs[j]); } else { assert(vs[j] < vs[i]); }
            }
        }
        self.lemma_edges_leaving_all(vs, vs, src);
    }

    /// Row by row, the edges leaving `src` are those of the row of `src`, when `src` is among
    /// the (distinct) sources.
    proof fn lemma_edges_leaving_all(&self, srcs: Seq<usize>, dsts: Seq<usize>, src: usize)
        requires
            srcs.no_duplicates(),
        ensures
            edges_leaving(self.all_edges(srcs, dsts), src)
                == (if srcs.contains(src) { self.out_edges(src, dsts) } else { Seq::empty() }),
        decreases srcs.len(),
    {
        if srcs.len() == 0 {
            assert(!srcs.contains(src));
        } else {
            let prev = srcs.drop_last();
            let x = srcs.last();
            assert(prev.no_duplicates());
            self.lemma_edges_leaving_all(prev, dsts, src);
            lemma_edges_leaving_add(self.all_edges(prev, dsts), self.row_edges(x, dsts), src);
            self.lemma_edges_leaving_row(x, dsts, src);
            if x == src {
                assert(!prev.contains(src)) by {
                    if prev.contains(src) {
                        let i = choose|i: int| 0 <= i < prev.len() && prev[i] == src;
                        assert(srcs[i] == srcs[srcs.len() - 1]);
                    }
                }
                assert(srcs[srcs.len() - 1] == src);
                assert(Seq::<(usize, E)>::empty() + self.out_edges(src, dsts) =~= self.out_edges(src, dsts));
            } else {
                assert(srcs.contains(src) == prev.contains(src)) by {
                    if srcs.contains(src) {
                        let i = choose|i: int| 0 <= i < srcs.len() && srcs[i] == src;
                        assert(prev[i] == src);
                    }
                    if prev.contains(src) {
                        let i = choose|i: int| 0 <= i < prev.len() && prev[i] == src;
                        assert(srcs[i] == src);
                    }
                }
                let l = edges_leaving(self.all_edges(prev, dsts), src);
                assert(l + Seq::<(usize, E)>::empty() =~= l);
            }
        }
    }

    /// The row of `x` leaves `src` exactly when `x == src`, and then it gives the out edges.
    proof fn lemma_edges_leaving_row(&self, x: usize, dsts: Seq<usize>, src: usize)
        ensures
            edges_leaving(self.row_edges(x, dsts), src)
                == (if x == src { self.out_edges(src, dsts) } else { Seq::empty() }),
        decreases dsts.len(),
    {
        if dsts.len() == 0 {
        } else {
            let prev = dsts.drop_last();
            let d = dsts.last();
            self.lemma_edges_leaving_row(x, prev, src);
            lemma_edges_leaving_add(self.row_edges(x, prev), self.spec_slot(x, d).map_values(|e: E| (x, d, e)), src);
            lemma_edges_leaving_slot(self.spec_slot(x, d), x, d, src);
            if x != src {
                assert(Seq::<(usize, E)>::empty() + Seq::<(usize, E)>::empty() =~= Seq::<(usize, E)>::empty());
            }
        }
    }

    /// The vertices below `n` come in increasing order.
    proof fn lemma_sorted_upto(&self, n: nat)
        requires
            n <= usize::MAX,
        ensures
            forall|i: int, j: int| 0 <= i < j < self.present_upto(n).len() ==> self.present_upto(n)[i] < self.present_upto(n)[j],
            forall|i: int| 0 <= i < self.present_upto(n).len() ==> self.present_upto(n)[i] < n,
            forall|v: usize| v < n && self.spec_has_vertex(v) ==> self.present_upto(n).contains(v),
        decreases n,
    {
        if n > 0 {
            let m = (n - 1) as nat;
            self.lemma_sorted_upto(m);
            let prev = self.present_upto(m);
            let cur = self.present_upto(n);
            assert forall|i: int| 0 <= i < cur.len() implies cur[i] < n by {
                if i < prev.len() {
                    assert(cur[i] == prev[i]);
                }
            }
            assert forall|i: int, j: int| 0 <= i < j < cur.len() implies cur[i] < cur[j] by {
                assert(cur[i] == prev[i]);
                if j < prev.len() {
                    assert(cur[j] == prev[j]);
                } else {
                    assert(cur == prev.push(m as usize));
                    assert(cur[j] == m);
                    assert(prev[i] < m);
                }
            }
            assert forall|v: usize| v < n && self.spec_has_vertex(v) implies cur.contains(v) by {
                if v < m {
                    let k = choose|k: int| 0 <= k < prev.len() && prev[k] == v;
                    assert(cur[k] == v);
                } else {
                    assert(cur[cur.len() - 1] == v);
                }
            }
        }
    }

    /// With no edge from `src` to any of `dsts`, `src` has no edges and no neighbors there.
    proof fn lemma_row_empty(&self, src: usize, dsts: Seq<usize>)
        requires
            forall|k: int| 0 <= k < dsts.len() ==> self.spec_slot(src, #[trigger] dsts[k]).len() == 0,
        ensures
            self.out_edges(src, dsts).len() == 0,
            self.neighbors_in(src, dsts).len() == 0,
        decreases dsts.len(),
    {
        if dsts.len() > 0 {
            self.lemma_row_empty(src, dsts.drop_last());
            assert(self.spec_slot(src, dsts[dsts.len() - 1]).len() == 0);
        }
    }

    /// Each edge listed row by row joins a vertex of `srcs` to one of `dsts` through a
    /// non-empty slot.
    proof fn lemma_all_edges_from(&self, srcs: Seq<usize>, dsts: Seq<usize>)
        ensures
            forall|k: int| 0 <= k < self.all_edges(srcs, dsts).len() ==> {
                let t = #[trigger] self.all_edges(srcs, dsts)[k];
                &&& srcs.contains(t.0)
                &&& dsts.contains(t.1)
                &&& self.spec_slot(t.0, t.1).len() > 0
                &&& self.spec_slot(t.0, t.1).contains(t.2)
            },
        decreases srcs.len(),
    {
        if srcs.len() > 0 {
            let prev = srcs.drop_last();
            self.lemma_all_edges_from(prev, dsts);
            let a = srcs.last();
            self.lemma_row_edges_from(a, dsts);
            let pa = self.all_edges(prev, dsts);
            let r = self.row_edges(a, dsts);
            assert forall|k: int| 0 <= k < self.all_edges(srcs, dsts).len() implies {
                let t = #[trigger] self.all_edges(srcs, dsts)[k];
                &&& srcs.contains(t.0)
                &&& dsts.contains(t.1)
                &&& self.spec_slot(t.0, t.1).len() > 0
                &&& self.spec_slot(t.0, t.1).contains(t.2)
            } by {
                if k < pa.len() {
                    assert(self.all_edges(srcs, dsts)[k] == pa[k]);
                    let t = pa[k];
                    let i = choose|i: int| 0 <= i < prev.len() && prev[i] == t.0;
                    assert(srcs[i] == t.0);
                } else {
                    assert(self.all_edges(srcs, dsts)[k] == r[k - pa.len()]);
                    assert(srcs[srcs.len() - 1] == a);
                }
            }
        }
    }

    /// Each edge of the row of `src` leaves `src` towards one of `dsts` through a non-empty
    /// slot.
    proof fn lemma_row_edges_from(&self, src: usize, dsts: Seq<usize>)
        ensures
            forall|k: int| 0 <= k < self.row_edges(src, dsts).len() ==> {
                let t = #[trigger] self.row_edges(src, dsts)[k];
                &&& t.0 == src
                &&& dsts.contains(t.1)
                &&& self.spec_slot(src, t.1).len() > 0
                &&& self.spec_slot(src, t.1).contains(t.2)
            },
        decreases dsts.len(),
    {
        if dsts.len() > 0 {
            let prev = dsts.drop_last();
            self.lemma_row_edges_from(src, prev);
            let d = dsts.last();
            let pr = self.row_edges(src, prev);
            let tail = self.spec_slot(src, d).map_values(|e: E| (src, d, e));
            assert forall|k: int| 0 <= k < self.row_edges(src, dsts).len() implies {
                let t = #[trigger] self.row_edges(src, dsts)[k];
                &&& t.0 == src
                &&& dsts.contains(t.1)
                &&& self.spec_slot(src, t.1).len() > 0
                &&& self.spec_slot(src, t.1).contains(t.2)
            } by {
                if k < pr.len() {
                    assert(self.row_edges(src, dsts)[k] == pr[k]);
                    let t = pr[k];
                    let i = choose|i: int| 0 <= i < prev.len() && prev[i] == t.1;
                    assert(dsts[i] == t.1);
                } else {
                    let q = k - pr.len();
                    assert(self.row_edges(src, dsts)[k] == tail[q]);
                    assert(dsts[dsts.len() - 1] == d);
                    assert(self.spec_slot(src, d)[q] == tail[q].2);
                }
            }
        }
    }

    /// The neighbors of `src` among `dsts` are exactly the destinations of its edges towards
    /// `dsts`.
    pub proof fn lemma_neighbors_are_edge_destinations(&self, src: usize, dsts: Seq<usize>, d: usize)
        ensures
            self.neighbors_in(src, dsts).contains(d) <==>
                exists|k: int| 0 <= k < self.out_edges(src, dsts).len() && #[trigger] self.out_edges(src, dsts)[k].0 == d,
        decreases dsts.len(),
    {
        if dsts.len() > 0 {
            let prev = dsts.drop_last();
            let last = dsts.last();
            self.lemma_neighbors_are_edge_destinations(src, prev, d);
            let pn = self.neighbors_in(src, prev);
            let po = self.out_edges(src, prev);
            let tail = self.spec_slot(src, last).map_values(|e: E| (last, e));
            let on = self.out_edges(src, dsts);
            let nn = self.neighbors_in(src, dsts);
            assert(on == po + tail);
            let nonempty = self.spec_slot(src, last).len() > 0;
            assert(nonempty ==> nn == pn.push(last));
            assert(!nonempty ==> nn == pn);
            assert(tail.len() == self.spec_slot(src, last).len());
            if nn.contains(d) {
                let i = choose|i: int| 0 <= i < nn.len() && nn[i] == d;
                if i < pn.len() {
                    assert(nn[i] == pn[i]);
                    assert(pn.contains(d));
                    let k = choose|k: int| 0 <= k < po.len() && #[trigger] po[k].0 == d;
                    assert(on[k] == po[k]);
                } else {
                    assert(nonempty);
                    assert(d == last);
                    assert(on[po.len() as int] == tail[0]);
                    assert(on[po.len() as int].0 == d);
                }
            }
            if exists|k: int| 0 <= k < on.len() && #[trigger] on[k].0 == d {
                let k = choose|k: int| 0 <= k < on.len() && #[trigger] on[k].0 == d;
                if k < po.len() {
                    assert(on[k] == po[k]);
                    assert(pn.contains(d));
                    let i = choose|i: int| 0 <= i < pn.len() && pn[i] == d;
                    assert(nn[i] == d);
                } else {
                    assert(on[k] == tail[k - po.len()]);
                    assert(d == last);
                    assert(nonempty);
                    assert(nn[nn.len() - 1] == d);
                }
            }
        }
    }
}
impl<W, E: Edge<W>, Dir: EdgeDir> AdjMatrix<W, E, Dir> {
    /// Number of edges stored from `a` to `b` where `a < b`, 0 for the other pairs.
    pub open spec fn lt_sizes(&self) -> spec_fn(usize, usize) -> nat {
        |a: usize, b: usize| if a < b { self.spec_slot(a, b).len() } else { 0 }
    }

    /// Number of edges stored from `a` to `b` where `a > b`, 0 for the other pairs.
    pub open spec fn gt_sizes(&self) -> spec_fn(usize, usize) -> nat {
        |a: usize, b: usize| if a > b { self.spec_slot(a, b).len() } else { 0 }
    }

    proof fn lemma_row_counts(&self, a: usize, bs: Seq<usize>)
        ensures
            count_lt(self.row_edges(a, bs)) == row_sum(a, bs, self.lt_sizes()),
            count_gt(self.row_edges(a, bs)) == row_sum(a, bs, self.gt_sizes()),
        decreases bs.len(),
    {
        if bs.len() > 0 {
            let b = bs.last();
            self.lemma_row_counts(a, bs.drop_last());
            let block = self.spec_slot(a, b).map_values(|e: E| (a, b, e));
            lemma_counts_add(self.row_edges(a, bs.drop_last()), block);
            lemma_counts_same_ends(block, a, b);
        }
    }

    proof fn lemma_all_counts(&self, as_: Seq<usize>, bs: Seq<usize>)
        ensures
            count_lt(self.all_edges(as_, bs)) == pair_sum(as_, bs, self.lt_sizes()),
            count_gt(self.all_edges(as_, bs)) == pair_sum(as_, bs, self.gt_sizes()),
        decreases as_.len(),
    {
        if as_.len() > 0 {
            self.lemma_all_counts(as_.drop_last(), bs);
            self.lemma_row_counts(as_.last(), bs);
            lemma_counts_add(self.all_edges(as_.drop_last(), bs), self.row_edges(as_.last(), bs));
        }
    }

    /// `as_directed_edges` lists as many edges as `edges` in a directed storage; in an
    /// undirected one it lists each self loop once and every other edge twice, once from
    /// each end.
    pub proof fn lemma_as_directed_count(&self)
        ensures
            ({
                let vs = self.spec_vertex_seq();
                let all = self.all_edges(vs, vs);
                &&& Dir::spec_is_directed() ==> all.len() == self.spec_edges().len()
                &&& !Dir::spec_is_directed() ==>
                    all.len() == count_eq(self.spec_edges()) + 2 * count_lt(self.spec_edges())
            }),
    {
        let vs = self.spec_vertex_seq();
        let all = self.all_edges(vs, vs);
        if !Dir::spec_is_directed() {
            lemma_counts_partition(all);
            lemma_upper_counts(all);
            self.lemma_all_counts(vs, vs);
            lemma_pair_sum_swap(vs, vs, self.gt_sizes());
            assert forall|a: usize, b: usize| #[trigger] flip(self.gt_sizes())(a, b) == self.lt_sizes()(a, b) by {
                self.lemma_undirected_symmetric(a, b);
            }
            lemma_pair_sum_congruent(vs, vs, flip(self.gt_sizes()), self.lt_sizes());
        }
    }
}

} // verus!
