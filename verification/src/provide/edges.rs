use vstd::prelude::*;

use super::vertex::Vertices;

verus! {

/// Read access to the edges of a storage, reached by token.
pub trait Edges: Vertices {
    /// Descriptors of the edges.
    type E;

    /// The edges: token to (source, destination, descriptor).
    spec fn spec_edge_map(&self) -> Map<usize, (usize, usize, Self::E)>;

    /// Tokens of the edges entering `vt`.
    spec fn spec_ingoing_set(&self, vt: usize) -> Set<usize>;

    /// Tokens of the edges leaving `vt`.
    spec fn spec_outgoing_set(&self, vt: usize) -> Set<usize>;

    /// # Returns
    /// `(src_vt, dst_vt, descriptor)` of edge `et`, which must exist.
    fn edge(&self, et: usize) -> (r: (usize, usize, &Self::E))
        requires
            self.spec_wf(),
            self.spec_edge_map().contains_key(et),
        ensures
            (r.0, r.1, *r.2) == self.spec_edge_map()[et],
    ;

    /// # Returns
    /// Number of edges, of which there are finitely many.
    fn edge_count(&self) -> (n: usize)
        requires
            self.spec_wf(),
        ensures
            self.spec_edge_map().dom().finite(),
            n == self.spec_edge_map().len(),
    ;

    /// # Returns
    /// The tokens of the edges, each once.
    fn edge_tokens(&self) -> (r: Vec<usize>)
        requires
            self.spec_wf(),
        ensures
            r@.to_set() == self.spec_edge_map().dom(),
            r@.no_duplicates(),
    ;

    /// # Returns
    /// Every edge as `(src_vt, dst_vt, descriptor)`.
    fn edges(&self) -> (r: Vec<(usize, usize, &Self::E)>)
        requires
            self.spec_wf(),
        ensures
            exists|ks: Seq<usize>| #![trigger ks.to_set()]
                ks.to_set() == self.spec_edge_map().dom() && ks.no_duplicates() && ks.len() == r@.len()
                && forall|i: int| 0 <= i < ks.len() ==> ((#[trigger] r@[i]).0, r@[i].1, *r@[i].2) == self.spec_edge_map()[ks[i]],
    ;

    /// # Returns
    /// Tokens of the edges entering vertex `vt`, which must exist, each once.
    fn ingoing_edges(&self, vt: usize) -> (r: Vec<usize>)
        requires
            self.spec_wf(),
            self.spec_vertex_map().contains_key(vt),
        ensures
            r@.to_set() == self.spec_ingoing_set(vt),
            r@.no_duplicates(),
    ;

    /// # Returns
    /// Tokens of the edges leaving vertex `vt`, which must exist, each once.
    fn outgoing_edges(&self, vt: usize) -> (r: Vec<usize>)
        requires
            self.spec_wf(),
            self.spec_vertex_map().contains_key(vt),
        ensures
            r@.to_set() == self.spec_outgoing_set(vt),
            r@.no_duplicates(),
    ;

    /// # Returns
    /// `true` if `et` is the token of an edge.
    fn has_et(&self, et: usize) -> (b: bool)
        ensures
            b == self.spec_edge_map().contains_key(et),
    ;
}

/// Changing the edges of a storage.
pub trait MutEdges: Edges {
    /// Another edge token can be handed out.
    spec fn spec_has_free_et(&self) -> bool;

    /// `remove_edge(src_vt, dst_vt, et)` can take out edge `et` through this pair of tokens.
    spec fn spec_can_remove_edge(&self, src_vt: usize, dst_vt: usize, et: usize) -> bool;

    /// # Returns
    /// `true` if another edge can be added.
    fn has_free_et(&mut self) -> (b: bool)
        ensures
            b == old(self).spec_has_free_et(),
            *final(self) == *old(self),
    ;

    /// # Returns
    /// `(src_vt, dst_vt, descriptor)` of edge `et`, which must exist, the descriptor to change
    /// in place.
    fn edge_mut(&mut self, et: usize) -> (r: (usize, usize, &mut Self::E))
        requires
            old(self).spec_wf(),
            old(self).spec_edge_map().contains_key(et),
        ensures
            (r.0, r.1, *r.2) == old(self).spec_edge_map()[et],
            final(self).spec_wf(),
            final(self).spec_edge_map() == old(self).spec_edge_map().insert(et, (r.0, r.1, *final(r.2))),
            final(self).spec_vertex_map() == old(self).spec_vertex_map(),
    ;

    /// Adds `edge` from vertex `src_vt` to vertex `dst_vt`; both must exist.
    ///
    /// # Returns
    /// The token of the new edge.
    fn add_edge(&mut self, src_vt: usize, dst_vt: usize, edge: Self::E) -> (et: usize)
        requires
            old(self).spec_wf(),
            old(self).spec_vertex_map().contains_key(src_vt),
            old(self).spec_vertex_map().contains_key(dst_vt),
            old(self).spec_has_free_et(),
        ensures
            final(self).spec_wf(),
            !old(self).spec_edge_map().contains_key(et),
            final(self).spec_edge_map() == old(self).spec_edge_map().insert(et, (src_vt, dst_vt, edge)),
            final(self).spec_vertex_map() == old(self).spec_vertex_map(),
    ;

    /// Removes edge `et`, which must exist, join `src_vt` and `dst_vt` (in either order) and be
    /// removable through them.
    ///
    /// # Returns
    /// The descriptor of the removed edge.
    fn remove_edge(&mut self, src_vt: usize, dst_vt: usize, et: usize) -> (e: Self::E)
        requires
            old(self).spec_wf(),
            old(self).spec_edge_map().contains_key(et),
            (old(self).spec_edge_map()[et].0 == src_vt && old(self).spec_edge_map()[et].1 == dst_vt)
                || (old(self).spec_edge_map()[et].0 == dst_vt && old(self).spec_edge_map()[et].1 == src_vt),
            old(self).spec_can_remove_edge(src_vt, dst_vt, et),
        ensures
            final(self).spec_wf(),
            e == old(self).spec_edge_map()[et].2,
            final(self).spec_edge_map() == old(self).spec_edge_map().remove(et),
            final(self).spec_vertex_map() == old(self).spec_vertex_map(),
    ;
}

} // verus!
