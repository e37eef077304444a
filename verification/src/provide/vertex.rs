use vstd::prelude::*;

use crate::storage::StorageError;

verus! {

/// Read access to the vertices of a storage, reached by token.
pub trait Vertices: Sized {
    /// Values of the vertices.
    type V;

    /// The storage invariant.
    spec fn spec_wf(&self) -> bool;

    /// The vertices: token to value.
    spec fn spec_vertex_map(&self) -> Map<usize, Self::V>;

    /// The vertices that `vt` has an edge to.
    spec fn spec_successor_set(&self, vt: usize) -> Set<usize>;

    /// The vertices that have an edge to `vt`.
    spec fn spec_predecessor_set(&self, vt: usize) -> Set<usize>;

    /// # Returns
    /// The value of vertex `vt`, which must exist.
    fn vertex(&self, vt: usize) -> (v: &Self::V)
        requires
            self.spec_wf(),
            self.spec_vertex_map().contains_key(vt),
        ensures
            *v == self.spec_vertex_map()[vt],
    ;

    /// # Returns
    /// Number of vertices, of which there are finitely many.
    fn vertex_count(&self) -> (n: usize)
        requires
            self.spec_wf(),
        ensures
            self.spec_vertex_map().dom().finite(),
            n == self.spec_vertex_map().len(),
    ;

    /// # Returns
    /// The tokens of the vertices, each once.
    fn vertex_tokens(&self) -> (r: Vec<usize>)
        requires
            self.spec_wf(),
        ensures
            r@.to_set() == self.spec_vertex_map().dom(),
            r@.no_duplicates(),
    ;

    /// # Returns
    /// The values of the vertices, one per vertex.
    fn vertices(&self) -> (r: Vec<&Self::V>)
        requires
            self.spec_wf(),
        ensures
            exists|ks: Seq<usize>| #![trigger ks.to_set()]
                ks.to_set() == self.spec_vertex_map().dom() && ks.no_duplicates() && ks.len() == r@.len()
                && forall|i: int| 0 <= i < ks.len() ==> *(#[trigger] r@[i]) == self.spec_vertex_map()[ks[i]],
    ;

    /// # Returns
    /// The neighbors of vertex `vt`, which must exist: its successors, each once.
    fn neighbors(&self, vt: usize) -> (r: Vec<usize>)
        requires
            self.spec_wf(),
            self.spec_vertex_map().contains_key(vt),
        ensures
            r@.to_set() == self.spec_successor_set(vt),
            r@.no_duplicates(),
    ;

    /// # Returns
    /// `true` if `vt` is the token of a vertex.
    fn has_vt(&self, vt: usize) -> (b: bool)
        ensures
            b == self.spec_vertex_map().contains_key(vt),
    ;

    /// # Returns
    /// The successors of vertex `vt`, which must exist, each once.
    fn successors(&self, vt: usize) -> (r: Vec<usize>)
        requires
            self.spec_wf(),
            self.spec_vertex_map().contains_key(vt),
        ensures
            r@.to_set() == self.spec_successor_set(vt),
            r@.no_duplicates(),
    ;

    /// # Returns
    /// The predecessors of vertex `vt`, which must exist, each once.
    fn predecessors(&self, vt: usize) -> (r: Vec<usize>)
        requires
            self.spec_wf(),
            self.spec_vertex_map().contains_key(vt),
        ensures
            r@.to_set() == self.spec_predecessor_set(vt),
            r@.no_duplicates(),
    ;
}

/// Checked versions of the methods of `Vertices`, which test the token first.
pub trait CheckedVertices: Vertices {
    /// # Returns
    /// * `Ok`: The value of vertex `vt`.
    /// * `Err`: `InvalidVertexToken(vt)` if there is no such vertex.
    fn vertex_checked(&self, vt: usize) -> (r: Result<&Self::V, StorageError>)
        requires
            self.spec_wf(),
        ensures
            r is Ok <==> self.spec_vertex_map().contains_key(vt),
            r matches Ok(v) ==> *v == self.spec_vertex_map()[vt],
            r matches Err(e) ==> e == StorageError::InvalidVertexToken(vt),
    {
        if !self.has_vt(vt) {
            Err(StorageError::InvalidVertexToken(vt))
        } else {
            Ok(self.vertex(vt))
        }
    }

    /// # Returns
    /// `Ok`: Number of vertices.
    fn vertex_count_checked(&self) -> (r: Result<usize, StorageError>)
        requires
            self.spec_wf(),
        ensures
            r == Ok::<usize, StorageError>(self.spec_vertex_map().len() as usize),
    {
        Ok(self.vertex_count())
    }

    /// # Returns
    /// `Ok`: The tokens of the vertices, each once.
    fn vertex_tokens_checked(&self) -> (r: Result<Vec<usize>, StorageError>)
        requires
            self.spec_wf(),
        ensures
            r matches Ok(ts) && ts@.to_set() == self.spec_vertex_map().dom() && ts@.no_duplicates(),
    {
        Ok(self.vertex_tokens())
    }

    /// # Returns
    /// `Ok`: The values of the vertices, one per vertex.
    fn vertices_checked(&self) -> (r: Result<Vec<&Self::V>, StorageError>)
        requires
            self.spec_wf(),
        ensures
            r matches Ok(vs) && exists|ks: Seq<usize>| #![trigger ks.to_set()]
                ks.to_set() == self.spec_vertex_map().dom() && ks.no_duplicates() && ks.len() == vs@.len()
                && forall|i: int| 0 <= i < ks.len() ==> *(#[trigger] vs@[i]) == self.spec_vertex_map()[ks[i]],
    {
        Ok(self.vertices())
    }

    /// # Returns
    /// * `Ok`: The neighbors of vertex `vt`, each once.
    /// * `Err`: `InvalidVertexToken(vt)` if there is no such vertex.
    fn neighbors_checked(&self, vt: usize) -> (r: Result<Vec<usize>, StorageError>)
        requires
            self.spec_wf(),
        ensures
            r is Ok <==> self.spec_vertex_map().contains_key(vt),
            r matches Ok(ns) ==> ns@.to_set() == self.spec_successor_set(vt) && ns@.no_duplicates(),
            r matches Err(e) ==> e == StorageError::InvalidVertexToken(vt),
    {
        if !self.has_vt(vt) {
            Err(StorageError::InvalidVertexToken(vt))
        } else {
            Ok(self.neighbors(vt))
        }
    }

    /// # Returns
    /// * `Ok`: The successors of vertex `vt`, each once.
    /// * `Err`: `InvalidVertexToken(vt)` if there is no such vertex.
    fn successors_checked(&self, vt: usize) -> (r: Result<Vec<usize>, StorageError>)
        requires
            self.spec_wf(),
        ensures
            r is Ok <==> self.spec_vertex_map().contains_key(vt),
            r matches Ok(ns) ==> ns@.to_set() == self.spec_successor_set(vt) && ns@.no_duplicates(),
            r matches Err(e) ==> e == StorageError::InvalidVertexToken(vt),
    {
        if !self.has_vt(vt) {
            Err(StorageError::InvalidVertexToken(vt))
        } else {
            Ok(self.successors(vt))
        }
    }

    /// # Returns
    /// * `Ok`: The predecessors of vertex `vt`, each once.
    /// * `Err`: `InvalidVertexToken(vt)` if there is no such vertex.
    fn predecessors_checked(&self, vt: usize) -> (r: Result<Vec<usize>, StorageError>)
        requires
            self.spec_wf(),
        ensures
            r is Ok <==> self.spec_vertex_map().contains_key(vt),
            r matches Ok(ns) ==> ns@.to_set() == self.spec_predecessor_set(vt) && ns@.no_duplicates(),
            r matches Err(e) ==> e == StorageError::InvalidVertexToken(vt),
    {
        if !self.has_vt(vt) {
            Err(StorageError::InvalidVertexToken(vt))
        } else {
            Ok(self.predecessors(vt))
        }
    }
}

/// Changing the vertices of a storage.
pub trait MutVertices: Vertices {
    /// Another vertex token can be handed out.
    spec fn spec_has_free_token(&self) -> bool;

    /// # Returns
    /// `true` if another vertex can be added.
    fn has_free_token(&mut self) -> (b: bool)
        ensures
            b == old(self).spec_has_free_token(),
            *final(self) == *old(self),
    ;

    /// # Returns
    /// The value of vertex `vt`, which must exist, to change in place.
    fn vertex_mut(&mut self, vt: usize) -> (v: &mut Self::V)
        requires
            old(self).spec_wf(),
            old(self).spec_vertex_map().contains_key(vt),
        ensures
            *v == old(self).spec_vertex_map()[vt],
            final(self).spec_wf(),
            final(self).spec_vertex_map() == old(self).spec_vertex_map().insert(vt, *final(v)),
    ;

    /// Adds a vertex holding `vertex`.
    ///
    /// # Returns
    /// The token of the new vertex.
    fn add_vertex(&mut self, vertex: Self::V) -> (vt: usize)
        requires
            old(self).spec_wf(),
            old(self).spec_has_free_token(),
        ensures
            final(self).spec_wf(),
            !old(self).spec_vertex_map().contains_key(vt),
            final(self).spec_vertex_map() == old(self).spec_vertex_map().insert(vt, vertex),
    ;

    /// `remove_vertex(vt)` can take out vertex `vt` together with its edges.
    spec fn spec_can_remove_vertex(&self, vt: usize) -> bool;

    /// Removes vertex `vt`, which must exist and be removable.
    ///
    /// # Returns
    /// The value of the removed vertex.
    fn remove_vertex(&mut self, vt: usize) -> (v: Self::V)
        requires
            old(self).spec_wf(),
            old(self).spec_vertex_map().contains_key(vt),
            old(self).spec_can_remove_vertex(vt),
        ensures
            final(self).spec_wf(),
            v == old(self).spec_vertex_map()[vt],
            final(self).spec_vertex_map() == old(self).spec_vertex_map().remove(vt),
    ;
}

/// Checked versions of the methods of `MutVertices`, which test their preconditions first.
pub trait CheckedMutVertices: MutVertices {
    /// # Returns
    /// * `Ok`: The value of vertex `vt`, to change in place.
    /// * `Err`: `InvalidVertexToken(vt)` if there is no such vertex; nothing changes then.
    fn vertex_mut_checked(&mut self, vt: usize) -> (r: Result<&mut Self::V, StorageError>)
        requires
            old(self).spec_wf(),
        ensures
            r is Ok <==> old(self).spec_vertex_map().contains_key(vt),
            r matches Ok(v) ==> *v == old(self).spec_vertex_map()[vt] && final(self).spec_wf()
                && final(self).spec_vertex_map() == old(self).spec_vertex_map().insert(vt, *final(v)),
            r matches Err(e) ==> e == StorageError::InvalidVertexToken(vt) && *final(self) == *old(self),
    {
        if !self.has_vt(vt) {
            Err(StorageError::InvalidVertexToken(vt))
        } else {
            Ok(self.vertex_mut(vt))
        }
    }

    /// Adds a vertex holding `vertex` if a token is free.
    ///
    /// # Returns
    /// * `Ok`: The token of the new vertex.
    /// * `Err`: `NoMoreVertexToken` if no token is left; nothing changes then.
    fn add_vertex_checked(&mut self, vertex: Self::V) -> (r: Result<usize, StorageError>)
        requires
            old(self).spec_wf(),
        ensures
            r is Ok <==> old(self).spec_has_free_token(),
            r matches Ok(vt) ==> final(self).spec_wf() && !old(self).spec_vertex_map().contains_key(vt)
                && final(self).spec_vertex_map() == old(self).spec_vertex_map().insert(vt, vertex),
            r matches Err(e) ==> e == StorageError::NoMoreVertexToken && *final(self) == *old(self),
    {
        if !self.has_free_token() {
            Err(StorageError::NoMoreVertexToken)
        } else {
            Ok(self.add_vertex(vertex))
        }
    }

    /// Removes vertex `vt` if it exists; an existing vertex must be removable.
    ///
    /// # Returns
    /// * `Ok`: The value of the removed vertex.
    /// * `Err`: `InvalidVertexToken(vt)` if there is no such vertex; nothing changes then.
    fn remove_vertex_checked(&mut self, vt: usize) -> (r: Result<Self::V, StorageError>)
        requires
            old(self).spec_wf(),
            old(self).spec_vertex_map().contains_key(vt) ==> old(self).spec_can_remove_vertex(vt),
        ensures
            r is Ok <==> old(self).spec_vertex_map().contains_key(vt),
            r matches Ok(v) ==> final(self).spec_wf() && v == old(self).spec_vertex_map()[vt]
                && final(self).spec_vertex_map() == old(self).spec_vertex_map().remove(vt),
            r matches Err(e) ==> e == StorageError::InvalidVertexToken(vt) && *final(self) == *old(self),
    {
        if !self.has_vt(vt) {
            Err(StorageError::InvalidVertexToken(vt))
        } else {
            Ok(self.remove_vertex(vt))
        }
    }
}

} // verus!
