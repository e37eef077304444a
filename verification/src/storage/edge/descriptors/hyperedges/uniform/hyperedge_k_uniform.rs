use vstd::prelude::*;
use core::marker::PhantomData;

use super::{lemma_update_swaps_token, replaced_first, KElementCollection};
use crate::storage::edge::descriptors::{CheckedFixedSizeMutEdgeDescriptor, EdgeDescriptor, FixedSizeMutEdgeDescriptor};
use crate::storage::StorageError;

verus! {

/// A [`KUniformHyperedge`] that uses an array of size `K` as its collection.
pub type ArrKUniformHyperedge<const K: usize> = KUniformHyperedge<[usize; K], K>;

/// An undirected edge that connects exactly `K` vertices, all to each other.
#[derive(Debug)]
pub struct KUniformHyperedge<C: KElementCollection<K>, const K: usize> {
    vertices: C,
    phantom: PhantomData<usize>,
}

impl<C: KElementCollection<K>, const K: usize> KUniformHyperedge<C, K> {
    /// Tokens of the connected vertices, in order.
    pub closed spec fn spec_tokens(&self) -> Seq<usize> {
        self.vertices.spec_elems()
    }

    /// # Returns
    /// * `Ok`: The hyperedge connecting the tokens of `vertex_tokens`, if there are exactly `K`.
    /// * `Err`: `NotKElement(number of tokens, K)` otherwise.
    pub fn try_init(vertex_tokens: Vec<usize>) -> (r: Result<Self, StorageError>)
        ensures
            r is Ok <==> vertex_tokens@.len() == K,
            r matches Ok(e) ==> e.spec_tokens() == vertex_tokens@,
            r matches Err(e) ==> e == StorageError::NotKElement(vertex_tokens@.len() as usize, K),
    {
        let tokens_count = vertex_tokens.len();
        match C::from_vec(vertex_tokens) {
            Some(vertices) => Ok(KUniformHyperedge { vertices, phantom: PhantomData }),
            None => Err(StorageError::NotKElement(tokens_count, K)),
        }
    }
}

impl<C: KElementCollection<K>, const K: usize> EdgeDescriptor for KUniformHyperedge<C, K> {
    open spec fn spec_is_directed() -> bool {
        false
    }

    open spec fn spec_sources(&self) -> Set<usize> {
        self.spec_tokens().to_set()
    }

    open spec fn spec_destinations(&self) -> Set<usize> {
        self.spec_tokens().to_set()
    }

    open spec fn spec_sources_count(&self) -> nat {
        K as nat
    }

    open spec fn spec_destinations_count(&self) -> nat {
        K as nat
    }

    fn is_directed() -> (b: bool) {
        false
    }

    fn is_undirected() -> (b: bool) {
        true
    }

    fn get_sources(&self) -> (r: Vec<usize>)
        ensures
            r@ == self.spec_tokens(),
    {
        proof { self.vertices.lemma_len(); }
        self.vertices.iterator()
    }

    fn get_destinations(&self) -> (r: Vec<usize>)
        ensures
            r@ == self.spec_tokens(),
    {
        proof { self.vertices.lemma_len(); }
        self.vertices.iterator()
    }

    fn is_source(&self, vt: &usize) -> (b: bool) {
        self.vertices.contains_value(vt)
    }

    fn is_destination(&self, vt: &usize) -> (b: bool) {
        self.vertices.contains_value(vt)
    }

    fn contains(&self, vt: &usize) -> (b: bool) {
        self.vertices.contains_value(vt)
    }

    fn sources_count(&self) -> (n: usize) {
        self.vertices.len()
    }

    fn destinations_count(&self) -> (n: usize) {
        self.vertices.len()
    }
}

impl<C: KElementCollection<K>, const K: usize> FixedSizeMutEdgeDescriptor for KUniformHyperedge<C, K> {
    /// No token is repeated.
    open spec fn spec_simple(&self) -> bool {
        self.spec_tokens().no_duplicates()
    }

    /// The first `target` among the tokens, if any, is replaced by `vt`.
    open spec fn replaced_src(old: Self, new: Self, target: usize, vt: usize) -> bool {
        replaced_first(old.spec_tokens(), new.spec_tokens(), target, vt)
    }

    /// The first `target` among the tokens, if any, is replaced by `vt`.
    open spec fn replaced_dst(old: Self, new: Self, target: usize, vt: usize) -> bool {
        replaced_first(old.spec_tokens(), new.spec_tokens(), target, vt)
    }

    fn replace_src(&mut self, target_vt: &usize, vt: usize) {
        self.vertices.replace(target_vt, vt);
        proof {
            let t = old(self).spec_tokens();
            if old(self).spec_simple() && t.to_set().contains(*target_vt) {
                let i = choose|i: int| 0 <= i < t.len() && t[i] == *target_vt
                    && (forall|j: int| 0 <= j < i ==> t[j] != *target_vt)
                    && self.spec_tokens() == t.update(i, vt);
                lemma_update_swaps_token(t, i, vt);
            }
        }
    }

    fn replace_dst(&mut self, target_vt: &usize, vt: usize) {
        self.vertices.replace(target_vt, vt);
        proof {
            let t = old(self).spec_tokens();
            if old(self).spec_simple() && t.to_set().contains(*target_vt) {
                let i = choose|i: int| 0 <= i < t.len() && t[i] == *target_vt
                    && (forall|j: int| 0 <= j < i ==> t[j] != *target_vt)
                    && self.spec_tokens() == t.update(i, vt);
                lemma_update_swaps_token(t, i, vt);
            }
        }
    }
}

impl<C: KElementCollection<K>, const K: usize> CheckedFixedSizeMutEdgeDescriptor for KUniformHyperedge<C, K> {
}

} // verus!
