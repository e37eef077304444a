use vstd::prelude::*;
use core::marker::PhantomData;

use super::{lemma_update_swaps_token, replaced_first, KElementCollection};
use crate::storage::edge::descriptors::{CheckedFixedSizeMutEdgeDescriptor, EdgeDescriptor, FixedSizeMutEdgeDescriptor};
use crate::storage::StorageError;

verus! {

/// A [`KUniformDirHyperedge`] that uses an array of size `K` as its collection.
pub type ArrKUniformDirHyperedge<const K: usize> = KUniformDirHyperedge<[usize; K], K>;

/// A directed edge that connects exactly `K` vertices: the first token is the tail (the
/// source), connected to the `K - 1` others, the heads (the destinations).
///
/// For example the tokens {1, 2, 3} connect 1 to 2 and 1 to 3.
#[derive(Debug)]
pub struct KUniformDirHyperedge<C: KElementCollection<K>, const K: usize> {
    vertices: C,
    phantom: PhantomData<usize>,
}

impl<C: KElementCollection<K>, const K: usize> KUniformDirHyperedge<C, K> {
    /// Tokens of the connected vertices: the tail, then the heads.
    pub closed spec fn spec_tokens(&self) -> Seq<usize> {
        self.vertices.spec_elems()
    }

    /// # Returns
    /// * `Ok`: The hyperedge whose tail is the first token of `vertex_tokens` and whose heads
    ///   are the others, if there are exactly `K` tokens.
    /// * `Err`: `NotKElement(number of tokens, K)` otherwise.
    pub fn try_init(vertex_tokens: Vec<usize>) -> (r: Result<Self, StorageError>)
        ensures
            r is Ok <==> vertex_tokens@.len() == K,
            r matches Ok(e) ==> e.spec_tokens() == vertex_tokens@,
            r matches Err(e) ==> e == StorageError::NotKElement(vertex_tokens@.len() as usize, K),
    {
        let tokens_count = vertex_tokens.len();
        match C::from_vec(vertex_tokens) {
            Some(vertices) => Ok(KUniformDirHyperedge { vertices, phantom: PhantomData }),
            None => Err(StorageError::NotKElement(tokens_count, K)),
        }
    }
}

impl<C: KElementCollection<K>, const K: usize> EdgeDescriptor for KUniformDirHyperedge<C, K> {
    open spec fn spec_is_directed() -> bool {
        true
    }

    open spec fn spec_sources(&self) -> Set<usize> {
        self.spec_tokens().take(if K == 0 { 0 } else { 1 }).to_set()
    }

    open spec fn spec_destinations(&self) -> Set<usize> {
        self.spec_tokens().skip(if K == 0 { 0 } else { 1 }).to_set()
    }

    open spec fn spec_sources_count(&self) -> nat {
        if K == 0 { 0 } else { 1 }
    }

    open spec fn spec_destinations_count(&self) -> nat {
        if K == 0 { 0 } else { (K - 1) as nat }
    }

    fn is_directed() -> (b: bool) {
        true
    }

    fn is_undirected() -> (b: bool) {
        false
    }

    fn get_sources(&self) -> (r: Vec<usize>)
        ensures
            r@ == self.spec_tokens().take(if K == 0 { 0 } else { 1 }),
    {
        proof { self.vertices.lemma_len(); }
        let mut r: Vec<usize> = Vec::new();
        if K > 0 {
            r.push(self.vertices.get(0));
            assert(r@ =~= self.spec_tokens().take(1));
        } else {
            assert(r@ =~= self.spec_tokens().take(0));
        }
        r
    }

    fn get_destinations(&self) -> (r: Vec<usize>)
        ensures
            r@ == self.spec_tokens().skip(if K == 0 { 0 } else { 1 }),
    {
        proof { self.vertices.lemma_len(); }
        let mut r: Vec<usize> = Vec::new();
        if K == 0 {
            assert(r@ =~= self.spec_tokens().skip(0));
            assert(r@.len() == self.spec_destinations_count());
            assert(r@.to_set() =~= self.spec_destinations());
            return r;
        }
        let mut k: usize = 1;
        while k < K
            invariant
                self.spec_tokens().len() == K,
                1 <= k <= K,
                r@ == self.spec_tokens().subrange(1, k as int),
            decreases K - k,
        {
            r.push(self.vertices.get(k));
            proof {
                assert(self.spec_tokens().subrange(1, k + 1) =~= self.spec_tokens().subrange(1, k as int).push(self.spec_tokens()[k as int]));
            }
            k = k + 1;
        }
        assert(r@ =~= self.spec_tokens().skip(1));
        assert(r@.len() == K - 1);
        assert(r@.len() == self.spec_destinations_count());
        r
    }

    fn is_source(&self, vt: &usize) -> (b: bool) {
        proof { self.vertices.lemma_len(); }
        if K == 0 {
            proof {
                assert(self.spec_tokens().take(0).to_set() =~= Set::<usize>::empty());
            }
            return false;
        }
        let b = self.vertices.get(0) == *vt;
        proof {
            let t = self.spec_tokens().take(1);
            assert(t =~= seq![self.spec_tokens()[0]]);
            assert(t.to_set().contains(self.spec_tokens()[0])) by {
                assert(t[0] == self.spec_tokens()[0]);
            }
            if t.to_set().contains(*vt) {
                let i = choose|i: int| 0 <= i < t.len() && t[i] == *vt;
                assert(i == 0);
            }
        }
        b
    }

    fn is_destination(&self, vt: &usize) -> (b: bool) {
        let d = self.get_destinations();
        let mut k: usize = 0;
        while k < d.len()
            invariant
                d@.to_set() == self.spec_destinations(),
                k <= d@.len(),
                forall|q: int| 0 <= q < k ==> d@[q] != *vt,
            decreases d@.len() - k,
        {
            if d[k] == *vt {
                assert(d@.to_set().contains(*vt)) by {
                    assert(d@[k as int] == *vt);
                }
                assert(self.spec_destinations().contains(*vt));
                return true;
            }
            k = k + 1;
        }
        false
    }

    fn sources_count(&self) -> (n: usize) {
        if K == 0 { 0 } else { 1 }
    }

    fn destinations_count(&self) -> (n: usize) {
        if K == 0 { 0 } else { K - 1 }
    }
}

impl<C: KElementCollection<K>, const K: usize> FixedSizeMutEdgeDescriptor for KUniformDirHyperedge<C, K> {
    /// No token is repeated.
    open spec fn spec_simple(&self) -> bool {
        self.spec_tokens().no_duplicates()
    }

    /// The first `target` among the tokens, if any, is replaced by `vt`.
    open spec fn replaced_src(old: Self, new: Self, target: usize, vt: usize) -> bool {
        replaced_first(old.spec_tokens(), new.spec_tokens(), target, vt)
    }

    /// The first `target` among the tokens, if any, is replaced by `vt`.
    open spec fn replaced_dst(old: Self, new: Self, target: usize, vt: usize) -> bool {
        replaced_first(old.spec_tokens(), new.spec_tokens(), target, vt)
    }

    fn replace_src(&mut self, target_vt: &usize, vt: usize) {
        proof { self.vertices.lemma_len(); }
        self.vertices.replace(target_vt, vt);
        proof {
            self.vertices.lemma_len();
            let t = old(self).spec_tokens();
            let u = self.spec_tokens();
            if K > 0 && t.take(1).to_set().contains(*target_vt) {
                let j = choose|j: int| 0 <= j < t.take(1).len() && t.take(1)[j] == *target_vt;
                assert(t[0] == *target_vt);
                assert(t.contains(*target_vt));
                let i = choose|i: int| 0 <= i < t.len() && t[i] == *target_vt
                    && (forall|j: int| 0 <= j < i ==> t[j] != *target_vt)
                    && u == t.update(i, vt);
                assert(i == 0);
                assert(u.take(1) =~= seq![vt]);
                assert(t.take(1) =~= seq![*target_vt]);
                assert(u.take(1).to_set() =~= set![vt]) by {
                    assert(u.take(1)[0] == vt);
                }
                assert(t.take(1).to_set() =~= set![*target_vt]) by {
                    assert(t.take(1)[0] == *target_vt);
                }
                assert(set![*target_vt].remove(*target_vt).insert(vt) =~= set![vt]);
                assert(u.skip(1) =~= t.skip(1));
            }
        }
    }

    fn replace_dst(&mut self, target_vt: &usize, vt: usize) {
        proof { self.vertices.lemma_len(); }
        self.vertices.replace(target_vt, vt);
        proof {
            self.vertices.lemma_len();
            let t = old(self).spec_tokens();
            let u = self.spec_tokens();
            if old(self).spec_simple() && K > 0 && t.skip(1).to_set().contains(*target_vt) {
                let j = choose|j: int| 0 <= j < t.skip(1).len() && t.skip(1)[j] == *target_vt;
                assert(t[j + 1] == *target_vt);
                assert(t.contains(*target_vt));
                let i = choose|i: int| 0 <= i < t.len() && t[i] == *target_vt
                    && (forall|k: int| 0 <= k < i ==> t[k] != *target_vt)
                    && u == t.update(i, vt);
                assert(i == j + 1);
                assert(u.take(1) =~= t.take(1));
                assert(u.skip(1) =~= t.skip(1).update(j, vt));
                assert(t.skip(1).no_duplicates());
                lemma_update_swaps_token(t.skip(1), j, vt);
            }
        }
    }
}

impl<C: KElementCollection<K>, const K: usize> CheckedFixedSizeMutEdgeDescriptor for KUniformDirHyperedge<C, K> {
}

} // verus!
