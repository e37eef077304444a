//! Edges that connect any number of vertices.

pub mod hyperedge;
pub mod hyperedge_dir;
pub mod uniform;

use vstd::prelude::*;
use std::collections::HashSet;

pub use hyperedge::{HashedHyperedge, Hyperedge};
pub use hyperedge_dir::{DirHyperedge, HashedDirHyperedge};

verus! {

broadcast use vstd::std_specs::hash::group_hash_axioms;

/// Describes an unordered set of vertex tokens.
pub trait UnorderedSet: Sized {
    /// The tokens in the set.
    spec fn spec_elems(&self) -> Set<usize>;

    /// # Returns
    /// A set holding the tokens of `values`.
    fn from_vec(values: Vec<usize>) -> (s: Self)
        ensures
            s.spec_elems() == values@.to_set(),
    ;

    /// Adds the tokens of `values` to the set.
    fn extend_with(&mut self, values: Vec<usize>)
        ensures
            final(self).spec_elems() == old(self).spec_elems().union(values@.to_set()),
    ;

    /// # Returns
    /// `true` if the set contains `value`.
    fn contains(&self, value: &usize) -> (b: bool)
        ensures
            b == self.spec_elems().contains(*value),
    ;

    /// Inserts `value`; if it is already there, nothing happens.
    fn insert(&mut self, value: usize)
        ensures
            final(self).spec_elems() == old(self).spec_elems().insert(value),
    ;

    /// Removes `value`; if it is not there, nothing happens.
    fn remove(&mut self, value: &usize)
        ensures
            final(self).spec_elems() == old(self).spec_elems().remove(*value),
    ;

    /// Replaces `target` by `value`; if `target` is not there, nothing happens.
    fn replace(&mut self, target: &usize, value: usize)
        ensures
            final(self).spec_elems() == (if old(self).spec_elems().contains(*target) {
                old(self).spec_elems().remove(*target).insert(value)
            } else {
                old(self).spec_elems()
            }),
    ;

    /// # Returns
    /// Number of tokens in the set.
    fn len(&self) -> (n: usize)
        ensures
            n == self.spec_elems().len(),
    ;

    /// # Returns
    /// `true` if the set holds no token.
    fn is_empty(&self) -> (b: bool)
        ensures
            b == self.spec_elems().is_empty(),
    ;

    /// # Returns
    /// The tokens of the set, each once, in no particular order.
    fn iterator(&self) -> (r: Vec<usize>)
        ensures
            r@.to_set() == self.spec_elems(),
            r@.no_duplicates(),
            r@.len() == self.spec_elems().len(),
    ;
}

impl UnorderedSet for HashSet<usize> {
    open spec fn spec_elems(&self) -> Set<usize> {
        self@
    }

    fn from_vec(values: Vec<usize>) -> (s: Self) {
        let mut s: HashSet<usize> = HashSet::new();
        s.extend_with(values);
        proof {
            assert(s@ =~= values@.to_set());
        }
        s
    }

    fn extend_with(&mut self, values: Vec<usize>) {
        let ghost start = self@;
        let mut k: usize = 0;
        while k < values.len()
            invariant
                k <= values@.len(),
                self@ == start.union(values@.take(k as int).to_set()),
            decreases values@.len() - k,
        {
            self.insert(values[k]);
            proof {
                assert(values@.take(k + 1) =~= values@.take(k as int).push(values@[k as int]));
                values@.take(k as int).lemma_push_to_set_commute(values@[k as int]);
                assert(self@ =~= start.union(values@.take(k + 1).to_set()));
            }
            k = k + 1;
        }
        assert(values@.take(values@.len() as int) =~= values@);
    }

    fn contains(&self, value: &usize) -> (b: bool) {
        HashSet::contains(self, value)
    }

    fn insert(&mut self, value: usize) {
        HashSet::insert(self, value);
    }

    fn remove(&mut self, value: &usize) {
        HashSet::remove(self, value);
    }

    fn replace(&mut self, target: &usize, value: usize) {
        if HashSet::remove(self, target) {
            HashSet::insert(self, value);
        }
    }

    fn len(&self) -> (n: usize) {
        HashSet::len(self)
    }

    fn is_empty(&self) -> (b: bool) {
        HashSet::is_empty(self)
    }

    fn iterator(&self) -> (r: Vec<usize>) {
        proof {
            vstd::std_specs::hash::axiom_spec_hash_keys_iter(self);
        }
        let mut r: Vec<usize> = Vec::new();
        for x in it: self.iter()
            invariant
                it.seq() == vstd::std_specs::iter::IteratorSpec::remaining(&vstd::std_specs::hash::spec_hash_keys_iter(self)),
                r@ == it.seq().take(it.index() as int).map_values(|p: &usize| *p),
        {
            proof {
                assert(it.seq().take(it.index() as int + 1) =~= it.seq().take(it.index() as int).push(it.seq()[it.index() as int]));
            }
            r.push(*x);
        }
        proof {
            let all = vstd::std_specs::iter::IteratorSpec::remaining(&vstd::std_specs::hash::spec_hash_keys_iter(self));
            assert(all.take(all.len() as int) =~= all);
            assert(r@ =~= all.unref());
        }
        r
    }
}

} // verus!
