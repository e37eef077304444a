//! Hyperedges that connect exactly `K` vertices.

pub mod hyperedge_dir_k_uniform;
pub mod hyperedge_k_uniform;

use vstd::prelude::*;

pub use hyperedge_dir_k_uniform::{ArrKUniformDirHyperedge, KUniformDirHyperedge};
pub use hyperedge_k_uniform::{ArrKUniformHyperedge, KUniformHyperedge};

verus! {

/// `new` is `old` with the first `target` replaced by `value`, or `old` itself when there is
/// no `target`.
pub open spec fn replaced_first(old: Seq<usize>, new: Seq<usize>, target: usize, value: usize) -> bool {
    if old.contains(target) {
        exists|i: int| 0 <= i < old.len() && old[i] == target
            && (forall|j: int| 0 <= j < i ==> old[j] != target)
            && new == old.update(i, value)
    } else {
        new == old
    }
}

/// Overwriting the token at `i` of a list without repeats by `value` swaps the two in the
/// list's set of tokens.
pub proof fn lemma_update_swaps_token(s: Seq<usize>, i: int, value: usize)
    requires
        0 <= i < s.len(),
        s.no_duplicates(),
    ensures
        s.update(i, value).to_set() == s.to_set().remove(s[i]).insert(value),
{
    let t = s.update(i, value);
    assert forall|x: usize| t.to_set().contains(x) <==> s.to_set().remove(s[i]).insert(value).contains(x) by {
        if x == value {
            assert(t[i] == value);
        } else if t.to_set().contains(x) {
            let j = choose|j: int| 0 <= j < t.len() && t[j] == x;
            assert(j != i);
            assert(s[j] == x);
        } else if s.to_set().contains(x) && x != s[i] {
            let j = choose|j: int| 0 <= j < s.len() && s[j] == x;
            assert(t[j] == x);
        }
    }
    assert(t.to_set() =~= s.to_set().remove(s[i]).insert(value));
}

/// Describes a collection that holds exactly `K` vertex tokens at all times.
pub trait KElementCollection<const K: usize>: Sized {
    /// The tokens, in order.
    spec fn spec_elems(&self) -> Seq<usize>;

    /// There are exactly `K` tokens.
    proof fn lemma_len(&self)
        ensures
            self.spec_elems().len() == K,
    ;

    /// # Returns
    /// * `Some`: A collection holding the tokens of `values`, if there are exactly `K`.
    /// * `None`: Otherwise.
    fn from_vec(values: Vec<usize>) -> (r: Option<Self>)
        ensures
            r is Some <==> values@.len() == K,
            r matches Some(c) ==> c.spec_elems() == values@,
    ;

    /// # Returns
    /// The token at position `i`.
    fn get(&self, i: usize) -> (x: usize)
        requires
            i < K,
        ensures
            x == self.spec_elems()[i as int],
    ;

    /// # Returns
    /// `true` if the collection contains `value`.
    fn contains_value(&self, value: &usize) -> (b: bool)
        ensures
            b == self.spec_elems().contains(*value),
    ;

    /// Replaces the first `target` by `value`; if `target` is not there, nothing happens.
    fn replace(&mut self, target: &usize, value: usize)
        ensures
            replaced_first(old(self).spec_elems(), final(self).spec_elems(), *target, value),
    ;

    /// # Returns
    /// Number of tokens, `K`.
    fn len(&self) -> (n: usize)
        ensures
            n == K,
    ;

    /// # Returns
    /// `true` if `K` is 0.
    fn is_empty(&self) -> (b: bool)
        ensures
            b == (K == 0),
    ;

    /// # Returns
    /// The tokens, in order.
    fn iterator(&self) -> (r: Vec<usize>)
        ensures
            r@ == self.spec_elems(),
    ;
}

/// Converts `values` into an array of `K` tokens.
///
/// Calls `TryFrom::try_from` of std's `[T; N]` from a `Vec<T>`, which the contract takes to
/// succeed exactly when the vector holds `K` elements, keeping them in order.
#[verifier::external_body]
fn array_from_vec<const K: usize>(values: Vec<usize>) -> (r: Option<[usize; K]>)
    ensures
        r is Some <==> values@.len() == K,
        r matches Some(a) ==> a@ == values@,
{
    <[usize; K]>::try_from(values).ok()
}

impl<const K: usize> KElementCollection<K> for [usize; K] {
    open spec fn spec_elems(&self) -> Seq<usize> {
        self@
    }

    proof fn lemma_len(&self) {
    }

    fn from_vec(values: Vec<usize>) -> (r: Option<Self>) {
        array_from_vec(values)
    }

    fn get(&self, i: usize) -> (x: usize) {
        self[i]
    }

    fn contains_value(&self, value: &usize) -> (b: bool) {
        let mut k: usize = 0;
        while k < K
            invariant
                self@.len() == K,
                k <= K,
                forall|q: int| 0 <= q < k ==> self@[q] != *value,
            decreases K - k,
        {
            if self[k] == *value {
                assert(self@[k as int] == *value);
                return true;
            }
            k = k + 1;
        }
        false
    }

    fn replace(&mut self, target: &usize, value: usize) {
        let mut k: usize = 0;
        while k < K
            invariant
                *self == *old(self),
                self@.len() == K,
                k <= K,
                forall|q: int| 0 <= q < k ==> self@[q] != *target,
            decreases K - k,
        {
            if self[k] == *target {
                proof {
                    assert(old(self)@.contains(*target)) by {
                        assert(old(self)@[k as int] == *target);
                    }
                }
                self[k] = value;
                return;
            }
            k = k + 1;
        }
    }

    fn len(&self) -> (n: usize) {
        K
    }

    fn is_empty(&self) -> (b: bool) {
        K == 0
    }

    fn iterator(&self) -> (r: Vec<usize>) {
        let mut r: Vec<usize> = Vec::new();
        let mut k: usize = 0;
        while k < K
            invariant
                self@.len() == K,
                k <= K,
                r@ == self@.take(k as int),
            decreases K - k,
        {
            r.push(self[k]);
            proof {
                assert(self@.take(k + 1) =~= self@.take(k as int).push(self@[k as int]));
            }
            k = k + 1;
        }
        assert(self@.take(K as int) =~= self@);
        r
    }
}

} // verus!
