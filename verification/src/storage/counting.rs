//! Counting the triples `(src, dst, edge)` of an edge listing by how their ends compare, and
//! double sums over pairs of vertices.

use vstd::prelude::*;

use crate::storage::adj_matrix::upper_triples;

verus! {

/// Number of triples whose source is below their destination.
pub open spec fn count_lt<E>(s: Seq<(usize, usize, E)>) -> nat
    decreases s.len(),
{
    if s.len() == 0 {
        0
    } else {
        count_lt(s.drop_last()) + if s.last().0 < s.last().1 { 1nat } else { 0nat }
    }
}

/// Number of triples whose source is their destination (self loops).
pub open spec fn count_eq<E>(s: Seq<(usize, usize, E)>) -> nat
    decreases s.len(),
{
    if s.len() == 0 {
        0
    } else {
        count_eq(s.drop_last()) + if s.last().0 == s.last().1 { 1nat } else { 0nat }
    }
}

/// Number of triples whose source is above their destination.
pub open spec fn count_gt<E>(s: Seq<(usize, usize, E)>) -> nat
    decreases s.len(),
{
    if s.len() == 0 {
        0
    } else {
        count_gt(s.drop_last()) + if s.last().0 > s.last().1 { 1nat } else { 0nat }
    }
}

/// The counts add up over a concatenation.
pub proof fn lemma_counts_add<E>(a: Seq<(usize, usize, E)>, b: Seq<(usize, usize, E)>)
    ensures
        count_lt(a + b) == count_lt(a) + count_lt(b),
        count_eq(a + b) == count_eq(a) + count_eq(b),
        count_gt(a + b) == count_gt(a) + count_gt(b),
    decreases b.len(),
{
    if b.len() > 0 {
        lemma_counts_add(a, b.drop_last());
        assert((a + b).drop_last() =~= a + b.drop_last());
        assert((a + b).last() == b.last());
    } else {
        assert(a + b =~= a);
    }
}

/// Every triple is counted once: below, equal or above.
pub proof fn lemma_counts_partition<E>(s: Seq<(usize, usize, E)>)
    ensures
        s.len() == count_lt(s) + count_eq(s) + count_gt(s),
    decreases s.len(),
{
    if s.len() > 0 {
        lemma_counts_partition(s.drop_last());
    }
}

/// Triples that all join `a` to `b` are counted by how `a` and `b` compare.
pub proof fn lemma_counts_same_ends<E>(s: Seq<(usize, usize, E)>, a: usize, b: usize)
    requires
        forall|k: int| 0 <= k < s.len() ==> (#[trigger] s[k]).0 == a && s[k].1 == b,
    ensures
        count_lt(s) == if a < b { s.len() } else { 0 },
        count_eq(s) == if a == b { s.len() } else { 0 },
        count_gt(s) == if a > b { s.len() } else { 0 },
    decreases s.len(),
{
    if s.len() > 0 {
        let p = s.drop_last();
        assert forall|k: int| 0 <= k < p.len() implies (#[trigger] p[k]).0 == a && p[k].1 == b by {
            assert(p[k] == s[k]);
        }
        lemma_counts_same_ends(p, a, b);
        assert(s.last() == s[s.len() - 1]);
    }
}

/// Keeping the triples with source at most destination keeps the ones below and the self
/// loops.
pub proof fn lemma_upper_counts<E>(s: Seq<(usize, usize, E)>)
    ensures
        upper_triples(s).len() == count_lt(s) + count_eq(s),
        count_lt(upper_triples(s)) == count_lt(s),
        count_eq(upper_triples(s)) == count_eq(s),
    decreases s.len(),
{
    if s.len() > 0 {
        lemma_upper_counts(s.drop_last());
        let u = upper_triples(s.drop_last());
        if s.last().0 <= s.last().1 {
            assert(u.push(s.last()).drop_last() =~= u);
        }
    }
}

/// `f(a, b)` summed over the `b` of `bs`.
pub open spec fn row_sum(a: usize, bs: Seq<usize>, f: spec_fn(usize, usize) -> nat) -> nat
    decreases bs.len(),
{
    if bs.len() == 0 {
        0
    } else {
        row_sum(a, bs.drop_last(), f) + f(a, bs.last())
    }
}

/// `f(a, b)` summed over the `a` of `as_` and the `b` of `bs`.
pub open spec fn pair_sum(as_: Seq<usize>, bs: Seq<usize>, f: spec_fn(usize, usize) -> nat) -> nat
    decreases as_.len(),
{
    if as_.len() == 0 {
        0
    } else {
        pair_sum(as_.drop_last(), bs, f) + row_sum(as_.last(), bs, f)
    }
}

/// Sums of equal terms are equal.
pub proof fn lemma_pair_sum_congruent(as_: Seq<usize>, bs: Seq<usize>, f: spec_fn(usize, usize) -> nat, g: spec_fn(usize, usize) -> nat)
    requires
        forall|a: usize, b: usize| #[trigger] f(a, b) == g(a, b),
    ensures
        pair_sum(as_, bs, f) == pair_sum(as_, bs, g),
    decreases as_.len(),
{
    if as_.len() > 0 {
        lemma_pair_sum_congruent(as_.drop_last(), bs, f, g);
        lemma_row_sum_congruent(as_.last(), bs, f, g);
    }
}

proof fn lemma_row_sum_congruent(a: usize, bs: Seq<usize>, f: spec_fn(usize, usize) -> nat, g: spec_fn(usize, usize) -> nat)
    requires
        forall|a: usize, b: usize| #[trigger] f(a, b) == g(a, b),
    ensures
        row_sum(a, bs, f) == row_sum(a, bs, g),
    decreases bs.len(),
{
    if bs.len() > 0 {
        lemma_row_sum_congruent(a, bs.drop_last(), f, g);
    }
}

/// `f` with its arguments swapped.
pub open spec fn flip(f: spec_fn(usize, usize) -> nat) -> spec_fn(usize, usize) -> nat {
    |b: usize, a: usize| f(a, b)
}

/// A double sum may be taken in either order.
pub proof fn lemma_pair_sum_swap(as_: Seq<usize>, bs: Seq<usize>, f: spec_fn(usize, usize) -> nat)
    ensures
        pair_sum(as_, bs, f) == pair_sum(bs, as_, flip(f)),
    decreases as_.len(),
{
    let g = flip(f);
    if as_.len() == 0 {
        lemma_pair_sum_empty_inner(bs, g);
        assert(as_ =~= Seq::<usize>::empty());
    } else {
        let rest = as_.drop_last();
        let a = as_.last();
        lemma_pair_sum_swap(rest, bs, f);
        lemma_pair_sum_push_inner(bs, rest, a, g);
        assert(rest.push(a) =~= as_);
        lemma_row_sum_as_column(a, bs, f);
        assert(pair_sum(as_, bs, f) == pair_sum(rest, bs, f) + row_sum(a, bs, f));
        assert(pair_sum(rest, bs, f) == pair_sum(bs, rest, g));
        assert(row_sum(a, bs, f) == column_sum(bs, a, g));
        assert(pair_sum(bs, rest.push(a), g) == pair_sum(bs, rest, g) + column_sum(bs, a, g));
        assert(pair_sum(bs, as_, g) == pair_sum(bs, rest.push(a), g));
    }
}

proof fn lemma_pair_sum_empty_inner(bs: Seq<usize>, g: spec_fn(usize, usize) -> nat)
    ensures
        pair_sum(bs, Seq::empty(), g) == 0,
    decreases bs.len(),
{
    if bs.len() > 0 {
        lemma_pair_sum_empty_inner(bs.drop_last(), g);
    }
}

/// The column of `a`: `g(b, a)` summed over the `b` of `bs`.
pub open spec fn column_sum(bs: Seq<usize>, a: usize, g: spec_fn(usize, usize) -> nat) -> nat
    decreases bs.len(),
{
    if bs.len() == 0 {
        0
    } else {
        column_sum(bs.drop_last(), a, g) + g(bs.last(), a)
    }
}

proof fn lemma_pair_sum_push_inner(bs: Seq<usize>, as_: Seq<usize>, a: usize, g: spec_fn(usize, usize) -> nat)
    ensures
        pair_sum(bs, as_.push(a), g) == pair_sum(bs, as_, g) + column_sum(bs, a, g),
    decreases bs.len(),
{
    if bs.len() > 0 {
        lemma_pair_sum_push_inner(bs.drop_last(), as_, a, g);
        assert(as_.push(a).drop_last() =~= as_);
        assert(as_.push(a).last() == a);
    }
}

proof fn lemma_row_sum_as_column(a: usize, bs: Seq<usize>, f: spec_fn(usize, usize) -> nat)
    ensures
        row_sum(a, bs, f) == column_sum(bs, a, flip(f)),
    decreases bs.len(),
{
    if bs.len() > 0 {
        lemma_row_sum_as_column(a, bs.drop_last(), f);
    }
}

/// Sums whose terms agree on the pairs of the sequences are equal.
pub proof fn lemma_pair_sum_congruent_on(as_: Seq<usize>, bs: Seq<usize>, f: spec_fn(usize, usize) -> nat, g: spec_fn(usize, usize) -> nat)
    requires
        forall|a: usize, b: usize| as_.contains(a) && bs.contains(b) ==> #[trigger] f(a, b) == g(a, b),
    ensures
        pair_sum(as_, bs, f) == pair_sum(as_, bs, g),
    decreases as_.len(),
{
    if as_.len() > 0 {
        let rest = as_.drop_last();
        assert forall|a: usize, b: usize| rest.contains(a) && bs.contains(b) implies #[trigger] f(a, b) == g(a, b) by {
            let k = choose|k: int| 0 <= k < rest.len() && rest[k] == a;
            assert(as_[k] == a);
        }
        lemma_pair_sum_congruent_on(rest, bs, f, g);
        assert(as_.contains(as_.last())) by {
            assert(as_[as_.len() - 1] == as_.last());
        }
        lemma_row_sum_congruent_on(as_.last(), bs, f, g);
    }
}

proof fn lemma_row_sum_congruent_on(a: usize, bs: Seq<usize>, f: spec_fn(usize, usize) -> nat, g: spec_fn(usize, usize) -> nat)
    requires
        forall|b: usize| bs.contains(b) ==> #[trigger] f(a, b) == g(a, b),
    ensures
        row_sum(a, bs, f) == row_sum(a, bs, g),
    decreases bs.len(),
{
    if bs.len() > 0 {
        let rest = bs.drop_last();
        assert forall|b: usize| rest.contains(b) implies #[trigger] f(a, b) == g(a, b) by {
            let k = choose|k: int| 0 <= k < rest.len() && rest[k] == b;
            assert(bs[k] == b);
        }
        lemma_row_sum_congruent_on(a, rest, f, g);
        assert(bs[bs.len() - 1] == bs.last());
    }
}

} // verus!
