use vstd::prelude::*;

verus! {

/// `tri(n) = 0 + 1 + ... + n`.
pub open spec fn tri(n: nat) -> nat
    decreases n,
{
    if n == 0 {
        0
    } else {
        tri((n - 1) as nat) + n
    }
}

/// The flat index that `from_ij` computes for the pair `(i, j)`.
///
/// * Directed: with `k = max(i, j)`, the index is `(k - i) + j + k * k`. Row and column `k`
///   together with the diagonal slot `(k, k)` occupy the block `k * k .. (k + 1) * (k + 1)`,
///   so that adding a vertex only ever appends to the flat vector.
/// * Undirected: the pair is sorted so that `i >= j`, and the lower triangle is stored row by
///   row: the index is `tri(i) + j`.
pub open spec fn spec_from_ij(i: nat, j: nat, is_directed: bool) -> nat {
    if is_directed {
        let k = if i > j { i } else { j };
        ((k - i) + j + k * k) as nat
    } else {
        let (a, b) = if j > i { (j, i) } else { (i, j) };
        tri(a) + b
    }
}

/// Number of slots a matrix of `t` vertices needs: `t * t` when directed and
/// `t * (t + 1) / 2` (the lower triangle with the diagonal) when undirected.
pub open spec fn matrix_len(t: nat, is_directed: bool) -> nat {
    if is_directed {
        t * t
    } else {
        tri(t)
    }
}

/// The arithmetic of `from_ij` stays within `usize`.
pub open spec fn from_ij_fits(i: usize, j: usize, is_directed: bool) -> bool {
    let k = if i > j { i } else { j };
    if is_directed {
        (k + 1) * (k + 1) <= usize::MAX + 1
    } else {
        k * (k + 1) <= usize::MAX
    }
}

/// `2 * tri(n) == n * (n + 1)`.
pub proof fn lemma_tri_closed_form(n: nat)
    ensures
        2 * tri(n) == n * (n + 1),
    decreases n,
{
    if n == 0 {
        assert(n * (n + 1) == 0) by (nonlinear_arith)
            requires n == 0;
    } else {
        let m = (n - 1) as nat;
        lemma_tri_closed_form(m);
        assert(m * (m + 1) + 2 * n == n * (n + 1)) by (nonlinear_arith)
            requires m + 1 == n;
        assert(tri(n) == tri(m) + n);
    }
}

/// `tri` is monotonic, and strictly so with a gap of at least `a + 1` after `a`.
pub proof fn lemma_tri_monotone(a: nat, b: nat)
    requires
        a < b,
    ensures
        tri(a) + a < tri(b),
    decreases b,
{
    if b > a + 1 {
        lemma_tri_monotone(a, (b - 1) as nat);
    }
}

/// Mapping a valid pair of vertices lands inside the matrix.
pub proof fn lemma_from_ij_bound(i: nat, j: nat, t: nat, is_directed: bool)
    requires
        i < t,
        j < t,
    ensures
        spec_from_ij(i, j, is_directed) < matrix_len(t, is_directed),
{
    let k = if i > j { i } else { j };
    if is_directed {
        assert((k + 1) * (k + 1) <= t * t) by (nonlinear_arith)
            requires k < t;
        assert(((k - i) + j + k * k) < (k + 1) * (k + 1)) by (nonlinear_arith)
            requires k == i || k == j, i <= k, j <= k;
    } else {
        let (a, b) = if j > i { (j, i) } else { (i, j) };
        lemma_tri_monotone(a, t);
    }
}

/// `from_ij` is one to one: for directed matrices on ordered pairs, for undirected matrices on
/// unordered pairs.
pub proof fn lemma_from_ij_injective(i1: nat, j1: nat, i2: nat, j2: nat, is_directed: bool)
    requires
        spec_from_ij(i1, j1, is_directed) == spec_from_ij(i2, j2, is_directed),
    ensures
        is_directed ==> i1 == i2 && j1 == j2,
        !is_directed ==> (i1 == i2 && j1 == j2) || (i1 == j2 && j1 == i2),
{
    if is_directed {
        let k1 = if i1 > j1 { i1 } else { j1 };
        let k2 = if i2 > j2 { i2 } else { j2 };
        let f1 = (k1 - i1) + j1 + k1 * k1;
        let f2 = (k2 - i2) + j2 + k2 * k2;
        assert(k1 * k1 <= f1 < (k1 + 1) * (k1 + 1)) by (nonlinear_arith)
            requires k1 == i1 || k1 == j1, i1 <= k1, j1 <= k1, f1 == (k1 - i1) + j1 + k1 * k1;
        assert(k2 * k2 <= f2 < (k2 + 1) * (k2 + 1)) by (nonlinear_arith)
            requires k2 == i2 || k2 == j2, i2 <= k2, j2 <= k2, f2 == (k2 - i2) + j2 + k2 * k2;
        if k1 < k2 {
            assert((k1 + 1) * (k1 + 1) <= k2 * k2) by (nonlinear_arith)
                requires k1 < k2;
        } else if k2 < k1 {
            assert((k2 + 1) * (k2 + 1) <= k1 * k1) by (nonlinear_arith)
                requires k2 < k1;
        }
        assert(k1 == k2);
    } else {
        let (a1, b1) = if j1 > i1 { (j1, i1) } else { (i1, j1) };
        let (a2, b2) = if j2 > i2 { (j2, i2) } else { (i2, j2) };
        if a1 < a2 {
            lemma_tri_monotone(a1, a2);
        } else if a2 < a1 {
            lemma_tri_monotone(a2, a1);
        }
        assert(a1 == a2);
    }
}

/// An undirected matrix stores `(i, j)` and `(j, i)` in the same slot.
pub proof fn lemma_from_ij_symmetric(i: nat, j: nat)
    ensures
        spec_from_ij(i, j, false) == spec_from_ij(j, i, false),
{
}

/// Growing the matrix by one vertex appends `2t + 1` slots (directed) or `t + 1` slots
/// (undirected).
pub proof fn lemma_matrix_len_step(t: nat, is_directed: bool)
    ensures
        matrix_len(t + 1, is_directed) == matrix_len(t, is_directed) + (if is_directed { 2 * t + 1 } else { t + 1 }),
{
    if is_directed {
        assert((t + 1) * (t + 1) == t * t + 2 * t + 1) by (nonlinear_arith);
    }
}

/// Maps `(i, j)` into the corresponding index in a flat vector.
///
/// Directed matrices store row `k`, column `k` and the diagonal slot `(k, k)` in one block at
/// the end of the vector, so that adding a vertex only appends; undirected matrices store
/// the lower triangle row by row.
pub fn from_ij(i: usize, j: usize, is_directed: bool) -> (index: usize)
    requires
        from_ij_fits(i, j, is_directed),
    ensures
        index == spec_from_ij(i as nat, j as nat, is_directed),
{
    let mut i = i;
    let mut j = j;
    if is_directed {
        let k = if i > j { i } else { j };
        assert(k * k + 2 * k <= usize::MAX) by (nonlinear_arith)
            requires (k + 1) * (k + 1) <= usize::MAX + 1;
        (k - i) + j + k * k
    } else {
        if j > i {
            let tmp = i;
            i = j;
            j = tmp;
        }
        proof {
            lemma_tri_closed_form(i as nat);
        }
        let prod: usize = i * (i + 1);
        assert(prod >> 1 == prod / 2) by (bit_vector);
        assert(prod / 2 == tri(i as nat));
        assert(tri(i as nat) + j <= usize::MAX) by (nonlinear_arith)
            requires 2 * tri(i as nat) == i * (i + 1), j <= i, i * (i + 1) <= usize::MAX;
        (prod >> 1) + j
    }
}

} // verus!

verus! {

/// Every pair of vertices of a matrix whose length fits in `isize` can be mapped without
/// overflow.
pub proof fn lemma_from_ij_fits(i: usize, j: usize, t: nat, is_directed: bool)
    requires
        i < t,
        j < t,
        matrix_len(t, is_directed) <= isize::MAX,
    ensures
        from_ij_fits(i, j, is_directed),
{
    let k: nat = if i > j { i as nat } else { j as nat };
    if is_directed {
        assert((k + 1) * (k + 1) <= t * t) by (nonlinear_arith)
            requires k < t;
    } else {
        lemma_tri_closed_form(k);
        lemma_tri_monotone(k, t);
    }
}

} // verus!

verus! {

/// A pair whose larger vertex is `k` lands at or after the slots of a matrix of `k` vertices.
pub proof fn lemma_from_ij_lower(i: nat, j: nat, is_directed: bool)
    ensures
        spec_from_ij(i, j, is_directed) >= matrix_len(if i > j { i } else { j }, is_directed),
{
}

/// A matrix of `t` vertices has at least `t` slots.
pub proof fn lemma_matrix_len_ge(t: nat, is_directed: bool)
    ensures
        matrix_len(t, is_directed) >= t,
    decreases t,
{
    if is_directed {
        if t > 0 {
            assert(t * t >= t) by (nonlinear_arith)
                requires t > 0;
        }
    } else if t > 0 {
        lemma_matrix_len_ge((t - 1) as nat, is_directed);
    }
}

/// Every slot of a matrix of `t` vertices belongs to a pair of vertices: together with
/// `lemma_from_ij_bound` and `lemma_from_ij_injective`, `from_ij` maps the pairs (ordered when
/// directed, with `j <= i` when undirected) one to one onto the slots.
pub proof fn lemma_from_ij_onto(idx: nat, t: nat, is_directed: bool) -> (ij: (nat, nat))
    requires
        idx < matrix_len(t, is_directed),
    ensures
        ij.0 < t,
        ij.1 < t,
        !is_directed ==> ij.1 <= ij.0,
        spec_from_ij(ij.0, ij.1, is_directed) == idx,
    decreases t,
{
    let k = (t - 1) as nat;
    if t == 0 {
        assert(t * t == 0) by (nonlinear_arith)
            requires t == 0;
        assert(false);
        (0, 0)
    } else {
        lemma_matrix_len_step(k, is_directed);
        if idx < matrix_len(k, is_directed) {
            lemma_from_ij_onto(idx, k, is_directed)
        } else if is_directed {
            let o = (idx - k * k) as nat;
            if o <= k {
                assert(spec_from_ij(k, o, true) == (k - k) + o + k * k);
                (k, o)
            } else {
                let i = (2 * k - o) as nat;
                assert(spec_from_ij(i, k, true) == (k - i) + k + k * k);
                (i, k)
            }
        } else {
            let o = (idx - tri(k)) as nat;
            assert(spec_from_ij(k, o, false) == tri(k) + o);
            (k, o)
        }
    }
}

} // verus!
