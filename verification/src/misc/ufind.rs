use vstd::prelude::*;
use vstd::arithmetic::power2::{pow2, lemma_pow2_unfold, lemma_pow2_strictly_increases, lemma2_to64};

verus! {

/// Number of indices below `k` whose representative is `r`.
pub open spec fn class_size(reps: Seq<usize>, r: usize, k: nat) -> nat
    decreases k,
{
    if k == 0 {
        0
    } else {
        class_size(reps, r, (k - 1) as nat) + (if reps[k - 1] == r { 1nat } else { 0nat })
    }
}

proof fn lemma_class_size_pair(reps: Seq<usize>, a: usize, b: usize, k: nat)
    requires
        a != b,
    ensures
        class_size(reps, a, k) + class_size(reps, b, k) <= k,
    decreases k,
{
    if k > 0 {
        lemma_class_size_pair(reps, a, b, (k - 1) as nat);
    }
}

proof fn lemma_class_size_merge(old_reps: Seq<usize>, new_reps: Seq<usize>, a: usize, b: usize, k: nat)
    requires
        a != b,
        forall|i: int| 0 <= i < k ==> (#[trigger] new_reps[i] == a <==> (old_reps[i] == a || old_reps[i] == b)),
    ensures
        class_size(new_reps, a, k) == class_size(old_reps, a, k) + class_size(old_reps, b, k),
    decreases k,
{
    if k > 0 {
        lemma_class_size_merge(old_reps, new_reps, a, b, (k - 1) as nat);
        assert(new_reps[k - 1] == a <==> (old_reps[k - 1] == a || old_reps[k - 1] == b));
    }
}

proof fn lemma_class_size_same(old_reps: Seq<usize>, new_reps: Seq<usize>, r: usize, k: nat)
    requires
        forall|i: int| 0 <= i < k ==> (#[trigger] new_reps[i] == r <==> old_reps[i] == r),
    ensures
        class_size(new_reps, r, k) == class_size(old_reps, r, k),
    decreases k,
{
    if k > 0 {
        lemma_class_size_same(old_reps, new_reps, r, (k - 1) as nat);
        assert(new_reps[k - 1] == r <==> old_reps[k - 1] == r);
    }
}

/// `UnionFind` is a disjoint-set data structure. It tracks set membership of *n* elements
/// indexed from *0* to *n - 1*.
///
/// Its view is the sequence of representatives: element `i` belongs to the set whose
/// representative is `self@[i]`.
pub struct UnionFind {
    parent: Vec<usize>,
    rank: Vec<u8>,
    reps: Ghost<Seq<usize>>,
}

impl View for UnionFind {
    type V = Seq<usize>;

    closed spec fn view(&self) -> Seq<usize> {
        self.reps@
    }
}

impl UnionFind {
    /// The rank of each element; `union` hangs the root of lower rank below the other, and
    /// on equal ranks the root of `y` below that of `x`, whose rank then grows by one.
    pub closed spec fn spec_ranks(&self) -> Seq<u8> {
        self.rank@
    }

    /// The forest invariant: parents point inside, ranks grow strictly towards the roots,
    /// every element shares its parent's representative, representatives are roots, and a
    /// root of rank `k` represents at least `2^k` elements.
    pub closed spec fn wf(&self) -> bool {
        let n = self.parent@.len();
        let parent = self.parent@;
        let rank = self.rank@;
        let reps = self.reps@;
        &&& rank.len() == n
        &&& reps.len() == n
        &&& forall|i: int| 0 <= i < n ==> #[trigger] parent[i] < n
        &&& forall|i: int| 0 <= i < n ==> #[trigger] reps[i] < n
        &&& forall|i: int| 0 <= i < n && #[trigger] parent[i] != i ==> rank[i] < rank[parent[i] as int]
        &&& forall|i: int| 0 <= i < n ==> #[trigger] reps[parent[i] as int] == reps[i]
        &&& forall|i: int| 0 <= i < n && #[trigger] parent[i] == i ==> reps[i] == i
        &&& forall|i: int| 0 <= i < n ==> #[trigger] parent[reps[i] as int] == reps[i]
        &&& forall|r: int| 0 <= r < n && #[trigger] parent[r] == r ==>
                pow2(rank[r] as nat) <= class_size(reps, r as usize, n)
    }

    /// Create a new `UnionFind` of `n` disjoint sets.
    pub fn new(n: usize) -> (uf: Self)
        ensures
            uf.wf(),
            uf@.len() == n,
            forall|i: int| 0 <= i < n ==> #[trigger] uf@[i] == i,
            uf.spec_ranks() == Seq::new(n as nat, |i: int| 0u8),
    {
        let mut parent: Vec<usize> = Vec::new();
        let mut rank: Vec<u8> = Vec::new();
        let mut i: usize = 0;
        while i < n
            invariant
                i <= n,
                parent@.len() == i,
                rank@.len() == i,
                forall|j: int| 0 <= j < i ==> #[trigger] parent@[j] == j,
                forall|j: int| 0 <= j < i ==> #[trigger] rank@[j] == 0,
            decreases n - i,
        {
            parent.push(i);
            rank.push(0);
            i = i + 1;
        }
        let ghost reps = Seq::new(n as nat, |j: int| j as usize);
        proof {
            lemma2_to64();
            assert forall|r: int| 0 <= r < n && #[trigger] parent@[r] == r implies
                pow2(rank@[r] as nat) <= class_size(reps, r as usize, n as nat) by {
                Self::lemma_identity_class(reps, r, n as nat);
            }
        }
        assert(rank@ =~= Seq::new(n as nat, |i: int| 0u8));
        UnionFind { parent, rank, reps: Ghost(reps) }
    }

    /// A representative lies inside and represents itself.
    pub proof fn lemma_rep_is_own_rep(&self, x: int)
        requires
            self.wf(),
            0 <= x < self@.len(),
        ensures
            self@[x] < self@.len(),
            self@[self@[x] as int] == self@[x],
    {
        let r = self.reps@[x] as int;
        assert(self.parent@[r] == r);
    }

    proof fn lemma_identity_class(reps: Seq<usize>, r: int, k: nat)
        requires
            forall|j: int| 0 <= j < reps.len() ==> #[trigger] reps[j] == j,
            0 <= r < k <= reps.len(),
        ensures
            class_size(reps, r as usize, k) >= 1,
        decreases k,
    {
        if k - 1 > r {
            Self::lemma_identity_class(reps, r, (k - 1) as nat);
        }
        assert(pow2(0) == 1) by { lemma2_to64(); }
    }

    /// Return the representative for `x`.
    ///
    /// The caller must pass `x < n`.
    pub fn find(&self, x: usize) -> (r: usize)
        requires
            self.wf(),
            x < self@.len(),
        ensures
            r == self@[x as int],
            r < self@.len(),
            self@[r as int] == r,
    {
        proof { self.lemma_rep_is_own_rep(x as int); }
        let n = self.parent.len();
        let ghost x0 = x;
        let mut x = x;
        let mut xparent = self.parent[x];
        while xparent != x
            invariant
                self.wf(),
                n == self.parent@.len(),
                x < n,
                xparent == self.parent@[x as int],
                self.reps@[x as int] == self.reps@[x0 as int],
            decreases 256 - self.rank@[x as int],
        {
            x = xparent;
            xparent = self.parent[x];
        }
        x
    }

    /// Return the representative for `x`, writing back grandparents along the way
    /// (path halving), which flattens the internal structure and quickens future lookups.
    /// The sets themselves are unchanged.
    pub fn find_mut(&mut self, x: usize) -> (r: usize)
        requires
            old(self).wf(),
            x < old(self)@.len(),
        ensures
            final(self).wf(),
            final(self)@ == old(self)@,
            final(self).spec_ranks() == old(self).spec_ranks(),
            r == old(self)@[x as int],
            r < old(self)@.len(),
            old(self)@[r as int] == r,
    {
        proof { self.lemma_rep_is_own_rep(x as int); }
        let n = self.parent.len();
        let ghost x0 = x;
        let mut x = x;
        let mut parent = self.parent[x];
        while parent != x
            invariant
                self.wf(),
                n == self.parent@.len(),
                x < n,
                parent == self.parent@[x as int],
                self.reps@ == old(self).reps@,
                self.rank@ == old(self).rank@,
                self.reps@[x as int] == self.reps@[x0 as int],
            decreases 256 - self.rank@[x as int],
        {
            let grandparent = self.parent[parent];
            proof {
                let reps = self.reps@;
                assert(reps[parent as int] == reps[x as int]);
                assert(reps[grandparent as int] == reps[parent as int]);
            }
            let ghost old_parent = self.parent@;
            self.parent.set(x, grandparent);
            proof {
                let parent_s = self.parent@;
                let rank = self.rank@;
                let reps = self.reps@;
                assert(reps[x as int] != x);
                assert forall|i: int| 0 <= i < n && #[trigger] parent_s[i] != i implies
                    rank[i] < rank[parent_s[i] as int] by {
                    if i == x {
                        if grandparent != parent {
                            assert(old_parent[parent as int] != parent);
                        }
                    } else {
                        assert(old_parent[i] == parent_s[i]);
                    }
                }
                assert forall|i: int| 0 <= i < n implies #[trigger] reps[parent_s[i] as int] == reps[i] by {
                    if i != x {
                        assert(old_parent[i] == parent_s[i]);
                    }
                }
                assert forall|i: int| 0 <= i < n implies #[trigger] parent_s[reps[i] as int] == reps[i] by {
                    assert(old_parent[reps[i] as int] == reps[i]);
                }
                assert forall|r: int| 0 <= r < n && #[trigger] parent_s[r] == r implies
                    pow2(rank[r] as nat) <= class_size(reps, r as usize, n as nat) by {
                    assert(old_parent[r] == r);
                }
            }
            x = parent;
            parent = grandparent;
        }
        x
    }

    /// Returns `true` if the given elements belong to the same set, and returns
    /// `false` otherwise.
    pub fn equiv(&self, x: usize, y: usize) -> (b: bool)
        requires
            self.wf(),
            x < self@.len(),
            y < self@.len(),
        ensures
            b == (self@[x as int] == self@[y as int]),
    {
        self.find(x) == self.find(y)
    }

    /// Unify the two sets containing `x` and `y`.
    ///
    /// Returns `false` if the sets were already the same, `true` if they were unified.
    ///
    /// The caller must pass `x < n` and `y < n`.
    pub fn union(&mut self, x: usize, y: usize) -> (unified: bool)
        requires
            old(self).wf(),
            x < old(self)@.len(),
            y < old(self)@.len(),
        ensures
            final(self).wf(),
            final(self)@.len() == old(self)@.len(),
            unified == (x != y && old(self)@[x as int] != old(self)@[y as int]),
            !unified ==> final(self)@ == old(self)@,
            final(self)@[x as int] == final(self)@[y as int],
            forall|i: int, j: int|
                0 <= i < old(self)@.len() && 0 <= j < old(self)@.len() && old(self)@[i] == old(self)@[j]
                    ==> #[trigger] final(self)@[i] == #[trigger] final(self)@[j],
            !unified ==> final(self).spec_ranks() == old(self).spec_ranks(),
            unified ==> {
                let rx = old(self)@[x as int];
                let ry = old(self)@[y as int];
                let kx = old(self).spec_ranks()[rx as int];
                let ky = old(self).spec_ranks()[ry as int];
                &&& final(self)@[x as int] == final(self)@[y as int]
                &&& final(self)@[x as int] == (if kx < ky { ry } else { rx })
                &&& final(self).spec_ranks() == (if kx == ky {
                        old(self).spec_ranks().update(rx as int, (kx + 1) as u8)
                    } else {
                        old(self).spec_ranks()
                    })
                &&& forall|i: int| 0 <= i < old(self)@.len() ==> #[trigger] final(self)@[i] == (
                    if old(self)@[i] == rx || old(self)@[i] == ry {
                        final(self)@[x as int]
                    } else {
                        old(self)@[i]
                    })
            },
    {
        if x == y {
            return false;
        }
        let xrep = self.find_mut(x);
        let yrep = self.find_mut(y);

        if xrep == yrep {
            return false;
        }
        let n = self.parent.len();
        let xrank = self.rank[xrep];
        let yrank = self.rank[yrep];
        let ghost old_reps = self.reps@;
        let ghost old_parent = self.parent@;
        let ghost old_rank = self.rank@;
        proof {
            assert(old_parent[xrep as int] == xrep);
            assert(old_parent[yrep as int] == yrep);
        }

        // The rank corresponds roughly to the depth of the tree, so put the
        // smaller set below the larger.
        if xrank < yrank {
            self.parent.set(xrep, yrep);
            self.reps = Ghost(Seq::new(n as nat, |i: int| if old_reps[i] == xrep { yrep } else { old_reps[i] }));
            proof { self.lemma_link_preserves(old_parent, old_rank, old_reps, xrep, yrep); }
        } else if yrank < xrank {
            self.parent.set(yrep, xrep);
            self.reps = Ghost(Seq::new(n as nat, |i: int| if old_reps[i] == yrep { xrep } else { old_reps[i] }));
            proof { self.lemma_link_preserves(old_parent, old_rank, old_reps, yrep, xrep); }
        } else {
            proof {
                lemma_class_size_pair(old_reps, xrep, yrep, n as nat);
                let k = xrank as nat;
                assert(pow2(k) <= class_size(old_reps, xrep, n as nat));
                assert(pow2(k) <= class_size(old_reps, yrep, n as nat));
                assert(pow2(k + 1) == 2 * pow2(k)) by { lemma_pow2_unfold(k + 1); }
                assert(pow2(k + 1) <= n);
                lemma2_to64();
                if k + 1 >= 64 {
                    if k + 1 > 64 {
                        lemma_pow2_strictly_increases(64, k + 1);
                    }
                    assert(false);
                }
            }
            self.parent.set(yrep, xrep);
            self.rank.set(xrep, xrank + 1);
            self.reps = Ghost(Seq::new(n as nat, |i: int| if old_reps[i] == yrep { xrep } else { old_reps[i] }));
            proof { self.lemma_link_equal_preserves(old_parent, old_rank, old_reps, yrep, xrep); }
        }
        true
    }

    proof fn lemma_link_preserves(
        &self,
        old_parent: Seq<usize>,
        old_rank: Seq<u8>,
        old_reps: Seq<usize>,
        child: usize,
        root: usize,
    )
        requires
            ({
                let n = old_parent.len();
                &&& old_rank.len() == n
                &&& old_reps.len() == n
                &&& forall|i: int| 0 <= i < n ==> #[trigger] old_parent[i] < n
                &&& forall|i: int| 0 <= i < n ==> #[trigger] old_reps[i] < n
                &&& forall|i: int| 0 <= i < n && #[trigger] old_parent[i] != i ==> old_rank[i] < old_rank[old_parent[i] as int]
                &&& forall|i: int| 0 <= i < n ==> #[trigger] old_reps[old_parent[i] as int] == old_reps[i]
                &&& forall|i: int| 0 <= i < n && #[trigger] old_parent[i] == i ==> old_reps[i] == i
                &&& forall|i: int| 0 <= i < n ==> #[trigger] old_parent[old_reps[i] as int] == old_reps[i]
                &&& forall|r: int| 0 <= r < n && #[trigger] old_parent[r] == r ==>
                        pow2(old_rank[r] as nat) <= class_size(old_reps, r as usize, n)
            }),
            child < old_parent.len(),
            root < old_parent.len(),
            child != root,
            old_parent[child as int] == child,
            old_parent[root as int] == root,
            old_rank[child as int] < old_rank[root as int],
            self.parent@ == old_parent.update(child as int, root),
            self.rank@ == old_rank,
            self.reps@ == Seq::new(old_parent.len(), |i: int| if old_reps[i] == child { root } else { old_reps[i] }),
        ensures
            self.wf(),
    {
        let n = old_parent.len();
        let parent = self.parent@;
        let reps = self.reps@;
        let rank = self.rank@;
        assert(old_reps[child as int] == child);
        assert(old_reps[root as int] == root);
        assert forall|i: int| 0 <= i < n && #[trigger] parent[i] != i implies rank[i] < rank[parent[i] as int] by {
            if i != child {
                assert(old_parent[i] == parent[i]);
            }
        }
        assert forall|i: int| 0 <= i < n implies #[trigger] reps[parent[i] as int] == reps[i] by {
            if i != child {
                assert(old_reps[old_parent[i] as int] == old_reps[i]);
            }
        }
        assert forall|i: int| 0 <= i < n && #[trigger] parent[i] == i implies reps[i] == i by {
            assert(old_parent[i] == i);
        }
        assert forall|i: int| 0 <= i < n implies #[trigger] parent[reps[i] as int] == reps[i] by {
            assert(old_parent[old_reps[i] as int] == old_reps[i]);
        }
        assert forall|r: int| 0 <= r < n && #[trigger] parent[r] == r implies
            pow2(rank[r] as nat) <= class_size(reps, r as usize, n) by {
            assert(old_parent[r] == r);
            if r == root {
                lemma_class_size_merge(old_reps, reps, root, child, n);
            } else {
                assert forall|i: int| 0 <= i < n implies (#[trigger] reps[i] == r as usize <==> old_reps[i] == r as usize) by {}
                lemma_class_size_same(old_reps, reps, r as usize, n);
            }
        }
    }

    proof fn lemma_link_equal_preserves(
        &self,
        old_parent: Seq<usize>,
        old_rank: Seq<u8>,
        old_reps: Seq<usize>,
        child: usize,
        root: usize,
    )
        requires
            ({
                let n = old_parent.len();
                &&& old_rank.len() == n
                &&& old_reps.len() == n
                &&& forall|i: int| 0 <= i < n ==> #[trigger] old_parent[i] < n
                &&& forall|i: int| 0 <= i < n ==> #[trigger] old_reps[i] < n
                &&& forall|i: int| 0 <= i < n && #[trigger] old_parent[i] != i ==> old_rank[i] < old_rank[old_parent[i] as int]
                &&& forall|i: int| 0 <= i < n ==> #[trigger] old_reps[old_parent[i] as int] == old_reps[i]
                &&& forall|i: int| 0 <= i < n && #[trigger] old_parent[i] == i ==> old_reps[i] == i
                &&& forall|i: int| 0 <= i < n ==> #[trigger] old_parent[old_reps[i] as int] == old_reps[i]
                &&& forall|r: int| 0 <= r < n && #[trigger] old_parent[r] == r ==>
                        pow2(old_rank[r] as nat) <= class_size(old_reps, r as usize, n)
            }),
            child < old_parent.len(),
            root < old_parent.len(),
            child != root,
            old_parent[child as int] == child,
            old_parent[root as int] == root,
            old_rank[child as int] == old_rank[root as int],
            old_rank[root as int] < 255,
            self.parent@ == old_parent.update(child as int, root),
            self.rank@ == old_rank.update(root as int, (old_rank[root as int] + 1) as u8),
            self.reps@ == Seq::new(old_parent.len(), |i: int| if old_reps[i] == child { root } else { old_reps[i] }),
        ensures
            self.wf(),
    {
        let n = old_parent.len();
        let parent = self.parent@;
        let reps = self.reps@;
        let rank = self.rank@;
        assert(old_reps[child as int] == child);
        assert(old_reps[root as int] == root);
        assert forall|i: int| 0 <= i < n && #[trigger] parent[i] != i implies rank[i] < rank[parent[i] as int] by {
            if i != child {
                assert(old_parent[i] == parent[i]);
                assert(i != root);
            }
        }
        assert forall|i: int| 0 <= i < n implies #[trigger] reps[parent[i] as int] == reps[i] by {
            if i != child {
                assert(old_reps[old_parent[i] as int] == old_reps[i]);
            }
        }
        assert forall|i: int| 0 <= i < n && #[trigger] parent[i] == i implies reps[i] == i by {
            assert(old_parent[i] == i);
        }
        assert forall|i: int| 0 <= i < n implies #[trigger] parent[reps[i] as int] == reps[i] by {
            assert(old_parent[old_reps[i] as int] == old_reps[i]);
        }
        assert forall|r: int| 0 <= r < n && #[trigger] parent[r] == r implies
            pow2(rank[r] as nat) <= class_size(reps, r as usize, n) by {
            assert(old_parent[r] == r);
            if r == root {
                lemma_class_size_merge(old_reps, reps, root, child, n);
                let k = old_rank[root as int] as nat;
                lemma_pow2_unfold(k + 1);
            } else {
                assert forall|i: int| 0 <= i < n implies (#[trigger] reps[i] == r as usize <==> old_reps[i] == r as usize) by {}
                lemma_class_size_same(old_reps, reps, r as usize, n);
            }
        }
    }
}

/// Being in the same set, as `equiv` answers it, is an equivalence relation: reflexive,
/// symmetric and transitive.
pub proof fn lemma_same_set_is_equivalence(reps: Seq<usize>, x: int, y: int, z: int)
    requires
        0 <= x < reps.len(),
        0 <= y < reps.len(),
        0 <= z < reps.len(),
    ensures
        reps[x] == reps[x],
        (reps[x] == reps[y]) == (reps[y] == reps[x]),
        reps[x] == reps[y] && reps[y] == reps[z] ==> reps[x] == reps[z],
{
}

} // verus!
