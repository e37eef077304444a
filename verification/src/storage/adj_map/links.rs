use vstd::prelude::*;

use crate::provide::Orientation;
use crate::storage::adj_map::index::LinkList;

verus! {

/// Whether `l` holds a link to `n`.
pub open spec fn links_to(l: Seq<(usize, Orientation)>, n: usize) -> bool {
    exists|k: int| 0 <= k < l.len() && (#[trigger] l[k]).0 == n
}

/// The links of `l` to nodes other than `n`, in order.
pub open spec fn links_without(l: Seq<(usize, Orientation)>, n: usize) -> Seq<(usize, Orientation)>
    decreases l.len(),
{
    if l.len() == 0 {
        Seq::empty()
    } else {
        let prev = links_without(l.drop_last(), n);
        if l.last().0 == n {
            prev
        } else {
            prev.push(l.last())
        }
    }
}

/// A link survives `links_without` exactly when it does not point to `n`; dropping the links
/// to a node `l` does not link to changes nothing, and dropping twice is dropping once.
pub proof fn lemma_links_without(l: Seq<(usize, Orientation)>, n: usize)
    ensures
        forall|x: (usize, Orientation)| #[trigger] links_without(l, n).contains(x) <==> (l.contains(x) && x.0 != n),
        forall|m: usize| #[trigger] links_to(links_without(l, n), m) <==> (links_to(l, m) && m != n),
        !links_to(l, n) ==> links_without(l, n) == l,
        links_without(links_without(l, n), n) == links_without(l, n),
    decreases l.len(),
{
    lemma_links_without_members(l, n);
    lemma_links_without_noop(l, n);
    lemma_links_without_noop(links_without(l, n), n);
}

proof fn lemma_links_without_noop(l: Seq<(usize, Orientation)>, n: usize)
    ensures
        !links_to(l, n) ==> links_without(l, n) == l,
    decreases l.len(),
{
    if l.len() > 0 && !links_to(l, n) {
        let prev = l.drop_last();
        assert(!links_to(prev, n)) by {
            if links_to(prev, n) {
                let k = choose|k: int| 0 <= k < prev.len() && (#[trigger] prev[k]).0 == n;
                assert(l[k] == prev[k]);
            }
        }
        lemma_links_without_noop(prev, n);
        assert(l.last() == l[l.len() - 1]);
        assert(l =~= prev.push(l.last()));
    } else if l.len() == 0 {
        assert(links_without(l, n) =~= l);
    }
}

proof fn lemma_links_without_members(l: Seq<(usize, Orientation)>, n: usize)
    ensures
        forall|x: (usize, Orientation)| #[trigger] links_without(l, n).contains(x) <==> (l.contains(x) && x.0 != n),
        forall|m: usize| #[trigger] links_to(links_without(l, n), m) <==> (links_to(l, m) && m != n),
    decreases l.len(),
{
    if l.len() > 0 {
        let prev = l.drop_last();
        lemma_links_without_members(prev, n);
        let w = links_without(l, n);
        let wp = links_without(prev, n);
        assert forall|x: (usize, Orientation)| #[trigger] w.contains(x) <==> (l.contains(x) && x.0 != n) by {
            if l.contains(x) && x.0 != n {
                let k = choose|k: int| 0 <= k < l.len() && l[k] == x;
                if k < prev.len() {
                    assert(prev[k] == x);
                    assert(prev.contains(x));
                    assert(wp.contains(x));
                    let k2 = choose|k2: int| 0 <= k2 < wp.len() && wp[k2] == x;
                    assert(w[k2] == x);
                } else {
                    assert(w[w.len() - 1] == x);
                }
            }
            if w.contains(x) {
                let k = choose|k: int| 0 <= k < w.len() && w[k] == x;
                if k < wp.len() {
                    assert(w[k] == wp[k]);
                    assert(wp.contains(x));
                    let k2 = choose|k2: int| 0 <= k2 < prev.len() && prev[k2] == x;
                    assert(l[k2] == x);
                } else {
                    assert(l[l.len() - 1] == x);
                }
            }
        }
        assert forall|m: usize| #[trigger] links_to(w, m) <==> (links_to(l, m) && m != n) by {
            if links_to(w, m) {
                let k = choose|k: int| 0 <= k < w.len() && (#[trigger] w[k]).0 == m;
                assert(w.contains(w[k]));
                assert(l.contains(w[k]));
                let k2 = choose|k2: int| 0 <= k2 < l.len() && l[k2] == w[k];
                assert(l[k2].0 == m);
            }
            if links_to(l, m) && m != n {
                let k = choose|k: int| 0 <= k < l.len() && (#[trigger] l[k]).0 == m;
                assert(l.contains(l[k]));
                assert(w.contains(l[k]));
                let k2 = choose|k2: int| 0 <= k2 < w.len() && w[k2] == l[k];
                assert(w[k2].0 == m);
            }
        }
    }
}

/// A link appended to `l` links to its own node and nothing else.
pub proof fn lemma_links_to_push(l: Seq<(usize, Orientation)>, x: (usize, Orientation), m: usize)
    ensures
        links_to(l.push(x), m) <==> (links_to(l, m) || x.0 == m),
{
    let l2 = l.push(x);
    if links_to(l2, m) {
        let k = choose|k: int| 0 <= k < l2.len() && (#[trigger] l2[k]).0 == m;
        if k < l.len() {
            assert(l[k] == l2[k]);
        }
    }
    if links_to(l, m) {
        let k = choose|k: int| 0 <= k < l.len() && (#[trigger] l[k]).0 == m;
        assert(l2[k] == l[k]);
    }
    if x.0 == m {
        assert(l2[l.len() as int] == x);
    }
}

/// Removes the links to `n` from `l`, keeping the order of the others.
pub(crate) fn drop_links_to(l: &mut LinkList, n: usize)
    ensures
        final(l)@ == links_without(old(l)@, n),
{
    let mut kept: LinkList = Vec::new();
    let mut i: usize = 0;
    let len = l.len();
    while i < len
        invariant
            len == l@.len(),
            i <= len,
            l@ == old(l)@,
            kept@ == links_without(l@.take(i as int), n),
        decreases len - i,
    {
        let link = l[i];
        proof {
            assert(l@.take(i as int + 1).drop_last() =~= l@.take(i as int));
        }
        if link.0 != n {
            kept.push(link);
        }
        i = i + 1;
    }
    proof {
        assert(l@.take(len as int) =~= l@);
    }
    *l = kept;
}

/// `Orientation`s compare by variant.
pub(crate) fn same_orientation(a: Orientation, b: Orientation) -> (r: bool)
    ensures
        r == (a == b),
{
    match (a, b) {
        (Orientation::Incoming, Orientation::Incoming) => true,
        (Orientation::Outgoing, Orientation::Outgoing) => true,
        _ => false,
    }
}

} // verus!
