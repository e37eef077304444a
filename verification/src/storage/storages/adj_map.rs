use vstd::prelude::*;
use std::collections::{HashMap, HashSet};
use core::marker::PhantomData;

use crate::storage::edge::{Direction, Edge};
use crate::provide::{CheckedMutVertices, CheckedVertices, Edges, MutEdges, MutVertices, Vertices};
use crate::storage::token::UsizeTokenProvider;

verus! {

broadcast use vstd::std_specs::hash::group_hash_axioms;

/// Adjacency of one vertex: other vertex to the tokens of the edges between them.
pub type Links = HashMap<usize, Vec<usize>>;

/// The elements of `s` other than `t`, in order.
pub open spec fn without_token(s: Seq<usize>, t: usize) -> Seq<usize>
    decreases s.len(),
{
    if s.len() == 0 {
        Seq::empty()
    } else {
        let prev = without_token(s.drop_last(), t);
        if s.last() == t {
            prev
        } else {
            prev.push(s.last())
        }
    }
}

/// An element survives `without_token` exactly when it is not `t`.
pub proof fn lemma_without_token(s: Seq<usize>, t: usize)
    ensures
        forall|x: usize| without_token(s, t).contains(x) <==> (s.contains(x) && x != t),
        s.no_duplicates() ==> without_token(s, t).no_duplicates(),
        without_token(s, t).len() <= s.len(),
    decreases s.len(),
{
    if s.len() > 0 {
        let prev = s.drop_last();
        lemma_without_token(prev, t);
        let w = without_token(s, t);
        let wp = without_token(prev, t);
        assert forall|x: usize| w.contains(x) <==> (s.contains(x) && x != t) by {
            if s.contains(x) && x != t {
                let k = choose|k: int| 0 <= k < s.len() && s[k] == x;
                if k < prev.len() {
                    assert(prev[k] == x);
                    assert(prev.contains(x));
                    assert(wp.contains(x));
                    let k2 = choose|k2: int| 0 <= k2 < wp.len() && wp[k2] == x;
                    assert(w[k2] == x);
                } else {
                    assert(w[w.len() - 1] == x);
                }
            }
            if w.contains(x) {
                let k = choose|k: int| 0 <= k < w.len() && w[k] == x;
                if k < wp.len() {
                    assert(w[k] == wp[k]);
                    assert(wp.contains(x));
                    assert(prev.contains(x));
                    let k2 = choose|k2: int| 0 <= k2 < prev.len() && prev[k2] == x;
                    assert(s[k2] == x);
                } else {
                    assert(s[s.len() - 1] == x);
                }
            }
        }
        if s.no_duplicates() {
            assert(prev.no_duplicates());
            if s.last() != t {
                assert(!prev.contains(s.last()));
                assert(!wp.contains(s.last()));
                assert forall|i: int, j: int| 0 <= i < j < w.len() implies w[i] != w[j] by {
                    if j == w.len() - 1 {
                        assert(wp.contains(w[i])) by {
                            assert(wp[i] == w[i]);
                        }
                    } else {
                        assert(w[i] == wp[i] && w[j] == wp[j]);
                    }
                }
            }
        }
    }
}

// Appends token `t` to the list of `b` in the links of `a`, creating the list if needed.
fn push_token(m: &mut HashMap<usize, Links>, a: usize, b: usize, t: usize)
    requires
        old(m)@.contains_key(a),
    ensures
        final(m)@.dom() == old(m)@.dom(),
        forall|x: usize| x != a && old(m)@.contains_key(x) ==> #[trigger] final(m)@[x] == old(m)@[x],
        final(m)@[a]@.dom() == old(m)@[a]@.dom().insert(b),
        forall|y: usize| y != b && old(m)@[a]@.contains_key(y) ==> #[trigger] final(m)@[a]@[y] == old(m)@[a]@[y],
        final(m)@[a]@[b]@ == (if old(m)@[a]@.contains_key(b) { old(m)@[a]@[b]@ } else { Seq::empty() }).push(t),
{
    let mut inner = match m.remove(&a) {
        Some(inner) => inner,
        None => vstd::pervasive::unreached(),
    };
    let ghost old_inner = inner@;
    let mut list = match inner.remove(&b) {
        Some(l) => l,
        None => Vec::new(),
    };
    list.push(t);
    inner.insert(b, list);
    m.insert(a, inner);
    proof {
        assert(m@.dom() =~= old(m)@.dom());
        assert(m@[a]@.dom() =~= old_inner.dom().insert(b));
    }
}

// Removes token `t` from the list of `b` in the links of `a`; an emptied list is dropped.
fn drop_token(m: &mut HashMap<usize, Links>, a: usize, b: usize, t: usize)
    requires
        old(m)@.contains_key(a),
        old(m)@[a]@.contains_key(b),
    ensures
        final(m)@.dom() == old(m)@.dom(),
        forall|x: usize| x != a && old(m)@.contains_key(x) ==> #[trigger] final(m)@[x] == old(m)@[x],
        forall|y: usize| y != b && old(m)@[a]@.contains_key(y) ==> #[trigger] final(m)@[a]@[y] == old(m)@[a]@[y],
        without_token(old(m)@[a]@[b]@, t).len() > 0 ==> {
            &&& final(m)@[a]@.dom() == old(m)@[a]@.dom()
            &&& final(m)@[a]@[b]@ == without_token(old(m)@[a]@[b]@, t)
        },
        without_token(old(m)@[a]@[b]@, t).len() == 0 ==> final(m)@[a]@.dom() == old(m)@[a]@.dom().remove(b),
{
    let mut inner = match m.remove(&a) {
        Some(inner) => inner,
        None => vstd::pervasive::unreached(),
    };
    let ghost old_inner = inner@;
    let list = match inner.remove(&b) {
        Some(l) => l,
        None => vstd::pervasive::unreached(),
    };
    let mut kept: Vec<usize> = Vec::new();
    let mut k: usize = 0;
    while k < list.len()
        invariant
            k <= list@.len(),
            kept@ == without_token(list@.take(k as int), t),
        decreases list@.len() - k,
    {
        if list[k] != t {
            kept.push(list[k]);
        }
        proof {
            let s = list@.take(k + 1);
            assert(s.drop_last() =~= list@.take(k as int));
            assert(s.last() == list@[k as int]);
        }
        k = k + 1;
    }
    assert(list@.take(list@.len() as int) =~= list@);
    if kept.len() > 0 {
        inner.insert(b, kept);
    }
    m.insert(a, inner);
    proof {
        assert(m@.dom() =~= old(m)@.dom());
        if without_token(old_inner[b]@, t).len() > 0 {
            assert(m@[a]@.dom() =~= old_inner.dom());
        } else {
            assert(m@[a]@.dom() =~= old_inner.dom().remove(b));
        }
    }
}

// # Returns
// The keys of `m`, each once, in no particular order.
fn keys_of<T>(m: &HashMap<usize, T>) -> (r: Vec<usize>)
    ensures
        r@.to_set() == m@.dom(),
        r@.no_duplicates(),
        r@.len() == m@.dom().len(),
{
    proof {
        vstd::std_specs::hash::axiom_spec_keys_iter(m);
    }
    let mut r: Vec<usize> = Vec::new();
    for x in it: m.keys()
        invariant
            it.seq() == vstd::std_specs::iter::IteratorSpec::remaining(&vstd::std_specs::hash::spec_keys_iter(m)),
            r@ == it.seq().take(it.index() as int).map_values(|p: &usize| *p),
    {
        proof {
            assert(it.seq().take(it.index() as int + 1) =~= it.seq().take(it.index() as int).push(it.seq()[it.index() as int]));
        }
        r.push(*x);
    }
    proof {
        let all = vstd::std_specs::iter::IteratorSpec::remaining(&vstd::std_specs::hash::spec_keys_iter(m));
        assert(all.take(all.len() as int) =~= all);
        assert(r@ =~= all.unref());
    }
    r
}

/// Calls `get_mut` of std's `HashMap`: the contract takes it to hand out the value of a
/// present key for changing in place, the map holding whatever the value becomes, and to
/// give `None` for an absent key.
#[verifier::external_body]
fn value_mut<T>(m: &mut HashMap<usize, T>, k: usize) -> (r: Option<&mut T>)
    ensures
        r is Some <==> old(m)@.contains_key(k),
        r is None ==> final(m)@ == old(m)@,
        r matches Some(x) ==> *x == old(m)@[k] && final(m)@ == old(m)@.insert(k, *final(x)),
{
    m.get_mut(&k)
}

/// The tokens in all lists of `links`.
pub open spec fn link_tokens(links: Map<usize, Vec<usize>>) -> Set<usize> {
    Set::new(|t: usize| exists|d: usize| #[trigger] links.contains_key(d) && links[d]@.contains(t))
}

// Appends `x` to `out` unless `seen` (which mirrors `out`) already holds it.
fn push_new(out: &mut Vec<usize>, seen: &mut HashSet<usize>, x: usize)
    requires
        old(seen)@ == old(out)@.to_set(),
        old(out)@.no_duplicates(),
    ensures
        final(seen)@ == final(out)@.to_set(),
        final(out)@.no_duplicates(),
        final(out)@.to_set() == old(out)@.to_set().insert(x),
{
    if !seen.contains(&x) {
        let ghost before = out@;
        out.push(x);
        seen.insert(x);
        proof {
            before.lemma_push_to_set_commute(x);
            assert forall|i: int, j: int| 0 <= i < j < out@.len() implies out@[i] != out@[j] by {
                if j == before.len() as int {
                    assert(before.contains(out@[i])) by {
                        assert(before[i] == out@[i]);
                    }
                }
            }
        }
    } else {
        proof {
            assert(out@.to_set().insert(x) =~= out@.to_set());
        }
    }
}

// Appends to `out` the keys of `links` it does not hold yet.
fn collect_keys(links: &Links, out: &mut Vec<usize>, seen: &mut HashSet<usize>)
    requires
        old(seen)@ == old(out)@.to_set(),
        old(out)@.no_duplicates(),
    ensures
        final(seen)@ == final(out)@.to_set(),
        final(out)@.no_duplicates(),
        final(out)@.to_set() == old(out)@.to_set().union(links@.dom()),
{
    let ks = keys_of(links);
    let ghost start = out@.to_set();
    let mut i: usize = 0;
    while i < ks.len()
        invariant
            i <= ks@.len(),
            ks@.to_set() == links@.dom(),
            seen@ == out@.to_set(),
            out@.no_duplicates(),
            out@.to_set() == start.union(ks@.take(i as int).to_set()),
        decreases ks@.len() - i,
    {
        push_new(out, seen, ks[i]);
        proof {
            assert(ks@.take(i + 1) =~= ks@.take(i as int).push(ks@[i as int]));
            ks@.take(i as int).lemma_push_to_set_commute(ks@[i as int]);
            assert(out@.to_set() =~= start.union(ks@.take(i + 1).to_set()));
        }
        i = i + 1;
    }
    assert(ks@.take(ks@.len() as int) =~= ks@);
}

// Appends to `out` the tokens of all lists of `links` it does not hold yet.
fn collect_tokens(links: &Links, out: &mut Vec<usize>, seen: &mut HashSet<usize>)
    requires
        old(seen)@ == old(out)@.to_set(),
        old(out)@.no_duplicates(),
    ensures
        final(seen)@ == final(out)@.to_set(),
        final(out)@.no_duplicates(),
        final(out)@.to_set() == old(out)@.to_set().union(link_tokens(links@)),
{
    let ks = keys_of(links);
    let ghost start = out@.to_set();
    let mut i: usize = 0;
    while i < ks.len()
        invariant
            i <= ks@.len(),
            ks@.to_set() == links@.dom(),
            seen@ == out@.to_set(),
            out@.no_duplicates(),
            out@.to_set() == start.union(Set::new(|t: usize| exists|q: int| 0 <= q < i
                && #[trigger] links@[ks@[q]]@.contains(t))),
        decreases ks@.len() - i,
    {
        let d = ks[i];
        assert(ks@.to_set().contains(d));
        let list = match links.get(&d) {
            Some(l) => l,
            None => vstd::pervasive::unreached(),
        };
        let ghost mid = out@.to_set();
        let mut k: usize = 0;
        while k < list.len()
            invariant
                k <= list@.len(),
                seen@ == out@.to_set(),
                out@.no_duplicates(),
                out@.to_set() == mid.union(list@.take(k as int).to_set()),
            decreases list@.len() - k,
        {
            push_new(out, seen, list[k]);
            proof {
                assert(list@.take(k + 1) =~= list@.take(k as int).push(list@[k as int]));
                list@.take(k as int).lemma_push_to_set_commute(list@[k as int]);
                assert(out@.to_set() =~= mid.union(list@.take(k + 1).to_set()));
            }
            k = k + 1;
        }
        proof {
            assert(list@.take(list@.len() as int) =~= list@);
            assert(out@.to_set() =~= start.union(Set::new(|t: usize| exists|q: int| 0 <= q < i + 1
                && #[trigger] links@[ks@[q]]@.contains(t)))) by {
                assert forall|t: usize| out@.to_set().contains(t) implies start.union(Set::new(|t: usize| exists|q: int| 0 <= q < i + 1
                    && #[trigger] links@[ks@[q]]@.contains(t))).contains(t) by {
                    if list@.contains(t) && !mid.contains(t) {
                        assert(links@[ks@[i as int]]@.contains(t));
                    }
                }
            }
        }
        i = i + 1;
    }
    proof {
        assert(ks@.take(ks@.len() as int) =~= ks@);
        assert(out@.to_set() =~= start.union(link_tokens(links@))) by {
            assert forall|t: usize| #[trigger] link_tokens(links@).contains(t) implies out@.to_set().contains(t) by {
                let d = choose|d: usize| #[trigger] links@.contains_key(d) && links@[d]@.contains(t);
                assert(ks@.to_set().contains(d));
                let q = choose|q: int| 0 <= q < ks@.len() && ks@[q] == d;
                assert(links@[ks@[q]]@.contains(t));
            }
            assert forall|t: usize| out@.to_set().contains(t) && !start.contains(t) implies #[trigger] link_tokens(links@).contains(t) by {
                let q = choose|q: int| 0 <= q < ks@.len() && #[trigger] links@[ks@[q]]@.contains(t);
                assert(ks@.contains(ks@[q]));
                assert(ks@.to_set().contains(ks@[q]));
                assert(links@.contains_key(ks@[q]));
            }
        }
    }
}

/// A storage that keeps, for each vertex token, a map from each neighbor to the tokens of
/// the edges between them, in both directions (`adj_map` from the source, `pred` from the
/// destination). Vertices and edges hold values of their own, reached by token.
///
/// The model: the vertices `spec_vertices()`, a map from token to vertex value, and the
/// edges `spec_edges()`, a map from token to (source, destination, descriptor).
pub struct AdjMap<V, E, Dir: Direction> {
    vt_provider: UsizeTokenProvider,
    et_provider: UsizeTokenProvider,
    vt_to_v: HashMap<usize, V>,
    et_to_e: HashMap<usize, Edge<E>>,
    adj_map: HashMap<usize, Links>,
    pred: HashMap<usize, Links>,
    phantom_dir: PhantomData<Dir>,
}

impl<V, E, Dir: Direction> AdjMap<V, E, Dir> {
    /// The vertices: token to vertex value.
    pub closed spec fn spec_vertices(&self) -> Map<usize, V> {
        self.vt_to_v@
    }

    /// The edges: token to (source, destination, descriptor).
    pub closed spec fn spec_edges(&self) -> Map<usize, (usize, usize, E)> {
        Map::new(|t: usize| self.et_to_e@.contains_key(t),
            |t: usize| (self.et_to_e@[t].spec_src(), self.et_to_e@[t].spec_dst(), self.et_to_e@[t].spec_inner()))
    }

    /// The token the next added vertex gets, while tokens are left.
    pub closed spec fn spec_next_vt(&self) -> usize {
        self.vt_provider.spec_next()
    }

    /// The token the next added edge gets, while tokens are left.
    pub closed spec fn spec_next_et(&self) -> usize {
        self.et_provider.spec_next()
    }

    /// A new vertex token can be handed out.
    pub closed spec fn spec_vt_free(&self) -> bool {
        !self.vt_provider.spec_exhausted()
    }

    /// A new edge token can be handed out.
    pub closed spec fn spec_et_free(&self) -> bool {
        !self.et_provider.spec_exhausted()
    }

    /// The vertices with an edge from `vt` (also those with an edge to it, when undirected).
    pub open spec fn spec_successors(&self, vt: usize) -> Set<usize> {
        Set::new(|d: usize| exists|t: usize| #[trigger] self.spec_edges().contains_key(t)
            && ((self.spec_edges()[t].0 == vt && self.spec_edges()[t].1 == d)
                || (!Dir::spec_is_directed() && self.spec_edges()[t].1 == vt && self.spec_edges()[t].0 == d)))
    }

    /// The vertices with an edge to `vt` (also those with an edge from it, when undirected).
    pub open spec fn spec_predecessors(&self, vt: usize) -> Set<usize> {
        Set::new(|s: usize| exists|t: usize| #[trigger] self.spec_edges().contains_key(t)
            && ((self.spec_edges()[t].1 == vt && self.spec_edges()[t].0 == s)
                || (!Dir::spec_is_directed() && self.spec_edges()[t].0 == vt && self.spec_edges()[t].1 == s)))
    }

    /// The edges leaving `vt` (all its edges, when undirected).
    pub open spec fn spec_outgoing(&self, vt: usize) -> Set<usize> {
        Set::new(|t: usize| self.spec_edges().contains_key(t)
            && (self.spec_edges()[t].0 == vt || (!Dir::spec_is_directed() && self.spec_edges()[t].1 == vt)))
    }

    /// The edges entering `vt` (all its edges, when undirected).
    pub open spec fn spec_ingoing(&self, vt: usize) -> Set<usize> {
        Set::new(|t: usize| self.spec_edges().contains_key(t)
            && (self.spec_edges()[t].1 == vt || (!Dir::spec_is_directed() && self.spec_edges()[t].0 == vt)))
    }

    /// The edges with `vt` at an end.
    pub open spec fn spec_incident(&self, vt: usize) -> Set<usize> {
        Set::new(|t: usize| self.spec_edges().contains_key(t) && (self.spec_edges()[t].0 == vt || self.spec_edges()[t].1 == vt))
    }

    /// Links `m` are exactly those of the edges `ends` (token to (source, destination)),
    /// keyed by the source when `by_src`, by the destination otherwise.
    spec fn links_ok(m: Map<usize, Links>, ends: Map<usize, Edge<E>>, by_src: bool) -> bool {
        forall|a: usize, b: usize, k: int| #![trigger m[a]@[b]@[k]]
            m.contains_key(a) && m[a]@.contains_key(b) && 0 <= k < m[a]@[b]@.len() ==> {
                let t = m[a]@[b]@[k];
                &&& ends.contains_key(t)
                &&& (if by_src { ends[t].spec_src() == a && ends[t].spec_dst() == b }
                     else { ends[t].spec_dst() == a && ends[t].spec_src() == b })
            }
    }

    /// The storage invariant.
    pub closed spec fn wf(&self) -> bool {
        let vd = self.vt_to_v@.dom();
        let ends = self.et_to_e@;
        &&& self.adj_map@.dom() == vd
        &&& self.pred@.dom() == vd
        &&& forall|vt: usize| #[trigger] vd.contains(vt) && !self.vt_provider.spec_exhausted() ==> vt < self.vt_provider.spec_next()
        &&& forall|t: usize| #[trigger] ends.contains_key(t) && !self.et_provider.spec_exhausted() ==> t < self.et_provider.spec_next()
        &&& forall|t: usize| #[trigger] ends.contains_key(t) ==> {
                let s = ends[t].spec_src();
                let d = ends[t].spec_dst();
                &&& vd.contains(s)
                &&& vd.contains(d)
                &&& self.adj_map@[s]@.contains_key(d)
                &&& self.adj_map@[s]@[d]@.contains(t)
                &&& self.pred@[d]@.contains_key(s)
                &&& self.pred@[d]@[s]@.contains(t)
            }
        &&& forall|a: usize, b: usize| #![trigger self.adj_map@[a]@[b]]
                self.adj_map@.contains_key(a) && self.adj_map@[a]@.contains_key(b)
                ==> self.adj_map@[a]@[b]@.len() > 0 && self.adj_map@[a]@[b]@.no_duplicates()
        &&& forall|a: usize, b: usize| #![trigger self.pred@[a]@[b]]
                self.pred@.contains_key(a) && self.pred@[a]@.contains_key(b)
                ==> self.pred@[a]@[b]@.len() > 0 && self.pred@[a]@[b]@.no_duplicates()
        &&& Self::links_ok(self.adj_map@, ends, true)
        &&& Self::links_ok(self.pred@, ends, false)
    }
}

impl<V, E, Dir: Direction> AdjMap<V, E, Dir> {
    /// # Returns
    /// An empty storage, whose first vertex and first edge get token 0.
    pub fn init() -> (m: Self)
        ensures
            m.wf(),
            m.spec_vertices() == Map::<usize, V>::empty(),
            m.spec_edges() == Map::<usize, (usize, usize, E)>::empty(),
            m.spec_vt_free(),
            m.spec_et_free(),
            m.spec_next_vt() == 0,
            m.spec_next_et() == 0,
    {
        let m = AdjMap {
            vt_provider: UsizeTokenProvider::init(),
            et_provider: UsizeTokenProvider::init(),
            vt_to_v: HashMap::new(),
            et_to_e: HashMap::new(),
            adj_map: HashMap::new(),
            pred: HashMap::new(),
            phantom_dir: PhantomData,
        };
        proof {
            assert(m.spec_edges() =~= Map::<usize, (usize, usize, E)>::empty());
        }
        m
    }









}

impl<V, E, Dir: Direction> AdjMap<V, E, Dir> {
    /// What the links of a vertex hold, in terms of the edges.
    proof fn lemma_links(&self, vt: usize)
        requires
            self.wf(),
            self.spec_vertices().contains_key(vt),
        ensures
            self.adj_map@[vt]@.dom() == Set::new(|d: usize| exists|t: usize| #[trigger] self.spec_edges().contains_key(t)
                && self.spec_edges()[t].0 == vt && self.spec_edges()[t].1 == d),
            self.pred@[vt]@.dom() == Set::new(|s: usize| exists|t: usize| #[trigger] self.spec_edges().contains_key(t)
                && self.spec_edges()[t].0 == s && self.spec_edges()[t].1 == vt),
            link_tokens(self.adj_map@[vt]@) == Set::new(|t: usize| self.spec_edges().contains_key(t) && self.spec_edges()[t].0 == vt),
            link_tokens(self.pred@[vt]@) == Set::new(|t: usize| self.spec_edges().contains_key(t) && self.spec_edges()[t].1 == vt),
    {
        let adj = self.adj_map@[vt]@;
        let pre = self.pred@[vt]@;
        assert forall|d: usize| adj.contains_key(d) implies exists|t: usize| #[trigger] self.spec_edges().contains_key(t)
            && self.spec_edges()[t].0 == vt && self.spec_edges()[t].1 == d by {
            let t = self.adj_map@[vt]@[d]@[0];
            assert(self.et_to_e@.contains_key(t));
            assert(self.spec_edges().contains_key(t));
        }
        assert(adj.dom() =~= Set::new(|d: usize| exists|t: usize| #[trigger] self.spec_edges().contains_key(t)
            && self.spec_edges()[t].0 == vt && self.spec_edges()[t].1 == d));
        assert forall|x: usize| pre.contains_key(x) implies exists|t: usize| #[trigger] self.spec_edges().contains_key(t)
            && self.spec_edges()[t].0 == x && self.spec_edges()[t].1 == vt by {
            let t = self.pred@[vt]@[x]@[0];
            assert(self.et_to_e@.contains_key(t));
            assert(self.spec_edges().contains_key(t));
        }
        assert(pre.dom() =~= Set::new(|s: usize| exists|t: usize| #[trigger] self.spec_edges().contains_key(t)
            && self.spec_edges()[t].0 == s && self.spec_edges()[t].1 == vt));
        assert forall|t: usize| #[trigger] link_tokens(adj).contains(t) <==> (self.spec_edges().contains_key(t) && self.spec_edges()[t].0 == vt) by {
            if link_tokens(adj).contains(t) {
                let d = choose|d: usize| #[trigger] adj.contains_key(d) && adj[d]@.contains(t);
                let k = choose|k: int| 0 <= k < adj[d]@.len() && adj[d]@[k] == t;
                assert(self.et_to_e@.contains_key(self.adj_map@[vt]@[d]@[k]));
            }
            if self.spec_edges().contains_key(t) && self.spec_edges()[t].0 == vt {
                assert(self.et_to_e@.contains_key(t));
                let d = self.et_to_e@[t].spec_dst();
                assert(adj.contains_key(d) && adj[d]@.contains(t));
            }
        }
        assert(link_tokens(adj) =~= Set::new(|t: usize| self.spec_edges().contains_key(t) && self.spec_edges()[t].0 == vt));
        assert forall|t: usize| #[trigger] link_tokens(pre).contains(t) <==> (self.spec_edges().contains_key(t) && self.spec_edges()[t].1 == vt) by {
            if link_tokens(pre).contains(t) {
                let x = choose|x: usize| #[trigger] pre.contains_key(x) && pre[x]@.contains(t);
                let k = choose|k: int| 0 <= k < pre[x]@.len() && pre[x]@[k] == t;
                assert(self.et_to_e@.contains_key(self.pred@[vt]@[x]@[k]));
            }
            if self.spec_edges().contains_key(t) && self.spec_edges()[t].1 == vt {
                assert(self.et_to_e@.contains_key(t));
                let x = self.et_to_e@[t].spec_src();
                assert(pre.contains_key(x) && pre[x]@.contains(t));
            }
        }
        assert(link_tokens(pre) =~= Set::new(|t: usize| self.spec_edges().contains_key(t) && self.spec_edges()[t].1 == vt));
    }

    // # Returns
    // The links of vertex `vt` kept by `m`.
    fn links_of<'a>(m: &'a HashMap<usize, Links>, vt: usize) -> (l: &'a Links)
        requires
            m@.contains_key(vt),
        ensures
            *l == m@[vt],
    {
        match m.get(&vt) {
            Some(l) => l,
            None => vstd::pervasive::unreached(),
        }
    }





}

impl<V, E, Dir: Direction> Vertices for AdjMap<V, E, Dir> {
    type V = V;

    open spec fn spec_wf(&self) -> bool {
        self.wf()
    }

    open spec fn spec_vertex_map(&self) -> Map<usize, V> {
        self.spec_vertices()
    }

    open spec fn spec_successor_set(&self, vt: usize) -> Set<usize> {
        self.spec_successors(vt)
    }

    open spec fn spec_predecessor_set(&self, vt: usize) -> Set<usize> {
        self.spec_predecessors(vt)
    }

    /// # Returns
    /// The value of vertex `vt`, which must exist.
    fn vertex(&self, vt: usize) -> (v: &V)
        ensures
            *v == self.spec_vertices()[vt],
    {
        match self.vt_to_v.get(&vt) {
            Some(v) => v,
            None => vstd::pervasive::unreached(),
        }
    }

    /// # Returns
    /// Number of vertices.
    fn vertex_count(&self) -> (n: usize)
        ensures
            n == self.spec_vertices().len(),
    {
        self.vt_to_v.len()
    }

    /// # Returns
    /// The tokens of the vertices, each once, in no particular order.
    fn vertex_tokens(&self) -> (r: Vec<usize>)
        ensures
            r@.to_set() == self.spec_vertices().dom(),
            r@.no_duplicates(),
    {
        keys_of(&self.vt_to_v)
    }

    /// # Returns
    /// The values of all vertices, one per vertex, in no particular order.
    fn vertices(&self) -> (r: Vec<&V>)
        ensures
            exists|ks: Seq<usize>| #![trigger ks.to_set()]
                ks.to_set() == self.spec_vertices().dom() && ks.no_duplicates() && ks.len() == r@.len()
                && forall|i: int| 0 <= i < ks.len() ==> *(#[trigger] r@[i]) == self.spec_vertices()[ks[i]],
    {
        let ks = keys_of(&self.vt_to_v);
        let mut r: Vec<&V> = Vec::new();
        let mut i: usize = 0;
        while i < ks.len()
            invariant
                i <= ks@.len(),
                ks@.to_set() == self.vt_to_v@.dom(),
                r@.len() == i,
                forall|q: int| 0 <= q < i ==> *(#[trigger] r@[q]) == self.vt_to_v@[ks@[q]],
            decreases ks@.len() - i,
        {
            assert(ks@.to_set().contains(ks@[i as int]));
            let v = match self.vt_to_v.get(&ks[i]) {
                Some(v) => v,
                None => vstd::pervasive::unreached(),
            };
            r.push(v);
            i = i + 1;
        }
        proof {
            assert(ks@.to_set() == self.spec_vertices().dom());
        }
        r
    }

    /// # Returns
    /// The same as `successors`.
    fn neighbors(&self, vt: usize) -> (r: Vec<usize>)
        ensures
            r@.to_set() == self.spec_successors(vt),
            r@.no_duplicates(),
    {
        self.successors(vt)
    }

    /// # Returns
    /// `true` if `vt` is the token of a vertex.
    fn has_vt(&self, vt: usize) -> (b: bool)
        ensures
            b == self.spec_vertices().contains_key(vt),
    {
        self.vt_to_v.contains_key(&vt)
    }

    /// # Returns
    /// The vertices with an edge from `vt` (with an edge to or from it, when undirected),
    /// each once; `vt` must exist.
    fn successors(&self, vt: usize) -> (r: Vec<usize>)
        ensures
            r@.to_set() == self.spec_successors(vt),
            r@.no_duplicates(),
    {
        proof { self.lemma_links(vt); }
        let mut out: Vec<usize> = Vec::new();
        let mut seen: HashSet<usize> = HashSet::new();
        proof { assert(out@.to_set() =~= seen@); }
        collect_keys(Self::links_of(&self.adj_map, vt), &mut out, &mut seen);
        if Dir::is_undirected() {
            collect_keys(Self::links_of(&self.pred, vt), &mut out, &mut seen);
        }
        proof {
            assert(out@.to_set() =~= self.spec_successors(vt)) by {
                assert forall|d: usize| #[trigger] self.spec_successors(vt).contains(d) implies out@.to_set().contains(d) by {
                    let t = choose|t: usize| #[trigger] self.spec_edges().contains_key(t)
                        && ((self.spec_edges()[t].0 == vt && self.spec_edges()[t].1 == d)
                            || (!Dir::spec_is_directed() && self.spec_edges()[t].1 == vt && self.spec_edges()[t].0 == d));
                    if self.spec_edges()[t].0 == vt && self.spec_edges()[t].1 == d {
                        assert(self.adj_map@[vt]@.dom().contains(d));
                    } else {
                        assert(self.pred@[vt]@.dom().contains(d));
                    }
                }
            }
        }
        out
    }

    /// # Returns
    /// The vertices with an edge to `vt` (with an edge to or from it, when undirected),
    /// each once; `vt` must exist.
    fn predecessors(&self, vt: usize) -> (r: Vec<usize>)
        ensures
            r@.to_set() == self.spec_predecessors(vt),
            r@.no_duplicates(),
    {
        proof { self.lemma_links(vt); }
        let mut out: Vec<usize> = Vec::new();
        let mut seen: HashSet<usize> = HashSet::new();
        proof { assert(out@.to_set() =~= seen@); }
        collect_keys(Self::links_of(&self.pred, vt), &mut out, &mut seen);
        if Dir::is_undirected() {
            collect_keys(Self::links_of(&self.adj_map, vt), &mut out, &mut seen);
        }
        proof {
            assert(out@.to_set() =~= self.spec_predecessors(vt)) by {
                assert forall|x: usize| #[trigger] self.spec_predecessors(vt).contains(x) implies out@.to_set().contains(x) by {
                    let t = choose|t: usize| #[trigger] self.spec_edges().contains_key(t)
                        && ((self.spec_edges()[t].1 == vt && self.spec_edges()[t].0 == x)
                            || (!Dir::spec_is_directed() && self.spec_edges()[t].0 == vt && self.spec_edges()[t].1 == x));
                    if self.spec_edges()[t].1 == vt && self.spec_edges()[t].0 == x {
                        assert(self.pred@[vt]@.dom().contains(x));
                    } else {
                        assert(self.adj_map@[vt]@.dom().contains(x));
                    }
                }
            }
        }
        out
    }
}

impl<V, E, Dir: Direction> CheckedVertices for AdjMap<V, E, Dir> {
}

impl<V, E, Dir: Direction> MutVertices for AdjMap<V, E, Dir> {
    open spec fn spec_has_free_token(&self) -> bool {
        self.spec_vt_free()
    }

    /// Removal looks the edges leaving `vt` up among those entering it, and the edges
    /// entering it among those leaving it, so only a vertex whose edges are all self loops
    /// (or that has none) can be removed.
    open spec fn spec_can_remove_vertex(&self, vt: usize) -> bool {
        forall|t: usize| #[trigger] self.spec_edges().contains_key(t)
            && (self.spec_edges()[t].0 == vt || self.spec_edges()[t].1 == vt)
            ==> self.spec_edges()[t].0 == self.spec_edges()[t].1
    }

    /// # Returns
    /// `true` if another vertex can be added. Tokens are never reused, so this turns false
    /// once every `usize` has been handed out.
    fn has_free_token(&mut self) -> (b: bool)
        ensures
            b == old(self).spec_vt_free(),
            *final(self) == *old(self),
    {
        self.vt_provider.has_next()
    }

    /// # Returns
    /// The value of vertex `vt`, which must exist, to change in place.
    fn vertex_mut(&mut self, vt: usize) -> (v: &mut V)
        ensures
            *v == old(self).spec_vertices()[vt],
            final(self).wf(),
            final(self).spec_vertices() == old(self).spec_vertices().insert(vt, *final(v)),
            final(self).spec_edges() == old(self).spec_edges(),
    {
        proof {
            assert(self.vt_to_v@.dom().insert(vt) =~= self.vt_to_v@.dom());
        }
        match value_mut(&mut self.vt_to_v, vt) {
            Some(v) => v,
            None => vstd::pervasive::unreached(),
        }
    }

    /// Adds a vertex holding `vertex`.
    ///
    /// # Returns
    /// The token of the new vertex, never handed out before: the provider's next one, after
    /// which the provider moves one up (or runs out, after `usize::MAX`).
    fn add_vertex(&mut self, vertex: V) -> (vt: usize)
        ensures
            final(self).wf(),
            vt == old(self).spec_next_vt(),
            vt < usize::MAX ==> final(self).spec_next_vt() == vt + 1 && final(self).spec_vt_free(),
            vt == usize::MAX ==> !final(self).spec_vt_free(),
            final(self).spec_next_et() == old(self).spec_next_et(),
            !old(self).spec_vertices().contains_key(vt),
            final(self).spec_vertices() == old(self).spec_vertices().insert(vt, vertex),
            final(self).spec_edges() == old(self).spec_edges(),
            final(self).spec_et_free() == old(self).spec_et_free(),
    {
        let ghost old_self = *self;
        let vt = match self.vt_provider.get() {
            Some(t) => t,
            None => vstd::pervasive::unreached(),
        };
        self.vt_to_v.insert(vt, vertex);
        self.adj_map.insert(vt, HashMap::new());
        self.pred.insert(vt, HashMap::new());
        proof {
            assert(self.adj_map@.dom() =~= self.vt_to_v@.dom());
            assert(self.pred@.dom() =~= self.vt_to_v@.dom());
            assert(self.spec_edges() =~= old_self.spec_edges());
            assert forall|t: usize| #[trigger] self.et_to_e@.contains_key(t) implies {
                let s = self.et_to_e@[t].spec_src();
                let d = self.et_to_e@[t].spec_dst();
                &&& self.vt_to_v@.dom().contains(s)
                &&& self.vt_to_v@.dom().contains(d)
                &&& self.adj_map@[s]@.contains_key(d)
                &&& self.adj_map@[s]@[d]@.contains(t)
                &&& self.pred@[d]@.contains_key(s)
                &&& self.pred@[d]@[s]@.contains(t)
            } by {
                let s = self.et_to_e@[t].spec_src();
                let d = self.et_to_e@[t].spec_dst();
                assert(s != vt && d != vt);
            }
            assert forall|a: usize, b: usize, k: int| #![trigger self.adj_map@[a]@[b]@[k]]
                self.adj_map@.contains_key(a) && self.adj_map@[a]@.contains_key(b) && 0 <= k < self.adj_map@[a]@[b]@.len() implies {
                    let t = self.adj_map@[a]@[b]@[k];
                    &&& self.et_to_e@.contains_key(t)
                    &&& self.et_to_e@[t].spec_src() == a && self.et_to_e@[t].spec_dst() == b
                } by {
                assert(a != vt);
                assert(old_self.adj_map@[a]@[b]@[k] == self.adj_map@[a]@[b]@[k]);
            }
            assert forall|a: usize, b: usize, k: int| #![trigger self.pred@[a]@[b]@[k]]
                self.pred@.contains_key(a) && self.pred@[a]@.contains_key(b) && 0 <= k < self.pred@[a]@[b]@.len() implies {
                    let t = self.pred@[a]@[b]@[k];
                    &&& self.et_to_e@.contains_key(t)
                    &&& self.et_to_e@[t].spec_dst() == a && self.et_to_e@[t].spec_src() == b
                } by {
                assert(a != vt);
                assert(old_self.pred@[a]@[b]@[k] == self.pred@[a]@[b]@[k]);
            }
            assert forall|a: usize, b: usize| #![trigger self.adj_map@[a]@[b]]
                self.adj_map@.contains_key(a) && self.adj_map@[a]@.contains_key(b)
                implies self.adj_map@[a]@[b]@.len() > 0 && self.adj_map@[a]@[b]@.no_duplicates() by {
                assert(a != vt);
                assert(old_self.adj_map@[a]@[b] == self.adj_map@[a]@[b]);
            }
            assert forall|a: usize, b: usize| #![trigger self.pred@[a]@[b]]
                self.pred@.contains_key(a) && self.pred@[a]@.contains_key(b)
                implies self.pred@[a]@[b]@.len() > 0 && self.pred@[a]@[b]@.no_duplicates() by {
                assert(a != vt);
                assert(old_self.pred@[a]@[b] == self.pred@[a]@[b]);
            }
        }
        vt
    }

    /// Removes vertex `vt`, which must exist, together with every edge that has it at an end.
    ///
    /// # Returns
    /// The value of the removed vertex.
    fn remove_vertex(&mut self, vt: usize) -> (v: V)
        ensures
            final(self).wf(),
            v == old(self).spec_vertices()[vt],
            final(self).spec_vertices() == old(self).spec_vertices().remove(vt),
            final(self).spec_edges().dom() == old(self).spec_edges().dom().difference(old(self).spec_incident(vt)),
            forall|t: usize| #[trigger] final(self).spec_edges().contains_key(t) ==> final(self).spec_edges()[t] == old(self).spec_edges()[t],
            final(self).spec_vt_free() == old(self).spec_vt_free(),
            final(self).spec_et_free() == old(self).spec_et_free(),
            final(self).spec_next_vt() == old(self).spec_next_vt(),
            final(self).spec_next_et() == old(self).spec_next_et(),
    {
        let ghost old_self = *self;
        let tokens = self.edge_tokens();
        let mut i: usize = 0;
        while i < tokens.len()
            invariant
                self.wf(),
                i <= tokens@.len(),
                tokens@.to_set() == old_self.spec_edges().dom(),
                self.spec_vertices() == old_self.spec_vertices(),
                self.spec_vt_free() == old_self.spec_vt_free(),
                self.spec_et_free() == old_self.spec_et_free(),
                self.spec_next_vt() == old_self.spec_next_vt(),
                self.spec_next_et() == old_self.spec_next_et(),
                old_self.spec_can_remove_vertex(vt),
                forall|t: usize| #[trigger] self.spec_edges().contains_key(t) <==>
                    (old_self.spec_edges().contains_key(t) && !(old_self.spec_incident(vt).contains(t) && tokens@.take(i as int).contains(t))),
                forall|t: usize| #[trigger] self.spec_edges().contains_key(t) ==> self.spec_edges()[t] == old_self.spec_edges()[t],
            decreases tokens@.len() - i,
        {
            let t = tokens[i];
            let ghost prefix = tokens@.take(i as int);
            let ghost next_prefix = tokens@.take(i + 1);
            proof {
                assert(next_prefix =~= prefix.push(t));
                assert forall|x: usize| next_prefix.contains(x) <==> (prefix.contains(x) || x == t) by {
                    if next_prefix.contains(x) {
                        let k = choose|k: int| 0 <= k < next_prefix.len() && next_prefix[k] == x;
                        if k < i {
                            assert(prefix[k] == x);
                        }
                    }
                    if prefix.contains(x) {
                        let k = choose|k: int| 0 <= k < prefix.len() && prefix[k] == x;
                        assert(next_prefix[k] == x);
                    }
                    if x == t {
                        assert(next_prefix[i as int] == t);
                    }
                }
            }
            if self.has_et(t) {
                let (s, d, _) = self.edge(t);
                if s == vt || d == vt {
                    proof {
                        assert(old_self.spec_edges().contains_key(t));
                        assert(self.spec_edges()[t] == old_self.spec_edges()[t]);
                        assert(s == d);
                        assert(self.spec_edges().contains_key(t) && self.spec_edges()[t].0 == d && self.spec_edges()[t].1 == s);
                    }
                    self.remove_edge(s, d, t);
                    proof {
                        assert(old_self.spec_incident(vt).contains(t));
                    }
                } else {
                    proof {
                        assert(!old_self.spec_incident(vt).contains(t));
                    }
                }
            }
            i = i + 1;
        }
        let ghost mid = *self;
        proof {
            assert(tokens@.take(tokens@.len() as int) =~= tokens@);
            assert forall|x: usize| #[trigger] mid.spec_edges().contains_key(x) implies !old_self.spec_incident(vt).contains(x) by {
                if old_self.spec_incident(vt).contains(x) {
                    assert(tokens@.to_set().contains(x));
                }
            }
            // No link of `vt` is left, and no other link points to it.
            assert forall|b: usize| !(#[trigger] mid.adj_map@[vt]@.contains_key(b)) by {
                if mid.adj_map@[vt]@.contains_key(b) {
                    let t = mid.adj_map@[vt]@[b]@[0];
                    assert(mid.et_to_e@.contains_key(t));
                    assert(mid.spec_edges().contains_key(t));
                    assert(old_self.spec_incident(vt).contains(t));
                }
            }
            assert forall|b: usize| !(#[trigger] mid.pred@[vt]@.contains_key(b)) by {
                if mid.pred@[vt]@.contains_key(b) {
                    let t = mid.pred@[vt]@[b]@[0];
                    assert(mid.et_to_e@.contains_key(t));
                    assert(mid.spec_edges().contains_key(t));
                    assert(old_self.spec_incident(vt).contains(t));
                }
            }
        }
        self.adj_map.remove(&vt);
        self.pred.remove(&vt);
        let v = match self.vt_to_v.remove(&vt) {
            Some(v) => v,
            None => vstd::pervasive::unreached(),
        };
        proof {
            assert(self.adj_map@.dom() =~= self.vt_to_v@.dom());
            assert(self.pred@.dom() =~= self.vt_to_v@.dom());
            assert(self.spec_edges() =~= mid.spec_edges());
            assert(self.spec_edges().dom() =~= old_self.spec_edges().dom().difference(old_self.spec_incident(vt)));
            assert forall|t: usize| #[trigger] self.et_to_e@.contains_key(t) implies {
                let s = self.et_to_e@[t].spec_src();
                let d = self.et_to_e@[t].spec_dst();
                &&& self.vt_to_v@.dom().contains(s)
                &&& self.vt_to_v@.dom().contains(d)
                &&& self.adj_map@[s]@.contains_key(d)
                &&& self.adj_map@[s]@[d]@.contains(t)
                &&& self.pred@[d]@.contains_key(s)
                &&& self.pred@[d]@[s]@.contains(t)
            } by {
                assert(mid.spec_edges().contains_key(t));
                assert(!old_self.spec_incident(vt).contains(t));
                assert(old_self.spec_edges()[t] == mid.spec_edges()[t]);
            }
            assert forall|a: usize, b: usize, k: int| #![trigger self.adj_map@[a]@[b]@[k]]
                self.adj_map@.contains_key(a) && self.adj_map@[a]@.contains_key(b) && 0 <= k < self.adj_map@[a]@[b]@.len() implies {
                    let t = self.adj_map@[a]@[b]@[k];
                    &&& self.et_to_e@.contains_key(t)
                    &&& self.et_to_e@[t].spec_src() == a && self.et_to_e@[t].spec_dst() == b
                } by {
                assert(self.adj_map@[a] == mid.adj_map@[a]);
                assert(mid.adj_map@[a]@[b]@[k] == self.adj_map@[a]@[b]@[k]);
            }
            assert forall|a: usize, b: usize, k: int| #![trigger self.pred@[a]@[b]@[k]]
                self.pred@.contains_key(a) && self.pred@[a]@.contains_key(b) && 0 <= k < self.pred@[a]@[b]@.len() implies {
                    let t = self.pred@[a]@[b]@[k];
                    &&& self.et_to_e@.contains_key(t)
                    &&& self.et_to_e@[t].spec_dst() == a && self.et_to_e@[t].spec_src() == b
                } by {
                assert(self.pred@[a] == mid.pred@[a]);
                assert(mid.pred@[a]@[b]@[k] == self.pred@[a]@[b]@[k]);
            }
            assert forall|a: usize, b: usize| #![trigger self.adj_map@[a]@[b]]
                self.adj_map@.contains_key(a) && self.adj_map@[a]@.contains_key(b)
                implies self.adj_map@[a]@[b]@.len() > 0 && self.adj_map@[a]@[b]@.no_duplicates() by {
                assert(self.adj_map@[a] == mid.adj_map@[a]);
                assert(mid.adj_map@[a]@[b] == self.adj_map@[a]@[b]);
            }
            assert forall|a: usize, b: usize| #![trigger self.pred@[a]@[b]]
                self.pred@.contains_key(a) && self.pred@[a]@.contains_key(b)
                implies self.pred@[a]@[b]@.len() > 0 && self.pred@[a]@[b]@.no_duplicates() by {
                assert(self.pred@[a] == mid.pred@[a]);
                assert(mid.pred@[a]@[b] == self.pred@[a]@[b]);
            }
        }
        v
    }
}

impl<V, E, Dir: Direction> CheckedMutVertices for AdjMap<V, E, Dir> {
}

impl<V, E, Dir: Direction> Edges for AdjMap<V, E, Dir> {
    type E = E;

    open spec fn spec_edge_map(&self) -> Map<usize, (usize, usize, E)> {
        self.spec_edges()
    }

    open spec fn spec_ingoing_set(&self, vt: usize) -> Set<usize> {
        self.spec_ingoing(vt)
    }

    open spec fn spec_outgoing_set(&self, vt: usize) -> Set<usize> {
        self.spec_outgoing(vt)
    }

    /// # Returns
    /// `(src_vt, dst_vt, descriptor)` of edge `et`, which must exist.
    fn edge(&self, et: usize) -> (r: (usize, usize, &E))
        ensures
            (r.0, r.1, *r.2) == self.spec_edges()[et],
    {
        match self.et_to_e.get(&et) {
            Some(e) => e.view(),
            None => vstd::pervasive::unreached(),
        }
    }

    /// # Returns
    /// Number of edges.
    fn edge_count(&self) -> (n: usize)
        ensures
            n == self.spec_edges().len(),
    {
        proof {
            assert(self.spec_edges().dom() =~= self.et_to_e@.dom());
        }
        self.et_to_e.len()
    }

    /// # Returns
    /// The tokens of the edges, each once, in no particular order.
    fn edge_tokens(&self) -> (r: Vec<usize>)
        ensures
            r@.to_set() == self.spec_edges().dom(),
            r@.no_duplicates(),
    {
        let r = keys_of(&self.et_to_e);
        proof {
            assert(self.spec_edges().dom() =~= self.et_to_e@.dom());
        }
        r
    }

    /// # Returns
    /// Every edge as `(src_vt, dst_vt, descriptor)`, in no particular order.
    fn edges(&self) -> (r: Vec<(usize, usize, &E)>)
        ensures
            exists|ks: Seq<usize>| #![trigger ks.to_set()]
                ks.to_set() == self.spec_edges().dom() && ks.no_duplicates() && ks.len() == r@.len()
                && forall|i: int| 0 <= i < ks.len() ==> ((#[trigger] r@[i]).0, r@[i].1, *r@[i].2) == self.spec_edges()[ks[i]],
    {
        let ks = keys_of(&self.et_to_e);
        let mut r: Vec<(usize, usize, &E)> = Vec::new();
        let mut i: usize = 0;
        while i < ks.len()
            invariant
                i <= ks@.len(),
                ks@.to_set() == self.et_to_e@.dom(),
                r@.len() == i,
                forall|q: int| 0 <= q < i ==> ((#[trigger] r@[q]).0, r@[q].1, *r@[q].2) == self.spec_edges()[ks@[q]],
            decreases ks@.len() - i,
        {
            assert(ks@.to_set().contains(ks@[i as int]));
            let e = match self.et_to_e.get(&ks[i]) {
                Some(e) => e,
                None => vstd::pervasive::unreached(),
            };
            r.push(e.view());
            i = i + 1;
        }
        proof {
            assert(ks@.to_set() =~= self.spec_edges().dom());
        }
        r
    }

    /// # Returns
    /// Tokens of the edges entering `vt` (of all its edges, when undirected), each once; `vt`
    /// must exist.
    fn ingoing_edges(&self, vt: usize) -> (r: Vec<usize>)
        ensures
            r@.to_set() == self.spec_ingoing(vt),
            r@.no_duplicates(),
    {
        proof { self.lemma_links(vt); }
        let mut out: Vec<usize> = Vec::new();
        let mut seen: HashSet<usize> = HashSet::new();
        proof { assert(out@.to_set() =~= seen@); }
        collect_tokens(Self::links_of(&self.pred, vt), &mut out, &mut seen);
        if Dir::is_undirected() {
            collect_tokens(Self::links_of(&self.adj_map, vt), &mut out, &mut seen);
        }
        proof {
            assert(out@.to_set() =~= self.spec_ingoing(vt));
        }
        out
    }

    /// # Returns
    /// Tokens of the edges leaving `vt` (of all its edges, when undirected), each once; `vt`
    /// must exist.
    fn outgoing_edges(&self, vt: usize) -> (r: Vec<usize>)
        ensures
            r@.to_set() == self.spec_outgoing(vt),
            r@.no_duplicates(),
    {
        proof { self.lemma_links(vt); }
        let mut out: Vec<usize> = Vec::new();
        let mut seen: HashSet<usize> = HashSet::new();
        proof { assert(out@.to_set() =~= seen@); }
        collect_tokens(Self::links_of(&self.adj_map, vt), &mut out, &mut seen);
        if Dir::is_undirected() {
            collect_tokens(Self::links_of(&self.pred, vt), &mut out, &mut seen);
        }
        proof {
            assert(out@.to_set() =~= self.spec_outgoing(vt));
        }
        out
    }

    /// # Returns
    /// `true` if `et` is the token of an edge.
    fn has_et(&self, et: usize) -> (b: bool)
        ensures
            b == self.spec_edges().contains_key(et),
    {
        self.et_to_e.contains_key(&et)
    }
}

impl<V, E, Dir: Direction> MutEdges for AdjMap<V, E, Dir> {
    open spec fn spec_has_free_et(&self) -> bool {
        self.spec_et_free()
    }

    /// Removal first looks the pair up among the edges entering `src_vt` from `dst_vt`, so
    /// some edge must go from `dst_vt` to `src_vt`: `et` itself, passed in reverse, or another.
    open spec fn spec_can_remove_edge(&self, src_vt: usize, dst_vt: usize, et: usize) -> bool {
        exists|t: usize| #[trigger] self.spec_edges().contains_key(t)
            && self.spec_edges()[t].0 == dst_vt && self.spec_edges()[t].1 == src_vt
    }

    /// # Returns
    /// `true` if another edge can be added.
    fn has_free_et(&mut self) -> (b: bool)
        ensures
            b == old(self).spec_et_free(),
            *final(self) == *old(self),
    {
        self.et_provider.has_next()
    }

    /// # Returns
    /// `(src_vt, dst_vt, descriptor)` of edge `et`, which must exist, the descriptor to change
    /// in place.
    fn edge_mut(&mut self, et: usize) -> (r: (usize, usize, &mut E))
        ensures
            (r.0, r.1, *r.2) == old(self).spec_edges()[et],
            final(self).wf(),
            final(self).spec_edges() == old(self).spec_edges().insert(et, (r.0, r.1, *final(r.2))),
            final(self).spec_vertices() == old(self).spec_vertices(),
    {
        proof {
            assert(self.et_to_e@.dom().insert(et) =~= self.et_to_e@.dom());
        }
        match value_mut(&mut self.et_to_e, et) {
            Some(e) => e.view_mut(),
            None => vstd::pervasive::unreached(),
        }
    }

    /// Adds `edge` from vertex `src_vt` to vertex `dst_vt`; both must exist.
    ///
    /// # Returns
    /// The token of the new edge, never handed out before: the provider's next one, after
    /// which the provider moves one up (or runs out, after `usize::MAX`).
    fn add_edge(&mut self, src_vt: usize, dst_vt: usize, edge: E) -> (et: usize)
        ensures
            final(self).wf(),
            et == old(self).spec_next_et(),
            et < usize::MAX ==> final(self).spec_next_et() == et + 1 && final(self).spec_et_free(),
            et == usize::MAX ==> !final(self).spec_et_free(),
            final(self).spec_next_vt() == old(self).spec_next_vt(),
            !old(self).spec_edges().contains_key(et),
            final(self).spec_edges() == old(self).spec_edges().insert(et, (src_vt, dst_vt, edge)),
            final(self).spec_vertices() == old(self).spec_vertices(),
            final(self).spec_vt_free() == old(self).spec_vt_free(),
    {
        let ghost old_self = *self;
        let et = match self.et_provider.get() {
            Some(t) => t,
            None => vstd::pervasive::unreached(),
        };
        push_token(&mut self.adj_map, src_vt, dst_vt, et);
        push_token(&mut self.pred, dst_vt, src_vt, et);
        self.et_to_e.insert(et, Edge::init(src_vt, dst_vt, edge));
        proof {
            let ends = self.et_to_e@;
            assert(!old_self.et_to_e@.contains_key(et));
            assert(self.spec_edges() =~= old_self.spec_edges().insert(et, (src_vt, dst_vt, edge)));
            // The old lists only hold old tokens, so the new token is not among them.
            assert forall|a: usize, b: usize| #![trigger old_self.adj_map@[a]@[b]]
                old_self.adj_map@.contains_key(a) && old_self.adj_map@[a]@.contains_key(b)
                implies !old_self.adj_map@[a]@[b]@.contains(et) by {
                if old_self.adj_map@[a]@[b]@.contains(et) {
                    let k = choose|k: int| 0 <= k < old_self.adj_map@[a]@[b]@.len() && old_self.adj_map@[a]@[b]@[k] == et;
                    assert(old_self.et_to_e@.contains_key(old_self.adj_map@[a]@[b]@[k]));
                }
            }
            assert forall|a: usize, b: usize| #![trigger old_self.pred@[a]@[b]]
                old_self.pred@.contains_key(a) && old_self.pred@[a]@.contains_key(b)
                implies !old_self.pred@[a]@[b]@.contains(et) by {
                if old_self.pred@[a]@[b]@.contains(et) {
                    let k = choose|k: int| 0 <= k < old_self.pred@[a]@[b]@.len() && old_self.pred@[a]@[b]@[k] == et;
                    assert(old_self.et_to_e@.contains_key(old_self.pred@[a]@[b]@[k]));
                }
            }
            let la = if old_self.adj_map@[src_vt]@.contains_key(dst_vt) { old_self.adj_map@[src_vt]@[dst_vt]@ } else { Seq::<usize>::empty() };
            let lp = if old_self.pred@[dst_vt]@.contains_key(src_vt) { old_self.pred@[dst_vt]@[src_vt]@ } else { Seq::<usize>::empty() };
            assert(self.adj_map@[src_vt]@[dst_vt]@ == la.push(et));
            assert(self.pred@[dst_vt]@[src_vt]@ == lp.push(et));
            assert(self.adj_map@[src_vt]@[dst_vt]@[la.len() as int] == et);
            assert(self.pred@[dst_vt]@[src_vt]@[lp.len() as int] == et);
            assert forall|t: usize| #[trigger] ends.contains_key(t) implies {
                let s = ends[t].spec_src();
                let d = ends[t].spec_dst();
                &&& self.vt_to_v@.dom().contains(s)
                &&& self.vt_to_v@.dom().contains(d)
                &&& self.adj_map@[s]@.contains_key(d)
                &&& self.adj_map@[s]@[d]@.contains(t)
                &&& self.pred@[d]@.contains_key(s)
                &&& self.pred@[d]@[s]@.contains(t)
            } by {
                if t != et {
                    let s = ends[t].spec_src();
                    let d = ends[t].spec_dst();
                    assert(old_self.et_to_e@.contains_key(t));
                    let ka = choose|k: int| 0 <= k < old_self.adj_map@[s]@[d]@.len() && old_self.adj_map@[s]@[d]@[k] == t;
                    if s == src_vt && d == dst_vt {
                        assert(self.adj_map@[s]@[d]@[ka] == t);
                    } else if s == src_vt {
                        assert(self.adj_map@[s]@[d] == old_self.adj_map@[s]@[d]);
                    } else {
                        assert(self.adj_map@[s] == old_self.adj_map@[s]);
                    }
                    let kp = choose|k: int| 0 <= k < old_self.pred@[d]@[s]@.len() && old_self.pred@[d]@[s]@[k] == t;
                    if d == dst_vt && s == src_vt {
                        assert(self.pred@[d]@[s]@[kp] == t);
                    } else if d == dst_vt {
                        assert(self.pred@[d]@[s] == old_self.pred@[d]@[s]);
                    } else {
                        assert(self.pred@[d] == old_self.pred@[d]);
                    }
                }
            }
            assert forall|a: usize, b: usize| #![trigger self.adj_map@[a]@[b]]
                self.adj_map@.contains_key(a) && self.adj_map@[a]@.contains_key(b)
                implies self.adj_map@[a]@[b]@.len() > 0 && self.adj_map@[a]@[b]@.no_duplicates() by {
                if a == src_vt && b == dst_vt {
                    assert(!la.contains(et));
                    assert forall|i: int, j: int| 0 <= i < j < la.push(et).len() implies la.push(et)[i] != la.push(et)[j] by {
                        if j == la.len() as int {
                            assert(la.push(et)[i] == la[i]);
                        }
                    }
                } else if a == src_vt {
                    assert(self.adj_map@[a]@[b] == old_self.adj_map@[a]@[b]);
                } else {
                    assert(self.adj_map@[a] == old_self.adj_map@[a]);
                }
            }
            assert forall|a: usize, b: usize| #![trigger self.pred@[a]@[b]]
                self.pred@.contains_key(a) && self.pred@[a]@.contains_key(b)
                implies self.pred@[a]@[b]@.len() > 0 && self.pred@[a]@[b]@.no_duplicates() by {
                if a == dst_vt && b == src_vt {
                    assert(!lp.contains(et));
                    assert forall|i: int, j: int| 0 <= i < j < lp.push(et).len() implies lp.push(et)[i] != lp.push(et)[j] by {
                        if j == lp.len() as int {
                            assert(lp.push(et)[i] == lp[i]);
                        }
                    }
                } else if a == dst_vt {
                    assert(self.pred@[a]@[b] == old_self.pred@[a]@[b]);
                } else {
                    assert(self.pred@[a] == old_self.pred@[a]);
                }
            }
            assert forall|a: usize, b: usize, k: int| #![trigger self.adj_map@[a]@[b]@[k]]
                self.adj_map@.contains_key(a) && self.adj_map@[a]@.contains_key(b) && 0 <= k < self.adj_map@[a]@[b]@.len() implies {
                    let t = self.adj_map@[a]@[b]@[k];
                    &&& ends.contains_key(t)
                    &&& ends[t].spec_src() == a && ends[t].spec_dst() == b
                } by {
                if a == src_vt && b == dst_vt {
                    if k < la.len() {
                        assert(self.adj_map@[a]@[b]@[k] == old_self.adj_map@[a]@[b]@[k]);
                    }
                } else if a == src_vt {
                    assert(self.adj_map@[a]@[b] == old_self.adj_map@[a]@[b]);
                    assert(old_self.adj_map@[a]@[b]@[k] == self.adj_map@[a]@[b]@[k]);
                } else {
                    assert(self.adj_map@[a] == old_self.adj_map@[a]);
                    assert(old_self.adj_map@[a]@[b]@[k] == self.adj_map@[a]@[b]@[k]);
                }
            }
            assert forall|a: usize, b: usize, k: int| #![trigger self.pred@[a]@[b]@[k]]
                self.pred@.contains_key(a) && self.pred@[a]@.contains_key(b) && 0 <= k < self.pred@[a]@[b]@.len() implies {
                    let t = self.pred@[a]@[b]@[k];
                    &&& ends.contains_key(t)
                    &&& ends[t].spec_dst() == a && ends[t].spec_src() == b
                } by {
                if a == dst_vt && b == src_vt {
                    if k < lp.len() {
                        assert(self.pred@[a]@[b]@[k] == old_self.pred@[a]@[b]@[k]);
                    }
                } else if a == dst_vt {
                    assert(self.pred@[a]@[b] == old_self.pred@[a]@[b]);
                    assert(old_self.pred@[a]@[b]@[k] == self.pred@[a]@[b]@[k]);
                } else {
                    assert(self.pred@[a] == old_self.pred@[a]);
                    assert(old_self.pred@[a]@[b]@[k] == self.pred@[a]@[b]@[k]);
                }
            }
        }
        et
    }

    /// Removes edge `et`, which must exist and join `src_vt` and `dst_vt` (in either order);
    /// its token is recorded as freed.
    ///
    /// # Returns
    /// The descriptor of the removed edge.
    fn remove_edge(&mut self, src_vt: usize, dst_vt: usize, et: usize) -> (e: E)
        ensures
            final(self).wf(),
            e == old(self).spec_edges()[et].2,
            final(self).spec_edges() == old(self).spec_edges().remove(et),
            final(self).spec_vertices() == old(self).spec_vertices(),
            final(self).spec_vt_free() == old(self).spec_vt_free(),
            final(self).spec_et_free() == old(self).spec_et_free(),
            final(self).spec_next_vt() == old(self).spec_next_vt(),
            final(self).spec_next_et() == old(self).spec_next_et(),
    {
        let ghost old_self = *self;
        let (s, d, _) = self.edge(et);
        proof {
            lemma_without_token(old_self.adj_map@[s]@[d]@, et);
            lemma_without_token(old_self.pred@[d]@[s]@, et);
        }
        drop_token(&mut self.adj_map, s, d, et);
        drop_token(&mut self.pred, d, s, et);
        self.et_provider.free(et);
        let removed = match self.et_to_e.remove(&et) {
            Some(x) => x,
            None => vstd::pervasive::unreached(),
        };
        proof {
            let ends = self.et_to_e@;
            let wa = without_token(old_self.adj_map@[s]@[d]@, et);
            let wp = without_token(old_self.pred@[d]@[s]@, et);
            assert(self.spec_edges() =~= old_self.spec_edges().remove(et));
            // Lists other than those of the removed edge do not hold its token.
            assert forall|a: usize, b: usize| #![trigger old_self.adj_map@[a]@[b]]
                old_self.adj_map@.contains_key(a) && old_self.adj_map@[a]@.contains_key(b) && !(a == s && b == d)
                implies !old_self.adj_map@[a]@[b]@.contains(et) by {
                if old_self.adj_map@[a]@[b]@.contains(et) {
                    let k = choose|k: int| 0 <= k < old_self.adj_map@[a]@[b]@.len() && old_self.adj_map@[a]@[b]@[k] == et;
                    assert(old_self.et_to_e@.contains_key(old_self.adj_map@[a]@[b]@[k]));
                }
            }
            assert forall|a: usize, b: usize| #![trigger old_self.pred@[a]@[b]]
                old_self.pred@.contains_key(a) && old_self.pred@[a]@.contains_key(b) && !(a == d && b == s)
                implies !old_self.pred@[a]@[b]@.contains(et) by {
                if old_self.pred@[a]@[b]@.contains(et) {
                    let k = choose|k: int| 0 <= k < old_self.pred@[a]@[b]@.len() && old_self.pred@[a]@[b]@[k] == et;
                    assert(old_self.et_to_e@.contains_key(old_self.pred@[a]@[b]@[k]));
                }
            }
            assert forall|t: usize| #[trigger] ends.contains_key(t) implies {
                let s2 = ends[t].spec_src();
                let d2 = ends[t].spec_dst();
                &&& self.vt_to_v@.dom().contains(s2)
                &&& self.vt_to_v@.dom().contains(d2)
                &&& self.adj_map@[s2]@.contains_key(d2)
                &&& self.adj_map@[s2]@[d2]@.contains(t)
                &&& self.pred@[d2]@.contains_key(s2)
                &&& self.pred@[d2]@[s2]@.contains(t)
            } by {
                let s2 = ends[t].spec_src();
                let d2 = ends[t].spec_dst();
                assert(old_self.et_to_e@.contains_key(t));
                assert(t != et);
                if s2 == s && d2 == d {
                    assert(wa.contains(t));
                    assert(wa.len() > 0);
                } else if s2 == s {
                    assert(self.adj_map@[s2]@[d2] == old_self.adj_map@[s2]@[d2]);
                } else {
                    assert(self.adj_map@[s2] == old_self.adj_map@[s2]);
                }
                if d2 == d && s2 == s {
                    assert(wp.contains(t));
                    assert(wp.len() > 0);
                } else if d2 == d {
                    assert(self.pred@[d2]@[s2] == old_self.pred@[d2]@[s2]);
                } else {
                    assert(self.pred@[d2] == old_self.pred@[d2]);
                }
            }
            assert forall|a: usize, b: usize| #![trigger self.adj_map@[a]@[b]]
                self.adj_map@.contains_key(a) && self.adj_map@[a]@.contains_key(b)
                implies self.adj_map@[a]@[b]@.len() > 0 && self.adj_map@[a]@[b]@.no_duplicates() by {
                if a == s && b == d {
                } else if a == s {
                    assert(self.adj_map@[a]@[b] == old_self.adj_map@[a]@[b]);
                } else {
                    assert(self.adj_map@[a] == old_self.adj_map@[a]);
                }
            }
            assert forall|a: usize, b: usize| #![trigger self.pred@[a]@[b]]
                self.pred@.contains_key(a) && self.pred@[a]@.contains_key(b)
                implies self.pred@[a]@[b]@.len() > 0 && self.pred@[a]@[b]@.no_duplicates() by {
                if a == d && b == s {
                } else if a == d {
                    assert(self.pred@[a]@[b] == old_self.pred@[a]@[b]);
                } else {
                    assert(self.pred@[a] == old_self.pred@[a]);
                }
            }
            assert forall|a: usize, b: usize, k: int| #![trigger self.adj_map@[a]@[b]@[k]]
                self.adj_map@.contains_key(a) && self.adj_map@[a]@.contains_key(b) && 0 <= k < self.adj_map@[a]@[b]@.len() implies {
                    let t = self.adj_map@[a]@[b]@[k];
                    &&& ends.contains_key(t)
                    &&& ends[t].spec_src() == a && ends[t].spec_dst() == b
                } by {
                let t = self.adj_map@[a]@[b]@[k];
                if a == s && b == d {
                    assert(wa.len() > 0);
                    assert(self.adj_map@[a]@[b]@ == wa);
                    assert(wa[k] == t);
                    assert(wa.contains(t));
                    assert(old_self.adj_map@[a]@[b]@.contains(t));
                    let k2 = choose|k2: int| 0 <= k2 < old_self.adj_map@[a]@[b]@.len() && old_self.adj_map@[a]@[b]@[k2] == t;
                    assert(old_self.et_to_e@.contains_key(old_self.adj_map@[a]@[b]@[k2]));
                } else if a == s {
                    assert(self.adj_map@[a]@[b] == old_self.adj_map@[a]@[b]);
                    assert(old_self.adj_map@[a]@[b]@[k] == t);
                    assert(old_self.adj_map@[a]@[b]@.contains(t));
                } else {
                    assert(self.adj_map@[a] == old_self.adj_map@[a]);
                    assert(old_self.adj_map@[a]@[b]@[k] == t);
                    assert(old_self.adj_map@[a]@[b]@.contains(t));
                }
            }
            assert forall|a: usize, b: usize, k: int| #![trigger self.pred@[a]@[b]@[k]]
                self.pred@.contains_key(a) && self.pred@[a]@.contains_key(b) && 0 <= k < self.pred@[a]@[b]@.len() implies {
                    let t = self.pred@[a]@[b]@[k];
                    &&& ends.contains_key(t)
                    &&& ends[t].spec_dst() == a && ends[t].spec_src() == b
                } by {
                let t = self.pred@[a]@[b]@[k];
                if a == d && b == s {
                    assert(wp.len() > 0);
                    assert(self.pred@[a]@[b]@ == wp);
                    assert(wp[k] == t);
                    assert(wp.contains(t));
                    assert(old_self.pred@[a]@[b]@.contains(t));
                    let k2 = choose|k2: int| 0 <= k2 < old_self.pred@[a]@[b]@.len() && old_self.pred@[a]@[b]@[k2] == t;
                    assert(old_self.et_to_e@.contains_key(old_self.pred@[a]@[b]@[k2]));
                } else if a == d {
                    assert(self.pred@[a]@[b] == old_self.pred@[a]@[b]);
                    assert(old_self.pred@[a]@[b]@[k] == t);
                    assert(old_self.pred@[a]@[b]@.contains(t));
                } else {
                    assert(self.pred@[a] == old_self.pred@[a]);
                    assert(old_self.pred@[a]@[b]@[k] == t);
                    assert(old_self.pred@[a]@[b]@.contains(t));
                }
            }
        }
        removed.into_inner()
    }
}

} // verus!
