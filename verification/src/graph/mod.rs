use vstd::prelude::*;

verus! {

/// A value that is either finite or one of the two infinities.
#[derive(Debug, Copy, PartialEq, Eq)]
pub enum Magnitude<W> {
    PosInfinite,
    NegInfinite,
    Finite(W),
}

impl<W: Clone> Clone for Magnitude<W> {
    /// The same kind of magnitude; a finite one holds a clone of the value.
    fn clone(&self) -> (c: Self)
        ensures
            match (*self, c) {
                (Magnitude::Finite(a), Magnitude::Finite(b)) => cloned(a, b),
                (Magnitude::PosInfinite, Magnitude::PosInfinite) => true,
                (Magnitude::NegInfinite, Magnitude::NegInfinite) => true,
                _ => false,
            },
    {
        match self {
            Magnitude::PosInfinite => Magnitude::PosInfinite,
            Magnitude::NegInfinite => Magnitude::NegInfinite,
            Magnitude::Finite(w) => Magnitude::Finite(w.clone()),
        }
    }
}

impl<W: Copy> Magnitude<W> {
    /// # Returns
    /// The finite value held by this magnitude. The caller must only call it on a finite
    /// magnitude (an infinite one has no value to hand out).
    pub fn unwrap(self) -> (w: W)
        requires
            self is Finite,
        ensures
            self == Magnitude::Finite(w),
    {
        match self {
            Magnitude::Finite(w) => w,
            _ => vstd::pervasive::unreached(),
        }
    }

    /// # Returns
    /// `true` if this magnitude holds a finite value.
    pub fn is_finite(&self) -> (b: bool)
        ensures
            b == (*self is Finite),
    {
        match self {
            Magnitude::Finite(_) => true,
            _ => false,
        }
    }
}

/// Describes wether edges of a graph have direction or not.
pub trait EdgeDir {
    spec fn spec_is_directed() -> bool;

    /// # Returns
    /// `true` if edges have a direction, `false` otherwise.
    fn is_directed() -> (b: bool)
        ensures
            b == Self::spec_is_directed(),
    ;

    /// # Returns
    /// `true` if edges have no direction, `false` otherwise.
    fn is_undirected() -> (b: bool)
        ensures
            b == !Self::spec_is_directed(),
    ;
}

/// Marker for directed edges.
#[derive(Debug, Clone, Copy)]
pub struct DirectedEdge;

/// Marker for undirected edges.
#[derive(Debug, Clone, Copy)]
pub struct UndirectedEdge;

impl EdgeDir for DirectedEdge {
    open spec fn spec_is_directed() -> bool {
        true
    }

    fn is_directed() -> (b: bool) {
        true
    }

    fn is_undirected() -> (b: bool) {
        false
    }
}

impl EdgeDir for UndirectedEdge {
    open spec fn spec_is_directed() -> bool {
        false
    }

    fn is_directed() -> (b: bool) {
        false
    }

    fn is_undirected() -> (b: bool) {
        true
    }
}

/// Describes what a storage expects from an edge: an id that the storage assigns and a weight.
/// Storages that keep an undirected edge at both of its ends store a clone of it, so a clone
/// must keep the id.
pub trait Edge<W>: Sized + Clone {
    /// Id of the edge.
    spec fn spec_id(&self) -> usize;

    /// The same edge with its id replaced by `id`.
    spec fn spec_with_id(&self, id: usize) -> Self;

    /// Replacing the id yields an edge with that id.
    proof fn lemma_with_id(&self, id: usize)
        ensures
            self.spec_with_id(id).spec_id() == id,
    ;

    /// A clone of an edge has the same id.
    proof fn lemma_clone_keeps_id(&self, c: Self)
        requires
            cloned(*self, c),
        ensures
            c.spec_id() == self.spec_id(),
    ;

    /// # Returns
    /// Id of the edge.
    fn get_id(&self) -> (id: usize)
        ensures
            id == self.spec_id(),
    ;

    /// Sets the id of the edge to `id`, leaving everything else as it was.
    fn set_id(&mut self, id: usize)
        ensures
            *final(self) == old(self).spec_with_id(id),
    ;

    /// # Returns
    /// Weight of the edge.
    fn get_weight(&self) -> &Magnitude<W>;
}

/// An edge that only carries a weight.
#[derive(Debug, PartialEq, Eq)]
pub struct DefaultEdge<W> {
    id: usize,
    weight: Magnitude<W>,
}

impl<W: Clone> DefaultEdge<W> {
    /// Weight of the edge, as a specification value.
    pub closed spec fn spec_weight(&self) -> Magnitude<W> {
        self.weight
    }

    /// # Returns
    /// An edge with finite weight `weight` and id 0 (a storage assigns the real id).
    pub fn init(weight: W) -> (edge: Self)
        ensures
            edge.spec_weight() == Magnitude::Finite(weight),
            edge.spec_id() == 0,
    {
        DefaultEdge { id: 0, weight: Magnitude::Finite(weight) }
    }

    /// # Returns
    /// An edge with weight `weight` (possibly infinite) and id 0.
    pub fn init_magnitude(weight: Magnitude<W>) -> (edge: Self)
        ensures
            edge.spec_weight() == weight,
            edge.spec_id() == 0,
    {
        DefaultEdge { id: 0, weight }
    }
}

impl<W: Clone> DefaultEdge<W> {
    /// Replacing the id of an edge keeps its weight.
    pub proof fn lemma_with_id_keeps_weight(&self, id: usize)
        ensures
            self.spec_with_id(id).spec_weight() == self.spec_weight(),
            self.spec_with_id(id).spec_id() == id,
    {
    }

    /// An edge made from a weight by `from` has that finite weight and id 0.
    pub proof fn lemma_from_weight(weight: W)
        ensures
            <DefaultEdge<W> as vstd::std_specs::convert::FromSpec<W>>::from_spec(weight).spec_weight()
                == Magnitude::Finite(weight),
            <DefaultEdge<W> as vstd::std_specs::convert::FromSpec<W>>::from_spec(weight).spec_id() == 0,
    {
    }
}

impl<W: Clone> Clone for DefaultEdge<W> {
    fn clone(&self) -> (c: Self)
        ensures
            c.spec_id() == self.spec_id(),
            cloned(self.spec_weight(), c.spec_weight()),
    {
        DefaultEdge { id: self.id, weight: self.weight.clone() }
    }
}

impl<W: Clone> Edge<W> for DefaultEdge<W> {
    closed spec fn spec_id(&self) -> usize {
        self.id
    }

    closed spec fn spec_with_id(&self, id: usize) -> Self {
        DefaultEdge { id, weight: self.weight }
    }

    proof fn lemma_with_id(&self, id: usize) {
    }

    proof fn lemma_clone_keeps_id(&self, c: Self) {
    }

    fn get_id(&self) -> (id: usize) {
        self.id
    }

    fn set_id(&mut self, id: usize) {
        self.id = id;
    }

    fn get_weight(&self) -> (w: &Magnitude<W>)
        ensures
            *w == self.spec_weight(),
    {
        &self.weight
    }
}

impl<W> From<W> for DefaultEdge<W> {
    fn from(weight: W) -> (edge: Self) {
        DefaultEdge { id: 0, weight: Magnitude::Finite(weight) }
    }
}

impl<W> vstd::std_specs::convert::FromSpecImpl<W> for DefaultEdge<W> {
    open spec fn obeys_from_spec() -> bool {
        true
    }

    closed spec fn from_spec(weight: W) -> Self {
        DefaultEdge { id: 0, weight: Magnitude::Finite(weight) }
    }
}

} // verus!
