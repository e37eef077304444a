//! Structures and traits that describe edges and anything related to them.

pub mod descriptors;
pub mod direction;

use vstd::prelude::*;

pub use direction::{Directed, Direction, Undirected};

verus! {

/// An edge descriptor together with the tokens of the vertices it was added between.
#[derive(Debug)]
pub struct Edge<E> {
    inner: E,
    src_vt: usize,
    dst_vt: usize,
}

impl<E> Edge<E> {
    /// The descriptor.
    pub closed spec fn spec_inner(&self) -> E {
        self.inner
    }

    /// Token of the source vertex.
    pub closed spec fn spec_src(&self) -> usize {
        self.src_vt
    }

    /// Token of the destination vertex.
    pub closed spec fn spec_dst(&self) -> usize {
        self.dst_vt
    }

    /// # Returns
    /// An edge from `src_vt` to `dst_vt` described by `inner`.
    pub fn init(src_vt: usize, dst_vt: usize, inner: E) -> (e: Self)
        ensures
            e.spec_src() == src_vt,
            e.spec_dst() == dst_vt,
            e.spec_inner() == inner,
    {
        Edge { src_vt, dst_vt, inner }
    }

    /// # Returns
    /// `(src_vt, dst_vt, descriptor)`.
    pub fn view(&self) -> (r: (usize, usize, &E))
        ensures
            r.0 == self.spec_src(),
            r.1 == self.spec_dst(),
            *r.2 == self.spec_inner(),
    {
        (self.src_vt, self.dst_vt, &self.inner)
    }

    /// # Returns
    /// `(src_vt, dst_vt, descriptor)`, the descriptor mutably borrowed.
    pub fn view_mut(&mut self) -> (r: (usize, usize, &mut E))
        ensures
            r.0 == old(self).spec_src(),
            r.1 == old(self).spec_dst(),
            *r.2 == old(self).spec_inner(),
            final(self).spec_src() == old(self).spec_src(),
            final(self).spec_dst() == old(self).spec_dst(),
            final(self).spec_inner() == *final(r.2),
    {
        (self.src_vt, self.dst_vt, &mut self.inner)
    }

    /// # Returns
    /// The descriptor.
    pub fn into_inner(self) -> (e: E)
        ensures
            e == self.spec_inner(),
    {
        self.inner
    }
}

} // verus!
