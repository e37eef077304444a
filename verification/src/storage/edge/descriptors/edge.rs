use vstd::prelude::*;

use core::marker::PhantomData;

use super::{CheckedFixedSizeMutEdgeDescriptor, EdgeDescriptor, FixedSizeMutEdgeDescriptor};
use crate::storage::edge::direction::{Directed, Direction, Undirected};

verus! {

/// A directed [`Edge`].
pub type DirectedEdge = Edge<Directed>;

/// An undirected [`Edge`].
pub type UndirectedEdge = Edge<Undirected>;

/// Most common type of edge, that connects two vertices.
///
/// `Dir` tells wether the edge is directed.
#[derive(Debug)]
pub struct Edge<Dir: Direction> {
    src_vt: usize,
    dst_vt: usize,
    phantom: PhantomData<Dir>,
}

impl<Dir: Direction> Edge<Dir> {
    /// Token of the source vertex.
    pub closed spec fn spec_src(&self) -> usize {
        self.src_vt
    }

    /// Token of the destination vertex.
    pub closed spec fn spec_dst(&self) -> usize {
        self.dst_vt
    }

    /// # Returns
    /// An `Edge` that holds the connection between `src_vt` and `dst_vt`.
    pub fn init(src_vt: usize, dst_vt: usize) -> (e: Self)
        ensures
            e.spec_src() == src_vt,
            e.spec_dst() == dst_vt,
    {
        Edge { src_vt, dst_vt, phantom: PhantomData }
    }
}

impl<Dir: Direction> EdgeDescriptor for Edge<Dir> {
    open spec fn spec_is_directed() -> bool {
        Dir::spec_is_directed()
    }

    open spec fn spec_sources(&self) -> Set<usize> {
        if Dir::spec_is_directed() {
            set![self.spec_src()]
        } else {
            set![self.spec_src(), self.spec_dst()]
        }
    }

    open spec fn spec_destinations(&self) -> Set<usize> {
        if Dir::spec_is_directed() {
            set![self.spec_dst()]
        } else {
            set![self.spec_src(), self.spec_dst()]
        }
    }

    open spec fn spec_sources_count(&self) -> nat {
        if !Dir::spec_is_directed() && self.spec_src() != self.spec_dst() {
            2
        } else {
            1
        }
    }

    open spec fn spec_destinations_count(&self) -> nat {
        if !Dir::spec_is_directed() && self.spec_src() != self.spec_dst() {
            2
        } else {
            1
        }
    }

    fn is_directed() -> (b: bool) {
        Dir::is_directed()
    }

    fn is_undirected() -> (b: bool) {
        Dir::is_undirected()
    }

    fn get_sources(&self) -> (r: Vec<usize>)
        ensures
            r@ == (if !Dir::spec_is_directed() && self.spec_src() != self.spec_dst() {
                seq![self.spec_src(), self.spec_dst()]
            } else {
                seq![self.spec_src()]
            }),
    {
        let mut r: Vec<usize> = Vec::new();
        r.push(self.src_vt);
        if Dir::is_undirected() && self.src_vt != self.dst_vt {
            r.push(self.dst_vt);
        }
        proof {
            if !Dir::spec_is_directed() && self.src_vt != self.dst_vt {
                assert(r@ =~= seq![self.src_vt, self.dst_vt]);
                assert(r@.to_set() =~= set![self.src_vt, self.dst_vt]) by {
                    assert(r@[0] == self.src_vt && r@[1] == self.dst_vt);
                }
            } else {
                assert(r@ =~= seq![self.src_vt]);
                assert(r@.to_set() =~= self.spec_sources()) by {
                    assert(r@[0] == self.src_vt);
                }
            }
        }
        r
    }

    fn get_destinations(&self) -> (r: Vec<usize>)
        ensures
            r@ == (if !Dir::spec_is_directed() && self.spec_src() != self.spec_dst() {
                seq![self.spec_dst(), self.spec_src()]
            } else {
                seq![self.spec_dst()]
            }),
    {
        let mut r: Vec<usize> = Vec::new();
        r.push(self.dst_vt);
        if Dir::is_undirected() && self.src_vt != self.dst_vt {
            r.push(self.src_vt);
        }
        proof {
            if !Dir::spec_is_directed() && self.src_vt != self.dst_vt {
                assert(r@ =~= seq![self.dst_vt, self.src_vt]);
                assert(r@.to_set() =~= set![self.src_vt, self.dst_vt]) by {
                    assert(r@[0] == self.dst_vt && r@[1] == self.src_vt);
                }
            } else {
                assert(r@ =~= seq![self.dst_vt]);
                assert(r@.to_set() =~= self.spec_destinations()) by {
                    assert(r@[0] == self.dst_vt);
                }
            }
        }
        r
    }

    fn is_source(&self, vt: &usize) -> (b: bool) {
        self.src_vt == *vt || (Dir::is_undirected() && self.dst_vt == *vt)
    }

    fn is_destination(&self, vt: &usize) -> (b: bool) {
        self.dst_vt == *vt || (Dir::is_undirected() && self.src_vt == *vt)
    }

    fn contains(&self, vt: &usize) -> (b: bool) {
        self.src_vt == *vt || self.dst_vt == *vt
    }

    fn sources_count(&self) -> (n: usize) {
        self.get_sources().len()
    }

    fn destinations_count(&self) -> (n: usize) {
        self.get_destinations().len()
    }
}

impl<Dir: Direction> FixedSizeMutEdgeDescriptor for Edge<Dir> {
    /// The two ends differ.
    open spec fn spec_simple(&self) -> bool {
        self.spec_src() != self.spec_dst()
    }

    /// The source is replaced when it is `target`; otherwise, when undirected, the destination
    /// is; otherwise nothing changes.
    open spec fn replaced_src(old: Self, new: Self, target: usize, vt: usize) -> bool {
        if old.spec_src() == target {
            new.spec_src() == vt && new.spec_dst() == old.spec_dst()
        } else if !Dir::spec_is_directed() {
            new.spec_src() == old.spec_src() && new.spec_dst() == vt
        } else {
            new == old
        }
    }

    /// The destination is replaced when it is `target`; otherwise, when undirected, the source
    /// is; otherwise nothing changes.
    open spec fn replaced_dst(old: Self, new: Self, target: usize, vt: usize) -> bool {
        if old.spec_dst() == target {
            new.spec_dst() == vt && new.spec_src() == old.spec_src()
        } else if !Dir::spec_is_directed() {
            new.spec_dst() == old.spec_dst() && new.spec_src() == vt
        } else {
            new == old
        }
    }

    fn replace_src(&mut self, target_vt: &usize, vt: usize) {
        if self.src_vt == *target_vt {
            self.src_vt = vt;
        } else if Dir::is_undirected() {
            self.dst_vt = vt;
        }
    }

    fn replace_dst(&mut self, target_vt: &usize, vt: usize) {
        if self.dst_vt == *target_vt {
            self.dst_vt = vt;
        } else if Dir::is_undirected() {
            self.src_vt = vt;
        }
    }
}

impl<Dir: Direction> CheckedFixedSizeMutEdgeDescriptor for Edge<Dir> {
}

} // verus!
