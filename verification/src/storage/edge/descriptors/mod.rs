//! Descriptors of edges: what connects which vertex tokens.
//!
//! Each edge, in the most general sense, connects a set of sources to a set of destinations;
//! an ordinary edge connects exactly two vertices. An undirected edge treats each of its
//! vertices as both a source and a destination.

pub mod edge;
pub mod hyperedges;

use vstd::prelude::*;

use crate::storage::StorageError;

pub use edge::{DirectedEdge, Edge, UndirectedEdge};
pub use hyperedges::{DirHyperedge, HashedDirHyperedge, HashedHyperedge, Hyperedge, UnorderedSet};
pub use hyperedges::uniform::{ArrKUniformDirHyperedge, ArrKUniformHyperedge, KElementCollection, KUniformDirHyperedge, KUniformHyperedge};

verus! {

/// `true` if `s` holds `x`.
fn seq_has(s: &Vec<usize>, x: usize) -> (b: bool)
    ensures
        b == s@.contains(x),
{
    let mut k: usize = 0;
    while k < s.len()
        invariant
            k <= s@.len(),
            forall|q: int| 0 <= q < k ==> s@[q] != x,
        decreases s@.len() - k,
    {
        if s[k] == x {
            return true;
        }
        k = k + 1;
    }
    false
}

/// Describes what is expected from an edge: which vertex tokens are its sources and which
/// its destinations. For an undirected edge both are all of its vertices.
pub trait EdgeDescriptor: Sized {
    /// The edge is directed.
    spec fn spec_is_directed() -> bool;

    /// Tokens of the sources (of all vertices, when undirected).
    spec fn spec_sources(&self) -> Set<usize>;

    /// Tokens of the destinations (of all vertices, when undirected).
    spec fn spec_destinations(&self) -> Set<usize>;

    /// How many tokens `get_sources` lists.
    spec fn spec_sources_count(&self) -> nat;

    /// How many tokens `get_destinations` lists.
    spec fn spec_destinations_count(&self) -> nat;

    /// # Returns
    /// `true` if the edge has a direction.
    fn is_directed() -> (b: bool)
        ensures
            b == Self::spec_is_directed(),
    ;

    /// # Returns
    /// `true` if the edge has no direction.
    fn is_undirected() -> (b: bool)
        ensures
            b == !Self::spec_is_directed(),
    ;

    /// # Returns
    /// Tokens of the source vertices (of all vertices, when undirected).
    fn get_sources(&self) -> (r: Vec<usize>)
        ensures
            r@.to_set() == self.spec_sources(),
            r@.len() == self.spec_sources_count(),
    ;

    /// # Returns
    /// Tokens of the destination vertices (of all vertices, when undirected).
    fn get_destinations(&self) -> (r: Vec<usize>)
        ensures
            r@.to_set() == self.spec_destinations(),
            r@.len() == self.spec_destinations_count(),
    ;

    /// # Returns
    /// `true` if `vt` is the token of a source.
    fn is_source(&self, vt: &usize) -> (b: bool)
        ensures
            b == self.spec_sources().contains(*vt),
    {
        let s = self.get_sources();
        let b = seq_has(&s, *vt);
        proof {
            if b {
                assert(s@.to_set().contains(*vt));
            }
        }
        b
    }

    /// # Returns
    /// `true` if `vt` is the token of a destination.
    fn is_destination(&self, vt: &usize) -> (b: bool)
        ensures
            b == self.spec_destinations().contains(*vt),
    {
        let s = self.get_destinations();
        let b = seq_has(&s, *vt);
        proof {
            if b {
                assert(s@.to_set().contains(*vt));
            }
        }
        b
    }

    /// # Returns
    /// `true` if `vt` is the token of a source or of a destination.
    fn contains(&self, vt: &usize) -> (b: bool)
        ensures
            b == (self.spec_sources().contains(*vt) || self.spec_destinations().contains(*vt)),
    {
        self.is_source(vt) || self.is_destination(vt)
    }

    /// # Returns
    /// Number of tokens that `get_sources` lists.
    fn sources_count(&self) -> (n: usize)
        ensures
            n == self.spec_sources_count(),
    {
        self.get_sources().len()
    }

    /// # Returns
    /// Number of tokens that `get_destinations` lists.
    fn destinations_count(&self) -> (n: usize)
        ensures
            n == self.spec_destinations_count(),
    {
        self.get_destinations().len()
    }
}

/// Mutability that keeps the number of sources and destinations: tokens can be replaced.
pub trait FixedSizeMutEdgeDescriptor: EdgeDescriptor {
    /// `new` is `old` with the source `target` replaced by `vt`.
    spec fn replaced_src(old: Self, new: Self, target: usize, vt: usize) -> bool;

    /// `new` is `old` with the destination `target` replaced by `vt`.
    spec fn replaced_dst(old: Self, new: Self, target: usize, vt: usize) -> bool;

    /// The edge holds each of its tokens at one place only, so that replacing a token changes
    /// that token alone: the two ends of an ordinary edge differ, a hyperedge kept as a list
    /// has no repeated token, and a hyperedge kept as sets always qualifies.
    spec fn spec_simple(&self) -> bool;

    /// Replaces the source `target_vt` by `vt`.
    ///
    /// When the edge is simple, `target_vt` is a source and `vt` is not, the sources become
    /// those of before with `target_vt` swapped for `vt`, and a directed edge keeps its
    /// destinations.
    fn replace_src(&mut self, target_vt: &usize, vt: usize)
        ensures
            Self::replaced_src(*old(self), *final(self), *target_vt, vt),
            old(self).spec_simple() && old(self).spec_sources().contains(*target_vt)
                && !old(self).spec_sources().contains(vt) ==> {
                &&& final(self).spec_sources() == old(self).spec_sources().remove(*target_vt).insert(vt)
                &&& Self::spec_is_directed() ==> final(self).spec_destinations() == old(self).spec_destinations()
            },
    ;

    /// Replaces the destination `target_vt` by `vt`.
    ///
    /// When the edge is simple, `target_vt` is a destination (or, undirected, a source) and
    /// `vt` is not a destination, the destinations become those of before with `target_vt`
    /// swapped for `vt`, and a directed edge keeps its sources.
    fn replace_dst(&mut self, target_vt: &usize, vt: usize)
        ensures
            Self::replaced_dst(*old(self), *final(self), *target_vt, vt),
            old(self).spec_simple() && (old(self).spec_destinations().contains(*target_vt)
                || (!Self::spec_is_directed() && old(self).spec_sources().contains(*target_vt)))
                && !old(self).spec_destinations().contains(vt) ==> {
                &&& final(self).spec_destinations() == old(self).spec_destinations().remove(*target_vt).insert(vt)
                &&& Self::spec_is_directed() ==> final(self).spec_sources() == old(self).spec_sources()
            },
    ;
}

/// Checked versions of the methods of `FixedSizeMutEdgeDescriptor`, which test their
/// preconditions first.
pub trait CheckedFixedSizeMutEdgeDescriptor: FixedSizeMutEdgeDescriptor {
    /// Replaces the source `target_vt` by `vt` if `target_vt` is a source and `vt` is not.
    ///
    /// # Returns
    /// * `Ok`: If the source was replaced; for a simple edge the sources are then those of
    ///   before with `target_vt` swapped for `vt`, and a directed edge keeps its destinations.
    /// * `Err`: `InvalidVertexToken(target_vt)` if `target_vt` is not a source, else
    ///   `InvalidVertexToken(vt)` if `vt` already is one; nothing changes then.
    fn replace_src_checked(&mut self, target_vt: &usize, vt: usize) -> (r: Result<(), StorageError>)
        ensures
            r is Ok <==> old(self).spec_sources().contains(*target_vt) && !old(self).spec_sources().contains(vt),
            r is Ok ==> Self::replaced_src(*old(self), *final(self), *target_vt, vt),
            r is Ok && old(self).spec_simple() ==> {
                &&& final(self).spec_sources() == old(self).spec_sources().remove(*target_vt).insert(vt)
                &&& Self::spec_is_directed() ==> final(self).spec_destinations() == old(self).spec_destinations()
            },
            r matches Err(e) ==> *final(self) == *old(self) && e == (if !old(self).spec_sources().contains(*target_vt) {
                StorageError::InvalidVertexToken(*target_vt)
            } else {
                StorageError::InvalidVertexToken(vt)
            }),
    {
        if !self.is_source(target_vt) {
            Err(StorageError::InvalidVertexToken(*target_vt))
        } else if self.is_source(&vt) {
            Err(StorageError::InvalidVertexToken(vt))
        } else {
            self.replace_src(target_vt, vt);
            Ok(())
        }
    }

    /// Replaces the destination `target_vt` by `vt` if `target_vt` is a destination (or, when
    /// undirected, a source) and `vt` is not a destination.
    ///
    /// # Returns
    /// * `Ok`: If the destination was replaced; for a simple edge the destinations are then
    ///   those of before with `target_vt` swapped for `vt`, and a directed edge keeps its
    ///   sources.
    /// * `Err`: `InvalidVertexToken(target_vt)` if `target_vt` is no such end, else
    ///   `InvalidVertexToken(vt)` if `vt` already is a destination; nothing changes then.
    fn replace_dst_checked(&mut self, target_vt: &usize, vt: usize) -> (r: Result<(), StorageError>)
        ensures
            r is Ok <==> (old(self).spec_destinations().contains(*target_vt)
                || (!Self::spec_is_directed() && old(self).spec_sources().contains(*target_vt)))
                && !old(self).spec_destinations().contains(vt),
            r is Ok ==> Self::replaced_dst(*old(self), *final(self), *target_vt, vt),
            r is Ok && old(self).spec_simple() ==> {
                &&& final(self).spec_destinations() == old(self).spec_destinations().remove(*target_vt).insert(vt)
                &&& Self::spec_is_directed() ==> final(self).spec_sources() == old(self).spec_sources()
            },
            r matches Err(e) ==> *final(self) == *old(self) && e == (if !(old(self).spec_destinations().contains(*target_vt)
                || (!Self::spec_is_directed() && old(self).spec_sources().contains(*target_vt))) {
                StorageError::InvalidVertexToken(*target_vt)
            } else {
                StorageError::InvalidVertexToken(vt)
            }),
    {
        if !(self.is_destination(target_vt) || (Self::is_undirected() && self.is_source(target_vt))) {
            Err(StorageError::InvalidVertexToken(*target_vt))
        } else if self.is_destination(&vt) {
            Err(StorageError::InvalidVertexToken(vt))
        } else {
            self.replace_dst(target_vt, vt);
            Ok(())
        }
    }
}

/// Mutability that changes the number of sources and destinations.
pub trait MutEdgeDescriptor: FixedSizeMutEdgeDescriptor {
    /// `new` is `old` also connecting `src` to `dst`.
    spec fn added(old: Self, new: Self, src: usize, dst: usize) -> bool;

    /// `new` is `old` with `vt` also a source.
    spec fn added_src(old: Self, new: Self, vt: usize) -> bool;

    /// `new` is `old` with `vt` also a destination.
    spec fn added_dst(old: Self, new: Self, vt: usize) -> bool;

    /// `new` is `old` without `vt`.
    spec fn removed(old: Self, new: Self, vt: usize) -> bool;

    /// Connects `src_vt` to `dst_vt` through this edge: `src_vt` becomes a source and
    /// `dst_vt` a destination (when undirected, both become both), and nothing else changes.
    fn add(&mut self, src_vt: usize, dst_vt: usize)
        ensures
            Self::added(*old(self), *final(self), src_vt, dst_vt),
            Self::spec_is_directed() ==> final(self).spec_sources() == old(self).spec_sources().insert(src_vt)
                && final(self).spec_destinations() == old(self).spec_destinations().insert(dst_vt),
            !Self::spec_is_directed() ==> final(self).spec_sources() == old(self).spec_sources().insert(src_vt).insert(dst_vt)
                && final(self).spec_destinations() == old(self).spec_destinations().insert(src_vt).insert(dst_vt),
    ;

    /// Adds `vt` as a source (when undirected, as a vertex); a directed edge keeps its
    /// destinations.
    fn add_src(&mut self, vt: usize)
        ensures
            Self::added_src(*old(self), *final(self), vt),
            final(self).spec_sources() == old(self).spec_sources().insert(vt),
            Self::spec_is_directed() ==> final(self).spec_destinations() == old(self).spec_destinations(),
    ;

    /// Adds `vt` as a destination (when undirected, as a vertex); a directed edge keeps its
    /// sources.
    fn add_dst(&mut self, vt: usize)
        ensures
            Self::added_dst(*old(self), *final(self), vt),
            final(self).spec_destinations() == old(self).spec_destinations().insert(vt),
            Self::spec_is_directed() ==> final(self).spec_sources() == old(self).spec_sources(),
    ;

    /// Removes `vt` along with all its related data: it is then neither a source nor a
    /// destination, and every other token stays where it was.
    fn remove(&mut self, vt: &usize)
        ensures
            Self::removed(*old(self), *final(self), *vt),
            final(self).spec_sources() == old(self).spec_sources().remove(*vt),
            final(self).spec_destinations() == old(self).spec_destinations().remove(*vt),
    ;
}

/// Checked versions of the methods of `MutEdgeDescriptor`, which test their preconditions
/// first.
pub trait CheckedMutEdgeDescriptor: MutEdgeDescriptor {
    /// Connects `src_vt` to `dst_vt` unless `src_vt` already is a source and `dst_vt` a
    /// destination.
    ///
    /// # Returns
    /// * `Ok`: If the connection was added: `src_vt` is then a source and `dst_vt` a
    ///   destination, and every source and destination of before stays.
    /// * `Err`: `ConnectionAlreadyExists(src_vt, dst_vt)` otherwise; nothing changes then.
    fn add_checked(&mut self, src_vt: usize, dst_vt: usize) -> (r: Result<(), StorageError>)
        ensures
            r is Ok <==> !(old(self).spec_sources().contains(src_vt) && old(self).spec_destinations().contains(dst_vt)),
            r is Ok ==> Self::added(*old(self), *final(self), src_vt, dst_vt),
            r is Ok ==> final(self).spec_sources().contains(src_vt) && final(self).spec_destinations().contains(dst_vt)
                && old(self).spec_sources().subset_of(final(self).spec_sources())
                && old(self).spec_destinations().subset_of(final(self).spec_destinations()),
            r matches Err(e) ==> *final(self) == *old(self) && e == StorageError::ConnectionAlreadyExists(src_vt, dst_vt),
    {
        if self.is_source(&src_vt) && self.is_destination(&dst_vt) {
            Err(StorageError::ConnectionAlreadyExists(src_vt, dst_vt))
        } else {
            self.add(src_vt, dst_vt);
            Ok(())
        }
    }

    /// Adds `vt` as a source unless it already is one.
    ///
    /// # Returns
    /// * `Ok`: If the source was added.
    /// * `Err`: `VertexAlreadyExists(vt)` otherwise; nothing changes then.
    fn add_src_checked(&mut self, vt: usize) -> (r: Result<(), StorageError>)
        ensures
            r is Ok <==> !old(self).spec_sources().contains(vt),
            r is Ok ==> Self::added_src(*old(self), *final(self), vt),
            r matches Err(e) ==> *final(self) == *old(self) && e == StorageError::VertexAlreadyExists(vt),
    {
        if !self.is_source(&vt) {
            self.add_src(vt);
            Ok(())
        } else {
            Err(StorageError::VertexAlreadyExists(vt))
        }
    }

    /// Adds `vt` as a destination unless it already is one.
    ///
    /// # Returns
    /// * `Ok`: If the destination was added.
    /// * `Err`: `VertexAlreadyExists(vt)` otherwise; nothing changes then.
    fn add_dst_checked(&mut self, vt: usize) -> (r: Result<(), StorageError>)
        ensures
            r is Ok <==> !old(self).spec_destinations().contains(vt),
            r is Ok ==> Self::added_dst(*old(self), *final(self), vt),
            r matches Err(e) ==> *final(self) == *old(self) && e == StorageError::VertexAlreadyExists(vt),
    {
        if !self.is_destination(&vt) {
            self.add_dst(vt);
            Ok(())
        } else {
            Err(StorageError::VertexAlreadyExists(vt))
        }
    }

    /// Removes `vt` if the edge contains it.
    ///
    /// # Returns
    /// * `Ok`: If the token was removed.
    /// * `Err`: `VertexNotFound(vt)` otherwise; nothing changes then.
    fn remove_checked(&mut self, vt: &usize) -> (r: Result<(), StorageError>)
        ensures
            r is Ok <==> (old(self).spec_sources().contains(*vt) || old(self).spec_destinations().contains(*vt)),
            r is Ok ==> Self::removed(*old(self), *final(self), *vt),
            r matches Err(e) ==> *final(self) == *old(self) && e == StorageError::VertexNotFound(*vt),
    {
        if !self.contains(vt) {
            return Err(StorageError::VertexNotFound(*vt));
        }
        self.remove(vt);
        Ok(())
    }
}

} // verus!
