use vstd::prelude::*;
use std::collections::HashSet;
use core::marker::PhantomData;

use super::UnorderedSet;
use crate::storage::edge::descriptors::{
    CheckedFixedSizeMutEdgeDescriptor, CheckedMutEdgeDescriptor, EdgeDescriptor, FixedSizeMutEdgeDescriptor,
    MutEdgeDescriptor,
};

verus! {

/// A [`Hyperedge`] that uses a hash set as its unordered set.
pub type HashedHyperedge = Hyperedge<HashSet<usize>>;

/// An undirected edge that can connect multiple vertices together: a set of vertices, all
/// connected to each other.
#[derive(Debug)]
pub struct Hyperedge<S: UnorderedSet> {
    vertex_set: S,
    phantom: PhantomData<usize>,
}

impl<S: UnorderedSet> Hyperedge<S> {
    /// Tokens of the connected vertices.
    pub closed spec fn spec_vertices(&self) -> Set<usize> {
        self.vertex_set.spec_elems()
    }

    /// # Returns
    /// A hyperedge connecting the vertices of `vts`.
    pub fn init(vts: Vec<usize>) -> (e: Self)
        ensures
            e.spec_vertices() == vts@.to_set(),
    {
        Hyperedge { vertex_set: S::from_vec(vts), phantom: PhantomData }
    }
}

impl<S: UnorderedSet> EdgeDescriptor for Hyperedge<S> {
    open spec fn spec_is_directed() -> bool {
        false
    }

    open spec fn spec_sources(&self) -> Set<usize> {
        self.spec_vertices()
    }

    open spec fn spec_destinations(&self) -> Set<usize> {
        self.spec_vertices()
    }

    open spec fn spec_sources_count(&self) -> nat {
        self.spec_vertices().len()
    }

    open spec fn spec_destinations_count(&self) -> nat {
        self.spec_vertices().len()
    }

    fn is_directed() -> (b: bool) {
        false
    }

    fn is_undirected() -> (b: bool) {
        true
    }

    fn get_sources(&self) -> (r: Vec<usize>) {
        self.vertex_set.iterator()
    }

    fn get_destinations(&self) -> (r: Vec<usize>) {
        self.vertex_set.iterator()
    }

    fn is_source(&self, vt: &usize) -> (b: bool) {
        self.vertex_set.contains(vt)
    }

    fn is_destination(&self, vt: &usize) -> (b: bool) {
        self.vertex_set.contains(vt)
    }

    fn contains(&self, vt: &usize) -> (b: bool) {
        self.vertex_set.contains(vt)
    }

    fn sources_count(&self) -> (n: usize) {
        self.vertex_set.len()
    }

    fn destinations_count(&self) -> (n: usize) {
        self.vertex_set.len()
    }
}

impl<S: UnorderedSet> FixedSizeMutEdgeDescriptor for Hyperedge<S> {
    /// A set holds each token once.
    open spec fn spec_simple(&self) -> bool {
        true
    }

    /// `target`, if connected, is replaced by `vt`.
    open spec fn replaced_src(old: Self, new: Self, target: usize, vt: usize) -> bool {
        new.spec_vertices() == (if old.spec_vertices().contains(target) {
            old.spec_vertices().remove(target).insert(vt)
        } else {
            old.spec_vertices()
        })
    }

    /// `target`, if connected, is replaced by `vt`.
    open spec fn replaced_dst(old: Self, new: Self, target: usize, vt: usize) -> bool {
        Self::replaced_src(old, new, target, vt)
    }

    fn replace_src(&mut self, target_vt: &usize, vt: usize) {
        self.vertex_set.replace(target_vt, vt);
    }

    fn replace_dst(&mut self, target_vt: &usize, vt: usize) {
        self.vertex_set.replace(target_vt, vt);
    }
}

impl<S: UnorderedSet> CheckedFixedSizeMutEdgeDescriptor for Hyperedge<S> {
}

impl<S: UnorderedSet> MutEdgeDescriptor for Hyperedge<S> {
    open spec fn added(old: Self, new: Self, src: usize, dst: usize) -> bool {
        new.spec_vertices() == old.spec_vertices().insert(src).insert(dst)
    }

    open spec fn added_src(old: Self, new: Self, vt: usize) -> bool {
        new.spec_vertices() == old.spec_vertices().insert(vt)
    }

    open spec fn added_dst(old: Self, new: Self, vt: usize) -> bool {
        new.spec_vertices() == old.spec_vertices().insert(vt)
    }

    open spec fn removed(old: Self, new: Self, vt: usize) -> bool {
        new.spec_vertices() == old.spec_vertices().remove(vt)
    }

    fn add(&mut self, src_vt: usize, dst_vt: usize) {
        let mut both: Vec<usize> = Vec::new();
        both.push(src_vt);
        both.push(dst_vt);
        let ghost before = self.vertex_set.spec_elems();
        self.vertex_set.extend_with(both);
        proof {
            assert(both@.to_set() =~= set![src_vt, dst_vt]) by {
                assert(both@[0] == src_vt && both@[1] == dst_vt);
            }
            assert(self.vertex_set.spec_elems() =~= before.insert(src_vt).insert(dst_vt));
        }
    }

    fn add_src(&mut self, vt: usize) {
        self.vertex_set.insert(vt);
    }

    fn add_dst(&mut self, vt: usize) {
        self.vertex_set.insert(vt);
    }

    fn remove(&mut self, vt: &usize) {
        self.vertex_set.remove(vt);
    }
}

impl<S: UnorderedSet> CheckedMutEdgeDescriptor for Hyperedge<S> {
}

} // verus!
