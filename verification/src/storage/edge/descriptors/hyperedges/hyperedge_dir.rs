use vstd::prelude::*;
use std::collections::HashSet;
use core::marker::PhantomData;

use super::UnorderedSet;
use crate::storage::edge::descriptors::{
    CheckedFixedSizeMutEdgeDescriptor, CheckedMutEdgeDescriptor, EdgeDescriptor, FixedSizeMutEdgeDescriptor,
    MutEdgeDescriptor,
};

verus! {

/// A [`DirHyperedge`] that uses hash sets as its unordered sets.
pub type HashedDirHyperedge = DirHyperedge<HashSet<usize>>;

/// A directed edge that connects multiple sources to multiple destinations: every source is
/// connected to every destination.
#[derive(Debug)]
pub struct DirHyperedge<S: UnorderedSet> {
    source_set: S,
    destination_set: S,
    phantom: PhantomData<usize>,
}

impl<S: UnorderedSet> DirHyperedge<S> {
    /// Tokens of the sources.
    pub closed spec fn spec_source_set(&self) -> Set<usize> {
        self.source_set.spec_elems()
    }

    /// Tokens of the destinations.
    pub closed spec fn spec_destination_set(&self) -> Set<usize> {
        self.destination_set.spec_elems()
    }

    /// # Returns
    /// A hyperedge connecting every vertex of `src_vts` to every vertex of `dst_vts`.
    pub fn init(src_vts: Vec<usize>, dst_vts: Vec<usize>) -> (e: Self)
        ensures
            e.spec_source_set() == src_vts@.to_set(),
            e.spec_destination_set() == dst_vts@.to_set(),
    {
        DirHyperedge { source_set: S::from_vec(src_vts), destination_set: S::from_vec(dst_vts), phantom: PhantomData }
    }
}

impl<S: UnorderedSet> EdgeDescriptor for DirHyperedge<S> {
    open spec fn spec_is_directed() -> bool {
        true
    }

    open spec fn spec_sources(&self) -> Set<usize> {
        self.spec_source_set()
    }

    open spec fn spec_destinations(&self) -> Set<usize> {
        self.spec_destination_set()
    }

    open spec fn spec_sources_count(&self) -> nat {
        self.spec_source_set().len()
    }

    open spec fn spec_destinations_count(&self) -> nat {
        self.spec_destination_set().len()
    }

    fn is_directed() -> (b: bool) {
        true
    }

    fn is_undirected() -> (b: bool) {
        false
    }

    fn get_sources(&self) -> (r: Vec<usize>) {
        self.source_set.iterator()
    }

    fn get_destinations(&self) -> (r: Vec<usize>) {
        self.destination_set.iterator()
    }

    fn is_source(&self, vt: &usize) -> (b: bool) {
        self.source_set.contains(vt)
    }

    fn is_destination(&self, vt: &usize) -> (b: bool) {
        self.destination_set.contains(vt)
    }

    fn sources_count(&self) -> (n: usize) {
        self.source_set.len()
    }

    fn destinations_count(&self) -> (n: usize) {
        self.destination_set.len()
    }
}

impl<S: UnorderedSet> FixedSizeMutEdgeDescriptor for DirHyperedge<S> {
    /// Each side is a set, which holds each token once.
    open spec fn spec_simple(&self) -> bool {
        true
    }

    /// `target`, if a source, is replaced by `vt` among the sources.
    open spec fn replaced_src(old: Self, new: Self, target: usize, vt: usize) -> bool {
        &&& new.spec_source_set() == (if old.spec_source_set().contains(target) {
                old.spec_source_set().remove(target).insert(vt)
            } else {
                old.spec_source_set()
            })
        &&& new.spec_destination_set() == old.spec_destination_set()
    }

    /// `target`, if a destination, is replaced by `vt` among the destinations.
    open spec fn replaced_dst(old: Self, new: Self, target: usize, vt: usize) -> bool {
        &&& new.spec_destination_set() == (if old.spec_destination_set().contains(target) {
                old.spec_destination_set().remove(target).insert(vt)
            } else {
                old.spec_destination_set()
            })
        &&& new.spec_source_set() == old.spec_source_set()
    }

    fn replace_src(&mut self, target_vt: &usize, vt: usize) {
        self.source_set.replace(target_vt, vt);
    }

    fn replace_dst(&mut self, target_vt: &usize, vt: usize) {
        self.destination_set.replace(target_vt, vt);
    }
}

impl<S: UnorderedSet> CheckedFixedSizeMutEdgeDescriptor for DirHyperedge<S> {
}

impl<S: UnorderedSet> MutEdgeDescriptor for DirHyperedge<S> {
    open spec fn added(old: Self, new: Self, src: usize, dst: usize) -> bool {
        &&& new.spec_source_set() == old.spec_source_set().insert(src)
        &&& new.spec_destination_set() == old.spec_destination_set().insert(dst)
    }

    open spec fn added_src(old: Self, new: Self, vt: usize) -> bool {
        &&& new.spec_source_set() == old.spec_source_set().insert(vt)
        &&& new.spec_destination_set() == old.spec_destination_set()
    }

    open spec fn added_dst(old: Self, new: Self, vt: usize) -> bool {
        &&& new.spec_destination_set() == old.spec_destination_set().insert(vt)
        &&& new.spec_source_set() == old.spec_source_set()
    }

    open spec fn removed(old: Self, new: Self, vt: usize) -> bool {
        &&& new.spec_source_set() == old.spec_source_set().remove(vt)
        &&& new.spec_destination_set() == old.spec_destination_set().remove(vt)
    }

    fn add(&mut self, src_vt: usize, dst_vt: usize) {
        self.source_set.insert(src_vt);
        self.destination_set.insert(dst_vt);
    }

    fn add_src(&mut self, vt: usize) {
        self.source_set.insert(vt);
    }

    fn add_dst(&mut self, vt: usize) {
        self.destination_set.insert(vt);
    }

    fn remove(&mut self, vt: &usize) {
        self.source_set.remove(vt);
        self.destination_set.remove(vt);
    }
}

impl<S: UnorderedSet> CheckedMutEdgeDescriptor for DirHyperedge<S> {
}

} // verus!
