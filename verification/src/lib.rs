//! A graph library: storages (adjacency matrix, adjacency list), edge descriptors,
//! graph generators and supporting data structures, verified with Verus.

pub mod graph;
pub mod make;
pub mod misc;
pub mod provide;
pub mod storage;
pub(crate) mod text;
