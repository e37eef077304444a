//! Traits that storages provide to the rest of the library.

pub mod dir;
pub mod edge;
pub mod edges;
pub mod err;
pub mod error;
pub mod id_map;
mod internal;
pub mod node;
pub mod storage;
pub mod vertex;
pub mod view;

pub use dir::{Directed, Direction, Undirected};
pub use edge::{EdgeId, Orientation};
pub use edges::{Edges, MutEdges};
pub use err::ProviderError;
pub use error::Error;
pub use id_map::{DefaultIdMap, IdMap};
pub use node::NodeId;
pub use storage::{edge_key, AddEdge, AddNode, EmptyStorage, Storage};
pub use vertex::{CheckedMutVertices, CheckedVertices, MutVertices, Vertices};
