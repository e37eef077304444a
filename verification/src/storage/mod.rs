pub mod adj_list;
pub mod adj_map;
pub mod adj_matrix;
pub mod counting;
pub mod edge;
pub mod error;
pub mod errors;
pub(crate) mod ids;
pub mod storages;
pub mod token;

pub use error::{Error, ErrorKind};
pub use errors::StorageError;
