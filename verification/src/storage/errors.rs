use vstd::prelude::*;

verus! {

/// Different kinds of errors that can happen during operations carried out on edges and on
/// token providers.
#[derive(Debug, Clone, Copy, PartialEq, Eq, Structural)]
pub enum StorageError {
    /// The vertex token is not valid for the operation.
    InvalidVertexToken(usize),
    /// The edge token is not valid.
    InvalidEdgeToken(usize),
    /// There are no more vertex tokens available.
    NoMoreVertexToken,
    /// There are no more edge tokens available.
    NoMoreEdgeToken,
    /// The edge already connects the source to the destination.
    ConnectionAlreadyExists(usize, usize),
    /// The vertex token is already part of the edge.
    VertexAlreadyExists(usize),
    /// The vertex token is not part of the edge.
    VertexNotFound(usize),
    /// A collection of exactly `K` tokens was expected: (number given, `K`).
    NotKElement(usize, usize),
}

} // verus!
