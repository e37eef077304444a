use vstd::prelude::*;
use crate::text::{decimal, push_decimal, string_push_str};

verus! {

/// Types of errors that may happen when using a graph storage.
#[derive(Debug, Clone, Copy, PartialEq, Eq)]
pub enum ErrorKind {
    VertexNotFound,
    EdgeNotFound,
    InvalidEdgeId,
    EmptyEdgeList,
}

/// Error type returned by storages in `storage` module.
#[derive(Debug)]
pub struct Error {
    kind: ErrorKind,
    msg: String,
}

/// Message of a `VertexNotFound` error for `vertex_id`.
pub open spec fn vnf_msg(vertex_id: usize) -> Seq<char> {
    "Vertex with id: "@ + decimal(vertex_id as nat) + " not found"@
}

/// Message of an `EdgeNotFound` error for `edge_id`.
pub open spec fn enf_msg(edge_id: usize) -> Seq<char> {
    "Edge with id: "@ + decimal(edge_id as nat) + " not found"@
}

/// Message of an `InvalidEdgeId` error.
pub open spec fn iei_msg(src_id: usize, dst_id: usize, edge_id: usize) -> Seq<char> {
    "There is no edge with id: "@ + decimal(edge_id as nat) + " from vertex with id: "@
        + decimal(src_id as nat) + " to vertex with id: "@ + decimal(dst_id as nat)
}

/// Message of an `EmptyEdgeList` error.
pub open spec fn eel_msg(src_id: usize, dst_id: usize) -> Seq<char> {
    "There is no edge from "@ + decimal(src_id as nat) + " to "@ + decimal(dst_id as nat)
}

impl Error {
    /// Kind of the error.
    pub closed spec fn spec_kind(&self) -> ErrorKind {
        self.kind
    }

    /// Cause of the error.
    pub closed spec fn spec_msg(&self) -> Seq<char> {
        self.msg@
    }

    /// # Arguments
    /// * `kind`: Specifies what kind of error is being created.
    /// * `msg`: Cause of the error.
    ///
    /// # Returns
    /// Constructed `Error`.
    pub fn new(kind: ErrorKind, msg: String) -> (e: Self)
        ensures
            e.spec_kind() == kind,
            e.spec_msg() == msg@,
    {
        Error { kind, msg }
    }

    /// Creates a `VertexNotFound` kind of error.
    pub fn new_vnf(vertex_id: usize) -> (e: Self)
        ensures
            e.spec_kind() == ErrorKind::VertexNotFound,
            e.spec_msg() == vnf_msg(vertex_id),
    {
        let mut msg = String::new();
        string_push_str(&mut msg, "Vertex with id: ");
        push_decimal(&mut msg, vertex_id);
        string_push_str(&mut msg, " not found");
        Error { kind: ErrorKind::VertexNotFound, msg }
    }

    /// Creates an `EdgeNotFound` kind of error.
    pub fn new_enf(edge_id: usize) -> (e: Self)
        ensures
            e.spec_kind() == ErrorKind::EdgeNotFound,
            e.spec_msg() == enf_msg(edge_id),
    {
        let mut msg = String::new();
        string_push_str(&mut msg, "Edge with id: ");
        push_decimal(&mut msg, edge_id);
        string_push_str(&mut msg, " not found");
        Error { kind: ErrorKind::EdgeNotFound, msg }
    }

    /// Creates an `InvalidEdgeId` kind of error: there is no edge with id `edge_id` from
    /// `src_id` to `dst_id`.
    pub fn new_iei(src_id: usize, dst_id: usize, edge_id: usize) -> (e: Self)
        ensures
            e.spec_kind() == ErrorKind::InvalidEdgeId,
            e.spec_msg() == iei_msg(src_id, dst_id, edge_id),
    {
        let mut msg = String::new();
        string_push_str(&mut msg, "There is no edge with id: ");
        push_decimal(&mut msg, edge_id);
        string_push_str(&mut msg, " from vertex with id: ");
        push_decimal(&mut msg, src_id);
        string_push_str(&mut msg, " to vertex with id: ");
        push_decimal(&mut msg, dst_id);
        Error { kind: ErrorKind::InvalidEdgeId, msg }
    }

    /// Creates an `EmptyEdgeList` kind of error: there is no edge from `src_id` to `dst_id`.
    pub fn new_eel(src_id: usize, dst_id: usize) -> (e: Self)
        ensures
            e.spec_kind() == ErrorKind::EmptyEdgeList,
            e.spec_msg() == eel_msg(src_id, dst_id),
    {
        let mut msg = String::new();
        string_push_str(&mut msg, "There is no edge from ");
        push_decimal(&mut msg, src_id);
        string_push_str(&mut msg, " to ");
        push_decimal(&mut msg, dst_id);
        Error { kind: ErrorKind::EmptyEdgeList, msg }
    }

    /// # Returns
    /// Cause of the error.
    pub fn msg(&self) -> (m: &String)
        ensures
            m@ == self.spec_msg(),
    {
        &self.msg
    }

    /// # Returns
    /// Kind of the error.
    pub fn kind(&self) -> (k: &ErrorKind)
        ensures
            *k == self.spec_kind(),
    {
        &self.kind
    }
}

} // verus!
