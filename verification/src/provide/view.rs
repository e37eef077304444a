use vstd::prelude::*;

use crate::provide::edges::{Edges, MutEdges};
use crate::provide::vertex::{MutVertices, Vertices};

verus! {

/// A read-only view of a graph, directed when `DIR` is `true`.
pub trait FrozenView<const DIR: bool>: Vertices + Edges {}

/// A view of a graph whose visible vertices and edges can be chosen.
pub trait View<const DIR: bool>: FrozenView<DIR> {
    /// Hides the vertices whose tokens `vertex_filter` rejects.
    fn hide_vertices(&mut self, vertex_filter: impl Fn(usize) -> bool);

    /// Hides the edges whose tokens `edge_filter` rejects.
    fn hide_edges(&mut self, edge_filter: impl Fn(usize) -> bool);

    /// Shows vertex `vt` of the underlying graph.
    fn add_vertex_from_graph(&mut self, vt: usize);

    /// Shows edge `et` of the underlying graph.
    fn add_edge_from_graph(&mut self, et: usize);

    /// Hides vertex `vt`.
    fn remove_vertex_from_view(&mut self, vt: usize);

    /// Hides edge `et`.
    fn remove_edge_from_view(&mut self, et: usize);
}

/// A view whose vertices and edges can also be changed.
pub trait MutView<const DIR: bool>: View<DIR> + MutVertices + MutEdges {}

/// A graph that can be viewed as undirected.
pub trait AsUndirected<FV: FrozenView<false>> {
    /// # Returns
    /// The undirected view of the vertices and edges that the filters accept.
    fn as_undirected(&self, vertex_filter: impl Fn(usize) -> bool, edge_filter: impl Fn(usize) -> bool) -> FV;
}

/// A graph that can be viewed as directed.
pub trait AsDirected<FV: FrozenView<true>> {
    /// # Returns
    /// The directed view of the vertices and edges that the filters accept.
    fn as_directed(&self, vertex_filter: impl Fn(usize) -> bool, edge_filter: impl Fn(usize) -> bool) -> FV;
}

} // verus!
