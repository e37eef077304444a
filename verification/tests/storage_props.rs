use std::collections::HashSet;

use prepona::graph::{DefaultEdge, DirectedEdge, Edge, EdgeDir, UndirectedEdge};
use prepona::storage::adj_list::AdjList;
use prepona::storage::adj_matrix::AdjMatrix;

type E = DefaultEdge<i32>;

/// The operations that the properties below exercise, shared by both storages.
trait Storage {
    fn empty() -> Self;
    fn is_undirected(&self) -> bool;
    fn add_vertex(&mut self) -> usize;
    fn remove_vertex(&mut self, v: usize);
    fn add_edge(&mut self, s: usize, d: usize, w: i32) -> usize;
    fn update_edge(&mut self, s: usize, d: usize, id: usize, w: i32);
    fn remove_edge(&mut self, s: usize, d: usize, id: usize);
    fn vertex_count(&self) -> usize;
    fn edge_count(&self) -> usize;
    fn vertices(&self) -> Vec<usize>;
    fn contains_vertex(&self, v: usize) -> bool;
    fn contains_edge(&self, id: usize) -> bool;
    fn edge_exists(&self, id: usize) -> bool;
    fn edges(&self) -> Vec<(usize, usize, usize, i32)>;
    fn as_directed_edges(&self) -> Vec<(usize, usize, usize)>;
    fn edges_from(&self, v: usize) -> Vec<(usize, usize)>;
    fn neighbors(&self, v: usize) -> Vec<usize>;
    fn edges_between(&self, s: usize, d: usize) -> Vec<usize>;
    fn weight_between(&self, s: usize, d: usize, id: usize) -> i32;
}

impl<Dir: EdgeDir> Storage for AdjMatrix<i32, E, Dir> {
    fn empty() -> Self {
        Self::init()
    }
    fn is_undirected(&self) -> bool {
        Self::is_undirected(self)
    }
    fn add_vertex(&mut self) -> usize {
        Self::add_vertex(self)
    }
    fn remove_vertex(&mut self, v: usize) {
        Self::remove_vertex(self, v).unwrap();
    }
    fn add_edge(&mut self, s: usize, d: usize, w: i32) -> usize {
        Self::add_edge(self, s, d, w.into()).unwrap()
    }
    fn update_edge(&mut self, s: usize, d: usize, id: usize, w: i32) {
        Self::update_edge(self, s, d, id, w.into()).unwrap();
    }
    fn remove_edge(&mut self, s: usize, d: usize, id: usize) {
        Self::remove_edge(self, s, d, id).unwrap();
    }
    fn vertex_count(&self) -> usize {
        Self::vertex_count(self)
    }
    fn edge_count(&self) -> usize {
        Self::edge_count(self)
    }
    fn vertices(&self) -> Vec<usize> {
        Self::vertices(self)
    }
    fn contains_vertex(&self, v: usize) -> bool {
        Self::contains_vertex(self, v)
    }
    fn contains_edge(&self, id: usize) -> bool {
        Self::contains_edge(self, id)
    }
    fn edge_exists(&self, id: usize) -> bool {
        Self::edge(self, id).is_ok()
    }
    fn edges(&self) -> Vec<(usize, usize, usize, i32)> {
        Self::edges(self)
            .into_iter()
            .map(|(s, d, e)| (s, d, e.get_id(), e.get_weight().unwrap()))
            .collect()
    }
    fn as_directed_edges(&self) -> Vec<(usize, usize, usize)> {
        Self::as_directed_edges(self).into_iter().map(|(s, d, e)| (s, d, e.get_id())).collect()
    }
    fn edges_from(&self, v: usize) -> Vec<(usize, usize)> {
        Self::edges_from(self, v).unwrap().into_iter().map(|(d, e)| (d, e.get_id())).collect()
    }
    fn neighbors(&self, v: usize) -> Vec<usize> {
        Self::neighbors(self, v).unwrap()
    }
    fn edges_between(&self, s: usize, d: usize) -> Vec<usize> {
        Self::edges_between(self, s, d).unwrap().into_iter().map(|e| e.get_id()).collect()
    }
    fn weight_between(&self, s: usize, d: usize, id: usize) -> i32 {
        Self::edge_between(self, s, d, id).unwrap().get_weight().unwrap()
    }
}

impl<Dir: EdgeDir> Storage for AdjList<i32, E, Dir> {
    fn empty() -> Self {
        Self::init()
    }
    fn is_undirected(&self) -> bool {
        Self::is_undirected(self)
    }
    fn add_vertex(&mut self) -> usize {
        Self::add_vertex(self)
    }
    fn remove_vertex(&mut self, v: usize) {
        Self::remove_vertex(self, v).unwrap();
    }
    fn add_edge(&mut self, s: usize, d: usize, w: i32) -> usize {
        Self::add_edge(self, s, d, w.into()).unwrap()
    }
    fn update_edge(&mut self, s: usize, d: usize, id: usize, w: i32) {
        Self::update_edge(self, s, d, id, w.into()).unwrap();
    }
    fn remove_edge(&mut self, s: usize, d: usize, id: usize) {
        Self::remove_edge(self, s, d, id).unwrap();
    }
    fn vertex_count(&self) -> usize {
        Self::vertex_count(self)
    }
    fn edge_count(&self) -> usize {
        Self::edge_count(self)
    }
    fn vertices(&self) -> Vec<usize> {
        Self::vertices(self)
    }
    fn contains_vertex(&self, v: usize) -> bool {
        Self::contains_vertex(self, v)
    }
    fn contains_edge(&self, id: usize) -> bool {
        Self::contains_edge(self, id)
    }
    fn edge_exists(&self, id: usize) -> bool {
        Self::edge(self, id).is_ok()
    }
    fn edges(&self) -> Vec<(usize, usize, usize, i32)> {
        Self::edges(self)
            .into_iter()
            .map(|(s, d, e)| (s, d, e.get_id(), e.get_weight().unwrap()))
            .collect()
    }
    fn as_directed_edges(&self) -> Vec<(usize, usize, usize)> {
        Self::as_directed_edges(self).into_iter().map(|(s, d, e)| (s, d, e.get_id())).collect()
    }
    fn edges_from(&self, v: usize) -> Vec<(usize, usize)> {
        Self::edges_from(self, v).unwrap().into_iter().map(|(d, e)| (d, e.get_id())).collect()
    }
    fn neighbors(&self, v: usize) -> Vec<usize> {
        Self::neighbors(self, v).unwrap()
    }
    fn edges_between(&self, s: usize, d: usize) -> Vec<usize> {
        Self::edges_between(self, s, d).unwrap().into_iter().map(|e| e.get_id()).collect()
    }
    fn weight_between(&self, s: usize, d: usize, id: usize) -> i32 {
        Self::edge_between(self, s, d, id).unwrap().get_weight().unwrap()
    }
}

/// A graph on five vertices with a cycle, a self loop, two parallel edges and an isolated
/// vertex.
fn sample<S: Storage>() -> S {
    let mut s = S::empty();
    for _ in 0..6 {
        s.add_vertex();
    }
    for (a, b, w) in [(0, 1, 5), (1, 2, 6), (2, 0, 7), (3, 3, 8), (0, 1, 9), (4, 2, 10)] {
        s.add_edge(a, b, w);
    }
    s
}

fn prop_add_vertex<S: Storage>(mut storage: S) {
    let before_vertex_count = storage.vertex_count();
    let before_edge_count = storage.edge_count();
    let vertex_id = storage.add_vertex();
    assert_eq!(storage.vertex_count(), before_vertex_count + 1);
    assert_eq!(storage.edge_count(), before_edge_count);
    assert!(storage.neighbors(vertex_id).is_empty());
    assert!(storage.edges_from(vertex_id).is_empty());
    assert!(!storage.edges().iter().any(|(s, d, _, _)| *s == vertex_id || *d == vertex_id));
}

fn prop_remove_vertex<S: Storage>(mut storage: S, vertex_id: usize) {
    let before_vertex_count = storage.vertex_count();
    let before_edge_count = storage.edge_count();
    let associated: HashSet<usize> = storage
        .edges()
        .iter()
        .filter(|(s, d, _, _)| *s == vertex_id || *d == vertex_id)
        .map(|(_, _, id, _)| *id)
        .collect();
    storage.remove_vertex(vertex_id);
    assert_eq!(storage.vertex_count(), before_vertex_count - 1);
    assert_eq!(storage.edge_count(), before_edge_count - associated.len());
    assert!(!storage.edges().iter().any(|(_, _, id, _)| associated.contains(id)));
}

fn prop_contains_vertex<S: Storage>(storage: S) {
    assert!(storage.vertices().iter().all(|v| storage.contains_vertex(*v)));
    assert!(storage.edges().iter().all(|(s, d, _, _)| storage.contains_vertex(*s) && storage.contains_vertex(*d)));
}

fn prop_add_edge<S: Storage>(mut storage: S, src_id: usize, dst_id: usize) {
    let before_vertex_count = storage.vertex_count();
    let before_edge_count = storage.edge_count();
    let edge_id = storage.add_edge(src_id, dst_id, 1);
    storage.add_edge(src_id, src_id, 1);
    assert_eq!(storage.edge_count(), before_edge_count + 2);
    assert_eq!(storage.vertex_count(), before_vertex_count);
    assert!(storage.edges_from(src_id).iter().any(|(d, id)| *d == dst_id && *id == edge_id));
    assert!(storage.contains_edge(edge_id));
    if storage.is_undirected() {
        assert!(storage.edges_from(dst_id).iter().any(|(d, id)| *d == src_id && *id == edge_id));
        assert!(storage.edges().iter().any(|(s, d, id, _)| *s == src_id.min(dst_id)
            && *d == src_id.max(dst_id)
            && *id == edge_id));
    } else {
        assert!(storage.edges().iter().any(|(s, d, id, _)| *s == src_id && *d == dst_id && *id == edge_id));
    }
}

fn prop_update_edge<S: Storage>(mut storage: S, pick: usize) {
    let edges = storage.edges();
    let (src_id, dst_id, edge_id, before_weight) = edges[pick % edges.len()];
    let before_vertex_count = storage.vertex_count();
    let before_edge_count = storage.edge_count();
    let new_weight = if before_weight == i32::MAX { before_weight - 1 } else { before_weight + 1 };
    storage.update_edge(src_id, dst_id, edge_id, new_weight);
    assert_eq!(storage.vertex_count(), before_vertex_count);
    assert_eq!(storage.edge_count(), before_edge_count);
    assert_eq!(storage.weight_between(src_id, dst_id, edge_id), new_weight);
}

fn prop_remove_edge<S: Storage>(mut storage: S, pick: usize) {
    let edges = storage.edges();
    let (src_id, dst_id, edge_id, _) = edges[pick % edges.len()];
    let before_vertex_count = storage.vertex_count();
    let before_edge_count = storage.edge_count();
    storage.remove_edge(src_id, dst_id, edge_id);
    assert_eq!(storage.vertex_count(), before_vertex_count);
    assert_eq!(storage.edge_count(), before_edge_count - 1);
    assert!(!storage.contains_edge(edge_id));
    assert!(!storage.edge_exists(edge_id));
}

fn prop_edges_between<S: Storage>(storage: S, src_id: usize, dst_id: usize) {
    let calculated: Vec<usize> = storage
        .edges()
        .into_iter()
        .filter(|(s, d, _, _)| {
            (!storage.is_undirected() && *s == src_id && *d == dst_id)
                || (storage.is_undirected() && *s == src_id.min(dst_id) && *d == src_id.max(dst_id))
        })
        .map(|(_, _, id, _)| id)
        .collect();
    let between = storage.edges_between(src_id, dst_id);
    assert_eq!(between.len(), calculated.len());
    assert!(between.iter().all(|id| calculated.contains(id)));
}

fn prop_neighbors<S: Storage>(storage: S) {
    for vertex_id in storage.vertices() {
        let calculated: Vec<usize> = storage.edges_from(vertex_id).into_iter().map(|(d, _)| d).collect();
        let neighbors = storage.neighbors(vertex_id);
        assert!(neighbors.iter().all(|n| calculated.contains(n)));
        assert!(calculated.iter().all(|n| neighbors.contains(n)));
    }
}

fn prop_as_directed_edges<S: Storage>(storage: S) -> bool {
    let edges = storage.edges();
    let directed_edges = storage.as_directed_edges();
    let must_be_duplicated = edges.iter().filter(|(s, d, _, _)| s != d).count();
    let must_not_be_duplicated = edges.len() - must_be_duplicated;
    if storage.is_undirected() {
        directed_edges.len() == must_not_be_duplicated + 2 * must_be_duplicated
    } else {
        directed_edges.len() == edges.len()
    }
}

#[test]
fn add_vertex() {
    prop_add_vertex(sample::<AdjMatrix<i32, E, DirectedEdge>>());
    prop_add_vertex(sample::<AdjMatrix<i32, E, UndirectedEdge>>());
    prop_add_vertex(sample::<AdjList<i32, E, DirectedEdge>>());
    prop_add_vertex(sample::<AdjList<i32, E, UndirectedEdge>>());
}

#[test]
fn remove_vertex() {
    for v in 0..6 {
        prop_remove_vertex(sample::<AdjMatrix<i32, E, DirectedEdge>>(), v);
        prop_remove_vertex(sample::<AdjMatrix<i32, E, UndirectedEdge>>(), v);
        prop_remove_vertex(sample::<AdjList<i32, E, DirectedEdge>>(), v);
        prop_remove_vertex(sample::<AdjList<i32, E, UndirectedEdge>>(), v);
    }
}

#[test]
fn contains_vertex() {
    prop_contains_vertex(sample::<AdjMatrix<i32, E, DirectedEdge>>());
    prop_contains_vertex(sample::<AdjMatrix<i32, E, UndirectedEdge>>());
    prop_contains_vertex(sample::<AdjList<i32, E, DirectedEdge>>());
    prop_contains_vertex(sample::<AdjList<i32, E, UndirectedEdge>>());
}

#[test]
fn add_edge() {
    for (s, d) in [(0, 1), (2, 2), (5, 3), (4, 0)] {
        prop_add_edge(sample::<AdjMatrix<i32, E, DirectedEdge>>(), s, d);
        prop_add_edge(sample::<AdjMatrix<i32, E, UndirectedEdge>>(), s, d);
        prop_add_edge(sample::<AdjList<i32, E, DirectedEdge>>(), s, d);
        prop_add_edge(sample::<AdjList<i32, E, UndirectedEdge>>(), s, d);
    }
}

#[test]
fn update_edge() {
    for pick in 0..6 {
        prop_update_edge(sample::<AdjMatrix<i32, E, DirectedEdge>>(), pick);
        prop_update_edge(sample::<AdjMatrix<i32, E, UndirectedEdge>>(), pick);
        prop_update_edge(sample::<AdjList<i32, E, DirectedEdge>>(), pick);
        prop_update_edge(sample::<AdjList<i32, E, UndirectedEdge>>(), pick);
    }
}

#[test]
fn remove_edge() {
    for pick in 0..6 {
        prop_remove_edge(sample::<AdjMatrix<i32, E, DirectedEdge>>(), pick);
        prop_remove_edge(sample::<AdjMatrix<i32, E, UndirectedEdge>>(), pick);
        prop_remove_edge(sample::<AdjList<i32, E, DirectedEdge>>(), pick);
        prop_remove_edge(sample::<AdjList<i32, E, UndirectedEdge>>(), pick);
    }
}

#[test]
fn edges_between() {
    for s in 0..6 {
        for d in 0..6 {
            prop_edges_between(sample::<AdjMatrix<i32, E, DirectedEdge>>(), s, d);
            prop_edges_between(sample::<AdjMatrix<i32, E, UndirectedEdge>>(), s, d);
            prop_edges_between(sample::<AdjList<i32, E, DirectedEdge>>(), s, d);
            prop_edges_between(sample::<AdjList<i32, E, UndirectedEdge>>(), s, d);
        }
    }
}

#[test]
fn neighbors() {
    prop_neighbors(sample::<AdjMatrix<i32, E, DirectedEdge>>());
    prop_neighbors(sample::<AdjMatrix<i32, E, UndirectedEdge>>());
    prop_neighbors(sample::<AdjList<i32, E, DirectedEdge>>());
    prop_neighbors(sample::<AdjList<i32, E, UndirectedEdge>>());
}

#[test]
fn as_directed_edges() {
    assert!(prop_as_directed_edges(sample::<AdjMatrix<i32, E, DirectedEdge>>()));
    assert!(prop_as_directed_edges(sample::<AdjMatrix<i32, E, UndirectedEdge>>()));
    assert!(prop_as_directed_edges(sample::<AdjList<i32, E, DirectedEdge>>()));
    assert!(prop_as_directed_edges(sample::<AdjList<i32, E, UndirectedEdge>>()));
}
