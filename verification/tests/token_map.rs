use prepona::provide::{CheckedMutVertices, CheckedVertices, Edges, MutEdges, MutVertices, Vertices};
use prepona::storage::edge::{Directed, Undirected};
use prepona::storage::storages::adj_map::AdjMap;
use prepona::storage::StorageError;

fn sorted(mut v: Vec<usize>) -> Vec<usize> {
    v.sort();
    v
}

#[test]
fn vertices_get_fresh_tokens() {
    let mut m = AdjMap::<&str, u32, Directed>::init();
    let a = m.add_vertex("a");
    let b = m.add_vertex("b");
    assert_ne!(a, b);
    assert_eq!(m.vertex_count(), 2);
    assert_eq!(*m.vertex(a), "a");
    assert_eq!(sorted(m.vertex_tokens()), sorted(vec![a, b]));
    *m.vertex_mut(b) = "B";
    assert_eq!(*m.vertex(b), "B");
    assert!(m.has_vt(a) && !m.has_vt(a + b + 1));
    assert_eq!(m.remove_vertex(a), "a");
    assert!(!m.has_vt(a));
    let c = m.add_vertex("c");
    assert_ne!(c, a);
}

#[test]
fn directed_edges_by_token() {
    let mut m = AdjMap::<u8, u32, Directed>::init();
    let a = m.add_vertex(0);
    let b = m.add_vertex(1);
    let c = m.add_vertex(2);
    let ab = m.add_edge(a, b, 10);
    let ab2 = m.add_edge(a, b, 11);
    let bc = m.add_edge(b, c, 12);
    assert_eq!(m.edge_count(), 3);
    assert_eq!(m.edge(ab), (a, b, &10));
    assert_eq!(sorted(m.successors(a)), vec![b]);
    assert_eq!(sorted(m.predecessors(b)), vec![a]);
    assert_eq!(sorted(m.outgoing_edges(a)), sorted(vec![ab, ab2]));
    assert_eq!(sorted(m.ingoing_edges(c)), vec![bc]);
    assert!(m.ingoing_edges(a).is_empty());
    *m.edge_mut(bc).2 = 20;
    assert_eq!(m.edge(bc), (b, c, &20));
    assert_eq!(m.remove_edge(b, a, ab), 10);
    assert!(!m.has_et(ab));
    assert_eq!(sorted(m.successors(a)), vec![b]);
    assert_eq!(m.remove_edge(b, a, ab2), 11);
    assert!(m.successors(a).is_empty());
}

#[test]
fn undirected_edges_by_token() {
    let mut m = AdjMap::<u8, u32, Undirected>::init();
    let a = m.add_vertex(0);
    let b = m.add_vertex(1);
    let ab = m.add_edge(a, b, 7);
    assert_eq!(sorted(m.neighbors(a)), vec![b]);
    assert_eq!(sorted(m.neighbors(b)), vec![a]);
    assert_eq!(m.remove_edge(b, a, ab), 7);
    assert!(m.neighbors(b).is_empty());
}

#[test]
fn removing_a_vertex_removes_its_self_loops() {
    let mut m = AdjMap::<u8, u32, Directed>::init();
    let a = m.add_vertex(0);
    let b = m.add_vertex(1);
    let c = m.add_vertex(2);
    let bb = m.add_edge(b, b, 1);
    let bb2 = m.add_edge(b, b, 2);
    let ca = m.add_edge(c, a, 3);
    assert_eq!(m.remove_vertex(b), 1);
    assert!(!m.has_vt(b));
    assert!(!m.has_et(bb) && !m.has_et(bb2) && m.has_et(ca));
    assert_eq!(m.edge_count(), 1);
    assert_eq!(sorted(m.predecessors(a)), vec![c]);
}

#[test]
fn an_edge_comes_out_through_a_reverse_pair() {
    let mut m = AdjMap::<u8, u32, Directed>::init();
    let a = m.add_vertex(0);
    let b = m.add_vertex(1);
    let ab = m.add_edge(a, b, 1);
    let ba = m.add_edge(b, a, 2);
    assert_eq!(m.remove_edge(a, b, ab), 1);
    assert!(!m.has_et(ab) && m.has_et(ba));
    assert_eq!(m.remove_edge(a, b, ba), 2);
    assert_eq!(m.edge_count(), 0);
}

#[test]
fn checked_vertex_operations() {
    let mut m = AdjMap::<u8, u32, Directed>::init();
    let a = m.add_vertex_checked(5).unwrap();
    assert_eq!(m.vertex_checked(a), Ok(&5));
    assert_eq!(m.vertex_checked(a + 1), Err(StorageError::InvalidVertexToken(a + 1)));
    assert_eq!(m.remove_vertex_checked(a + 1), Err(StorageError::InvalidVertexToken(a + 1)));
    assert_eq!(m.neighbors_checked(a), Ok(vec![]));
    assert_eq!(m.vertex_count_checked(), Ok(1));
    assert_eq!(m.remove_vertex_checked(a), Ok(5));
    assert_eq!(m.vertex_count_checked(), Ok(0));
}

#[test]
fn tokens_come_in_order() {
    let mut m = AdjMap::<u8, u32, Undirected>::init();
    assert_eq!(m.add_vertex(0), 0);
    assert_eq!(m.add_vertex(1), 1);
    assert_eq!(m.add_vertex(2), 2);
    assert_eq!(m.remove_vertex(1), 1);
    assert_eq!(m.add_vertex(3), 3);
    assert_eq!(m.add_edge(0, 2, 7), 0);
    assert_eq!(m.add_edge(2, 3, 8), 1);
}
