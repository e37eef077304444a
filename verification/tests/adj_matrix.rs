use prepona::storage::adj_matrix::{DiMat, Mat};
use prepona::graph::Edge;

#[test]
fn directed_empty_matrix() {
    // Given: An empty directed matrix.
    let matrix = DiMat::<usize>::init();

    // Then:
    assert_eq!(matrix.edge_count(), 0);
    assert_eq!(matrix.vertex_count(), 0);
    assert_eq!(matrix.total_vertex_count(), 0);
    assert_eq!(matrix.storage_len(), 0);
    assert_eq!(matrix.reusable_vertex_ids().len(), 0);
    assert_eq!(matrix.is_directed(), true);
}

#[test]
fn undirected_empty_matrix() {
    // Given: An empty undirected matrix.
    let matrix = Mat::<usize>::init();

    // Then:
    assert_eq!(matrix.edge_count(), 0);
    assert_eq!(matrix.vertex_count(), 0);
    assert_eq!(matrix.total_vertex_count(), 0);
    assert_eq!(matrix.storage_len(), 0);
    assert_eq!(matrix.reusable_vertex_ids().len(), 0);
    assert_eq!(matrix.is_directed(), false);
}

#[test]
fn mod_directed_add_vertex() {
    // Given: An empty directed matrix.
    let mut matrix = DiMat::<usize>::init();

    // When: Adding 3 vertices.
    let a = matrix.add_vertex();
    let b = matrix.add_vertex();
    let c = matrix.add_vertex();

    // Then:
    assert_eq!(matrix.vertex_count(), 3);
    assert_eq!(matrix.total_vertex_count(), 3);
    assert_eq!(matrix.storage_len(), 9);
    assert_eq!(matrix.reusable_vertex_ids().len(), 0);

    assert_eq!(matrix.vertices().len(), 3);
    assert!(vec![a, b, c]
        .iter()
        .all(|vertex_id| matrix.vertices().contains(vertex_id)));

    // Edge weight between any two vertices must be positive infinity.
    // Also edge src and dst must be set correctly.
    assert!(vec![a, b, c]
        .into_iter()
        .flat_map(|vertex_id| vec![(vertex_id, a), (vertex_id, b), (vertex_id, c)])
        .all(|(src_id, dst_id)| !matrix.has_any_edge_unchecked(src_id, dst_id)));
}

#[test]
fn mod_undirected_add_vertex() {
    // Given: An empty undirected matrix.
    let mut matrix = Mat::<usize>::init();

    // When: Adding 3 vertices.
    let a = matrix.add_vertex();
    let b = matrix.add_vertex();
    let c = matrix.add_vertex();

    // Then:
    assert_eq!(matrix.vertex_count(), 3);
    assert_eq!(matrix.total_vertex_count(), 3);
    assert_eq!(matrix.storage_len(), 6);
    assert_eq!(matrix.reusable_vertex_ids().len(), 0);

    assert_eq!(matrix.vertices().len(), 3);
    assert!(vec![a, b, c]
        .iter()
        .all(|vertex_id| matrix.vertices().contains(vertex_id)));

    // Edge weight between any two vertices must be positive infinity.
    // Also edge src and dst must be set correctly.
    assert!(vec![a, b, c]
        .into_iter()
        .flat_map(|vertex_id| vec![(vertex_id, a), (vertex_id, b), (vertex_id, c)])
        .all(|(src_id, dst_id)| !matrix.has_any_edge_unchecked(src_id, dst_id)));
}

#[test]
fn mod_directed_delete_vertex() {
    // Given: Directed graph
    //
    //      a   b   c
    //
    let mut matrix = DiMat::<usize>::init();
    let a = matrix.add_vertex();
    let b = matrix.add_vertex();
    let c = matrix.add_vertex();

    // When: Removing vertices a and b.
    matrix.remove_vertex_unchecked(a);
    matrix.remove_vertex_unchecked(b);

    // Then:
    assert_eq!(matrix.edges().len(), 0);
    assert_eq!(matrix.vertex_count(), 1);
    assert_eq!(matrix.total_vertex_count(), 3);
    assert_eq!(matrix.storage_len(), 9);

    // Vertices a and b must be reusable.
    assert_eq!(matrix.reusable_vertex_ids().len(), 2);
    assert!(vec![a, b]
        .iter()
        .all(|vertex_id| matrix.reusable_vertex_ids().contains(vertex_id)));

    // Matrix must only contain c.
    assert_eq!(matrix.vertices().len(), 1);
    assert!(matrix.vertices().contains(&c));
    assert!(!matrix.has_any_edge_unchecked(c, c));
}

#[test]
fn mod_undirected_delete_vertex() {
    // Given: Undirected graph
    //
    //      a   b   c
    //
    let mut matrix = Mat::<usize>::init();
    let a = matrix.add_vertex();
    let b = matrix.add_vertex();
    let c = matrix.add_vertex();

    // When: Removing vertices a and b.
    matrix.remove_vertex_unchecked(a);
    matrix.remove_vertex_unchecked(b);

    // Then:
    assert_eq!(matrix.vertex_count(), 1);
    assert_eq!(matrix.total_vertex_count(), 3);
    assert_eq!(matrix.storage_len(), 6);

    // Vertices a and b must be reusable.
    assert_eq!(matrix.reusable_vertex_ids().len(), 2);
    assert!(vec![a, b]
        .iter()
        .all(|vertex_id| matrix.reusable_vertex_ids().contains(vertex_id)));

    // Matrix must only contain c.
    assert_eq!(matrix.vertices().len(), 1);
    assert!(matrix.vertices().contains(&c));

    assert!(!matrix.has_any_edge_unchecked(c, c));
}

#[test]
fn mod_directed_add_vertex_after_vertex_deletion() {
    // Given: Directed graph
    //
    //      a   b   c
    //
    let mut matrix = DiMat::<usize>::init();
    let a = matrix.add_vertex();
    let b = matrix.add_vertex();
    let c = matrix.add_vertex();

    // When: Removing vertices a and b and afterwards adding two new vertices.
    matrix.remove_vertex_unchecked(a);
    matrix.remove_vertex_unchecked(b);
    let _ = matrix.add_vertex();
    let _ = matrix.add_vertex();

    // Then:
    assert_eq!(matrix.vertex_count(), 3);
    assert_eq!(matrix.total_vertex_count(), 3);
    assert_eq!(matrix.storage_len(), 9);

    // There must be no reusable id.
    assert_eq!(matrix.reusable_vertex_ids().len(), 0);

    // Vertex ids a and b must be reused.
    assert_eq!(matrix.vertices().len(), 3);
    assert!(vec![a, b, c]
        .iter()
        .all(|vertex_id| matrix.vertices().contains(vertex_id)));

    // Edge weight between any two vertices must be positive infinity.
    // Also edge src and dst must be set correctly.
    assert!(vec![a, b, c]
        .into_iter()
        .flat_map(|vertex_id| vec![(vertex_id, a), (vertex_id, b), (vertex_id, c)])
        .all(|(src_id, dst_id)| !matrix.has_any_edge_unchecked(src_id, dst_id)));
}

#[test]
fn mod_undirected_add_vertex_after_vertex_deletion() {
    // Given: Undirected graph
    //
    //      a   b   c
    //
    let mut matrix = Mat::<usize>::init();
    let a = matrix.add_vertex();
    let b = matrix.add_vertex();
    let c = matrix.add_vertex();

    // When: Removing vertices a and b and afterwards adding two new vertices.
    matrix.remove_vertex_unchecked(a);
    matrix.remove_vertex_unchecked(b);
    let _ = matrix.add_vertex();
    let _ = matrix.add_vertex();

    // Then:
    assert_eq!(matrix.vertex_count(), 3);
    assert_eq!(matrix.total_vertex_count(), 3);
    assert_eq!(matrix.storage_len(), 6);

    // There must be no reusable id.
    assert_eq!(matrix.reusable_vertex_ids().len(), 0);

    // Vertex ids a and b must be reused.
    assert_eq!(matrix.vertices().len(), 3);
    assert!(vec![a, b, c]
        .iter()
        .all(|vertex_id| matrix.vertices().contains(vertex_id)));

    // Edge weight between any two vertices must be positive infinity.
    // Also edge src and dst must be set correctly.
    assert!(vec![a, b, c]
        .into_iter()
        .flat_map(|vertex_id| vec![(vertex_id, a), (vertex_id, b), (vertex_id, c)])
        .all(|(src_id, dst_id)| !matrix.has_any_edge_unchecked(src_id, dst_id)));
}

#[test]
fn mod_directed_add_edge() {
    // Given: Directed matrix
    //
    //      a   b   c
    //
    let mut matrix = DiMat::<usize>::init();
    let a = matrix.add_vertex();
    let b = matrix.add_vertex();
    let c = matrix.add_vertex();

    // When: Adding edges
    //
    //      a  -->  b  -->  c
    //      ^               |
    //      '----------------
    //
    matrix.add_edge_unchecked(a, b, 1.into());
    matrix.add_edge_unchecked(b, c, 2.into());
    matrix.add_edge_unchecked(c, a, 3.into());

    // Then:
    assert_eq!(matrix.vertex_count(), 3);
    assert_eq!(matrix.total_vertex_count(), 3);
    assert_eq!(matrix.storage_len(), 9);

    assert_eq!(matrix.edges().len(), 3);
    for (src_id, dst_id, edge) in matrix.edges() {
        match (src_id, dst_id) {
            (0, 1) => assert_eq!(edge.get_weight().unwrap(), 1),
            (1, 2) => assert_eq!(edge.get_weight().unwrap(), 2),
            (2, 0) => assert_eq!(edge.get_weight().unwrap(), 3),
            _ => panic!("Unknown vertex id"),
        }
    }
}

#[test]
fn mod_undirected_add_edge() {
    // Given: Undirected matrix
    //
    //      a   b   c
    //
    let mut matrix = Mat::<usize>::init();
    let a = matrix.add_vertex();
    let b = matrix.add_vertex();
    let c = matrix.add_vertex();

    // When: Adding edges
    //
    //      a  ---  b  ---  c
    //      |               |
    //      '----------------
    //
    matrix.add_edge_unchecked(a, b, 1.into());
    matrix.add_edge_unchecked(b, c, 2.into());
    matrix.add_edge_unchecked(c, a, 3.into());

    // Then:
    assert_eq!(matrix.vertex_count(), 3);
    assert_eq!(matrix.total_vertex_count(), 3);
    assert_eq!(matrix.storage_len(), 6);

    assert_eq!(matrix.edges().len(), 3);
    for (src_id, dst_id, edge) in matrix.edges() {
        match (src_id, dst_id) {
            (0, 1) | (1, 0) => assert_eq!(edge.get_weight().unwrap(), 1),
            (1, 2) | (2, 1) => assert_eq!(edge.get_weight().unwrap(), 2),
            (2, 0) | (0, 2) => assert_eq!(edge.get_weight().unwrap(), 3),
            _ => panic!("Unknown vertex id"),
        }
    }
}

#[test]
fn mod_directed_has_edge() {
    // Given: Directed list
    //
    //      a  -->  b  -->  c
    //      ^               |
    //      '----------------
    //
    let mut matrix = DiMat::<usize>::init();
    let a = matrix.add_vertex();
    let b = matrix.add_vertex();
    let c = matrix.add_vertex();
    matrix.add_edge_unchecked(a, b, 1.into());
    matrix.add_edge_unchecked(b, c, 2.into());
    matrix.add_edge_unchecked(c, a, 3.into());

    // When: Doing nothing.

    // Then:
    assert!(matrix.has_any_edge_unchecked(a, b));
    assert!(matrix.has_any_edge_unchecked(b, c));
    assert!(matrix.has_any_edge_unchecked(c, a));
}

#[test]
fn mod_undirected_has_edge() {
    // Given: Undirected list
    //
    //      a  ---  b  ---  c
    //      |               |
    //      '----------------
    //
    let mut matrix = Mat::<usize>::init();
    let a = matrix.add_vertex();
    let b = matrix.add_vertex();
    let c = matrix.add_vertex();
    matrix.add_edge_unchecked(a, b, 1.into());
    matrix.add_edge_unchecked(b, c, 2.into());
    matrix.add_edge_unchecked(c, a, 3.into());

    // When: Doing nothing.

    // Then:
    assert!(matrix.has_any_edge_unchecked(a, b));
    assert!(matrix.has_any_edge_unchecked(b, a));

    assert!(matrix.has_any_edge_unchecked(b, c));
    assert!(matrix.has_any_edge_unchecked(c, b));

    assert!(matrix.has_any_edge_unchecked(c, a));
    assert!(matrix.has_any_edge_unchecked(a, c));
}

#[test]
fn mod_directed_update_edge() {
    // Given: Directed list
    //
    //      a  -->  b  -->  c
    //      ^               |
    //      '----------------
    //
    let mut matrix = DiMat::<usize>::init();
    let a = matrix.add_vertex();
    let b = matrix.add_vertex();
    let c = matrix.add_vertex();
    let ab = matrix.add_edge_unchecked(a, b, 1.into());
    let bc = matrix.add_edge_unchecked(b, c, 2.into());
    let ca = matrix.add_edge_unchecked(c, a, 3.into());

    // When: Incrementing weight of each edge by 1.
    matrix.update_edge_unchecked(a, b, ab, 2.into());
    matrix.update_edge_unchecked(b, c, bc, 3.into());
    matrix.update_edge_unchecked(c, a, ca, 4.into());

    // Then:
    assert_eq!(matrix.vertex_count(), 3);
    assert_eq!(matrix.total_vertex_count(), 3);
    assert_eq!(matrix.storage_len(), 9);

    assert_eq!(matrix.edges().len(), 3);
    for (src_id, dst_id, edge) in matrix.edges() {
        match (src_id, dst_id) {
            (0, 1) => assert_eq!(edge.get_weight().unwrap(), 2),
            (1, 2) => assert_eq!(edge.get_weight().unwrap(), 3),
            (2, 0) => assert_eq!(edge.get_weight().unwrap(), 4),
            _ => panic!("Unknown vertex id"),
        }
    }
}

#[test]
fn mod_undirected_update_edge() {
    // Given: Undirected list
    //
    //      a  ---  b  ---  c
    //      |               |
    //      '----------------
    //
    let mut matrix = Mat::<usize>::init();
    let a = matrix.add_vertex();
    let b = matrix.add_vertex();
    let c = matrix.add_vertex();
    let ab = matrix.add_edge_unchecked(a, b, 1.into());
    let bc = matrix.add_edge_unchecked(b, c, 2.into());
    let ca = matrix.add_edge_unchecked(c, a, 3.into());

    // When: Incrementing weight of each edge by 1.
    matrix.update_edge_unchecked(a, b, ab, 2.into());
    matrix.update_edge_unchecked(b, c, bc, 3.into());
    matrix.update_edge_unchecked(c, a, ca, 4.into());

    // Then:
    assert_eq!(matrix.vertex_count(), 3);
    assert_eq!(matrix.total_vertex_count(), 3);
    assert_eq!(matrix.storage_len(), 6);

    assert_eq!(matrix.edges().len(), 3);
    for (src_id, dst_id, edge) in matrix.edges() {
        match (src_id, dst_id) {
            (0, 1) | (1, 0) => assert_eq!(edge.get_weight().unwrap(), 2),
            (1, 2) | (2, 1) => assert_eq!(edge.get_weight().unwrap(), 3),
            (2, 0) | (0, 2) => assert_eq!(edge.get_weight().unwrap(), 4),
            _ => panic!("Unknown vertex id"),
        }
    }
}

#[test]
fn mod_directed_remove_edge() {
    // Given: Directed matrix
    //
    //      a  -->  b  -->  c
    //      ^               |
    //      '----------------
    //
    let mut matrix = DiMat::<usize>::init();
    let a = matrix.add_vertex();
    let b = matrix.add_vertex();
    let c = matrix.add_vertex();
    let ab = matrix.add_edge_unchecked(a, b, 1.into());
    let bc = matrix.add_edge_unchecked(b, c, 2.into());
    matrix.add_edge_unchecked(c, a, 3.into());

    // When: Removing edges a --> b and b --> c
    //
    //      a   b   c
    //      ^       |
    //      '--------
    //
    matrix.remove_edge_unchecked(a, b, ab);
    matrix.remove_edge_unchecked(b, c, bc);

    // Then:
    assert_eq!(matrix.vertex_count(), 3);
    assert_eq!(matrix.total_vertex_count(), 3);
    assert_eq!(matrix.storage_len(), 9);

    assert_eq!(matrix.edges().len(), 1);
    assert_eq!(
        matrix.edges_between_unchecked(c, a)[0]
            .get_weight()
            .unwrap(),
        3
    );
}

#[test]
fn mod_undirected_remove_edge() {
    // Given: Undirected matrix
    //
    //      a  ---  b  ---  c
    //      |               |
    //      '----------------
    //
    let mut matrix = Mat::<usize>::init();
    let a = matrix.add_vertex();
    let b = matrix.add_vertex();
    let c = matrix.add_vertex();
    let ab = matrix.add_edge_unchecked(a, b, 1.into());
    let bc = matrix.add_edge_unchecked(b, c, 2.into());
    matrix.add_edge_unchecked(c, a, 3.into());

    // When: Removing edges a --- b and b --- c
    //
    //      a   b   c
    //      |       |
    //      '--------
    //
    matrix.remove_edge_unchecked(a, b, ab);
    matrix.remove_edge_unchecked(b, c, bc);

    // Then:
    assert_eq!(matrix.vertex_count(), 3);
    assert_eq!(matrix.total_vertex_count(), 3);
    assert_eq!(matrix.storage_len(), 6);

    assert_eq!(matrix.edges().len(), 1);
    assert_eq!(
        matrix.edges_between_unchecked(a, c)[0]
            .get_weight()
            .unwrap(),
        3
    );
}

#[test]
fn mod_directed_neighbors() {
    // Given: Directed matrix
    //
    //      a  -->  b  -->  c
    //      ^               |
    //      '----------------
    //
    let mut matrix = DiMat::<usize>::init();
    let a = matrix.add_vertex();
    let b = matrix.add_vertex();
    let c = matrix.add_vertex();
    matrix.add_edge_unchecked(a, b, 1.into());
    matrix.add_edge_unchecked(b, c, 2.into());
    matrix.add_edge_unchecked(c, a, 3.into());

    // When: Doing nothing.

    // Then:
    assert_eq!(matrix.vertex_count(), 3);
    assert_eq!(matrix.total_vertex_count(), 3);
    assert_eq!(matrix.storage_len(), 9);

    assert_eq!(matrix.neighbors_unchecked(a).len(), 1);
    assert_eq!(*matrix.neighbors_unchecked(a).get(0).unwrap(), b);

    assert_eq!(matrix.neighbors_unchecked(b).len(), 1);
    assert_eq!(*matrix.neighbors_unchecked(b).get(0).unwrap(), c);

    assert_eq!(matrix.neighbors_unchecked(c).len(), 1);
    assert_eq!(*matrix.neighbors_unchecked(c).get(0).unwrap(), a);
}

#[test]
fn mod_undirected_neighbors() {
    // Given: Undirected matrix
    //
    //      a  ---  b  ---  c
    //      |               |
    //      '----------------
    //
    let mut matrix = Mat::<usize>::init();
    let a = matrix.add_vertex();
    let b = matrix.add_vertex();
    let c = matrix.add_vertex();
    matrix.add_edge_unchecked(a, b, 1.into());
    matrix.add_edge_unchecked(b, c, 2.into());
    matrix.add_edge_unchecked(c, a, 3.into());

    // When: Doing nothing.

    // Then:
    assert_eq!(matrix.vertex_count(), 3);
    assert_eq!(matrix.total_vertex_count(), 3);
    assert_eq!(matrix.storage_len(), 6);

    assert_eq!(matrix.neighbors_unchecked(a).len(), 2);
    assert!(vec![b, c]
        .iter()
        .all(|vertex_id| matrix.neighbors_unchecked(a).contains(vertex_id)));

    assert_eq!(matrix.neighbors_unchecked(b).len(), 2);
    assert!(vec![a, c]
        .iter()
        .all(|vertex_id| matrix.neighbors_unchecked(b).contains(vertex_id)));

    assert_eq!(matrix.neighbors_unchecked(c).len(), 2);
    assert!(vec![a, b]
        .iter()
        .all(|vertex_id| matrix.neighbors_unchecked(c).contains(vertex_id)));
}

#[test]
fn mod_edge_count() {
    // Undirected
    // Given: an empty matrix.
    let mut mat = Mat::<usize>::init();

    // When: adding 3 edges.
    let a = mat.add_vertex();
    let b = mat.add_vertex();
    let c = mat.add_vertex();
    let ab = mat.add_edge_unchecked(a, b, 1.into());
    let bc = mat.add_edge_unchecked(b, c, 1.into());
    let ca = mat.add_edge_unchecked(c, a, 1.into());

    // Then: it must have 3 edges.
    assert_eq!(mat.edge_count(), 3);

    // When removing the 3 edges.
    mat.remove_edge_unchecked(a, b, ab);
    mat.remove_edge_unchecked(b, c, bc);
    mat.remove_edge_unchecked(c, a, ca);

    // Then: it must have zero edges again.
    assert_eq!(mat.edge_count(), 0);

    // Directed
    // Given: an empty matrix.
    let mut di_mat = DiMat::<usize>::init();

    // When: adding 3 edges.
    let a = di_mat.add_vertex();
    let b = di_mat.add_vertex();
    let c = di_mat.add_vertex();
    let ab = di_mat.add_edge_unchecked(a, b, 1.into());
    let bc = di_mat.add_edge_unchecked(b, c, 1.into());
    let ca = di_mat.add_edge_unchecked(c, a, 1.into());

    // Then: it must have 3 edges.
    assert_eq!(di_mat.edge_count(), 3);

    // When: removing the 3 edges.
    di_mat.remove_edge_unchecked(a, b, ab);
    di_mat.remove_edge_unchecked(b, c, bc);
    di_mat.remove_edge_unchecked(c, a, ca);

    // Then: it must have zero edges again.
    assert_eq!(di_mat.edge_count(), 0);
}

