use prepona::storage::adj_list::{DiList, List};
use prepona::graph::Edge;

#[test]
fn directed_empty_list() {
    // Given: An empty directed list.
    let list = DiList::<usize>::init();

    // When: Doing nothing.

    // Then:
    assert_eq!(list.edge_count(), 0);
    assert_eq!(list.vertex_count(), 0);
    assert_eq!(list.edge_lists().len(), 0);
    assert_eq!(list.reusable_vertex_ids().len(), 0);
    assert_eq!(list.is_directed(), true);
}

#[test]
fn undirected_empty_list() {
    // Given: An empty undirected list.
    let list = List::<usize>::init();

    // When: Doing nothing.

    // Then:
    assert_eq!(list.edge_count(), 0);
    assert_eq!(list.vertex_count(), 0);
    assert_eq!(list.edge_lists().len(), 0);
    assert_eq!(list.reusable_vertex_ids().len(), 0);
    assert_eq!(list.is_directed(), false);
}

#[test]
fn directed_add_vertex() {
    // Given: An empty directed list.
    let mut list = DiList::<usize>::init();

    // When: Adding 3 vertices.
    let a = list.add_vertex();
    let b = list.add_vertex();
    let c = list.add_vertex();

    // Then:
    assert_eq!(list.vertex_count(), 3);
    assert_eq!(list.edge_lists().len(), 3);
    assert!(list.edge_lists().iter().all(|edges| edges.is_empty()));
    assert_eq!(list.reusable_vertex_ids().len(), 0);

    assert_eq!(list.vertices().len(), 3);
    assert!(vec![a, b, c]
        .iter()
        .all(|vertex_id| list.vertices().contains(vertex_id)));

    // Edge weight between any two vertices must be positive infinity.
    // Also edge src and dst must be set correctly.
    assert!(vec![a, b, c]
        .into_iter()
        .flat_map(|vertex_id| vec![(vertex_id, a), (vertex_id, b), (vertex_id, c)])
        .all(|(src_id, dst_id)| !list.has_any_edge(src_id, dst_id).unwrap()));
}

#[test]
fn undirected_add_vertex() {
    // Given: An empty undirected list.
    let mut list = List::<usize>::init();

    // When: Adding 3 vertices.
    let a = list.add_vertex();
    let b = list.add_vertex();
    let c = list.add_vertex();

    // Then:
    assert_eq!(list.vertex_count(), 3);
    assert_eq!(list.edge_lists().len(), 3);
    assert_eq!(list.reusable_vertex_ids().len(), 0);

    assert_eq!(list.vertices().len(), 3);
    assert!(vec![a, b, c]
        .iter()
        .all(|vertex_id| list.vertices().contains(vertex_id)));

    // Edge weight between any two vertices must be positive infinity.
    // Also edge src and dst must be set correctly.
    assert!(vec![a, b, c]
        .into_iter()
        .flat_map(|vertex_id| vec![(vertex_id, a), (vertex_id, b), (vertex_id, c)])
        .all(|(src_id, dst_id)| !list.has_any_edge(src_id, dst_id).unwrap()));
}

#[test]
fn directed_delete_vertex() {
    // Given: Directed graph
    //
    //      a   b   c
    //
    let mut list = DiList::<usize>::init();
    let a = list.add_vertex();
    let b = list.add_vertex();
    let c = list.add_vertex();

    // When: Removing vertices a and b.
    list.remove_vertex(a).unwrap();
    list.remove_vertex(b).unwrap();

    // Then:
    assert_eq!(list.vertex_count(), 1);
    assert_eq!(list.edge_lists().len(), 3);

    // Vertices a and b must be reusable.
    assert_eq!(list.reusable_vertex_ids().len(), 2);
    assert!(vec![a, b]
        .iter()
        .all(|vertex_id| list.reusable_vertex_ids().contains(vertex_id)));

    // list must only contain c.
    assert_eq!(list.vertices().len(), 1);
    assert!(list.vertices().contains(&c));

    assert!(!list.has_any_edge(c, c).unwrap());
}

#[test]
fn undirected_delete_vertex() {
    // Given: Undirected graph
    //
    //      a   b   c
    //
    let mut list = List::<usize>::init();
    let a = list.add_vertex();
    let b = list.add_vertex();
    let c = list.add_vertex();

    // When: Removing vertices a and b.
    list.remove_vertex(a).unwrap();
    list.remove_vertex(b).unwrap();

    // Then:
    assert_eq!(list.vertex_count(), 1);
    assert_eq!(list.edge_lists().len(), 3);

    // Vertices a and b must be reusable.
    assert_eq!(list.reusable_vertex_ids().len(), 2);
    assert!(vec![a, b]
        .iter()
        .all(|vertex_id| list.reusable_vertex_ids().contains(vertex_id)));

    // list must only contain c.
    assert_eq!(list.vertices().len(), 1);
    assert!(list.vertices().contains(&c));

    assert!(!list.has_any_edge(c, c).unwrap());
}

#[test]
fn directed_add_vertex_after_vertex_deletion() {
    // Given: Directed graph
    //
    //      a   b   c
    //
    let mut list = DiList::<usize>::init();
    let a = list.add_vertex();
    let b = list.add_vertex();
    let c = list.add_vertex();

    // When: Removing vertices a and b and afterwards adding two new vertices.
    list.remove_vertex(a).unwrap();
    list.remove_vertex(b).unwrap();
    let _ = list.add_vertex();
    let _ = list.add_vertex();

    // Then:
    assert_eq!(list.vertex_count(), 3);
    assert_eq!(list.edge_lists().len(), 3);

    // There must be no reusable id.
    assert_eq!(list.reusable_vertex_ids().len(), 0);

    // Vertex ids a and b must be reused.
    assert_eq!(list.vertices().len(), 3);
    assert!(vec![a, b, c]
        .iter()
        .all(|vertex_id| list.vertices().contains(vertex_id)));

    // Edge weight between any two vertices must be positive infinity.
    // Also edge src and dst must be set correctly.
    assert!(vec![a, b, c]
        .into_iter()
        .flat_map(|vertex_id| vec![(vertex_id, a), (vertex_id, b), (vertex_id, c)])
        .all(|(src_id, dst_id)| !list.has_any_edge(src_id, dst_id).unwrap()));
}

#[test]
fn undirected_add_vertex_after_vertex_deletion() {
    // Given: Undirected graph
    //
    //      a   b   c
    //
    let mut list = List::<usize>::init();
    let a = list.add_vertex();
    let b = list.add_vertex();
    let c = list.add_vertex();

    // When: Removing vertices a and b and afterwards adding two new vertices.
    list.remove_vertex(a).unwrap();
    list.remove_vertex(b).unwrap();
    let _ = list.add_vertex();
    let _ = list.add_vertex();

    // Then:
    assert_eq!(list.vertex_count(), 3);
    assert_eq!(list.edge_lists().len(), 3);

    // There must be no reusable id.
    assert_eq!(list.reusable_vertex_ids().len(), 0);

    // Vertex ids a and b must be reused.
    assert_eq!(list.vertices().len(), 3);
    assert!(vec![a, b, c]
        .iter()
        .all(|vertex_id| list.vertices().contains(vertex_id)));

    // Edge weight between any two vertices must be positive infinity.
    // Also edge src and dst must be set correctly.
    assert!(vec![a, b, c]
        .into_iter()
        .flat_map(|vertex_id| vec![(vertex_id, a), (vertex_id, b), (vertex_id, c)])
        .all(|(src_id, dst_id)| !list.has_any_edge(src_id, dst_id).unwrap()));
}

#[test]
fn directed_add_edge() {
    // Given: Directed list
    //
    //      a   b   c
    //
    let mut list = DiList::<usize>::init();
    let a = list.add_vertex();
    let b = list.add_vertex();
    let c = list.add_vertex();

    // When: Adding edges
    //
    //      a  -->  b  -->  c
    //      ^               |
    //      '----------------
    //
    list.add_edge(a, b, 1.into()).unwrap();
    list.add_edge(b, c, 2.into()).unwrap();
    list.add_edge(c, a, 3.into()).unwrap();

    // Then:
    assert_eq!(list.vertex_count(), 3);
    assert_eq!(list.edge_lists().len(), 3);
    assert!(list.edge_lists().iter().all(|edges| edges.len() == 1));

    assert_eq!(list.edges().len(), 3);
    for (src_id, dst_id, edge) in list.edges() {
        match (src_id, dst_id) {
            (0, 1) => assert_eq!(edge.get_weight().unwrap(), 1),
            (1, 2) => assert_eq!(edge.get_weight().unwrap(), 2),
            (2, 0) => assert_eq!(edge.get_weight().unwrap(), 3),
            _ => panic!("Unknown vertex id"),
        }
    }
}

#[test]
fn undirected_add_edge() {
    // Given: Undirected list
    //
    //      a   b   c
    //
    let mut list = List::<usize>::init();
    let a = list.add_vertex();
    let b = list.add_vertex();
    let c = list.add_vertex();

    // When: Adding edges
    //
    //      a  ---  b  ---  c
    //      |               |
    //      '----------------
    //
    list.add_edge(a, b, 1.into()).unwrap();
    list.add_edge(b, c, 2.into()).unwrap();
    list.add_edge(c, a, 3.into()).unwrap();

    // Then:
    assert_eq!(list.vertex_count(), 3);
    assert_eq!(list.edge_lists().len(), 3);
    assert!(list.edge_lists().iter().all(|edges| edges.len() == 2));

    assert_eq!(list.edges().len(), 3);
    for (src_id, dst_id, edge) in list.edges() {
        match (src_id, dst_id) {
            (0, 1) | (1, 0) => assert_eq!(edge.get_weight().unwrap(), 1),
            (1, 2) | (2, 1) => assert_eq!(edge.get_weight().unwrap(), 2),
            (2, 0) | (0, 2) => assert_eq!(edge.get_weight().unwrap(), 3),
            _ => panic!("Unknown vertex id"),
        }
    }
}

#[test]
fn directed_has_edge() {
    // Given: Directed list
    //
    //      a  -->  b  -->  c
    //      ^               |
    //      '----------------
    //
    let mut list = DiList::<usize>::init();
    let a = list.add_vertex();
    let b = list.add_vertex();
    let c = list.add_vertex();
    list.add_edge(a, b, 1.into()).unwrap();
    list.add_edge(b, c, 2.into()).unwrap();
    list.add_edge(c, a, 3.into()).unwrap();

    // When: Doing nothing.

    // Then:
    assert!(list.has_any_edge(a, b).unwrap());
    assert!(list.has_any_edge(b, c).unwrap());
    assert!(list.has_any_edge(c, a).unwrap());
}

#[test]
fn undirected_has_edge() {
    // Given: Undirected list
    //
    //      a  ---  b  ---  c
    //      |               |
    //      '----------------
    //
    let mut list = List::<usize>::init();
    let a = list.add_vertex();
    let b = list.add_vertex();
    let c = list.add_vertex();
    list.add_edge(a, b, 1.into()).unwrap();
    list.add_edge(b, c, 2.into()).unwrap();
    list.add_edge(c, a, 3.into()).unwrap();

    // When: Doing nothing.

    // Then:
    assert!(list.has_any_edge(a, b).unwrap());
    assert!(list.has_any_edge(b, a).unwrap());

    assert!(list.has_any_edge(b, c).unwrap());
    assert!(list.has_any_edge(c, b).unwrap());

    assert!(list.has_any_edge(c, a).unwrap());
    assert!(list.has_any_edge(a, c).unwrap());
}

#[test]
fn directed_update_edge() {
    // Given: Directed list
    //
    //      a  -->  b  -->  c
    //      ^               |
    //      '----------------
    //
    let mut list = DiList::<usize>::init();
    let a = list.add_vertex();
    let b = list.add_vertex();
    let c = list.add_vertex();

    let ab = list.add_edge(a, b, 1.into()).unwrap();
    let bc = list.add_edge(b, c, 2.into()).unwrap();
    let ca = list.add_edge(c, a, 3.into()).unwrap();

    // When: Incrementing edge of each edge by 1.
    list.update_edge(a, b, ab, 2.into()).unwrap();
    list.update_edge(b, c, bc, 3.into()).unwrap();
    list.update_edge(c, a, ca, 4.into()).unwrap();

    // Then:
    assert_eq!(list.vertex_count(), 3);
    assert_eq!(list.edge_lists().len(), 3);
    assert!(list.edge_lists().iter().all(|edges| edges.len() == 1));

    assert_eq!(list.edges().len(), 3);
    for (src_id, dst_id, edge) in list.edges() {
        match (src_id, dst_id) {
            (0, 1) => assert_eq!(edge.get_weight().unwrap(), 2),
            (1, 2) => assert_eq!(edge.get_weight().unwrap(), 3),
            (2, 0) => assert_eq!(edge.get_weight().unwrap(), 4),
            _ => panic!("Unknown vertex id"),
        }
    }
}

#[test]
fn undirected_update_edge() {
    // Given: Undirected list
    //
    //      a  ---  b  ---  c
    //      |               |
    //      '----------------
    //
    let mut list = List::<usize>::init();
    let a = list.add_vertex();
    let b = list.add_vertex();
    let c = list.add_vertex();

    let ab = list.add_edge(a, b, 1.into()).unwrap();
    let bc = list.add_edge(b, c, 2.into()).unwrap();
    let ca = list.add_edge(c, a, 3.into()).unwrap();

    // When: Incrementing edge of each edge by 1.
    list.update_edge(a, b, ab, 2.into()).unwrap();
    list.update_edge(b, c, bc, 3.into()).unwrap();
    list.update_edge(c, a, ca, 4.into()).unwrap();

    // Then:
    assert_eq!(list.vertex_count(), 3);
    assert_eq!(list.edge_lists().len(), 3);
    assert!(list.edge_lists().iter().all(|edges| edges.len() == 2));

    assert_eq!(list.edges().len(), 3);
    for (src_id, dst_id, edge) in list.edges() {
        match (src_id, dst_id) {
            (0, 1) | (1, 0) => assert_eq!(edge.get_weight().unwrap(), 2),
            (1, 2) | (2, 1) => assert_eq!(edge.get_weight().unwrap(), 3),
            (2, 0) | (0, 2) => assert_eq!(edge.get_weight().unwrap(), 4),
            _ => panic!("Unknown vertex id"),
        }
    }
}

#[test]
fn directed_remove_edge() {
    // Given: Directed list
    //
    //      a  -->  b  -->  c
    //      ^               |
    //      '----------------
    //
    let mut list = DiList::<usize>::init();
    let a = list.add_vertex();
    let b = list.add_vertex();
    let c = list.add_vertex();
    let ab = list.add_edge(a, b, 1.into()).unwrap();
    let bc = list.add_edge(b, c, 2.into()).unwrap();
    list.add_edge(c, a, 3.into()).unwrap();

    // When: Removing edges a --> b and b --> c
    //
    //      a   b   c
    //      ^       |
    //      '--------
    //
    list.remove_edge(a, b, ab).unwrap();
    list.remove_edge(b, c, bc).unwrap();

    // Then:
    assert_eq!(list.vertex_count(), 3);
    assert_eq!(list.edge_lists().len(), 3);
    assert!(list.edge_lists()[a].is_empty());
    assert!(list.edge_lists()[b].is_empty());
    assert_eq!(list.edge_lists()[c].len(), 1);

    assert_eq!(list.edges().len(), 1);
    assert_eq!(
        list.edges_between(c, a).unwrap()[0].get_weight().unwrap(),
        3
    );
}

#[test]
fn undirected_remove_edge() {
    // Given: Undirected list
    //
    //      a  ---  b  ---  c
    //      |               |
    //      '----------------
    //
    let mut list = List::<usize>::init();
    let a = list.add_vertex();
    let b = list.add_vertex();
    let c = list.add_vertex();
    let ab = list.add_edge(a, b, 1.into()).unwrap();
    let bc = list.add_edge(b, c, 2.into()).unwrap();
    list.add_edge(c, a, 3.into()).unwrap();

    // When: Removing edges a --- b and b --- c
    //
    //      a   b   c
    //      |       |
    //      '--------
    //
    list.remove_edge(a, b, ab).unwrap();
    list.remove_edge(b, c, bc).unwrap();

    // Then:
    assert_eq!(list.vertex_count(), 3);
    assert_eq!(list.edge_lists()[a].len(), 1);
    assert!(list.edge_lists()[b].is_empty());
    assert_eq!(list.edge_lists()[c].len(), 1);

    assert_eq!(list.edges().len(), 1);
    assert_eq!(
        list.edges_between(a, c).unwrap()[0].get_weight().unwrap(),
        3
    );
}

#[test]
fn directed_neighbors() {
    // Given: Directed list
    //
    //      a  -->  b  -->  c
    //      ^               |
    //      '----------------
    //
    let mut list = DiList::<usize>::init();
    let a = list.add_vertex();
    let b = list.add_vertex();
    let c = list.add_vertex();
    list.add_edge(a, b, 1.into()).unwrap();
    list.add_edge(b, c, 2.into()).unwrap();
    list.add_edge(c, a, 3.into()).unwrap();

    // When: Doing nothing.

    // Then:
    assert_eq!(list.vertex_count(), 3);
    assert_eq!(list.edge_lists().len(), 3);
    assert!(list.edge_lists().iter().all(|edges| edges.len() == 1));

    assert_eq!(list.neighbors(a).unwrap().len(), 1);
    assert_eq!(*list.neighbors(a).unwrap().get(0).unwrap(), b);

    assert_eq!(list.neighbors(b).unwrap().len(), 1);
    assert_eq!(*list.neighbors(b).unwrap().get(0).unwrap(), c);

    assert_eq!(list.neighbors(c).unwrap().len(), 1);
    assert_eq!(*list.neighbors(c).unwrap().get(0).unwrap(), a);
}

#[test]
fn undirected_neighbors() {
    // Given: Undirected list
    //
    //      a  ---  b  ---  c
    //      |               |
    //      '----------------
    //
    let mut list = List::<usize>::init();
    let a = list.add_vertex();
    let b = list.add_vertex();
    let c = list.add_vertex();
    list.add_edge(a, b, 1.into()).unwrap();
    list.add_edge(b, c, 2.into()).unwrap();
    list.add_edge(c, a, 3.into()).unwrap();

    // When: Doing nothing.

    // Then:
    assert_eq!(list.vertex_count(), 3);
    assert_eq!(list.edge_lists().len(), 3);
    assert!(list.edge_lists().iter().all(|edges| edges.len() == 2));

    assert_eq!(list.neighbors(a).unwrap().len(), 2);
    assert!(vec![b, c]
        .iter()
        .all(|vertex_id| list.neighbors(a).unwrap().contains(vertex_id)));

    assert_eq!(list.neighbors(b).unwrap().len(), 2);
    assert!(vec![a, c]
        .iter()
        .all(|vertex_id| list.neighbors(b).unwrap().contains(vertex_id)));

    assert_eq!(list.neighbors(c).unwrap().len(), 2);
    assert!(vec![a, b]
        .iter()
        .all(|vertex_id| list.neighbors(c).unwrap().contains(vertex_id)));
}

#[test]
fn edge_count() {
    // Undirected
    // Given: an empty matrix.
    let mut mat = List::<usize>::init();

    // When: adding 3 edges.
    let a = mat.add_vertex();
    let b = mat.add_vertex();
    let c = mat.add_vertex();
    let ab = mat.add_edge(a, b, 1.into()).unwrap();
    let bc = mat.add_edge(b, c, 1.into()).unwrap();
    let ca = mat.add_edge(c, a, 1.into()).unwrap();

    // Then: it must have 3 edges.
    assert_eq!(mat.edge_count(), 3);

    // When removing the 3 edges.
    mat.remove_edge(a, b, ab).unwrap();
    mat.remove_edge(b, c, bc).unwrap();
    mat.remove_edge(c, a, ca).unwrap();

    // Then: it must have zero edges again.
    assert_eq!(mat.edge_count(), 0);

    // Directed
    // Given: an empty matrix.
    let mut di_mat = DiList::<usize>::init();

    // When: adding 3 edges.
    let a = di_mat.add_vertex();
    let b = di_mat.add_vertex();
    let c = di_mat.add_vertex();
    let ab = di_mat.add_edge(a, b, 1.into()).unwrap();
    let bc = di_mat.add_edge(b, c, 1.into()).unwrap();
    let ca = di_mat.add_edge(c, a, 1.into()).unwrap();

    // Then: it must have 3 edges.
    assert_eq!(di_mat.edge_count(), 3);

    // When: removing the 3 edges.
    di_mat.remove_edge(a, b, ab).unwrap();
    di_mat.remove_edge(b, c, bc).unwrap();
    di_mat.remove_edge(c, a, ca).unwrap();

    // Then: it must have zero edges again.
    assert_eq!(di_mat.edge_count(), 0);
}

#[test]
fn undirected_filter_drops_a_vertex() {
    // Given: a --1-- b --2-- c --3-- a
    let mut l = List::<usize>::init();
    let a = l.add_vertex();
    let b = l.add_vertex();
    let c = l.add_vertex();
    l.add_edge(a, b, 1.into()).unwrap();
    l.add_edge(b, c, 2.into()).unwrap();
    l.add_edge(c, a, 3.into()).unwrap();

    // When: keeping every vertex but `a`.
    let r = l.filter(|v| *v != a, |_, _, _| true);

    // Then: b and c become 0 and 1, joined by the edge of weight 2, now with id 0.
    assert_eq!(r.vertex_count(), 2);
    assert_eq!(r.vertices(), vec![0, 1]);
    assert_eq!(r.edge_count(), 1);
    let between = r.edges_between(0, 1).unwrap();
    assert_eq!(between.len(), 1);
    assert_eq!(between[0].get_weight().unwrap(), 2);
    assert_eq!(between[0].get_id(), 0);
    assert_eq!(r.edges_between(1, 0).unwrap().len(), 1);
    assert_eq!(r.edge_lists()[0].len(), 1);
    assert_eq!(r.edge_lists()[1].len(), 1);
    assert_eq!(l.vertex_count(), 3);
    assert_eq!(l.edge_count(), 3);
}

#[test]
fn directed_filter_keeps_chosen_edges() {
    // Given: a -> b (1), b -> c (2), a -> c (3), c -> c (4)
    let mut l = DiList::<usize>::init();
    let a = l.add_vertex();
    let b = l.add_vertex();
    let c = l.add_vertex();
    l.add_edge(a, b, 1.into()).unwrap();
    l.add_edge(b, c, 2.into()).unwrap();
    l.add_edge(a, c, 3.into()).unwrap();
    l.add_edge(c, c, 4.into()).unwrap();

    // When: keeping all vertices and the edges of odd weight or self loops.
    let r = l.filter(|_| true, |s, d, e| s == d || e.get_weight().unwrap() % 2 == 1);

    // Then: the kept edges get ids 0.. in the order of `edges()`, the lists hold only them.
    assert_eq!(r.vertices(), vec![0, 1, 2]);
    assert_eq!(r.edge_count(), 3);
    let kept: Vec<(usize, usize, usize, usize)> = r
        .edges()
        .into_iter()
        .map(|(s, d, e)| (s, d, e.get_id(), e.get_weight().unwrap()))
        .collect();
    assert_eq!(kept, vec![(0, 1, 0, 1), (0, 2, 1, 3), (2, 2, 2, 4)]);
    assert_eq!(r.edge_lists()[1].len(), 0);
}
