use prepona::storage::{Error, ErrorKind};

#[test]
fn vertex_not_found_message() {
    let e = Error::new_vnf(3);
    assert_eq!(*e.kind(), ErrorKind::VertexNotFound);
    assert_eq!(e.msg(), "Vertex with id: 3 not found");
}

#[test]
fn edge_not_found_message() {
    let e = Error::new_enf(12);
    assert_eq!(*e.kind(), ErrorKind::EdgeNotFound);
    assert_eq!(e.msg(), "Edge with id: 12 not found");
}

#[test]
fn invalid_edge_id_message() {
    let e = Error::new_iei(1, 2, 30);
    assert_eq!(*e.kind(), ErrorKind::InvalidEdgeId);
    assert_eq!(e.msg(), "There is no edge with id: 30 from vertex with id: 1 to vertex with id: 2");
}

#[test]
fn empty_edge_list_message() {
    let e = Error::new_eel(0, 105);
    assert_eq!(*e.kind(), ErrorKind::EmptyEdgeList);
    assert_eq!(e.msg(), "There is no edge from 0 to 105");
}

#[test]
fn custom_error() {
    let e = Error::new(ErrorKind::EdgeNotFound, String::from("gone"));
    assert_eq!(*e.kind(), ErrorKind::EdgeNotFound);
    assert_eq!(e.msg(), "gone");
}
