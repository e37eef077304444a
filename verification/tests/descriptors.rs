use prepona::storage::edge::descriptors::{
    ArrKUniformDirHyperedge, ArrKUniformHyperedge, CheckedFixedSizeMutEdgeDescriptor,
    CheckedMutEdgeDescriptor, DirectedEdge, EdgeDescriptor, FixedSizeMutEdgeDescriptor,
    HashedDirHyperedge, HashedHyperedge, MutEdgeDescriptor, UndirectedEdge,
};
use prepona::storage::StorageError;

fn sorted(mut v: Vec<usize>) -> Vec<usize> {
    v.sort();
    v
}

#[test]
fn directed_edge_ends() {
    let mut e = DirectedEdge::init(1, 2);
    assert!(DirectedEdge::is_directed());
    assert_eq!(e.get_sources(), vec![1]);
    assert_eq!(e.get_destinations(), vec![2]);
    assert!(e.is_source(&1) && !e.is_source(&2));
    assert!(e.is_destination(&2) && !e.is_destination(&1));
    assert!(e.contains(&1) && e.contains(&2) && !e.contains(&3));
    assert_eq!((e.sources_count(), e.destinations_count()), (1, 1));
    e.replace_src(&1, 5);
    assert_eq!(e.get_sources(), vec![5]);
    assert_eq!(e.replace_dst_checked(&9, 3), Err(StorageError::InvalidVertexToken(9)));
    assert_eq!(e.replace_dst_checked(&2, 3), Ok(()));
    assert_eq!(e.get_destinations(), vec![3]);
}

#[test]
fn undirected_edge_ends() {
    let e = UndirectedEdge::init(4, 7);
    assert!(UndirectedEdge::is_undirected());
    assert_eq!(sorted(e.get_sources()), vec![4, 7]);
    assert_eq!(sorted(e.get_destinations()), vec![4, 7]);
    assert!(e.is_source(&7) && e.is_destination(&4));
}

#[test]
fn hyperedge_add_and_remove() {
    let mut e = HashedHyperedge::init(vec![1, 2, 3]);
    assert_eq!(sorted(e.get_sources()), vec![1, 2, 3]);
    assert_eq!(e.sources_count(), 3);
    assert_eq!(e.add_checked(4, 5), Ok(()));
    assert_eq!(e.add_src_checked(4), Err(StorageError::VertexAlreadyExists(4)));
    assert_eq!(e.remove_checked(&9), Err(StorageError::VertexNotFound(9)));
    e.remove(&1);
    assert_eq!(sorted(e.get_destinations()), vec![2, 3, 4, 5]);
}

#[test]
fn directed_hyperedge_sides() {
    let mut e = HashedDirHyperedge::init(vec![1, 2], vec![3]);
    assert!(e.is_source(&1) && !e.is_source(&3));
    assert!(e.is_destination(&3));
    assert_eq!(e.add_checked(1, 3), Err(StorageError::ConnectionAlreadyExists(1, 3)));
    assert_eq!(e.add_checked(4, 3), Ok(()));
    assert_eq!(sorted(e.get_sources()), vec![1, 2, 4]);
    e.add_dst(6);
    assert_eq!(sorted(e.get_destinations()), vec![3, 6]);
    e.remove(&2);
    assert_eq!(sorted(e.get_sources()), vec![1, 4]);
}

#[test]
fn k_uniform_hyperedge_needs_k_tokens() {
    let bad = ArrKUniformHyperedge::<3>::try_init(vec![1, 2]);
    assert!(matches!(bad, Err(StorageError::NotKElement(2, 3))));
    let mut e = ArrKUniformHyperedge::<3>::try_init(vec![1, 2, 3]).unwrap();
    assert_eq!(e.get_sources(), vec![1, 2, 3]);
    assert!(e.contains(&2) && !e.contains(&4));
    e.replace_src(&2, 8);
    assert_eq!(e.get_destinations(), vec![1, 8, 3]);
    assert_eq!(e.replace_src_checked(&5, 1), Err(StorageError::InvalidVertexToken(5)));
}

#[test]
fn k_uniform_directed_hyperedge_has_one_source() {
    let e = ArrKUniformDirHyperedge::<4>::try_init(vec![1, 2, 3, 4]).unwrap();
    assert_eq!(e.get_sources(), vec![1]);
    assert_eq!(e.get_destinations(), vec![2, 3, 4]);
    assert!(e.is_source(&1) && !e.is_source(&2));
    assert!(e.is_destination(&4) && !e.is_destination(&1));
    assert!(ArrKUniformDirHyperedge::<4>::try_init(vec![1]).is_err());
}

#[test]
fn replace_dst_checked_refuses_a_present_destination() {
    let mut e = HashedDirHyperedge::init(vec![1], vec![2, 3]);
    assert_eq!(e.replace_dst_checked(&2, 3), Err(StorageError::InvalidVertexToken(3)));
    assert_eq!(sorted(e.get_destinations()), vec![2, 3]);
    assert_eq!(e.replace_dst_checked(&2, 4), Ok(()));
    assert_eq!(sorted(e.get_destinations()), vec![3, 4]);
    assert_eq!(e.get_sources(), vec![1]);

    let mut d = DirectedEdge::init(1, 2);
    assert_eq!(d.replace_dst_checked(&2, 2), Err(StorageError::InvalidVertexToken(2)));
    assert_eq!(d.get_destinations(), vec![2]);
}
