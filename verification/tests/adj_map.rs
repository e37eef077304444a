use prepona::make::{CompleteGraph, CycleGraph, EmptyGraph, Make, PathGraph, StarGraph};
use prepona::provide::{AddEdge, AddNode, DefaultIdMap, Directed, EmptyStorage, IdMap, NodeId, Orientation, ProviderError, Undirected};
use prepona::storage::adj_map::AdjMap;

fn n(i: usize) -> NodeId {
    NodeId(i)
}

fn ids(v: &[usize]) -> Vec<NodeId> {
    v.iter().map(|i| NodeId(*i)).collect()
}

fn pairs(v: &[(usize, usize)]) -> Vec<(NodeId, NodeId)> {
    v.iter().map(|(a, b)| (NodeId(*a), NodeId(*b))).collect()
}

#[test]
fn empty_map() {
    let m = AdjMap::<Directed>::init();
    assert_eq!(m.node_count(), 0);
    assert_eq!(m.edge_count(), 0);
    assert!(m.nodes().is_empty());
    assert!(m.edges().is_empty());
    assert!(!m.contains_node(n(0)));
    assert!(!m.contains_edge(n(0), n(1)));
}

#[test]
fn directed_edges_and_neighbors() {
    let mut m = AdjMap::<Directed>::init();
    for i in [3, 1, 2] {
        m.add_node(n(i));
    }
    assert_eq!(m.nodes(), ids(&[3, 1, 2]));
    m.add_edge(n(1), n(2));
    m.add_edge(n(2), n(1));
    m.add_edge(n(3), n(3));
    m.add_edge(n(3), n(1));
    assert_eq!(m.edge_count(), 4);
    assert_eq!(m.edges(), pairs(&[(1, 2), (2, 1), (3, 3), (3, 1)]));
    assert!(m.contains_edge(n(1), n(2)) && m.contains_edge(n(2), n(1)));
    assert!(!m.contains_edge(n(1), n(3)));
    assert!(m.is_successor(n(3), n(1)) && !m.is_successor(n(1), n(3)));
    assert!(m.is_predecessor(n(1), n(3)) && !m.is_predecessor(n(3), n(1)));
    assert_eq!(m.successors(n(1)), ids(&[2]));
    assert_eq!(m.predecessors(n(1)), ids(&[2, 3]));
    assert_eq!(m.successors(n(3)), ids(&[3, 1]));
    assert_eq!(m.outgoing_edges(n(2)), ids(&[1]));
    assert_eq!(m.incoming_edges(n(2)), ids(&[1]));
    assert_eq!(m.in_degree(n(1)), 2);
    assert_eq!(m.out_degree(n(3)), 2);
    assert_eq!(m.links(n(3)), &vec![(3, Orientation::Outgoing), (1, Orientation::Outgoing)]);
}

#[test]
fn undirected_edges_are_kept_sorted() {
    let mut m = AdjMap::<Undirected>::init();
    for i in 0..4 {
        m.add_node(n(i));
    }
    m.add_edge(n(2), n(0));
    m.add_edge(n(1), n(2));
    assert_eq!(m.edges(), pairs(&[(0, 2), (1, 2)]));
    assert!(m.contains_edge(n(0), n(2)) && m.contains_edge(n(2), n(0)));
    assert!(m.is_successor(n(0), n(2)) && m.is_predecessor(n(0), n(2)));
    assert_eq!(m.successors(n(2)), ids(&[0, 1]));
    assert_eq!(m.predecessors(n(2)), ids(&[0, 1]));
    assert_eq!(m.in_degree(n(2)), 2);
    assert_eq!(m.out_degree(n(3)), 0);
}

#[test]
fn del_edge_drops_links() {
    let mut m = AdjMap::<Directed>::init();
    for i in 0..3 {
        m.add_node(n(i));
    }
    m.add_edge(n(0), n(1));
    m.add_edge(n(1), n(2));
    m.add_edge(n(2), n(0));
    m.del_edge(n(0), n(1));
    // the last edge takes the place of the removed one
    assert_eq!(m.edges(), pairs(&[(2, 0), (1, 2)]));
    assert!(m.successors(n(0)).is_empty());
    assert_eq!(m.predecessors(n(0)), ids(&[2]));
    assert!(m.predecessors(n(1)).is_empty());
}

#[test]
fn del_node_drops_its_edges() {
    let mut m = AdjMap::<Undirected>::init();
    for i in 0..4 {
        m.add_node(n(i));
    }
    m.add_edge(n(0), n(1));
    m.add_edge(n(1), n(2));
    m.add_edge(n(2), n(3));
    m.add_edge(n(1), n(1));
    m.del_node(n(1));
    // node 3, the last one, takes the place of node 1
    assert_eq!(m.nodes(), ids(&[0, 3, 2]));
    assert_eq!(m.edges(), pairs(&[(2, 3)]));
    assert!(m.successors(n(0)).is_empty());
    assert_eq!(m.successors(n(2)), ids(&[3]));
    assert!(!m.contains_node(n(1)));
}

#[test]
fn add_then_del_restores() {
    let mut m = AdjMap::<Directed>::init();
    for i in 0..3 {
        m.add_node(n(i));
    }
    m.add_edge(n(0), n(1));
    let (nodes, edges) = (m.nodes(), m.edges());
    m.add_edge(n(2), n(0));
    m.del_edge(n(2), n(0));
    assert_eq!(m.edges(), edges);
    assert!(m.successors(n(2)).is_empty());
    m.add_node(n(7));
    m.del_node(n(7));
    assert_eq!(m.nodes(), nodes);
}

fn sorted_edges(edges: Vec<(NodeId, NodeId)>) -> Vec<(usize, usize)> {
    let mut v: Vec<(usize, usize)> = edges.into_iter().map(|(a, b)| (a.0, b.0)).collect();
    v.sort();
    v
}

#[test]
fn generators_on_directed_maps() {
    let g: AdjMap<Directed> = EmptyGraph::new(3).make();
    assert_eq!(g.nodes(), ids(&[0, 1, 2]));
    assert_eq!(g.edge_count(), 0);

    let g: AdjMap<Directed> = PathGraph::new(4).make();
    assert_eq!(g.edges(), pairs(&[(0, 1), (1, 2), (2, 3)]));

    let g: AdjMap<Directed> = CycleGraph::new(3).make();
    assert_eq!(g.edges(), pairs(&[(0, 1), (1, 2), (2, 0)]));

    let g: AdjMap<Directed> = StarGraph::new(4).make();
    assert_eq!(g.edges(), pairs(&[(0, 1), (0, 2), (0, 3)]));

    let g: AdjMap<Directed> = CompleteGraph::new(3).make();
    assert_eq!(
        sorted_edges(g.edges()),
        vec![(0, 1), (0, 2), (1, 0), (1, 2), (2, 0), (2, 1)]
    );
}

#[test]
fn generators_on_undirected_maps() {
    let g: AdjMap<Undirected> = CycleGraph::new(4).make();
    assert_eq!(g.edges(), pairs(&[(0, 1), (1, 2), (2, 3), (0, 3)]));
    let g: AdjMap<Undirected> = CycleGraph::new(1).make();
    assert_eq!(g.edges(), pairs(&[(0, 0)]));
    let g: AdjMap<Undirected> = CompleteGraph::new(1).make();
    assert_eq!(g.node_count(), 1);
    assert_eq!(g.edge_count(), 0);
}

#[test]
fn append_continues_numbering() {
    let mut m = AdjMap::<Undirected>::init();
    let next = PathGraph::new(3).append(&mut m, n(0));
    assert_eq!(next, n(3));
    let next = StarGraph::new(3).append(&mut m, next);
    assert_eq!(next, n(6));
    assert_eq!(m.edges(), pairs(&[(0, 1), (1, 2), (3, 4), (3, 5)]));
}

#[test]
fn id_map_numbers_nodes_in_order() {
    let mut m = AdjMap::<Directed>::init();
    for i in [10, 4, 7] {
        m.add_node(n(i));
    }
    let ids = DefaultIdMap::new(&m);
    assert_eq!(ids.virt_id(n(10)), 0);
    assert_eq!(ids.virt_id(n(4)), 1);
    assert_eq!(ids.virt_id(n(7)), 2);
    assert_eq!(ids.node_at(1), n(4));
    for v in 0..3 {
        assert_eq!(ids.virt_id(ids.node_at(v)), v);
    }
}

fn sample_directed() -> AdjMap<Directed> {
    let mut m = AdjMap::<Directed>::init();
    for i in 0..4 {
        m.add_node(n(i));
    }
    m.add_edge(n(0), n(1));
    m.add_edge(n(1), n(2));
    m.add_edge(n(2), n(2));
    m
}

#[test]
fn checked_queries_reject_unknown_nodes() {
    let m = sample_directed();
    let bad = n(9);
    assert_eq!(m.successors_checked(bad), Err(ProviderError::InvalidNode(bad)));
    assert_eq!(m.predecessors_checked(bad), Err(ProviderError::InvalidNode(bad)));
    assert_eq!(m.incoming_edges_checked(bad), Err(ProviderError::InvalidNode(bad)));
    assert_eq!(m.outgoing_edges_checked(bad), Err(ProviderError::InvalidNode(bad)));
    assert_eq!(m.in_degree_checked(bad), Err(ProviderError::InvalidNode(bad)));
    assert_eq!(m.out_degree_checked(bad), Err(ProviderError::InvalidNode(bad)));
    assert_eq!(m.is_successor_checked(bad, n(0)), Err(ProviderError::InvalidNode(bad)));
    assert_eq!(m.is_successor_checked(n(0), bad), Err(ProviderError::InvalidNode(bad)));
    assert_eq!(m.is_predecessor_checked(bad, n(0)), Err(ProviderError::InvalidNode(bad)));
    assert_eq!(m.is_predecessor_checked(n(0), bad), Err(ProviderError::InvalidNode(bad)));
    assert_eq!(m.contains_edge_checked(n(0), bad), Err(ProviderError::InvalidNode(bad)));
    assert_eq!(m.contains_edge_checked(bad, n(0)), Err(ProviderError::InvalidNode(bad)));
    assert_eq!(m.successors_checked(n(1)), Ok(ids(&[2])));
    assert_eq!(m.in_degree_checked(n(2)), Ok(1));
    assert_eq!(m.is_predecessor_checked(n(2), n(1)), Ok(true));
    assert_eq!(m.contains_edge_checked(n(1), n(0)), Ok(false));
}

#[test]
fn checked_changes_report_errors() {
    let mut m = sample_directed();
    assert_eq!(m.add_node_checked(n(1)), Err(ProviderError::DuplicatedNode(n(1))));
    assert_eq!(m.del_node_checked(n(7)), Err(ProviderError::NodeDoesNotExist(n(7))));
    assert_eq!(m.add_edge_checked(n(0), n(1)), Err(ProviderError::MultiEdge(n(0), n(1))));
    assert_eq!(m.add_edge_checked(n(8), n(1)), Err(ProviderError::InvalidNode(n(8))));
    assert_eq!(m.del_edge_checked(n(8), n(1)), Err(ProviderError::InvalidNode(n(8))));
    assert_eq!(m.del_edge_checked(n(1), n(8)), Err(ProviderError::InvalidNode(n(8))));
    assert_eq!(m.del_edge_checked(n(3), n(1)), Err(ProviderError::EdgeDoesNotExist(n(3), n(1))));
    assert_eq!(m.edge_count(), 3);
    assert_eq!(m.add_node_checked(n(5)), Ok(()));
    assert_eq!(m.add_edge_checked(n(5), n(3)), Ok(()));
    assert_eq!(m.del_edge_checked(n(0), n(1)), Ok(()));
    assert_eq!(m.del_node_checked(n(5)), Ok(()));
    assert_eq!(m.edges(), pairs(&[(2, 2), (1, 2)]));
}

#[test]
fn new_node_is_isolated() {
    let mut m = sample_directed();
    m.add_node(n(4));
    assert_eq!(m.node_count(), 5);
    assert_eq!(m.edge_count(), 3);
    assert!(m.successors(n(4)).is_empty() && m.predecessors(n(4)).is_empty());
    assert_eq!((m.in_degree(n(4)), m.out_degree(n(4))), (0, 0));
    for other in m.nodes() {
        assert!(!m.is_successor(n(4), other) && !m.is_predecessor(n(4), other));
        assert!(!m.successors(other).contains(&n(4)));
        assert!(!m.predecessors(other).contains(&n(4)));
    }
}

#[test]
fn edge_between_new_nodes() {
    for directed in [true, false] {
        let (succ, pred, outd, ind, rev) = if directed {
            let mut m = sample_directed();
            m.add_node(n(4));
            m.add_node(n(5));
            m.add_edge(n(4), n(5));
            (m.successors(n(4)), m.predecessors(n(5)), m.out_degree(n(4)), m.in_degree(n(5)), m.is_successor(n(5), n(4)))
        } else {
            let mut m = AdjMap::<Undirected>::init();
            m.add_node(n(4));
            m.add_node(n(5));
            m.add_edge(n(4), n(5));
            (m.successors(n(4)), m.predecessors(n(5)), m.out_degree(n(4)), m.in_degree(n(5)), m.is_successor(n(5), n(4)))
        };
        assert_eq!(succ, ids(&[5]));
        assert_eq!(pred, ids(&[4]));
        assert_eq!((outd, ind), (1, 1));
        assert_eq!(rev, !directed);
    }
}

#[test]
fn deleting_a_node_with_edges_restores_counts() {
    let mut m = sample_directed();
    let (nodes_before, edges_before) = (m.node_count(), m.edge_count());
    m.add_node(n(4));
    for (index, other) in m.nodes().into_iter().enumerate() {
        if index % 2 == 0 {
            m.add_edge(n(4), other);
        } else {
            m.add_edge(other, n(4));
        }
    }
    m.del_node(n(4));
    assert_eq!(m.node_count(), nodes_before);
    assert_eq!(m.edge_count(), edges_before);
    assert!(m.edges().iter().all(|(s, d)| *s != n(4) && *d != n(4)));
    for other in m.nodes() {
        assert!(!m.successors(other).contains(&n(4)));
        assert!(!m.predecessors(other).contains(&n(4)));
    }
}

#[test]
fn directed_del_edge_drops_the_reverse_links_too() {
    let mut m = AdjMap::<Directed>::init();
    m.add_node(n(0));
    m.add_node(n(1));
    m.add_edge(n(0), n(1));
    m.add_edge(n(1), n(0));
    m.del_edge(n(0), n(1));
    // the reverse edge is still recorded, but neither node links to the other any more
    assert_eq!(m.edges(), pairs(&[(1, 0)]));
    assert!(m.contains_edge(n(1), n(0)));
    assert!(m.successors(n(1)).is_empty());
    assert!(m.predecessors(n(0)).is_empty());
}

#[test]
fn clone_is_independent() {
    let m = sample_directed();
    let mut c = m.clone();
    assert_eq!(c.nodes(), m.nodes());
    assert_eq!(c.edges(), m.edges());
    assert_eq!(c.successors(n(1)), m.successors(n(1)));
    c.del_node(n(1));
    assert_eq!(m.node_count(), 4);
    assert_eq!(c.node_count(), 3);
    assert_eq!(m.edges(), pairs(&[(0, 1), (1, 2), (2, 2)]));
}
