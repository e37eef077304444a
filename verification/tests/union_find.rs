use prepona::misc::ufind::UnionFind;

#[test]
fn new_sets_are_singletons() {
    let uf = UnionFind::new(4);
    for i in 0..4 {
        assert_eq!(uf.find(i), i);
        for j in 0..4 {
            assert_eq!(uf.equiv(i, j), i == j);
        }
    }
}

#[test]
fn union_merges_and_reports() {
    let mut uf = UnionFind::new(6);
    assert!(uf.union(0, 1));
    assert!(!uf.union(1, 0));
    assert!(!uf.union(2, 2));
    assert!(uf.union(2, 3));
    assert!(uf.union(1, 3));
    assert!(uf.equiv(0, 2));
    assert!(uf.equiv(3, 0));
    assert!(!uf.equiv(0, 4));
    assert!(!uf.equiv(4, 5));
    assert_eq!(uf.find(0), uf.find(3));
    assert_ne!(uf.find(4), uf.find(5));
}

#[test]
fn find_mut_keeps_sets() {
    let mut uf = UnionFind::new(8);
    for i in 0..7 {
        uf.union(i, i + 1);
    }
    let root = uf.find(7);
    for i in 0..8 {
        assert_eq!(uf.find_mut(i), root);
        assert_eq!(uf.find(i), root);
    }
}

#[test]
fn union_of_equal_ranks_keeps_first_root() {
    let mut uf = UnionFind::new(2);
    assert!(uf.union(0, 1));
    assert_eq!(uf.find(1), 0);
    let mut uf = UnionFind::new(3);
    assert!(uf.union(1, 2));
    assert!(uf.union(0, 1));
    // the set of rank one absorbs the singleton
    assert_eq!(uf.find(0), 1);
}

#[test]
fn find_gives_a_root_of_its_own() {
    let mut uf = UnionFind::new(5);
    uf.union(0, 1);
    uf.union(3, 1);
    uf.union(4, 2);
    for x in 0..5 {
        let r = uf.find(x);
        assert!(r < 5);
        assert_eq!(uf.find(r), r);
    }
    assert_eq!(uf.find(0), uf.find(3));
    assert_ne!(uf.find(0), uf.find(4));
}
