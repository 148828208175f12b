use salsa::graph::DependencyGraph;
use salsa::DatabaseKeyIndex;
use salsa::RuntimeId;

fn k(i: u32) -> DatabaseKeyIndex {
    DatabaseKeyIndex::new(0, 0, i)
}

#[test]
fn dependency_graph_path1() {
    let mut graph = DependencyGraph::default();
    let a = RuntimeId { counter: 0 };
    let b = RuntimeId { counter: 1 };
    assert!(graph.add_edge(a, Some(&k(2)), b, vec![k(1)]));
    assert_eq!(
        graph.get_cycle_path(&k(1), b, a, &[k(3), k(2)][..]),
        vec![k(1), k(2)]
    );
}

#[test]
fn dependency_graph_path2() {
    let mut graph = DependencyGraph::default();
    let a = RuntimeId { counter: 0 };
    let b = RuntimeId { counter: 1 };
    let c = RuntimeId { counter: 2 };
    assert!(graph.add_edge(a, Some(&k(3)), b, vec![k(1)]));
    assert!(graph.add_edge(b, Some(&k(4)), c, vec![k(2), k(3)]));
    assert_eq!(
        graph.get_cycle_path(&k(1), c, a, &[k(5), k(6), k(4), k(7)][..]),
        vec![k(1), k(3), k(4), k(7)]
    );
}

#[test]
fn edge_is_refused_exactly_when_it_closes_a_cycle() {
    let mut graph = DependencyGraph::new();
    let a = RuntimeId { counter: 0 };
    let b = RuntimeId { counter: 1 };
    let c = RuntimeId { counter: 2 };
    let d = RuntimeId { counter: 3 };
    assert!(graph.can_add_edge(a, b));
    assert!(graph.add_edge(a, Some(&k(1)), b, vec![]));
    assert!(graph.add_edge(b, Some(&k(2)), c, vec![]));
    assert!(graph.add_edge(a, Some(&k(3)), c, vec![]));
    // c -> a would close a cycle, directly and through b.
    assert!(!graph.can_add_edge(c, a));
    assert!(!graph.add_edge(c, Some(&k(9)), a, vec![]));
    assert!(!graph.add_edge(c, Some(&k(9)), b, vec![]));
    assert!(!graph.add_edge(b, Some(&k(9)), a, vec![]));
    // A runtime cannot wait for itself.
    assert!(!graph.can_add_edge(d, d));
    assert!(!graph.add_edge(d, None, d, vec![]));
    // The refused edges left no trace.
    assert!(graph.can_add_edge(c, d));
    assert!(graph.add_edge(c, Some(&k(4)), d, vec![]));
    assert!(!graph.can_add_edge(d, a));
    assert!(graph.can_add_edge(a, d));
}

#[test]
fn find_edge_lists_the_route_end_first() {
    let mut graph = DependencyGraph::new();
    let a = RuntimeId { counter: 10 };
    let b = RuntimeId { counter: 11 };
    let c = RuntimeId { counter: 12 };
    assert!(graph.add_edge(a, Some(&k(1)), b, vec![]));
    assert!(graph.add_edge(b, Some(&k(2)), c, vec![]));
    let mut trail = vec![99];
    assert!(graph.find_edge(c, a, &mut trail));
    assert_eq!(trail, vec![99, 12, 11]);
    let mut trail = Vec::new();
    assert!(!graph.find_edge(a, c, &mut trail));
    assert!(trail.is_empty());
    let mut trail = Vec::new();
    assert!(graph.find_edge(a, a, &mut trail));
    assert!(trail.is_empty());
}

#[test]
fn remove_edge_unblocks_those_that_waited_for_the_query() {
    let mut graph = DependencyGraph::new();
    let a = RuntimeId { counter: 0 };
    let b = RuntimeId { counter: 1 };
    let c = RuntimeId { counter: 2 };
    assert!(graph.add_edge(a, Some(&k(7)), c, vec![k(1)]));
    assert!(graph.add_edge(b, Some(&k(7)), c, vec![k(2)]));
    assert!(graph.add_edge(b, Some(&k(8)), a, vec![k(3)]));
    assert!(!graph.can_add_edge(c, a));
    assert!(!graph.can_add_edge(c, b));
    graph.remove_edge(Some(&k(7)), c);
    assert!(graph.can_add_edge(c, a));
    assert!(graph.can_add_edge(c, b));
    // The edge registered under another query is still there.
    assert!(!graph.can_add_edge(a, b));
    // Removing once more changes nothing.
    graph.remove_edge(Some(&k(7)), c);
    assert!(!graph.can_add_edge(a, b));
    graph.remove_edge(Some(&k(8)), a);
    assert!(graph.can_add_edge(a, b));
}

#[test]
fn fork_edges_are_removed_by_the_fork() {
    let mut graph = DependencyGraph::new();
    let parent = RuntimeId { counter: 0 };
    let child = RuntimeId { counter: 1 };
    assert!(graph.add_edge(parent, None, child, vec![k(1)]));
    assert!(!graph.can_add_edge(child, parent));
    // A query of that runtime ending does not end the fork.
    graph.remove_edge(Some(&k(1)), child);
    assert!(!graph.can_add_edge(child, parent));
    graph.remove_edge(None, child);
    assert!(graph.can_add_edge(child, parent));
}

#[test]
fn cycle_path_without_a_route_is_the_key_and_the_local_tail() {
    let graph = DependencyGraph::new();
    let a = RuntimeId { counter: 0 };
    let b = RuntimeId { counter: 1 };
    assert_eq!(
        graph.get_cycle_path(&k(1), a, b, &[k(5), k(1), k(6)][..]),
        vec![k(1), k(6)]
    );
    assert_eq!(graph.get_cycle_path(&k(1), a, b, &[k(5)][..]), vec![k(1)]);
}

#[test]
fn cycle_path_takes_the_whole_record_where_the_link_is_missing() {
    let mut graph = DependencyGraph::new();
    let a = RuntimeId { counter: 0 };
    let b = RuntimeId { counter: 1 };
    assert!(graph.add_edge(a, Some(&k(4)), b, vec![k(2), k(3)]));
    assert_eq!(
        graph.get_cycle_path(&k(1), b, a, &[k(4), k(9)][..]),
        vec![k(1), k(2), k(3), k(4), k(9)]
    );
}

#[test]
fn key_codes_are_distinct() {
    let x = DatabaseKeyIndex::new(1, 2, 3);
    assert_eq!(x.code(), (1u64 << 48) + (2u64 << 32) + 3);
    assert_eq!(DatabaseKeyIndex::from_code(x.code()), x);
    assert_eq!(x.group_index(), 1);
    assert_eq!(x.query_index(), 2);
    assert_eq!(x.key_index(), 3);
    let top = DatabaseKeyIndex::new(u16::MAX, u16::MAX, u32::MAX);
    assert_eq!(top.code(), u64::MAX);
    assert_eq!(DatabaseKeyIndex::from_code(u64::MAX), top);
    assert_ne!(DatabaseKeyIndex::new(0, 1, 0).code(), DatabaseKeyIndex::new(1, 0, 0).code());
}

#[test]
fn removing_an_edge_moves_the_last_edge_into_its_place() {
    let mut graph = DependencyGraph::new();
    let a = RuntimeId { counter: 0 };
    let b = RuntimeId { counter: 1 };
    let c = RuntimeId { counter: 2 };
    assert!(graph.add_edge(a, Some(&k(11)), b, vec![k(1)]));
    assert!(graph.add_edge(a, Some(&k(12)), c, vec![k(2)]));
    assert!(graph.add_edge(a, Some(&k(13)), b, vec![k(3)]));
    // The first edge to `b` is the one that was added first.
    assert_eq!(
        graph.get_cycle_path(&k(1), b, a, &[][..]),
        vec![k(1), k(11)]
    );
    // Its removal puts the last edge, which leads to `b` as well, first.
    graph.remove_edge(Some(&k(11)), b);
    assert_eq!(
        graph.get_cycle_path(&k(3), b, a, &[][..]),
        vec![k(3), k(13)]
    );
    assert_eq!(
        graph.get_cycle_path(&k(2), c, a, &[][..]),
        vec![k(2), k(12)]
    );
    assert!(!graph.can_add_edge(b, a));
    graph.remove_edge(Some(&k(13)), b);
    assert!(graph.can_add_edge(b, a));
    assert!(!graph.can_add_edge(c, a));
}
