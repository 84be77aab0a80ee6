use sara::commands::board::{feature_groups, topo_order};
use sara::commands::unionfind::{component_roots, find, union};
use sara::db::{chain_order, dependency_closure, step_at_index, would_create_cycle};
use sara::graph::{is_reachable, reachable_from};

#[test]
fn topo_order_puts_blockers_first() {
    // 0 depends on 1, 1 depends on 2: order 2, 1, 0.
    let nodes = vec![0, 1, 2];
    let edges = vec![(0, 1), (1, 2)];
    assert_eq!(topo_order(3, &nodes, &edges), vec![2, 1, 0]);
}

#[test]
fn topo_order_breaks_ties_by_position() {
    // 3 depends on 0 and 2; 0 and 2 are ready together: the lower first.
    let nodes = vec![3, 2, 0];
    let edges = vec![(3, 0), (3, 2)];
    assert_eq!(topo_order(4, &nodes, &edges), vec![0, 2, 3]);
}

#[test]
fn topo_order_appends_a_cycle_in_ascending_order() {
    // 1 and 2 block each other; 0 is free.
    let nodes = vec![2, 1, 0];
    let edges = vec![(1, 2), (2, 1)];
    assert_eq!(topo_order(3, &nodes, &edges), vec![0, 1, 2]);
}

#[test]
fn chain_order_follows_the_connected_tasks() {
    // 0 <- 1 (1 depends on 0), 2 unrelated, 3 depends on 1.
    let edges = vec![(1, 0), (3, 1)];
    assert_eq!(chain_order(4, &edges, 3), vec![0, 1, 3]);
    assert_eq!(chain_order(4, &edges, 0), vec![0, 1, 3]);
    assert!(chain_order(4, &edges, 2).is_empty());
}

#[test]
fn cycle_detection_follows_depends_on_edges() {
    // 0 depends on 1, 1 depends on 2.
    let edges = vec![(0, 1), (1, 2)];
    // 2 depending on 0 would close 0 -> 1 -> 2 -> 0.
    assert!(would_create_cycle(3, &edges, 2, 0));
    // 0 depending on 2 adds a shortcut, no cycle.
    assert!(!would_create_cycle(3, &edges, 0, 2));
    // A task depending on itself is a cycle.
    assert!(would_create_cycle(3, &edges, 1, 1));
}

#[test]
fn reachability_is_transitive_and_directed() {
    let edges = vec![(0, 1), (1, 2), (3, 0)];
    let r = reachable_from(4, &edges, 0);
    assert_eq!(r, vec![true, true, true, false]);
    assert!(is_reachable(4, &edges, 3, 2));
    assert!(!is_reachable(4, &edges, 2, 3));
}

#[test]
fn union_find_merges_sets_and_find_gives_roots() {
    let mut parent: Vec<usize> = (0..5).collect();
    union(&mut parent, 0, 1);
    union(&mut parent, 3, 4);
    assert_eq!(find(&mut parent, 0), find(&mut parent, 1));
    assert_eq!(find(&mut parent, 3), find(&mut parent, 4));
    assert_ne!(find(&mut parent, 0), find(&mut parent, 3));
    assert_eq!(find(&mut parent, 2), 2);
    union(&mut parent, 1, 4);
    let r = find(&mut parent, 0);
    for x in [1, 3, 4] {
        assert_eq!(find(&mut parent, x), r);
    }
}

#[test]
fn component_roots_match_connectivity() {
    let edges = vec![(0, 1), (2, 1), (3, 4)];
    let r = component_roots(6, &edges);
    assert_eq!(r[0], r[1]);
    assert_eq!(r[1], r[2]);
    assert_eq!(r[3], r[4]);
    assert_ne!(r[0], r[3]);
    assert_ne!(r[5], r[0]);
    assert_ne!(r[5], r[3]);
}

#[test]
fn feature_groups_split_chains_from_standalone_tasks() {
    // 1 depends on 0; 3 depends on 4 and 4 depends on 2; 5 alone.
    let edges = vec![(1, 0), (3, 4), (4, 2)];
    let (features, ungrouped) = feature_groups(6, &edges);
    assert_eq!(features, vec![vec![0, 1], vec![2, 4, 3]]);
    assert_eq!(ungrouped, vec![5]);
}

#[test]
fn feature_groups_of_no_edges_are_all_standalone() {
    let (features, ungrouped) = feature_groups(3, &vec![]);
    assert!(features.is_empty());
    assert_eq!(ungrouped, vec![0, 1, 2]);
}

#[test]
fn dependency_closure_returns_blockers_first() {
    // c depends on b, b depends on a  →  closure of c is [a, b, c].
    let (a, b, c) = (0, 1, 2);
    let edges = vec![(b, a), (c, b)];
    assert_eq!(dependency_closure(3, &edges, c), vec![a, b, c]);
}

#[test]
fn feature_chain_returns_linked_tasks_blockers_first() {
    // c → b → a, queried from the middle (b): the whole chain, blockers first.
    let (a, b, c) = (0, 1, 2);
    let edges = vec![(b, a), (c, b)];
    assert_eq!(chain_order(3, &edges, b), vec![a, b, c]);
}

#[test]
fn feature_chain_is_empty_for_standalone_task() {
    assert!(chain_order(1, &vec![], 0).is_empty());
}

#[test]
fn feature_chain_excludes_unrelated_tasks() {
    let (a, b, unrelated) = (0, 1, 2);
    let edges = vec![(b, a)];
    let chain = chain_order(3, &edges, a);
    assert_eq!(chain, vec![a, b]);
    assert!(!chain.contains(&unrelated));
}

#[test]
fn steps_get_sequential_positions_and_index_lookup_is_one_based() {
    // Steps "first", "second", "third" stored with ids 31, 32, 33.
    let ids = vec![31, 32, 33];
    assert_eq!(step_at_index(&ids, 2), Some(32));
    assert_eq!(step_at_index(&ids, 99), None);
}

#[test]
fn default_base_falls_back_gracefully() {
    // A repository without a remote HEAD and without main or master.
    let base = sara::git::default_base(None, false, false);
    assert!(!base.is_empty());
}
