use tasktimer::dependencies::{check_new_dependency, creates_cycle};
use tasktimer::graph::reach;

#[test]
fn direct_edge_does_not_falsely_flag_unrelated_pair_as_cyclic() {
    // Task 2 depends on task 1.
    let edges = vec![(2, 1)];
    assert!(!creates_cycle(&edges, 3, 2));
}

#[test]
fn detects_transitive_cycle() {
    // 1 depends on 2 depends on 3; making 3 depend on 1 would cycle.
    let edges = vec![(1, 2), (2, 3)];
    assert!(creates_cycle(&edges, 3, 1));
}

#[test]
fn new_dependencies_are_checked_in_order() {
    let edges = vec![(1, 2), (2, 3)];
    assert_eq!(check_new_dependency(&edges, 4, 4, true).unwrap_err(), "A task can't depend on itself.");
    assert_eq!(check_new_dependency(&edges, 4, 1, false).unwrap_err(), "Choose two existing tasks.");
    assert_eq!(check_new_dependency(&edges, 3, 1, true).unwrap_err(), "That would create a dependency cycle.");
    assert!(check_new_dependency(&edges, 1, 3, true).is_ok());
    assert!(check_new_dependency(&edges, 4, 1, true).is_ok());
}

#[test]
fn cycles_through_loops_in_the_stored_graph_terminate() {
    let edges = vec![(1, 2), (2, 1), (2, 5)];
    assert!(creates_cycle(&edges, 5, 1));
    assert!(!creates_cycle(&edges, 6, 1));
}

#[test]
fn reach_collects_everything_reachable_from_the_starts() {
    let r = reach(vec![(1, 2), (2, 3), (4, 5)], vec![1]);
    assert!(r.contains(1));
    assert!(r.contains(2));
    assert!(r.contains(3));
    assert!(!r.contains(4));
    assert!(!r.contains(5));
}
