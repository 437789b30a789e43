use monochange::publish_order::dependency_order;

#[test]
fn targets_come_before_their_sources() {
    // node 0 depends on 1, 1 depends on 2
    assert_eq!(dependency_order(3, &[(0, 1), (1, 2)]), vec![2, 1, 0]);
}

#[test]
fn independent_nodes_keep_increasing_order() {
    assert_eq!(dependency_order(3, &[]), vec![0, 1, 2]);
    assert_eq!(dependency_order(0, &[]), Vec::<usize>::new());
}

#[test]
fn nodes_on_or_behind_a_cycle_are_left_out() {
    // 0 and 1 depend on each other; 2 depends on 0; 3 is free
    assert_eq!(dependency_order(4, &[(0, 1), (1, 0), (2, 0)]), vec![3]);
}

#[test]
fn a_node_joins_the_queue_when_its_last_dependency_is_placed() {
    // 0 depends on 2 and 3; 1 depends on 3
    assert_eq!(dependency_order(4, &[(0, 2), (0, 3), (1, 3)]), vec![2, 3, 0, 1]);
}
