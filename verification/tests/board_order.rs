use sara::commands::board::board_order;

#[test]
fn board_order_lists_features_then_standalone_tasks() {
    let (order, groups) = board_order(&vec![vec![2, 0], vec![3, 1]], &vec![4]);
    assert_eq!(order, vec![2, 0, 3, 1, 4]);
    assert_eq!(groups, vec![0, 0, 1, 1, 2]);
}

#[test]
fn board_order_adds_no_group_without_standalone_tasks() {
    let (order, groups) = board_order(&vec![vec![1, 0]], &vec![]);
    assert_eq!(order, vec![1, 0]);
    assert_eq!(groups, vec![0, 0]);
    let (order, groups) = board_order(&vec![], &vec![0, 5]);
    assert_eq!(order, vec![0, 5]);
    assert_eq!(groups, vec![0, 0]);
}
