use gcf::bb::{BasicBlock, ControlFlow};

#[test]
fn graph_retains_data() {
    let mut ctrl: ControlFlow<u32> = ControlFlow::new();
    let bb0 = ctrl.add_basic_block(BasicBlock::new(vec![1, 2, 3]));
    assert_eq!(ctrl.basic_block(bb0).instructions().as_slice(), [1, 2, 3]);
}

#[test]
fn graph_descendants() {
    let mut ctrl: ControlFlow<u32> = ControlFlow::new();
    let bb0 = ctrl.add_basic_block(BasicBlock::new(vec![1, 2, 3]));
    let bb1 = ctrl.add_basic_block(BasicBlock::new(vec![4, 5, 6]));
    let bb0_bb1 = ctrl.add_edge(bb0, bb1);

    assert_eq!(
        ctrl.descendants(bb0).first().copied(),
        Some(bb1),
        "BB1 is expected to come after BB0"
    );
    assert_eq!(
        ctrl.descendants(bb1).first().copied(),
        None,
        "BB1 should have no descendants"
    );

    ctrl.remove_edge(bb0_bb1);
    assert_eq!(
        ctrl.descendants(bb0).first().copied(),
        None,
        "BB0 should have no descendants after removing edge"
    );

    assert_eq!(
        ctrl.descendants(bb1).first().copied(),
        None,
        "BB1 should still not have any descendants after removing edge"
    );
}

#[test]
fn graph_predecessors() {
    let mut ctrl: ControlFlow<u32> = ControlFlow::new();
    let bb0 = ctrl.add_basic_block(BasicBlock::new(vec![1, 2, 3]));
    let bb1 = ctrl.add_basic_block(BasicBlock::new(vec![4, 5, 6]));
    let bb0_bb1 = ctrl.add_edge(bb0, bb1);

    assert_eq!(
        ctrl.predecessors(bb0).first().copied(),
        None,
        "BB0 is expected to have no predecessors",
    );

    assert_eq!(
        ctrl.predecessors(bb1).first().copied(),
        Some(bb0),
        "BB1 is expected to have BB0 as a predecessor",
    );

    ctrl.remove_edge(bb0_bb1);
    assert_eq!(
        ctrl.predecessors(bb0).first().copied(),
        None,
        "BB0 should still not have any predecessors after removing the edge",
    );

    assert_eq!(
        ctrl.predecessors(bb1).first().copied(),
        None,
        "BB1's edge to it's predecessors was removed and is not expected to exist"
    );
}

#[test]
fn graph_remove_block_drops_incident_edges() {
    let mut ctrl: ControlFlow<u32> = ControlFlow::new();
    let bb0 = ctrl.add_basic_block(BasicBlock::new(vec![1]));
    let bb1 = ctrl.add_basic_block(BasicBlock::new(vec![2]));
    let bb2 = ctrl.add_basic_block(BasicBlock::new(vec![3]));
    ctrl.add_edge(bb0, bb1);
    ctrl.add_edge(bb1, bb2);
    let removed = ctrl.remove_block(bb1);
    assert_eq!(removed.instructions().as_slice(), [2]);
    // every edge touched bb1, so none survives; the last block was swapped
    // into the freed handle
    assert_eq!(ctrl.block_count(), 2);
    assert_eq!(ctrl.basic_block(bb1).instructions().as_slice(), [3]);
    assert!(ctrl.predecessors(bb1).is_empty());
    assert!(ctrl.descendants(bb0).is_empty());
}

#[test]
fn graph_remove_block_keeps_other_handles_valid() {
    let mut ctrl: ControlFlow<u32> = ControlFlow::new();
    let bb0 = ctrl.add_basic_block(BasicBlock::new(vec![1]));
    let bb1 = ctrl.add_basic_block(BasicBlock::new(vec![2]));
    let bb2 = ctrl.add_basic_block(BasicBlock::new(vec![3]));
    ctrl.add_edge(bb1, bb2);
    let removed = ctrl.remove_block(bb0);
    assert_eq!(removed.instructions().as_slice(), [1]);
    // the last block moved into the freed handle and its edge followed it
    assert_eq!(ctrl.block_count(), 2);
    assert_eq!(ctrl.basic_block(bb0).instructions().as_slice(), [3]);
    assert_eq!(ctrl.basic_block(bb1).instructions().as_slice(), [2]);
    assert_eq!(ctrl.descendants(bb1), vec![bb0]);
    assert_eq!(ctrl.predecessors(bb0), vec![bb1]);
}

#[test]
fn graph_duplicate_edges_are_kept_apart() {
    let mut ctrl: ControlFlow<u32> = ControlFlow::new();
    let bb0 = ctrl.add_basic_block(BasicBlock::new(vec![1]));
    let bb1 = ctrl.add_basic_block(BasicBlock::new(vec![2]));
    let first = ctrl.add_edge(bb0, bb1);
    ctrl.add_edge(bb0, bb1);
    assert_eq!(ctrl.descendants(bb0).len(), 2);
    ctrl.remove_edge(first);
    // one of the two duplicate edges remains
    assert_eq!(ctrl.descendants(bb0), vec![bb1]);
    assert_eq!(ctrl.predecessors(bb1), vec![bb0]);
}

#[test]
fn postorder_lists_leaf_first() {
    let mut ctrl: ControlFlow<u32> = ControlFlow::new();
    let bb0 = ctrl.add_basic_block(BasicBlock::new(vec![1]));
    let bb1 = ctrl.add_basic_block(BasicBlock::new(vec![2]));
    ctrl.add_edge(bb0, bb1);
    let order = gcf::ga::compute_postorder(bb0, &ctrl);
    assert_eq!(order, vec![bb1, bb0]);
}
