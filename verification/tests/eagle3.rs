use openinfer::eagle3::tree::{Eagle3Tree, EAGLE3_DEFAULT_TREE_BRANCHING};

fn attends(mask: &[u8], n: usize, i: usize, j: usize) -> bool {
    let bit = i * n + j;
    (mask[bit / 8] >> (bit % 8)) & 1 == 1
}

#[test]
fn branching_shape_and_counts() {
    let t = Eagle3Tree::from_branching(&[2, 2, 2]);
    assert_eq!(t.num_nodes(), 15);
    assert_eq!(t.max_depth(), 3);
    assert_eq!(t.level(0), &[0]);
    assert_eq!(t.level(1).len(), 2);
    assert_eq!(t.level(2).len(), 4);
    assert_eq!(t.level(3).len(), 8);
}

#[test]
fn parent_is_topological() {
    let t = Eagle3Tree::from_branching(&[3, 2]);
    assert_eq!(t.num_nodes(), 1 + 3 + 6);
    for node in 1..t.num_nodes() {
        assert!(t.parent_of(node) < node, "parent[{node}] must precede it");
        assert_eq!(t.node_depth(node), t.node_depth(t.parent_of(node)) + 1);
    }
}

#[test]
fn ancestors_reach_root() {
    let t = Eagle3Tree::from_branching(&[2, 2, 2]);
    let leaf = *t.level(3).last().unwrap();
    let chain = t.ancestors(leaf);
    assert_eq!(chain.len(), t.node_depth(leaf) + 1);
    assert_eq!(*chain.last().unwrap(), 0);
    assert_eq!(chain[0], leaf);
}

#[test]
fn mask_encodes_ancestors_only() {
    let t = Eagle3Tree::from_branching(&[2]);
    let n = t.num_nodes();
    assert_eq!(n, 3);
    let mask = t.packed_ancestor_mask();

    assert!(attends(&mask, n, 0, 0));
    assert!(!attends(&mask, n, 0, 1));
    assert!(!attends(&mask, n, 0, 2));

    assert!(attends(&mask, n, 1, 1));
    assert!(attends(&mask, n, 1, 0));
    assert!(!attends(&mask, n, 1, 2));

    assert!(attends(&mask, n, 2, 2));
    assert!(attends(&mask, n, 2, 0));
    assert!(!attends(&mask, n, 2, 1));
}

#[test]
fn mask_row_popcount_equals_depth_plus_one() {
    let t = Eagle3Tree::from_branching(&[2, 2, 2]);
    let n = t.num_nodes();
    let mask = t.packed_ancestor_mask();
    for i in 0..n {
        let attended = (0..n).filter(|&j| attends(&mask, n, i, j)).count();
        assert_eq!(attended, t.node_depth(i) + 1, "node {i} attend count");
    }
}

#[test]
fn the_default_tree_is_well_shaped() {
    let t = Eagle3Tree::from_branching(&EAGLE3_DEFAULT_TREE_BRANCHING);
    let mut width = 1;
    let mut nodes = 1;
    for (level, branching) in EAGLE3_DEFAULT_TREE_BRANCHING.iter().enumerate() {
        width *= branching;
        nodes += width;
        assert_eq!(t.level(level + 1).len(), width);
    }
    assert_eq!(t.num_nodes(), nodes);
}

#[test]
fn every_node_has_its_depth_s_number_of_children() {
    let branching = [3, 1, 2];
    let t = Eagle3Tree::from_branching(&branching);
    assert_eq!(t.num_nodes(), 1 + 3 + 3 + 6);
    for node in 0..t.num_nodes() {
        let children = (1..t.num_nodes()).filter(|&c| t.parent_of(c) == node).count();
        let expected = branching.get(t.node_depth(node)).copied().unwrap_or(0);
        assert_eq!(children, expected, "node {node}");
    }
}
