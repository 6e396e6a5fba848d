use rebicycler::build_order_definitions::{nexus_first_two_base_charge, TreePointer};

#[test]
fn one_root() {
    let pointer = TreePointer::new();
    let _tree = pointer
        .root("first", &[], &[], false, None, true)
        .expect("Tree construction failed!");
}

#[test]
fn two_roots() {
    let pointer = TreePointer::new();

    let tree = pointer
        .root("first", &[], &[], false, None, true)
        .and_then(|t| t.root("second", &[], &[], false, None, true))
        .expect("Tree construction failed!")
        .tree;

    assert_eq!(tree.to_text(), "first➖\nsecond➖\n");
    assert_eq!(tree.len(), 2);
}

#[test]
fn one_child() {
    let pointer = TreePointer::new();
    let tree = pointer
        .root("first", &[], &[], false, None, true)
        .and_then(|t| t.child("child", &[], &[], false, None, true))
        .expect("Tree construction failed!")
        .tree;
    assert_eq!(tree.to_text(), "first➖\n-child➖\n");
    assert_eq!(tree.len(), 2);
}

#[test]
fn one_leaf_one_child_one_leaf() {
    let pointer = TreePointer::new();
    let tree = pointer
        .root("first", &[], &[], false, None, true)
        .and_then(|t| t.leaf("leaf1", &[], &[], false, None, true))
        .and_then(|t| t.child("child", &[], &[], false, None, true))
        .and_then(|t| t.leaf("leaf2", &[], &[], false, None, true))
        .expect("Tree construction failed!")
        .tree;
    assert_eq!(tree.to_text(), "first➖\n-child➖\n--leaf2➖\n-leaf1➖\n");
    assert_eq!(tree.len(), 4);
}

#[test]
fn subtree_ok() {
    let mut pointer = TreePointer::new()
        .root("first", &[], &[], false, None, true)
        .and_then(|t| t.child("child", &[], &[], false, None, true))
        .expect("Tree construction failed!");

    let subtree = TreePointer::new()
        .root("subroot", &[], &[], false, None, true)
        .and_then(|t| t.leaf("subleaf", &[], &[], false, None, true))
        .and_then(|t| t.leaf("subleaf2", &[], &[], false, None, true))
        .expect("Tree construction failed!");

    assert_eq!(subtree.tree.to_text(), "subroot➖\n-subleaf2➖\n-subleaf➖\n");

    pointer = pointer.subtree(subtree).expect("Tree construction failed!");

    assert_eq!(
        pointer.tree.to_text(),
        "first➖\n-child➖\n--subroot➖\n---subleaf2➖\n---subleaf➖\n"
    );
    assert_eq!(pointer.tree.len(), 5);

    let sub_sub_tree = TreePointer::new()
        .root("subsubroot", &[], &[], false, None, true)
        .and_then(|t| t.leaf("subsubleaf", &[], &[], false, None, true))
        .and_then(|t| t.leaf("subsubleaf2", &[], &[], false, None, true))
        .expect("Tree construction failed!");

    pointer = pointer
        .child("graft", &[], &[], false, None, true)
        .and_then(|t| t.subtree(sub_sub_tree))
        .expect("Tree construction failed!");

    assert_eq!(
        pointer.tree.to_text(),
        "first➖\n-child➖\n--graft➖\n---subsubroot➖\n----subsubleaf2➖\n----subsubleaf➖\n--subroot➖\n---subleaf2➖\n---subleaf➖\n"
    );
}

// The same inputs as the tree test of two grafts in a row. Its published
// expected text names nodes (`graft`, `subsubroot`) that these inputs never
// create, so no tree built from them can print it; the assertion below gives
// the text these inputs do make: both grafts under `child`, the later first.
#[test]
fn double_subtree() {
    let mut pointer = TreePointer::new()
        .root("first", &[], &[], false, None, true)
        .and_then(|t| t.child("child", &[], &[], false, None, true))
        .expect("Tree construction failed!");

    let subtree = TreePointer::new()
        .root("1subroot", &[], &[], false, None, true)
        .and_then(|t| t.leaf("1subleaf", &[], &[], false, None, true))
        .and_then(|t| t.leaf("1subleaf2", &[], &[], false, None, true))
        .expect("Tree construction failed!");

    let subtree2 = TreePointer::new()
        .root("2subroot", &[], &[], false, None, true)
        .and_then(|t| t.leaf("2subleaf", &[], &[], false, None, true))
        .and_then(|t| t.leaf("2subleaf2", &[], &[], false, None, true))
        .expect("Tree construction failed!");

    pointer = pointer
        .subtree(subtree)
        .expect("Tree construction failed!")
        .subtree(subtree2)
        .expect("Tree construction failed!");

    assert_eq!(
        pointer.tree.to_text(),
        "first➖\n-child➖\n--2subroot➖\n---2subleaf2➖\n---2subleaf➖\n--1subroot➖\n---1subleaf2➖\n---1subleaf➖\n"
    );
    assert_eq!(pointer.tree.len(), 8);
}

#[test]
fn full_build_order_assembles() {
    let tree = nexus_first_two_base_charge().expect("the build order should assemble");
    assert_eq!(tree.len(), 21);
    let text = tree.to_text();
    assert!(text.starts_with("probe to 14➖\n-first pylon➖\n--nexus first➖\n---two gateways➖\n---probe to 38➖\ngraft➖\n"));
}

#[test]
fn grafted_trees_keep_their_shape() {
    let tree = nexus_first_two_base_charge().expect("the build order should assemble");
    let text = tree.to_text();
    assert!(text.contains("\n-gas 1&2➖\n--cybercore➖\n---twilight➖\n---warpgate➖\n"), "{text}");
}
