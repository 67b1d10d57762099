use bst::binary_search_tree::BSTree;
use bst::print_params::PrintParams;

#[test]
fn bst_new_is_empty() {
    let b: BSTree<u64> = BSTree::new();
    assert_eq!(b.nodes_count(), 0);
    assert!(b.get_node_value(0).is_none());
}

#[test]
fn bst_with_root() {
    let b = BSTree::with_root(7u64);
    assert_eq!(b.nodes_count(), 1);
    assert_eq!(b.get_node_value(0), Some(&7));
    assert_eq!(b.get_node_children(0), Some(&Vec::new()));
}

#[test]
fn bst_insert_into_empty_sets_root() {
    let mut b: BSTree<u64> = BSTree::new();
    b.insert(5);
    assert_eq!(b.nodes_count(), 1);
    assert_eq!(b.get_node_value(0), Some(&5));
}

#[test]
fn bst_set_root_replaces_value() {
    let mut b = BSTree::with_root(5u64);
    assert_eq!(b.set_root(9), Some(5));
    assert_eq!(b.get_node_value(0), Some(&9));
    assert_eq!(b.nodes_count(), 1);
}

#[test]
fn bst_insert_places_smaller_left_of_larger() {
    let mut b = BSTree::with_root(5u64);
    b.insert(3);
    b.insert(8);
    b.insert(1);
    assert_eq!(b.nodes_count(), 4);
    // 3 was appended under the root, 8 after it; 1 descended below 3.
    assert_eq!(b.get_node_children(0), Some(&vec![1, 2]));
    assert_eq!(b.get_node_value(1), Some(&3));
    assert_eq!(b.get_node_value(2), Some(&8));
    assert_eq!(b.get_node_children(1), Some(&vec![3]));
    assert_eq!(b.get_node_value(3), Some(&1));
}

#[test]
fn bst_insert_smaller_before_lone_larger_child() {
    let mut b = BSTree::with_root(5u64);
    b.insert(8);
    b.insert(3);
    // 8 sat alone under the root; 3 is smaller than 5, so its handle is
    // placed at the front of the root's children order.
    assert_eq!(b.get_node_children(0), Some(&vec![2, 1]));
    assert_eq!(b.get_node_value(2), Some(&3));
    assert_eq!(b.get_node_value(1), Some(&8));
}

#[test]
fn bst_traversals() {
    let mut b = BSTree::with_root(5u64);
    b.insert(3);
    b.insert(8);
    b.insert(1);
    assert_eq!(b.preorder(), vec![&5, &3, &1, &8]);
    assert_eq!(b.inorder(), vec![&1, &3, &5, &8]);
    assert_eq!(b.postorder(), vec![&1, &3, &8, &5]);
}

#[test]
fn bst_traversals_empty() {
    let b: BSTree<u64> = BSTree::new();
    assert_eq!(b.preorder(), Vec::<&u64>::new());
    assert_eq!(b.inorder(), Vec::<&u64>::new());
    assert_eq!(b.postorder(), Vec::<&u64>::new());
}

#[test]
fn bst_inorder_is_sorted_for_many_inserts() {
    let mut b: BSTree<u64> = BSTree::new();
    for v in [9u64, 2, 7, 4, 4, 11, 0, 6] {
        b.insert(v);
    }
    assert_eq!(b.nodes_count(), 8);
    let got: Vec<u64> = b.inorder().into_iter().copied().collect();
    let mut sorted = got.clone();
    sorted.sort();
    assert_eq!(got, sorted);
    assert_eq!(sorted, vec![0, 2, 4, 4, 6, 7, 9, 11]);
}

#[test]
fn bst_renders_like_its_arena() {
    let b = BSTree::with_root("m".to_string());
    let p = PrintParams::default();
    assert_eq!(b.horizontal_string(&p), "\n <m>");
    assert_eq!(b.vertical_string(&p), "   \n<m>\n   \n");
}
