use bst::tree::{ErrorObject, NodeIndexError, NodePosition, Tree};

#[test]
fn new_tree_is_empty() {
    let t: Tree<String> = Tree::new();
    assert_eq!(t.nodes_count(), 0);
    assert!(t.get_node_value(0).is_none());
    assert!(t.get_node_children(0).is_none());
}

#[test]
fn with_root_holds_one_node() {
    let t = Tree::with_root("r".to_string());
    assert_eq!(t.nodes_count(), 1);
    assert_eq!(t.get_node_value(0), Some(&"r".to_string()));
    assert_eq!(t.get_node_children(0), Some(&Vec::new()));
}

#[test]
fn set_root_installs_then_replaces() {
    let mut t: Tree<String> = Tree::new();
    assert_eq!(t.set_root("first".to_string()), None);
    assert_eq!(t.nodes_count(), 1);
    assert_eq!(t.set_root("second".to_string()), Some("first".to_string()));
    assert_eq!(t.nodes_count(), 1);
    assert_eq!(t.get_node_value(0), Some(&"second".to_string()));
}

#[test]
fn set_root_keeps_children() {
    let mut t = Tree::with_root("r".to_string());
    let c = t.add_child(0, "kid".to_string()).unwrap();
    assert_eq!(t.set_root("r2".to_string()), Some("r".to_string()));
    assert_eq!(t.get_node_children(0), Some(&vec![c]));
    assert_eq!(t.get_node_value(c), Some(&"kid".to_string()));
}

#[test]
fn add_child_handles_count_and_increase() {
    let mut t = Tree::with_root("a".to_string());
    let h1 = t.add_child(0, "b".to_string()).unwrap();
    let h2 = t.add_child(0, "c".to_string()).unwrap();
    let h3 = t.add_child(h1, "d".to_string()).unwrap();
    assert_eq!((h1, h2, h3), (1, 2, 3));
    assert_eq!(t.nodes_count(), 4);
    assert_eq!(t.get_node_children(0), Some(&vec![1, 2]));
    assert_eq!(t.get_node_children(1), Some(&vec![3]));
}

#[test]
fn add_child_out_of_range_leaves_arena_unchanged() {
    let mut t = Tree::with_root("a".to_string());
    let e = t.add_child(5, "b".to_string()).unwrap_err();
    assert_eq!(
        e,
        NodeIndexError { object: ErrorObject::Node, given: 5, allowed: 1 }
    );
    assert_eq!(t.nodes_count(), 1);
    assert_eq!(t.get_node_children(0), Some(&Vec::new()));
}

#[test]
fn add_child_position_orders_children() {
    let mut t = Tree::with_root("a".to_string());
    let h1 = t.add_child(0, "b".to_string()).unwrap();
    let h2 = t.add_child_position(0, "c".to_string(), 0).unwrap();
    let h3 = t.add_child_position(0, "d".to_string(), 1).unwrap();
    assert_eq!(t.get_node_children(0), Some(&vec![h2, h3, h1]));
    assert_eq!(t.nodes_count(), 4);
}

#[test]
fn add_child_position_append_at_end() {
    let mut t = Tree::with_root("a".to_string());
    let h1 = t.add_child_position(0, "b".to_string(), 0).unwrap();
    let h2 = t.add_child_position(0, "c".to_string(), 1).unwrap();
    assert_eq!(t.get_node_children(0), Some(&vec![h1, h2]));
}

#[test]
fn add_child_position_bad_position_leaves_arena_unchanged() {
    let mut t = Tree::with_root("a".to_string());
    t.add_child(0, "b".to_string()).unwrap();
    let e = t.add_child_position(0, "c".to_string(), 2).unwrap_err();
    assert_eq!(
        e,
        NodeIndexError { object: ErrorObject::Child, given: 2, allowed: 1 }
    );
    assert_eq!(t.nodes_count(), 2);
    assert_eq!(t.get_node_children(0), Some(&vec![1]));
}

#[test]
fn add_child_position_bad_node_reported_first() {
    let mut t = Tree::with_root("a".to_string());
    let e = t.add_child_position(9, "b".to_string(), 7).unwrap_err();
    assert_eq!(
        e,
        NodeIndexError { object: ErrorObject::Node, given: 9, allowed: 1 }
    );
    assert_eq!(t.nodes_count(), 1);
}

#[test]
fn lookups_out_of_range_return_none() {
    let t = Tree::with_root(7u64);
    assert!(t.get_node_value(1).is_none());
    assert!(t.get_node_children(1).is_none());
    assert_eq!(t.get_node_value(0), Some(&7));
}

#[test]
fn error_message_node() {
    let e = NodeIndexError::new(ErrorObject::Node, 5, 3);
    assert_eq!(e.message(), "Node index 5 outside bounds [0-3)");
}

#[test]
fn error_message_child() {
    let e = NodeIndexError::new(ErrorObject::Child, 12, 10);
    assert_eq!(e.message(), "Child index 12 outside bounds [0-10)");
}

#[test]
fn error_message_zero() {
    let e = NodeIndexError::new(ErrorObject::Node, 0, 0);
    assert_eq!(e.message(), "Node index 0 outside bounds [0-0)");
}

#[test]
fn node_position_constructors() {
    assert_eq!(NodePosition::left(true), NodePosition::LeftExtreme);
    assert_eq!(NodePosition::left(false), NodePosition::Left);
    assert_eq!(NodePosition::right(true), NodePosition::RightExtreme);
    assert_eq!(NodePosition::right(false), NodePosition::Right);
}
