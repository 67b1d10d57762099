use bst::print_params::{DefaultStrategy, PrintParams, SplitAt};
use bst::tree::Tree;
use bst::{
    HORIZONTAL_LINE, LEFT_BOTTOM_CORNER, LEFT_JUNCTION, LEFT_TOP_CORNER, RIGHT_TOP_CORNER,
    TOP_JUNCTION, VERTICAL_LINE,
};

fn params_split(count: usize, size: usize) -> PrintParams<SplitAt> {
    PrintParams {
        strategy: SplitAt { count },
        size,
        vertical_line: VERTICAL_LINE,
        horizontal_line: HORIZONTAL_LINE,
        right_top_corner: RIGHT_TOP_CORNER,
        left_top_corner: LEFT_TOP_CORNER,
        left_bottom_corner: LEFT_BOTTOM_CORNER,
        top_junction: TOP_JUNCTION,
        left_junction: LEFT_JUNCTION,
    }
}

fn params_default_with_size(size: usize) -> PrintParams<DefaultStrategy> {
    PrintParams { size, ..PrintParams::default() }
}

fn two_children_tree() -> Tree<String> {
    let mut t = Tree::with_root("A".to_string());
    t.add_child(0, "B".to_string()).unwrap();
    t.add_child(0, "C".to_string()).unwrap();
    t
}

#[test]
fn empty_tree_placeholders() {
    let t: Tree<String> = Tree::new();
    let p = PrintParams::default();
    assert_eq!(t.horizontal_string(&p), "(empty)");
    assert_eq!(t.vertical_string(&p), " (empty) ");
}

#[test]
fn single_node_default_horizontal() {
    let t = Tree::with_root("x".to_string());
    let p = PrintParams::default();
    let s = t.horizontal_string(&p);
    assert_eq!(s, "\n <x>");
    let with_label: Vec<&str> = s.lines().filter(|l| l.contains("<x>")).collect();
    assert_eq!(with_label, vec![" <x>"]);
}

#[test]
fn single_node_default_vertical() {
    let t = Tree::with_root("x".to_string());
    let p = PrintParams::default();
    let s = t.vertical_string(&p);
    assert_eq!(s, "   \n<x>\n   \n");
    let with_label: Vec<&str> = s.lines().filter(|l| l.contains("<x>")).collect();
    assert_eq!(with_label, vec!["<x>"]);
}

#[test]
fn horizontal_children_after_parent() {
    let t = two_children_tree();
    let s = t.horizontal_string(&params_split(0, 1));
    assert_eq!(s, "\n <A>\n \u{2523}<B>\n \u{2517}<C>");
    let a = s.find("<A>").unwrap();
    let b = s.find("<B>").unwrap();
    let c = s.find("<C>").unwrap();
    assert!(a < b && b < c);
}

#[test]
fn horizontal_children_before_parent() {
    let t = two_children_tree();
    let s = t.horizontal_string(&params_split(2, 1));
    assert_eq!(s, "\n \u{250F}<B>\n \u{2523}<C>\n <A>");
    let a = s.find("<A>").unwrap();
    let b = s.find("<B>").unwrap();
    let c = s.find("<C>").unwrap();
    assert!(b < c && c < a);
}

#[test]
fn horizontal_split_count_is_clamped() {
    let t = two_children_tree();
    let all_before = t.horizontal_string(&params_split(2, 1));
    let clamped = t.horizontal_string(&params_split(9, 1));
    assert_eq!(all_before, clamped);
}

#[test]
fn vertical_children_after_parent() {
    let t = two_children_tree();
    let s = t.vertical_string(&params_split(0, 1));
    assert_eq!(
        s,
        "         \n \u{250F}\u{2501}\u{2501}\u{2533}\u{2501}<A>\n<C><B>   \n         \n"
    );
}

#[test]
fn horizontal_default_split_puts_half_before() {
    let t = two_children_tree();
    let s = t.horizontal_string(&params_default_with_size(2));
    assert_eq!(
        s,
        "\n  \u{250F}\u{2501}<B>\n \u{2501}<A>\n  \u{2517}\u{2501}<C>"
    );
}

#[test]
fn horizontal_prefix_continues_through_depth() {
    let mut t = two_children_tree();
    t.add_child(1, "D".to_string()).unwrap();
    let s = t.horizontal_string(&params_split(0, 1));
    assert_eq!(
        s,
        "\n <A>\n \u{2523}<B>\n \u{2503}\u{2517}<D>\n \u{2517}<C>"
    );
}

#[test]
fn horizontal_multiline_label() {
    let t = Tree::with_root("a\nb".to_string());
    let s = t.horizontal_string(&params_default_with_size(2));
    assert_eq!(s, "\n \u{2501}<a\n  b>");
}

#[test]
fn vertical_multiline_label() {
    let t = Tree::with_root("a\nb".to_string());
    let s = t.vertical_string(&params_default_with_size(2));
    assert_eq!(s, "  \n \u{2503}\n<a\nb>\n  \n");
}

#[test]
fn horizontal_continuation_rows_use_configured_vertical_line() {
    // A multi-line label on a node with rendering continuing below it:
    // the rows after the first carry the vertical-line glyph, and an
    // override of that glyph must show up there.
    let mut t = Tree::with_root("A".to_string());
    t.add_child(0, "b\nc".to_string()).unwrap();
    t.add_child(0, "D".to_string()).unwrap();
    let plain = t.horizontal_string(&params_split(0, 1));
    assert_eq!(
        plain,
        "\n <A>\n \u{2523}<b\n \u{2503}c>\n \u{2517}<D>"
    );
    let mut overridden = params_split(0, 1);
    overridden.vertical_line = '|';
    let s = t.horizontal_string(&overridden);
    assert_eq!(s, "\n <A>\n \u{2523}<b\n |c>\n \u{2517}<D>");
}

#[test]
fn renderers_are_idempotent() {
    let t = two_children_tree();
    let p = params_split(0, 2);
    assert_eq!(t.horizontal_string(&p), t.horizontal_string(&p));
    assert_eq!(t.vertical_string(&p), t.vertical_string(&p));
    let d = PrintParams::default();
    assert_eq!(t.horizontal_string(&d), t.horizontal_string(&d));
    assert_eq!(t.vertical_string(&d), t.vertical_string(&d));
}
