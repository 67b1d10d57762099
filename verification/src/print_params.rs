//! Rendering configuration: the glyph bundle handed to the renderers and
//! the strategy that turns node values into labels and decides how many
//! children are laid out before their parent.

use crate::text::push_char;
use vstd::prelude::*;
use vstd::string::StringExecFns;

verus! {

/// The values behind a sequence of borrowed values.
pub open spec fn deref_all<T>(s: Seq<&T>) -> Seq<T> {
    s.map_values(|x: &T| *x)
}

/// Appending a borrow appends the borrowed value.
pub proof fn lemma_deref_all_push<T>(pre: Seq<&T>, x: &T)
    ensures
        deref_all(pre.push(x)) =~= deref_all(pre).push(*x),
{
    assert forall|k: int| 0 <= k < pre.len() + 1 implies deref_all(pre.push(x))[k] == deref_all(
        pre,
    ).push(*x)[k] by {
        if k < pre.len() {
            assert(pre.push(x)[k] == pre[k]);
        } else {
            assert(pre.push(x)[k] == x);
        }
    }
}

/// How the renderers turn one node into text. `convert_to_string` renders
/// a node's label — possibly several lines, which the top-down renderer
/// requires to be equally wide — and may inspect the children's values;
/// `split` decides how many of the node's children (by position, from the
/// front of the children order) are laid out before the node. Each
/// executable method returns exactly what its spec-level counterpart
/// says, so the renderers' contracts can speak of the output precisely.
pub trait PrintStrategy<T> {
    /// The label of a node holding `v` whose children hold `children`.
    spec fn convert_spec(&self, v: T, children: Seq<T>) -> Seq<char>;

    /// How many children are laid out before the node.
    spec fn split_spec(&self, v: T, children: Seq<T>) -> int;

    fn convert_to_string(&self, v: &T, children: &Vec<&T>) -> (r: String)
        ensures
            r@ == self.convert_spec(*v, deref_all(children@)),
    ;

    fn split(&self, v: &T, children: &Vec<&T>) -> (r: usize)
        ensures
            r as int == self.split_spec(*v, deref_all(children@)),
            r <= children@.len(),
    ;
}

/// The configuration bundle for both renderers: the strategy, the number
/// of characters of branch drawn between a node and each child (`size`),
/// and the box-drawing glyphs.
pub struct PrintParams<S> {
    pub strategy: S,
    pub size: usize,
    pub vertical_line: char,
    pub horizontal_line: char,
    pub right_top_corner: char,
    pub left_top_corner: char,
    pub left_bottom_corner: char,
    pub top_junction: char,
    pub left_junction: char,
}

impl<S> PrintParams<S> {
    /// The connector width must be positive.
    pub open spec fn wf(self) -> bool {
        self.size >= 1
    }
}

/// The default strategy: a node's label is its value wrapped in angle
/// brackets, on a single line, and half of the children (rounded down)
/// are laid out before the node.
pub struct DefaultStrategy;

impl PrintStrategy<String> for DefaultStrategy {
    open spec fn convert_spec(&self, v: String, children: Seq<String>) -> Seq<char> {
        seq!['<'] + v@ + seq!['>']
    }

    open spec fn split_spec(&self, v: String, children: Seq<String>) -> int {
        children.len() as int / 2
    }

    fn convert_to_string(&self, v: &String, children: &Vec<&String>) -> (r: String) {
        let mut r = String::new();
        push_char(&mut r, '<');
        r.append(v.as_str());
        push_char(&mut r, '>');
        proof {
            assert(r@ =~= seq!['<'] + v@ + seq!['>']);
        }
        r
    }

    fn split(&self, v: &String, children: &Vec<&String>) -> usize {
        children.len() / 2
    }
}

/// Like [`DefaultStrategy`] for labels, but lays out a fixed number of
/// children before the node: the requested `count`, or all of the
/// children when there are fewer than that.
pub struct SplitAt {
    pub count: usize,
}

impl PrintStrategy<String> for SplitAt {
    open spec fn convert_spec(&self, v: String, children: Seq<String>) -> Seq<char> {
        seq!['<'] + v@ + seq!['>']
    }

    open spec fn split_spec(&self, v: String, children: Seq<String>) -> int {
        if self.count <= children.len() {
            self.count as int
        } else {
            children.len() as int
        }
    }

    fn convert_to_string(&self, v: &String, children: &Vec<&String>) -> (r: String) {
        let mut r = String::new();
        push_char(&mut r, '<');
        r.append(v.as_str());
        push_char(&mut r, '>');
        proof {
            assert(r@ =~= seq!['<'] + v@ + seq!['>']);
        }
        r
    }

    fn split(&self, v: &String, children: &Vec<&String>) -> usize {
        if self.count <= children.len() {
            self.count
        } else {
            children.len()
        }
    }
}

impl Default for PrintParams<DefaultStrategy> {
    /// The default configuration: the box-drawing table of the crate
    /// root, a connector width of one, and the default strategy.
    fn default() -> (r: Self)
        ensures
            r == (PrintParams {
                strategy: DefaultStrategy,
                size: 1usize,
                vertical_line: crate::VERTICAL_LINE,
                horizontal_line: crate::HORIZONTAL_LINE,
                right_top_corner: crate::RIGHT_TOP_CORNER,
                left_top_corner: crate::LEFT_TOP_CORNER,
                left_bottom_corner: crate::LEFT_BOTTOM_CORNER,
                top_junction: crate::TOP_JUNCTION,
                left_junction: crate::LEFT_JUNCTION,
            }),
    {
        PrintParams {
            strategy: DefaultStrategy,
            size: 1,
            vertical_line: crate::VERTICAL_LINE,
            horizontal_line: crate::HORIZONTAL_LINE,
            right_top_corner: crate::RIGHT_TOP_CORNER,
            left_top_corner: crate::LEFT_TOP_CORNER,
            left_bottom_corner: crate::LEFT_BOTTOM_CORNER,
            top_junction: crate::TOP_JUNCTION,
            left_junction: crate::LEFT_JUNCTION,
        }
    }
}

} // verus!
