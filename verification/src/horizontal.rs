//! The left-to-right renderer: the root's label sits at the left margin,
//! each level of depth is indented one connector cell to the right, and a
//! subtree's rows are connected by vertical-line prefixes that persist for
//! the depth of the subtree.

use crate::print_params::{PrintParams, PrintStrategy};
use crate::render::{child_pos, ext_after, ext_before, push_ext_after, push_ext_before,
    truncate_back};
use crate::text::{chars_to_string, lemma_vec_char_deep, push_all, push_repeat, rep, split_lines,
    split_lines_exec, str_to_chars};
use crate::tree::{NodePosition, Tree};
use vstd::prelude::*;

verus! {

/// The glyph column that introduces a node's first label line — a corner
/// or junction chosen by the node's position — followed by the horizontal
/// connector.
pub open spec fn h_symbol<S>(pos: NodePosition, p: PrintParams<S>) -> Seq<char> {
    seq![
        match pos {
            NodePosition::RightExtreme => p.left_bottom_corner,
            NodePosition::LeftExtreme => p.left_top_corner,
            NodePosition::Root => ' ',
            _ => p.left_junction,
        },
    ] + rep(p.horizontal_line, p.size - 1)
}

/// Label lines after the first, each on its own row behind the prefix and
/// a continuation column: the configured vertical-line glyph while
/// rendering continues below the node on the same branch, a blank
/// otherwise.
pub open spec fn h_more_lines(
    lines: Seq<Seq<char>>,
    upto: int,
    pos: NodePosition,
    line: char,
    size: int,
    prefix: Seq<char>,
) -> Seq<char>
    decreases upto,
{
    if upto <= 1 {
        Seq::empty()
    } else {
        h_more_lines(lines, upto - 1, pos, line, size, prefix) + seq!['\n'] + prefix + seq![
            if pos != NodePosition::RightExtreme && pos != NodePosition::Root {
                line
            } else {
                ' '
            },
        ] + rep(' ', size - 1) + lines[upto - 1]
    }
}

/// One node's own label block: every label line on a row of its own, the
/// first behind the node's corner or junction glyph.
pub open spec fn h_label<S>(
    lines: Seq<Seq<char>>,
    pos: NodePosition,
    p: PrintParams<S>,
    prefix: Seq<char>,
) -> Seq<char> {
    seq!['\n'] + prefix + h_symbol(pos, p) + lines[0] + h_more_lines(
        lines,
        lines.len() as int,
        pos,
        p.vertical_line,
        p.size as int,
        prefix,
    )
}

impl<T> Tree<T> {
    /// The text that `node` and its subtree append to the output of the
    /// left-to-right renderer: first the children laid out before the
    /// node, then the node's own label block, then the remaining
    /// children.
    pub open spec fn h_node<S: PrintStrategy<T>>(
        self,
        p: PrintParams<S>,
        node: int,
        pos: NodePosition,
        prefix: Seq<char>,
    ) -> Seq<char>
        decreases self.nodes@.len() - node, 1int, 0int,
    {
        if 0 <= node < self.nodes@.len() {
            let value = self.nodes@[node].value;
            let vals = self.child_values(node);
            let n = self.nodes@[node].children@.len() as int;
            let before = p.strategy.split_spec(value, vals);
            let lines = split_lines(p.strategy.convert_spec(value, vals));
            self.h_kids(
                p,
                node,
                0,
                before,
                before,
                n,
                prefix + ext_before(pos, p.vertical_line, p.size as int),
            ) + h_label(lines, pos, p, prefix) + self.h_kids(
                p,
                node,
                before,
                n,
                before,
                n,
                prefix + ext_after(pos, p.vertical_line, p.size as int),
            )
        } else {
            Seq::empty()
        }
    }

    /// The text that the children `lo .. upto` of `node` append, in
    /// order.
    pub open spec fn h_kids<S: PrintStrategy<T>>(
        self,
        p: PrintParams<S>,
        node: int,
        lo: int,
        upto: int,
        before: int,
        n: int,
        prefix: Seq<char>,
    ) -> Seq<char>
        decreases self.nodes@.len() - node, 0int, upto - lo,
    {
        if lo < upto && 0 <= node < self.nodes@.len() {
            let rest = self.h_kids(p, node, lo, upto - 1, before, n, prefix);
            let ch = self.nodes@[node].children@;
            let i = upto - 1;
            if 0 <= i < ch.len() && node < ch[i] < self.nodes@.len() {
                rest + self.h_node(p, ch[i] as int, child_pos(i, before, n), prefix)
            } else {
                rest
            }
        } else {
            Seq::empty()
        }
    }

    /// The complete output of the left-to-right renderer: a fixed
    /// placeholder for an empty tree, and otherwise the root's subtree
    /// rendered from the `Root` position with an empty prefix.
    pub open spec fn spec_horizontal<S: PrintStrategy<T>>(self, p: PrintParams<S>) -> Seq<char> {
        if self.nodes@.len() == 0 {
            "(empty)"@
        } else {
            self.h_node(p, 0, NodePosition::Root, Seq::empty())
        }
    }

    /// Renders the tree left to right. The result is exactly
    /// [`Tree::spec_horizontal`] of the tree and the parameters.
    pub fn horizontal_string<S: PrintStrategy<T>>(&self, params: &PrintParams<S>) -> (r: String)
        requires
            self.wf(),
            params.wf(),
        ensures
            r@ == self.spec_horizontal(*params),
    {
        if self.nodes.len() == 0 {
            "(empty)".to_owned()
        } else {
            let mut out: Vec<char> = Vec::new();
            let mut prefix: Vec<char> = Vec::new();
            self.horizontal_recursive(0, &mut out, NodePosition::Root, &mut prefix, params);
            proof {
                assert(out@ =~= self.h_node(*params, 0, NodePosition::Root, Seq::empty()));
            }
            chars_to_string(&out)
        }
    }

    /// One call per node: renders the "before" children under an extended
    /// prefix, then the node's own label block, then the "after"
    /// children, restoring the prefix exactly.
    #[verifier::loop_isolation(false)]
    #[verifier::rlimit(50)]
    fn horizontal_recursive<S: PrintStrategy<T>>(
        &self,
        node: usize,
        out: &mut Vec<char>,
        position: NodePosition,
        prefix: &mut Vec<char>,
        params: &PrintParams<S>,
    )
        requires
            self.wf(),
            node < self.nodes@.len(),
            params.wf(),
        ensures
            final(out)@ == old(out)@ + self.h_node(*params, node as int, position, old(prefix)@),
            final(prefix)@ == old(prefix)@,
        decreases self.nodes@.len() - node,
    {
        let ghost out0 = out@;
        let ghost prefix0 = prefix@;
        let ghost nodei = node as int;

        let kids = self.collect_child_values(node);
        let ghost vals = self.child_values(nodei);
        let ghost value = self.nodes@[nodei].value;
        let nchildren = self.nodes[node].children.len();

        let before = params.strategy.split(&self.nodes[node].value, &kids);
        let ghost beforei = params.strategy.split_spec(value, vals);
        let ghost n = nchildren as int;
        proof {
            assert(before as int == beforei);
        }

        // children laid out before the node
        push_ext_before(prefix, position, params.vertical_line, params.size);
        let ghost pre_b = prefix0 + ext_before(position, params.vertical_line, params.size as int);
        let mut i: usize = 0;
        while i < before
            invariant
                i <= before,
                prefix@ == pre_b,
                out@ == out0 + self.h_kids(*params, nodei, 0, i as int, beforei, n, pre_b),
            decreases before - i,
        {
            let c = self.nodes[node].children[i];
            assert(nodei < c < self.nodes@.len());
            self.horizontal_recursive(c, out, NodePosition::left(i == 0), prefix, params);
            proof {
                assert(child_pos(i as int, beforei, n) == (if i == 0 {
                    NodePosition::LeftExtreme
                } else {
                    NodePosition::Left
                }));
                assert(out@ =~= out0 + self.h_kids(
                    *params,
                    nodei,
                    0,
                    i as int + 1,
                    beforei,
                    n,
                    pre_b,
                ));
            }
            i += 1;
        }
        truncate_back(prefix, params.size);
        proof {
            assert(prefix@ =~= prefix0);
        }
        let ghost kids_before = self.h_kids(*params, nodei, 0, beforei, beforei, n, pre_b);

        // the node's own label block
        let text = params.strategy.convert_to_string(&self.nodes[node].value, &kids);
        let tchars = str_to_chars(text.as_str());
        let lines = split_lines_exec(&tchars);
        let ghost lspec = split_lines(params.strategy.convert_spec(value, vals));
        proof {
            assert(lines.deep_view() == lspec);
        }
        emit_label(out, &lines, position, prefix, params);
        let ghost label = h_label(lspec, position, *params, prefix0);
        let ghost out2 = out@;
        proof {
            assert(out2 == out0 + kids_before + label);
        }

        // children laid out after the node
        push_ext_after(prefix, position, params.vertical_line, params.size);
        let ghost pre_a = prefix0 + ext_after(position, params.vertical_line, params.size as int);
        let mut j: usize = before;
        while j < nchildren
            invariant
                before <= j <= nchildren,
                prefix@ == pre_a,
                out@ == out2 + self.h_kids(*params, nodei, beforei, j as int, beforei, n, pre_a),
            decreases nchildren - j,
        {
            let c = self.nodes[node].children[j];
            assert(nodei < c < self.nodes@.len());
            self.horizontal_recursive(c, out, NodePosition::right(j == nchildren - 1), prefix,
                params);
            proof {
                assert(child_pos(j as int, beforei, n) == (if j == nchildren - 1 {
                    NodePosition::RightExtreme
                } else {
                    NodePosition::Right
                }));
                assert(out@ =~= out2 + self.h_kids(
                    *params,
                    nodei,
                    beforei,
                    j as int + 1,
                    beforei,
                    n,
                    pre_a,
                ));
            }
            j += 1;
        }
        truncate_back(prefix, params.size);
        proof {
            assert(prefix@ =~= prefix0);
            assert(out@ =~= out0 + self.h_node(*params, nodei, position, prefix0));
        }
    }
}

/// Appends one node's label block to the output: every line of `lines` on
/// a row of its own behind the prefix, the first behind the node's glyph
/// column.
#[verifier::loop_isolation(false)]
#[verifier::rlimit(50)]
fn emit_label<S>(
    out: &mut Vec<char>,
    lines: &Vec<Vec<char>>,
    position: NodePosition,
    prefix: &Vec<char>,
    params: &PrintParams<S>,
)
    requires
        params.wf(),
        lines@.len() >= 1,
    ensures
        final(out)@ == old(out)@ + h_label(lines.deep_view(), position, *params, prefix@),
{
    let ghost out0 = out@;
    let ghost lspec = lines.deep_view();
    let ghost prefix0 = prefix@;

    out.push('\n');
    push_all(out, prefix);
    let sym = if position == NodePosition::RightExtreme {
        params.left_bottom_corner
    } else if position == NodePosition::LeftExtreme {
        params.left_top_corner
    } else if position == NodePosition::Root {
        ' '
    } else {
        params.left_junction
    };
    out.push(sym);
    push_repeat(out, params.horizontal_line, params.size - 1);
    push_all(out, &lines[0]);
    let ghost out1 = out@;
    proof {
        lemma_vec_char_deep(lines@[0]);
        assert(lines@[0]@ == lspec[0]);
        assert(out1 =~= out0 + (seq!['\n'] + prefix0 + h_symbol(position, *params) + lspec[0]));
    }

    let cont = if position != NodePosition::RightExtreme && position != NodePosition::Root {
        params.vertical_line
    } else {
        ' '
    };
    let mut k: usize = 1;
    while k < lines.len()
        invariant
            1 <= k <= lines@.len(),
            out@ == out1 + h_more_lines(
                lspec,
                k as int,
                position,
                params.vertical_line,
                params.size as int,
                prefix0,
            ),
        decreases lines@.len() - k,
    {
        out.push('\n');
        push_all(out, prefix);
        out.push(cont);
        push_repeat(out, ' ', params.size - 1);
        push_all(out, &lines[k]);
        proof {
            lemma_vec_char_deep(lines@[k as int]);
            assert(lines@[k as int]@ == lspec[k as int]);
            assert(out@ =~= out1 + h_more_lines(
                lspec,
                k as int + 1,
                position,
                params.vertical_line,
                params.size as int,
                prefix0,
            ));
        }
        k += 1;
    }
    proof {
        assert(out@ =~= out0 + h_label(lspec, position, *params, prefix0));
    }
}

/// The left-to-right renderer carries no hidden state: its output is a function
/// of the tree and the parameters alone, so rendering an unmodified tree
/// twice with the same parameters yields identical text.
pub proof fn lemma_horizontal_deterministic<T, S: PrintStrategy<T>>(
    t: Tree<T>,
    p: PrintParams<S>,
    first: Seq<char>,
    second: Seq<char>,
)
    requires
        first == t.spec_horizontal(p),
        second == t.spec_horizontal(p),
    ensures
        first == second,
{
}

} // verus!
