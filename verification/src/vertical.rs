//! The top-down renderer: the root's label sits at the top and children
//! hang below it. Output is accumulated as independent columns of
//! characters, inserted at explicit horizontal positions while the tree is
//! walked, and interleaved row by row at the end.

use crate::print_params::{PrintParams, PrintStrategy};
use crate::render::{child_pos, ext_after, ext_before, push_ext_after, push_ext_before,
    truncate_back};
use crate::text::{chars_to_string, column_of, interleave, label_ok, lemma_deep_view_insert,
    lemma_max_len, lemma_vec_char_deep, line_widths_equal, max_len, push_all, push_repeat, rep,
    row_at, rows_upto, split_lines, split_lines_exec, str_to_chars};
use crate::tree::{NodePosition, Tree};
use vstd::prelude::*;

verus! {

/// The glyph at the top of a node's center column, chosen by the node's
/// position.
pub open spec fn v_symbol<S>(pos: NodePosition, p: PrintParams<S>) -> char {
    match pos {
        NodePosition::RightExtreme => p.left_top_corner,
        NodePosition::LeftExtreme => p.right_top_corner,
        NodePosition::Root => ' ',
        _ => p.top_junction,
    }
}

/// The connector cell at the top of column `j` of a node's label block:
/// the center column carries the node's symbol and the vertical
/// connector, the flanking columns a horizontal stub or blanks, depending
/// on the node's position.
pub open spec fn v_cell<S>(j: int, width: int, pos: NodePosition, p: PrintParams<S>) -> Seq<char> {
    let ls = width / 2;
    if j == ls {
        seq![v_symbol(pos, p)] + rep(p.vertical_line, p.size - 1)
    } else if j < ls {
        ext_after(pos, p.horizontal_line, p.size as int)
    } else {
        ext_before(pos, p.horizontal_line, p.size as int)
    }
}

/// The columns a node's own label contributes: column `j` is the running
/// prefix, a connector cell, and the label's column `j` read top to
/// bottom.
pub open spec fn v_block<S>(
    lines: Seq<Seq<char>>,
    pos: NodePosition,
    p: PrintParams<S>,
    prefix: Seq<char>,
) -> Seq<Seq<char>> {
    let width = lines[0].len() as int;
    Seq::new(width as nat, |j: int| prefix + v_cell(j, width, pos, p) + column_of(lines, j))
}

impl<T> Tree<T> {
    /// Every node's label is a non-empty rectangle of characters: what the
    /// top-down renderer requires of the strategy's output.
    pub open spec fn labels_ok<S: PrintStrategy<T>>(self, p: PrintParams<S>) -> bool {
        forall|i: int|
            0 <= i < self.nodes@.len() ==> label_ok(
                #[trigger] p.strategy.convert_spec(self.nodes@[i].value, self.child_values(i)),
            )
    }

    /// The columns after `node`'s subtree has inserted itself at `index`
    /// into `state`: first the node's own label block at `index`, then the
    /// children laid out to its left (at the column past the label), then
    /// the remaining children (at `index`).
    pub open spec fn v_node<S: PrintStrategy<T>>(
        self,
        p: PrintParams<S>,
        node: int,
        pos: NodePosition,
        index: int,
        prefix: Seq<char>,
        state: Seq<Seq<char>>,
    ) -> Seq<Seq<char>>
        decreases self.nodes@.len() - node, 1int, 0int,
    {
        if 0 <= node < self.nodes@.len() {
            let value = self.nodes@[node].value;
            let vals = self.child_values(node);
            let n = self.nodes@[node].children@.len() as int;
            let lines = split_lines(p.strategy.convert_spec(value, vals));
            let width = lines[0].len() as int;
            let left = p.strategy.split_spec(value, vals);
            let state1 = state.take(index) + v_block(lines, pos, p, prefix) + state.skip(index);
            let state2 = self.v_kids(
                p,
                node,
                0,
                left,
                left,
                n,
                index + width,
                prefix + ext_before(pos, p.horizontal_line, p.size as int),
                state1,
            );
            self.v_kids(
                p,
                node,
                left,
                n,
                left,
                n,
                index,
                prefix + ext_after(pos, p.horizontal_line, p.size as int),
                state2,
            )
        } else {
            state
        }
    }

    /// The columns after the children `lo .. upto` of `node` have inserted
    /// themselves at `index`, in order.
    pub open spec fn v_kids<S: PrintStrategy<T>>(
        self,
        p: PrintParams<S>,
        node: int,
        lo: int,
        upto: int,
        left: int,
        n: int,
        index: int,
        prefix: Seq<char>,
        state: Seq<Seq<char>>,
    ) -> Seq<Seq<char>>
        decreases self.nodes@.len() - node, 0int, upto - lo,
    {
        if lo < upto && 0 <= node < self.nodes@.len() {
            let prev = self.v_kids(p, node, lo, upto - 1, left, n, index, prefix, state);
            let ch = self.nodes@[node].children@;
            let i = upto - 1;
            if 0 <= i < ch.len() && node < ch[i] < self.nodes@.len() {
                self.v_node(p, ch[i] as int, child_pos(i, left, n), index, prefix, prev)
            } else {
                prev
            }
        } else {
            state
        }
    }

    /// The complete output of the top-down renderer: a fixed placeholder
    /// for an empty tree, and otherwise the root's columns interleaved
    /// row by row.
    pub open spec fn spec_vertical<S: PrintStrategy<T>>(self, p: PrintParams<S>) -> Seq<char> {
        if self.nodes@.len() == 0 {
            " (empty) "@
        } else {
            interleave(
                self.v_node(p, 0, NodePosition::Root, 0, Seq::empty(), Seq::empty()),
            )
        }
    }

    /// Renders the tree top to bottom. The result is exactly
    /// [`Tree::spec_vertical`] of the tree and the parameters.
    pub fn vertical_string<S: PrintStrategy<T>>(&self, params: &PrintParams<S>) -> (r: String)
        requires
            self.wf(),
            params.wf(),
            self.labels_ok(*params),
        ensures
            r@ == self.spec_vertical(*params),
    {
        if self.nodes.len() == 0 {
            " (empty) ".to_owned()
        } else {
            let mut visual: Vec<Vec<char>> = Vec::new();
            let mut prefix: Vec<char> = Vec::new();
            proof {
                assert(visual.deep_view() =~= Seq::<Seq<char>>::empty());
                assert(prefix@ =~= Seq::<char>::empty());
            }
            self.vertical_recursive(0, &mut visual, 0, NodePosition::Root, &mut prefix, params);
            interleave_exec(&visual)
        }
    }

    /// One call per node: inserts the node's label block at `index`, then
    /// recurses into the children on either side under an extended prefix,
    /// restoring the prefix exactly.
    #[verifier::loop_isolation(false)]
    #[verifier::rlimit(50)]
    fn vertical_recursive<S: PrintStrategy<T>>(
        &self,
        node: usize,
        visual: &mut Vec<Vec<char>>,
        index: usize,
        position: NodePosition,
        prefix: &mut Vec<char>,
        params: &PrintParams<S>,
    )
        requires
            self.wf(),
            node < self.nodes@.len(),
            params.wf(),
            self.labels_ok(*params),
            index <= old(visual)@.len(),
        ensures
            final(visual).deep_view() == self.v_node(
                *params,
                node as int,
                position,
                index as int,
                old(prefix)@,
                old(visual).deep_view(),
            ),
            final(prefix)@ == old(prefix)@,
            final(visual)@.len() >= old(visual)@.len() + 1,
        decreases self.nodes@.len() - node,
    {
        let ghost state0 = visual.deep_view();
        let ghost len0 = visual@.len() as int;
        let ghost prefix0 = prefix@;
        let ghost nodei = node as int;

        let kids = self.collect_child_values(node);
        let ghost vals = self.child_values(nodei);
        let ghost value = self.nodes@[nodei].value;
        let nchildren = self.nodes[node].children.len();

        let text = params.strategy.convert_to_string(&self.nodes[node].value, &kids);
        let tchars = str_to_chars(text.as_str());
        let lines = split_lines_exec(&tchars);
        let ghost lspec = split_lines(params.strategy.convert_spec(value, vals));
        proof {
            assert(lines.deep_view() == lspec);
            assert(label_ok(params.strategy.convert_spec(value, vals)));
            lemma_vec_char_deep(lines@[0]);
        }
        let width = lines[0].len();
        proof {
            assert(width as int == lspec[0].len());
            assert(width >= 1);
        }

        let cols = build_columns(&lines);
        insert_block(visual, cols, index, position, prefix, params, Ghost(lspec));
        let ghost block = v_block(lspec, position, *params, prefix0);
        let ghost state1 = state0.take(index as int) + block + state0.skip(index as int);
        proof {
            assert(visual.deep_view() == state1);
            assert(visual@.len() == len0 + width);
        }

        let left = params.strategy.split(&self.nodes[node].value, &kids);
        let ghost lefti = params.strategy.split_spec(value, vals);
        let ghost n = nchildren as int;
        proof {
            assert(left as int == lefti);
            assert(left <= nchildren);
        }

        let vl = visual.len();
        assert(index as int + width as int <= vl as int);
        let child_index = index + width;

        // children laid out to the left of the node
        push_ext_before(prefix, position, params.horizontal_line, params.size);
        let ghost pre_l = prefix0 + ext_before(position, params.horizontal_line, params.size as int);
        let mut i: usize = 0;
        while i < left
            invariant
                i <= left,
                prefix@ == pre_l,
                visual.deep_view() == self.v_kids(
                    *params,
                    nodei,
                    0,
                    i as int,
                    lefti,
                    n,
                    child_index as int,
                    pre_l,
                    state1,
                ),
                child_index <= visual@.len(),
                visual@.len() >= len0 + width,
            decreases left - i,
        {
            let c = self.nodes[node].children[i];
            assert(nodei < c < self.nodes@.len());
            self.vertical_recursive(c, visual, child_index, NodePosition::left(i == 0), prefix,
                params);
            proof {
                assert(child_pos(i as int, lefti, n) == (if i == 0 {
                    NodePosition::LeftExtreme
                } else {
                    NodePosition::Left
                }));
                assert(visual.deep_view() == self.v_kids(
                    *params,
                    nodei,
                    0,
                    i as int + 1,
                    lefti,
                    n,
                    child_index as int,
                    pre_l,
                    state1,
                ));
            }
            i += 1;
        }
        truncate_back(prefix, params.size);
        proof {
            assert(prefix@ =~= prefix0);
        }
        let ghost state2 = self.v_kids(
            *params,
            nodei,
            0,
            lefti,
            lefti,
            n,
            child_index as int,
            pre_l,
            state1,
        );

        // children laid out to the right of the node
        push_ext_after(prefix, position, params.horizontal_line, params.size);
        let ghost pre_r = prefix0 + ext_after(position, params.horizontal_line, params.size as int);
        let mut j: usize = left;
        while j < nchildren
            invariant
                left <= j <= nchildren,
                prefix@ == pre_r,
                visual.deep_view() == self.v_kids(
                    *params,
                    nodei,
                    lefti,
                    j as int,
                    lefti,
                    n,
                    index as int,
                    pre_r,
                    state2,
                ),
                visual@.len() >= len0 + width,
            decreases nchildren - j,
        {
            let c = self.nodes[node].children[j];
            assert(nodei < c < self.nodes@.len());
            self.vertical_recursive(c, visual, index, NodePosition::right(j == nchildren - 1),
                prefix, params);
            proof {
                assert(child_pos(j as int, lefti, n) == (if j == nchildren - 1 {
                    NodePosition::RightExtreme
                } else {
                    NodePosition::Right
                }));
                assert(visual.deep_view() == self.v_kids(
                    *params,
                    nodei,
                    lefti,
                    j as int + 1,
                    lefti,
                    n,
                    index as int,
                    pre_r,
                    state2,
                ));
            }
            j += 1;
        }
        truncate_back(prefix, params.size);
        proof {
            assert(prefix@ =~= prefix0);
            assert(visual.deep_view() == self.v_node(
                *params,
                nodei,
                position,
                index as int,
                prefix0,
                state0,
            ));
        }
    }
}

/// The columns of a rectangular label, left to right, each read top to
/// bottom.
#[verifier::loop_isolation(false)]
fn build_columns(lines: &Vec<Vec<char>>) -> (cols: Vec<Vec<char>>)
    requires
        lines@.len() >= 1,
        line_widths_equal(lines.deep_view()),
    ensures
        cols@.len() == lines.deep_view()[0].len(),
        forall|q: int|
            0 <= q < cols@.len() ==> (#[trigger] cols@[q])@ == column_of(lines.deep_view(), q),
{
    let ghost lspec = lines.deep_view();
    proof {
        lemma_vec_char_deep(lines@[0]);
    }
    let width = lines[0].len();
    let mut cols: Vec<Vec<char>> = Vec::new();
    let mut j: usize = 0;
    while j < width
        invariant
            j <= width,
            cols@.len() == j,
            forall|q: int| 0 <= q < j ==> (#[trigger] cols@[q])@ == column_of(lspec, q),
        decreases width - j,
    {
        let mut col: Vec<char> = Vec::new();
        let k = lines.len();
        let mut r: usize = 0;
        while r < k
            invariant
                r <= k,
                col@.len() == r,
                forall|t: int| 0 <= t < r ==> col@[t] == lspec[t][j as int],
            decreases k - r,
        {
            proof {
                lemma_vec_char_deep(lines@[r as int]);
                assert(lspec[r as int].len() == lspec[0].len());
            }
            let c = lines[r][j];
            col.push(c);
            r += 1;
        }
        proof {
            assert(col@ =~= column_of(lspec, j as int));
        }
        cols.push(col);
        j += 1;
    }
    cols
}

/// Inserts one node's label block — the columns of `cols`, each behind
/// the prefix and a connector cell — at `index`, rightmost column first,
/// so that the block ends up in left-to-right order.
#[verifier::loop_isolation(false)]
#[verifier::rlimit(50)]
fn insert_block<S>(
    visual: &mut Vec<Vec<char>>,
    cols: Vec<Vec<char>>,
    index: usize,
    position: NodePosition,
    prefix: &Vec<char>,
    params: &PrintParams<S>,
    Ghost(lspec): Ghost<Seq<Seq<char>>>,
)
    requires
        params.wf(),
        index <= old(visual)@.len(),
        lspec.len() >= 1,
        cols@.len() == lspec[0].len(),
        cols@.len() >= 1,
        forall|q: int| 0 <= q < cols@.len() ==> (#[trigger] cols@[q])@ == column_of(lspec, q),
    ensures
        final(visual).deep_view() == old(visual).deep_view().take(index as int) + v_block(
            lspec,
            position,
            *params,
            prefix@,
        ) + old(visual).deep_view().skip(index as int),
        final(visual)@.len() == old(visual)@.len() + cols@.len(),
{
    let ghost state0 = visual.deep_view();
    let ghost block = v_block(lspec, position, *params, prefix@);
    let width = cols.len();
    let ghost widthi = width as int;
    let ls = width / 2;
    let rs = width - 1 - ls;
    proof {
        assert(block.len() == widthi);
        assert(state0.take(index as int) + block.subrange(widthi, widthi) + state0.skip(
            index as int,
        ) =~= state0);
    }
    let mut cols = cols;

    // the columns right of the center, rightmost first
    let mut t: usize = 0;
    while t < rs
        invariant
            t <= rs,
            cols@.len() == width - t,
            forall|q: int| 0 <= q < cols@.len() ==> (#[trigger] cols@[q])@ == column_of(lspec, q),
            visual@.len() == state0.len() + t,
            visual.deep_view() == state0.take(index as int) + block.subrange(widthi - t, widthi)
                + state0.skip(index as int),
        decreases rs - t,
    {
        let ghost jg = widthi - 1 - t;
        let mut piece: Vec<char> = Vec::new();
        push_all(&mut piece, prefix);
        push_ext_before(&mut piece, position, params.horizontal_line, params.size);
        let col = cols.pop().unwrap();
        push_all(&mut piece, &col);
        proof {
            assert(jg > widthi / 2);
            assert(piece@ =~= block[jg]);
        }
        let ghost vpre = *visual;
        visual.insert(index, piece);
        proof {
            assert(visual@[index as int]@ == block[jg]);
            lemma_deep_view_insert(vpre, *visual, index as int, block[jg]);
            assert(visual.deep_view() =~= state0.take(index as int) + block.subrange(jg, widthi)
                + state0.skip(index as int));
        }
        t += 1;
    }

    // the center column with the node's connector glyph
    let mut piece: Vec<char> = Vec::new();
    push_all(&mut piece, prefix);
    let sym = if position == NodePosition::RightExtreme {
        params.left_top_corner
    } else if position == NodePosition::LeftExtreme {
        params.right_top_corner
    } else if position == NodePosition::Root {
        ' '
    } else {
        params.top_junction
    };
    piece.push(sym);
    push_repeat(&mut piece, params.vertical_line, params.size - 1);
    let col = cols.pop().unwrap();
    push_all(&mut piece, &col);
    proof {
        assert(piece@ =~= block[ls as int]);
    }
    let ghost vpre = *visual;
    visual.insert(index, piece);
    proof {
        assert(visual@[index as int]@ == block[ls as int]);
        lemma_deep_view_insert(vpre, *visual, index as int, block[ls as int]);
        assert(visual.deep_view() =~= state0.take(index as int) + block.subrange(
            ls as int,
            widthi,
        ) + state0.skip(index as int));
    }

    // the columns left of the center, rightmost first
    let mut t2: usize = 0;
    while t2 < ls
        invariant
            t2 <= ls,
            cols@.len() == ls - t2,
            forall|q: int| 0 <= q < cols@.len() ==> (#[trigger] cols@[q])@ == column_of(lspec, q),
            visual@.len() == state0.len() + rs + 1 + t2,
            visual.deep_view() == state0.take(index as int) + block.subrange(
                ls as int - t2,
                widthi,
            ) + state0.skip(index as int),
        decreases ls - t2,
    {
        let ghost jg = ls as int - 1 - t2;
        let mut piece: Vec<char> = Vec::new();
        push_all(&mut piece, prefix);
        push_ext_after(&mut piece, position, params.horizontal_line, params.size);
        let col = cols.pop().unwrap();
        push_all(&mut piece, &col);
        proof {
            assert(jg < widthi / 2);
            assert(piece@ =~= block[jg]);
        }
        let ghost vpre = *visual;
        visual.insert(index, piece);
        proof {
            assert(visual@[index as int]@ == block[jg]);
            lemma_deep_view_insert(vpre, *visual, index as int, block[jg]);
            assert(visual.deep_view() =~= state0.take(index as int) + block.subrange(jg, widthi)
                + state0.skip(index as int));
        }
        t2 += 1;
    }
    proof {
        assert(block.subrange(0, widthi) =~= block);
    }
}

/// Interleaves the columns character by character: row `i` takes column
/// `j`'s `i`-th character, or a space where the column is shorter, and
/// rows are emitted until one row past the longest column.
#[verifier::loop_isolation(false)]
#[verifier::rlimit(50)]
fn interleave_exec(cols: &Vec<Vec<char>>) -> (r: String)
    requires
        cols@.len() >= 1,
    ensures
        r@ == interleave(cols.deep_view()),
{
    let ghost dcols = cols.deep_view();
    proof {
        lemma_max_len(dcols);
    }
    let ghost m = max_len(dcols);
    let mut out: Vec<char> = Vec::new();
    let mut i: usize = 0;
    let mut done = false;
    while !done
        invariant
            !done ==> i as int <= m,
            !done ==> out@ == rows_upto(dcols, i as int),
            done ==> out@ == rows_upto(dcols, m + 1),
        decreases (if done {
            0int
        } else {
            m + 1 - i
        }),
    {
        let mut all_nones = true;
        let mut j: usize = 0;
        let ghost row = row_at(dcols, i as int);
        let ghost out_rows = out@;
        while j < cols.len()
            invariant
                j <= cols@.len(),
                out@ == out_rows + row.take(j as int),
                all_nones <==> (forall|q: int|
                    0 <= q < j ==> i as int >= (#[trigger] dcols[q]).len()),
            decreases cols@.len() - j,
        {
            proof {
                lemma_vec_char_deep(cols@[j as int]);
                assert(cols@[j as int]@ == dcols[j as int]);
            }
            let cj_len = cols[j].len();
            let ghost prev_all = all_nones;
            if i < cj_len {
                out.push(cols[j][i]);
                all_nones = false;
            } else {
                out.push(' ');
            }
            proof {
                assert(cj_len == dcols[j as int].len());
                assert(all_nones <==> (forall|q: int|
                    0 <= q < j + 1 ==> i as int >= (#[trigger] dcols[q]).len())) by {
                    if i < cj_len {
                        assert(0 <= j < j + 1 && !(i as int >= dcols[j as int].len()));
                    } else {
                        if prev_all {
                            assert forall|q: int| 0 <= q < j + 1 implies i as int >= (
                            #[trigger] dcols[q]).len() by {}
                        } else {
                            let q0 = choose|q: int|
                                0 <= q < j && !(i as int >= (#[trigger] dcols[q]).len());
                            assert(0 <= q0 < j + 1 && !(i as int >= dcols[q0].len()));
                        }
                    }
                }
                assert(out@ =~= out_rows + row.take(j as int + 1));
            }
            j += 1;
        }
        out.push('\n');
        proof {
            assert(row.take(cols@.len() as int) =~= row);
            assert(out@ =~= rows_upto(dcols, i as int + 1));
        }
        if all_nones {
            proof {
                let q = choose|q: int| 0 <= q < dcols.len() && (#[trigger] dcols[q]).len() == m;
                assert(i as int >= m);
                assert(i as int == m);
            }
            done = true;
        } else {
            proof {
                let q = choose|q: int|
                    0 <= q < dcols.len() && (i as int) < (#[trigger] dcols[q]).len();
                lemma_vec_char_deep(cols@[q]);
                assert(cols@[q]@.len() == dcols[q].len());
                vstd::std_specs::vec::axiom_spec_len(&cols@[q]);
                assert(i as int + 1 <= m);
            }
            i += 1;
        }
    }
    chars_to_string(&out)
}

/// The top-down renderer carries no hidden state: its output is a function
/// of the tree and the parameters alone, so rendering an unmodified tree
/// twice with the same parameters yields identical text.
pub proof fn lemma_vertical_deterministic<T, S: PrintStrategy<T>>(
    t: Tree<T>,
    p: PrintParams<S>,
    first: Seq<char>,
    second: Seq<char>,
)
    requires
        first == t.spec_vertical(p),
        second == t.spec_vertical(p),
    ensures
        first == second,
{
}

} // verus!
