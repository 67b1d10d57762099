//! Pieces shared by the two renderers: the per-child position taxonomy
//! and the connector cells appended to the running prefix around a
//! subtree.

use crate::print_params::deref_all;
use crate::text::{push_repeat, rep};
use crate::tree::{NodePosition, Tree};
use vstd::prelude::*;

verus! {

impl<T> Tree<T> {
    /// Collects borrows of the values of `node`'s children, in stored
    /// order, to hand to the strategy.
    pub(crate) fn collect_child_values(&self, node: usize) -> (r: Vec<&T>)
        requires
            self.wf(),
            node < self.nodes@.len(),
        ensures
            deref_all(r@) == self.child_values(node as int),
            r@.len() == self.nodes@[node as int].children@.len(),
    {
        let ghost nodei = node as int;
        let mut kids: Vec<&T> = Vec::new();
        let nchildren = self.nodes[node].children.len();
        let mut ci: usize = 0;
        while ci < nchildren
            invariant
                self.wf(),
                nodei == node as int,
                node < self.nodes@.len(),
                nchildren == self.nodes@[nodei].children@.len(),
                ci <= nchildren,
                kids@.len() == ci,
                forall|j: int|
                    0 <= j < ci ==> *(#[trigger] kids@[j]) == self.child_values(nodei)[j],
            decreases nchildren - ci,
        {
            let c = self.nodes[node].children[ci];
            assert(nodei < c < self.nodes@.len());
            kids.push(&self.nodes[c].value);
            ci += 1;
        }
        proof {
            assert(deref_all(kids@) =~= self.child_values(nodei));
        }
        kids
    }
}

/// The position of child `i` among `n` children of which the first
/// `before` are laid out before the parent: the first of the "before"
/// group and the last of the "after" group are the extremes.
pub open spec fn child_pos(i: int, before: int, n: int) -> NodePosition {
    if i < before {
        if i == 0 {
            NodePosition::LeftExtreme
        } else {
            NodePosition::Left
        }
    } else {
        if i == n - 1 {
            NodePosition::RightExtreme
        } else {
            NodePosition::Right
        }
    }
}

/// The connector cell a node with position `pos` appends to the running
/// prefix while its "before" children are rendered: a continuation line
/// when rendering continues above the node, blanks otherwise.
pub open spec fn ext_before(pos: NodePosition, line: char, size: int) -> Seq<char> {
    if pos != NodePosition::LeftExtreme && pos != NodePosition::Root {
        seq![line] + rep(' ', size - 1)
    } else {
        rep(' ', size)
    }
}

/// The connector cell appended while the "after" children are rendered: a
/// continuation line when rendering continues below the node, blanks
/// otherwise.
pub open spec fn ext_after(pos: NodePosition, line: char, size: int) -> Seq<char> {
    if pos != NodePosition::RightExtreme && pos != NodePosition::Root {
        seq![line] + rep(' ', size - 1)
    } else {
        rep(' ', size)
    }
}

pub(crate) fn push_ext_before(prefix: &mut Vec<char>, pos: NodePosition, line: char, size: usize)
    requires
        size >= 1,
    ensures
        final(prefix)@ == old(prefix)@ + ext_before(pos, line, size as int),
{
    if pos != NodePosition::LeftExtreme && pos != NodePosition::Root {
        prefix.push(line);
        push_repeat(prefix, ' ', size - 1);
        proof {
            assert(old(prefix)@.push(line) + rep(' ', size - 1) =~= old(prefix)@ + (seq![line]
                + rep(' ', size - 1)));
        }
    } else {
        push_repeat(prefix, ' ', size);
    }
}

pub(crate) fn push_ext_after(prefix: &mut Vec<char>, pos: NodePosition, line: char, size: usize)
    requires
        size >= 1,
    ensures
        final(prefix)@ == old(prefix)@ + ext_after(pos, line, size as int),
{
    if pos != NodePosition::RightExtreme && pos != NodePosition::Root {
        prefix.push(line);
        push_repeat(prefix, ' ', size - 1);
        proof {
            assert(old(prefix)@.push(line) + rep(' ', size - 1) =~= old(prefix)@ + (seq![line]
                + rep(' ', size - 1)));
        }
    } else {
        push_repeat(prefix, ' ', size);
    }
}

/// Takes the last `n` characters off the prefix again, undoing a
/// connector-cell extension.
pub(crate) fn truncate_back(prefix: &mut Vec<char>, n: usize)
    requires
        old(prefix)@.len() >= n,
    ensures
        final(prefix)@ == old(prefix)@.take(old(prefix)@.len() - n as int),
{
    let keep = prefix.len() - n;
    prefix.truncate(keep);
}

} // verus!
