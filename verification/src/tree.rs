//! The arena: a growable container that owns every node of a tree and
//! addresses nodes by integer handles.

use crate::text::{chars_to_string, push_all, str_to_chars};
use vstd::prelude::*;

verus! {

/// The character of one decimal digit.
pub open spec fn digit_char(d: int) -> char {
    if d == 0 {
        '0'
    } else if d == 1 {
        '1'
    } else if d == 2 {
        '2'
    } else if d == 3 {
        '3'
    } else if d == 4 {
        '4'
    } else if d == 5 {
        '5'
    } else if d == 6 {
        '6'
    } else if d == 7 {
        '7'
    } else if d == 8 {
        '8'
    } else {
        '9'
    }
}

/// The decimal digits of `n`, most significant first.
pub open spec fn dec_digits(n: int) -> Seq<char>
    decreases n,
{
    if n < 10 {
        seq![digit_char(n)]
    } else {
        dec_digits(n / 10) + seq![digit_char(n % 10)]
    }
}

/// Appends the decimal digits of `n`, most significant first.
fn push_dec(out: &mut Vec<char>, n: usize)
    ensures
        final(out)@ == old(out)@ + dec_digits(n as int),
    decreases n,
{
    if n >= 10 {
        push_dec(out, n / 10);
    }
    let d = n % 10;
    let c: char = if d == 0 {
        '0'
    } else if d == 1 {
        '1'
    } else if d == 2 {
        '2'
    } else if d == 3 {
        '3'
    } else if d == 4 {
        '4'
    } else if d == 5 {
        '5'
    } else if d == 6 {
        '6'
    } else if d == 7 {
        '7'
    } else if d == 8 {
        '8'
    } else {
        '9'
    };
    out.push(c);
    proof {
        assert(c == digit_char(n as int % 10));
        if n < 10 {
            assert(old(out)@.push(c) =~= old(out)@ + dec_digits(n as int));
        } else {
            assert((old(out)@ + dec_digits(n as int / 10)).push(c) =~= old(out)@ + dec_digits(
                n as int,
            ));
        }
    }
}

/// Which kind of index a [`NodeIndexError`] complains about: a node handle
/// into the arena, or an insertion position within a node's children list.
#[derive(Clone, Copy, Debug, PartialEq, Eq, Structural)]
pub enum ErrorObject {
    Node,
    Child,
}

/// An out-of-range index, reported by the mutating arena operations.
/// `given` is the offending value; `allowed` is the exclusive upper bound
/// that was valid at the time of the call.
#[derive(Clone, Copy, Debug, PartialEq, Eq, Structural)]
pub struct NodeIndexError {
    pub object: ErrorObject,
    pub given: usize,
    pub allowed: usize,
}

impl NodeIndexError {
    pub fn new(thing: ErrorObject, given: usize, allowed: usize) -> (r: Self)
        ensures
            r == (NodeIndexError { object: thing, given, allowed }),
    {
        Self { object: thing, given, allowed }
    }

    /// The text of the message: which object was out of range, the
    /// offending index, and the valid half-open range.
    pub open spec fn spec_message(self) -> Seq<char> {
        (match self.object {
            ErrorObject::Node => "Node"@,
            ErrorObject::Child => "Child"@,
        }) + " index "@ + dec_digits(self.given as int) + " outside bounds [0-"@ + dec_digits(
            self.allowed as int,
        ) + ")"@
    }

    /// A human-readable description of the error.
    pub fn message(&self) -> (r: String)
        ensures
            r@ == self.spec_message(),
    {
        let mut out: Vec<char> = Vec::new();
        match self.object {
            ErrorObject::Node => push_all(&mut out, &str_to_chars("Node")),
            ErrorObject::Child => push_all(&mut out, &str_to_chars("Child")),
        }
        push_all(&mut out, &str_to_chars(" index "));
        push_dec(&mut out, self.given);
        push_all(&mut out, &str_to_chars(" outside bounds [0-"));
        push_dec(&mut out, self.allowed);
        push_all(&mut out, &str_to_chars(")"));
        proof {
            assert(out@ =~= self.spec_message());
        }
        chars_to_string(&out)
    }
}

/// Where a node stands relative to its siblings during rendering; this
/// drives the choice of corner and junction glyphs.
#[derive(Clone, Copy, Debug, PartialEq, Eq, Structural)]
pub enum NodePosition {
    LeftExtreme,
    Left,
    Right,
    RightExtreme,
    Root,
}

impl NodePosition {
    /// The position of a child laid out before its parent; `extreme` marks
    /// the first such child.
    pub fn left(extreme: bool) -> (r: Self)
        ensures
            r == (if extreme {
                NodePosition::LeftExtreme
            } else {
                NodePosition::Left
            }),
    {
        match extreme {
            true => Self::LeftExtreme,
            false => Self::Left,
        }
    }

    /// The position of a child laid out after its parent; `extreme` marks
    /// the last such child.
    pub fn right(extreme: bool) -> (r: Self)
        ensures
            r == (if extreme {
                NodePosition::RightExtreme
            } else {
                NodePosition::Right
            }),
    {
        match extreme {
            true => Self::RightExtreme,
            false => Self::Right,
        }
    }
}

/// One node of the arena: a value and the handles of its children, in
/// insertion order (which is also rendering order).
pub struct Node<T> {
    pub children: Vec<usize>,
    pub value: T,
}

impl<T> Node<T> {
    pub fn new(v: T) -> (r: Self)
        ensures
            r.children@ == Seq::<usize>::empty(),
            r.value == v,
    {
        Self { children: Vec::new(), value: v }
    }
}

/// The arena tree. Handle `0`, if the arena is non-empty, is the root.
/// Handles are never reused and a node's children always carry handles
/// strictly greater than the node's own, so the children relation is
/// acyclic.
pub struct Tree<T> {
    pub nodes: Vec<Node<T>>,
}

impl<T> Tree<T> {
    /// Structural integrity of the arena: every stored child handle points
    /// into the arena and is strictly greater than its parent's handle; a
    /// handle appears at most once among all children lists (a handle is
    /// assigned at append time and never reused); and every node but the
    /// root is registered in some children list — with the previous
    /// clause, in exactly one. Every operation of the arena preserves
    /// this.
    pub open spec fn wf(self) -> bool {
        &&& forall|i: int, j: int|
            0 <= i < self.nodes@.len() && 0 <= j < self.nodes@[i].children@.len()
                ==> i < #[trigger] self.nodes@[i].children@[j] < self.nodes@.len()
        &&& forall|i1: int, j1: int, i2: int, j2: int|
            #![trigger self.nodes@[i1].children@[j1], self.nodes@[i2].children@[j2]]
            0 <= i1 < self.nodes@.len() && 0 <= j1 < self.nodes@[i1].children@.len() && 0 <= i2
                < self.nodes@.len() && 0 <= j2 < self.nodes@[i2].children@.len() && self.nodes@[
                i1
            ].children@[j1] == self.nodes@[i2].children@[j2] ==> i1 == i2 && j1 == j2
        &&& forall|h: int| 1 <= h < self.nodes@.len() ==> #[trigger] self.registered(h)
    }

    /// Handle `h` stands in some node's children list.
    pub open spec fn registered(self, h: int) -> bool {
        exists|i: int, j: int|
            #![auto]
            0 <= i < self.nodes@.len() && 0 <= j < self.nodes@[i].children@.len()
                && self.nodes@[i].children@[j] as int == h
    }

    /// The values of a node's children, in stored order.
    pub open spec fn child_values(self, node: int) -> Seq<T> {
        self.nodes@[node].children@.map_values(|c: usize| self.nodes@[c as int].value)
    }

    pub fn new() -> (r: Self)
        ensures
            r.nodes@.len() == 0,
            r.wf(),
    {
        Self { nodes: Vec::new() }
    }

    pub fn with_root(v: T) -> (r: Self)
        ensures
            r.nodes@.len() == 1,
            r.nodes@[0].value == v,
            r.nodes@[0].children@.len() == 0,
            r.wf(),
    {
        let mut nodes = Vec::new();
        nodes.push(Node::new(v));
        Self { nodes }
    }

    pub fn nodes_count(&self) -> (r: usize)
        ensures
            r == self.nodes@.len(),
    {
        self.nodes.len()
    }

    /// On an empty arena, installs the first node; on a non-empty arena,
    /// replaces the root's value in place (children untouched) and returns
    /// the previous value.
    pub fn set_root(&mut self, v: T) -> (r: Option<T>)
        requires
            old(self).wf(),
        ensures
            final(self).wf(),
            old(self).nodes@.len() == 0 ==> {
                &&& r is None
                &&& final(self).nodes@.len() == 1
                &&& final(self).nodes@[0].value == v
                &&& final(self).nodes@[0].children@.len() == 0
            },
            old(self).nodes@.len() > 0 ==> {
                &&& r == Some(old(self).nodes@[0].value)
                &&& final(self).nodes@.len() == old(self).nodes@.len()
                &&& final(self).nodes@[0].value == v
                &&& final(self).nodes@[0].children@ == old(self).nodes@[0].children@
                &&& forall|i: int|
                    1 <= i < old(self).nodes@.len() ==> final(self).nodes@[i] == old(
                        self,
                    ).nodes@[i]
            },
    {
        if self.nodes.len() == 0 {
            self.nodes.push(Node::new(v));
            None
        } else {
            let mut x = v;
            let root = &mut self.nodes[0];
            core::mem::swap(&mut root.value, &mut x);
            proof {
                assert forall|i: int| 0 <= i < self.nodes@.len() implies self.nodes@[i].children@
                    == old(self).nodes@[i].children@ by {
                    if i != 0 {
                        assert(self.nodes@[i] == old(self).nodes@[i]);
                    }
                }
                assert forall|h: int| 1 <= h < self.nodes@.len()
                    implies #[trigger] self.registered(h) by {
                    assert(old(self).registered(h));
                    let (i, j) = choose|i: int, j: int|
                        #![auto]
                        0 <= i < old(self).nodes@.len() && 0 <= j < old(self).nodes@[
                            i
                        ].children@.len() && old(self).nodes@[i].children@[j] as int == h;
                    assert(self.nodes@[i].children@[j] as int == h);
                }
            }
            Some(x)
        }
    }

    /// Appends a new node holding `v`, registers its handle at the end of
    /// `node`'s children list, and returns the new handle. The handle
    /// equals the node count at the time of the call, so — the arena only
    /// ever growing — it strictly exceeds every handle an earlier
    /// successful insertion returned (see [`lemma_add_child_run`]). Fails
    /// with a `Node` error, leaving the arena unchanged, exactly when
    /// `node` is out of range.
    pub fn add_child(&mut self, node: usize, v: T) -> (r: Result<usize, NodeIndexError>)
        requires
            old(self).wf(),
        ensures
            final(self).wf(),
            match r {
                Ok(idx) => {
                    &&& node < old(self).nodes@.len()
                    &&& idx == old(self).nodes@.len()
                    &&& final(self).nodes@.len() == old(self).nodes@.len() + 1
                    &&& final(self).nodes@[node as int].value == old(self).nodes@[node as int].value
                    &&& final(self).nodes@[node as int].children@ == old(self).nodes@[
                        node as int
                    ].children@.push(idx)
                    &&& final(self).nodes@[idx as int].children@.len() == 0
                    &&& final(self).nodes@[idx as int].value == v
                    &&& forall|i: int|
                        0 <= i < old(self).nodes@.len() && i != node ==> final(self).nodes@[i]
                            == old(self).nodes@[i]
                },
                Err(e) => {
                    &&& node >= old(self).nodes@.len()
                    &&& *final(self) == *old(self)
                    &&& e == (NodeIndexError {
                        object: ErrorObject::Node,
                        given: node,
                        allowed: old(self).nodes@.len() as usize,
                    })
                },
            },
    {
        let new_index = self.nodes_count();
        if node < self.nodes.len() {
            let node_ref = &mut self.nodes[node];
            node_ref.children.push(new_index);
            self.nodes.push(Node::new(v));
            assert(self.wf()) by {
                let l = old(self).nodes@.len() as int;
                let oldch = old(self).nodes@[node as int].children@;
                assert forall|i: int, j: int|
                    0 <= i < self.nodes@.len() && 0 <= j < self.nodes@[i].children@.len() implies i
                    < #[trigger] self.nodes@[i].children@[j] < self.nodes@.len() by {
                    if i == node as int && j == self.nodes@[i].children@.len() - 1 {
                    } else if i == l {
                    } else {
                        assert(old(self).nodes@[i].children@[j] == self.nodes@[i].children@[j]);
                    }
                }
                assert forall|i1: int, j1: int, i2: int, j2: int|
                    #![trigger self.nodes@[i1].children@[j1], self.nodes@[i2].children@[j2]]
                    0 <= i1 < self.nodes@.len() && 0 <= j1 < self.nodes@[i1].children@.len() && 0
                        <= i2 < self.nodes@.len() && 0 <= j2 < self.nodes@[i2].children@.len()
                        && self.nodes@[i1].children@[j1] == self.nodes@[i2].children@[j2] implies i1
                    == i2 && j1 == j2 by {
                    if !(i1 == node as int && j1 == oldch.len()) {
                        assert(self.nodes@[i1].children@[j1] == old(self).nodes@[i1].children@[j1]);
                        assert(old(self).nodes@[i1].children@[j1] < l);
                    }
                    if !(i2 == node as int && j2 == oldch.len()) {
                        assert(self.nodes@[i2].children@[j2] == old(self).nodes@[i2].children@[j2]);
                        assert(old(self).nodes@[i2].children@[j2] < l);
                    }
                }
                assert forall|h: int| 1 <= h < self.nodes@.len()
                    implies #[trigger] self.registered(h) by {
                    if h < l {
                        assert(old(self).registered(h));
                        let (i, j) = choose|i: int, j: int|
                            #![auto]
                            0 <= i < old(self).nodes@.len() && 0 <= j < old(self).nodes@[
                                i
                            ].children@.len() && old(self).nodes@[i].children@[j] as int == h;
                        if i == node as int {
                            assert(self.nodes@[i].children@[j] == old(self).nodes@[i].children@[
                                j
                            ]);
                        } else {
                            assert(self.nodes@[i] == old(self).nodes@[i]);
                        }
                        assert(self.nodes@[i].children@[j] as int == h);
                    } else {
                        assert(self.nodes@[node as int].children@[oldch.len() as int] as int == h);
                    }
                }
            }
            Ok(new_index)
        } else {
            Err(NodeIndexError::new(ErrorObject::Node, node, new_index))
        }
    }

    /// Like [`Tree::add_child`], but inserts the new handle at position
    /// `pos` within `node`'s children order (`pos` may equal the current
    /// child count, which appends). Fails with a `Node` error when `node`
    /// is out of range, and otherwise with a `Child` error when `pos` lies
    /// beyond the children list; the arena is unchanged on either failure.
    pub fn add_child_position(&mut self, node: usize, v: T, pos: usize) -> (r: Result<
        usize,
        NodeIndexError,
    >)
        requires
            old(self).wf(),
        ensures
            final(self).wf(),
            match r {
                Ok(idx) => {
                    &&& node < old(self).nodes@.len()
                    &&& pos <= old(self).nodes@[node as int].children@.len()
                    &&& idx == old(self).nodes@.len()
                    &&& final(self).nodes@.len() == old(self).nodes@.len() + 1
                    &&& final(self).nodes@[node as int].value == old(self).nodes@[node as int].value
                    &&& final(self).nodes@[node as int].children@ == old(self).nodes@[
                        node as int
                    ].children@.insert(pos as int, idx)
                    &&& final(self).nodes@[idx as int].children@.len() == 0
                    &&& final(self).nodes@[idx as int].value == v
                    &&& forall|i: int|
                        0 <= i < old(self).nodes@.len() && i != node ==> final(self).nodes@[i]
                            == old(self).nodes@[i]
                },
                Err(e) => {
                    &&& *final(self) == *old(self)
                    &&& node >= old(self).nodes@.len() ==> e == (NodeIndexError {
                        object: ErrorObject::Node,
                        given: node,
                        allowed: old(self).nodes@.len() as usize,
                    })
                    &&& node < old(self).nodes@.len() ==> {
                        &&& pos > old(self).nodes@[node as int].children@.len()
                        &&& e == (NodeIndexError {
                            object: ErrorObject::Child,
                            given: pos,
                            allowed: old(self).nodes@[node as int].children@.len() as usize,
                        })
                    }
                },
            },
    {
        let new_index = self.nodes_count();
        if node < self.nodes.len() {
            if pos <= self.nodes[node].children.len() {
                let node_ref = &mut self.nodes[node];
                node_ref.children.insert(pos, new_index);
                self.nodes.push(Node::new(v));
                proof {
                    assert(self.nodes@[node as int].children@ =~= old(self).nodes@[
                        node as int
                    ].children@.insert(pos as int, new_index));
                }
                assert(self.wf()) by {
                    let l = old(self).nodes@.len() as int;
                    let oldch = old(self).nodes@[node as int].children@;
                    oldch.insert_ensures(pos as int, new_index);
                    assert forall|i: int, j: int|
                        0 <= i < self.nodes@.len() && 0 <= j < self.nodes@[i].children@.len()
                        implies i < #[trigger] self.nodes@[i].children@[j] < self.nodes@.len() by {
                        if i == node as int {
                            if j < pos as int {
                                assert(self.nodes@[i].children@[j] == oldch[j]);
                            } else if j == pos as int {
                            } else {
                                assert(self.nodes@[i].children@[j] == oldch[j - 1]);
                            }
                        } else if i == l {
                        } else {
                            assert(old(self).nodes@[i].children@[j] == self.nodes@[i].children@[j]);
                        }
                    }
                    assert forall|i1: int, j1: int, i2: int, j2: int|
                        #![trigger self.nodes@[i1].children@[j1], self.nodes@[i2].children@[j2]]
                        0 <= i1 < self.nodes@.len() && 0 <= j1 < self.nodes@[i1].children@.len()
                            && 0 <= i2 < self.nodes@.len() && 0 <= j2
                            < self.nodes@[i2].children@.len() && self.nodes@[i1].children@[j1]
                            == self.nodes@[i2].children@[j2] implies i1 == i2 && j1 == j2 by {
                        if i1 == node as int {
                            if j1 < pos as int {
                                assert(self.nodes@[i1].children@[j1] == old(self).nodes@[
                                    i1
                                ].children@[j1]);
                                assert(old(self).nodes@[i1].children@[j1] < l);
                            } else if j1 > pos as int {
                                assert(self.nodes@[i1].children@[j1] == old(self).nodes@[
                                    i1
                                ].children@[j1 - 1]);
                                assert(old(self).nodes@[i1].children@[j1 - 1] < l);
                            }
                        } else if i1 != l {
                            assert(self.nodes@[i1].children@[j1] == old(self).nodes@[i1].children@[
                                j1
                            ]);
                            assert(old(self).nodes@[i1].children@[j1] < l);
                        }
                        if i2 == node as int {
                            if j2 < pos as int {
                                assert(self.nodes@[i2].children@[j2] == old(self).nodes@[
                                    i2
                                ].children@[j2]);
                                assert(old(self).nodes@[i2].children@[j2] < l);
                            } else if j2 > pos as int {
                                assert(self.nodes@[i2].children@[j2] == old(self).nodes@[
                                    i2
                                ].children@[j2 - 1]);
                                assert(old(self).nodes@[i2].children@[j2 - 1] < l);
                            }
                        } else if i2 != l {
                            assert(self.nodes@[i2].children@[j2] == old(self).nodes@[i2].children@[
                                j2
                            ]);
                            assert(old(self).nodes@[i2].children@[j2] < l);
                        }
                    }
                    assert forall|h: int| 1 <= h < self.nodes@.len()
                        implies #[trigger] self.registered(h) by {
                        if h < l {
                            assert(old(self).registered(h));
                            let (i, j) = choose|i: int, j: int|
                                #![auto]
                                0 <= i < old(self).nodes@.len() && 0 <= j < old(self).nodes@[
                                    i
                                ].children@.len() && old(self).nodes@[i].children@[j] as int == h;
                            if i == node as int {
                                if j < pos as int {
                                    assert(self.nodes@[i].children@[j] == old(self).nodes@[
                                        i
                                    ].children@[j]);
                                    assert(self.nodes@[i].children@[j] as int == h);
                                } else {
                                    assert(self.nodes@[i].children@[j + 1] == old(self).nodes@[
                                        i
                                    ].children@[j]);
                                    assert(self.nodes@[i].children@[j + 1] as int == h);
                                }
                            } else {
                                assert(self.nodes@[i] == old(self).nodes@[i]);
                                assert(self.nodes@[i].children@[j] as int == h);
                            }
                        } else {
                            assert(self.nodes@[node as int].children@[pos as int] as int == h);
                        }
                    }
                }
                Ok(new_index)
            } else {
                let allowed = self.nodes[node].children.len();
                Err(NodeIndexError::new(ErrorObject::Child, pos, allowed))
            }
        } else {
            Err(NodeIndexError::new(ErrorObject::Node, node, new_index))
        }
    }

    /// `b` lies strictly below `a` in the tree: it is reachable from `a`
    /// through one or more child steps.
    pub open spec fn descends(self, a: int, b: int) -> bool
        decreases self.nodes@.len() - a,
    {
        0 <= a < self.nodes@.len() && exists|j: int|
            0 <= j < self.nodes@[a].children@.len() && {
                let c = #[trigger] self.nodes@[a].children@[j];
                a < c < self.nodes@.len() && (c == b || self.descends(c as int, b))
            }
    }

    /// A descendant's handle is strictly greater than its ancestor's: a
    /// child handle is assigned at append time, so it cannot point back
    /// at an ancestor.
    pub proof fn lemma_descends_increases(self, a: int, b: int)
        requires
            self.wf(),
            self.descends(a, b),
        ensures
            a < b,
        decreases self.nodes@.len() - a,
    {
        let j = choose|j: int|
            0 <= j < self.nodes@[a].children@.len() && {
                let c = #[trigger] self.nodes@[a].children@[j];
                a < c < self.nodes@.len() && (c == b || self.descends(c as int, b))
            };
        let c = self.nodes@[a].children@[j];
        if c != b {
            self.lemma_descends_increases(c as int, b);
        }
    }

    /// The children relation of a well-formed arena contains no cycle: no
    /// node descends from itself. (That no stored handle reaches past the
    /// arena is [`Tree::wf`] itself, which every operation preserves and
    /// the renderers rely on to never index out of bounds.)
    pub proof fn lemma_acyclic(self)
        requires
            self.wf(),
        ensures
            forall|a: int, b: int| self.descends(a, b) ==> a < b,
            forall|n: int| !self.descends(n, n),
    {
        assert forall|a: int, b: int| self.descends(a, b) implies a < b by {
            self.lemma_descends_increases(a, b);
        }
    }

    /// The value stored under `index`, or nothing when the handle is out of
    /// range.
    pub fn get_node_value(&self, index: usize) -> (r: Option<&T>)
        ensures
            match r {
                Some(v) => index < self.nodes@.len() && *v == self.nodes@[index as int].value,
                None => index >= self.nodes@.len(),
            },
    {
        if index < self.nodes.len() {
            Some(&self.nodes[index].value)
        } else {
            None
        }
    }

    /// The children handles stored under `index`, or nothing when the
    /// handle is out of range.
    pub fn get_node_children(&self, index: usize) -> (r: Option<&Vec<usize>>)
        ensures
            match r {
                Some(c) => index < self.nodes@.len() && c@ == self.nodes@[index as int].children@,
                None => index >= self.nodes@.len(),
            },
    {
        if index < self.nodes.len() {
            Some(&self.nodes[index].children)
        } else {
            None
        }
    }
}

/// In a run of node counts where each step adds one, the count at step
/// `k` is the starting count plus `k`.
pub proof fn lemma_counts_linear(counts: Seq<int>, k: int)
    requires
        0 <= k < counts.len(),
        forall|j: int| 0 <= j < counts.len() - 1 ==> counts[j + 1] == #[trigger] counts[j] + 1,
    ensures
        counts[k] == counts[0] + k,
    decreases k,
{
    if k > 0 {
        lemma_counts_linear(counts, k - 1);
    }
}

/// Over any run of successful [`Tree::add_child`] calls, the handles
/// handed back are the successive node counts: `counts[k]` is the node
/// count before the `k`-th call, and by `add_child`'s contract each call
/// returns that count and grows the arena by one. So the `k`-th handle is
/// the starting count plus `k`, the handles are unique and strictly
/// increasing, and the final count is the starting count plus the number
/// of calls — starting from a single-root tree, one more than the number
/// of calls.
pub proof fn lemma_add_child_run(counts: Seq<int>, handles: Seq<int>)
    requires
        counts.len() == handles.len() + 1,
        forall|k: int|
            0 <= k < handles.len() ==> #[trigger] handles[k] == counts[k] && counts[k + 1]
                == counts[k] + 1,
    ensures
        forall|k: int| 0 <= k < handles.len() ==> #[trigger] handles[k] == counts[0] + k,
        forall|k1: int, k2: int|
            0 <= k1 < k2 < handles.len() ==> handles[k1] != handles[k2] && #[trigger] handles[k1]
                < #[trigger] handles[k2],
        counts[counts.len() - 1] == counts[0] + handles.len(),
{
    assert forall|j: int| 0 <= j < counts.len() - 1 implies counts[j + 1] == #[trigger] counts[j]
        + 1 by {
        assert(handles[j] == counts[j] && counts[j + 1] == counts[j] + 1);
    }
    assert forall|k: int| 0 <= k < handles.len() implies #[trigger] handles[k] == counts[0] + k by {
        lemma_counts_linear(counts, k);
    }
    lemma_counts_linear(counts, counts.len() - 1);
}

} // verus!
