//! A binary-search-tree client of the arena: comparator-driven insertion
//! (each node keeps at most two children) and the three classic
//! traversals, on top of the arena's insertion and lookup contract.
//!
//! The ordering of the element type enters through `PartialOrd`. Wherever
//! the comparison's specification is honest (`obeys_partial_cmp_spec`),
//! the contracts here pin down the exact shape of the tree and of the
//! traversals; the arena bookkeeping (one node added per insertion, the
//! new node holding the new value) holds unconditionally.

use crate::print_params::{deref_all, lemma_deref_all_push, PrintParams, PrintStrategy};
use crate::tree::{Node, Tree};
use core::cmp::Ordering;
use vstd::prelude::*;
use vstd::std_specs::cmp::PartialOrdSpec;

verus! {

/// `a` is at least `b`, by the ordering's specification.
pub open spec fn spec_ge<T: PartialOrd>(a: T, b: T) -> bool {
    a.partial_cmp_spec(&b) matches Some(Ordering::Greater | Ordering::Equal)
}

/// `a` is strictly below `b`, by the ordering's specification.
pub open spec fn spec_lt<T: PartialOrd>(a: T, b: T) -> bool {
    a.partial_cmp_spec(&b) matches Some(Ordering::Less)
}

/// Exactly one children list — `parent`'s — gains exactly one handle, the
/// fresh one, at position `pos`; `parent` keeps its value and every other
/// existing node is untouched.
pub open spec fn one_registration<T>(
    pre: Seq<Node<T>>,
    post: Seq<Node<T>>,
    parent: int,
    pos: int,
) -> bool {
    &&& 0 <= parent < pre.len()
    &&& 0 <= pos <= pre[parent].children@.len()
    &&& post[parent].value == pre[parent].value
    &&& post[parent].children@ == pre[parent].children@.insert(pos, pre.len() as usize)
    &&& forall|i: int| 0 <= i < pre.len() && i != parent ==> post[i] == pre[i]
}

/// Relates the arena before and after one insertion: a fresh node holding
/// `v` is appended, and its handle is registered at position `pos` of
/// `parent`'s children order; everything else is untouched.
pub open spec fn insert_shape<T>(
    pre: Seq<Node<T>>,
    post: Seq<Node<T>>,
    parent: int,
    pos: int,
    v: T,
) -> bool {
    &&& post.len() == pre.len() + 1
    &&& post[pre.len() as int].children@.len() == 0
    &&& post[pre.len() as int].value == v
    &&& one_registration(pre, post, parent, pos)
}

/// A multi-way arena used as a binary search tree.
pub struct BSTree<T> {
    pub tree: Tree<T>,
}

impl<T: PartialOrd> BSTree<T> {
    /// Structural integrity, inherited from the arena.
    pub open spec fn wf(self) -> bool {
        self.tree.wf()
    }

    /// Where the comparator-driven descent from `node` places a new value
    /// `v`: the handle of the node that receives the new child, and the
    /// position within that node's children order. Values at least the
    /// node's descend right (the later child), smaller values left; a
    /// lone child counts as right or left according to how it compares to
    /// its parent.
    pub open spec fn insert_slot(self, node: int, v: T) -> (int, int)
        decreases self.tree.nodes@.len() - node,
    {
        if 0 <= node < self.tree.nodes@.len() {
            let ch = self.tree.nodes@[node].children@;
            let val = self.tree.nodes@[node].value;
            if spec_ge(v, val) {
                if ch.len() == 2 && node < ch[1] < self.tree.nodes@.len() {
                    self.insert_slot(ch[1] as int, v)
                } else if ch.len() == 1 && node < ch[0] < self.tree.nodes@.len() && spec_ge(
                    self.tree.nodes@[ch[0] as int].value,
                    val,
                ) {
                    self.insert_slot(ch[0] as int, v)
                } else {
                    (node, ch.len() as int)
                }
            } else {
                if ch.len() == 2 && node < ch[0] < self.tree.nodes@.len() {
                    self.insert_slot(ch[0] as int, v)
                } else if ch.len() == 1 && node < ch[0] < self.tree.nodes@.len() && spec_lt(
                    self.tree.nodes@[ch[0] as int].value,
                    val,
                ) {
                    self.insert_slot(ch[0] as int, v)
                } else if ch.len() == 1 {
                    (node, 0)
                } else {
                    (node, ch.len() as int)
                }
            }
        } else {
            (0, 0)
        }
    }

    pub fn new() -> (r: Self)
        ensures
            r.tree.nodes@.len() == 0,
            r.wf(),
    {
        Self { tree: Tree::new() }
    }

    pub fn with_root(v: T) -> (r: Self)
        ensures
            r.tree.nodes@.len() == 1,
            r.tree.nodes@[0].value == v,
            r.tree.nodes@[0].children@.len() == 0,
            r.wf(),
    {
        Self { tree: Tree::with_root(v) }
    }

    pub fn nodes_count(&self) -> (r: usize)
        ensures
            r == self.tree.nodes@.len(),
    {
        self.tree.nodes_count()
    }

    /// Installs or replaces the root's value; see [`Tree::set_root`].
    pub fn set_root(&mut self, v: T) -> (r: Option<T>)
        requires
            old(self).wf(),
        ensures
            final(self).wf(),
            old(self).tree.nodes@.len() == 0 ==> {
                &&& r is None
                &&& final(self).tree.nodes@.len() == 1
                &&& final(self).tree.nodes@[0].value == v
                &&& final(self).tree.nodes@[0].children@.len() == 0
            },
            old(self).tree.nodes@.len() > 0 ==> {
                &&& r == Some(old(self).tree.nodes@[0].value)
                &&& final(self).tree.nodes@.len() == old(self).tree.nodes@.len()
                &&& final(self).tree.nodes@[0].value == v
                &&& final(self).tree.nodes@[0].children@ == old(self).tree.nodes@[0].children@
                &&& forall|i: int|
                    1 <= i < old(self).tree.nodes@.len() ==> final(self).tree.nodes@[i] == old(
                        self,
                    ).tree.nodes@[i]
            },
    {
        self.tree.set_root(v)
    }

    /// The value stored under `index`; see [`Tree::get_node_value`].
    pub fn get_node_value(&self, index: usize) -> (r: Option<&T>)
        ensures
            match r {
                Some(v) => index < self.tree.nodes@.len() && *v == self.tree.nodes@[
                    index as int
                ].value,
                None => index >= self.tree.nodes@.len(),
            },
    {
        self.tree.get_node_value(index)
    }

    /// The children handles stored under `index`; see
    /// [`Tree::get_node_children`].
    pub fn get_node_children(&self, index: usize) -> (r: Option<&Vec<usize>>)
        ensures
            match r {
                Some(c) => index < self.tree.nodes@.len() && c@ == self.tree.nodes@[
                    index as int
                ].children@,
                None => index >= self.tree.nodes@.len(),
            },
    {
        self.tree.get_node_children(index)
    }

    /// Inserts `v`: into the root of an empty tree, and otherwise at the
    /// slot the comparator-driven descent finds. Whatever the comparisons
    /// return, exactly one node is appended, holding `v`, every existing
    /// node keeps its value, and exactly one children list gains exactly
    /// one handle; when the ordering's specification is honest the
    /// receiving parent and position are exactly [`BSTree::insert_slot`]
    /// of the old tree.
    pub fn insert(&mut self, v: T)
        requires
            old(self).wf(),
        ensures
            final(self).wf(),
            final(self).tree.nodes@.len() == old(self).tree.nodes@.len() + 1,
            final(self).tree.nodes@[old(self).tree.nodes@.len() as int].value == v,
            final(self).tree.nodes@[old(self).tree.nodes@.len() as int].children@.len() == 0,
            forall|i: int|
                0 <= i < old(self).tree.nodes@.len() ==> final(self).tree.nodes@[i].value == old(
                    self,
                ).tree.nodes@[i].value,
            old(self).tree.nodes@.len() > 0 ==> exists|p: int, q: int|
                #![auto]
                one_registration(old(self).tree.nodes@, final(self).tree.nodes@, p, q),
            T::obeys_partial_cmp_spec() && old(self).tree.nodes@.len() > 0 ==> insert_shape(
                old(self).tree.nodes@,
                final(self).tree.nodes@,
                old(self).insert_slot(0, v).0,
                old(self).insert_slot(0, v).1,
                v,
            ),
    {
        if self.nodes_count() == 0 {
            let _ = self.set_root(v);
        } else {
            self.insert_into_node(0, v);
        }
    }

    fn insert_into_node(&mut self, node: usize, v: T)
        requires
            old(self).wf(),
            node < old(self).tree.nodes@.len(),
        ensures
            final(self).wf(),
            final(self).tree.nodes@.len() == old(self).tree.nodes@.len() + 1,
            final(self).tree.nodes@[old(self).tree.nodes@.len() as int].value == v,
            final(self).tree.nodes@[old(self).tree.nodes@.len() as int].children@.len() == 0,
            forall|i: int|
                0 <= i < old(self).tree.nodes@.len() ==> final(self).tree.nodes@[i].value == old(
                    self,
                ).tree.nodes@[i].value,
            exists|p: int, q: int|
                #![auto]
                one_registration(old(self).tree.nodes@, final(self).tree.nodes@, p, q),
            T::obeys_partial_cmp_spec() ==> insert_shape(
                old(self).tree.nodes@,
                final(self).tree.nodes@,
                old(self).insert_slot(node as int, v).0,
                old(self).insert_slot(node as int, v).1,
                v,
            ),
        decreases old(self).tree.nodes@.len() - node,
    {
        let ghost pre = self.tree.nodes@;
        let clen = self.tree.nodes[node].children.len();
        let ge = v >= self.tree.nodes[node].value;
        proof {
            if T::obeys_partial_cmp_spec() {
                assert(ge == spec_ge(v, pre[node as int].value));
            }
        }
        if ge {
            if clen == 2 {
                let c = self.tree.nodes[node].children[1];
                assert(node < c < self.tree.nodes@.len());
                self.insert_into_node(c, v);
            } else if clen == 1 {
                let c = self.tree.nodes[node].children[0];
                assert(node < c < self.tree.nodes@.len());
                let child_ge = self.tree.nodes[c].value >= self.tree.nodes[node].value;
                proof {
                    if T::obeys_partial_cmp_spec() {
                        assert(child_ge == spec_ge(pre[c as int].value, pre[node as int].value));
                    }
                }
                if child_ge {
                    self.insert_into_node(c, v);
                } else {
                    let r = self.tree.add_child(node, v);
                    let _ = r.unwrap();
                    proof {
                        assert(self.tree.nodes@[node as int].children@ =~= pre[
                            node as int
                        ].children@.insert(1, pre.len() as usize));
                        assert(one_registration(pre, self.tree.nodes@, node as int, 1));
                        assert forall|i: int| 0 <= i < pre.len() implies self.tree.nodes@[i].value == pre[i].value by {
                            if i != node as int {
                                assert(self.tree.nodes@[i] == pre[i]);
                            }
                        }
                    }
                }
            } else {
                let r = self.tree.add_child(node, v);
                let idx = r.unwrap();
                proof {
                    assert(idx == pre.len());
                    assert(self.tree.nodes@[node as int].children@ == pre[
                        node as int
                    ].children@.push(idx));
                    assert(self.tree.nodes@[node as int].children@ =~= pre[
                        node as int
                    ].children@.insert(pre[node as int].children@.len() as int, pre.len() as usize));
                    assert(one_registration(
                        pre,
                        self.tree.nodes@,
                        node as int,
                        pre[node as int].children@.len() as int,
                    ));
                    assert forall|i: int| 0 <= i < pre.len() implies self.tree.nodes@[i].value == pre[i].value by {
                        if i != node as int {
                            assert(self.tree.nodes@[i] == pre[i]);
                        }
                    }
                }
            }
        } else {
            if clen == 2 {
                let c = self.tree.nodes[node].children[0];
                assert(node < c < self.tree.nodes@.len());
                self.insert_into_node(c, v);
            } else if clen == 1 {
                let c = self.tree.nodes[node].children[0];
                assert(node < c < self.tree.nodes@.len());
                let child_lt = self.tree.nodes[c].value < self.tree.nodes[node].value;
                proof {
                    if T::obeys_partial_cmp_spec() {
                        assert(child_lt == spec_lt(pre[c as int].value, pre[node as int].value));
                    }
                }
                if child_lt {
                    self.insert_into_node(c, v);
                } else {
                    let r = self.tree.add_child_position(node, v, 0);
                    let idx = r.unwrap();
                    proof {
                        assert(idx == pre.len());
                        assert(one_registration(pre, self.tree.nodes@, node as int, 0));
                        assert forall|i: int| 0 <= i < pre.len() implies self.tree.nodes@[i].value == pre[i].value by {
                            if i != node as int {
                                assert(self.tree.nodes@[i] == pre[i]);
                            }
                        }
                    }
                }
            } else {
                let r = self.tree.add_child(node, v);
                let idx = r.unwrap();
                proof {
                    assert(idx == pre.len());
                    assert(self.tree.nodes@[node as int].children@ == pre[
                        node as int
                    ].children@.push(idx));
                    assert(self.tree.nodes@[node as int].children@ =~= pre[
                        node as int
                    ].children@.insert(pre[node as int].children@.len() as int, pre.len() as usize));
                    assert(one_registration(
                        pre,
                        self.tree.nodes@,
                        node as int,
                        pre[node as int].children@.len() as int,
                    ));
                    assert forall|i: int| 0 <= i < pre.len() implies self.tree.nodes@[i].value == pre[i].value by {
                        if i != node as int {
                            assert(self.tree.nodes@[i] == pre[i]);
                        }
                    }
                }
            }
        }
    }

    /// Renders the underlying arena top to bottom; see
    /// [`Tree::vertical_string`].
    pub fn vertical_string<S: PrintStrategy<T>>(&self, params: &PrintParams<S>) -> (r: String)
        requires
            self.wf(),
            params.wf(),
            self.tree.labels_ok(*params),
        ensures
            r@ == self.tree.spec_vertical(*params),
    {
        self.tree.vertical_string(params)
    }

    /// Renders the underlying arena left to right; see
    /// [`Tree::horizontal_string`].
    pub fn horizontal_string<S: PrintStrategy<T>>(&self, params: &PrintParams<S>) -> (r: String)
        requires
            self.wf(),
            params.wf(),
        ensures
            r@ == self.tree.spec_horizontal(*params),
    {
        self.tree.horizontal_string(params)
    }

    /// The values of the subtree under `node`: the node's own value first,
    /// then each child's subtree in stored order.
    pub open spec fn spec_preorder(self, node: int) -> Seq<T>
        decreases self.tree.nodes@.len() - node, 1int, 0int,
    {
        if 0 <= node < self.tree.nodes@.len() {
            seq![self.tree.nodes@[node].value] + self.pre_kids(
                node,
                self.tree.nodes@[node].children@.len() as int,
            )
        } else {
            Seq::empty()
        }
    }

    pub open spec fn pre_kids(self, node: int, upto: int) -> Seq<T>
        decreases self.tree.nodes@.len() - node, 0int, upto,
    {
        if upto > 0 && 0 <= node < self.tree.nodes@.len() {
            let rest = self.pre_kids(node, upto - 1);
            let ch = self.tree.nodes@[node].children@;
            let i = upto - 1;
            if 0 <= i < ch.len() && node < ch[i] < self.tree.nodes@.len() {
                rest + self.spec_preorder(ch[i] as int)
            } else {
                rest
            }
        } else {
            Seq::empty()
        }
    }

    /// The values of the subtree under `node`: each child's subtree in
    /// stored order, then the node's own value.
    pub open spec fn spec_postorder(self, node: int) -> Seq<T>
        decreases self.tree.nodes@.len() - node, 1int, 0int,
    {
        if 0 <= node < self.tree.nodes@.len() {
            self.post_kids(node, self.tree.nodes@[node].children@.len() as int) + seq![
                self.tree.nodes@[node].value,
            ]
        } else {
            Seq::empty()
        }
    }

    pub open spec fn post_kids(self, node: int, upto: int) -> Seq<T>
        decreases self.tree.nodes@.len() - node, 0int, upto,
    {
        if upto > 0 && 0 <= node < self.tree.nodes@.len() {
            let rest = self.post_kids(node, upto - 1);
            let ch = self.tree.nodes@[node].children@;
            let i = upto - 1;
            if 0 <= i < ch.len() && node < ch[i] < self.tree.nodes@.len() {
                rest + self.spec_postorder(ch[i] as int)
            } else {
                rest
            }
        } else {
            Seq::empty()
        }
    }

    /// How many nodes the comparison-ordered walk visits below and
    /// including `node`: it descends into both of two children and always
    /// into a lone child, whatever the comparisons return, and into
    /// nothing otherwise.
    pub open spec fn inorder_count(self, node: int) -> int
        decreases self.tree.nodes@.len() - node,
    {
        if 0 <= node < self.tree.nodes@.len() {
            let ch = self.tree.nodes@[node].children@;
            if ch.len() == 2 && node < ch[0] < self.tree.nodes@.len() && node < ch[1]
                < self.tree.nodes@.len() {
                1 + self.inorder_count(ch[0] as int) + self.inorder_count(ch[1] as int)
            } else if ch.len() == 1 && node < ch[0] < self.tree.nodes@.len() {
                1 + self.inorder_count(ch[0] as int)
            } else {
                1
            }
        } else {
            0
        }
    }

    /// The values of the subtree under `node` in comparison order: a left
    /// subtree first, then the node's value, then a right subtree, where a
    /// lone child counts as right exactly when its value is at least its
    /// parent's.
    pub open spec fn spec_inorder(self, node: int) -> Seq<T>
        decreases self.tree.nodes@.len() - node,
    {
        if 0 <= node < self.tree.nodes@.len() {
            let ch = self.tree.nodes@[node].children@;
            let val = self.tree.nodes@[node].value;
            if ch.len() == 2 && node < ch[0] < self.tree.nodes@.len() && node < ch[1]
                < self.tree.nodes@.len() {
                self.spec_inorder(ch[0] as int) + seq![val] + self.spec_inorder(ch[1] as int)
            } else if ch.len() == 1 && node < ch[0] < self.tree.nodes@.len() && spec_ge(
                self.tree.nodes@[ch[0] as int].value,
                val,
            ) {
                seq![val] + self.spec_inorder(ch[0] as int)
            } else if ch.len() == 1 && node < ch[0] < self.tree.nodes@.len() {
                self.spec_inorder(ch[0] as int) + seq![val]
            } else {
                seq![val]
            }
        } else {
            Seq::empty()
        }
    }

    /// The preorder traversal of the whole tree (empty for an empty
    /// tree).
    pub fn preorder(&self) -> (r: Vec<&T>)
        requires
            self.wf(),
        ensures
            deref_all(r@) == if self.tree.nodes@.len() > 0 {
                self.spec_preorder(0)
            } else {
                Seq::<T>::empty()
            },
    {
        let mut vec: Vec<&T> = Vec::new();
        proof {
            assert(deref_all(vec@) =~= Seq::<T>::empty());
        }
        if self.nodes_count() > 0 {
            self.preorder_traversal(0, &mut vec);
            proof {
                assert(Seq::<T>::empty() + self.spec_preorder(0) =~= self.spec_preorder(0));
            }
        }
        vec
    }

    fn preorder_traversal<'a>(&'a self, node: usize, vec: &mut Vec<&'a T>)
        requires
            self.wf(),
            node < self.tree.nodes@.len(),
        ensures
            deref_all(final(vec)@) == deref_all(old(vec)@) + self.spec_preorder(node as int),
        decreases self.tree.nodes@.len() - node,
    {
        let ghost vec0 = deref_all(vec@);
        let ghost nodei = node as int;
        vec.push(&self.tree.nodes[node].value);
        proof {
            assert(deref_all(vec@) =~= vec0 + seq![self.tree.nodes@[nodei].value]);
        }
        let nchildren = self.tree.nodes[node].children.len();
        let mut i: usize = 0;
        while i < nchildren
            invariant
                self.wf(),
                nodei == node as int,
                node < self.tree.nodes@.len(),
                nchildren == self.tree.nodes@[nodei].children@.len(),
                i <= nchildren,
                deref_all(vec@) == vec0 + seq![self.tree.nodes@[nodei].value] + self.pre_kids(
                    nodei,
                    i as int,
                ),
            decreases nchildren - i,
        {
            let c = self.tree.nodes[node].children[i];
            assert(nodei < c < self.tree.nodes@.len());
            self.preorder_traversal(c, vec);
            proof {
                assert(deref_all(vec@) =~= vec0 + seq![self.tree.nodes@[nodei].value]
                    + self.pre_kids(nodei, i as int + 1));
            }
            i += 1;
        }
        proof {
            assert(deref_all(vec@) =~= vec0 + self.spec_preorder(nodei));
        }
    }

    /// The postorder traversal of the whole tree (empty for an empty
    /// tree).
    pub fn postorder(&self) -> (r: Vec<&T>)
        requires
            self.wf(),
        ensures
            deref_all(r@) == if self.tree.nodes@.len() > 0 {
                self.spec_postorder(0)
            } else {
                Seq::<T>::empty()
            },
    {
        let mut vec: Vec<&T> = Vec::new();
        proof {
            assert(deref_all(vec@) =~= Seq::<T>::empty());
        }
        if self.nodes_count() > 0 {
            self.postorder_traversal(0, &mut vec);
            proof {
                assert(Seq::<T>::empty() + self.spec_postorder(0) =~= self.spec_postorder(0));
            }
        }
        vec
    }

    fn postorder_traversal<'a>(&'a self, node: usize, vec: &mut Vec<&'a T>)
        requires
            self.wf(),
            node < self.tree.nodes@.len(),
        ensures
            deref_all(final(vec)@) == deref_all(old(vec)@) + self.spec_postorder(node as int),
        decreases self.tree.nodes@.len() - node,
    {
        let ghost vec0 = deref_all(vec@);
        let ghost nodei = node as int;
        let nchildren = self.tree.nodes[node].children.len();
        let mut i: usize = 0;
        while i < nchildren
            invariant
                self.wf(),
                nodei == node as int,
                node < self.tree.nodes@.len(),
                nchildren == self.tree.nodes@[nodei].children@.len(),
                i <= nchildren,
                deref_all(vec@) == vec0 + self.post_kids(nodei, i as int),
            decreases nchildren - i,
        {
            let c = self.tree.nodes[node].children[i];
            assert(nodei < c < self.tree.nodes@.len());
            self.postorder_traversal(c, vec);
            proof {
                assert(deref_all(vec@) =~= vec0 + self.post_kids(nodei, i as int + 1));
            }
            i += 1;
        }
        let ghost vpre = vec@;
        vec.push(&self.tree.nodes[node].value);
        proof {
            lemma_deref_all_push(vpre, vec@[vpre.len() as int]);
            assert(deref_all(vec@) =~= vec0 + self.spec_postorder(nodei));
        }
    }

    /// The comparison-ordered traversal of the whole tree (empty for an
    /// empty tree): exact when the ordering's specification is honest,
    /// and one value per visited node whatever the comparisons return.
    pub fn inorder(&self) -> (r: Vec<&T>)
        requires
            self.wf(),
        ensures
            r@.len() == (if self.tree.nodes@.len() > 0 {
                self.inorder_count(0)
            } else {
                0int
            }),
            T::obeys_partial_cmp_spec() ==> deref_all(r@) == if self.tree.nodes@.len() > 0 {
                self.spec_inorder(0)
            } else {
                Seq::<T>::empty()
            },
    {
        let mut vec: Vec<&T> = Vec::new();
        proof {
            assert(deref_all(vec@) =~= Seq::<T>::empty());
        }
        if self.nodes_count() > 0 {
            self.inorder_traversal(0, &mut vec);
            proof {
                assert(Seq::<T>::empty() + self.spec_inorder(0) =~= self.spec_inorder(0));
            }
        }
        vec
    }

    fn inorder_traversal<'a>(&'a self, node: usize, vec: &mut Vec<&'a T>)
        requires
            self.wf(),
            node < self.tree.nodes@.len(),
        ensures
            final(vec)@.len() == old(vec)@.len() + self.inorder_count(node as int),
            T::obeys_partial_cmp_spec() ==> deref_all(final(vec)@) == deref_all(old(vec)@)
                + self.spec_inorder(node as int),
        decreases self.tree.nodes@.len() - node,
    {
        let ghost vec0 = deref_all(vec@);
        let ghost nodei = node as int;
        let clen = self.tree.nodes[node].children.len();
        if clen == 2 {
            let c0 = self.tree.nodes[node].children[0];
            let c1 = self.tree.nodes[node].children[1];
            assert(nodei < c0 < self.tree.nodes@.len());
            assert(nodei < c1 < self.tree.nodes@.len());
            self.inorder_traversal(c0, vec);
            let ghost v1 = vec@;
            vec.push(&self.tree.nodes[node].value);
            proof {
                lemma_deref_all_push(v1, vec@[v1.len() as int]);
            }
            self.inorder_traversal(c1, vec);
            proof {
                if T::obeys_partial_cmp_spec() {
                    assert(deref_all(vec@) =~= vec0 + self.spec_inorder(nodei));
                }
            }
        } else if clen == 1 {
            let c0 = self.tree.nodes[node].children[0];
            assert(nodei < c0 < self.tree.nodes@.len());
            let cge = self.tree.nodes[c0].value >= self.tree.nodes[node].value;
            if cge {
                let ghost v1 = vec@;
                vec.push(&self.tree.nodes[node].value);
                proof {
                    lemma_deref_all_push(v1, vec@[v1.len() as int]);
                }
                self.inorder_traversal(c0, vec);
            } else {
                self.inorder_traversal(c0, vec);
                let ghost v1 = vec@;
                vec.push(&self.tree.nodes[node].value);
                proof {
                    lemma_deref_all_push(v1, vec@[v1.len() as int]);
                }
            }
            proof {
                if T::obeys_partial_cmp_spec() {
                    assert(cge == spec_ge(
                        self.tree.nodes@[c0 as int].value,
                        self.tree.nodes@[nodei].value,
                    ));
                    assert(deref_all(vec@) =~= vec0 + self.spec_inorder(nodei));
                }
            }
        } else {
            let ghost v1 = vec@;
            vec.push(&self.tree.nodes[node].value);
            proof {
                lemma_deref_all_push(v1, vec@[v1.len() as int]);
                if T::obeys_partial_cmp_spec() {
                    assert(deref_all(vec@) =~= vec0 + self.spec_inorder(nodei));
                }
            }
        }
    }
}

} // verus!
