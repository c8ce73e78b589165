//! Nodes with a parent and children, built from the counting handles and the
//! runtime-checked cell.
//!
//! A node owns its children through strong handles and observes its parent
//! through a weak handle, so a parent and its child never keep each other
//! alive. Both links sit in cells: they are rewired after construction, and a
//! rewiring that meets an outstanding borrow is refused with
//! [`BorrowConflict`].
//!
//! The nodes of one graph live in one [`NodeGraph`]. Releasing the last
//! strong handle to a node destroys it, and with it the handles it stored:
//! its children lose one owner each, which may destroy them in turn. The
//! graph does this with a work list, not by recursion, so a long chain costs
//! no stack.

use crate::cell::{BorrowConflict, BorrowState, MutableCell, ReadHandle, WriteHandle};
use crate::graph::laws::lemma_released_evolves;
use crate::graph::links::{
    extends, lemma_extends, lemma_push_leaf, lemma_set_link, lemma_store_child,
    lemma_strong_same, lemma_uncount_unlinked, lemma_uncounted_not_stored, unlinked,
};
use crate::graph::model::{
    alive, attach, can_attach, child_at, count_strong, count_weak, counts_sound, has_child,
    has_parent_link, is_stored, linked_from_dead, links_sound, live_strong, live_weak, node_at,
    parent_of, released, set_node, spared, strong_of, uncount_strong, uncount_weak, weak_of,
    GraphView, NodeView,
};
use crate::graph::sweep::{
    lemma_spare_die, lemma_spare_keep, lemma_spare_start, lemma_sweep_die, lemma_sweep_end,
    lemma_sweep_keep, lemma_sweep_start, lemma_uncount_strong, lemma_uncount_weak, sweeping,
};
use crate::shared::{evolves, strong_total, Heap, RecordView, StrongRef, WeakRef};
use vstd::prelude::*;

pub mod laws;
mod links;
pub mod model;
mod sweep;

verus! {

/// A value with a link up and links down.
pub struct Node {
    value: i32,
    parent: MutableCell<Option<WeakRef<Node>>>,
    children: MutableCell<Vec<StrongRef<Node>>>,
}

impl Node {
    spec fn view(&self) -> NodeView {
        NodeView {
            value: self.value,
            parent: self.parent.value(),
            parent_borrows: self.parent.borrows(),
            children: self.children.value()@,
            children_borrows: self.children.borrows(),
        }
    }

    spec fn wf(&self) -> bool {
        self.parent.wf() && self.children.wf()
    }

    /// Takes a node that has died apart into the handles it stored.
    fn into_links(self) -> (links: (Option<WeakRef<Node>>, Vec<StrongRef<Node>>))
        ensures
            links.0 == self.view().parent,
            links.1@ == self.view().children,
    {
        (self.parent.into_inner(), self.children.into_inner())
    }
}

/// A graph of nodes and the handles to them.
pub struct NodeGraph {
    heap: Heap<Node>,
}

impl View for NodeGraph {
    type V = GraphView;

    closed spec fn view(&self) -> GraphView {
        Seq::new(
            self.heap@.len(),
            |i: int|
                match self.heap@[i] {
                    Some(r) => Some(
                        RecordView {
                            value: match r.value {
                                Some(n) => Some(n.view()),
                                None => None,
                            },
                            strong: r.strong,
                            weak: r.weak,
                        },
                    ),
                    None => None,
                },
        )
    }
}

impl NodeGraph {
    /// The counters are right, the cells are consistent, every stored handle
    /// is counted and none is stored twice.
    pub closed spec fn wf(&self) -> bool {
        &&& self.heap.wf()
        &&& self.cells_wf()
        &&& links_sound(self@)
    }

    spec fn cells_wf(&self) -> bool {
        forall|slot: int|
            0 <= slot < self.heap@.len() ==> (#[trigger] self.heap@[slot] matches Some(r) ==> (
            r.value matches Some(n) ==> n.wf()))
    }

    /// `h` is a live handle in the hands of a user of the graph: counted, and
    /// not one of those the nodes store.
    pub open spec fn holds(&self, h: StrongRef<Node>) -> bool {
        live_strong(self@, h) && !is_stored(self@, h)
    }

    /// A graph without nodes.
    pub fn new() -> (graph: Self)
        ensures
            graph.wf(),
            graph@ == Seq::<Option<RecordView<NodeView>>>::empty(),
    {
        let graph = NodeGraph { heap: Heap::new() };
        assert(graph@ =~= Seq::<Option<RecordView<NodeView>>>::empty());
        graph
    }

    /// A new node without parent or children, in the next slot, and the one
    /// strong handle to it.
    pub fn create_node(&mut self, value: i32) -> (h: StrongRef<Node>)
        requires
            old(self).wf(),
        ensures
            final(self).wf(),
            h.slot() == old(self)@.len(),
            final(self)@ == old(self)@.push(Some(RecordView::fresh(NodeView::leaf(value), h.id()))),
            final(self).holds(h),
            forall|x: StrongRef<Node>| old(self).holds(x) ==> final(self).holds(x),
            evolves(old(self)@, final(self)@),
    {
        let ghost before = self@;
        let node = Node {
            value,
            parent: MutableCell::new(None),
            children: MutableCell::new(Vec::new()),
        };
        assert(node.view() == NodeView::leaf(value));
        let h = StrongRef::new(&mut self.heap, node);
        proof {
            assert(self@ =~= before.push(Some(RecordView::fresh(NodeView::leaf(value), h.id()))));
            lemma_push_leaf(before, value, h.id());
            assert(!is_stored(before, h)) by {
                if is_stored(before, h) {
                    let (slot, i) = choose|slot: int, i: int|
                        has_child(before, slot, i) && child_at(before, slot, i) == h;
                    assert(live_strong(before, child_at(before, slot, i)));
                }
            }
        }
        h
    }

    /// A second handle to the node behind `node`. The strong counter goes up
    /// by one.
    pub fn clone_ref(&mut self, node: &StrongRef<Node>) -> (h: StrongRef<Node>)
        requires
            old(self).wf(),
            old(self).holds(*node),
            strong_of(old(self)@, node.slot()).len() < usize::MAX,
        ensures
            final(self).wf(),
            h.slot() == node.slot(),
            !strong_of(old(self)@, node.slot()).contains(h.id()),
            final(self)@ == count_strong(old(self)@, h),
            final(self).holds(h),
            forall|x: StrongRef<Node>| old(self).holds(x) ==> final(self).holds(x),
            evolves(old(self)@, final(self)@),
    {
        let ghost before = self@;
        let h = node.clone(&mut self.heap);
        proof {
            assert(self@ =~= before.update(
                node.slot(),
                Some(before[node.slot()]->0.add_strong(h.id())),
            ));
            assert(extends(before, self@));
            lemma_extends(before, self@);
            lemma_uncounted_not_stored(before, h);
        }
        h
    }

    /// The parent of the node behind `node`, through a shared borrow of its
    /// parent link: a new strong handle to the parent if the node has one
    /// that is still alive, `None` if it has none or the parent is gone. The
    /// request is refused while the parent link is exclusively borrowed.
    /// The borrow is given back before the function returns, whatever the
    /// outcome.
    pub fn resolve_parent(&mut self, node: &StrongRef<Node>) -> (r: Result<
        Option<StrongRef<Node>>,
        BorrowConflict,
    >)
        requires
            old(self).wf(),
            old(self).holds(*node),
            node_at(old(self)@, node.slot()).parent_borrows.state != BorrowState::Shared(
                usize::MAX,
            ),
            parent_of(old(self)@, node.slot()) matches Some(p) ==> strong_of(old(self)@, p).len()
                < usize::MAX,
        ensures
            final(self).wf(),
            r is Err <==> node_at(old(self)@, node.slot()).parent_borrows.state
                == BorrowState::Exclusive,
            r matches Ok(found) ==> (found matches Some(h) ==> h.slot() == parent_of(
                old(self)@,
                node.slot(),
            )->0) && (found is Some <==> parent_of(old(self)@, node.slot()) is Some),
            r matches Ok(Some(h)) ==> {
                &&& !strong_of(old(self)@, h.slot()).contains(h.id())
                &&& final(self)@ == count_strong(old(self)@, h)
                &&& final(self).holds(h)
            },
            !(r matches Ok(Some(h))) ==> final(self)@ == old(self)@,
            forall|x: StrongRef<Node>| old(self).holds(x) ==> final(self).holds(x),
            evolves(old(self)@, final(self)@),
    {
        let ghost before = self@;
        let ghost slot = node.slot();
        let n = node.get_mut(&mut self.heap);
        let ghost node_before = *n;
        let handle = match n.parent.borrow() {
            Ok(handle) => handle,
            Err(e) => {
                assert(self@ =~= before);
                return Err(e);
            },
        };
        let link = match n.parent.get(&handle) {
            Some(w) => Some(w.alias()),
            None => None,
        };
        n.parent.release_read(handle);
        proof {
            node_before.parent.lemma_read_round_trip(handle.id());
            assert(n.view() == node_before.view());
        }
        assert(self@ =~= before);
        match link {
            Some(w) => {
                proof {
                    assert(node_at(before, slot).parent == Some(w));
                    assert(has_parent_link(before, slot));
                    assert(live_weak(before, w));
                    assert(self.heap.weak_handles(w.target()->0) == weak_of(
                        self@,
                        w.target()->0,
                    ));
                    assert(self.heap.strong_handles(w.target()->0) == strong_of(
                        self@,
                        w.target()->0,
                    ));
                    self.heap.lemma_counters(w.target()->0);
                }
                let found = w.upgrade(&mut self.heap);
                proof {
                    match found {
                        Some(ref h) => {
                            assert(self@ =~= before.update(
                                h.slot(),
                                Some(before[h.slot()]->0.add_strong(h.id())),
                            ));
                            assert(extends(before, self@));
                            lemma_extends(before, self@);
                            lemma_uncounted_not_stored(before, *h);
                        },
                        None => {
                            assert(self@ =~= before);
                        },
                    }
                }
                Ok(found)
            },
            None => Ok(None),
        }
    }

    /// In a well-formed graph the counts and the links are sound.
    pub proof fn lemma_counts_sound(&self)
        requires
            self.wf(),
        ensures
            counts_sound(self@),
            links_sound(self@),
    {
        self.lemma_heap_counts();
    }

    proof fn lemma_heap_counts(&self)
        requires
            self.heap.wf(),
        ensures
            counts_sound(self@),
    {
        assert forall|slot: int| 0 <= slot < self@.len() implies (#[trigger] self@[slot] matches Some(
            r,
        ) ==> {
            &&& r.strong.finite()
            &&& r.weak.finite()
            &&& r.value is Some <==> !r.strong.is_empty()
            &&& !r.strong.is_empty() || !r.weak.is_empty()
        }) by {
            self.heap.lemma_counters(slot);
        }
    }

    /// Makes the node behind `child` a child of the node behind `parent`: a
    /// new strong handle to the child is appended to the parent's children,
    /// and a new weak handle to the parent becomes the child's parent link,
    /// in place of the link it had, which is released. Both changes go
    /// through an exclusive borrow that is given back at once. If either of
    /// the two cells is borrowed, nothing is changed and the request is
    /// refused.
    pub fn attach_child(&mut self, parent: &StrongRef<Node>, child: &StrongRef<Node>) -> (r:
        Result<(), BorrowConflict>)
        requires
            old(self).wf(),
            old(self).holds(*parent),
            old(self).holds(*child),
            strong_of(old(self)@, child.slot()).len() < usize::MAX,
            weak_of(old(self)@, parent.slot()).len() < usize::MAX,
        ensures
            final(self).wf(),
            r is Ok <==> can_attach(old(self)@, parent.slot(), child.slot()),
            r is Err ==> final(self)@ == old(self)@,
            r is Ok ==> {
                let c = node_at(final(self)@, parent.slot()).children.last();
                let w = node_at(final(self)@, child.slot()).parent->0;
                &&& node_at(final(self)@, child.slot()).parent is Some
                &&& c.slot() == child.slot()
                &&& w.target() == Some(parent.slot())
                &&& !live_strong(old(self)@, c)
                &&& !live_weak(old(self)@, w)
                &&& final(self)@ == attach(old(self)@, parent.slot(), c, w)
            },
            forall|x: StrongRef<Node>| old(self).holds(x) ==> final(self).holds(x),
            evolves(old(self)@, final(self)@),
    {
        let ghost g0 = self@;
        let ghost p = parent.slot();
        let ghost ch = child.slot();
        proof {
            self.lemma_counts_sound();
        }
        let children_free = match parent.get(&self.heap).children.borrow_state() {
            BorrowState::Unborrowed => true,
            _ => false,
        };
        let link_free = match child.get(&self.heap).parent.borrow_state() {
            BorrowState::Unborrowed => true,
            _ => false,
        };
        if !children_free || !link_free {
            return Err(BorrowConflict);
        }
        // Count the two new handles.

        let c = child.clone(&mut self.heap);
        let ghost g1 = self@;
        proof {
            assert(g1 =~= count_strong(g0, c));
            assert(extends(g0, g1));
            lemma_extends(g0, g1);
            lemma_uncounted_not_stored(g0, c);
        }
        let w = parent.downgrade(&mut self.heap);
        let ghost g2 = self@;
        proof {
            assert(g2 =~= count_weak(g1, w));
            assert(extends(g1, g2));
            lemma_extends(g1, g2);
            assert(!live_weak(g0, w));
            assert(live_weak(g2, w));
            assert(unlinked(g2, w)) by {
                assert forall|s: int| #[trigger] has_parent_link(g2, s) implies node_at(
                    g2,
                    s,
                ).parent != Some(w) by {
                    assert(has_parent_link(g0, s));
                    assert(live_weak(g0, node_at(g0, s).parent->0));
                }
            }
        }
        // Store the child handle.

        let ghost c_spec = c;
        let pn = parent.get_mut(&mut self.heap);
        let ghost pn0 = *pn;
        match pn.children.borrow_mut() {
            Ok(handle) => {
                pn.children.get_mut(&handle).push(c);
                pn.children.release_write(handle);
                proof {
                    pn0.children.lemma_write_round_trip(handle.id());
                }
            },
            Err(_) => {},
        }
        let ghost g3 = self@;
        proof {
            let n = node_at(g2, p);
            assert(g3 =~= set_node(g2, p, NodeView { children: n.children.push(c_spec), ..n }));
            lemma_store_child(g2, p, c_spec);
        }
        // Replace the parent link.

        let ghost w_spec = w;
        let cn = child.get_mut(&mut self.heap);
        let ghost cn0 = *cn;
        let mut previous: Option<WeakRef<Node>> = None;
        match cn.parent.borrow_mut() {
            Ok(handle) => {
                previous = cn.parent.replace(&handle, Some(w));
                cn.parent.release_write(handle);
                proof {
                    cn0.parent.lemma_write_round_trip(handle.id());
                }
            },
            Err(_) => {},
        }
        let ghost g4 = self@;
        proof {
            let n = node_at(g3, ch);
            assert(g4 =~= set_node(g3, ch, NodeView { parent: Some(w_spec), ..n }));
            assert(unlinked(g3, w_spec)) by {
                assert forall|s: int| #[trigger] has_parent_link(g3, s) implies node_at(
                    g3,
                    s,
                ).parent != Some(w_spec) by {
                    assert(has_parent_link(g2, s));
                }
            }
            lemma_set_link(g3, ch, w_spec);
            assert(previous == node_at(g0, ch).parent);
        }
        // Release the link that was there.

        match previous {
            Some(link) => {
                proof {
                    assert(has_parent_link(g0, ch));
                    assert(live_weak(g0, link));
                    assert(live_weak(g4, link));
                    self.lemma_heap_counts();
                    lemma_uncount_unlinked(g4, link);
                }
                link.release(&mut self.heap);
                assert(self@ =~= uncount_weak(g4, link));
            },
            None => {},
        }
        Ok(())
    }

    /// Gives a strong handle up. If it was the last to its node, the node is
    /// destroyed: its parent link is released, and so is each handle to a
    /// child that it stored, which may destroy that child in turn, and so
    /// on. Every other handle in the hands of a user stays good, and so does
    /// the node behind it.
    pub fn release(&mut self, node: StrongRef<Node>)
        requires
            old(self).wf(),
            old(self).holds(node),
        ensures
            final(self).wf(),
            released(old(self)@, final(self)@, node),
            forall|x: StrongRef<Node>| old(self).holds(x) && x != node ==> final(self).holds(x),
            evolves(old(self)@, final(self)@),
    {
        let ghost pre = self@;
        let ghost h = node;
        let mut work: Vec<StrongRef<Node>> = Vec::new();
        work.push(node);
        proof {
            self.lemma_counts_sound();
            lemma_sweep_start(pre, h);
            lemma_spare_start(pre, h);
            assert(work@ =~= seq![h]);
        }
        while work.len() > 0
            invariant
                self.heap.wf(),
                self.cells_wf(),
                links_sound(pre),
                live_strong(pre, h),
                !is_stored(pre, h),
                sweeping(pre, self@, work@, h),
                spared(pre, self@, h),
            decreases strong_total(self@),
        {
            let ghost cur = self@;
            let ghost before = work@;
            let popped = work.pop();
            let x = match popped {
                Some(x) => x,
                None => vstd::pervasive::unreached(),
            };
            let ghost s = x.slot();
            proof {
                self.lemma_heap_counts();
                assert(before[before.len() - 1] == x);
                assert(before.contains(x));
                assert(live_strong(cur, x));
                lemma_uncount_strong(cur, x);
                assert(work@ =~= before.drop_last());
            }
            let freed = x.release(&mut self.heap);
            let ghost mid = self@;
            proof {
                assert(mid =~= uncount_strong(cur, x));
                let ids = strong_of(cur, s);
                if ids.remove(x.id()).len() == 0 {
                    assert(ids.remove(x.id()).is_empty());
                }
            }
            match freed {
                None => {
                    proof {
                        lemma_sweep_keep(pre, cur, mid, before, h);
                        lemma_spare_keep(pre, cur, mid, h);
                    }
                },
                Some(n) => {
                    let (link, mut kids) = n.into_links();
                    proof {
                        assert(alive(cur, s));
                        assert(n.view() == node_at(cur, s));
                        assert(node_at(cur, s) == node_at(pre, s));
                    }
                    match link {
                        Some(w) => {
                            proof {
                                assert(has_parent_link(pre, s));
                                assert(live_weak(pre, w));
                                if linked_from_dead(pre, cur, w) {
                                    let s2 = choose|s2: int| #[trigger]
                                        has_parent_link(pre, s2) && !alive(cur, s2) && node_at(
                                            pre,
                                            s2,
                                        ).parent == Some(w);
                                    assert(has_parent_link(pre, s2) && has_parent_link(pre, s));
                                }
                                assert(live_weak(cur, w));
                                assert(live_weak(mid, w));
                                lemma_uncount_weak(mid, w);
                            }
                            w.release(&mut self.heap);
                            assert(self@ =~= uncount_weak(mid, w));
                        },
                        None => {},
                    }
                    proof {
                        assert forall|y: StrongRef<Node>|
                            live_strong(cur, y) && y.slot() == s implies y == x by {
                            if y.id() != x.id() {
                                assert(strong_of(cur, s).remove(x.id()).contains(y.id()));
                            }
                            lemma_strong_same(x, y);
                        }
                        lemma_sweep_die(pre, cur, self@, before, h);
                        lemma_spare_die(pre, cur, self@, before, h);
                    }
                    work.append(&mut kids);
                },
            }
        }
        proof {
            assert(work@ =~= Seq::<StrongRef<Node>>::empty());
            lemma_sweep_end(pre, self@, h);
            self.heap.lemma_slots_fit();
            lemma_released_evolves(pre, self@, h);
        }
    }

    /// Requests a shared borrow of the children of the node behind `node`.
    /// It is refused exactly while they are exclusively borrowed; nothing
    /// changes then.
    pub fn borrow_children(&mut self, node: &StrongRef<Node>) -> (r: Result<
        ReadHandle,
        BorrowConflict,
    >)
        requires
            old(self).wf(),
            old(self).holds(*node),
            node_at(old(self)@, node.slot()).children_borrows.state != BorrowState::Shared(
                usize::MAX,
            ),
        ensures
            final(self).wf(),
            r is Ok <==> node_at(old(self)@, node.slot()).children_borrows.state
                != BorrowState::Exclusive,
            r is Err ==> final(self)@ == old(self)@,
            r matches Ok(handle) ==> {
                let n = node_at(old(self)@, node.slot());
                &&& !n.children_borrows.readers.contains(handle.id())
                &&& final(self)@ == set_node(
                    old(self)@,
                    node.slot(),
                    NodeView { children_borrows: n.children_borrows.lend_read(handle.id()), ..n },
                )
            },
            forall|x: StrongRef<Node>| old(self).holds(x) ==> final(self).holds(x),
    {
        let ghost before = self@;
        let n = node.get_mut(&mut self.heap);
        let r = n.children.borrow();
        proof {
            let v = node_at(before, node.slot());
            match r {
                Ok(ref handle) => {
                    assert(self@ =~= set_node(
                        before,
                        node.slot(),
                        NodeView {
                            children_borrows: v.children_borrows.lend_read(handle.id()),
                            ..v
                        },
                    ));
                },
                Err(_) => {
                    assert(self@ =~= before);
                },
            }
            assert(extends(before, self@));
            lemma_extends(before, self@);
        }
        r
    }

    /// Gives a shared borrow of the children of the node behind `node` back.
    pub fn release_children(&mut self, node: &StrongRef<Node>, handle: ReadHandle)
        requires
            old(self).wf(),
            old(self).holds(*node),
            node_at(old(self)@, node.slot()).children_borrows.readers.contains(handle.id()),
        ensures
            final(self).wf(),
            ({
                let n = node_at(old(self)@, node.slot());
                final(self)@ == set_node(
                    old(self)@,
                    node.slot(),
                    NodeView {
                        children_borrows: n.children_borrows.take_back_read(handle.id()),
                        ..n
                    },
                )
            }),
            forall|x: StrongRef<Node>| old(self).holds(x) ==> final(self).holds(x),
    {
        let ghost before = self@;
        let ghost id = handle.id();
        let n = node.get_mut(&mut self.heap);
        n.children.release_read(handle);
        proof {
            let v = node_at(before, node.slot());
            assert(self@ =~= set_node(
                before,
                node.slot(),
                NodeView { children_borrows: v.children_borrows.take_back_read(id), ..v },
            ));
            assert(extends(before, self@));
            lemma_extends(before, self@);
        }
    }

    /// Requests the exclusive borrow of the children of the node behind
    /// `node`. It is granted exactly when they are not borrowed at all;
    /// otherwise nothing changes. While it is held, no child can be attached
    /// to the node and its children cannot be read.
    pub fn borrow_children_mut(&mut self, node: &StrongRef<Node>) -> (r: Result<
        WriteHandle,
        BorrowConflict,
    >)
        requires
            old(self).wf(),
            old(self).holds(*node),
        ensures
            final(self).wf(),
            r is Ok <==> node_at(old(self)@, node.slot()).children_borrows.state
                == BorrowState::Unborrowed,
            r is Err ==> final(self)@ == old(self)@,
            r matches Ok(handle) ==> {
                let n = node_at(old(self)@, node.slot());
                final(self)@ == set_node(
                    old(self)@,
                    node.slot(),
                    NodeView { children_borrows: n.children_borrows.lend_write(handle.id()), ..n },
                )
            },
            forall|x: StrongRef<Node>| old(self).holds(x) ==> final(self).holds(x),
    {
        let ghost before = self@;
        let n = node.get_mut(&mut self.heap);
        let r = n.children.borrow_mut();
        proof {
            let v = node_at(before, node.slot());
            match r {
                Ok(ref handle) => {
                    assert(self@ =~= set_node(
                        before,
                        node.slot(),
                        NodeView {
                            children_borrows: v.children_borrows.lend_write(handle.id()),
                            ..v
                        },
                    ));
                },
                Err(_) => {
                    assert(self@ =~= before);
                },
            }
            assert(extends(before, self@));
            lemma_extends(before, self@);
        }
        r
    }

    /// Gives the exclusive borrow of the children of the node behind `node`
    /// back.
    pub fn release_children_mut(&mut self, node: &StrongRef<Node>, handle: WriteHandle)
        requires
            old(self).wf(),
            old(self).holds(*node),
            node_at(old(self)@, node.slot()).children_borrows.writer == Some(handle.id()),
        ensures
            final(self).wf(),
            ({
                let n = node_at(old(self)@, node.slot());
                final(self)@ == set_node(
                    old(self)@,
                    node.slot(),
                    NodeView { children_borrows: n.children_borrows.take_back_write(), ..n },
                )
            }),
            forall|x: StrongRef<Node>| old(self).holds(x) ==> final(self).holds(x),
    {
        let ghost before = self@;
        let n = node.get_mut(&mut self.heap);
        n.children.release_write(handle);
        proof {
            let v = node_at(before, node.slot());
            assert(self@ =~= set_node(
                before,
                node.slot(),
                NodeView { children_borrows: v.children_borrows.take_back_write(), ..v },
            ));
            assert(extends(before, self@));
            lemma_extends(before, self@);
        }
    }

    /// The number of children of the node behind `node`, read through a
    /// shared borrow of them.
    pub fn child_count(&self, node: &StrongRef<Node>, handle: &ReadHandle) -> (n: usize)
        requires
            self.wf(),
            self.holds(*node),
            node_at(self@, node.slot()).children_borrows.readers.contains(handle.id()),
        ensures
            n == node_at(self@, node.slot()).children.len(),
    {
        node.get(&self.heap).children.get(handle).len()
    }

    /// A new strong handle to the `i`-th child of the node behind `node`,
    /// read through a shared borrow of its children.
    pub fn child(&mut self, node: &StrongRef<Node>, handle: &ReadHandle, i: usize) -> (h:
        StrongRef<Node>)
        requires
            old(self).wf(),
            old(self).holds(*node),
            node_at(old(self)@, node.slot()).children_borrows.readers.contains(handle.id()),
            i < node_at(old(self)@, node.slot()).children.len(),
            strong_of(old(self)@, child_at(old(self)@, node.slot(), i as int).slot()).len()
                < usize::MAX,
        ensures
            final(self).wf(),
            h.slot() == child_at(old(self)@, node.slot(), i as int).slot(),
            !live_strong(old(self)@, h),
            final(self)@ == count_strong(old(self)@, h),
            final(self).holds(h),
            forall|x: StrongRef<Node>| old(self).holds(x) ==> final(self).holds(x),
            evolves(old(self)@, final(self)@),
    {
        let ghost before = self@;
        let stored = node.get(&self.heap).children.get(handle)[i].alias();
        proof {
            assert(has_child(before, node.slot(), i as int));
            assert(stored == child_at(before, node.slot(), i as int));
            assert(live_strong(before, stored));
        }
        let h = stored.clone(&mut self.heap);
        proof {
            assert(self@ =~= count_strong(before, h));
            assert(extends(before, self@));
            lemma_extends(before, self@);
            lemma_uncounted_not_stored(before, h);
        }
        h
    }

    /// Whether the node in `slot` is alive.
    pub fn is_alive(&self, slot: usize) -> (b: bool)
        requires
            self.wf(),
        ensures
            b == alive(self@, slot as int),
    {
        proof {
            self.heap.lemma_counters(slot as int);
            assert(strong_of(self@, slot as int) == self.heap.strong_handles(slot as int));
        }
        self.heap.strong_count_at(slot) > 0
    }

    /// The number of live strong handles to `slot`, stored ones included; 0
    /// where there is no record.
    pub fn strong_count_at(&self, slot: usize) -> (n: usize)
        requires
            self.wf(),
        ensures
            n == strong_of(self@, slot as int).len(),
    {
        proof {
            assert(strong_of(self@, slot as int) == self.heap.strong_handles(slot as int));
        }
        self.heap.strong_count_at(slot)
    }

    /// The number of live weak handles to `slot`; 0 where there is no
    /// record.
    pub fn weak_count_at(&self, slot: usize) -> (n: usize)
        requires
            self.wf(),
        ensures
            n == weak_of(self@, slot as int).len(),
    {
        proof {
            assert(weak_of(self@, slot as int) == self.heap.weak_handles(slot as int));
        }
        self.heap.weak_count_at(slot)
    }

    /// Whether `slot` still holds a record: whether any handle to it is
    /// live.
    pub fn has_record_at(&self, slot: usize) -> (b: bool)
        ensures
            b == (0 <= slot < self@.len() && self@[slot as int] is Some),
    {
        self.heap.has_record_at(slot)
    }

    /// The value of the node behind `node`.
    pub fn value(&self, node: &StrongRef<Node>) -> (v: i32)
        requires
            self.wf(),
            self.holds(*node),
        ensures
            alive(self@, node.slot()),
            v == node_at(self@, node.slot()).value,
    {
        node.get(&self.heap).value
    }

    /// The number of live strong handles to the node behind `node`, stored
    /// ones included.
    pub fn strong_count(&self, node: &StrongRef<Node>) -> (n: usize)
        requires
            self.wf(),
            self.holds(*node),
        ensures
            n == strong_of(self@, node.slot()).len(),
            n >= 1,
    {
        node.strong_count(&self.heap)
    }

    /// The number of live weak handles to the node behind `node`: the parent
    /// links that point to it.
    pub fn weak_count(&self, node: &StrongRef<Node>) -> (n: usize)
        requires
            self.wf(),
            self.holds(*node),
        ensures
            n == weak_of(self@, node.slot()).len(),
    {
        node.weak_count(&self.heap)
    }
}

} // verus!
