//! What a contract sees of a graph: its records by slot, each with the node
//! in it and the handles it counts, and what the operations make of that.

use crate::cell::{BorrowState, BorrowView};
use crate::graph::Node;
use crate::shared::{RecordView, StrongRef, WeakRef};
use vstd::prelude::*;

verus! {

/// What a contract sees of a node.
pub struct NodeView {
    /// The node's value.
    pub value: i32,
    /// The stored link to the parent, once there is one.
    pub parent: Option<WeakRef<Node>>,
    /// The lending of the cell that holds the parent link.
    pub parent_borrows: BorrowView,
    /// The stored handles to the children, in the order of attachment.
    pub children: Seq<StrongRef<Node>>,
    /// The lending of the cell that holds the children.
    pub children_borrows: BorrowView,
}

impl NodeView {
    /// A node without parent or children, with nothing lent.
    pub open spec fn leaf(value: i32) -> NodeView {
        NodeView {
            value,
            parent: None,
            parent_borrows: BorrowView::idle(),
            children: Seq::empty(),
            children_borrows: BorrowView::idle(),
        }
    }
}

/// The records of a graph, by slot.
pub type GraphView = Seq<Option<RecordView<NodeView>>>;

/// The node in `slot` is alive.
pub open spec fn alive(g: GraphView, slot: int) -> bool {
    0 <= slot < g.len() && g[slot] is Some && g[slot]->0.value is Some
}

/// The node in `slot`, where it is alive.
pub open spec fn node_at(g: GraphView, slot: int) -> NodeView {
    g[slot]->0.value->0
}

/// The serial numbers of the live strong handles to `slot`.
pub open spec fn strong_of(g: GraphView, slot: int) -> Set<nat> {
    if 0 <= slot < g.len() && g[slot] is Some {
        g[slot]->0.strong
    } else {
        Set::empty()
    }
}

/// The serial numbers of the live weak handles to `slot`.
pub open spec fn weak_of(g: GraphView, slot: int) -> Set<nat> {
    if 0 <= slot < g.len() && g[slot] is Some {
        g[slot]->0.weak
    } else {
        Set::empty()
    }
}

/// `h` is counted by the record it points to.
pub open spec fn live_strong(g: GraphView, h: StrongRef<Node>) -> bool {
    strong_of(g, h.slot()).contains(h.id())
}

/// `w` is counted by the record it points to. The empty handle is not.
pub open spec fn live_weak(g: GraphView, w: WeakRef<Node>) -> bool {
    w.target() is Some && weak_of(g, w.target()->0).contains(w.id())
}

/// The node in `slot` is alive and has an `i`-th child.
pub open spec fn has_child(g: GraphView, slot: int, i: int) -> bool {
    alive(g, slot) && 0 <= i < node_at(g, slot).children.len()
}

/// The stored handle to the `i`-th child of the node in `slot`.
pub open spec fn child_at(g: GraphView, slot: int, i: int) -> StrongRef<Node> {
    node_at(g, slot).children[i]
}

/// `h` is one of the handles that the nodes store.
pub open spec fn is_stored(g: GraphView, h: StrongRef<Node>) -> bool {
    exists|slot: int, i: int| has_child(g, slot, i) && child_at(g, slot, i) == h
}

/// The node in `slot` is alive and has a parent link.
pub open spec fn has_parent_link(g: GraphView, slot: int) -> bool {
    alive(g, slot) && node_at(g, slot).parent is Some
}

/// Every record has finitely many handles and at least one, and its node
/// is there exactly while a strong handle is.
pub open spec fn counts_sound(g: GraphView) -> bool {
    forall|slot: int|
        0 <= slot < g.len() ==> (#[trigger] g[slot] matches Some(r) ==> {
            &&& r.strong.finite()
            &&& r.weak.finite()
            &&& r.value is Some <==> !r.strong.is_empty()
            &&& !r.strong.is_empty() || !r.weak.is_empty()
        })
}

/// Every stored handle is counted, and no handle is stored twice.
pub open spec fn links_sound(g: GraphView) -> bool {
    &&& forall|slot: int, i: int| #[trigger]
        has_child(g, slot, i) ==> live_strong(g, child_at(g, slot, i))
    &&& forall|s1: int, i1: int, s2: int, i2: int|
        #![trigger has_child(g, s1, i1), has_child(g, s2, i2)]
        has_child(g, s1, i1) && has_child(g, s2, i2) && (s1 != s2 || i1 != i2) ==> child_at(
            g,
            s1,
            i1,
        ) != child_at(g, s2, i2)
    &&& forall|slot: int| #[trigger]
        has_parent_link(g, slot) ==> live_weak(g, node_at(g, slot).parent->0)
    &&& forall|s1: int, s2: int|
        #![trigger has_parent_link(g, s1), has_parent_link(g, s2)]
        has_parent_link(g, s1) && has_parent_link(g, s2) && s1 != s2 ==> node_at(g, s1).parent
            != node_at(g, s2).parent
}

/// `g` with `n` as the node in `slot`.
pub open spec fn set_node(g: GraphView, slot: int, n: NodeView) -> GraphView {
    g.update(slot, Some(g[slot]->0.with_value(n)))
}

/// `g` with strong handle `h` counted by its record.
pub open spec fn count_strong(g: GraphView, h: StrongRef<Node>) -> GraphView {
    g.update(h.slot(), Some(g[h.slot()]->0.add_strong(h.id())))
}

/// `g` with weak handle `w` counted by its record.
pub open spec fn count_weak(g: GraphView, w: WeakRef<Node>) -> GraphView {
    g.update(w.target()->0, Some(g[w.target()->0]->0.add_weak(w.id())))
}

/// `g` with weak handle `w` no longer counted; its record goes if `w` was
/// the last handle to it.
pub open spec fn uncount_weak(g: GraphView, w: WeakRef<Node>) -> GraphView {
    g.update(w.target()->0, g[w.target()->0]->0.drop_weak(w.id()))
}

/// What attaching does to a graph: the new handles `c` and `w` are counted,
/// `c` is appended to the children of the node in `parent`, `w` becomes the
/// parent link of the node that `c` points to, and the link that was there
/// before is released.
pub open spec fn attach(
    g: GraphView,
    parent: int,
    c: StrongRef<Node>,
    w: WeakRef<Node>,
) -> GraphView {
    let g2 = count_weak(count_strong(g, c), w);
    let pn = node_at(g2, parent);
    let g3 = set_node(g2, parent, NodeView { children: pn.children.push(c), ..pn });
    let cn = node_at(g3, c.slot());
    let g4 = set_node(g3, c.slot(), NodeView { parent: Some(w), ..cn });
    match node_at(g, c.slot()).parent {
        Some(previous) => uncount_weak(g4, previous),
        None => g4,
    }
}

/// Attaching a child to the node in `parent` would be granted: neither the
/// children of that node nor the parent link of the node in `child` is
/// borrowed.
pub open spec fn can_attach(g: GraphView, parent: int, child: int) -> bool {
    &&& node_at(g, parent).children_borrows.state == BorrowState::Unborrowed
    &&& node_at(g, child).parent_borrows.state == BorrowState::Unborrowed
}

/// The node that the node in `slot` would name as its parent: the target of
/// its parent link, if that node is still alive.
pub open spec fn parent_of(g: GraphView, slot: int) -> Option<int> {
    if has_parent_link(g, slot) {
        match node_at(g, slot).parent->0.target() {
            Some(p) => if alive(g, p) {
                Some(p)
            } else {
                None
            },
            None => None,
        }
    } else {
        None
    }
}

/// `x` was stored in a node of `pre` that is not alive in `post`.
pub open spec fn stored_in_dead(pre: GraphView, post: GraphView, x: StrongRef<Node>) -> bool {
    exists|slot: int, i: int| #[trigger]
        has_child(pre, slot, i) && !alive(post, slot) && child_at(pre, slot, i) == x
}

/// `w` was the parent link of a node of `pre` that is not alive in `post`.
pub open spec fn linked_from_dead(pre: GraphView, post: GraphView, w: WeakRef<Node>) -> bool {
    exists|slot: int| #[trigger]
        has_parent_link(pre, slot) && !alive(post, slot) && node_at(pre, slot).parent == Some(w)
}

/// `x` is a strong handle to the node in `slot`, other than `h`, that only
/// nodes in `keep` store, if any does.
pub open spec fn supports(
    pre: GraphView,
    h: StrongRef<Node>,
    keep: Set<int>,
    slot: int,
    x: StrongRef<Node>,
) -> bool {
    &&& live_strong(pre, x)
    &&& x.slot() == slot
    &&& x != h
    &&& forall|d: int, i: int| #[trigger]
        has_child(pre, d, i) && child_at(pre, d, i) == x ==> keep.contains(d)
}

/// The nodes in `keep` keep each other alive without `h`: each is alive and
/// has a strong handle other than `h` that is in the hands of a user or
/// stored in a node in `keep`.
pub open spec fn sustained(pre: GraphView, h: StrongRef<Node>, keep: Set<int>) -> bool {
    forall|slot: int|
        keep.contains(slot) ==> alive(pre, slot) && exists|x: StrongRef<Node>| #[trigger]
            supports(pre, h, keep, slot, x)
}

/// No node dies that could do without `h`: whatever set of nodes keeps
/// itself alive without it is alive in `post`.
pub open spec fn spared(pre: GraphView, post: GraphView, h: StrongRef<Node>) -> bool {
    forall|keep: Set<int>, slot: int|
        #![trigger sustained(pre, h, keep), alive(post, slot)]
        sustained(pre, h, keep) && keep.contains(slot) ==> alive(post, slot)
}

/// What releasing strong handle `h` makes of a graph. No node is new, and
/// each that is still alive is as it was. A strong handle is still counted
/// exactly if it was, is not `h` and was not stored in a node that died; a
/// weak handle, exactly if it was and was not the parent link of a node that
/// died. With sound counts the nodes that no strong handle is left to have
/// died, and no others have: not those that keep each other alive in a
/// cycle that `h` was not needed for.
pub open spec fn released(pre: GraphView, post: GraphView, h: StrongRef<Node>) -> bool {
    &&& spared(pre, post, h)
    &&& post.len() == pre.len()
    &&& forall|slot: int| #[trigger]
        alive(post, slot) ==> alive(pre, slot) && node_at(post, slot) == node_at(pre, slot)
    &&& forall|x: StrongRef<Node>|
        #![trigger live_strong(post, x)]
        #![trigger live_strong(pre, x)]
        live_strong(post, x) <==> live_strong(pre, x) && x != h && !stored_in_dead(pre, post, x)
    &&& forall|w: WeakRef<Node>|
        #![trigger live_weak(post, w)]
        #![trigger live_weak(pre, w)]
        live_weak(post, w) <==> live_weak(pre, w) && !linked_from_dead(pre, post, w)
}

/// `g` with strong handle `h` no longer counted; the node goes with the last
/// strong handle, the record with the last handle of either kind.
pub open spec fn uncount_strong(g: GraphView, h: StrongRef<Node>) -> GraphView {
    g.update(h.slot(), g[h.slot()]->0.drop_strong(h.id()))
}

} // verus!
