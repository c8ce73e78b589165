//! Why the links of a graph stay sound when handles are counted, stored and
//! released one at a time.

use crate::graph::model::{
    alive, child_at, counts_sound, has_child, has_parent_link,
    is_stored, links_sound, live_strong, live_weak, node_at, set_node, strong_of, uncount_weak,
    weak_of, GraphView, NodeView,
};
use crate::graph::Node;
use crate::shared::{RecordView, StrongRef, WeakRef};
use vstd::prelude::*;

verus! {

/// Adding a leaf in a new slot keeps the links sound and stores nothing new.
pub(crate) proof fn lemma_push_leaf(g: GraphView, value: i32, id: nat)
    requires
        links_sound(g),
    ensures
        links_sound(g.push(Some(RecordView::fresh(NodeView::leaf(value), id)))),
        forall|x: StrongRef<Node>|
            is_stored(g.push(Some(RecordView::fresh(NodeView::leaf(value), id))), x) ==> is_stored(
                g,
                x,
            ),
        forall|x: StrongRef<Node>|
            live_strong(g, x) ==> x.slot() < g.len() && live_strong(
                g.push(Some(RecordView::fresh(NodeView::leaf(value), id))),
                x,
            ),
{
    let g2 = g.push(Some(RecordView::fresh(NodeView::leaf(value), id)));
    assert forall|slot: int, i: int| has_child(g2, slot, i) implies has_child(g, slot, i)
        && child_at(g2, slot, i) == child_at(g, slot, i) by {
        if slot == g.len() {
            assert(node_at(g2, slot) == NodeView::leaf(value));
        }
    }
    assert forall|slot: int| has_parent_link(g2, slot) implies has_parent_link(g, slot) && node_at(
        g2,
        slot,
    ) == node_at(g, slot) by {
        if slot == g.len() {
            assert(node_at(g2, slot) == NodeView::leaf(value));
        }
    }
    assert forall|x: StrongRef<Node>| live_strong(g, x) implies x.slot() < g.len() && live_strong(
        g2,
        x,
    ) by {}
    assert forall|slot: int, i: int| #[trigger] has_child(g2, slot, i) implies live_strong(
        g2,
        child_at(g2, slot, i),
    ) by {
        assert(has_child(g, slot, i));
    }
    assert forall|slot: int| #[trigger] has_parent_link(g2, slot) implies live_weak(
        g2,
        node_at(g2, slot).parent->0,
    ) by {
        assert(has_parent_link(g, slot));
    }
    assert forall|x: StrongRef<Node>| is_stored(g2, x) implies is_stored(g, x) by {
        let (slot, i) = choose|slot: int, i: int| has_child(g2, slot, i) && child_at(g2, slot, i) == x;
        assert(has_child(g, slot, i) && child_at(g, slot, i) == x);
    }
}

/// `post` has the nodes of `pre`, each with the links it had, and counts
/// every handle that `pre` counts.
pub(crate) open spec fn extends(pre: GraphView, post: GraphView) -> bool {
    &&& pre.len() == post.len()
    &&& forall|slot: int|
        0 <= slot < pre.len() ==> {
            &&& #[trigger] alive(pre, slot) == alive(post, slot)
            &&& alive(pre, slot) ==> node_at(pre, slot).children == node_at(post, slot).children
            &&& alive(pre, slot) ==> node_at(pre, slot).parent == node_at(post, slot).parent
        }
    &&& forall|slot: int, id: nat|
        strong_of(pre, slot).contains(id) ==> #[trigger] strong_of(post, slot).contains(id)
    &&& forall|slot: int, id: nat|
        weak_of(pre, slot).contains(id) ==> #[trigger] weak_of(post, slot).contains(id)
}

/// More handles counted, and the nodes as they were: the links stay sound
/// and the same handles are stored.
pub(crate) proof fn lemma_extends(pre: GraphView, post: GraphView)
    requires
        links_sound(pre),
        extends(pre, post),
    ensures
        links_sound(post),
        forall|x: StrongRef<Node>| is_stored(post, x) <==> is_stored(pre, x),
        forall|x: StrongRef<Node>| live_strong(pre, x) ==> live_strong(post, x),
{
    assert forall|slot: int, i: int| has_child(post, slot, i) == has_child(pre, slot, i) && (
    has_child(pre, slot, i) ==> child_at(post, slot, i) == child_at(pre, slot, i)) by {
        if 0 <= slot < pre.len() {
            assert(alive(pre, slot) == alive(post, slot));
        }
    }
    assert forall|slot: int|
        has_parent_link(post, slot) == has_parent_link(pre, slot) && (has_parent_link(pre, slot)
            ==> node_at(post, slot).parent == node_at(pre, slot).parent) by {
        if 0 <= slot < pre.len() {
            assert(alive(pre, slot) == alive(post, slot));
        }
    }
    assert forall|x: StrongRef<Node>| live_strong(pre, x) implies live_strong(post, x) by {
        assert(strong_of(post, x.slot()).contains(x.id()));
    }
    assert forall|slot: int, i: int| #[trigger] has_child(post, slot, i) implies live_strong(
        post,
        child_at(post, slot, i),
    ) by {
        assert(has_child(pre, slot, i));
    }
    assert forall|slot: int| #[trigger] has_parent_link(post, slot) implies live_weak(
        post,
        node_at(post, slot).parent->0,
    ) by {
        assert(has_parent_link(pre, slot));
        let w = node_at(pre, slot).parent->0;
        assert(weak_of(post, w.target()->0).contains(w.id()));
    }
    assert forall|x: StrongRef<Node>| is_stored(post, x) <==> is_stored(pre, x) by {
        if is_stored(post, x) {
            let (slot, i) = choose|slot: int, i: int|
                has_child(post, slot, i) && child_at(post, slot, i) == x;
            assert(has_child(pre, slot, i) && child_at(pre, slot, i) == x);
        }
        if is_stored(pre, x) {
            let (slot, i) = choose|slot: int, i: int|
                has_child(pre, slot, i) && child_at(pre, slot, i) == x;
            assert(has_child(post, slot, i) && child_at(post, slot, i) == x);
        }
    }
}

/// A handle that its record does not count is not stored.
pub(crate) proof fn lemma_uncounted_not_stored(g: GraphView, x: StrongRef<Node>)
    requires
        links_sound(g),
        !live_strong(g, x),
    ensures
        !is_stored(g, x),
{
    if is_stored(g, x) {
        let (slot, i) = choose|slot: int, i: int| has_child(g, slot, i) && child_at(g, slot, i) == x;
        assert(live_strong(g, child_at(g, slot, i)));
    }
}

/// Storing a counted handle that is not stored yet keeps the links sound.
pub(crate) proof fn lemma_store_child(g: GraphView, slot: int, c: StrongRef<Node>)
    requires
        links_sound(g),
        alive(g, slot),
        live_strong(g, c),
        !is_stored(g, c),
    ensures
        ({
            let n = node_at(g, slot);
            let post = set_node(g, slot, NodeView { children: n.children.push(c), ..n });
            &&& links_sound(post)
            &&& forall|x: StrongRef<Node>| is_stored(post, x) <==> is_stored(g, x) || x == c
            &&& forall|x: StrongRef<Node>| live_strong(post, x) <==> live_strong(g, x)
            &&& forall|x: WeakRef<Node>| live_weak(post, x) <==> live_weak(g, x)
            &&& forall|s: int| has_parent_link(post, s) <==> has_parent_link(g, s)
            &&& forall|s: int| alive(post, s) ==> node_at(post, s).parent == node_at(g, s).parent
        }),
{
    let n = node_at(g, slot);
    let last = n.children.len() as int;
    let post = set_node(g, slot, NodeView { children: n.children.push(c), ..n });
    assert forall|s: int, i: int| has_child(post, s, i) implies if s == slot && i == last {
        child_at(post, s, i) == c
    } else {
        has_child(g, s, i) && child_at(post, s, i) == child_at(g, s, i)
    } by {}
    assert forall|s: int, i: int| has_child(g, s, i) implies has_child(post, s, i) && child_at(
        post,
        s,
        i,
    ) == child_at(g, s, i) by {}
    assert forall|s: int| strong_of(post, s) == strong_of(g, s) && weak_of(post, s) == weak_of(
        g,
        s,
    ) by {}
    assert forall|s: int|
        has_parent_link(post, s) == has_parent_link(g, s) && (alive(post, s) ==> node_at(
            post,
            s,
        ).parent == node_at(g, s).parent) by {}
    assert forall|s: int, i: int| #[trigger] has_child(post, s, i) implies live_strong(
        post,
        child_at(post, s, i),
    ) by {
        if !(s == slot && i == last) {
            assert(has_child(g, s, i));
        }
    }
    assert forall|s1: int, i1: int, s2: int, i2: int|
        #![trigger has_child(post, s1, i1), has_child(post, s2, i2)]
        has_child(post, s1, i1) && has_child(post, s2, i2) && (s1 != s2 || i1 != i2)
            implies child_at(post, s1, i1) != child_at(post, s2, i2) by {
        let first_new = s1 == slot && i1 == last;
        let second_new = s2 == slot && i2 == last;
        if !first_new {
            assert(has_child(g, s1, i1));
        }
        if !second_new {
            assert(has_child(g, s2, i2));
        }
    }
    assert forall|s: int| #[trigger] has_parent_link(post, s) implies live_weak(
        post,
        node_at(post, s).parent->0,
    ) by {
        assert(has_parent_link(g, s));
    }
    assert forall|s1: int, s2: int|
        #![trigger has_parent_link(post, s1), has_parent_link(post, s2)]
        has_parent_link(post, s1) && has_parent_link(post, s2) && s1 != s2 implies node_at(
            post,
            s1,
        ).parent != node_at(post, s2).parent by {
        assert(has_parent_link(g, s1) && has_parent_link(g, s2));
    }
    assert forall|x: StrongRef<Node>| is_stored(post, x) <==> is_stored(g, x) || x == c by {
        if is_stored(post, x) {
            let (s, i) = choose|s: int, i: int| has_child(post, s, i) && child_at(post, s, i) == x;
            if !(s == slot && i == last) {
                assert(has_child(g, s, i) && child_at(g, s, i) == x);
            }
        }
        if is_stored(g, x) {
            let (s, i) = choose|s: int, i: int| has_child(g, s, i) && child_at(g, s, i) == x;
            assert(has_child(post, s, i) && child_at(post, s, i) == x);
        }
        if x == c {
            assert(has_child(post, slot, last) && child_at(post, slot, last) == x);
        }
    }
}

/// No node has `w` as its parent link.
pub(crate) open spec fn unlinked(g: GraphView, w: WeakRef<Node>) -> bool {
    forall|s: int| #[trigger] has_parent_link(g, s) ==> node_at(g, s).parent != Some(w)
}

/// Making a counted weak handle that no node stores the parent link of a
/// node keeps the links sound; the link it replaces is then stored nowhere.
pub(crate) proof fn lemma_set_link(g: GraphView, slot: int, w: WeakRef<Node>)
    requires
        links_sound(g),
        alive(g, slot),
        live_weak(g, w),
        unlinked(g, w),
    ensures
        ({
            let n = node_at(g, slot);
            let post = set_node(g, slot, NodeView { parent: Some(w), ..n });
            &&& links_sound(post)
            &&& forall|x: StrongRef<Node>| is_stored(post, x) <==> is_stored(g, x)
            &&& forall|x: StrongRef<Node>| live_strong(post, x) <==> live_strong(g, x)
            &&& forall|x: WeakRef<Node>| live_weak(post, x) <==> live_weak(g, x)
            &&& n.parent matches Some(previous) ==> unlinked(post, previous)
        }),
{
    let n = node_at(g, slot);
    let post = set_node(g, slot, NodeView { parent: Some(w), ..n });
    assert forall|s: int, i: int| has_child(post, s, i) == has_child(g, s, i) && (has_child(
        g,
        s,
        i,
    ) ==> child_at(post, s, i) == child_at(g, s, i)) by {}
    assert forall|s: int| strong_of(post, s) == strong_of(g, s) && weak_of(post, s) == weak_of(
        g,
        s,
    ) by {}
    assert forall|s: int| has_parent_link(post, s) implies if s == slot {
        node_at(post, s).parent == Some(w)
    } else {
        has_parent_link(g, s) && node_at(post, s).parent == node_at(g, s).parent
    } by {}
    assert forall|s: int, i: int| #[trigger] has_child(post, s, i) implies live_strong(
        post,
        child_at(post, s, i),
    ) by {
        assert(has_child(g, s, i));
    }
    assert forall|s1: int, i1: int, s2: int, i2: int|
        #![trigger has_child(post, s1, i1), has_child(post, s2, i2)]
        has_child(post, s1, i1) && has_child(post, s2, i2) && (s1 != s2 || i1 != i2)
            implies child_at(post, s1, i1) != child_at(post, s2, i2) by {
        assert(has_child(g, s1, i1) && has_child(g, s2, i2));
    }
    assert forall|s: int| #[trigger] has_parent_link(post, s) implies live_weak(
        post,
        node_at(post, s).parent->0,
    ) by {
        if s != slot {
            assert(has_parent_link(g, s));
        }
    }
    assert forall|s1: int, s2: int|
        #![trigger has_parent_link(post, s1), has_parent_link(post, s2)]
        has_parent_link(post, s1) && has_parent_link(post, s2) && s1 != s2 implies node_at(
            post,
            s1,
        ).parent != node_at(post, s2).parent by {
        if s1 != slot {
            assert(has_parent_link(g, s1));
        }
        if s2 != slot {
            assert(has_parent_link(g, s2));
        }
    }
    assert forall|x: StrongRef<Node>| is_stored(post, x) <==> is_stored(g, x) by {
        if is_stored(post, x) {
            let (s, i) = choose|s: int, i: int| has_child(post, s, i) && child_at(post, s, i) == x;
            assert(has_child(g, s, i) && child_at(g, s, i) == x);
        }
        if is_stored(g, x) {
            let (s, i) = choose|s: int, i: int| has_child(g, s, i) && child_at(g, s, i) == x;
            assert(has_child(post, s, i) && child_at(post, s, i) == x);
        }
    }
    if n.parent is Some {
        let previous = n.parent->0;
        assert(has_parent_link(g, slot));
        assert forall|s: int| #[trigger] has_parent_link(post, s) implies node_at(post, s).parent
            != Some(previous) by {
            if s != slot {
                assert(has_parent_link(g, s));
            }
        }
    }
}

/// Releasing a counted weak handle that no node stores keeps the links
/// sound.
pub(crate) proof fn lemma_uncount_unlinked(g: GraphView, w: WeakRef<Node>)
    requires
        counts_sound(g),
        links_sound(g),
        live_weak(g, w),
        unlinked(g, w),
    ensures
        counts_sound(uncount_weak(g, w)),
        links_sound(uncount_weak(g, w)),
        forall|x: StrongRef<Node>| is_stored(uncount_weak(g, w), x) <==> is_stored(g, x),
        forall|x: StrongRef<Node>| live_strong(uncount_weak(g, w), x) <==> live_strong(g, x),
{
    let post = uncount_weak(g, w);
    let t = w.target()->0;
    assert(g[t] is Some);
    assert forall|s: int| alive(post, s) == alive(g, s) && (alive(g, s) ==> node_at(post, s)
        == node_at(g, s)) by {
        if s == t {
            assert(g[s] is Some);
        }
    }
    assert forall|s: int| strong_of(post, s) == strong_of(g, s) by {
        if s == t {
            assert(g[s] is Some);
        }
    }
    assert forall|s: int, i: int| has_child(post, s, i) == has_child(g, s, i) && (has_child(
        g,
        s,
        i,
    ) ==> child_at(post, s, i) == child_at(g, s, i)) by {}
    assert forall|s: int|
        has_parent_link(post, s) == has_parent_link(g, s) && (has_parent_link(g, s) ==> node_at(
            post,
            s,
        ).parent == node_at(g, s).parent) by {}
    assert forall|s: int, i: int| #[trigger] has_child(post, s, i) implies live_strong(
        post,
        child_at(post, s, i),
    ) by {
        assert(has_child(g, s, i));
    }
    assert forall|s1: int, i1: int, s2: int, i2: int|
        #![trigger has_child(post, s1, i1), has_child(post, s2, i2)]
        has_child(post, s1, i1) && has_child(post, s2, i2) && (s1 != s2 || i1 != i2)
            implies child_at(post, s1, i1) != child_at(post, s2, i2) by {
        assert(has_child(g, s1, i1) && has_child(g, s2, i2));
    }
    assert forall|s: int| #[trigger] has_parent_link(post, s) implies live_weak(
        post,
        node_at(post, s).parent->0,
    ) by {
        assert(has_parent_link(g, s));
        let l = node_at(g, s).parent->0;
        assert(live_weak(g, l));
        assert(l != w);
        if l.target() == w.target() && l.id() == w.id() {
            lemma_weak_same(l, w);
        }
    }
    assert forall|s1: int, s2: int|
        #![trigger has_parent_link(post, s1), has_parent_link(post, s2)]
        has_parent_link(post, s1) && has_parent_link(post, s2) && s1 != s2 implies node_at(
            post,
            s1,
        ).parent != node_at(post, s2).parent by {
        assert(has_parent_link(g, s1) && has_parent_link(g, s2));
    }
    assert forall|x: StrongRef<Node>| is_stored(post, x) <==> is_stored(g, x) by {
        if is_stored(post, x) {
            let (s, i) = choose|s: int, i: int| has_child(post, s, i) && child_at(post, s, i) == x;
            assert(has_child(g, s, i) && child_at(g, s, i) == x);
        }
        if is_stored(g, x) {
            let (s, i) = choose|s: int, i: int| has_child(g, s, i) && child_at(g, s, i) == x;
            assert(has_child(post, s, i) && child_at(post, s, i) == x);
        }
    }
    assert forall|s: int| 0 <= s < post.len() implies (#[trigger] post[s] matches Some(r) ==> {
        &&& r.strong.finite()
        &&& r.weak.finite()
        &&& r.value is Some <==> !r.strong.is_empty()
        &&& !r.strong.is_empty() || !r.weak.is_empty()
    }) by {
        assert(g[s] is Some ==> g[s]->0.strong.finite());
    }
}

/// Two weak handles with the same target and number are the same handle.
pub(crate) proof fn lemma_weak_same(a: WeakRef<Node>, b: WeakRef<Node>)
    requires
        a.target() == b.target(),
        a.id() == b.id(),
    ensures
        a == b,
{
    WeakRef::lemma_same(a, b);
}

/// Two strong handles with the same slot and number are the same handle.
pub(crate) proof fn lemma_strong_same(a: StrongRef<Node>, b: StrongRef<Node>)
    requires
        a.slot() == b.slot(),
        a.id() == b.id(),
    ensures
        a == b,
{
    StrongRef::lemma_same(a, b);
}

} // verus!
