//! What follows from the contracts of the graph: what a release takes and
//! what it spares, and what an attached child finds.

use crate::graph::links::lemma_strong_same;
use crate::graph::model::{
    alive, attach, child_at, count_strong, count_weak, counts_sound, has_child, has_parent_link,
    is_stored, linked_from_dead, links_sound, live_strong, live_weak, node_at, parent_of, released,
    set_node, stored_in_dead, strong_of, supports, sustained, uncount_strong, uncount_weak,
    weak_of, GraphView, NodeView,
};
use crate::graph::Node;
use crate::shared::{dead_at, evolves, StrongRef, WeakRef};
use vstd::prelude::*;

verus! {

/// After a release, a record counts a strong handle exactly if it did
/// before, the handle is not the released one, and no node that died stored
/// it.
pub proof fn lemma_released_strong(
    pre: GraphView,
    post: GraphView,
    h: StrongRef<Node>,
    slot: int,
    id: nat,
)
    requires
        released(pre, post, h),
        0 <= slot <= usize::MAX,
    ensures
        strong_of(post, slot).contains(id) <==> strong_of(pre, slot).contains(id)
            && StrongRef::<Node>::at(slot, id) != h && !stored_in_dead(
            pre,
            post,
            StrongRef::<Node>::at(slot, id),
        ),
{
    let x = StrongRef::<Node>::at(slot, id);
    StrongRef::<Node>::lemma_at(slot, id);
    assert(live_strong(post, x) <==> strong_of(post, slot).contains(id));
    assert(live_strong(pre, x) <==> strong_of(pre, slot).contains(id));
}

/// After a release, a record counts a weak handle exactly if it did before
/// and the handle was not the parent link of a node that died.
pub proof fn lemma_released_weak(
    pre: GraphView,
    post: GraphView,
    h: StrongRef<Node>,
    slot: int,
    id: nat,
)
    requires
        released(pre, post, h),
        0 <= slot <= usize::MAX,
    ensures
        weak_of(post, slot).contains(id) <==> weak_of(pre, slot).contains(id)
            && !linked_from_dead(pre, post, WeakRef::<Node>::to(slot, id)),
{
    let w = WeakRef::<Node>::to(slot, id);
    WeakRef::<Node>::lemma_to(slot, id);
    assert(live_weak(post, w) <==> weak_of(post, slot).contains(id));
    assert(live_weak(pre, w) <==> weak_of(pre, slot).contains(id));
}

/// A release lets no slot go and brings no dead node back.
pub proof fn lemma_released_evolves(pre: GraphView, post: GraphView, h: StrongRef<Node>)
    requires
        released(pre, post, h),
        pre.len() <= usize::MAX,
    ensures
        evolves(pre, post),
{
    assert forall|slot: int|
        0 <= slot < pre.len() && dead_at(pre, slot) implies dead_at(
        post,
        slot,
    ) by {
        if post[slot] is Some && !post[slot]->0.strong.is_empty() {
            let id = choose|id: nat| post[slot]->0.strong.contains(id);
            lemma_released_strong(pre, post, h, slot, id);
            assert(strong_of(post, slot).contains(id));
        }
    }
}

/// The nodes that are alive after a release keep each other alive without
/// the released handle.
proof fn lemma_survivors_sustained(pre: GraphView, post: GraphView, h: StrongRef<Node>)
    requires
        counts_sound(post),
        released(pre, post, h),
        pre.len() <= usize::MAX,
    ensures
        sustained(pre, h, Set::<int>::new(|s: int| alive(post, s))),
{
    let keep = Set::<int>::new(|s: int| alive(post, s));
    assert forall|slot: int| keep.contains(slot) implies alive(pre, slot) && exists|
        x: StrongRef<Node>,
    | #[trigger] supports(pre, h, keep, slot, x) by {
        assert(alive(post, slot));
        assert(post[slot] is Some);
        let id = post[slot]->0.strong.choose();
        assert(post[slot]->0.strong.contains(id));
        let x = StrongRef::<Node>::at(slot, id);
        StrongRef::<Node>::lemma_at(slot, id);
        assert(live_strong(post, x));
        assert forall|d: int, i: int| #[trigger]
            has_child(pre, d, i) && child_at(pre, d, i) == x implies keep.contains(d) by {
            if !alive(post, d) {
                assert(has_child(pre, d, i) && !alive(post, d) && child_at(pre, d, i) == x);
                assert(stored_in_dead(pre, post, x));
            }
        }
        assert(supports(pre, h, keep, slot, x));
    }
}

/// The contract of a release leaves nothing open: two graphs with sound
/// counts that both are what releasing `h` makes of `pre` are the same
/// graph.
pub proof fn lemma_released_is_exact(
    pre: GraphView,
    first: GraphView,
    second: GraphView,
    h: StrongRef<Node>,
)
    requires
        counts_sound(first),
        counts_sound(second),
        released(pre, first, h),
        released(pre, second, h),
        pre.len() <= usize::MAX,
    ensures
        first == second,
{
    lemma_survivors_sustained(pre, first, h);
    lemma_survivors_sustained(pre, second, h);
    let kept_first = Set::<int>::new(|s: int| alive(first, s));
    let kept_second = Set::<int>::new(|s: int| alive(second, s));
    assert forall|slot: int| alive(first, slot) == alive(second, slot) by {
        if alive(first, slot) {
            assert(kept_first.contains(slot));
            assert(alive(second, slot));
        }
        if alive(second, slot) {
            assert(kept_second.contains(slot));
            assert(alive(first, slot));
        }
    }
    assert forall|x: StrongRef<Node>|
        stored_in_dead(pre, first, x) == stored_in_dead(pre, second, x) by {
        if stored_in_dead(pre, first, x) {
            let (s, i) = choose|s: int, i: int| #[trigger]
                has_child(pre, s, i) && !alive(first, s) && child_at(pre, s, i) == x;
            assert(alive(first, s) == alive(second, s));
            assert(has_child(pre, s, i) && !alive(second, s) && child_at(pre, s, i) == x);
        }
        if stored_in_dead(pre, second, x) {
            let (s, i) = choose|s: int, i: int| #[trigger]
                has_child(pre, s, i) && !alive(second, s) && child_at(pre, s, i) == x;
            assert(alive(first, s) == alive(second, s));
            assert(has_child(pre, s, i) && !alive(first, s) && child_at(pre, s, i) == x);
        }
    }
    assert forall|w: WeakRef<Node>|
        linked_from_dead(pre, first, w) == linked_from_dead(pre, second, w) by {
        if linked_from_dead(pre, first, w) {
            let s = choose|s: int| #[trigger]
                has_parent_link(pre, s) && !alive(first, s) && node_at(pre, s).parent == Some(w);
            assert(alive(first, s) == alive(second, s));
            assert(has_parent_link(pre, s) && !alive(second, s));
        }
        if linked_from_dead(pre, second, w) {
            let s = choose|s: int| #[trigger]
                has_parent_link(pre, s) && !alive(second, s) && node_at(pre, s).parent == Some(
                    w,
                );
            assert(alive(first, s) == alive(second, s));
            assert(has_parent_link(pre, s) && !alive(first, s));
        }
    }
    assert forall|slot: int| 0 <= slot < pre.len() implies first[slot] == second[slot] by {
        assert forall|id: nat|
            strong_of(first, slot).contains(id) <==> strong_of(second, slot).contains(id) by {
            lemma_released_strong(pre, first, h, slot, id);
            lemma_released_strong(pre, second, h, slot, id);
        }
        assert forall|id: nat|
            weak_of(first, slot).contains(id) <==> weak_of(second, slot).contains(id) by {
            lemma_released_weak(pre, first, h, slot, id);
            lemma_released_weak(pre, second, h, slot, id);
        }
        assert(strong_of(first, slot) =~= strong_of(second, slot));
        assert(weak_of(first, slot) =~= weak_of(second, slot));
        lemma_no_leak(first, slot);
        lemma_no_leak(second, slot);
        assert(alive(first, slot) == alive(second, slot));
        if first[slot] is Some {
            assert(second[slot] is Some);
            if alive(first, slot) {
                assert(node_at(first, slot) == node_at(pre, slot));
                assert(node_at(second, slot) == node_at(pre, slot));
            }
            assert(first[slot]->0.value == second[slot]->0.value);
            assert(first[slot]->0.strong == second[slot]->0.strong);
            assert(first[slot]->0.weak == second[slot]->0.weak);
        }
    }
    assert(first =~= second);
}

/// Releasing a strong handle that is not the last to its node does one
/// thing: the handle is no longer counted. No node dies.
pub proof fn lemma_release_not_last(pre: GraphView, post: GraphView, h: StrongRef<Node>)
    requires
        counts_sound(pre),
        counts_sound(post),
        released(pre, post, h),
        live_strong(pre, h),
        strong_of(pre, h.slot()).len() > 1,
        pre.len() <= usize::MAX,
    ensures
        post == uncount_strong(pre, h),
{
    let keep = Set::<int>::new(|s: int| alive(pre, s));
    let target = uncount_strong(pre, h);
    h.lemma_slot_fits();
    assert(pre[h.slot()] is Some);
    assert(sustained(pre, h, keep)) by {
        assert forall|slot: int| keep.contains(slot) implies alive(pre, slot) && exists|
            x: StrongRef<Node>,
        | #[trigger] supports(pre, h, keep, slot, x) by {
            assert(pre[slot] is Some);
            let ids = pre[slot]->0.strong;
            let id = if slot == h.slot() {
                ids.remove(h.id()).choose()
            } else {
                ids.choose()
            };
            if slot == h.slot() {
                assert(ids.remove(h.id()).len() > 0);
                assert(ids.remove(h.id()).contains(id));
            } else {
                assert(ids.contains(id));
            }
            let x = StrongRef::<Node>::at(slot, id);
            StrongRef::<Node>::lemma_at(slot, id);
            assert(supports(pre, h, keep, slot, x));
        }
    }
    assert forall|slot: int| alive(pre, slot) implies #[trigger] alive(post, slot) by {
        assert(keep.contains(slot));
    }
    assert forall|x: StrongRef<Node>| !stored_in_dead(pre, post, x) by {
        if stored_in_dead(pre, post, x) {
            let (s, i) = choose|s: int, i: int| #[trigger]
                has_child(pre, s, i) && !alive(post, s) && child_at(pre, s, i) == x;
            assert(alive(pre, s));
            assert(alive(post, s));
        }
    }
    assert forall|w: WeakRef<Node>| !linked_from_dead(pre, post, w) by {
        if linked_from_dead(pre, post, w) {
            let s = choose|s: int| #[trigger]
                has_parent_link(pre, s) && !alive(post, s) && node_at(pre, s).parent == Some(w);
            assert(alive(pre, s));
            assert(alive(post, s));
        }
    }
    assert forall|slot: int| 0 <= slot < pre.len() implies post[slot] == target[slot] by {
        assert forall|id: nat|
            strong_of(post, slot).contains(id) <==> strong_of(target, slot).contains(id) by {
            lemma_released_strong(pre, post, h, slot, id);
            StrongRef::<Node>::lemma_at(slot, id);
            if slot == h.slot() && id == h.id() {
                lemma_strong_same(StrongRef::<Node>::at(slot, id), h);
            }
        }
        assert forall|id: nat|
            weak_of(post, slot).contains(id) <==> weak_of(target, slot).contains(id) by {
            lemma_released_weak(pre, post, h, slot, id);
        }
        assert(strong_of(post, slot) =~= strong_of(target, slot));
        assert(weak_of(post, slot) =~= weak_of(target, slot));
        lemma_no_leak(post, slot);
        lemma_no_leak(pre, slot);
        if slot == h.slot() {
            let ids = pre[slot]->0.strong;
            assert(ids.remove(h.id()).len() > 0);
            assert(!ids.remove(h.id()).is_empty());
        }
        if pre[slot] is Some {
            assert(target[slot] is Some);
            assert(post[slot] is Some);
            if alive(pre, slot) {
                assert(alive(post, slot));
                assert(node_at(post, slot) == node_at(pre, slot));
            } else {
                assert(!alive(post, slot));
            }
            assert(post[slot]->0.value == target[slot]->0.value);
            assert(post[slot]->0.strong == target[slot]->0.strong);
            assert(post[slot]->0.weak == target[slot]->0.weak);
        } else {
            assert(target[slot] is None);
        }
    }
    assert(post =~= target);
}

/// Releasing the last strong handle to a node destroys the node.
pub proof fn lemma_release_of_last(pre: GraphView, post: GraphView, h: StrongRef<Node>)
    requires
        counts_sound(post),
        released(pre, post, h),
        live_strong(pre, h),
        strong_of(pre, h.slot()).finite(),
        strong_of(pre, h.slot()).len() == 1,
    ensures
        !alive(post, h.slot()),
        strong_of(post, h.slot()).is_empty(),
{
    let slot = h.slot();
    h.lemma_slot_fits();
    assert forall|id: nat| !strong_of(post, slot).contains(id) by {
        lemma_released_strong(pre, post, h, slot, id);
        if strong_of(pre, slot).contains(id) {
            if id != h.id() {
                assert(strong_of(pre, slot).remove(h.id()).contains(id));
                assert(strong_of(pre, slot).remove(h.id()).len() == 0);
            }
            StrongRef::<Node>::lemma_at(slot, id);
            lemma_strong_same(StrongRef::<Node>::at(slot, id), h);
        }
    }
    assert(strong_of(post, slot) =~= Set::<nat>::empty());
    if alive(post, slot) {
        assert(post[slot] is Some);
    }
}

/// A release spares what a user still holds: another handle in the hands
/// of a user is still counted afterwards, and its node is alive and as it
/// was, whatever became of the nodes around it.
pub proof fn lemma_release_spares_held(
    pre: GraphView,
    post: GraphView,
    h: StrongRef<Node>,
    x: StrongRef<Node>,
)
    requires
        counts_sound(post),
        released(pre, post, h),
        live_strong(pre, x),
        !is_stored(pre, x),
        x != h,
    ensures
        live_strong(post, x),
        alive(post, x.slot()),
        node_at(post, x.slot()) == node_at(pre, x.slot()),
{
    if stored_in_dead(pre, post, x) {
        let (s, i) = choose|s: int, i: int| #[trigger]
            has_child(pre, s, i) && !alive(post, s) && child_at(pre, s, i) == x;
        assert(has_child(pre, s, i) && child_at(pre, s, i) == x);
    }
    assert(live_strong(post, x));
    assert(post[x.slot()] is Some);
    assert(alive(post, x.slot()));
}

/// A node that dies takes with it each child that it alone owned: if the
/// handle it stored was the only strong handle to the child, the child has
/// died too.
pub proof fn lemma_release_takes_owned_child(
    pre: GraphView,
    post: GraphView,
    h: StrongRef<Node>,
    slot: int,
    i: int,
)
    requires
        counts_sound(post),
        released(pre, post, h),
        has_child(pre, slot, i),
        !alive(post, slot),
        live_strong(pre, child_at(pre, slot, i)),
        strong_of(pre, child_at(pre, slot, i).slot()).finite(),
        strong_of(pre, child_at(pre, slot, i).slot()).len() == 1,
    ensures
        !alive(post, child_at(pre, slot, i).slot()),
        strong_of(post, child_at(pre, slot, i).slot()).is_empty(),
{
    let c = child_at(pre, slot, i);
    let t = c.slot();
    c.lemma_slot_fits();
    assert(stored_in_dead(pre, post, c));
    assert forall|id: nat| !strong_of(post, t).contains(id) by {
        lemma_released_strong(pre, post, h, t, id);
        if strong_of(pre, t).contains(id) {
            if id != c.id() {
                assert(strong_of(pre, t).remove(c.id()).contains(id));
                assert(strong_of(pre, t).remove(c.id()).len() == 0);
            }
            StrongRef::<Node>::lemma_at(t, id);
            lemma_strong_same(StrongRef::<Node>::at(t, id), c);
        }
    }
    assert(strong_of(post, t) =~= Set::<nat>::empty());
    if alive(post, t) {
        assert(post[t] is Some);
    }
}

/// Nothing leaks: with sound counts a record is there exactly while a
/// handle to it is counted, and its node exactly while a strong handle is.
pub proof fn lemma_no_leak(g: GraphView, slot: int)
    requires
        counts_sound(g),
        0 <= slot < g.len(),
    ensures
        g[slot] is None <==> strong_of(g, slot).is_empty() && weak_of(g, slot).is_empty(),
        alive(g, slot) <==> !strong_of(g, slot).is_empty(),
{
    if g[slot] is Some {
        assert(g[slot] matches Some(r) && (!r.strong.is_empty() || !r.weak.is_empty()));
    }
}

/// Right after a child was attached, the child names the parent as its
/// parent, and the parent's children are what they were with the new
/// handle at the end, which occurs nowhere before it.
pub proof fn lemma_attached(pre: GraphView, parent: int, c: StrongRef<Node>, w: WeakRef<Node>)
    requires
        counts_sound(pre),
        links_sound(pre),
        alive(pre, parent),
        alive(pre, c.slot()),
        w.target() == Some(parent),
        !live_strong(pre, c),
        !live_weak(pre, w),
    ensures
        ({
            let post = attach(pre, parent, c, w);
            let before = node_at(pre, parent).children;
            &&& alive(post, parent)
            &&& alive(post, c.slot())
            &&& parent_of(post, c.slot()) == Some(parent)
            &&& node_at(post, parent).children == before.push(c)
            &&& forall|i: int| 0 <= i < before.len() ==> before[i] != c
            &&& strong_of(post, c.slot()) == strong_of(pre, c.slot()).insert(c.id())
        }),
{
    let child = c.slot();
    let g1 = count_strong(pre, c);
    let g2 = count_weak(g1, w);
    let pn = node_at(g2, parent);
    let g3 = set_node(g2, parent, NodeView { children: pn.children.push(c), ..pn });
    let cn = node_at(g3, child);
    let g4 = set_node(g3, child, NodeView { parent: Some(w), ..cn });
    let post = attach(pre, parent, c, w);
    let before = node_at(pre, parent).children;
    assert(alive(g4, parent) && alive(g4, child));
    assert(node_at(g4, parent).children == before.push(c));
    assert(node_at(g4, child).parent == Some(w));
    assert(strong_of(g4, child) == strong_of(pre, child).insert(c.id()));
    assert forall|i: int| 0 <= i < before.len() implies before[i] != c by {
        assert(has_child(pre, parent, i));
        assert(live_strong(pre, child_at(pre, parent, i)));
    }
    match node_at(pre, child).parent {
        Some(previous) => {
            assert(has_parent_link(pre, child));
            assert(live_weak(pre, previous));
            let t = previous.target()->0;
            assert(g4[t] is Some);
            assert(post == uncount_weak(g4, previous));
            if t == parent || t == child {
                assert(!g4[t]->0.strong.is_empty()) by {
                    assert(pre[t] is Some);
                    if t == child {
                        assert(g4[t]->0.strong.contains(c.id()));
                    } else {
                        assert(pre[t]->0.value is Some);
                        let id = choose|id: nat| pre[t]->0.strong.contains(id);
                        assert(g4[t]->0.strong.contains(id));
                    }
                }
            }
            assert(alive(post, parent) && alive(post, child));
            assert(node_at(post, parent) == node_at(g4, parent));
            assert(node_at(post, child) == node_at(g4, child));
            assert(strong_of(post, child) == strong_of(g4, child));
        },
        None => {
            assert(post == g4);
        },
    }
}

} // verus!
