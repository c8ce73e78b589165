//! Why a release ends in the state that `released` describes: what holds
//! while handles are still to be released, and how each step keeps it.

use crate::graph::links::{lemma_strong_same, lemma_weak_same};
use crate::graph::model::{
    alive, child_at, counts_sound, has_child, has_parent_link, is_stored, linked_from_dead,
    links_sound, live_strong, live_weak, node_at, released, spared, stored_in_dead, strong_of,
    supports, sustained, uncount_strong, uncount_weak, GraphView,
};
use crate::graph::Node;
use crate::shared::{lemma_strong_total_update, strong_total, StrongRef, WeakRef};
use vstd::prelude::*;

verus! {

/// The state of a release under way: `work` holds the handles that are
/// still to be released, which are `h` and those of the nodes that have died
/// so far.
pub(crate) open spec fn sweeping(
    pre: GraphView,
    cur: GraphView,
    work: Seq<StrongRef<Node>>,
    h: StrongRef<Node>,
) -> bool {
    &&& cur.len() == pre.len()
    &&& forall|slot: int| #[trigger]
        alive(cur, slot) ==> alive(pre, slot) && node_at(cur, slot) == node_at(pre, slot)
    &&& forall|x: StrongRef<Node>|
        #![trigger live_strong(cur, x)]
        #![trigger live_strong(pre, x)]
        live_strong(cur, x) <==> live_strong(pre, x) && (work.contains(x) || (x != h
            && !stored_in_dead(pre, cur, x)))
    &&& forall|i: int|
        0 <= i < work.len() ==> live_strong(pre, #[trigger] work[i]) && (work[i] == h
            || stored_in_dead(pre, cur, work[i]))
    &&& forall|i: int, j: int| 0 <= i < j < work.len() ==> #[trigger] work[i] != #[trigger] work[j]
    &&& forall|w: WeakRef<Node>|
        #![trigger live_weak(cur, w)]
        #![trigger live_weak(pre, w)]
        live_weak(cur, w) <==> live_weak(pre, w) && !linked_from_dead(pre, cur, w)
}

/// A release starts with the one handle to release.
pub(crate) proof fn lemma_sweep_start(pre: GraphView, h: StrongRef<Node>)
    requires
        links_sound(pre),
        live_strong(pre, h),
    ensures
        sweeping(pre, pre, seq![h], h),
{
    let work = seq![h];
    assert(work[0] == h);
    assert forall|x: StrongRef<Node>| !stored_in_dead(pre, pre, x) by {}
    assert forall|w: WeakRef<Node>| !linked_from_dead(pre, pre, w) by {}
    assert forall|x: StrongRef<Node>|
        #![trigger live_strong(pre, x)]
        live_strong(pre, x) <==> live_strong(pre, x) && (work.contains(x) || (x != h
            && !stored_in_dead(pre, pre, x))) by {
        if x == h {
            assert(work[0] == x);
        }
    }
}

/// What releasing a counted strong handle does to the view, seen from
/// outside: that handle is no longer counted, and its node has died if no
/// other strong handle to it was left.
pub(crate) proof fn lemma_uncount_strong(g: GraphView, x: StrongRef<Node>)
    requires
        counts_sound(g),
        live_strong(g, x),
    ensures
        ({
            let post = uncount_strong(g, x);
            let last = strong_of(g, x.slot()).remove(x.id()).is_empty();
            &&& post.len() == g.len()
            &&& alive(g, x.slot())
            &&& counts_sound(post)
            &&& strong_total(post) + 1 == strong_total(g)
            &&& forall|u: int| #[trigger]
                alive(post, u) == (alive(g, u) && !(last && u == x.slot()))
            &&& forall|u: int| #[trigger] alive(post, u) ==> node_at(post, u) == node_at(g, u)
            &&& forall|y: StrongRef<Node>|
                #![trigger live_strong(post, y)]
                #![trigger live_strong(g, y)]
                live_strong(post, y) <==> live_strong(g, y) && y != x
            &&& forall|w: WeakRef<Node>|
                #![trigger live_weak(post, w)]
                #![trigger live_weak(g, w)]
                live_weak(post, w) <==> live_weak(g, w)
        }),
{
    let post = uncount_strong(g, x);
    let s = x.slot();
    let r = g[s]->0;
    assert(g[s] is Some);
    lemma_strong_total_update(g, s, r.drop_strong(x.id()));
    assert(r.strong.remove(x.id()).len() + 1 == r.strong.len());
    if r.strong.remove(x.id()).len() == 0 {
        assert(r.strong.remove(x.id()).is_empty());
    }
    assert forall|y: StrongRef<Node>|
        #![trigger live_strong(post, y)]
        #![trigger live_strong(g, y)]
        live_strong(post, y) <==> live_strong(g, y) && y != x by {
        if y.slot() == x.slot() && y.id() == x.id() {
            lemma_strong_same(x, y);
        }
    }
    assert forall|w: WeakRef<Node>|
        #![trigger live_weak(post, w)]
        #![trigger live_weak(g, w)]
        live_weak(post, w) <==> live_weak(g, w) by {}
    assert forall|u: int| 0 <= u < post.len() implies (#[trigger] post[u] matches Some(r2) ==> {
        &&& r2.strong.finite()
        &&& r2.weak.finite()
        &&& r2.value is Some <==> !r2.strong.is_empty()
        &&& !r2.strong.is_empty() || !r2.weak.is_empty()
    }) by {
        assert(g[u] is Some ==> g[u]->0.strong.finite());
    }
}

/// What releasing a counted weak handle does to the view, seen from
/// outside: that handle is no longer counted, and nothing else changes.
pub(crate) proof fn lemma_uncount_weak(g: GraphView, w: WeakRef<Node>)
    requires
        counts_sound(g),
        live_weak(g, w),
    ensures
        ({
            let post = uncount_weak(g, w);
            &&& post.len() == g.len()
            &&& counts_sound(post)
            &&& strong_total(post) == strong_total(g)
            &&& forall|u: int| #[trigger] alive(post, u) == alive(g, u)
            &&& forall|u: int| #[trigger] alive(post, u) ==> node_at(post, u) == node_at(g, u)
            &&& forall|y: StrongRef<Node>|
                #![trigger live_strong(post, y)]
                #![trigger live_strong(g, y)]
                live_strong(post, y) <==> live_strong(g, y)
            &&& forall|v: WeakRef<Node>|
                #![trigger live_weak(post, v)]
                #![trigger live_weak(g, v)]
                live_weak(post, v) <==> live_weak(g, v) && v != w
        }),
{
    let post = uncount_weak(g, w);
    let t = w.target()->0;
    let r = g[t]->0;
    assert(g[t] is Some);
    lemma_strong_total_update(g, t, r.drop_weak(w.id()));
    if r.strong.len() == 0 {
        assert(r.strong.is_empty());
    }
    assert forall|u: int| #[trigger] alive(post, u) == alive(g, u) by {
        if u == t {
            assert(g[u] is Some);
        }
    }
    assert forall|y: StrongRef<Node>|
        #![trigger live_strong(post, y)]
        #![trigger live_strong(g, y)]
        live_strong(post, y) <==> live_strong(g, y) by {
        if y.slot() == t {
            assert(g[t] is Some);
        }
    }
    assert forall|v: WeakRef<Node>|
        #![trigger live_weak(post, v)]
        #![trigger live_weak(g, v)]
        live_weak(post, v) <==> live_weak(g, v) && v != w by {
        if v.target() == w.target() && v.id() == w.id() {
            lemma_weak_same(v, w);
        }
    }
    assert forall|u: int| 0 <= u < post.len() implies (#[trigger] post[u] matches Some(r2) ==> {
        &&& r2.strong.finite()
        &&& r2.weak.finite()
        &&& r2.value is Some <==> !r2.strong.is_empty()
        &&& !r2.strong.is_empty() || !r2.weak.is_empty()
    }) by {
        assert(g[u] is Some ==> g[u]->0.strong.finite());
    }
}

/// One step of a release, where the node of the released handle lives on.
pub(crate) proof fn lemma_sweep_keep(
    pre: GraphView,
    cur: GraphView,
    post: GraphView,
    work: Seq<StrongRef<Node>>,
    h: StrongRef<Node>,
)
    requires
        sweeping(pre, cur, work, h),
        work.len() > 0,
        post.len() == cur.len(),
        forall|u: int| #[trigger] alive(post, u) == alive(cur, u),
        forall|u: int| #[trigger] alive(post, u) ==> node_at(post, u) == node_at(cur, u),
        forall|y: StrongRef<Node>|
            #![trigger live_strong(post, y)]
            #![trigger live_strong(cur, y)]
            live_strong(post, y) <==> live_strong(cur, y) && y != work.last(),
        forall|w: WeakRef<Node>|
            #![trigger live_weak(post, w)]
            #![trigger live_weak(cur, w)]
            live_weak(post, w) <==> live_weak(cur, w),
    ensures
        sweeping(pre, post, work.drop_last(), h),
{
    let x = work.last();
    let rest = work.drop_last();
    assert forall|y: StrongRef<Node>| stored_in_dead(pre, post, y) == stored_in_dead(
        pre,
        cur,
        y,
    ) by {
        if stored_in_dead(pre, post, y) {
            let (s, i) = choose|s: int, i: int| #[trigger]
                has_child(pre, s, i) && !alive(post, s) && child_at(pre, s, i) == y;
            assert(alive(post, s) == alive(cur, s));
            assert(has_child(pre, s, i) && !alive(cur, s) && child_at(pre, s, i) == y);
        }
        if stored_in_dead(pre, cur, y) {
            let (s, i) = choose|s: int, i: int| #[trigger]
                has_child(pre, s, i) && !alive(cur, s) && child_at(pre, s, i) == y;
            assert(alive(post, s) == alive(cur, s));
            assert(has_child(pre, s, i) && !alive(post, s) && child_at(pre, s, i) == y);
        }
    }
    assert forall|w: WeakRef<Node>| linked_from_dead(pre, post, w) == linked_from_dead(
        pre,
        cur,
        w,
    ) by {
        if linked_from_dead(pre, post, w) {
            let s = choose|s: int| #[trigger]
                has_parent_link(pre, s) && !alive(post, s) && node_at(pre, s).parent == Some(w);
            assert(alive(post, s) == alive(cur, s));
            assert(has_parent_link(pre, s) && !alive(cur, s));
        }
        if linked_from_dead(pre, cur, w) {
            let s = choose|s: int| #[trigger]
                has_parent_link(pre, s) && !alive(cur, s) && node_at(pre, s).parent == Some(w);
            assert(alive(post, s) == alive(cur, s));
            assert(has_parent_link(pre, s) && !alive(post, s));
        }
    }
    assert forall|slot: int| #[trigger] alive(post, slot) implies alive(pre, slot) && node_at(
        post,
        slot,
    ) == node_at(pre, slot) by {
        assert(alive(post, slot) == alive(cur, slot));
        assert(alive(cur, slot));
    }
    assert(work[work.len() - 1] == x);
    assert forall|y: StrongRef<Node>| rest.contains(y) <==> work.contains(y) && y != x by {
        if rest.contains(y) {
            let i = choose|i: int| 0 <= i < rest.len() && rest[i] == y;
            assert(work[i] == y);
            assert(work[i] != work[work.len() - 1]);
        }
        if work.contains(y) && y != x {
            let i = choose|i: int| 0 <= i < work.len() && work[i] == y;
            assert(rest[i] == y);
        }
    }
    assert forall|y: StrongRef<Node>|
        #![trigger live_strong(post, y)]
        #![trigger live_strong(pre, y)]
        live_strong(post, y) <==> live_strong(pre, y) && (rest.contains(y) || (y != h
            && !stored_in_dead(pre, post, y))) by {
        assert(live_strong(cur, y) <==> live_strong(pre, y) && (work.contains(y) || (y != h
            && !stored_in_dead(pre, cur, y))));
        assert(x == h || stored_in_dead(pre, cur, x));
    }
    assert forall|i: int| 0 <= i < rest.len() implies live_strong(pre, #[trigger] rest[i]) && (
    rest[i] == h || stored_in_dead(pre, post, rest[i])) by {
        assert(rest[i] == work[i]);
    }
    assert forall|i: int, j: int| 0 <= i < j < rest.len() implies #[trigger] rest[i]
        != #[trigger] rest[j] by {
        assert(rest[i] == work[i] && rest[j] == work[j]);
    }
    assert forall|w: WeakRef<Node>|
        #![trigger live_weak(post, w)]
        #![trigger live_weak(pre, w)]
        live_weak(post, w) <==> live_weak(pre, w) && !linked_from_dead(pre, post, w) by {
        assert(live_weak(cur, w) <==> live_weak(pre, w) && !linked_from_dead(pre, cur, w));
    }
}

/// One step of a release, where the node of the released handle dies: the
/// handles it stored join the work, and its parent link is released.
pub(crate) proof fn lemma_sweep_die(
    pre: GraphView,
    cur: GraphView,
    post: GraphView,
    work: Seq<StrongRef<Node>>,
    h: StrongRef<Node>,
)
    requires
        links_sound(pre),
        !is_stored(pre, h),
        sweeping(pre, cur, work, h),
        work.len() > 0,
        alive(cur, work.last().slot()),
        post.len() == cur.len(),
        forall|u: int| #[trigger] alive(post, u) == (alive(cur, u) && u != work.last().slot()),
        forall|u: int| #[trigger] alive(post, u) ==> node_at(post, u) == node_at(cur, u),
        forall|y: StrongRef<Node>|
            #![trigger live_strong(post, y)]
            #![trigger live_strong(cur, y)]
            live_strong(post, y) <==> live_strong(cur, y) && y != work.last(),
        forall|w: WeakRef<Node>|
            #![trigger live_weak(post, w)]
            #![trigger live_weak(cur, w)]
            live_weak(post, w) <==> live_weak(cur, w) && node_at(
                pre,
                work.last().slot(),
            ).parent != Some(w),
    ensures
        sweeping(
            pre,
            post,
            work.drop_last() + node_at(pre, work.last().slot()).children,
            h,
        ),
{
    let x = work.last();
    let s = x.slot();
    let rest = work.drop_last();
    let kids = node_at(pre, s).children;
    let next = rest + kids;
    assert(alive(pre, s) && node_at(cur, s) == node_at(pre, s));
    assert(work[work.len() - 1] == x);
    assert(x == h || stored_in_dead(pre, cur, x));
    // Where the handles of the next work list come from.
    assert forall|i: int| 0 <= i < next.len() implies #[trigger] next[i] == if i < rest.len() {
        work[i]
    } else {
        child_at(pre, s, i - rest.len())
    } by {}
    assert forall|j: int| 0 <= j < kids.len() implies has_child(pre, s, j) && kids[j] == child_at(
        pre,
        s,
        j,
    ) && next[rest.len() + j] == kids[j] by {}
    // A handle is stored in one place only.
    assert forall|y: StrongRef<Node>| kids.contains(y) implies !stored_in_dead(pre, cur, y) && y
        != h && live_strong(pre, y) && stored_in_dead(pre, post, y) by {
        let j = choose|j: int| 0 <= j < kids.len() && kids[j] == y;
        assert(has_child(pre, s, j) && child_at(pre, s, j) == y);
        assert(is_stored(pre, y));
        assert(!alive(post, s));
        if stored_in_dead(pre, cur, y) {
            let (s2, i2) = choose|s2: int, i2: int| #[trigger]
                has_child(pre, s2, i2) && !alive(cur, s2) && child_at(pre, s2, i2) == y;
            assert(has_child(pre, s2, i2) && has_child(pre, s, j));
        }
    }
    assert forall|y: StrongRef<Node>|
        stored_in_dead(pre, post, y) <==> stored_in_dead(pre, cur, y) || kids.contains(y) by {
        if stored_in_dead(pre, post, y) {
            let (s2, i2) = choose|s2: int, i2: int| #[trigger]
                has_child(pre, s2, i2) && !alive(post, s2) && child_at(pre, s2, i2) == y;
            assert(alive(post, s2) == (alive(cur, s2) && s2 != s));
            if s2 == s {
                assert(kids[i2] == y);
            } else {
                assert(has_child(pre, s2, i2) && !alive(cur, s2) && child_at(pre, s2, i2) == y);
            }
        }
        if stored_in_dead(pre, cur, y) {
            let (s2, i2) = choose|s2: int, i2: int| #[trigger]
                has_child(pre, s2, i2) && !alive(cur, s2) && child_at(pre, s2, i2) == y;
            assert(alive(post, s2) == (alive(cur, s2) && s2 != s));
            assert(has_child(pre, s2, i2) && !alive(post, s2) && child_at(pre, s2, i2) == y);
        }
    }
    assert forall|w: WeakRef<Node>|
        linked_from_dead(pre, post, w) <==> linked_from_dead(pre, cur, w) || node_at(
            pre,
            s,
        ).parent == Some(w) by {
        if linked_from_dead(pre, post, w) {
            let s2 = choose|s2: int| #[trigger]
                has_parent_link(pre, s2) && !alive(post, s2) && node_at(pre, s2).parent == Some(
                    w,
                );
            assert(alive(post, s2) == (alive(cur, s2) && s2 != s));
            if s2 != s {
                assert(has_parent_link(pre, s2) && !alive(cur, s2));
            }
        }
        if linked_from_dead(pre, cur, w) {
            let s2 = choose|s2: int| #[trigger]
                has_parent_link(pre, s2) && !alive(cur, s2) && node_at(pre, s2).parent == Some(w);
            assert(alive(post, s2) == (alive(cur, s2) && s2 != s));
            assert(has_parent_link(pre, s2) && !alive(post, s2));
        }
        if node_at(pre, s).parent == Some(w) {
            assert(alive(post, s) == (alive(cur, s) && s != s));
            assert(has_parent_link(pre, s) && !alive(post, s));
        }
    }
    assert forall|slot: int| #[trigger] alive(post, slot) implies alive(pre, slot) && node_at(
        post,
        slot,
    ) == node_at(pre, slot) by {
        assert(alive(post, slot) == (alive(cur, slot) && slot != s));
        assert(alive(cur, slot));
    }
    assert forall|y: StrongRef<Node>| rest.contains(y) <==> work.contains(y) && y != x by {
        if rest.contains(y) {
            let i = choose|i: int| 0 <= i < rest.len() && rest[i] == y;
            assert(work[i] == y);
            assert(work[i] != work[work.len() - 1]);
        }
        if work.contains(y) && y != x {
            let i = choose|i: int| 0 <= i < work.len() && work[i] == y;
            assert(rest[i] == y);
        }
    }
    assert forall|y: StrongRef<Node>| next.contains(y) <==> rest.contains(y) || kids.contains(
        y,
    ) by {
        if next.contains(y) {
            let i = choose|i: int| 0 <= i < next.len() && next[i] == y;
            if i < rest.len() {
                assert(rest[i] == y);
            } else {
                assert(kids[i - rest.len()] == y);
            }
        }
        if rest.contains(y) {
            let i = choose|i: int| 0 <= i < rest.len() && rest[i] == y;
            assert(next[i] == y);
        }
        if kids.contains(y) {
            let j = choose|j: int| 0 <= j < kids.len() && kids[j] == y;
            assert(next[rest.len() + j] == y);
        }
    }
    assert(!kids.contains(x)) by {
        if kids.contains(x) {
            assert(!stored_in_dead(pre, cur, x) && x != h);
        }
    }
    assert forall|y: StrongRef<Node>|
        #![trigger live_strong(post, y)]
        #![trigger live_strong(pre, y)]
        live_strong(post, y) <==> live_strong(pre, y) && (next.contains(y) || (y != h
            && !stored_in_dead(pre, post, y))) by {
        assert(live_strong(cur, y) <==> live_strong(pre, y) && (work.contains(y) || (y != h
            && !stored_in_dead(pre, cur, y))));
        assert(live_strong(post, y) <==> live_strong(cur, y) && y != x);
    }
    assert forall|i: int| 0 <= i < next.len() implies live_strong(pre, #[trigger] next[i]) && (
    next[i] == h || stored_in_dead(pre, post, next[i])) by {
        if i < rest.len() {
            assert(next[i] == work[i]);
        } else {
            assert(kids.contains(next[i])) by {
                assert(kids[i - rest.len()] == next[i]);
            }
        }
    }
    assert forall|i: int, j: int| 0 <= i < j < next.len() implies #[trigger] next[i]
        != #[trigger] next[j] by {
        if j < rest.len() {
            assert(next[i] == work[i] && next[j] == work[j]);
        } else if i < rest.len() {
            assert(next[i] == work[i]);
            assert(kids.contains(next[j])) by {
                assert(kids[j - rest.len()] == next[j]);
            }
            assert(work[i] == h || stored_in_dead(pre, cur, work[i]));
        } else {
            assert(has_child(pre, s, i - rest.len()) && has_child(pre, s, j - rest.len()));
        }
    }
    assert forall|w: WeakRef<Node>|
        #![trigger live_weak(post, w)]
        #![trigger live_weak(pre, w)]
        live_weak(post, w) <==> live_weak(pre, w) && !linked_from_dead(pre, post, w) by {
        assert(live_weak(cur, w) <==> live_weak(pre, w) && !linked_from_dead(pre, cur, w));
        assert(live_weak(post, w) <==> live_weak(cur, w) && node_at(pre, s).parent != Some(w));
    }
}

/// Before anything is released, every node that is alive is alive.
pub(crate) proof fn lemma_spare_start(pre: GraphView, h: StrongRef<Node>)
    ensures
        spared(pre, pre, h),
{
}

/// A step of a release in which no node dies spares what was spared.
pub(crate) proof fn lemma_spare_keep(pre: GraphView, cur: GraphView, post: GraphView, h: StrongRef<Node>)
    requires
        spared(pre, cur, h),
        forall|u: int| #[trigger] alive(post, u) == alive(cur, u),
    ensures
        spared(pre, post, h),
{
    assert forall|keep: Set<int>, slot: int|
        #![trigger sustained(pre, h, keep), alive(post, slot)]
        sustained(pre, h, keep) && keep.contains(slot) implies alive(post, slot) by {
        assert(alive(cur, slot));
        assert(alive(post, slot) == alive(cur, slot));
    }
}

/// A node dies only when the last strong handle to it is released, so none
/// dies that a handle not under release was left to.
pub(crate) proof fn lemma_spare_die(
    pre: GraphView,
    cur: GraphView,
    post: GraphView,
    work: Seq<StrongRef<Node>>,
    h: StrongRef<Node>,
)
    requires
        sweeping(pre, cur, work, h),
        spared(pre, cur, h),
        work.len() > 0,
        forall|u: int| #[trigger] alive(post, u) == (alive(cur, u) && u != work.last().slot()),
        forall|y: StrongRef<Node>|
            live_strong(cur, y) && y.slot() == work.last().slot() ==> y == work.last(),
    ensures
        spared(pre, post, h),
{
    let x = work.last();
    let s = x.slot();
    assert(work[work.len() - 1] == x);
    assert(x == h || stored_in_dead(pre, cur, x));
    assert forall|keep: Set<int>, slot: int|
        #![trigger sustained(pre, h, keep), alive(post, slot)]
        sustained(pre, h, keep) && keep.contains(slot) implies alive(post, slot) by {
        assert(alive(cur, slot));
        assert(alive(post, slot) == (alive(cur, slot) && slot != s));
        if slot == s {
            let y = choose|y: StrongRef<Node>| #[trigger] supports(pre, h, keep, s, y);
            assert(supports(pre, h, keep, s, y));
            // No node that stores `y` has died.
            assert(!stored_in_dead(pre, cur, y)) by {
                if stored_in_dead(pre, cur, y) {
                    let (d, i) = choose|d: int, i: int| #[trigger]
                        has_child(pre, d, i) && !alive(cur, d) && child_at(pre, d, i) == y;
                    assert(has_child(pre, d, i) && child_at(pre, d, i) == y);
                    assert(keep.contains(d));
                    assert(alive(cur, d));
                }
            }
            assert(live_strong(cur, y));
            assert(y == x);
        }
    }
}

/// A release is over when nothing is left to release.
pub(crate) proof fn lemma_sweep_end(pre: GraphView, post: GraphView, h: StrongRef<Node>)
    requires
        links_sound(pre),
        live_strong(pre, h),
        !is_stored(pre, h),
        sweeping(pre, post, Seq::empty(), h),
        spared(pre, post, h),
    ensures
        released(pre, post, h),
        links_sound(post),
        forall|x: StrongRef<Node>|
            live_strong(pre, x) && !is_stored(pre, x) && x != h ==> live_strong(post, x)
                && !is_stored(post, x),
{
    let work = Seq::<StrongRef<Node>>::empty();
    assert forall|x: StrongRef<Node>| !work.contains(x) by {}
    assert forall|s: int, i: int| has_child(post, s, i) implies has_child(pre, s, i) && child_at(
        post,
        s,
        i,
    ) == child_at(pre, s, i) by {
        assert(alive(post, s));
    }
    assert forall|s: int| has_parent_link(post, s) implies has_parent_link(pre, s) && node_at(
        post,
        s,
    ).parent == node_at(pre, s).parent by {
        assert(alive(post, s));
    }
    assert forall|s: int, i: int| #[trigger] has_child(post, s, i) implies live_strong(
        post,
        child_at(post, s, i),
    ) by {
        let x = child_at(pre, s, i);
        assert(has_child(pre, s, i));
        assert(live_strong(pre, x));
        assert(is_stored(pre, x));
        if stored_in_dead(pre, post, x) {
            let (s2, i2) = choose|s2: int, i2: int| #[trigger]
                has_child(pre, s2, i2) && !alive(post, s2) && child_at(pre, s2, i2) == x;
            assert(has_child(pre, s2, i2) && has_child(pre, s, i));
        }
    }
    assert forall|s1: int, i1: int, s2: int, i2: int|
        #![trigger has_child(post, s1, i1), has_child(post, s2, i2)]
        has_child(post, s1, i1) && has_child(post, s2, i2) && (s1 != s2 || i1 != i2)
            implies child_at(post, s1, i1) != child_at(post, s2, i2) by {
        assert(has_child(pre, s1, i1) && has_child(pre, s2, i2));
    }
    assert forall|s: int| #[trigger] has_parent_link(post, s) implies live_weak(
        post,
        node_at(post, s).parent->0,
    ) by {
        let w = node_at(pre, s).parent->0;
        assert(has_parent_link(pre, s));
        assert(live_weak(pre, w));
        if linked_from_dead(pre, post, w) {
            let s2 = choose|s2: int| #[trigger]
                has_parent_link(pre, s2) && !alive(post, s2) && node_at(pre, s2).parent == Some(
                    w,
                );
            assert(has_parent_link(pre, s2) && has_parent_link(pre, s));
        }
    }
    assert forall|s1: int, s2: int|
        #![trigger has_parent_link(post, s1), has_parent_link(post, s2)]
        has_parent_link(post, s1) && has_parent_link(post, s2) && s1 != s2 implies node_at(
            post,
            s1,
        ).parent != node_at(post, s2).parent by {
        assert(has_parent_link(pre, s1) && has_parent_link(pre, s2));
    }
    assert forall|x: StrongRef<Node>|
        live_strong(pre, x) && !is_stored(pre, x) && x != h implies live_strong(post, x)
            && !is_stored(post, x) by {
        if stored_in_dead(pre, post, x) {
            let (s2, i2) = choose|s2: int, i2: int| #[trigger]
                has_child(pre, s2, i2) && !alive(post, s2) && child_at(pre, s2, i2) == x;
            assert(has_child(pre, s2, i2) && child_at(pre, s2, i2) == x);
        }
        if is_stored(post, x) {
            let (s2, i2) = choose|s2: int, i2: int|
                has_child(post, s2, i2) && child_at(post, s2, i2) == x;
            assert(has_child(pre, s2, i2) && child_at(pre, s2, i2) == x);
        }
    }
}

} // verus!
