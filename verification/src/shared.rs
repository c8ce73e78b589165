//! Shared ownership by counting: strong handles that keep a value alive and
//! weak handles that only observe it.
//!
//! Values live in a [`Heap`], one allocation record per value. A record holds
//! the value, the number of strong handles and the number of weak handles.
//! The value is destroyed when the last strong handle is released; the record
//! goes when the last handle of either kind does. A slot is never used for a
//! second allocation, so a slot number names one allocation for good.
//!
//! Handles are plain tokens. They cannot be copied, only cloned through the
//! heap, which counts them, and they are given up by an explicit release:
//! a token that is merely forgotten stays counted. Each carries a ghost
//! serial number, and each record keeps the ghost set of the numbers of its
//! live handles: the counters are proved equal to the sizes of those sets.
//!
//! Whoever has the heap to themselves can reach every value in it, also to
//! change it. Who is reading and who is writing across calls is what a
//! [`crate::cell::MutableCell`] around the value records.

use std::marker::PhantomData;
use vstd::prelude::*;

verus! {

/// What a contract sees of one allocation record.
pub struct RecordView<V> {
    /// The value, until the last strong handle is released.
    pub value: Option<V>,
    /// The serial numbers of the live strong handles.
    pub strong: Set<nat>,
    /// The serial numbers of the live weak handles.
    pub weak: Set<nat>,
}

impl<V> RecordView<V> {
    /// The record of a value that has just been allocated, with its first
    /// strong handle.
    pub open spec fn fresh(value: V, id: nat) -> Self {
        RecordView { value: Some(value), strong: set![id], weak: Set::empty() }
    }

    /// The record with one strong handle more.
    pub open spec fn add_strong(self, id: nat) -> Self {
        RecordView { strong: self.strong.insert(id), ..self }
    }

    /// The record with one weak handle more.
    pub open spec fn add_weak(self, id: nat) -> Self {
        RecordView { weak: self.weak.insert(id), ..self }
    }

    /// The record with another value in place of the one it has.
    pub open spec fn with_value(self, value: V) -> Self {
        RecordView { value: Some(value), ..self }
    }

    /// What is left of the record when strong handle `id` is released: the
    /// value goes with the last strong handle, the record with the last
    /// handle of either kind.
    pub open spec fn drop_strong(self, id: nat) -> Option<Self> {
        let strong = self.strong.remove(id);
        if !strong.is_empty() {
            Some(RecordView { strong, ..self })
        } else if !self.weak.is_empty() {
            Some(RecordView { value: None, strong, weak: self.weak })
        } else {
            None
        }
    }

    /// What is left of the record when weak handle `id` is released.
    pub open spec fn drop_weak(self, id: nat) -> Option<Self> {
        let weak = self.weak.remove(id);
        if self.strong.is_empty() && weak.is_empty() {
            None
        } else {
            Some(RecordView { weak, ..self })
        }
    }
}

struct Record<V> {
    value: Option<V>,
    strong: usize,
    weak: usize,
    strong_ids: Ghost<Set<nat>>,
    weak_ids: Ghost<Set<nat>>,
}

impl<V> Record<V> {
    spec fn view(&self) -> RecordView<V> {
        RecordView { value: self.value, strong: self.strong_ids@, weak: self.weak_ids@ }
    }

    spec fn wf(&self, issued: nat) -> bool {
        &&& self.strong_ids@.finite()
        &&& self.weak_ids@.finite()
        &&& self.strong_ids@.len() == self.strong
        &&& self.weak_ids@.len() == self.weak
        &&& forall|id: nat| self.strong_ids@.contains(id) ==> id < issued
        &&& forall|id: nat| self.weak_ids@.contains(id) ==> id < issued
        &&& self.value.is_some() <==> self.strong > 0
        &&& self.strong > 0 || self.weak > 0
    }
}

/// The allocation records, by slot.
pub struct Heap<V> {
    slots: Vec<Option<Record<V>>>,
    issued: Ghost<nat>,
}

/// An owning handle: the value lives as long as one of these does.
pub struct StrongRef<V> {
    slot: usize,
    serial: Ghost<nat>,
    owner: PhantomData<V>,
}

/// An observing handle: it keeps the record, not the value. The empty handle
/// observes nothing and never upgrades.
pub struct WeakRef<V> {
    slot: Option<usize>,
    serial: Ghost<nat>,
    owner: PhantomData<V>,
}

/// Slot `slot` of `heap` holds no value: it was never allocated, or its
/// record is gone, or no strong handle to it is left.
pub open spec fn dead_at<V>(heap: Seq<Option<RecordView<V>>>, slot: int) -> bool {
    0 <= slot < heap.len() ==> (heap[slot] matches Some(r) ==> r.strong.is_empty())
}

/// `post` can follow `pre`: no slot is given up, and none that was allocated
/// and has lost its last strong handle gets one again.
pub open spec fn evolves<V>(
    pre: Seq<Option<RecordView<V>>>,
    post: Seq<Option<RecordView<V>>>,
) -> bool {
    &&& pre.len() <= post.len()
    &&& forall|slot: int| 0 <= slot < pre.len() && dead_at(pre, slot) ==> dead_at(post, slot)
}

/// The number of live strong handles that a record counts; 0 where there
/// is no record.
pub open spec fn strong_in<V>(record: Option<RecordView<V>>) -> nat {
    match record {
        Some(r) => r.strong.len(),
        None => 0,
    }
}

/// The number of live strong handles over all records of `heap`.
pub open spec fn strong_total<V>(heap: Seq<Option<RecordView<V>>>) -> nat
    decreases heap.len(),
{
    if heap.len() == 0 {
        0
    } else {
        strong_total(heap.drop_last()) + strong_in(heap.last())
    }
}

/// Changing one record changes the total by what that record's count
/// changes.
pub proof fn lemma_strong_total_update<V>(
    heap: Seq<Option<RecordView<V>>>,
    slot: int,
    record: Option<RecordView<V>>,
)
    requires
        0 <= slot < heap.len(),
    ensures
        strong_total(heap.update(slot, record)) + strong_in(heap[slot]) == strong_total(heap)
            + strong_in(record),
    decreases heap.len(),
{
    let changed = heap.update(slot, record);
    if slot == heap.len() - 1 {
        assert(changed.drop_last() =~= heap.drop_last());
    } else {
        assert(changed.drop_last() =~= heap.drop_last().update(slot, record));
        lemma_strong_total_update(heap.drop_last(), slot, record);
    }
}

/// Each clone counts one handle more, each release one less: counting a
/// handle that was not counted raises the number of live strong handles by
/// one, and releasing one that was counted lowers it by one.
pub proof fn lemma_count_steps<V>(record: RecordView<V>, id: nat)
    requires
        record.strong.finite(),
    ensures
        !record.strong.contains(id) ==> record.add_strong(id).strong.len() == record.strong.len()
            + 1,
        record.strong.contains(id) ==> strong_in(record.drop_strong(id)) + 1
            == record.strong.len(),
{
    if record.strong.contains(id) {
        let left = record.strong.remove(id);
        if left.len() == 0 {
            assert(left.is_empty());
        }
    }
}

/// A heap can follow itself.
pub proof fn lemma_evolves_refl<V>(heap: Seq<Option<RecordView<V>>>)
    ensures
        evolves(heap, heap),
{
}

/// What can follow a heap that can follow another can follow that other.
pub proof fn lemma_evolves_trans<V>(
    first: Seq<Option<RecordView<V>>>,
    second: Seq<Option<RecordView<V>>>,
    third: Seq<Option<RecordView<V>>>,
)
    requires
        evolves(first, second),
        evolves(second, third),
    ensures
        evolves(first, third),
{
    assert forall|slot: int| 0 <= slot < first.len() && dead_at(first, slot) implies dead_at(
        third,
        slot,
    ) by {
        assert(dead_at(second, slot));
    }
}

impl<V> View for Heap<V> {
    type V = Seq<Option<RecordView<V>>>;

    closed spec fn view(&self) -> Seq<Option<RecordView<V>>> {
        Seq::new(
            self.slots@.len(),
            |i: int|
                match self.slots@[i] {
                    Some(r) => Some(r.view()),
                    None => None,
                },
        )
    }
}

impl<V> Heap<V> {
    /// Every record's counters equal the numbers of its live handles, its
    /// value is there exactly while a strong handle is, and no record
    /// outlives its last handle.
    pub closed spec fn wf(&self) -> bool {
        forall|i: int|
            0 <= i < self.slots@.len() ==> (#[trigger] self.slots@[i] matches Some(r) ==> r.wf(
                self.issued@,
            ))
    }

    /// The strong counter of the record in `slot`; 0 where there is none.
    pub closed spec fn strong_counter(&self, slot: int) -> nat {
        if 0 <= slot < self.slots@.len() {
            match self.slots@[slot] {
                Some(r) => r.strong as nat,
                None => 0,
            }
        } else {
            0
        }
    }

    /// The weak counter of the record in `slot`; 0 where there is none.
    pub closed spec fn weak_counter(&self, slot: int) -> nat {
        if 0 <= slot < self.slots@.len() {
            match self.slots@[slot] {
                Some(r) => r.weak as nat,
                None => 0,
            }
        } else {
            0
        }
    }

    /// `slot` holds a record.
    pub open spec fn has_record(&self, slot: int) -> bool {
        0 <= slot < self@.len() && self@[slot].is_some()
    }

    /// The serial numbers of the live strong handles to `slot`.
    pub open spec fn strong_handles(&self, slot: int) -> Set<nat> {
        if self.has_record(slot) {
            self@[slot]->0.strong
        } else {
            Set::empty()
        }
    }

    /// The serial numbers of the live weak handles to `slot`.
    pub open spec fn weak_handles(&self, slot: int) -> Set<nat> {
        if self.has_record(slot) {
            self@[slot]->0.weak
        } else {
            Set::empty()
        }
    }

    /// The value in `slot`, while it is alive.
    pub open spec fn value_at(&self, slot: int) -> Option<V> {
        if self.has_record(slot) {
            self@[slot]->0.value
        } else {
            None
        }
    }

    /// `h` is a live strong handle of this heap.
    pub open spec fn holds(&self, h: StrongRef<V>) -> bool {
        self.strong_handles(h.slot()).contains(h.id())
    }

    /// `w` is a live weak handle of this heap. The empty handle is not.
    pub open spec fn holds_weak(&self, w: WeakRef<V>) -> bool {
        w.target() is Some && self.weak_handles(w.target()->0).contains(w.id())
    }

    /// In a well-formed heap the counters are the numbers of live handles,
    /// the value is there exactly while a strong handle is, and a record is
    /// there exactly while a handle is.
    pub proof fn lemma_counters(&self, slot: int)
        requires
            self.wf(),
        ensures
            self.strong_handles(slot).finite(),
            self.weak_handles(slot).finite(),
            self.strong_counter(slot) == self.strong_handles(slot).len(),
            self.weak_counter(slot) == self.weak_handles(slot).len(),
            self.value_at(slot).is_some() <==> !self.strong_handles(slot).is_empty(),
            self.has_record(slot) <==> !self.strong_handles(slot).is_empty()
                || !self.weak_handles(slot).is_empty(),
            self.strong_counter(slot) <= usize::MAX,
            self.weak_counter(slot) <= usize::MAX,
    {
        if 0 <= slot < self.slots@.len() {
            match self.slots@[slot] {
                Some(r) => {
                    assert(r.wf(self.issued@));
                    assert(self@[slot] == Some(r.view()));
                    if r.strong_ids@.len() == 0 {
                        assert(r.strong_ids@.is_empty());
                    }
                    if r.weak_ids@.len() == 0 {
                        assert(r.weak_ids@.is_empty());
                    }
                },
                None => {
                    assert(self@[slot].is_none());
                },
            }
        }
    }

    /// The slots can be counted by a machine.
    pub proof fn lemma_slots_fit(&self)
        ensures
            self@.len() <= usize::MAX,
    {
        assert(self.slots.len() == self.slots@.len());
    }

    /// A heap without records.
    pub fn new() -> (heap: Self)
        ensures
            heap.wf(),
            heap@ == Seq::<Option<RecordView<V>>>::empty(),
    {
        let heap = Heap { slots: Vec::new(), issued: Ghost(0) };
        assert(heap@ =~= Seq::<Option<RecordView<V>>>::empty());
        heap
    }

    /// The number of live strong handles to `slot`; 0 where there is no
    /// record.
    pub fn strong_count_at(&self, slot: usize) -> (n: usize)
        requires
            self.wf(),
        ensures
            n == self.strong_handles(slot as int).len(),
    {
        proof {
            self.lemma_counters(slot as int);
        }
        if slot < self.slots.len() {
            match &self.slots[slot] {
                Some(r) => r.strong,
                None => 0,
            }
        } else {
            0
        }
    }

    /// The number of live weak handles to `slot`; 0 where there is no
    /// record.
    pub fn weak_count_at(&self, slot: usize) -> (n: usize)
        requires
            self.wf(),
        ensures
            n == self.weak_handles(slot as int).len(),
    {
        proof {
            self.lemma_counters(slot as int);
        }
        if slot < self.slots.len() {
            match &self.slots[slot] {
                Some(r) => r.weak,
                None => 0,
            }
        } else {
            0
        }
    }

    /// Whether `slot` holds a record: whether a handle to it is live.
    pub fn has_record_at(&self, slot: usize) -> (b: bool)
        ensures
            b == self.has_record(slot as int),
    {
        if slot < self.slots.len() {
            let there = self.slots[slot].is_some();
            assert(self@[slot as int].is_some() == there);
            there
        } else {
            false
        }
    }

    /// The number of slots handed out so far.
    pub fn slot_count(&self) -> (n: usize)
        ensures
            n == self@.len(),
    {
        self.slots.len()
    }
}

impl<V> StrongRef<V> {
    /// The slot of the record this handle points to.
    pub closed spec fn slot(&self) -> int {
        self.slot as int
    }

    /// The number under which the record knows this handle.
    pub closed spec fn id(&self) -> nat {
        self.serial@
    }

    /// The handle to `slot` with the number `id`.
    pub closed spec fn at(slot: int, id: nat) -> StrongRef<V> {
        StrongRef { slot: slot as usize, serial: Ghost(id), owner: PhantomData }
    }

    /// `at` gives the handle with that slot and that number.
    pub proof fn lemma_at(slot: int, id: nat)
        requires
            0 <= slot <= usize::MAX,
        ensures
            Self::at(slot, id).slot() == slot,
            Self::at(slot, id).id() == id,
    {
    }

    /// A slot is a machine index.
    pub proof fn lemma_slot_fits(&self)
        ensures
            0 <= self.slot() <= usize::MAX,
    {
    }

    /// A handle is its slot and its number, nothing more.
    pub proof fn lemma_same(a: StrongRef<V>, b: StrongRef<V>)
        requires
            a.slot() == b.slot(),
            a.id() == b.id(),
        ensures
            a == b,
    {
    }
}

impl<V> WeakRef<V> {
    /// The empty handle.
    pub closed spec fn empty() -> WeakRef<V> {
        WeakRef { slot: None, serial: Ghost(0), owner: PhantomData }
    }

    /// The slot of the record this handle observes; `None` for the empty
    /// handle.
    pub closed spec fn target(&self) -> Option<int> {
        match self.slot {
            Some(s) => Some(s as int),
            None => None,
        }
    }

    /// The weak handle to `slot` with the number `id`.
    pub closed spec fn to(slot: int, id: nat) -> WeakRef<V> {
        WeakRef { slot: Some(slot as usize), serial: Ghost(id), owner: PhantomData }
    }

    /// `to` gives the handle with that target and that number.
    pub proof fn lemma_to(slot: int, id: nat)
        requires
            0 <= slot <= usize::MAX,
        ensures
            Self::to(slot, id).target() == Some(slot),
            Self::to(slot, id).id() == id,
    {
    }

    /// A handle is its target and its number, nothing more.
    pub proof fn lemma_same(a: WeakRef<V>, b: WeakRef<V>)
        requires
            a.target() == b.target(),
            a.id() == b.id(),
        ensures
            a == b,
    {
    }

    /// The number under which the record knows this handle.
    pub closed spec fn id(&self) -> nat {
        self.serial@
    }
}

impl<V> StrongRef<V> {
    /// Allocates a record for `value` in the next slot, with this one strong
    /// handle and no weak handle.
    pub fn new(heap: &mut Heap<V>, value: V) -> (h: StrongRef<V>)
        requires
            old(heap).wf(),
        ensures
            final(heap).wf(),
            h.slot() == old(heap)@.len(),
            final(heap)@ == old(heap)@.push(Some(RecordView::fresh(value, h.id()))),
            evolves(old(heap)@, final(heap)@),
    {
        let ghost id = heap.issued@;
        let ghost before = heap@;
        let slot = heap.slots.len();
        heap.slots.push(
            Some(
                Record {
                    value: Some(value),
                    strong: 1,
                    weak: 0,
                    strong_ids: Ghost(Set::empty().insert(id)),
                    weak_ids: Ghost(Set::empty()),
                },
            ),
        );
        heap.issued = Ghost(id + 1);
        assert(heap@ =~= before.push(Some(RecordView::fresh(value, id))));
        StrongRef { slot, serial: Ghost(id), owner: PhantomData }
    }

    /// A second handle to the same record. The value is not copied; the
    /// strong counter goes up by one.
    pub fn clone(&self, heap: &mut Heap<V>) -> (h: StrongRef<V>)
        requires
            old(heap).wf(),
            old(heap).holds(*self),
            old(heap).strong_handles(self.slot()).len() < usize::MAX,
        ensures
            final(heap).wf(),
            h.slot() == self.slot(),
            !old(heap).strong_handles(self.slot()).contains(h.id()),
            final(heap)@ == old(heap)@.update(
                self.slot(),
                Some(old(heap)@[self.slot()]->0.add_strong(h.id())),
            ),
            evolves(old(heap)@, final(heap)@),
    {
        let ghost id = heap.issued@;
        let ghost before = heap@;
        proof {
            heap.lemma_counters(self.slot());
        }
        match &mut heap.slots[self.slot] {
            Some(r) => {
                r.strong = r.strong + 1;
                r.strong_ids = Ghost(r.strong_ids@.insert(id));
            },
            None => {},
        }
        heap.issued = Ghost(id + 1);
        assert(heap@ =~= before.update(self.slot(), Some(before[self.slot()]->0.add_strong(id))));
        StrongRef { slot: self.slot, serial: Ghost(id), owner: PhantomData }
    }

    /// The number of live strong handles to this handle's record.
    pub fn strong_count(&self, heap: &Heap<V>) -> (n: usize)
        requires
            heap.wf(),
            heap.holds(*self),
        ensures
            n == heap.strong_handles(self.slot()).len(),
            n == heap.strong_counter(self.slot()),
            n >= 1,
    {
        proof {
            heap.lemma_counters(self.slot());
        }
        match &heap.slots[self.slot] {
            Some(r) => r.strong,
            None => 0,
        }
    }

    /// The number of live weak handles to this handle's record.
    pub fn weak_count(&self, heap: &Heap<V>) -> (n: usize)
        requires
            heap.wf(),
            heap.holds(*self),
        ensures
            n == heap.weak_handles(self.slot()).len(),
            n == heap.weak_counter(self.slot()),
    {
        proof {
            heap.lemma_counters(self.slot());
        }
        match &heap.slots[self.slot] {
            Some(r) => r.weak,
            None => 0,
        }
    }

    /// A weak handle to the same record. The weak counter goes up by one;
    /// the strong counter and the value are untouched.
    pub fn downgrade(&self, heap: &mut Heap<V>) -> (w: WeakRef<V>)
        requires
            old(heap).wf(),
            old(heap).holds(*self),
            old(heap).weak_handles(self.slot()).len() < usize::MAX,
        ensures
            final(heap).wf(),
            w.target() == Some(self.slot()),
            !old(heap).weak_handles(self.slot()).contains(w.id()),
            final(heap)@ == old(heap)@.update(
                self.slot(),
                Some(old(heap)@[self.slot()]->0.add_weak(w.id())),
            ),
            evolves(old(heap)@, final(heap)@),
    {
        let ghost id = heap.issued@;
        let ghost before = heap@;
        proof {
            heap.lemma_counters(self.slot());
        }
        match &mut heap.slots[self.slot] {
            Some(r) => {
                r.weak = r.weak + 1;
                r.weak_ids = Ghost(r.weak_ids@.insert(id));
            },
            None => {},
        }
        heap.issued = Ghost(id + 1);
        assert(heap@ =~= before.update(self.slot(), Some(before[self.slot()]->0.add_weak(id))));
        WeakRef { slot: Some(self.slot), serial: Ghost(id), owner: PhantomData }
    }

    /// Gives the handle up. The strong counter goes down by one. With the
    /// last strong handle the value leaves the heap and is returned, for the
    /// caller to dispose of; the record stays while a weak handle is left.
    pub fn release(self, heap: &mut Heap<V>) -> (freed: Option<V>)
        requires
            old(heap).wf(),
            old(heap).holds(self),
        ensures
            final(heap).wf(),
            final(heap)@ == old(heap)@.update(
                self.slot(),
                old(heap)@[self.slot()]->0.drop_strong(self.id()),
            ),
            freed == if old(heap).strong_handles(self.slot()).remove(self.id()).is_empty() {
                old(heap).value_at(self.slot())
            } else {
                None
            },
            freed is Some <==> old(heap).strong_handles(self.slot()).len() == 1,
            evolves(old(heap)@, final(heap)@),
    {
        let ghost before = heap@;
        proof {
            heap.lemma_counters(self.slot());
        }
        let mut freed: Option<V> = None;
        let mut gone = false;
        match &mut heap.slots[self.slot] {
            Some(r) => {
                r.strong = r.strong - 1;
                r.strong_ids = Ghost(r.strong_ids@.remove(self.serial@));
                if r.strong == 0 {
                    freed = r.value.take();
                    gone = r.weak == 0;
                }
                proof {
                    if r.strong_ids@.len() == 0 {
                        assert(r.strong_ids@.is_empty());
                    }
                    if r.weak_ids@.len() == 0 {
                        assert(r.weak_ids@.is_empty());
                    }
                }
            },
            None => {},
        }
        if gone {
            heap.slots[self.slot] = None;
        }
        assert(heap@ =~= before.update(
            self.slot(),
            before[self.slot()]->0.drop_strong(self.id()),
        ));
        freed
    }

    /// The slot of the record this handle points to.
    pub fn index(&self) -> (slot: usize)
        ensures
            slot == self.slot(),
    {
        self.slot
    }

    /// A second token for this same handle. Nothing is counted: the two
    /// tokens stand for one handle, and only one of them may be released.
    /// This is for reading through a handle that a value in the heap stores
    /// while the heap itself has to change.
    pub(crate) fn alias(&self) -> (h: StrongRef<V>)
        ensures
            h == *self,
    {
        StrongRef { slot: self.slot, serial: Ghost(self.serial@), owner: PhantomData }
    }

    /// The value this handle keeps alive.
    pub fn get<'a>(&self, heap: &'a Heap<V>) -> (v: &'a V)
        requires
            heap.wf(),
            heap.holds(*self),
        ensures
            heap.value_at(self.slot()) == Some(*v),
    {
        proof {
            heap.lemma_counters(self.slot());
        }
        match &heap.slots[self.slot] {
            Some(r) => match &r.value {
                Some(v) => v,
                None => vstd::pervasive::unreached(),
            },
            None => vstd::pervasive::unreached(),
        }
    }

    /// The value this handle keeps alive, open to change. What the caller
    /// leaves there is the record's new value; the handles are untouched.
    pub fn get_mut<'a>(&self, heap: &'a mut Heap<V>) -> (v: &'a mut V)
        requires
            old(heap).wf(),
            old(heap).holds(*self),
        ensures
            old(heap).value_at(self.slot()) == Some(*v),
            final(heap).wf(),
            final(heap)@ == old(heap)@.update(
                self.slot(),
                Some(old(heap)@[self.slot()]->0.with_value(*final(v))),
            ),
            evolves(old(heap)@, final(heap)@),
    {
        proof {
            heap.lemma_counters(self.slot());
        }
        match &mut heap.slots[self.slot] {
            Some(r) => match &mut r.value {
                Some(v) => v,
                None => vstd::pervasive::unreached(),
            },
            None => vstd::pervasive::unreached(),
        }
    }
}

/// Whether an upgrade of `w` in `heap` would give a strong handle: `w` has a
/// target, and a strong handle to it is live.
pub open spec fn upgradable<V>(heap: Seq<Option<RecordView<V>>>, w: WeakRef<V>) -> bool {
    w.target() matches Some(slot) && !dead_at(heap, slot)
}

/// Once the last strong handle to a record has been released, no weak
/// handle to it upgrades again, in that heap or in any that follows it.
pub proof fn lemma_dead_stays_dead<V>(
    pre: Seq<Option<RecordView<V>>>,
    post: Seq<Option<RecordView<V>>>,
    w: WeakRef<V>,
)
    requires
        evolves(pre, post),
        w.target() matches Some(slot) && 0 <= slot < pre.len(),
        !upgradable(pre, w),
    ensures
        !upgradable(post, w),
{
}

impl<V> WeakRef<V> {
    /// The empty handle: it observes no record and never upgrades.
    pub fn new() -> (w: WeakRef<V>)
        ensures
            w == WeakRef::<V>::empty(),
            w.target().is_none(),
    {
        WeakRef { slot: None, serial: Ghost(0), owner: PhantomData }
    }

    /// A second token for this same handle. Nothing is counted: the two
    /// tokens stand for one handle, and only one of them may be released.
    pub(crate) fn alias(&self) -> (w: WeakRef<V>)
        ensures
            w == *self,
    {
        WeakRef { slot: self.slot, serial: Ghost(self.serial@), owner: PhantomData }
    }

    /// Whether this is the empty handle.
    pub fn is_empty(&self) -> (b: bool)
        ensures
            b == self.target().is_none(),
    {
        self.slot.is_none()
    }

    /// Tries to get a strong handle. There is one to be had exactly when the
    /// record still has a strong handle: the test and the count go together.
    /// Otherwise the result is `None` and the heap is as it was.
    pub fn upgrade(&self, heap: &mut Heap<V>) -> (r: Option<StrongRef<V>>)
        requires
            old(heap).wf(),
            self.target().is_some() ==> old(heap).holds_weak(*self),
            self.target() matches Some(slot) ==> old(heap).strong_handles(slot).len()
                < usize::MAX,
        ensures
            final(heap).wf(),
            r is Some <==> upgradable(old(heap)@, *self),
            r is None ==> final(heap)@ == old(heap)@,
            r matches Some(h) ==> {
                &&& self.target() == Some(h.slot())
                &&& !old(heap).strong_handles(h.slot()).contains(h.id())
                &&& final(heap)@ == old(heap)@.update(
                    h.slot(),
                    Some(old(heap)@[h.slot()]->0.add_strong(h.id())),
                )
            },
            evolves(old(heap)@, final(heap)@),
    {
        let slot = match self.slot {
            Some(slot) => slot,
            None => {
                return None;
            },
        };
        let ghost id = heap.issued@;
        let ghost before = heap@;
        proof {
            heap.lemma_counters(slot as int);
        }
        let mut alive = false;
        match &mut heap.slots[slot] {
            Some(r) => {
                if r.strong > 0 {
                    r.strong = r.strong + 1;
                    r.strong_ids = Ghost(r.strong_ids@.insert(id));
                    alive = true;
                }
            },
            None => {},
        }
        if alive {
            heap.issued = Ghost(id + 1);
            assert(heap@ =~= before.update(slot as int, Some(before[slot as int]->0.add_strong(id))));
            Some(StrongRef { slot, serial: Ghost(id), owner: PhantomData })
        } else {
            assert(heap@ =~= before);
            None
        }
    }

    /// A second weak handle to the same record; of the empty handle, another
    /// empty handle.
    pub fn clone(&self, heap: &mut Heap<V>) -> (w: WeakRef<V>)
        requires
            old(heap).wf(),
            self.target().is_some() ==> old(heap).holds_weak(*self),
            self.target() matches Some(slot) ==> old(heap).weak_handles(slot).len() < usize::MAX,
        ensures
            final(heap).wf(),
            w.target() == self.target(),
            self.target().is_none() ==> final(heap)@ == old(heap)@,
            self.target() matches Some(slot) ==> {
                &&& !old(heap).weak_handles(slot).contains(w.id())
                &&& final(heap)@ == old(heap)@.update(
                    slot,
                    Some(old(heap)@[slot]->0.add_weak(w.id())),
                )
            },
            evolves(old(heap)@, final(heap)@),
    {
        let slot = match self.slot {
            Some(slot) => slot,
            None => {
                return WeakRef::new();
            },
        };
        let ghost id = heap.issued@;
        let ghost before = heap@;
        proof {
            heap.lemma_counters(slot as int);
        }
        match &mut heap.slots[slot] {
            Some(r) => {
                r.weak = r.weak + 1;
                r.weak_ids = Ghost(r.weak_ids@.insert(id));
            },
            None => {},
        }
        heap.issued = Ghost(id + 1);
        assert(heap@ =~= before.update(slot as int, Some(before[slot as int]->0.add_weak(id))));
        WeakRef { slot: Some(slot), serial: Ghost(id), owner: PhantomData }
    }

    /// Gives the handle up. The weak counter goes down by one, and the
    /// record goes with the last handle. Releasing the empty handle changes
    /// nothing.
    pub fn release(self, heap: &mut Heap<V>)
        requires
            old(heap).wf(),
            self.target().is_some() ==> old(heap).holds_weak(self),
        ensures
            final(heap).wf(),
            self.target().is_none() ==> final(heap)@ == old(heap)@,
            self.target() matches Some(slot) ==> final(heap)@ == old(heap)@.update(
                slot,
                old(heap)@[slot]->0.drop_weak(self.id()),
            ),
            evolves(old(heap)@, final(heap)@),
    {
        let slot = match self.slot {
            Some(slot) => slot,
            None => {
                return ;
            },
        };
        let ghost before = heap@;
        proof {
            heap.lemma_counters(slot as int);
        }
        let mut gone = false;
        match &mut heap.slots[slot] {
            Some(r) => {
                r.weak = r.weak - 1;
                r.weak_ids = Ghost(r.weak_ids@.remove(self.serial@));
                gone = r.strong == 0 && r.weak == 0;
                proof {
                    if r.strong_ids@.len() == 0 {
                        assert(r.strong_ids@.is_empty());
                    }
                    if r.weak_ids@.len() == 0 {
                        assert(r.weak_ids@.is_empty());
                    }
                }
            },
            None => {},
        }
        if gone {
            heap.slots[slot] = None;
        }
        assert(heap@ =~= before.update(slot as int, before[slot as int]->0.drop_weak(self.id())));
    }
}

} // verus!
