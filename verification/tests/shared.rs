use rust_primer::shared::{Heap, StrongRef, WeakRef};

#[test]
fn a_new_value_has_one_strong_handle() {
    let mut heap = Heap::new();
    let a = StrongRef::new(&mut heap, String::from("five"));
    assert_eq!(a.strong_count(&heap), 1);
    assert_eq!(a.weak_count(&heap), 0);
    assert_eq!(a.get(&heap), "five");
    assert_eq!(heap.slot_count(), 1);
    assert_eq!(a.release(&mut heap), Some(String::from("five")));
}

#[test]
fn the_strong_count_is_the_number_of_live_handles() {
    let mut heap = Heap::new();
    let a = StrongRef::new(&mut heap, 5);
    assert_eq!(a.strong_count(&heap), 1);
    let b = a.clone(&mut heap);
    assert_eq!(a.strong_count(&heap), 2);
    {
        let c = a.clone(&mut heap);
        assert_eq!(a.strong_count(&heap), 3);
        assert_eq!(c.strong_count(&heap), 3);
        assert_eq!(c.release(&mut heap), None);
    }
    assert_eq!(a.strong_count(&heap), 2);
    assert_eq!(b.release(&mut heap), None);
    assert_eq!(a.strong_count(&heap), 1);
    assert_eq!(a.release(&mut heap), Some(5));
}

#[test]
fn a_clone_shares_the_value() {
    let mut heap = Heap::new();
    let a = StrongRef::new(&mut heap, 1);
    let b = a.clone(&mut heap);
    *b.get_mut(&mut heap) = 7;
    assert_eq!(*a.get(&heap), 7);
    assert_eq!(a.release(&mut heap), None);
    assert_eq!(b.release(&mut heap), Some(7));
}

#[test]
fn values_have_their_own_counts() {
    let mut heap = Heap::new();
    let a = StrongRef::new(&mut heap, 'a');
    let b = StrongRef::new(&mut heap, 'b');
    let a2 = a.clone(&mut heap);
    assert_eq!(a.strong_count(&heap), 2);
    assert_eq!(b.strong_count(&heap), 1);
    assert_eq!(heap.slot_count(), 2);
    assert_eq!(b.release(&mut heap), Some('b'));
    assert_eq!(a.release(&mut heap), None);
    assert_eq!(a2.release(&mut heap), Some('a'));
}

#[test]
fn downgrade_counts_weak_only() {
    let mut heap = Heap::new();
    let a = StrongRef::new(&mut heap, 3);
    let w = a.downgrade(&mut heap);
    assert_eq!(a.strong_count(&heap), 1);
    assert_eq!(a.weak_count(&heap), 1);
    let w2 = w.clone(&mut heap);
    assert_eq!(a.weak_count(&heap), 2);
    w2.release(&mut heap);
    assert_eq!(a.weak_count(&heap), 1);
    w.release(&mut heap);
    assert_eq!(a.weak_count(&heap), 0);
    assert_eq!(a.release(&mut heap), Some(3));
}

#[test]
fn upgrade_succeeds_while_a_strong_handle_lives() {
    let mut heap = Heap::new();
    let a = StrongRef::new(&mut heap, 3);
    let w = a.downgrade(&mut heap);
    let b = w.upgrade(&mut heap).unwrap();
    assert_eq!(a.strong_count(&heap), 2);
    assert_eq!(*b.get(&heap), 3);
    assert_eq!(a.release(&mut heap), None);
    // one strong handle is left: the upgrade still succeeds
    let c = w.upgrade(&mut heap).unwrap();
    assert_eq!(c.strong_count(&heap), 2);
    assert_eq!(b.release(&mut heap), None);
    assert_eq!(c.release(&mut heap), Some(3));
    w.release(&mut heap);
}

#[test]
fn upgrade_is_absent_for_good_after_the_last_strong_handle() {
    let mut heap = Heap::new();
    let a = StrongRef::new(&mut heap, 3);
    let w = a.downgrade(&mut heap);
    let w2 = w.clone(&mut heap);
    assert_eq!(a.release(&mut heap), Some(3));
    assert!(w.upgrade(&mut heap).is_none());
    assert!(w2.upgrade(&mut heap).is_none());
    // other allocations do not bring it back
    let other = StrongRef::new(&mut heap, 4);
    assert!(w.upgrade(&mut heap).is_none());
    let w3 = w.clone(&mut heap);
    assert!(w3.upgrade(&mut heap).is_none());
    w.release(&mut heap);
    w2.release(&mut heap);
    w3.release(&mut heap);
    assert_eq!(other.release(&mut heap), Some(4));
}

#[test]
fn the_empty_weak_handle_never_upgrades() {
    let mut heap: Heap<u8> = Heap::new();
    let w: WeakRef<u8> = WeakRef::new();
    assert!(w.is_empty());
    assert!(w.upgrade(&mut heap).is_none());
    let w2 = w.clone(&mut heap);
    assert!(w2.is_empty());
    assert!(w2.upgrade(&mut heap).is_none());
    w.release(&mut heap);
    w2.release(&mut heap);
    assert_eq!(heap.slot_count(), 0);
}

#[test]
fn a_weak_handle_is_not_empty() {
    let mut heap = Heap::new();
    let a = StrongRef::new(&mut heap, 1);
    let w = a.downgrade(&mut heap);
    assert!(!w.is_empty());
    w.release(&mut heap);
    a.release(&mut heap);
}

#[test]
fn the_record_goes_with_the_last_handle() {
    let mut heap = Heap::new();
    let a = StrongRef::new(&mut heap, 1);
    let slot = a.index();
    let w = a.downgrade(&mut heap);
    assert!(heap.has_record_at(slot));
    assert_eq!(a.release(&mut heap), Some(1));
    // the value is gone, the record is kept for the weak handle
    assert!(heap.has_record_at(slot));
    assert_eq!(heap.strong_count_at(slot), 0);
    assert_eq!(heap.weak_count_at(slot), 1);
    w.release(&mut heap);
    assert!(!heap.has_record_at(slot));
    assert_eq!(heap.weak_count_at(slot), 0);
    assert!(!heap.has_record_at(99));
    assert_eq!(heap.strong_count_at(99), 0);
    // the slot is not handed out again
    let b = StrongRef::new(&mut heap, 2);
    assert_eq!(b.index(), slot + 1);
}
