//! The handles and the cell side by side with those of the standard
//! library, through long runs of operations picked by a fixed sequence of
//! numbers: the counts and the refusals have to agree at every step.

use rust_primer::cell::MutableCell;
use rust_primer::graph::{Node as GraphNode, NodeGraph};
use rust_primer::shared::{Heap, StrongRef, WeakRef};
use std::cell::RefCell;
use std::rc::{Rc, Weak};

/// A sequence of numbers that looks random and is the same every time.
struct Sequence(u64);

impl Sequence {
    fn next(&mut self, below: usize) -> usize {
        self.0 = self.0.wrapping_mul(6364136223846793005).wrapping_add(1442695040888963407);
        ((self.0 >> 33) as usize) % below
    }
}

#[test]
fn counts_agree_with_rc() {
    let mut numbers = Sequence(1);
    for round in 0..20 {
        let mut heap = Heap::new();
        let first = StrongRef::new(&mut heap, round);
        let slot = first.index();
        let mut strong: Vec<(StrongRef<i32>, Rc<i32>)> = vec![(first, Rc::new(round))];
        let mut weak: Vec<(WeakRef<i32>, Weak<i32>)> = Vec::new();
        for _ in 0..400 {
            match numbers.next(6) {
                0 if !strong.is_empty() => {
                    let i = numbers.next(strong.len());
                    let pair = (strong[i].0.clone(&mut heap), Rc::clone(&strong[i].1));
                    strong.push(pair);
                }
                1 if !strong.is_empty() => {
                    let i = numbers.next(strong.len());
                    let (mine, theirs) = strong.swap_remove(i);
                    let last = Rc::strong_count(&theirs) == 1;
                    assert_eq!(mine.release(&mut heap).is_some(), last);
                    drop(theirs);
                }
                2 if !strong.is_empty() => {
                    let i = numbers.next(strong.len());
                    let pair = (strong[i].0.downgrade(&mut heap), Rc::downgrade(&strong[i].1));
                    weak.push(pair);
                }
                3 if !weak.is_empty() => {
                    let i = numbers.next(weak.len());
                    let mine = weak[i].0.upgrade(&mut heap);
                    let theirs = weak[i].1.upgrade();
                    assert_eq!(mine.is_some(), theirs.is_some());
                    if let (Some(mine), Some(theirs)) = (mine, theirs) {
                        strong.push((mine, theirs));
                    }
                }
                4 if !weak.is_empty() => {
                    let i = numbers.next(weak.len());
                    let pair = (weak[i].0.clone(&mut heap), weak[i].1.clone());
                    weak.push(pair);
                }
                5 if !weak.is_empty() => {
                    let i = numbers.next(weak.len());
                    let (mine, theirs) = weak.swap_remove(i);
                    mine.release(&mut heap);
                    drop(theirs);
                }
                _ => {}
            }
            for (mine, theirs) in &strong {
                assert_eq!(mine.strong_count(&heap), Rc::strong_count(theirs));
                assert_eq!(mine.weak_count(&heap), Rc::weak_count(theirs));
                assert_eq!(mine.get(&heap), &**theirs);
            }
            assert_eq!(heap.strong_count_at(slot), strong.len());
            assert_eq!(heap.weak_count_at(slot), weak.len());
            assert_eq!(heap.has_record_at(slot), !strong.is_empty() || !weak.is_empty());
            for (_, theirs) in &weak {
                assert_eq!(theirs.strong_count(), strong.len());
            }
        }
    }
}

#[test]
fn refusals_agree_with_refcell() {
    let mut numbers = Sequence(2);
    let mut mine = MutableCell::new(0u32);
    let theirs = RefCell::new(0u32);
    let mut readers = Vec::new();
    let mut writer = None;
    for _ in 0..2000 {
        match numbers.next(4) {
            0 => {
                let theirs = theirs.try_borrow();
                let mine = mine.borrow();
                assert_eq!(mine.is_ok(), theirs.is_ok());
                if let (Ok(mine), Ok(theirs)) = (mine, theirs) {
                    readers.push((mine, theirs));
                }
            }
            1 => {
                let theirs = theirs.try_borrow_mut();
                let mine = mine.borrow_mut();
                assert_eq!(mine.is_ok(), theirs.is_ok());
                if let (Ok(mine), Ok(theirs)) = (mine, theirs) {
                    writer = Some((mine, theirs));
                }
            }
            2 if !readers.is_empty() => {
                let i = numbers.next(readers.len());
                let (handle, guard) = readers.swap_remove(i);
                assert_eq!(mine.get(&handle), &*guard);
                mine.release_read(handle);
                drop(guard);
            }
            3 => {
                if let Some((handle, mut guard)) = writer.take() {
                    *mine.get_mut(&handle) += 1;
                    *guard += 1;
                    mine.release_write(handle);
                    drop(guard);
                }
            }
            _ => {}
        }
    }
}

struct RcNode {
    value: i32,
    parent: RefCell<Weak<RcNode>>,
    children: RefCell<Vec<Rc<RcNode>>>,
}

fn attach(parent: &Rc<RcNode>, child: &Rc<RcNode>) {
    parent.children.borrow_mut().push(Rc::clone(child));
    *child.parent.borrow_mut() = Rc::downgrade(parent);
}

#[test]
fn families_agree_with_rc_and_refcell() {
    let mut numbers = Sequence(3);
    for _ in 0..20 {
        let mut graph = NodeGraph::new();
        let mut held: Vec<(StrongRef<GraphNode>, Rc<RcNode>)> = Vec::new();
        for step in 0..200 {
            match numbers.next(4) {
                0 => {
                    let theirs = Rc::new(RcNode {
                        value: step,
                        parent: RefCell::new(Weak::new()),
                        children: RefCell::new(vec![]),
                    });
                    held.push((graph.create_node(step), theirs));
                }
                1 if held.len() >= 2 => {
                    // a later handle goes under an earlier one; never a
                    // node under itself
                    let c = 1 + numbers.next(held.len() - 1);
                    let p = numbers.next(c);
                    if Rc::ptr_eq(&held[p].1, &held[c].1) {
                        continue;
                    }
                    attach(&held[p].1, &held[c].1);
                    assert!(graph.attach_child(&held[p].0, &held[c].0).is_ok());
                }
                2 if !held.is_empty() => {
                    let i = numbers.next(held.len());
                    let (mine, theirs) = held.remove(i);
                    graph.release(mine);
                    drop(theirs);
                }
                3 if !held.is_empty() => {
                    let i = numbers.next(held.len());
                    let mine = graph.resolve_parent(&held[i].0).ok().unwrap();
                    let theirs = held[i].1.parent.borrow().upgrade();
                    assert_eq!(mine.is_some(), theirs.is_some());
                    if let (Some(mine), Some(theirs)) = (mine, theirs) {
                        assert_eq!(graph.value(&mine), theirs.value);
                        held.push((mine, theirs));
                    }
                }
                _ => {}
            }
            for (mine, theirs) in &held {
                assert_eq!(graph.value(mine), theirs.value);
                assert_eq!(graph.strong_count(mine), Rc::strong_count(theirs));
                assert_eq!(graph.weak_count(mine), Rc::weak_count(theirs));
            }
        }
    }
}
