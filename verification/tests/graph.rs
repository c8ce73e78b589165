use rust_primer::cell::BorrowConflict;
use rust_primer::graph::NodeGraph;

#[test]
fn a_new_node_has_no_parent_and_no_children() {
    let mut graph = NodeGraph::new();
    let leaf = graph.create_node(3);
    assert_eq!(graph.value(&leaf), 3);
    assert!(graph.resolve_parent(&leaf).ok().unwrap().is_none());
    assert_eq!(graph.strong_count(&leaf), 1);
    assert_eq!(graph.weak_count(&leaf), 0);
    let reading = graph.borrow_children(&leaf).ok().unwrap();
    assert_eq!(graph.child_count(&leaf, &reading), 0);
    graph.release_children(&leaf, reading);
    graph.release(leaf);
}

#[test]
fn attach_child_links_both_ways() {
    let mut graph = NodeGraph::new();
    let a = graph.create_node(1);
    let b = graph.create_node(2);
    assert_eq!(graph.attach_child(&a, &b), Ok(()));

    // the child finds the parent
    let parent = graph.resolve_parent(&b).ok().unwrap().unwrap();
    assert_eq!(graph.value(&parent), 1);
    graph.release(parent);

    // the parent holds the child once
    let reading = graph.borrow_children(&a).ok().unwrap();
    assert_eq!(graph.child_count(&a, &reading), 1);
    let child = graph.child(&a, &reading, 0);
    assert_eq!(graph.value(&child), 2);
    graph.release_children(&a, reading);
    graph.release(child);

    // the child is owned by the caller and by the parent, the parent is
    // observed by the child
    assert_eq!(graph.strong_count(&b), 2);
    assert_eq!(graph.weak_count(&b), 0);
    assert_eq!(graph.strong_count(&a), 1);
    assert_eq!(graph.weak_count(&a), 1);
    graph.release(a);
    graph.release(b);
}

#[test]
fn each_attach_adds_the_child_once() {
    let mut graph = NodeGraph::new();
    let a = graph.create_node(1);
    let b = graph.create_node(2);
    let c = graph.create_node(3);
    assert!(graph.attach_child(&a, &b).is_ok());
    assert!(graph.attach_child(&a, &c).is_ok());
    assert!(graph.attach_child(&a, &b).is_ok());
    let reading = graph.borrow_children(&a).ok().unwrap();
    assert_eq!(graph.child_count(&a, &reading), 3);
    let mut values = Vec::new();
    for i in 0..3 {
        let child = graph.child(&a, &reading, i);
        values.push(graph.value(&child));
        graph.release(child);
    }
    graph.release_children(&a, reading);
    assert_eq!(values, vec![2, 3, 2]);
    assert_eq!(graph.strong_count(&b), 3);
    assert_eq!(graph.strong_count(&c), 2);
    assert_eq!(graph.weak_count(&a), 2);
}

#[test]
fn the_parent_is_absent_once_it_is_dropped() {
    let mut graph = NodeGraph::new();
    let a = graph.create_node(1);
    let b = graph.create_node(2);
    assert!(graph.attach_child(&a, &b).is_ok());
    let parent = graph.resolve_parent(&b).ok().unwrap().unwrap();
    assert_eq!(graph.value(&parent), 1);
    graph.release(parent);

    graph.release(a);

    assert!(graph.resolve_parent(&b).ok().unwrap().is_none());
    // and stays absent
    assert!(graph.resolve_parent(&b).ok().unwrap().is_none());
    // the child is alive and well, with the caller as its only owner
    assert_eq!(graph.value(&b), 2);
    assert_eq!(graph.strong_count(&b), 1);
    graph.release(b);
}

#[test]
fn a_child_that_is_held_elsewhere_outlives_its_parent() {
    let mut graph = NodeGraph::new();
    let leaf = graph.create_node(3);
    {
        let branch = graph.create_node(5);
        assert!(graph.attach_child(&branch, &leaf).is_ok());
        assert_eq!(graph.strong_count(&branch), 1);
        assert_eq!(graph.weak_count(&branch), 1);
        assert_eq!(graph.strong_count(&leaf), 2);
        assert_eq!(graph.weak_count(&leaf), 0);
        graph.release(branch);
    }
    assert!(graph.resolve_parent(&leaf).ok().unwrap().is_none());
    assert_eq!(graph.strong_count(&leaf), 1);
    assert_eq!(graph.weak_count(&leaf), 0);
    assert_eq!(graph.value(&leaf), 3);
}

#[test]
fn a_parent_takes_the_children_it_alone_owns() {
    let mut graph = NodeGraph::new();
    let root = graph.create_node(0);
    let child = graph.create_node(1);
    let grandchild = graph.create_node(2);
    assert!(graph.attach_child(&root, &child).is_ok());
    assert!(graph.attach_child(&child, &grandchild).is_ok());
    // keep an eye on the grandchild only
    graph.release(child);
    assert_eq!(graph.strong_count(&grandchild), 2);
    let parent = graph.resolve_parent(&grandchild).ok().unwrap().unwrap();
    assert_eq!(graph.value(&parent), 1);
    graph.release(parent);

    // the root goes, and with it the child that only the root owned
    graph.release(root);
    assert!(graph.resolve_parent(&grandchild).ok().unwrap().is_none());
    assert_eq!(graph.strong_count(&grandchild), 1);
    assert_eq!(graph.value(&grandchild), 2);
    graph.release(grandchild);
}

#[test]
fn a_long_chain_is_released_without_recursion() {
    let mut graph = NodeGraph::new();
    let root = graph.create_node(0);
    let mut last = graph.clone_ref(&root);
    for i in 1..20_000 {
        let next = graph.create_node(i);
        assert!(graph.attach_child(&last, &next).is_ok());
        graph.release(last);
        last = next;
    }
    assert_eq!(graph.strong_count(&last), 2);
    graph.release(root);
    assert_eq!(graph.strong_count(&last), 1);
    assert!(graph.resolve_parent(&last).ok().unwrap().is_none());
    assert_eq!(graph.value(&last), 19_999);
}

#[test]
fn reattaching_moves_the_parent_link() {
    let mut graph = NodeGraph::new();
    let a = graph.create_node(1);
    let b = graph.create_node(2);
    let c = graph.create_node(3);
    assert!(graph.attach_child(&a, &c).is_ok());
    assert!(graph.attach_child(&b, &c).is_ok());
    let parent = graph.resolve_parent(&c).ok().unwrap().unwrap();
    assert_eq!(graph.value(&parent), 2);
    graph.release(parent);
    // the old link is gone, the old entry is not
    assert_eq!(graph.weak_count(&a), 0);
    assert_eq!(graph.weak_count(&b), 1);
    assert_eq!(graph.strong_count(&c), 3);
}

#[test]
fn a_cycle_of_owners_is_not_released() {
    let mut graph = NodeGraph::new();
    let a = graph.create_node(1);
    let b = graph.create_node(2);
    assert!(graph.attach_child(&a, &b).is_ok());
    assert!(graph.attach_child(&b, &a).is_ok());
    let watch = graph.clone_ref(&a);
    assert_eq!(graph.strong_count(&a), 3);
    graph.release(a);
    graph.release(b);
    // each is still owned by the other
    assert_eq!(graph.strong_count(&watch), 2);
    let parent = graph.resolve_parent(&watch).ok().unwrap().unwrap();
    assert_eq!(graph.value(&parent), 2);
}

#[test]
fn borrowed_children_refuse_a_new_child() {
    let mut graph = NodeGraph::new();
    let a = graph.create_node(1);
    let b = graph.create_node(2);
    // while the children are read
    let reading = graph.borrow_children(&a).ok().unwrap();
    assert_eq!(graph.attach_child(&a, &b), Err(BorrowConflict));
    assert_eq!(graph.child_count(&a, &reading), 0);
    assert_eq!(graph.strong_count(&b), 1);
    assert_eq!(graph.weak_count(&a), 0);
    graph.release_children(&a, reading);
    // while the children are written
    let writing = graph.borrow_children_mut(&a).ok().unwrap();
    assert_eq!(graph.attach_child(&a, &b), Err(BorrowConflict));
    graph.release_children_mut(&a, writing);
    assert_eq!(graph.attach_child(&a, &b), Ok(()));
}

#[test]
fn children_borrowed_for_writing_cannot_be_read() {
    let mut graph = NodeGraph::new();
    let a = graph.create_node(1);
    let writing = graph.borrow_children_mut(&a).ok().unwrap();
    assert_eq!(graph.borrow_children(&a).err(), Some(BorrowConflict));
    assert_eq!(graph.borrow_children_mut(&a).err(), Some(BorrowConflict));
    graph.release_children_mut(&a, writing);
    let reading = graph.borrow_children(&a).ok().unwrap();
    let again = graph.borrow_children(&a).ok().unwrap();
    assert_eq!(graph.borrow_children_mut(&a).err(), Some(BorrowConflict));
    graph.release_children(&a, reading);
    graph.release_children(&a, again);
    assert!(graph.borrow_children_mut(&a).is_ok());
}

#[test]
fn a_node_can_be_its_own_child() {
    let mut graph = NodeGraph::new();
    let a = graph.create_node(1);
    assert!(graph.attach_child(&a, &a).is_ok());
    assert_eq!(graph.strong_count(&a), 2);
    assert_eq!(graph.weak_count(&a), 1);
    let parent = graph.resolve_parent(&a).ok().unwrap().unwrap();
    assert_eq!(graph.value(&parent), 1);
}

#[test]
fn releasing_parent_and_child_leaves_nothing() {
    let mut graph = NodeGraph::new();
    let p = graph.create_node(1);
    let c = graph.create_node(2);
    let (p_slot, c_slot) = (p.index(), c.index());
    assert!(graph.attach_child(&p, &c).is_ok());
    assert!(graph.is_alive(p_slot) && graph.is_alive(c_slot));

    graph.release(c);
    // the parent still owns the child
    assert!(graph.is_alive(c_slot));
    assert_eq!(graph.strong_count_at(c_slot), 1);

    graph.release(p);
    for slot in [p_slot, c_slot] {
        assert!(!graph.is_alive(slot));
        assert_eq!(graph.strong_count_at(slot), 0);
        assert_eq!(graph.weak_count_at(slot), 0);
        assert!(!graph.has_record_at(slot));
    }
}

#[test]
fn the_other_order_leaves_nothing_either() {
    let mut graph = NodeGraph::new();
    let p = graph.create_node(1);
    let c = graph.create_node(2);
    let (p_slot, c_slot) = (p.index(), c.index());
    assert!(graph.attach_child(&p, &c).is_ok());

    graph.release(p);
    // the parent is gone, but the child's link keeps its record
    assert!(!graph.is_alive(p_slot));
    assert!(graph.has_record_at(p_slot));
    assert_eq!(graph.weak_count_at(p_slot), 1);
    assert!(graph.is_alive(c_slot));
    assert_eq!(graph.strong_count_at(c_slot), 1);

    graph.release(c);
    for slot in [p_slot, c_slot] {
        assert!(!graph.is_alive(slot));
        assert!(!graph.has_record_at(slot));
    }
    assert!(!graph.is_alive(7));
    assert_eq!(graph.strong_count_at(7), 0);
}
