use rust_primer::cell::{BorrowConflict, BorrowState, MutableCell};

#[test]
fn a_new_cell_is_unborrowed() {
    let cell = MutableCell::new(5);
    assert_eq!(cell.borrow_state(), BorrowState::Unborrowed);
    assert_eq!(cell.into_inner(), 5);
}

#[test]
fn readers_coexist() {
    let mut cell = MutableCell::new(String::from("shared"));
    let a = cell.borrow().ok().unwrap();
    assert_eq!(cell.borrow_state(), BorrowState::Shared(1));
    let b = cell.borrow().ok().unwrap();
    let c = cell.borrow().ok().unwrap();
    assert_eq!(cell.borrow_state(), BorrowState::Shared(3));
    assert_eq!(cell.get(&a), "shared");
    assert_eq!(cell.get(&b), "shared");
    cell.release_read(b);
    assert_eq!(cell.borrow_state(), BorrowState::Shared(2));
    cell.release_read(a);
    cell.release_read(c);
    assert_eq!(cell.borrow_state(), BorrowState::Unborrowed);
}

#[test]
fn a_reader_blocks_the_writer() {
    let mut cell = MutableCell::new(1);
    let reader = cell.borrow().ok().unwrap();
    assert_eq!(cell.borrow_mut().err(), Some(BorrowConflict));
    // the refusal changed nothing
    assert_eq!(cell.borrow_state(), BorrowState::Shared(1));
    cell.release_read(reader);
    assert!(cell.borrow_mut().is_ok());
}

#[test]
fn the_writer_blocks_everybody() {
    let mut cell = MutableCell::new(1);
    let writer = cell.borrow_mut().ok().unwrap();
    assert_eq!(cell.borrow_state(), BorrowState::Exclusive);
    assert_eq!(cell.borrow().err(), Some(BorrowConflict));
    assert_eq!(cell.borrow_mut().err(), Some(BorrowConflict));
    assert_eq!(cell.borrow_state(), BorrowState::Exclusive);
    cell.release_write(writer);
    assert_eq!(cell.borrow_state(), BorrowState::Unborrowed);
}

#[test]
fn borrow_after_the_write_handle_is_released() {
    // a cell of children, as a node has it
    let mut children: MutableCell<Vec<u32>> = MutableCell::new(Vec::new());
    let writer = children.borrow_mut().ok().unwrap();
    assert!(children.borrow().is_err());
    children.release_write(writer);
    let reader = children.borrow().ok().unwrap();
    assert!(children.get(&reader).is_empty());
    children.release_read(reader);
}

#[test]
fn the_writer_changes_the_value() {
    let mut cell = MutableCell::new(vec![1, 2]);
    let writer = cell.borrow_mut().ok().unwrap();
    cell.get_mut(&writer).push(3);
    assert_eq!(cell.peek(&writer), &vec![1, 2, 3]);
    let previous = cell.replace(&writer, vec![9]);
    assert_eq!(previous, vec![1, 2, 3]);
    assert_eq!(cell.borrow_state(), BorrowState::Exclusive);
    cell.release_write(writer);
    let reader = cell.borrow().ok().unwrap();
    assert_eq!(cell.get(&reader), &vec![9]);
    cell.release_read(reader);
    assert_eq!(cell.into_inner(), vec![9]);
}

#[test]
fn a_scope_gives_its_borrow_back() {
    let mut cell = MutableCell::new(vec![1, 2, 3]);
    assert_eq!(cell.with_borrow(|v| v.len()), Ok(3));
    assert_eq!(cell.borrow_state(), BorrowState::Unborrowed);
    assert_eq!(cell.with_borrow_mut(|v| v.iter().map(|x| x * 2).collect()), Ok(()));
    assert_eq!(cell.borrow_state(), BorrowState::Unborrowed);
    assert_eq!(cell.with_borrow(|v| v.clone()), Ok(vec![2, 4, 6]));
}

#[test]
fn a_scope_is_refused_like_a_borrow() {
    let mut cell = MutableCell::new(1);
    let reader = cell.borrow().ok().unwrap();
    // reading beside a reader is fine, and leaves the reader its share
    assert_eq!(cell.with_borrow(|v| *v + 1), Ok(2));
    assert_eq!(cell.borrow_state(), BorrowState::Shared(1));
    // writing is not
    let mut called = false;
    assert_eq!(
        cell.with_borrow_mut(|v| {
            called = true;
            *v + 1
        }),
        Err(BorrowConflict)
    );
    assert!(!called);
    cell.release_read(reader);
    let writer = cell.borrow_mut().ok().unwrap();
    assert_eq!(cell.with_borrow(|v| *v), Err(BorrowConflict));
    assert_eq!(cell.with_borrow_mut(|v| *v), Err(BorrowConflict));
    cell.release_write(writer);
    assert_eq!(cell.into_inner(), 1);
}
