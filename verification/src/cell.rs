//! A cell whose contents are borrowed under a rule checked at run time: any
//! number of readers, or one writer, never both.
//!
//! A borrow hands out a handle. The handle is a token, not a reference: the
//! cell stays usable while handles are outstanding, and a request that would
//! break the rule is refused at once with [`BorrowConflict`]. Each handle
//! carries a ghost serial number, and the cell keeps the ghost set of the
//! numbers it has issued and not yet taken back, so that "this handle is
//! outstanding" is something a contract can say.

use vstd::prelude::*;

verus! {

/// A borrow was requested that the cell's current state forbids.
#[derive(Debug, Clone, Copy, PartialEq, Eq, Structural)]
pub struct BorrowConflict;

/// What a cell has currently lent out.
#[derive(Debug, Clone, Copy, PartialEq, Eq, Structural)]
pub enum BorrowState {
    /// No handle is outstanding.
    Unborrowed,
    /// That many read handles are outstanding, at least one.
    Shared(usize),
    /// The write handle is outstanding.
    Exclusive,
}

/// Proof of one shared borrow of a [`MutableCell`].
pub struct ReadHandle {
    serial: Ghost<nat>,
}

/// Proof of the exclusive borrow of a [`MutableCell`].
pub struct WriteHandle {
    serial: Ghost<nat>,
}

impl ReadHandle {
    /// The number under which the cell knows this handle.
    pub closed spec fn id(&self) -> nat {
        self.serial@
    }
}

impl WriteHandle {
    /// The number under which the cell knows this handle.
    pub closed spec fn id(&self) -> nat {
        self.serial@
    }
}

/// What a contract sees of a cell's lending: the state counter and the
/// handles that are outstanding.
pub struct BorrowView {
    /// The borrow state.
    pub state: BorrowState,
    /// The serial numbers of the outstanding read handles.
    pub readers: Set<nat>,
    /// The serial number of the outstanding write handle.
    pub writer: Option<nat>,
}

impl BorrowView {
    /// The lending of a cell that nobody has borrowed.
    pub open spec fn idle() -> BorrowView {
        BorrowView { state: BorrowState::Unborrowed, readers: Set::empty(), writer: None }
    }

    /// The lending after one more read handle, `id`, was handed out.
    pub open spec fn lend_read(self, id: nat) -> BorrowView {
        BorrowView {
            state: BorrowState::Shared((self.readers.len() + 1) as usize),
            readers: self.readers.insert(id),
            writer: self.writer,
        }
    }

    /// The lending after the write handle, `id`, was handed out.
    pub open spec fn lend_write(self, id: nat) -> BorrowView {
        BorrowView { state: BorrowState::Exclusive, readers: self.readers, writer: Some(id) }
    }

    /// The lending after read handle `id` came back.
    pub open spec fn take_back_read(self, id: nat) -> BorrowView {
        BorrowView {
            state: if self.readers.len() == 1 {
                BorrowState::Unborrowed
            } else {
                BorrowState::Shared((self.readers.len() - 1) as usize)
            },
            readers: self.readers.remove(id),
            writer: self.writer,
        }
    }

    /// The lending after the write handle came back.
    pub open spec fn take_back_write(self) -> BorrowView {
        BorrowView { state: BorrowState::Unborrowed, readers: self.readers, writer: None }
    }
}

/// A value together with the record of who has borrowed it.
pub struct MutableCell<V> {
    value: V,
    state: BorrowState,
    readers: Ghost<Set<nat>>,
    writer: Ghost<Option<nat>>,
    issued: Ghost<nat>,
}

impl<V> MutableCell<V> {
    /// The contents of the cell.
    pub closed spec fn value(&self) -> V {
        self.value
    }

    /// The borrow state of the cell.
    pub closed spec fn state(&self) -> BorrowState {
        self.state
    }

    /// The serial numbers of the read handles that are outstanding.
    pub closed spec fn read_handles(&self) -> Set<nat> {
        self.readers@
    }

    /// The serial number of the write handle, while it is outstanding.
    pub closed spec fn write_handle(&self) -> Option<nat> {
        self.writer@
    }

    /// The state counter agrees with the handles that are outstanding.
    pub closed spec fn wf(&self) -> bool {
        &&& self.readers@.finite()
        &&& forall|id: nat| self.readers@.contains(id) ==> id < self.issued@
        &&& self.writer@ matches Some(id) ==> id < self.issued@
        &&& match self.state {
            BorrowState::Unborrowed => self.readers@.is_empty() && self.writer@.is_none(),
            BorrowState::Shared(n) => n >= 1 && self.readers@.len() == n && self.writer@.is_none(),
            BorrowState::Exclusive => self.readers@.is_empty() && self.writer@.is_some(),
        }
    }

    /// `h` is a read handle of this cell that has not been released.
    pub open spec fn holds_read(&self, h: ReadHandle) -> bool {
        self.read_handles().contains(h.id())
    }

    /// `h` is the write handle of this cell and has not been released.
    pub open spec fn holds_write(&self, h: WriteHandle) -> bool {
        self.write_handle() == Some(h.id())
    }

    /// A shared borrow would be granted.
    pub open spec fn can_borrow(&self) -> bool {
        self.state() != BorrowState::Exclusive
    }

    /// The exclusive borrow would be granted.
    pub open spec fn can_borrow_mut(&self) -> bool {
        self.state() == BorrowState::Unborrowed
    }

    /// The state counter and the outstanding handles, together.
    pub open spec fn borrows(&self) -> BorrowView {
        BorrowView {
            state: self.state(),
            readers: self.read_handles(),
            writer: self.write_handle(),
        }
    }

    /// The state counter determines the handles, and the handles the state.
    pub proof fn lemma_state_counts_handles(&self)
        requires
            self.wf(),
        ensures
            self.read_handles().finite(),
            self.state() == BorrowState::Unborrowed <==> self.read_handles().is_empty()
                && self.write_handle().is_none(),
            self.state() == BorrowState::Exclusive <==> self.write_handle().is_some(),
            self.state() matches BorrowState::Shared(n) ==> n >= 1 && self.read_handles().len()
                == n,
            self.write_handle().is_some() ==> self.read_handles().is_empty(),
            !self.read_handles().is_empty() ==> self.state() == BorrowState::Shared(
                self.read_handles().len() as usize,
            ),
    {
        if self.readers@.len() == 0 {
            assert(self.readers@.is_empty());
        }
    }

    /// A shared borrow that is given back leaves the lending as it was.
    pub proof fn lemma_read_round_trip(&self, id: nat)
        requires
            self.wf(),
            self.can_borrow(),
            !self.read_handles().contains(id),
            self.state() != BorrowState::Shared(usize::MAX),
        ensures
            self.borrows().lend_read(id).take_back_read(id) == self.borrows(),
    {
        self.lemma_state_counts_handles();
        let lent = self.borrows().lend_read(id);
        assert(lent.readers.remove(id) =~= self.read_handles());
        if self.readers@.len() == 0 {
            assert(self.readers@.is_empty());
        }
    }

    /// The exclusive borrow that is given back leaves the lending as it was.
    pub proof fn lemma_write_round_trip(&self, id: nat)
        requires
            self.wf(),
            self.can_borrow_mut(),
        ensures
            self.borrows().lend_write(id).take_back_write() == self.borrows(),
    {
        self.lemma_state_counts_handles();
    }

    /// A cell that nobody has borrowed.
    pub fn new(value: V) -> (cell: Self)
        ensures
            cell.wf(),
            cell.value() == value,
            cell.borrows() == BorrowView::idle(),
    {
        MutableCell {
            value,
            state: BorrowState::Unborrowed,
            readers: Ghost(Set::empty()),
            writer: Ghost(None),
            issued: Ghost(0),
        }
    }

    /// The current borrow state.
    pub fn borrow_state(&self) -> (s: BorrowState)
        ensures
            s == self.state(),
    {
        self.state
    }

    /// Requests a shared borrow. It is refused exactly while the write handle
    /// is outstanding; the cell is then left as it was. Otherwise one more
    /// read handle is outstanding, under a number no other handle has.
    pub fn borrow(&mut self) -> (r: Result<ReadHandle, BorrowConflict>)
        requires
            old(self).wf(),
            old(self).state() != BorrowState::Shared(usize::MAX),
        ensures
            final(self).wf(),
            final(self).value() == old(self).value(),
            r is Ok <==> old(self).can_borrow(),
            r is Err ==> *final(self) == *old(self),
            r matches Ok(h) ==> {
                &&& !old(self).read_handles().contains(h.id())
                &&& final(self).borrows() == old(self).borrows().lend_read(h.id())
            },
    {
        let count: usize = match self.state {
            BorrowState::Exclusive => {
                return Err(BorrowConflict);
            },
            BorrowState::Unborrowed => 0,
            BorrowState::Shared(n) => n,
        };
        let ghost id = self.issued@;
        self.state = BorrowState::Shared(count + 1);
        self.readers = Ghost(self.readers@.insert(id));
        self.issued = Ghost(id + 1);
        Ok(ReadHandle { serial: Ghost(id) })
    }

    /// Requests the exclusive borrow. It is granted exactly when no handle of
    /// either kind is outstanding; otherwise the cell is left as it was.
    pub fn borrow_mut(&mut self) -> (r: Result<WriteHandle, BorrowConflict>)
        requires
            old(self).wf(),
        ensures
            final(self).wf(),
            final(self).value() == old(self).value(),
            r is Ok <==> old(self).can_borrow_mut(),
            r is Err ==> *final(self) == *old(self),
            r matches Ok(h) ==> final(self).borrows() == old(self).borrows().lend_write(h.id()),
    {
        match self.state {
            BorrowState::Unborrowed => {
                let ghost id = self.issued@;
                self.state = BorrowState::Exclusive;
                self.writer = Ghost(Some(id));
                self.issued = Ghost(id + 1);
                Ok(WriteHandle { serial: Ghost(id) })
            },
            _ => Err(BorrowConflict),
        }
    }

    /// Gives a read handle back: one reader fewer, and `Unborrowed` again
    /// after the last.
    pub fn release_read(&mut self, handle: ReadHandle)
        requires
            old(self).wf(),
            old(self).holds_read(handle),
        ensures
            final(self).wf(),
            final(self).value() == old(self).value(),
            final(self).borrows() == old(self).borrows().take_back_read(handle.id()),
    {
        match self.state {
            BorrowState::Shared(n) => {
                if n == 1 {
                    self.state = BorrowState::Unborrowed;
                } else {
                    self.state = BorrowState::Shared(n - 1);
                }
            },
            _ => {},
        }
        self.readers = Ghost(self.readers@.remove(handle.id()));
        proof {
            if self.readers@.len() == 0 {
                assert(self.readers@.is_empty());
            }
        }
    }

    /// Gives the write handle back: the cell is `Unborrowed` again.
    pub fn release_write(&mut self, handle: WriteHandle)
        requires
            old(self).wf(),
            old(self).holds_write(handle),
        ensures
            final(self).wf(),
            final(self).value() == old(self).value(),
            final(self).borrows() == old(self).borrows().take_back_write(),
    {
        self.state = BorrowState::Unborrowed;
        self.writer = Ghost(None);
    }

    /// The contents, read through a read handle.
    pub fn get(&self, handle: &ReadHandle) -> (v: &V)
        requires
            self.wf(),
            self.holds_read(*handle),
        ensures
            *v == self.value(),
    {
        &self.value
    }

    /// The contents, read through the write handle.
    pub fn peek(&self, handle: &WriteHandle) -> (v: &V)
        requires
            self.wf(),
            self.holds_write(*handle),
        ensures
            *v == self.value(),
    {
        &self.value
    }

    /// The contents, open to change through the write handle. Whatever the
    /// caller leaves there is the cell's new value; the borrows stay as they
    /// are.
    pub fn get_mut(&mut self, handle: &WriteHandle) -> (v: &mut V)
        requires
            old(self).wf(),
            old(self).holds_write(*handle),
        ensures
            *v == old(self).value(),
            final(self).value() == *final(v),
            final(self).borrows() == old(self).borrows(),
            final(self).wf(),
    {
        &mut self.value
    }

    /// Replaces the contents through the write handle and returns what was
    /// there. The borrows stay as they are.
    pub fn replace(&mut self, handle: &WriteHandle, value: V) -> (previous: V)
        requires
            old(self).wf(),
            old(self).holds_write(*handle),
        ensures
            final(self).wf(),
            final(self).value() == value,
            final(self).borrows() == old(self).borrows(),
            previous == old(self).value(),
    {
        let mut value = value;
        std::mem::swap(&mut self.value, &mut value);
        value
    }

    /// Reads the contents within a scope: borrows, hands the contents to
    /// `read`, and gives the borrow back before returning, so that the
    /// lending is afterwards what it was before. The scope is refused, and
    /// `read` not called, exactly while the write handle is outstanding.
    pub fn with_borrow<R, F: FnOnce(&V) -> R>(&mut self, read: F) -> (r: Result<
        R,
        BorrowConflict,
    >)
        requires
            old(self).wf(),
            old(self).state() != BorrowState::Shared(usize::MAX),
            old(self).can_borrow() ==> call_requires(read, (&old(self).value(),)),
        ensures
            final(self).wf(),
            final(self).value() == old(self).value(),
            final(self).borrows() == old(self).borrows(),
            r is Ok <==> old(self).can_borrow(),
            r matches Ok(seen) ==> call_ensures(read, (&old(self).value(),), seen),
    {
        let ghost before = *self;
        match self.borrow() {
            Ok(handle) => {
                let seen = read(self.get(&handle));
                proof {
                    before.lemma_read_round_trip(handle.id());
                }
                self.release_read(handle);
                Ok(seen)
            },
            Err(conflict) => Err(conflict),
        }
    }

    /// Changes the contents within a scope: borrows exclusively, puts what
    /// `make` computes from the contents in their place, and gives the
    /// borrow back before returning. The scope is refused, and `make` not
    /// called, unless the cell is unborrowed; the contents are then what
    /// they were.
    pub fn with_borrow_mut<F: FnOnce(&V) -> V>(&mut self, make: F) -> (r: Result<
        (),
        BorrowConflict,
    >)
        requires
            old(self).wf(),
            old(self).can_borrow_mut() ==> call_requires(make, (&old(self).value(),)),
        ensures
            final(self).wf(),
            final(self).borrows() == old(self).borrows(),
            r is Ok <==> old(self).can_borrow_mut(),
            r is Err ==> final(self).value() == old(self).value(),
            r is Ok ==> call_ensures(make, (&old(self).value(),), final(self).value()),
    {
        let ghost before = *self;
        match self.borrow_mut() {
            Ok(handle) => {
                let made = make(self.peek(&handle));
                self.replace(&handle, made);
                proof {
                    before.lemma_write_round_trip(handle.id());
                }
                self.release_write(handle);
                Ok(())
            },
            Err(conflict) => Err(conflict),
        }
    }

    /// Takes the cell apart. Handles still outstanding are void afterwards.
    pub fn into_inner(self) -> (value: V)
        ensures
            value == self.value(),
    {
        self.value
    }
}

/// While a read handle is outstanding, the exclusive borrow is refused and a
/// further shared borrow is granted.
pub proof fn lemma_reader_excludes_writer<V>(cell: MutableCell<V>, handle: ReadHandle)
    requires
        cell.wf(),
        cell.holds_read(handle),
    ensures
        !cell.can_borrow_mut(),
        cell.can_borrow(),
        cell.write_handle().is_none(),
{
    cell.lemma_state_counts_handles();
}

/// While the write handle is outstanding, every borrow is refused, and no
/// read handle is outstanding beside it.
pub proof fn lemma_writer_excludes_all<V>(cell: MutableCell<V>, handle: WriteHandle)
    requires
        cell.wf(),
        cell.holds_write(handle),
    ensures
        !cell.can_borrow_mut(),
        !cell.can_borrow(),
        cell.read_handles().is_empty(),
{
    cell.lemma_state_counts_handles();
}

/// Whatever the number of read handles outstanding, as long as the write
/// handle is not, one more shared borrow is granted.
pub proof fn lemma_readers_coexist<V>(cell: MutableCell<V>)
    requires
        cell.wf(),
        cell.write_handle().is_none(),
    ensures
        cell.can_borrow(),
{
    cell.lemma_state_counts_handles();
}

} // verus!
