//! A box of one's own around a value.

use vstd::prelude::*;

verus! {

/// A value in a wrapper that gives it back on request.
pub struct MyBox<T>(pub T);

impl<T> MyBox<T> {
    /// The box around `x`.
    pub fn new(x: T) -> (b: MyBox<T>)
        ensures
            b.0 == x,
    {
        MyBox(x)
    }

    /// Takes the box off the value.
    pub fn into_inner(self) -> (x: T)
        ensures
            x == self.0,
    {
        self.0
    }
}

impl<T> std::ops::Deref for MyBox<T> {
    type Target = T;

    /// The value in the box.
    fn deref(&self) -> (x: &T)
        ensures
            *x == self.0,
    {
        &self.0
    }
}

/// A list of numbers, each in a box with the rest.
pub enum List {
    Cons(i32, Box<List>),
    Nil,
}

impl List {
    /// The numbers of the list, first to last.
    pub open spec fn view(&self) -> Seq<i32>
        decreases self,
    {
        match self {
            List::Cons(head, rest) => seq![*head] + rest.view(),
            List::Nil => Seq::empty(),
        }
    }

    /// The rest of the list after its first number; `None` for the empty
    /// list.
    pub fn next(&self) -> (rest: Option<&List>)
        ensures
            self matches List::Cons(_, tail) ==> rest == Some(&**tail),
            self is Nil ==> rest.is_none(),
    {
        match self {
            List::Cons(_, rest) => Some(&**rest),
            List::Nil => None,
        }
    }
}

} // verus!
