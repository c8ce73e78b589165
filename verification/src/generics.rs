//! Points of any coordinates, and the largest item of a list.

use vstd::prelude::*;

verus! {

/// A point whose coordinates are of one type.
#[derive(Debug)]
pub struct Point<T> {
    pub x: T,
    pub y: T,
}

impl<T> Point<T> {
    /// The first coordinate.
    pub fn x(&self) -> (x: &T)
        ensures
            *x == self.x,
    {
        &self.x
    }
}

/// A point whose coordinates may be of two types.
#[derive(Debug)]
pub struct Point2<T, U> {
    pub x: T,
    pub y: U,
}

impl<T, U> Point2<T, U> {
    /// The point with the first coordinate of this one and the second of
    /// `rhs`.
    pub fn mixup<V, W>(self, rhs: Point2<V, W>) -> (p: Point2<T, W>)
        ensures
            p.x == self.x,
            p.y == rhs.y,
    {
        Point2 { x: self.x, y: rhs.y }
    }
}

/// `m` is in `list` and no item of `list` is larger.
pub open spec fn is_largest(list: Seq<i32>, m: i32) -> bool {
    list.contains(m) && forall|i: int| 0 <= i < list.len() ==> list[i] <= m
}

/// The largest number of a list that is not empty.
pub fn largest_i32(list: &[i32]) -> (largest: i32)
    requires
        list@.len() > 0,
    ensures
        is_largest(list@, largest),
{
    let mut largest = list[0];
    let mut i: usize = 1;
    while i < list.len()
        invariant
            1 <= i <= list@.len(),
            exists|k: int| 0 <= k < i && list@[k] == largest,
            forall|k: int| 0 <= k < i ==> list@[k] <= largest,
        decreases list@.len() - i,
    {
        if list[i] > largest {
            largest = list[i];
        }
        i += 1;
    }
    largest
}

/// `m` is in `list` and no letter of `list` comes after it.
pub open spec fn is_last_letter(list: Seq<char>, m: char) -> bool {
    list.contains(m) && forall|i: int| 0 <= i < list.len() ==> (list[i] as u32) <= (m as u32)
}

/// The letter of a list that is not empty that comes last in the order of
/// the code points.
pub fn largest_char(list: &[char]) -> (largest: char)
    requires
        list@.len() > 0,
    ensures
        is_last_letter(list@, largest),
{
    let mut largest = list[0];
    let mut i: usize = 1;
    while i < list.len()
        invariant
            1 <= i <= list@.len(),
            exists|k: int| 0 <= k < i && list@[k] == largest,
            forall|k: int| 0 <= k < i ==> (list@[k] as u32) <= (largest as u32),
        decreases list@.len() - i,
    {
        if list[i] as u32 > largest as u32 {
            largest = list[i];
        }
        i += 1;
    }
    largest
}

} // verus!
