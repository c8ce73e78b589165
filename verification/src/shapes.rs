//! Rectangles and their areas.

use vstd::prelude::*;

verus! {

/// A rectangle with sides along the axes.
#[derive(Debug, Clone, Copy, PartialEq, Eq, Structural)]
pub struct Rectangle {
    pub width: u32,
    pub height: u32,
}

impl Rectangle {
    /// The rectangle of that width and height.
    pub fn new(width: u32, height: u32) -> (r: Self)
        ensures
            r == (Rectangle { width, height }),
    {
        Rectangle { width, height }
    }

    /// The square of that side.
    pub fn square(size: u32) -> (r: Self)
        ensures
            r == (Rectangle { width: size, height: size }),
    {
        Rectangle { width: size, height: size }
    }

    /// The area as a number without bound.
    pub open spec fn spec_area(&self) -> int {
        self.width * self.height
    }

    /// The area, where it fits in a `u32`.
    pub fn area(&self) -> (a: u32)
        requires
            self.spec_area() <= u32::MAX,
        ensures
            a == self.spec_area(),
    {
        self.width * self.height
    }

    /// Whether `other` fits strictly inside: it is smaller in both
    /// directions.
    pub fn can_hold(&self, other: &Rectangle) -> (b: bool)
        ensures
            b == (self.width > other.width && self.height > other.height),
    {
        self.width > other.width && self.height > other.height
    }
}

/// The area of a rectangle given by width and height.
pub fn area(width: u32, height: u32) -> (a: u32)
    requires
        width * height <= u32::MAX,
    ensures
        a == width * height,
{
    width * height
}

/// The area of a rectangle given as a pair of width and height.
pub fn area2(dimensions: (u32, u32)) -> (a: u32)
    requires
        dimensions.0 * dimensions.1 <= u32::MAX,
    ensures
        a == dimensions.0 * dimensions.1,
{
    dimensions.0 * dimensions.1
}

/// The area of a rectangle.
pub fn area3(rect: &Rectangle) -> (a: u32)
    requires
        rect.spec_area() <= u32::MAX,
    ensures
        a == rect.spec_area(),
{
    rect.width * rect.height
}

/// An account.
pub struct User {
    pub username: String,
    pub email: String,
    pub sign_in_count: u64,
    pub active: bool,
}

/// A new account: active, and signed in once.
pub fn build_user(email: String, username: String) -> (u: User)
    ensures
        u.email == email,
        u.username == username,
        u.active,
        u.sign_in_count == 1,
{
    User { email, username, active: true, sign_in_count: 1 }
}

} // verus!
