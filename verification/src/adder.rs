//! A greeting and a guess within bounds.

use vstd::prelude::*;
use vstd::string::StringExecFns;

verus! {

/// The smallest number a guess may be.
pub const LOWEST_GUESS: i32 = 1;

/// The largest number a guess may be.
pub const HIGHEST_GUESS: i32 = 100;

/// The greeting, the same for every name.
pub fn greeting(name: &str) -> (s: String)
    ensures
        s@ == "Hello!"@,
{
    String::from_str("Hello!")
}

/// A number between 1 and 100.
pub struct Guess {
    value: i32,
}

impl Guess {
    /// The number guessed.
    pub closed spec fn spec_value(&self) -> i32 {
        self.value
    }

    /// The number is in bounds.
    pub open spec fn wf(&self) -> bool {
        LOWEST_GUESS <= self.spec_value() <= HIGHEST_GUESS
    }

    /// Whether `value` can be a guess.
    pub fn in_bounds(value: i32) -> (b: bool)
        ensures
            b == (LOWEST_GUESS <= value <= HIGHEST_GUESS),
    {
        LOWEST_GUESS <= value && value <= HIGHEST_GUESS
    }

    /// The guess of `value`, which has to be in bounds.
    pub fn new(value: i32) -> (g: Guess)
        requires
            LOWEST_GUESS <= value <= HIGHEST_GUESS,
        ensures
            g.spec_value() == value,
            g.wf(),
    {
        Guess { value }
    }

    /// The number guessed.
    #[verifier::when_used_as_spec(spec_value)]
    pub fn value(&self) -> (v: i32)
        ensures
            v == self.spec_value(),
    {
        self.value
    }
}

} // verus!
