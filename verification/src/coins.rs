//! Coins and what they are worth.

use vstd::prelude::*;

verus! {

/// A state that mints its own quarter.
#[derive(Debug, Clone, Copy, PartialEq, Eq, Structural)]
pub enum UsState {
    Alabama,
    Alaska,
}

/// A coin.
#[derive(Debug, Clone, Copy, PartialEq, Eq, Structural)]
pub enum Coin {
    Penny,
    Nickel,
    Dime,
    Quarter(UsState),
}

/// The value of a coin in cents.
pub open spec fn cents(coin: Coin) -> int {
    match coin {
        Coin::Penny => 1,
        Coin::Nickel => 5,
        Coin::Dime => 10,
        Coin::Quarter(_) => 25,
    }
}

/// The value of a coin in cents.
pub fn value_in_cent(coin: Coin) -> (v: u8)
    ensures
        v == cents(coin),
{
    match coin {
        Coin::Penny => 1,
        Coin::Nickel => 5,
        Coin::Dime => 10,
        Coin::Quarter(_) => 25,
    }
}

/// The state whose quarter the coin is, if it is one.
pub fn minted_by(coin: Coin) -> (state: Option<UsState>)
    ensures
        state == match coin {
            Coin::Quarter(s) => Some(s),
            _ => None,
        },
{
    match coin {
        Coin::Quarter(state) => Some(state),
        _ => None,
    }
}

/// The successor of the number in `x`, if there is one.
pub fn plus_one(x: Option<i32>) -> (r: Option<i32>)
    requires
        x matches Some(i) ==> i < i32::MAX,
    ensures
        r == match x {
            Some(i) => Some((i + 1) as i32),
            None => None,
        },
{
    match x {
        Some(i) => Some(i + 1),
        None => None,
    }
}

} // verus!
