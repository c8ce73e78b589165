//! A restaurant: what the front of the house and the back of the house
//! offer to each other and to the guests.

use vstd::prelude::*;
use vstd::string::StringExecFns;

verus! {

/// Puts a guest on the waiting list. There is no list yet.
pub fn add_to_waitlist() {
}

/// Shows a guest to a table, from the waiting list.
pub fn send_to_table() {
    add_to_waitlist();
}

/// Takes an order. There is nothing to order yet.
pub fn take_order() {
}

/// Brings an order to the table.
pub fn serve_order() {
}

/// Takes the payment.
pub fn take_payment() {
}

/// Cooks an order.
pub fn cook_order() {
}

/// Cooks an order again and serves it.
pub fn fix_incorrect_order() {
    cook_order();
    serve_order();
}

/// Seats two parties.
pub fn eat_restaurant() {
    add_to_waitlist();
    add_to_waitlist();
}

/// What comes before the meal.
#[derive(Debug, Clone, Copy, PartialEq, Eq, Structural)]
pub enum Appetizer {
    Soup,
    Salad,
}

/// A breakfast: the guest picks the toast, the kitchen the fruit.
pub struct Breakfast {
    pub toast: String,
    seasonal_fruit: String,
}

impl Breakfast {
    /// The toast the guest picked.
    pub closed spec fn bread(&self) -> Seq<char> {
        self.toast@
    }

    /// The fruit that comes with the breakfast.
    pub closed spec fn fruit(&self) -> Seq<char> {
        self.seasonal_fruit@
    }

    /// The breakfast of the summer, with peaches, on the toast asked for.
    pub fn summer(toast: &str) -> (b: Self)
        ensures
            b.bread() == toast@,
            b.fruit() == "peaches"@,
    {
        Breakfast { toast: String::from_str(toast), seasonal_fruit: String::from_str("peaches") }
    }

    /// The fruit that comes with the breakfast.
    pub fn seasonal_fruit(&self) -> (fruit: &str)
        ensures
            fruit@ == self.fruit(),
    {
        self.seasonal_fruit.as_str()
    }
}

} // verus!
