//! A tracker that warns as a value nears its limit.
//!
//! The thresholds are shares of the limit: three quarters, nine tenths, and
//! the whole. They are compared exactly, in whole numbers.

use vstd::prelude::*;

verus! {

/// Whoever carries the warnings away.
pub trait Messenger {
    /// Takes one message.
    fn send(&self, msg: &str);
}

/// How near a value is to its limit.
#[derive(Debug, Clone, Copy, PartialEq, Eq, Structural)]
pub enum Usage {
    /// Under three quarters of the limit.
    Fine,
    /// At three quarters or over, under nine tenths.
    Warning,
    /// At nine tenths or over, under the limit.
    Urgent,
    /// At the limit or over.
    Over,
}

/// How near `value` is to `max`. Nothing of a limit of nothing is fine.
pub open spec fn usage_of(value: int, max: int) -> Usage {
    if value == 0 && max == 0 {
        Usage::Fine
    } else if value >= max {
        Usage::Over
    } else if 10 * value >= 9 * max {
        Usage::Urgent
    } else if 4 * value >= 3 * max {
        Usage::Warning
    } else {
        Usage::Fine
    }
}

/// The message that goes with a usage; none where all is fine.
pub open spec fn message_of(usage: Usage) -> Option<Seq<char>> {
    match usage {
        Usage::Fine => None,
        Usage::Warning => Some("Warning: You've used up over 75% of your quota!"@),
        Usage::Urgent => Some("Urgent warning: You've used up over 90% of your quota!"@),
        Usage::Over => Some("Error: You are over your quota!"@),
    }
}

/// How near `value` is to `max`.
pub fn usage(value: usize, max: usize) -> (u: Usage)
    ensures
        u == usage_of(value as int, max as int),
{
    let v: u128 = value as u128;
    let m: u128 = max as u128;
    if value == 0 && max == 0 {
        Usage::Fine
    } else if value >= max {
        Usage::Over
    } else if 10 * v >= 9 * m {
        Usage::Urgent
    } else if 4 * v >= 3 * m {
        Usage::Warning
    } else {
        Usage::Fine
    }
}

/// The message that goes with a usage; none where all is fine.
pub fn message(usage: Usage) -> (msg: Option<&'static str>)
    ensures
        msg is Some <==> message_of(usage) is Some,
        msg matches Some(text) ==> text@ == message_of(usage)->0,
{
    match usage {
        Usage::Fine => None,
        Usage::Warning => Some("Warning: You've used up over 75% of your quota!"),
        Usage::Urgent => Some("Urgent warning: You've used up over 90% of your quota!"),
        Usage::Over => Some("Error: You are over your quota!"),
    }
}

/// Keeps a value and its limit, and tells a messenger when the value comes
/// near the limit.
pub struct LimitTracker<'a, T: Messenger> {
    messenger: &'a T,
    value: usize,
    max: usize,
}

impl<'a, T: Messenger> LimitTracker<'a, T> {
    /// The value kept.
    pub closed spec fn spec_value(&self) -> usize {
        self.value
    }

    /// The limit.
    pub closed spec fn spec_max(&self) -> usize {
        self.max
    }

    /// A tracker with the limit `max` and the value 0.
    pub fn new(messenger: &'a T, max: usize) -> (tracker: LimitTracker<'a, T>)
        ensures
            tracker.spec_value() == 0,
            tracker.spec_max() == max,
    {
        LimitTracker { messenger, value: 0, max }
    }

    /// The value kept.
    pub fn value(&self) -> (v: usize)
        ensures
            v == self.spec_value(),
    {
        self.value
    }

    /// The limit.
    pub fn max(&self) -> (m: usize)
        ensures
            m == self.spec_max(),
    {
        self.max
    }

    /// Keeps `value`, and sends the messenger the message that goes with
    /// its usage of the limit, if there is one. Returns that usage.
    pub fn set_value(&mut self, value: usize) -> (u: Usage)
        ensures
            final(self).spec_value() == value,
            final(self).spec_max() == old(self).spec_max(),
            u == usage_of(value as int, old(self).spec_max() as int),
    {
        self.value = value;
        let level = usage(self.value, self.max);
        match message(level) {
            Some(text) => {
                self.messenger.send(text);
            },
            None => {},
        }
        level
    }
}

} // verus!
