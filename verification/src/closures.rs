//! A calculation that is run at most once, and a workout planned with it.

use vstd::prelude::*;

verus! {

/// Keeps a calculation and, once it has been run, its result.
pub struct Cacher<T: Fn(u32) -> u32> {
    calculation: T,
    value: Option<u32>,
}

impl<T: Fn(u32) -> u32> Cacher<T> {
    /// The calculation kept.
    pub closed spec fn calculation(&self) -> T {
        self.calculation
    }

    /// The result kept, once there is one.
    pub closed spec fn cached(&self) -> Option<u32> {
        self.value
    }

    /// A cacher that has not run `calculation` yet.
    pub fn new(calculation: T) -> (c: Cacher<T>)
        ensures
            c.calculation() == calculation,
            c.cached().is_none(),
    {
        Cacher { calculation, value: None }
    }

    /// The result of the calculation. The first call runs it, on `arg`, and
    /// keeps the result; every later call gives that result back, whatever
    /// its `arg`.
    pub fn value(&mut self, arg: u32) -> (v: u32)
        requires
            old(self).cached().is_none() ==> call_requires(old(self).calculation(), (arg,)),
        ensures
            final(self).calculation() == old(self).calculation(),
            final(self).cached() == Some(v),
            old(self).cached() matches Some(kept) ==> v == kept,
            old(self).cached().is_none() ==> call_ensures(old(self).calculation(), (arg,), v),
    {
        match self.value {
            Some(v) => v,
            None => {
                let v = (self.calculation)(arg);
                self.value = Some(v);
                v
            },
        }
    }
}

/// What to do today.
#[derive(Debug, Clone, Copy, PartialEq, Eq, Structural)]
pub enum Workout {
    /// That many pushups, then that many situps.
    Exercises { pushups: u32, situps: u32 },
    /// A break.
    Break,
    /// A run of that many minutes.
    Run { minutes: u32 },
}

/// The lowest intensity that calls for a run.
pub const RUN_FROM: u32 = 25;

/// The number that, drawn on a day for a run, calls for a break.
pub const BREAK_ON: u32 = 3;

/// Plans the workout of a day. Under an intensity of 25 there are
/// exercises, as many of each as `calculation` says; from 25 on there is a
/// run for as long as it says, unless the number drawn is 3, which calls
/// for a break. The calculation is run once or not at all.
pub fn generate_workout<T: Fn(u32) -> u32>(
    intensity: u32,
    random_number: u32,
    calculation: T,
) -> (plan: Workout)
    requires
        call_requires(calculation, (intensity,)),
    ensures
        intensity < RUN_FROM ==> (plan matches Workout::Exercises { pushups, situps } && pushups
            == situps && call_ensures(calculation, (intensity,), pushups)),
        intensity >= RUN_FROM && random_number == BREAK_ON ==> plan == Workout::Break,
        intensity >= RUN_FROM && random_number != BREAK_ON ==> (plan matches Workout::Run {
            minutes,
        } && call_ensures(calculation, (intensity,), minutes)),
{
    let mut expensive_result = Cacher::new(calculation);
    if intensity < RUN_FROM {
        let pushups = expensive_result.value(intensity);
        let situps = expensive_result.value(intensity);
        Workout::Exercises { pushups, situps }
    } else if random_number == BREAK_ON {
        Workout::Break
    } else {
        Workout::Run { minutes: expensive_result.value(intensity) }
    }
}

} // verus!
