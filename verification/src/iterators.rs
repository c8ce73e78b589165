//! A counter that yields its items one by one, and a filter over shoes.

use vstd::prelude::*;

verus! {

/// Something that yields items one after another until it is used up.
pub trait MyIterator {
    /// What it yields.
    type Item;

    /// The next item, or `None` once it is used up.
    fn next(&mut self) -> Option<Self::Item>;

    /// The sum of all the items that are left. Uses the iterator up.
    fn sum(self) -> Self::Item;
}

/// The last number a [`Counter`] yields.
pub const COUNTER_END: u32 = 5;

/// Counts from 1 to 5.
pub struct Counter {
    count: u32,
}

/// The sum of the numbers from `from + 1` to `to`.
pub open spec fn sum_between(from: int, to: int) -> int
    decreases to - from,
{
    if from >= to {
        0
    } else {
        from + 1 + sum_between(from + 1, to)
    }
}

impl Counter {
    #[verifier::type_invariant]
    spec fn bounded(self) -> bool {
        self.count <= COUNTER_END
    }

    /// The number yielded last; 0 before the first.
    pub closed spec fn position(&self) -> int {
        self.count as int
    }

    /// A counter that has yielded nothing yet.
    pub fn new() -> (c: Self)
        ensures
            c.position() == 0,
    {
        Counter { count: 0 }
    }

    /// The next number: one more than the last, up to 5; then `None` for
    /// good.
    pub fn next(&mut self) -> (item: Option<u32>)
        ensures
            old(self).position() < COUNTER_END ==> item == Some((old(self).position() + 1) as u32)
                && final(self).position() == old(self).position() + 1,
            old(self).position() >= COUNTER_END ==> item.is_none() && final(self).position()
                == old(self).position(),
    {
        if self.count < COUNTER_END {
            self.count += 1;
            return Some(self.count);
        }
        None
    }

    /// The sum of the numbers that are left.
    pub fn sum(self) -> (total: u32)
        ensures
            total == sum_between(self.position(), COUNTER_END as int),
    {
        proof {
            use_type_invariant(&self);
        }
        let mut count = self.count;
        let mut total: u32 = 0;
        let ghost start = count as int;
        while count < COUNTER_END
            invariant
                start <= count <= COUNTER_END,
                total + sum_between(count as int, COUNTER_END as int) == sum_between(
                    start,
                    COUNTER_END as int,
                ),
                total <= 5 * count,
            decreases COUNTER_END - count,
        {
            count += 1;
            total += count;
        }
        total
    }
}

impl MyIterator for Counter {
    type Item = u32;

    fn next(&mut self) -> (item: Option<u32>)
        ensures
            old(self).position() < COUNTER_END ==> item == Some((old(self).position() + 1) as u32)
                && final(self).position() == old(self).position() + 1,
            old(self).position() >= COUNTER_END ==> item.is_none() && final(self).position()
                == old(self).position(),
    {
        Counter::next(self)
    }

    fn sum(self) -> (total: u32)
        ensures
            total == sum_between(self.position(), COUNTER_END as int),
    {
        Counter::sum(self)
    }
}

/// A shoe.
#[derive(PartialEq, Debug)]
pub struct Shoe {
    pub size: u32,
    pub style: String,
}

/// The shoes of `shoes` that have the size `shoe_size`, in the order they
/// came in.
pub fn shoes_in_my_size(shoes: Vec<Shoe>, shoe_size: u32) -> (mine: Vec<Shoe>)
    ensures
        mine@ == shoes@.filter(|s: Shoe| s.size == shoe_size),
{
    let mut shoes = shoes;
    let ghost all = shoes@;
    let ghost fits = |s: Shoe| s.size == shoe_size;
    // Turn the shoes round, so that they can be taken over one by one from
    // the first.
    let mut turned: Vec<Shoe> = Vec::new();
    while shoes.len() > 0
        invariant
            shoes@.len() + turned@.len() == all.len(),
            shoes@ == all.subrange(0, shoes@.len() as int),
            forall|i: int| 0 <= i < turned@.len() ==> turned@[i] == all[all.len() - 1 - i],
        decreases shoes@.len(),
    {
        match shoes.pop() {
            Some(shoe) => {
                turned.push(shoe);
            },
            None => {},
        }
    }
    let mut mine: Vec<Shoe> = Vec::new();
    proof {
        reveal(Seq::filter);
        assert(all.subrange(0, 0) =~= Seq::<Shoe>::empty());
    }
    while turned.len() > 0
        invariant
            turned@.len() <= all.len(),
            forall|i: int| 0 <= i < turned@.len() ==> turned@[i] == all[all.len() - 1 - i],
            mine@ == all.subrange(0, all.len() - turned@.len()).filter(fits),
            fits == |s: Shoe| s.size == shoe_size,
        decreases turned@.len(),
    {
        let ghost done = all.len() - turned@.len();
        match turned.pop() {
            Some(shoe) => {
                proof {
                    reveal(Seq::filter);
                    let next = all.subrange(0, done + 1);
                    assert(next.drop_last() =~= all.subrange(0, done));
                    assert(next.last() == shoe);
                }
                if shoe.size == shoe_size {
                    mine.push(shoe);
                }
            },
            None => {},
        }
    }
    proof {
        assert(all.subrange(0, all.len() as int) =~= all);
    }
    mine
}

} // verus!
