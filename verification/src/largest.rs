//! The largest item of a list, for any type with an order.

use std::cmp::Ordering;
use vstd::prelude::*;
use vstd::std_specs::cmp::PartialOrdSpec;

verus! {

/// `a` is greater than `b` in the order of their type.
pub open spec fn exceeds<T: PartialOrd>(a: T, b: T) -> bool {
    a.partial_cmp_spec(&b) == Some(Ordering::Greater)
}

/// What a pass over `list` keeps as the largest: the first item, replaced
/// by each later item that is greater than what is kept when the pass comes
/// to it. In a total order that is the first among the greatest items.
pub open spec fn largest_of<T: PartialOrd>(list: Seq<T>) -> T
    decreases list.len(),
{
    if list.len() <= 1 {
        list[0]
    } else {
        let kept = largest_of(list.drop_last());
        if exceeds(list.last(), kept) {
            list.last()
        } else {
            kept
        }
    }
}

/// The largest item of a list that is not empty, as a copy.
pub fn largest<T: PartialOrd + Copy>(list: &[T]) -> (found: T)
    requires
        list@.len() > 0,
        T::obeys_partial_cmp_spec(),
    ensures
        found == largest_of(list@),
{
    let mut found = list[0];
    let mut i: usize = 1;
    let ghost mut seen: int = 1;
    proof {
        assert(list@.take(1).len() == 1);
    }
    while i < list.len()
        invariant
            1 <= i <= list@.len(),
            seen == i,
            found == largest_of(list@.take(seen)),
            T::obeys_partial_cmp_spec(),
        decreases list@.len() - i,
    {
        proof {
            assert(list@.take(seen + 1).drop_last() =~= list@.take(seen));
            assert(list@.take(seen + 1).last() == list@[seen]);
        }
        if list[i] > found {
            found = list[i];
        }
        i += 1;
        proof {
            seen = seen + 1;
        }
    }
    proof {
        assert(list@.take(seen) =~= list@);
    }
    found
}

/// The largest item of a list that is not empty, where it lies.
pub fn largest_ref<T: PartialOrd>(list: &[T]) -> (found: &T)
    requires
        list@.len() > 0,
        T::obeys_partial_cmp_spec(),
    ensures
        *found == largest_of(list@),
{
    let mut at: usize = 0;
    let mut i: usize = 1;
    let ghost mut seen: int = 1;
    let ghost mut kept: int = 0;
    proof {
        assert(list@.take(1).len() == 1);
    }
    while i < list.len()
        invariant
            1 <= i <= list@.len(),
            at < i,
            seen == i,
            kept == at,
            list@[kept] == largest_of(list@.take(seen)),
            T::obeys_partial_cmp_spec(),
        decreases list@.len() - i,
    {
        proof {
            assert(list@.take(seen + 1).drop_last() =~= list@.take(seen));
            assert(list@.take(seen + 1).last() == list@[seen]);
        }
        if list[i] > list[at] {
            at = i;
            proof {
                kept = seen;
            }
        }
        i += 1;
        proof {
            seen = seen + 1;
        }
    }
    proof {
        assert(list@.take(seen) =~= list@);
    }
    &list[at]
}

} // verus!
