//! Loops that compute: Fibonacci numbers and the gifts of the twelve days.

use vstd::prelude::*;
use vstd::string::StringExecFns;

verus! {

/// The Fibonacci numbers, started so that the first two, and the one before
/// them, are 1.
pub open spec fn fib(n: nat) -> nat
    decreases n,
{
    if n <= 2 {
        1
    } else {
        fib((n - 1) as nat) + fib((n - 2) as nat)
    }
}

/// The Fibonacci numbers do not decrease.
pub proof fn lemma_fib_monotonic(i: nat, j: nat)
    requires
        i <= j,
    ensures
        fib(i) <= fib(j),
    decreases j,
{
    if j > 2 && i < j {
        lemma_fib_monotonic(i, (j - 1) as nat);
    }
}

/// The `n`-th Fibonacci number, where it fits in a `u32`.
pub fn fibonacci(n: u32) -> (r: u32)
    requires
        fib(n as nat) <= u32::MAX,
    ensures
        r == fib(n as nat),
{
    if n <= 2 {
        return 1;
    }
    let mut a: u32 = 1;
    let mut b: u32 = 1;
    let mut counter: u32 = 2;
    while counter < n
        invariant
            2 <= counter <= n,
            a == fib((counter - 1) as nat),
            b == fib(counter as nat),
            fib(n as nat) <= u32::MAX,
        decreases n - counter,
    {
        proof {
            lemma_fib_monotonic((counter + 1) as nat, n as nat);
        }
        let c = b;
        b = a + b;
        a = c;
        counter += 1;
    }
    b
}

/// The number of verses.
pub const DAYS: usize = 12;

/// The gift that is new on day `day + 1`.
pub open spec fn gift(day: int) -> Seq<char> {
    if day == 0 {
        "A partridge in a pear tree"@
    } else if day == 1 {
        "Two turtle doves"@
    } else if day == 2 {
        "Three French hens"@
    } else if day == 3 {
        "Four calling birds"@
    } else if day == 4 {
        "Five golden rings"@
    } else if day == 5 {
        "Six geese a-laying"@
    } else if day == 6 {
        "Seven swans a-swimming"@
    } else if day == 7 {
        "Eight maids a-milking"@
    } else if day == 8 {
        "Nine ladies dancing"@
    } else if day == 9 {
        "Ten lords a-leaping"@
    } else if day == 10 {
        "Eleven pipers piping"@
    } else {
        "Twelve drummers drumming"@
    }
}

/// The gifts from that of day `day + 1` down to the first, separated by
/// commas and closed by a full stop.
pub open spec fn gifts_down_from(day: int) -> Seq<char>
    decreases day,
{
    if day <= 0 {
        gift(0) + "."@
    } else {
        gift(day) + ", "@ + gifts_down_from(day - 1)
    }
}

/// The gift that is new on day `day + 1`, as text.
pub fn gift_text(day: usize) -> (text: &'static str)
    requires
        day < DAYS,
    ensures
        text@ == gift(day as int),
{
    if day == 0 {
        "A partridge in a pear tree"
    } else if day == 1 {
        "Two turtle doves"
    } else if day == 2 {
        "Three French hens"
    } else if day == 3 {
        "Four calling birds"
    } else if day == 4 {
        "Five golden rings"
    } else if day == 5 {
        "Six geese a-laying"
    } else if day == 6 {
        "Seven swans a-swimming"
    } else if day == 7 {
        "Eight maids a-milking"
    } else if day == 8 {
        "Nine ladies dancing"
    } else if day == 9 {
        "Ten lords a-leaping"
    } else if day == 10 {
        "Eleven pipers piping"
    } else {
        "Twelve drummers drumming"
    }
}

/// What was sent on day `n`: the gifts from the newest down to the first.
/// Day 0 gets what day 1 gets.
pub fn the_twelve_days_of_christmas_send(n: usize) -> (sends: String)
    requires
        n <= DAYS,
    ensures
        sends@ == gifts_down_from(
            if n == 0 {
                0
            } else {
                n - 1
            },
        ),
{
    let start: usize = if n == 0 {
        0
    } else {
        n - 1
    };
    let mut sends = String::new();
    let mut index: usize = start;
    while index > 0
        invariant
            index <= start < DAYS,
            sends@ + gifts_down_from(index as int) == gifts_down_from(start as int),
        decreases index,
    {
        let ghost before = sends@;
        sends.append(gift_text(index));
        sends.append(", ");
        proof {
            assert(sends@ + gifts_down_from(index - 1) =~= before + (gift(index as int) + ", "@
                + gifts_down_from(index - 1)));
        }
        index -= 1;
    }
    let ghost before = sends@;
    sends.append(gift_text(0));
    sends.append(".");
    proof {
        assert(sends@ =~= before + (gift(0) + "."@));
    }
    sends
}

} // verus!
