//! The rules of a guessing game: a secret number from 1 to 100, and what
//! to say to each guess.
//!
//! The game itself is a loop around these rules: read a line, judge it,
//! say the verdict, and stop after a win.

use crate::spaces::{trim, trimmed};
use rand::Rng;
use vstd::prelude::*;
use vstd::string::StrSliceExecFns;

verus! {

/// The smallest secret number.
pub const LOWEST: u32 = 1;

/// The largest secret number.
pub const HIGHEST: u32 = 100;

/// What a line of input amounts to.
#[derive(Debug, Clone, Copy, PartialEq, Eq, Structural)]
pub enum Verdict {
    /// The line holds no number: it is passed over in silence.
    Unreadable,
    /// The number cannot be the secret: it is not between 1 and 100.
    OutOfRange,
    /// The number is under the secret.
    TooSmall,
    /// The number is over the secret.
    TooBig,
    /// The number is the secret: the game is over.
    Win,
}

/// The digit that `c` is, if it is one of `0` to `9`.
pub open spec fn digit_of(c: char) -> Option<nat> {
    if 48 <= c as u32 <= 57 {
        Some((c as u32 - 48) as nat)
    } else {
        None
    }
}

/// The number that a run of digits spells out in base ten; `None` if
/// something in it is no digit. The empty run spells 0.
pub open spec fn decimal(digits: Seq<char>) -> Option<nat>
    decreases digits.len(),
{
    if digits.len() == 0 {
        Some(0)
    } else {
        match (decimal(digits.drop_last()), digit_of(digits.last())) {
            (Some(value), Some(digit)) => Some(10 * value + digit),
            _ => None,
        }
    }
}

/// The digits of a text: the text without the plus sign that may stand in
/// front.
pub open spec fn digits_of(text: Seq<char>) -> Seq<char> {
    if text.len() > 0 && text[0] == '+' {
        text.skip(1)
    } else {
        text
    }
}

/// The number a text spells out, if it spells one that fits in a `u32`: at
/// least one digit, nothing but digits, with or without a plus sign in
/// front.
pub open spec fn number_of(text: Seq<char>) -> Option<u32> {
    let digits = digits_of(text);
    if digits.len() == 0 {
        None
    } else {
        match decimal(digits) {
            Some(value) => if value <= u32::MAX {
                Some(value as u32)
            } else {
                None
            },
            None => None,
        }
    }
}

/// More digits spell no smaller number.
pub proof fn lemma_decimal_grows(digits: Seq<char>, n: int)
    requires
        0 <= n <= digits.len(),
        decimal(digits) is Some,
    ensures
        decimal(digits.take(n)) is Some,
        decimal(digits.take(n))->0 <= decimal(digits)->0,
    decreases digits.len(),
{
    if n == digits.len() {
        assert(digits.take(n) =~= digits);
    } else {
        lemma_decimal_grows(digits.drop_last(), n);
        assert(digits.drop_last().take(n) =~= digits.take(n));
    }
}

/// A run with something in it that is no digit spells no number, however
/// it goes on.
pub proof fn lemma_decimal_fails(digits: Seq<char>, n: int)
    requires
        0 <= n <= digits.len(),
        decimal(digits.take(n)) is None,
    ensures
        decimal(digits) is None,
    decreases digits.len(),
{
    if n == digits.len() {
        assert(digits.take(n) =~= digits);
    } else {
        assert(digits.drop_last().take(n) =~= digits.take(n));
        lemma_decimal_fails(digits.drop_last(), n);
    }
}

/// The number a line of input holds, if it holds one: the number that the
/// line spells out once the white space at its ends is gone.
pub open spec fn number_in(line: Seq<char>) -> Option<u32> {
    number_of(trimmed(line))
}

/// The random number generator of the crate `rand` that belongs to the
/// thread.
#[verifier::external_type_specification]
#[verifier::external_body]
pub struct ExThreadRng(rand::rngs::ThreadRng);

/// Calls `rand::thread_rng`: the generator of the thread. Nothing is said
/// of it.
#[verifier::external_body]
fn generator() -> rand::rngs::ThreadRng {
    rand::thread_rng()
}

/// Calls `Rng::gen_range(low, high)` on the generator: some number from
/// `low` up to but not including `high`. Which one, the contract does not
/// say.
#[verifier::external_body]
fn draw(rng: &mut rand::rngs::ThreadRng, low: u32, high: u32) -> (n: u32)
    requires
        low < high,
    ensures
        low <= n < high,
{
    rng.gen_range(low, high)
}

/// The number a text spells out, if it spells one that fits in a `u32`.
pub fn parse_number(text: &str) -> (n: Option<u32>)
    ensures
        n == number_of(text@),
{
    let len = text.unicode_len();
    let start: usize = if len > 0 && text.get_char(0) == '+' {
        1
    } else {
        0
    };
    if start == len {
        return None;
    }
    let ghost digits = digits_of(text@);
    let mut value: u64 = 0;
    let mut i: usize = start;
    proof {
        assert(digits.take(0) =~= Seq::<char>::empty());
    }
    while i < len
        invariant
            start <= i <= len,
            len == text@.len(),
            digits == digits_of(text@),
            digits.len() == len - start,
            forall|k: int| 0 <= k < digits.len() ==> digits[k] == text@[k + start],
            decimal(digits.take(i - start)) == Some(value as nat),
            value <= u32::MAX,
        decreases len - i,
    {
        let c = text.get_char(i);
        let code = c as u32;
        proof {
            let seen = digits.take(i - start + 1);
            assert(seen.drop_last() =~= digits.take(i - start));
            assert(seen.last() == c);
        }
        if code < 48 || code > 57 {
            proof {
                lemma_decimal_fails(digits, i - start + 1);
            }
            return None;
        }
        let next = value * 10 + (code - 48) as u64;
        if next > u32::MAX as u64 {
            proof {
                if decimal(digits) is Some {
                    lemma_decimal_grows(digits, i - start + 1);
                }
            }
            return None;
        }
        value = next;
        i += 1;
    }
    proof {
        assert(digits.take(digits.len() as int) =~= digits);
    }
    Some(value as u32)
}

/// The number a line of input holds, if it holds one.
pub fn read_number(line: &str) -> (n: Option<u32>)
    ensures
        n == number_in(line@),
{
    parse_number(trim(line))
}

/// A secret number for a new game.
pub fn pick_secret() -> (secret: u32)
    ensures
        LOWEST <= secret <= HIGHEST,
{
    let mut rng = generator();
    draw(&mut rng, LOWEST, HIGHEST + 1)
}

/// The verdict on a guess.
pub open spec fn verdict_on(guess: u32, secret: u32) -> Verdict {
    if guess < LOWEST || guess > HIGHEST {
        Verdict::OutOfRange
    } else if guess < secret {
        Verdict::TooSmall
    } else if guess > secret {
        Verdict::TooBig
    } else {
        Verdict::Win
    }
}

/// The verdict on a guess.
pub fn judge(guess: u32, secret: u32) -> (v: Verdict)
    ensures
        v == verdict_on(guess, secret),
{
    if guess < LOWEST || guess > HIGHEST {
        Verdict::OutOfRange
    } else if guess < secret {
        Verdict::TooSmall
    } else if guess > secret {
        Verdict::TooBig
    } else {
        Verdict::Win
    }
}

/// The verdict on what a line of input was read as.
pub fn judge_reading(reading: Option<u32>, secret: u32) -> (v: Verdict)
    ensures
        v == match reading {
            Some(guess) => verdict_on(guess, secret),
            None => Verdict::Unreadable,
        },
{
    match reading {
        Some(guess) => judge(guess, secret),
        None => Verdict::Unreadable,
    }
}

/// The verdict on a line of input.
pub fn judge_line(line: &str, secret: u32) -> (v: Verdict)
    ensures
        v == match number_in(line@) {
            Some(guess) => verdict_on(guess, secret),
            None => Verdict::Unreadable,
        },
{
    judge_reading(read_number(line), secret)
}

/// What is said on a verdict, if anything.
pub open spec fn reply_to(v: Verdict) -> Option<Seq<char>> {
    match v {
        Verdict::Unreadable => None,
        Verdict::OutOfRange => Some("The secret number will between 1 and 100."@),
        Verdict::TooSmall => Some("Too small!"@),
        Verdict::TooBig => Some("Too big!"@),
        Verdict::Win => Some("You win!"@),
    }
}

/// What is said on a verdict, if anything.
pub fn reply(v: Verdict) -> (text: Option<&'static str>)
    ensures
        text is Some <==> reply_to(v) is Some,
        text matches Some(t) ==> t@ == reply_to(v)->0,
{
    match v {
        Verdict::Unreadable => None,
        Verdict::OutOfRange => Some("The secret number will between 1 and 100."),
        Verdict::TooSmall => Some("Too small!"),
        Verdict::TooBig => Some("Too big!"),
        Verdict::Win => Some("You win!"),
    }
}

/// Whether another guess is due: always, except after a win.
pub fn goes_on(v: Verdict) -> (b: bool)
    ensures
        b == (v != Verdict::Win),
{
    match v {
        Verdict::Win => false,
        _ => true,
    }
}

} // verus!
