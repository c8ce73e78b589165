//! Words and lengths of strings, by bytes.

use vstd::prelude::*;
use vstd::string::{StringExecFns, StringSliceAdditionalSpecFns};

verus! {

/// What each of `parts` holds.
pub open spec fn texts(parts: Seq<&str>) -> Seq<Seq<char>> {
    Seq::new(parts.len(), |i: int| parts[i]@)
}

/// What each of `parts` holds.
pub open spec fn owned_texts(parts: Seq<String>) -> Seq<Seq<char>> {
    Seq::new(parts.len(), |i: int| parts[i]@)
}

/// The byte of a space.
pub const SPACE: u8 = 0x20;

/// The index of the first space in `bytes`, or the length of `bytes` if
/// there is none.
pub open spec fn first_space(bytes: Seq<u8>) -> int
    decreases bytes.len(),
{
    if bytes.len() == 0 {
        0
    } else if bytes[0] == SPACE {
        0
    } else {
        1 + first_space(bytes.subrange(1, bytes.len() as int))
    }
}

/// `first_space` is the one index before which no byte is a space and at
/// which a space stands, unless it is the end.
pub proof fn lemma_first_space(bytes: Seq<u8>)
    ensures
        0 <= first_space(bytes) <= bytes.len(),
        forall|j: int| 0 <= j < first_space(bytes) ==> bytes[j] != SPACE,
        first_space(bytes) < bytes.len() ==> bytes[first_space(bytes)] == SPACE,
    decreases bytes.len(),
{
    if bytes.len() > 0 && bytes[0] != SPACE {
        let rest = bytes.subrange(1, bytes.len() as int);
        lemma_first_space(rest);
        assert forall|j: int| 0 <= j < first_space(bytes) implies bytes[j] != SPACE by {
            if j > 0 {
                assert(rest[j - 1] == bytes[j]);
            }
        }
        assert(rest[first_space(rest)] == bytes[first_space(rest) + 1] || first_space(rest)
            >= rest.len());
    }
}

/// An index with a space at it and none before it is `first_space`; so is
/// the length, if there is no space at all.
pub proof fn lemma_first_space_is(bytes: Seq<u8>, i: int)
    requires
        0 <= i <= bytes.len(),
        forall|j: int| 0 <= j < i ==> bytes[j] != SPACE,
        i < bytes.len() ==> bytes[i] == SPACE,
    ensures
        first_space(bytes) == i,
{
    lemma_first_space(bytes);
}

/// The first word of `s`: what stands before the first space, or all of `s`
/// if it holds no space.
pub fn first_word(s: &str) -> (word: &str)
    ensures
        word.spec_bytes() == s.spec_bytes().subrange(0, first_space(s.spec_bytes())),
{
    let bytes = s.as_bytes();
    let mut i: usize = 0;
    while i < bytes.len()
        invariant
            bytes@ == s.spec_bytes(),
            i <= bytes@.len(),
            forall|j: int| 0 <= j < i ==> bytes@[j] != SPACE,
        decreases bytes@.len() - i,
    {
        if bytes[i] == SPACE {
            proof {
                lemma_first_space_is(bytes@, i as int);
                vstd::utf8::encode_utf8_valid_utf8(s@);
                vstd::utf8::is_char_boundary_iff_not_is_continuation_byte(bytes@, i as int);
                assert(!vstd::utf8::is_continuation_byte(SPACE)) by (bit_vector);
            }
            let (word, _) = s.split_at(i);
            return word;
        }
        i += 1;
    }
    proof {
        lemma_first_space_is(bytes@, i as int);
        assert(s.spec_bytes().subrange(0, i as int) =~= s.spec_bytes());
    }
    s
}

/// The longer of two strings by bytes; the second where they are equally
/// long.
pub fn longest<'a>(x: &'a str, y: &'a str) -> (r: &'a str)
    ensures
        r == if x.spec_bytes().len() > y.spec_bytes().len() {
            x
        } else {
            y
        },
{
    if x.as_bytes().len() > y.as_bytes().len() {
        x
    } else {
        y
    }
}

/// The first of two strings.
pub fn longest2<'a>(x: &'a str, y: &str) -> (r: &'a str)
    ensures
        r == x,
{
    x
}

/// The string `hello`, for the caller to own.
pub fn gives_ownership() -> (s: String)
    ensures
        s@ == "hello"@,
{
    String::from_str("hello")
}

/// The string it was given.
pub fn takes_and_gives_back(a_string: String) -> (s: String)
    ensures
        s == a_string,
{
    a_string
}

/// The string `hello`, owned and therefore never dangling.
pub fn no_dangle() -> (s: String)
    ensures
        s@ == "hello"@,
{
    String::from_str("hello")
}

/// The string together with its length in bytes.
pub fn calculate_length(s: String) -> (r: (String, usize))
    ensures
        r.0 == s,
        r.1 == vstd::utf8::encode_utf8(s@).len(),
{
    let length = s.as_str().as_bytes().len();
    (s, length)
}

/// The length of the string in bytes.
pub fn length_of(s: &String) -> (n: usize)
    ensures
        n == vstd::utf8::encode_utf8(s@).len(),
{
    s.as_str().as_bytes().len()
}

/// Appends `, world` to the string.
pub fn change(some_string: &mut String)
    ensures
        final(some_string)@ == old(some_string)@ + ", world"@,
{
    some_string.append(", world");
}

/// A part of a text that matters, lent from the text.
#[derive(Debug)]
pub struct ImportantExcerpt<'a> {
    pub part: &'a str,
}

impl<'a> ImportantExcerpt<'a> {
    /// The level of importance, the same for every excerpt.
    pub fn level(&self) -> (l: i32)
        ensures
            l == 3,
    {
        3
    }

    /// The part.
    pub fn part(&self) -> (p: &'a str)
        ensures
            p == self.part,
    {
        self.part
    }
}

} // verus!
