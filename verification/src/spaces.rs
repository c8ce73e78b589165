//! White space: what counts as it, trimming it off the ends of a text, and
//! splitting a text into words at it.

use crate::words::texts;
use vstd::prelude::*;
use vstd::string::StrSliceExecFns;

verus! {

/// `c` is white space: one of the characters that Unicode gives the
/// property `White_Space`.
pub open spec fn is_white(c: char) -> bool {
    let code = c as u32;
    ||| 0x09 <= code <= 0x0D
    ||| code == 0x20
    ||| code == 0x85
    ||| code == 0xA0
    ||| code == 0x1680
    ||| 0x2000 <= code <= 0x200A
    ||| code == 0x2028
    ||| code == 0x2029
    ||| code == 0x202F
    ||| code == 0x205F
    ||| code == 0x3000
}

/// Whether `c` is white space.
pub fn is_space(c: char) -> (b: bool)
    ensures
        b == is_white(c),
{
    let code = c as u32;
    (0x09 <= code && code <= 0x0D) || code == 0x20 || code == 0x85 || code == 0xA0 || code
        == 0x1680 || (0x2000 <= code && code <= 0x200A) || code == 0x2028 || code == 0x2029
        || code == 0x202F || code == 0x205F || code == 0x3000
}

/// Where the run that starts at `from` ends: the first place from `from`
/// on whose character is white space if `white` is not set, or is none if
/// it is set; the length of the text if there is no such place.
pub open spec fn run_end(text: Seq<char>, from: int, white: bool) -> int
    decreases text.len() - from,
{
    if from < 0 || from >= text.len() {
        text.len() as int
    } else if is_white(text[from]) != white {
        from
    } else {
        run_end(text, from + 1, white)
    }
}

/// Where the run of white space that ends before `upto` starts.
pub open spec fn white_start(text: Seq<char>, upto: int) -> int
    decreases upto,
{
    if upto <= 0 || upto > text.len() {
        0
    } else if !is_white(text[upto - 1]) {
        upto
    } else {
        white_start(text, upto - 1)
    }
}

/// A run ends at or after its start and within the text.
pub proof fn lemma_run_end(text: Seq<char>, from: int, white: bool)
    requires
        0 <= from <= text.len(),
    ensures
        from <= run_end(text, from, white) <= text.len(),
        run_end(text, from, white) < text.len() ==> is_white(text[run_end(text, from, white)])
            != white,
    decreases text.len() - from,
{
    if from < text.len() && is_white(text[from]) == white {
        lemma_run_end(text, from + 1, white);
    }
}

/// A run of white space before `upto` starts at or before `upto`.
pub proof fn lemma_white_start(text: Seq<char>, upto: int)
    requires
        0 <= upto <= text.len(),
    ensures
        0 <= white_start(text, upto) <= upto,
    decreases upto,
{
    if upto > 0 && is_white(text[upto - 1]) {
        lemma_white_start(text, upto - 1);
    }
}

/// The text without the white space at its ends.
pub open spec fn trimmed(text: Seq<char>) -> Seq<char> {
    let start = run_end(text, 0, true);
    if start >= text.len() {
        Seq::empty()
    } else {
        text.subrange(start, white_start(text, text.len() as int))
    }
}

/// The words of a text from `from` on: the runs of characters that are not
/// white space, in order.
pub open spec fn words_from(text: Seq<char>, from: int) -> Seq<Seq<char>>
    decreases text.len() - from,
{
    let start = run_end(text, from, true);
    let end = run_end(text, start, false);
    if from < 0 || start < from || start >= text.len() || end <= start || end > text.len() {
        Seq::empty()
    } else {
        seq![text.subrange(start, end)] + words_from(text, end)
    }
}

/// The words of a text: the runs of characters that are not white space,
/// in order.
pub open spec fn words(text: Seq<char>) -> Seq<Seq<char>> {
    words_from(text, 0)
}

/// Where the run that starts at `from` ends.
pub fn scan(text: &str, len: usize, from: usize, white: bool) -> (end: usize)
    requires
        len == text@.len(),
        from <= len,
    ensures
        end == run_end(text@, from as int, white),
        from <= end <= len,
{
    let mut i: usize = from;
    while i < len
        invariant
            from <= i <= len,
            len == text@.len(),
            run_end(text@, i as int, white) == run_end(text@, from as int, white),
        decreases len - i,
    {
        if is_space(text.get_char(i)) != white {
            return i;
        }
        i += 1;
    }
    i
}

/// Where the run of white space that ends before `upto` starts.
pub fn scan_back(text: &str, upto: usize) -> (start: usize)
    requires
        upto <= text@.len(),
    ensures
        start == white_start(text@, upto as int),
        start <= upto,
{
    let mut i: usize = upto;
    while i > 0
        invariant
            i <= upto <= text@.len(),
            white_start(text@, i as int) == white_start(text@, upto as int),
        decreases i,
    {
        if !is_space(text.get_char(i - 1)) {
            return i;
        }
        i -= 1;
    }
    i
}

/// The text without the white space at its ends.
pub fn trim(text: &str) -> (inner: &str)
    ensures
        inner@ == trimmed(text@),
{
    let len = text.unicode_len();
    let start = scan(text, len, 0, true);
    if start >= len {
        let nothing = text.substring_char(0, 0);
        proof {
            assert(nothing@ =~= Seq::<char>::empty());
        }
        return nothing;
    }
    let end = scan_back(text, len);
    proof {
        lemma_run_end(text@, 0, true);
        // the character at `start` is no white space, so the white space
        // at the end starts after it
        lemma_white_start_after(text@, len as int, start as int);
    }
    text.substring_char(start, end)
}

/// The run of white space before `upto` starts after every character
/// before `upto` that is no white space.
pub proof fn lemma_white_start_after(text: Seq<char>, upto: int, at: int)
    requires
        0 <= at < upto <= text.len(),
        !is_white(text[at]),
    ensures
        at < white_start(text, upto),
    decreases upto,
{
    if is_white(text[upto - 1]) {
        lemma_white_start_after(text, upto - 1, at);
    }
}

/// The words of a text.
pub fn split_words<'a>(text: &'a str) -> (parts: Vec<&'a str>)
    ensures
        texts(parts@) == words(text@),
{
    let len = text.unicode_len();
    let mut parts: Vec<&'a str> = Vec::new();
    let mut from: usize = 0;
    proof {
        assert(texts(parts@) =~= Seq::<Seq<char>>::empty());
        assert(Seq::<Seq<char>>::empty() + words_from(text@, 0) =~= words_from(text@, 0));
    }
    while from < len
        invariant
            from <= len,
            len == text@.len(),
            texts(parts@) + words_from(text@, from as int) == words(text@),
        decreases len - from,
    {
        let start = scan(text, len, from, true);
        if start >= len {
            proof {
                assert(words_from(text@, from as int) =~= Seq::<Seq<char>>::empty());
                assert(texts(parts@) + Seq::<Seq<char>>::empty() =~= texts(parts@));
            }
            return parts;
        }
        let end = scan(text, len, start, false);
        proof {
            lemma_run_end(text@, from as int, true);
            lemma_run_end(text@, start as int, false);
            assert(!is_white(text@[start as int]));
            assert(end > start);
        }
        let ghost so_far = texts(parts@);
        let word = text.substring_char(start, end);
        parts.push(word);
        proof {
            assert(texts(parts@) =~= so_far.push(word@));
            assert(words_from(text@, from as int) =~= seq![word@] + words_from(text@, end as int));
            assert(so_far.push(word@) + words_from(text@, end as int) =~= so_far + (seq![word@]
                + words_from(text@, end as int)));
        }
        from = end;
    }
    proof {
        assert(words_from(text@, from as int) =~= Seq::<Seq<char>>::empty());
        assert(texts(parts@) + Seq::<Seq<char>>::empty() =~= texts(parts@));
    }
    parts
}

} // verus!
