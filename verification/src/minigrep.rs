//! Finding the lines of a text that hold a query.

use crate::words::texts;
use vstd::prelude::*;
use vstd::string::StringSliceAdditionalSpecFns;

verus! {

/// The place of the first line feed in `text`, or the length of `text` if
/// it holds none.
pub open spec fn line_end(text: Seq<char>) -> int
    decreases text.len(),
{
    if text.len() == 0 {
        0
    } else if text[0] == '\n' {
        0
    } else {
        1 + line_end(text.skip(1))
    }
}

/// A line without the carriage return at its end, if it has one there.
pub open spec fn without_return(line: Seq<char>) -> Seq<char> {
    if line.len() > 0 && line.last() == '\r' {
        line.drop_last()
    } else {
        line
    }
}

/// The lines of a text, without their line endings. A line ends at a line
/// feed; a carriage return right before the line feed belongs to the line
/// ending. What follows the last line feed is a line too, unless nothing
/// follows it.
pub open spec fn text_lines(contents: Seq<char>) -> Seq<Seq<char>>
    decreases contents.len(),
{
    let end = line_end(contents);
    if contents.len() == 0 {
        Seq::empty()
    } else if end < 0 || end >= contents.len() {
        seq![contents]
    } else {
        seq![without_return(contents.take(end))] + text_lines(contents.skip(end + 1))
    }
}

/// A text in lower case, as `str::to_lowercase` gives it.
pub uninterp spec fn lowercase(text: Seq<char>) -> Seq<char>;

/// `needle` stands in `hay` at place `at`, byte for byte.
pub open spec fn stands_at(needle: Seq<u8>, hay: Seq<u8>, at: int) -> bool {
    0 <= at <= hay.len() - needle.len() && hay.subrange(at, at + needle.len()) == needle
}

/// `needle` occurs in `hay`: its bytes stand somewhere in the bytes of
/// `hay`. The empty text occurs in every text.
pub open spec fn occurs_in(needle: Seq<char>, hay: Seq<char>) -> bool {
    exists|at: int| #[trigger]
        stands_at(vstd::utf8::encode_utf8(needle), vstd::utf8::encode_utf8(hay), at)
}

/// The lines among `lines` whose key at the same place in `keys` holds
/// `query`, in their order.
pub open spec fn select(lines: Seq<Seq<char>>, keys: Seq<Seq<char>>, query: Seq<char>) -> Seq<
    Seq<char>,
>
    decreases lines.len(),
{
    if lines.len() == 0 || keys.len() != lines.len() {
        Seq::empty()
    } else {
        let before = select(lines.drop_last(), keys.drop_last(), query);
        if occurs_in(query, keys.last()) {
            before.push(lines.last())
        } else {
            before
        }
    }
}

/// Calls `str::lines`: the lines of `contents`, in order, each without its
/// line ending. The contract says of the result what the documentation of
/// `str::lines` says: lines end at a line feed or at a carriage return
/// followed by a line feed, and the last line needs no line ending.
#[verifier::external_body]
fn lines_of<'a>(contents: &'a str) -> (lines: Vec<&'a str>)
    ensures
        texts(lines@) == text_lines(contents@),
{
    contents.lines().collect()
}

/// Whether `needle` stands in `hay` at place `at`.
fn found_at(hay: &[u8], needle: &[u8], at: usize) -> (b: bool)
    requires
        at + needle@.len() <= hay@.len(),
    ensures
        b == stands_at(needle@, hay@, at as int),
{
    let size = hay.len();
    let mut j: usize = 0;
    while j < needle.len()
        invariant
            j <= needle@.len(),
            at + needle@.len() <= hay@.len() == size,
            forall|k: int| 0 <= k < j ==> hay@[at + k] == needle@[k],
        decreases needle@.len() - j,
    {
        if hay[at + j] != needle[j] {
            proof {
                assert(hay@.subrange(at as int, at + needle@.len())[j as int] == hay@[at + j]);
            }
            return false;
        }
        j += 1;
    }
    proof {
        assert(hay@.subrange(at as int, at + needle@.len()) =~= needle@);
    }
    true
}

/// Whether `needle` occurs in `hay`.
pub fn holds(hay: &str, needle: &str) -> (b: bool)
    ensures
        b == occurs_in(needle@, hay@),
{
    let hay_bytes = hay.as_bytes();
    let needle_bytes = needle.as_bytes();
    if needle_bytes.len() == 0 {
        proof {
            assert(hay_bytes@.subrange(0, 0) =~= needle_bytes@);
            assert(stands_at(needle_bytes@, hay_bytes@, 0));
        }
        return true;
    }
    if needle_bytes.len() > hay_bytes.len() {
        return false;
    }
    let last = hay_bytes.len() - needle_bytes.len();
    let mut at: usize = 0;
    while at <= last
        invariant
            at <= last + 1,
            last == hay_bytes@.len() - needle_bytes@.len(),
            needle_bytes@.len() > 0,
            hay_bytes@.len() <= usize::MAX,
            hay_bytes@ == vstd::utf8::encode_utf8(hay@),
            needle_bytes@ == vstd::utf8::encode_utf8(needle@),
            forall|k: int| 0 <= k < at ==> !stands_at(needle_bytes@, hay_bytes@, k),
        decreases last + 1 - at,
    {
        if found_at(hay_bytes, needle_bytes, at) {
            return true;
        }
        at += 1;
    }
    false
}

/// Calls `str::to_lowercase`. The contract gives the result the name
/// `lowercase`.
#[verifier::external_body]
fn to_lower(text: &str) -> (lower: String)
    ensures
        lower@ == lowercase(text@),
{
    text.to_lowercase()
}

/// The lines among `lines` that hold `query`, in their order.
pub fn matching_lines<'a>(lines: Vec<&'a str>, query: &str) -> (found: Vec<&'a str>)
    ensures
        texts(found@) == select(texts(lines@), texts(lines@), query@),
{
    let mut found: Vec<&'a str> = Vec::new();
    let mut i: usize = 0;
    proof {
        assert(texts(lines@).take(0) =~= Seq::<Seq<char>>::empty());
        assert(texts(found@) =~= Seq::<Seq<char>>::empty());
    }
    while i < lines.len()
        invariant
            i <= lines@.len(),
            texts(found@) == select(texts(lines@).take(i as int), texts(lines@).take(i as int), query@),
        decreases lines@.len() - i,
    {
        let line = lines[i];
        let ghost before = texts(found@);
        proof {
            let next = texts(lines@).take(i + 1);
            assert(next.drop_last() =~= texts(lines@).take(i as int));
            assert(next.last() == line@);
        }
        if holds(line, query) {
            found.push(line);
            proof {
                assert(texts(found@) =~= before.push(line@));
            }
        } else {
            proof {
                assert(texts(found@) =~= before);
            }
        }
        i += 1;
    }
    proof {
        assert(texts(lines@).take(lines@.len() as int) =~= texts(lines@));
    }
    found
}

/// The lines among `lines` whose lower-case form holds `query`, in their
/// order.
pub fn matching_lines_folded<'a>(lines: Vec<&'a str>, query: &str) -> (found: Vec<&'a str>)
    ensures
        texts(found@) == select(
            texts(lines@),
            texts(lines@).map_values(|l: Seq<char>| lowercase(l)),
            query@,
        ),
{
    let mut found: Vec<&'a str> = Vec::new();
    let mut i: usize = 0;
    let ghost keys = texts(lines@).map_values(|l: Seq<char>| lowercase(l));
    proof {
        assert(texts(lines@).take(0) =~= Seq::<Seq<char>>::empty());
        assert(keys.take(0) =~= Seq::<Seq<char>>::empty());
        assert(texts(found@) =~= Seq::<Seq<char>>::empty());
    }
    while i < lines.len()
        invariant
            i <= lines@.len(),
            keys == texts(lines@).map_values(|l: Seq<char>| lowercase(l)),
            texts(found@) == select(texts(lines@).take(i as int), keys.take(i as int), query@),
        decreases lines@.len() - i,
    {
        let line = lines[i];
        let key = to_lower(line);
        let ghost before = texts(found@);
        proof {
            let next = texts(lines@).take(i + 1);
            assert(next.drop_last() =~= texts(lines@).take(i as int));
            assert(next.last() == line@);
            let next_keys = keys.take(i + 1);
            assert(next_keys.drop_last() =~= keys.take(i as int));
            assert(next_keys.last() == key@);
        }
        if holds(key.as_str(), query) {
            found.push(line);
            proof {
                assert(texts(found@) =~= before.push(line@));
            }
        } else {
            proof {
                assert(texts(found@) =~= before);
            }
        }
        i += 1;
    }
    proof {
        assert(texts(lines@).take(lines@.len() as int) =~= texts(lines@));
        assert(keys.take(lines@.len() as int) =~= keys);
    }
    found
}

/// The lines of `contents` that hold `query`, letter for letter.
pub fn search<'a>(query: &'a str, contents: &'a str) -> (found: Vec<&'a str>)
    ensures
        texts(found@) == select(text_lines(contents@), text_lines(contents@), query@),
{
    matching_lines(lines_of(contents), query)
}

/// The lines of `contents` that hold `query` when both are put in lower
/// case.
pub fn search_case_insensitive<'a>(query: &'a str, contents: &'a str) -> (found: Vec<&'a str>)
    ensures
        texts(found@) == select(
            text_lines(contents@),
            text_lines(contents@).map_values(|l: Seq<char>| lowercase(l)),
            lowercase(query@),
        ),
{
    let query = to_lower(query);
    matching_lines_folded(lines_of(contents), query.as_str())
}

/// What to look for, and where, and how.
pub struct Config {
    pub query: String,
    pub filename: String,
    pub case_sensitive: bool,
}

/// The complaint about a missing query.
pub open spec fn no_query() -> Seq<char> {
    "Didn't get a query string"@
}

/// The complaint about a missing file name.
pub open spec fn no_filename() -> Seq<char> {
    "Didn't get a file name"@
}

impl Config {
    /// Reads the configuration off the arguments of a program: after the
    /// program's name come the query and the file name. What follows them is
    /// ignored.
    pub fn new(args: &Vec<String>, case_sensitive: bool) -> (r: Result<Config, &'static str>)
        ensures
            args@.len() < 2 ==> (r matches Err(e) && e@ == no_query()),
            args@.len() == 2 ==> (r matches Err(e) && e@ == no_filename()),
            args@.len() >= 3 ==> (r matches Ok(c) && c.query == args@[1] && c.filename == args@[2]
                && c.case_sensitive == case_sensitive),
    {
        if args.len() < 2 {
            return Err("Didn't get a query string");
        }
        if args.len() < 3 {
            return Err("Didn't get a file name");
        }
        Ok(Config { query: args[1].clone(), filename: args[2].clone(), case_sensitive })
    }

    /// The lines of `contents` that the configuration asks for.
    pub fn search_in<'a>(&'a self, contents: &'a str) -> (found: Vec<&'a str>)
        ensures
            self.case_sensitive ==> texts(found@) == select(
                text_lines(contents@),
                text_lines(contents@),
                self.query@,
            ),
            !self.case_sensitive ==> texts(found@) == select(
                text_lines(contents@),
                text_lines(contents@).map_values(|l: Seq<char>| lowercase(l)),
                lowercase(self.query@),
            ),
    {
        if self.case_sensitive {
            search(self.query.as_str(), contents)
        } else {
            search_case_insensitive(self.query.as_str(), contents)
        }
    }
}

} // verus!
