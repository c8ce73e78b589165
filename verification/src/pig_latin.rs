//! Pig Latin, letter by letter as a reader sees letters: by grapheme
//! clusters.

use crate::words::texts;
use unicode_segmentation::UnicodeSegmentation;
use vstd::prelude::*;
use vstd::string::{StrSliceExecFns, StringExecFns};

verus! {

/// The extended grapheme clusters of a text, in order, as the crate
/// `unicode-segmentation` finds them.
pub uninterp spec fn grapheme_clusters(text: Seq<char>) -> Seq<Seq<char>>;

/// Calls `UnicodeSegmentation::graphemes` for extended clusters and
/// collects what it yields. The contract gives the result the name
/// `grapheme_clusters`.
#[verifier::external_body]
fn graphemes_of<'a>(text: &'a str) -> (clusters: Vec<&'a str>)
    ensures
        texts(clusters@) == grapheme_clusters(text@),
{
    UnicodeSegmentation::graphemes(text, true).collect()
}

/// `cluster` is one of the five lower-case vowels.
pub open spec fn is_vowel(cluster: Seq<char>) -> bool {
    cluster.len() == 1 && (cluster[0] == 'a' || cluster[0] == 'e' || cluster[0] == 'i'
        || cluster[0] == 'o' || cluster[0] == 'u')
}

/// The texts of `parts` from the one at `from` on, put together.
pub open spec fn joined(parts: Seq<Seq<char>>, from: int) -> Seq<char>
    decreases parts.len() - from,
{
    if from >= parts.len() || from < 0 {
        Seq::empty()
    } else {
        parts[from] + joined(parts, from + 1)
    }
}

/// The Pig Latin of `text`, whose clusters are `clusters`, at least one. A
/// text that starts with a vowel gets `-fay` at its end. Of any other the
/// first cluster moves to the end, after a hyphen, and `ay` follows.
pub open spec fn pig_latin(text: Seq<char>, clusters: Seq<Seq<char>>) -> Seq<char> {
    if is_vowel(clusters[0]) {
        text + "-fay"@
    } else {
        joined(clusters, 1) + "-"@ + clusters[0] + "ay"@
    }
}

/// Whether `cluster` is one of the five lower-case vowels.
pub fn starts_like_vowel(cluster: &str) -> (b: bool)
    ensures
        b == is_vowel(cluster@),
{
    if cluster.unicode_len() != 1 {
        return false;
    }
    let c = cluster.get_char(0);
    c == 'a' || c == 'e' || c == 'i' || c == 'o' || c == 'u'
}

/// The Pig Latin of `text`, given its clusters.
pub fn pig_latin_from(text: &str, clusters: &Vec<&str>) -> (converted: String)
    requires
        clusters@.len() > 0,
    ensures
        converted@ == pig_latin(text@, texts(clusters@)),
{
    let first = clusters[0];
    if starts_like_vowel(first) {
        let mut res = String::from_str(text);
        res.append("-fay");
        return res;
    }
    let ghost parts = texts(clusters@);
    let mut res = String::new();
    let mut i: usize = clusters.len();
    // Put the clusters after the first together, from the last to the
    // second, each in front of what is there.
    let mut tail = String::new();
    proof {
        assert(tail@ =~= joined(parts, i as int));
    }
    while i > 1
        invariant
            1 <= i <= clusters@.len(),
            parts == texts(clusters@),
            tail@ == joined(parts, i as int),
        decreases i,
    {
        i -= 1;
        let mut next = String::from_str(clusters[i]);
        next.append(tail.as_str());
        tail = next;
    }
    res.append(tail.as_str());
    res.append("-");
    res.append(first);
    res.append("ay");
    proof {
        assert(res@ =~= joined(parts, 1) + "-"@ + parts[0] + "ay"@);
    }
    res
}

/// The Pig Latin of `text`; `None` for a text without a cluster, which has
/// no first letter to go by.
pub fn string_convert(text: &String) -> (converted: Option<String>)
    ensures
        grapheme_clusters(text@).len() == 0 ==> converted.is_none(),
        grapheme_clusters(text@).len() > 0 ==> (converted matches Some(c) && c@ == pig_latin(
            text@,
            grapheme_clusters(text@),
        )),
{
    let clusters = graphemes_of(text.as_str());
    if clusters.len() == 0 {
        return None;
    }
    Some(pig_latin_from(text.as_str(), &clusters))
}

} // verus!
