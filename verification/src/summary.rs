//! Things that can be summed up in a line.

use std::fmt::{Debug, Display};
use vstd::prelude::*;
use vstd::string::StringExecFns;

verus! {

/// The line that points to more by `author`.
pub open spec fn read_more_from(author: Seq<char>) -> Seq<char> {
    "Read more from "@ + author + "..."@
}

/// The handle of the account `name`.
pub open spec fn handle_of(name: Seq<char>) -> Seq<char> {
    "@"@ + name
}

/// Something that has an author and can be summed up in a line.
pub trait Summary {
    /// The author.
    fn summarize_author(&self) -> String;

    /// The summary. Where a type has none of its own, it points to the
    /// author.
    fn summarize(&self) -> (s: String)
        default_ensures
            exists|author: String|
                {
                    &&& #[trigger] call_ensures(Self::summarize_author, (self,), author)
                    &&& s@ == read_more_from(author@)
                },
    {
        let mut line = String::from_str("Read more from ");
        let author = self.summarize_author();
        line.append(author.as_str());
        line.append("...");
        line
    }
}

/// An article in a newspaper.
pub struct NewsArticle {
    pub headline: String,
    pub location: String,
    pub author: String,
    pub content: String,
}

impl NewsArticle {
    /// The summary of an article: its headline, author and place.
    pub open spec fn summary(&self) -> Seq<char> {
        self.headline@ + ", by "@ + self.author@ + " ("@ + self.location@ + ")"@
    }
}

impl Summary for NewsArticle {
    fn summarize(&self) -> (s: String)
        ensures
            s@ == self.summary(),
    {
        let mut line = self.headline.clone();
        line.append(", by ");
        line.append(self.author.as_str());
        line.append(" (");
        line.append(self.location.as_str());
        line.append(")");
        line
    }

    fn summarize_author(&self) -> (s: String)
        ensures
            s@ == handle_of(self.author@),
    {
        let mut handle = String::from_str("@");
        handle.append(self.author.as_str());
        handle
    }
}

/// A short message.
pub struct Tweet {
    pub username: String,
    pub content: String,
    pub reply: bool,
    pub retweet: bool,
}

impl Summary for Tweet {
    fn summarize(&self) -> (s: String)
        ensures
            s@ == read_more_from(handle_of(self.username@)),
    {
        let mut line = String::from_str("Read more from ");
        let author = self.summarize_author();
        line.append(author.as_str());
        line.append("...");
        line
    }

    fn summarize_author(&self) -> (s: String)
        ensures
            s@ == handle_of(self.username@),
    {
        let mut handle = String::from_str("@");
        handle.append(self.username.as_str());
        handle
    }
}

/// A type with nothing in it that still has a summary.
pub struct Aggregate {}

impl Aggregate {
    /// The summary of every aggregate.
    pub open spec fn summary() -> Seq<char> {
        "This is A struct"@
    }
}

impl Summary for Aggregate {
    fn summarize(&self) -> (s: String)
        ensures
            s@ == Aggregate::summary(),
    {
        String::from_str("This is A struct")
    }

    fn summarize_author(&self) -> (s: String)
        ensures
            s@ == "someone"@,
    {
        String::from_str("someone")
    }
}

/// Takes two things with a summary, of whatever types.
pub fn notify3(item1: impl Summary, item2: impl Summary) {
}

/// Takes two things with a summary, of one type.
pub fn notify4<T: Summary>(item1: T, item2: T) {
}

/// Takes a thing that has a summary and can be displayed.
pub fn notify5(item: impl Summary + Display) {
}

/// Takes a thing that has a summary and can be displayed.
pub fn notify6<T: Summary + Display>(item: T) {
}

/// Takes two things, each with two abilities.
pub fn some_function<T: Display + Clone, U: Clone + Debug>(t: T, u: U) {
}

/// Takes two things, each with two abilities, named in a `where` clause.
pub fn some_function2<T, U>(t: T, u: U) where T: Display + Clone, U: Clone + Debug {
}

/// `t` is the tweet that everybody knows.
pub open spec fn is_sample_tweet(t: Tweet) -> bool {
    &&& t.username@ == "horse_ebooks"@
    &&& t.content@ == "of course, as you probably already know, people"@
    &&& !t.reply
    &&& !t.retweet
}

/// `a` is the article that everybody knows.
pub open spec fn is_sample_article(a: NewsArticle) -> bool {
    &&& a.headline@ == "Penguins win the Stanley Cup Championship!"@
    &&& a.location@ == "Pittsburgh, PA, USA"@
    &&& a.author@ == "Iceburgh"@
    &&& a.content@ == "The Pittsburgh Penguins once again are the best hockey team in the NHL."@
}

/// The tweet that everybody knows.
pub fn sample_tweet() -> (t: Tweet)
    ensures
        is_sample_tweet(t),
{
    Tweet {
        username: String::from_str("horse_ebooks"),
        content: String::from_str("of course, as you probably already know, people"),
        reply: false,
        retweet: false,
    }
}

/// The article that everybody knows.
pub fn sample_article() -> (a: NewsArticle)
    ensures
        is_sample_article(a),
{
    NewsArticle {
        headline: String::from_str("Penguins win the Stanley Cup Championship!"),
        location: String::from_str("Pittsburgh, PA, USA"),
        author: String::from_str("Iceburgh"),
        content: String::from_str(
            "The Pittsburgh Penguins once again are the best hockey team in the NHL.",
        ),
    }
}

/// Something with a summary, of a type the caller does not learn.
pub fn returns_summarizable() -> (s: impl Summary) {
    sample_tweet()
}

/// An article or a tweet: a value with a summary whose kind is known only
/// when the program runs.
pub enum Summarizable {
    Article(NewsArticle),
    Short(Tweet),
}

impl Summarizable {
    /// The summary of whichever it is.
    pub open spec fn summary(&self) -> Seq<char> {
        match self {
            Summarizable::Article(a) => a.summary(),
            Summarizable::Short(t) => read_more_from(handle_of(t.username@)),
        }
    }

    /// The author of whichever it is.
    pub open spec fn author(&self) -> Seq<char> {
        match self {
            Summarizable::Article(a) => handle_of(a.author@),
            Summarizable::Short(t) => handle_of(t.username@),
        }
    }
}

impl Summary for Summarizable {
    fn summarize(&self) -> (s: String)
        ensures
            s@ == self.summary(),
    {
        match self {
            Summarizable::Article(a) => a.summarize(),
            Summarizable::Short(t) => t.summarize(),
        }
    }

    fn summarize_author(&self) -> (s: String)
        ensures
            s@ == self.author(),
    {
        match self {
            Summarizable::Article(a) => a.summarize_author(),
            Summarizable::Short(t) => t.summarize_author(),
        }
    }
}

/// The article or the tweet, behind one type: the article if `switch` is
/// set.
pub fn returns_summarizable3(switch: bool) -> (s: Summarizable)
    ensures
        switch ==> (s matches Summarizable::Article(a) && is_sample_article(a)),
        !switch ==> (s matches Summarizable::Short(t) && is_sample_tweet(t)),
{
    if switch {
        Summarizable::Article(sample_article())
    } else {
        Summarizable::Short(sample_tweet())
    }
}

/// Two values with equal fields.
pub struct Pair<T> {
    pub x: T,
    pub y: T,
}

impl<T> Pair<T> {
    /// The pair of `x` and `y`.
    pub fn new(x: T, y: T) -> (p: Self)
        ensures
            p.x == x,
            p.y == y,
    {
        Pair { x, y }
    }
}

} // verus!
