use rust_primer::branches::{fibonacci, gift_text, the_twelve_days_of_christmas_send};
use rust_primer::pig_latin::{pig_latin_from, starts_like_vowel, string_convert};
use rust_primer::summary::{
    notify3, notify4, returns_summarizable, returns_summarizable3, sample_article, sample_tweet,
    Aggregate, NewsArticle, Pair, Summarizable, Summary, Tweet,
};
use rust_primer::words::{
    calculate_length, change, first_word, gives_ownership, length_of, longest, longest2, no_dangle,
    takes_and_gives_back, ImportantExcerpt,
};

#[test]
fn fibonacci_starts_with_ones() {
    let first: Vec<u32> = (0..11).map(fibonacci).collect();
    assert_eq!(first, vec![1, 1, 1, 2, 3, 5, 8, 13, 21, 34, 55]);
    assert_eq!(fibonacci(47), 2971215073);
}

#[test]
fn the_first_day_has_one_gift() {
    assert_eq!(the_twelve_days_of_christmas_send(1), "A partridge in a pear tree.");
    assert_eq!(the_twelve_days_of_christmas_send(0), "A partridge in a pear tree.");
}

#[test]
fn later_days_count_down() {
    assert_eq!(
        the_twelve_days_of_christmas_send(3),
        "Three French hens, Two turtle doves, A partridge in a pear tree."
    );
    let last = the_twelve_days_of_christmas_send(12);
    assert!(last.starts_with("Twelve drummers drumming, Eleven pipers piping, "));
    assert!(last.ends_with("Two turtle doves, A partridge in a pear tree."));
    assert_eq!(last.matches(", ").count(), 11);
    assert_eq!(gift_text(4), "Five golden rings");
}

#[test]
fn first_word_stops_at_the_first_space() {
    assert_eq!(first_word("hello world"), "hello");
    assert_eq!(first_word("hello"), "hello");
    assert_eq!(first_word(" hello"), "");
    assert_eq!(first_word(""), "");
    assert_eq!(first_word("a  b"), "a");
    assert_eq!(first_word("grüße dich"), "grüße");
    assert_eq!(first_word("tab\tis no space"), "tab\tis");
}

#[test]
fn longest_goes_by_bytes() {
    assert_eq!(longest("abcd", "xyz"), "abcd");
    assert_eq!(longest("xyz", "abcd"), "abcd");
    assert_eq!(longest("abc", "xyz"), "xyz");
    assert_eq!(longest("äb", "xyz"), "xyz");
    assert_eq!(longest("äbc", "xyz"), "äbc");
    assert_eq!(longest2("a", "longer"), "a");
}

#[test]
fn strings_change_hands() {
    assert_eq!(gives_ownership(), "hello");
    assert_eq!(no_dangle(), "hello");
    assert_eq!(takes_and_gives_back(String::from("mine")), "mine");
    assert_eq!(calculate_length(String::from("hello")), (String::from("hello"), 5));
    assert_eq!(length_of(&String::from("Здравствуйте")), 24);
    let mut s = String::from("hello");
    change(&mut s);
    assert_eq!(s, "hello, world");
}

#[test]
fn an_excerpt_has_level_three() {
    let novel = String::from("Call me Ishmael. Some years ago...");
    let first_sentence = novel.split('.').next().unwrap();
    let excerpt = ImportantExcerpt { part: first_sentence };
    assert_eq!(excerpt.level(), 3);
    assert_eq!(excerpt.part(), "Call me Ishmael");
}

#[test]
fn pig_latin_of_a_vowel_word() {
    assert_eq!(string_convert(&String::from("apply")), Some(String::from("apply-fay")));
    assert_eq!(string_convert(&String::from("a")), Some(String::from("a-fay")));
}

#[test]
fn pig_latin_of_a_consonant_word() {
    assert_eq!(string_convert(&String::from("first")), Some(String::from("irst-fay")));
    assert_eq!(string_convert(&String::from("x")), Some(String::from("-xay")));
    // only lower-case vowels count
    assert_eq!(string_convert(&String::from("Apple")), Some(String::from("pple-Aay")));
}

#[test]
fn pig_latin_moves_a_whole_cluster() {
    // an e with an accent on top of it is one cluster of two code points
    assert_eq!(string_convert(&String::from("e\u{301}t")), Some(String::from("t-e\u{301}ay")));
    assert_eq!(string_convert(&String::from("नमस्ते")), Some(String::from("मस्ते-नay")));
}

#[test]
fn pig_latin_of_nothing() {
    assert_eq!(string_convert(&String::new()), None);
}

#[test]
fn pig_latin_from_given_clusters() {
    assert_eq!(pig_latin_from("ab", &vec!["a", "b"]), "ab-fay");
    assert_eq!(pig_latin_from("ignored", &vec!["st", "o", "p"]), "op-stay");
    assert!(starts_like_vowel("u"));
    assert!(!starts_like_vowel("uu"));
    assert!(!starts_like_vowel(""));
    assert!(!starts_like_vowel("y"));
}

#[test]
fn a_tweet_points_to_its_author() {
    let tweet = sample_tweet();
    assert_eq!(tweet.username, "horse_ebooks");
    assert_eq!(tweet.summarize_author(), "@horse_ebooks");
    assert_eq!(tweet.summarize(), "Read more from @horse_ebooks...");
}

#[test]
fn an_article_has_its_own_summary() {
    let article = sample_article();
    assert_eq!(article.summarize_author(), "@Iceburgh");
    assert_eq!(
        article.summarize(),
        "Penguins win the Stanley Cup Championship!, by Iceburgh (Pittsburgh, PA, USA)"
    );
}

#[test]
fn the_switch_picks_the_kind() {
    assert_eq!(
        returns_summarizable3(true).summarize(),
        "Penguins win the Stanley Cup Championship!, by Iceburgh (Pittsburgh, PA, USA)"
    );
    assert_eq!(returns_summarizable3(false).summarize(), "Read more from @horse_ebooks...");
    assert!(matches!(returns_summarizable3(true), Summarizable::Article(_)));
    assert_eq!(returns_summarizable().summarize(), "Read more from @horse_ebooks...");
}

/// A type that leaves the summary to the trait.
struct Byline(String);

impl Summary for Byline {
    fn summarize_author(&self) -> String {
        self.0.clone()
    }
}

#[test]
fn the_summary_by_default_points_to_the_author() {
    assert_eq!(Byline(String::from("a friend")).summarize(), "Read more from a friend...");
    assert_eq!(Aggregate {}.summarize(), "This is A struct");
    assert_eq!(Aggregate {}.summarize_author(), "someone");
}

#[test]
fn notify_takes_what_has_a_summary() {
    notify3(sample_tweet(), sample_article());
    notify4(sample_tweet(), sample_tweet());
    let article = NewsArticle {
        headline: String::from("h"),
        location: String::from("l"),
        author: String::from("a"),
        content: String::from("c"),
    };
    assert_eq!(article.summarize(), "h, by a (l)");
    let tweet = Tweet {
        username: String::new(),
        content: String::new(),
        reply: true,
        retweet: true,
    };
    assert_eq!(tweet.summarize(), "Read more from @...");
    let pair = Pair::new(1, 2);
    assert_eq!((pair.x, pair.y), (1, 2));
}
