use rust_primer::minigrep::{
    holds, matching_lines, matching_lines_folded, search, search_case_insensitive, Config,
};

#[test]
fn one_result() {
    let query = "duct";
    let contents = "\
Rust:
safe, fast, productive.
Pick three.
Duct tape.";

    assert_eq!(vec!["safe, fast, productive."], search(query, contents));
}

#[test]
fn case_insensitive() {
    let query = "rUsT";
    let contents = "\
Rust:
safe, fast, productive.
Trust me.";

    assert_eq!(vec!["Rust:", "Trust me."], search_case_insensitive(query, contents));
}

#[test]
fn search_is_case_sensitive() {
    let contents = "Rust:\nTrust me.\nrust";
    assert_eq!(search("rust", contents), vec!["Trust me.", "rust"]);
    assert_eq!(search("Rust", contents), vec!["Rust:"]);
}

#[test]
fn the_empty_query_is_in_every_line() {
    let contents = "one\n\nthree\n";
    assert_eq!(search("", contents), vec!["one", "", "three"]);
    assert_eq!(search("x", ""), Vec::<&str>::new());
}

#[test]
fn lines_end_with_or_without_carriage_return() {
    assert_eq!(search("a", "a\r\nba\nc"), vec!["a", "ba"]);
}

#[test]
fn matching_keeps_the_order() {
    let lines = vec!["ab", "b", "cab", "ABC"];
    assert_eq!(matching_lines(lines.clone(), "ab"), vec!["ab", "cab"]);
    assert_eq!(matching_lines_folded(lines, "ab"), vec!["ab", "cab", "ABC"]);
}

#[test]
fn lower_case_is_more_than_ascii() {
    assert_eq!(search_case_insensitive("ÄPFEL", "Viele Äpfel\nBirnen"), vec!["Viele Äpfel"]);
}

#[test]
fn config_needs_a_query_and_a_file_name() {
    let name = String::from("minigrep");
    assert_eq!(Config::new(&vec![], true).err(), Some("Didn't get a query string"));
    assert_eq!(Config::new(&vec![name.clone()], true).err(), Some("Didn't get a query string"));
    assert_eq!(
        Config::new(&vec![name.clone(), String::from("duct")], true).err(),
        Some("Didn't get a file name")
    );
    let args = vec![name, String::from("duct"), String::from("poem.txt"), String::from("more")];
    let config = Config::new(&args, false).ok().unwrap();
    assert_eq!(config.query, "duct");
    assert_eq!(config.filename, "poem.txt");
    assert!(!config.case_sensitive);
}

#[test]
fn config_picks_the_search() {
    let args = vec![String::from("minigrep"), String::from("rust"), String::from("poem.txt")];
    let contents = "Rust:\nrust";
    let exact = Config::new(&args, true).ok().unwrap();
    assert_eq!(exact.search_in(contents), vec!["rust"]);
    let folded = Config::new(&args, false).ok().unwrap();
    assert_eq!(folded.search_in(contents), vec!["Rust:", "rust"]);
}

/// The rule for lines, written out: split at line feeds, drop a carriage
/// return right before a line feed, and take what follows the last line
/// feed for a line unless it is empty.
fn lines_by_the_rule(text: &str) -> Vec<String> {
    let mut lines = Vec::new();
    let mut rest: Vec<char> = text.chars().collect();
    while !rest.is_empty() {
        match rest.iter().position(|c| *c == '\n') {
            None => {
                lines.push(rest.iter().collect());
                rest.clear();
            }
            Some(end) => {
                let mut line: Vec<char> = rest[..end].to_vec();
                if line.last() == Some(&'\r') {
                    line.pop();
                }
                lines.push(line.into_iter().collect());
                rest = rest[end + 1..].to_vec();
            }
        }
    }
    lines
}

#[test]
fn lines_follow_the_rule() {
    assert_eq!(search("", "a\r"), vec!["a\r"]);
    assert_eq!(search("", "a\r\n"), vec!["a"]);
    assert_eq!(search("", "\n"), vec![""]);
    assert_eq!(search("", "a\n\nb"), vec!["a", "", "b"]);
    assert_eq!(search("", "a\r\r\nb\r"), vec!["a\r", "b\r"]);
    // every text of up to six letters over a small alphabet
    let alphabet = ['a', '\n', '\r', 'é'];
    let mut texts = vec![String::new()];
    let mut from = 0;
    for _ in 0..6 {
        let upto = texts.len();
        for i in from..upto {
            for c in alphabet {
                let mut longer = texts[i].clone();
                longer.push(c);
                texts.push(longer);
            }
        }
        from = upto;
    }
    assert_eq!(texts.len(), 5461);
    for text in &texts {
        assert_eq!(search("", text), lines_by_the_rule(text), "{:?}", text);
    }
}

#[test]
fn a_text_holds_what_the_standard_library_finds_in_it() {
    assert!(holds("safe, fast, productive.", "duct"));
    assert!(!holds("Duct tape.", "duct"));
    assert!(holds("abc", ""));
    assert!(holds("", ""));
    assert!(!holds("", "a"));
    assert!(!holds("ab", "abc"));
    assert!(holds("abc", "abc"));
    assert!(holds("aab", "ab"));
    // letters that share bytes with one another
    let alphabet = ['a', 'b', 'é', 'à', '©'];
    let mut texts = vec![String::new()];
    let mut from = 0;
    for _ in 0..4 {
        let upto = texts.len();
        for i in from..upto {
            for c in alphabet {
                let mut longer = texts[i].clone();
                longer.push(c);
                texts.push(longer);
            }
        }
        from = upto;
    }
    for hay in &texts {
        for needle in texts.iter().take(156) {
            assert_eq!(holds(hay, needle), hay.contains(needle.as_str()), "{:?} {:?}", hay, needle);
        }
    }
}
