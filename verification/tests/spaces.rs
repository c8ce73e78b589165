use rust_primer::spaces::{is_space, scan, scan_back, split_words, trim};

#[test]
fn white_space_is_what_unicode_says() {
    for code in 0..=0x10FFFFu32 {
        if let Some(c) = char::from_u32(code) {
            assert_eq!(is_space(c), c.is_whitespace(), "{:x}", code);
        }
    }
}

/// Every text of up to `length` letters over `alphabet`.
fn all_texts(alphabet: &[char], length: usize) -> Vec<String> {
    let mut texts = vec![String::new()];
    let mut from = 0;
    for _ in 0..length {
        let upto = texts.len();
        for i in from..upto {
            for c in alphabet {
                let mut longer = texts[i].clone();
                longer.push(*c);
                texts.push(longer);
            }
        }
        from = upto;
    }
    texts
}

#[test]
fn trimming_takes_the_white_space_off_the_ends() {
    assert_eq!(trim("  hello world \n"), "hello world");
    assert_eq!(trim("hello"), "hello");
    assert_eq!(trim(""), "");
    assert_eq!(trim(" \t\r\n"), "");
    assert_eq!(trim("\u{3000}é\u{2003}"), "é");
    assert_eq!(trim(" a b "), "a b");
    for text in all_texts(&[' ', '\n', 'a', 'é', '\u{2028}', '\u{200B}'], 5) {
        assert_eq!(trim(&text), text.trim(), "{:?}", text);
    }
}

#[test]
fn words_are_what_stands_between_white_space() {
    assert_eq!(split_words("Add Sally to Engineering"), vec!["Add", "Sally", "to", "Engineering"]);
    assert_eq!(split_words("  Add   Amir to\tSales "), vec!["Add", "Amir", "to", "Sales"]);
    assert_eq!(split_words(""), Vec::<&str>::new());
    assert_eq!(split_words(" \n "), Vec::<&str>::new());
    assert_eq!(split_words("one"), vec!["one"]);
    for text in all_texts(&[' ', '\n', 'a', 'é', '\u{2028}', '\u{200B}'], 5) {
        let theirs: Vec<&str> = text.split_whitespace().collect();
        assert_eq!(split_words(&text), theirs, "{:?}", text);
    }
}

#[test]
fn scanning_finds_the_end_of_a_run() {
    let text = "  ab c";
    assert_eq!(scan(text, 6, 0, true), 2);
    assert_eq!(scan(text, 6, 2, false), 4);
    assert_eq!(scan(text, 6, 2, true), 2);
    assert_eq!(scan(text, 6, 5, false), 6);
    assert_eq!(scan(text, 6, 6, true), 6);
    assert_eq!(scan_back("ab  ", 4), 2);
    assert_eq!(scan_back("ab  ", 2), 2);
    assert_eq!(scan_back("   ", 3), 0);
    assert_eq!(scan_back("", 0), 0);
}
