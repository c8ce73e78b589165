use rust_primer::boxes::{List, MyBox};
use rust_primer::closures::{generate_workout, Cacher, Workout};
use rust_primer::coins::{minted_by, plus_one, value_in_cent, Coin, UsState};
use rust_primer::directory::{bytes_in_order, names_in_order, sort_names, Directory};
use rust_primer::generics::{largest_char, largest_i32, Point, Point2};
use rust_primer::guessing::{
    goes_on, judge, judge_line, judge_reading, parse_number, pick_secret, read_number, reply,
    Verdict,
};
use rust_primer::largest::{largest, largest_ref};
use rust_primer::lists::{count_of, list_mean, list_median, list_mode, sort_numbers};
use rust_primer::restaurant::{
    add_to_waitlist, eat_restaurant, fix_incorrect_order, send_to_table, take_order, Appetizer,
    Breakfast,
};
use std::cell::Cell;

#[test]
fn coins_have_their_value() {
    assert_eq!(value_in_cent(Coin::Penny), 1);
    assert_eq!(value_in_cent(Coin::Nickel), 5);
    assert_eq!(value_in_cent(Coin::Dime), 10);
    assert_eq!(value_in_cent(Coin::Quarter(UsState::Alaska)), 25);
    assert_eq!(minted_by(Coin::Quarter(UsState::Alabama)), Some(UsState::Alabama));
    assert_eq!(minted_by(Coin::Dime), None);
}

#[test]
fn plus_one_of_some_and_none() {
    assert_eq!(plus_one(Some(5)), Some(6));
    assert_eq!(plus_one(None), None);
}

#[test]
fn the_cacher_calculates_once() {
    let calls = Cell::new(0);
    let mut cacher = Cacher::new(|n| {
        calls.set(calls.get() + 1);
        n + 1
    });
    assert_eq!(cacher.value(1), 2);
    assert_eq!(cacher.value(1), 2);
    // the first result stays, whatever is asked later
    assert_eq!(cacher.value(7), 2);
    assert_eq!(calls.get(), 1);
}

#[test]
fn workouts_go_by_intensity() {
    assert_eq!(
        generate_workout(10, 7, |n| n),
        Workout::Exercises { pushups: 10, situps: 10 }
    );
    assert_eq!(generate_workout(24, 3, |n| n * 2), Workout::Exercises { pushups: 48, situps: 48 });
    assert_eq!(generate_workout(25, 3, |n| n), Workout::Break);
    assert_eq!(generate_workout(25, 4, |n| n), Workout::Run { minutes: 25 });
}

#[test]
fn a_break_costs_no_calculation() {
    let calls = Cell::new(0);
    let plan = generate_workout(30, 3, |n| {
        calls.set(calls.get() + 1);
        n
    });
    assert_eq!(plan, Workout::Break);
    assert_eq!(calls.get(), 0);
    let plan = generate_workout(5, 3, |n| {
        calls.set(calls.get() + 1);
        n
    });
    assert_eq!(plan, Workout::Exercises { pushups: 5, situps: 5 });
    assert_eq!(calls.get(), 1);
}

#[test]
fn mean_rounds_towards_zero() {
    let a = vec![1, 2, 9, 3, 4, 6, 5, 8, 7, 5, 6];
    assert_eq!(list_mean(&a), 5);
    assert_eq!(list_mean(&vec![1, 2]), 1);
    assert_eq!(list_mean(&vec![-1, -2]), -1);
    assert_eq!(list_mean(&vec![i32::MAX, i32::MAX]), i32::MAX);
    assert_eq!(list_mean(&vec![i32::MIN, i32::MIN, i32::MIN]), i32::MIN);
    assert_eq!(list_mean(&vec![7]), 7);
}

#[test]
fn median_sorts_the_list() {
    let mut a = vec![1, 2, 9, 3, 4, 6, 5, 8, 7, 5, 6];
    // of eleven numbers the one after the middle is picked
    assert_eq!(list_median(&mut a), 6);
    assert_eq!(a, vec![1, 2, 3, 4, 5, 5, 6, 6, 7, 8, 9]);
    let mut even = vec![4, 1, 3, 2];
    assert_eq!(list_median(&mut even), 2);
    assert_eq!(even, vec![1, 2, 3, 4]);
    let mut negative = vec![-3, -4];
    assert_eq!(list_median(&mut negative), -3);
    let mut wide = vec![i32::MAX, i32::MAX];
    assert_eq!(list_median(&mut wide), i32::MAX);
    let mut three = vec![30, 10, 20];
    assert_eq!(list_median(&mut three), 30);
}

#[test]
fn mode_is_the_first_of_the_most_frequent() {
    assert_eq!(list_mode(&vec![1, 2, 9, 3, 4, 6, 5, 8, 7, 5, 6]), 6);
    assert_eq!(list_mode(&vec![3, 3, 1, 1, 1]), 1);
    assert_eq!(list_mode(&vec![4]), 4);
    assert_eq!(list_mode(&vec![]), 0);
    assert_eq!(count_of(&vec![1, 2, 1], 1), 2);
    assert_eq!(count_of(&vec![1, 2, 1], 3), 0);
}

#[test]
fn employees_join_their_department() {
    let mut firm = Directory::new();
    assert!(firm.add_employee_by_text_interface(String::from("Add Sally to Engineering")));
    assert!(firm.add_employee_by_text_interface(String::from("Add Leon to Sales")));
    assert!(firm.add_employee_by_text_interface(String::from("  Add   Amir to\tSales ")));
    assert_eq!(
        firm.get_department_employees(String::from("Sales")),
        Some(vec![String::from("Amir"), String::from("Leon")])
    );
    assert_eq!(
        firm.get_department_employees(String::from("Engineering")),
        Some(vec![String::from("Sally")])
    );
    assert_eq!(firm.get_department_employees(String::from("Legal")), None);
    assert_eq!(
        firm.get_all_people(),
        Some(vec![String::from("Amir"), String::from("Leon"), String::from("Sally")])
    );
}

#[test]
fn only_four_words_are_an_instruction() {
    let mut firm = Directory::new();
    assert!(!firm.add_employee_by_text_interface(String::from("Add Sally")));
    assert!(!firm.add_employee_by_text_interface(String::from("Add Sally to the Engineering")));
    assert!(!firm.add_employee_by_text_interface(String::new()));
    assert_eq!(firm.get_all_people(), None);
    // which words the first and the third are does not matter
    assert!(firm.add_employee_by_text_interface(String::from("Move Sally into Sales")));
    assert_eq!(firm.get_all_people(), Some(vec![String::from("Sally")]));
}

#[test]
fn names_are_sorted_by_code_points() {
    let mut firm = Directory::new();
    firm.add_employee("bob", "A");
    firm.add_employee("Zed", "B");
    firm.add_employee("Émile", "A");
    firm.add_employee("bob", "B");
    assert_eq!(
        firm.get_all_people(),
        Some(vec![
            String::from("Zed"),
            String::from("bob"),
            String::from("bob"),
            String::from("Émile")
        ])
    );
}

#[test]
fn largest_of_numbers_and_letters() {
    let number_list = vec![34, 50, 25, 100, 65];
    assert_eq!(largest_i32(&number_list), 100);
    assert_eq!(largest(&number_list[..]), 100);
    assert_eq!(*largest_ref(&number_list[..]), 100);
    let char_list = vec!['y', 'm', 'a', 'q'];
    assert_eq!(largest_char(&char_list), 'y');
    assert_eq!(largest(&char_list[..]), 'y');
    assert_eq!(largest_i32(&[-5]), -5);
    assert_eq!(largest_i32(&[i32::MIN, i32::MIN]), i32::MIN);
}

#[test]
fn largest_ref_is_the_first_of_the_greatest() {
    let list = [1, 3, 3, 2];
    let found = largest_ref(&list[..]);
    assert!(std::ptr::eq(found, &list[1]));
}

#[test]
fn points_mix() {
    let p = Point { x: 5, y: 5 };
    assert_eq!(*p.x(), 5);
    let p1 = Point2 { x: 5, y: 10 };
    let p2 = Point2 { x: "Hello", y: 'c' };
    let p3 = p1.mixup(p2);
    assert_eq!((p3.x, p3.y), (5, 'c'));
}

#[test]
fn a_box_gives_its_value() {
    let b = MyBox::new(5);
    assert_eq!(5, *b);
    let m = MyBox::new(String::from("Rust"));
    let name: &str = &m;
    assert_eq!(name, "Rust");
    assert_eq!(b.into_inner(), 5);
    let one = List::Cons(1, Box::new(List::Nil));
    let two = List::Cons(2, Box::new(one));
    assert!(matches!(two.next(), Some(List::Cons(1, _))));
    assert!(List::Nil.next().is_none());
}

#[test]
fn the_restaurant_is_open() {
    add_to_waitlist();
    send_to_table();
    take_order();
    fix_incorrect_order();
    eat_restaurant();
    let mut meal = Breakfast::summer("Rye");
    assert_eq!(meal.toast, "Rye");
    assert_eq!(meal.seasonal_fruit(), "peaches");
    meal.toast = String::from("Wheat");
    assert_eq!(meal.toast, "Wheat");
    assert_ne!(Appetizer::Soup, Appetizer::Salad);
}

#[test]
fn guesses_are_judged() {
    assert_eq!(judge(50, 50), Verdict::Win);
    assert_eq!(judge(49, 50), Verdict::TooSmall);
    assert_eq!(judge(51, 50), Verdict::TooBig);
    assert_eq!(judge(0, 50), Verdict::OutOfRange);
    assert_eq!(judge(101, 50), Verdict::OutOfRange);
    assert_eq!(judge(1, 1), Verdict::Win);
    assert_eq!(judge(100, 100), Verdict::Win);
    assert_eq!(judge_reading(None, 5), Verdict::Unreadable);
    assert_eq!(judge_reading(Some(5), 5), Verdict::Win);
}

#[test]
fn lines_are_read_as_numbers() {
    assert_eq!(judge_line("5\n", 5), Verdict::Win);
    assert_eq!(judge_line("  7  \n", 5), Verdict::TooBig);
    assert_eq!(judge_line("five", 5), Verdict::Unreadable);
    assert_eq!(judge_line("", 5), Verdict::Unreadable);
    assert_eq!(judge_line("-1", 5), Verdict::Unreadable);
    assert_eq!(judge_line("200", 5), Verdict::OutOfRange);
}

#[test]
fn every_verdict_but_silence_has_a_reply() {
    assert_eq!(reply(Verdict::Unreadable), None);
    assert_eq!(reply(Verdict::OutOfRange), Some("The secret number will between 1 and 100."));
    assert_eq!(reply(Verdict::TooSmall), Some("Too small!"));
    assert_eq!(reply(Verdict::TooBig), Some("Too big!"));
    assert_eq!(reply(Verdict::Win), Some("You win!"));
    assert!(!goes_on(Verdict::Win));
    assert!(goes_on(Verdict::TooBig));
    assert!(goes_on(Verdict::Unreadable));
}

#[test]
fn the_secret_is_in_range() {
    for _ in 0..200 {
        let secret = pick_secret();
        assert!((1..=100).contains(&secret));
    }
}

#[test]
fn numbers_are_read_as_the_standard_library_reads_them() {
    assert_eq!(parse_number("42"), Some(42));
    assert_eq!(parse_number("+42"), Some(42));
    assert_eq!(parse_number("007"), Some(7));
    assert_eq!(parse_number("0"), Some(0));
    assert_eq!(parse_number("4294967295"), Some(u32::MAX));
    assert_eq!(parse_number("4294967296"), None);
    assert_eq!(parse_number("99999999999999999999999999"), None);
    assert_eq!(parse_number(""), None);
    assert_eq!(parse_number("+"), None);
    assert_eq!(parse_number("-1"), None);
    assert_eq!(parse_number("++1"), None);
    assert_eq!(parse_number("1+"), None);
    assert_eq!(parse_number(" 1"), None);
    assert_eq!(parse_number("1_000"), None);
    assert_eq!(parse_number("٣"), None);
    assert_eq!(read_number("  42\n"), Some(42));
    assert_eq!(read_number("\u{3000}+7\t"), Some(7));
    // every text of up to five letters over a small alphabet
    let alphabet = ['+', '-', '0', '1', '9', ' ', 'a', '٣'];
    let mut texts = vec![String::new()];
    let mut from = 0;
    for _ in 0..5 {
        let upto = texts.len();
        for i in from..upto {
            for c in alphabet {
                let mut longer = texts[i].clone();
                longer.push(c);
                texts.push(longer);
            }
        }
        from = upto;
    }
    for text in &texts {
        assert_eq!(parse_number(text), text.parse::<u32>().ok(), "{:?}", text);
        assert_eq!(read_number(text), text.trim().parse::<u32>().ok(), "{:?}", text);
    }
    for n in [4294967290u64, 4294967295, 4294967296, 4294967300, 42949672950] {
        let text = n.to_string();
        assert_eq!(parse_number(&text), text.parse::<u32>().ok());
    }
}

/// A sequence of numbers that looks random and is the same every time.
fn scrambled(seed: u64, n: usize) -> Vec<u64> {
    let mut state = seed;
    (0..n)
        .map(|_| {
            state = state.wrapping_mul(6364136223846793005).wrapping_add(1442695040888963407);
            state >> 33
        })
        .collect()
}

#[test]
fn numbers_are_sorted_as_the_standard_library_sorts_them() {
    for seed in 0..50 {
        let mut mine: Vec<i32> =
            scrambled(seed, (seed as usize) % 40).iter().map(|x| (x % 21) as i32 - 10).collect();
        let mut theirs = mine.clone();
        sort_numbers(&mut mine);
        theirs.sort();
        assert_eq!(mine, theirs);
    }
    let mut edge = vec![i32::MAX, i32::MIN, 0, i32::MIN, i32::MAX];
    sort_numbers(&mut edge);
    assert_eq!(edge, vec![i32::MIN, i32::MIN, 0, i32::MAX, i32::MAX]);
}

#[test]
fn names_are_sorted_as_the_standard_library_sorts_them() {
    let letters = ["", "a", "b", "ab", "B", "é", "e", "z", "Z", "ab ", "\u{10348}", "ｚ"];
    for seed in 0..50 {
        let mut mine: Vec<String> = scrambled(seed, (seed as usize) % 30)
            .iter()
            .map(|x| {
                let first = letters[(x % 12) as usize];
                let second = letters[((x / 12) % 12) as usize];
                format!("{}{}", first, second)
            })
            .collect();
        let mut theirs = mine.clone();
        sort_names(&mut mine);
        theirs.sort();
        assert_eq!(mine, theirs);
    }
    for a in letters {
        for b in letters {
            assert_eq!(names_in_order(&a.to_string(), &b.to_string()), a <= b);
            assert_eq!(bytes_in_order(a.as_bytes(), b.as_bytes()), a.as_bytes() <= b.as_bytes());
        }
    }
}
