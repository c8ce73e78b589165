use rust_primer::adder::{greeting, Guess};
use rust_primer::functions::{add_one, add_two, five, plus_one};
use rust_primer::shapes::{area, area2, area3, build_user, Rectangle};

#[test]
fn it_works() {
    assert_eq!(3, plus_one(2));
}

#[test]
fn lib_it_works() -> Result<(), String> {
    if 2 + 2 == 4 {
        Ok(())
    } else {
        Err(String::from("two plus two does not equal four"))
    }
}

#[test]
fn exploration() {
    assert_eq!(2 + 2, 4);
}

#[test]
fn larger_can_hold_smaller() {
    let larger = Rectangle::new(8, 7);
    let smaller = Rectangle::new(5, 1);
    assert!(larger.can_hold(&smaller));
}

#[test]
fn small_cannot_hold_larger() {
    let larger = Rectangle::new(8, 7);
    let smaller = Rectangle::new(5, 1);
    assert!(!smaller.can_hold(&larger));
}

#[test]
fn it_adds_two() {
    assert_eq!(4, add_two(2));
}

#[test]
fn test_add_two() {
    assert_eq!(4, add_two(2));
}

#[test]
fn greeting_is_the_same_for_every_name() {
    assert_eq!(greeting("Carol"), "Hello!");
    assert_eq!(greeting(""), "Hello!");
}

#[test]
fn guess_keeps_a_number_in_bounds() {
    assert_eq!(Guess::new(1).value(), 1);
    assert_eq!(Guess::new(100).value(), 100);
    assert!(Guess::in_bounds(1));
    assert!(Guess::in_bounds(100));
    assert!(!Guess::in_bounds(0));
    assert!(!Guess::in_bounds(101));
    assert!(!Guess::in_bounds(200));
}

#[test]
fn small_functions() {
    assert_eq!(five(), 5);
    assert_eq!(add_one(5), 6);
    assert_eq!(plus_one(-1), 0);
    assert_eq!(add_two(i32::MAX - 2), i32::MAX);
}

#[test]
fn areas() {
    assert_eq!(area(30, 50), 1500);
    assert_eq!(area2((30, 50)), 1500);
    let rect = Rectangle { width: 30, height: 50 };
    assert_eq!(area3(&rect), 1500);
    assert_eq!(rect.area(), 1500);
    assert_eq!(Rectangle::square(3), Rectangle { width: 3, height: 3 });
    assert_eq!(Rectangle::square(3).area(), 9);
    assert!(rect.can_hold(&Rectangle { width: 10, height: 40 }));
    assert!(!rect.can_hold(&Rectangle { width: 60, height: 45 }));
    assert!(!rect.can_hold(&rect));
}

#[test]
fn a_new_user_is_active() {
    let user = build_user(String::from("someone@example.com"), String::from("someusername123"));
    assert_eq!(user.email, "someone@example.com");
    assert_eq!(user.username, "someusername123");
    assert!(user.active);
    assert_eq!(user.sign_in_count, 1);
}
