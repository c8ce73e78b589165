use rust_primer::tracker::{message, usage, LimitTracker, Messenger, Usage};
use std::cell::RefCell;

struct MockMessenger {
    sent_message: RefCell<Vec<String>>,
}

impl MockMessenger {
    fn new() -> MockMessenger {
        MockMessenger { sent_message: RefCell::new(vec![]) }
    }
}

impl Messenger for MockMessenger {
    fn send(&self, msg: &str) {
        self.sent_message.borrow_mut().push(String::from(msg));
    }
}

#[test]
fn it_sends_an_over_75_percent_warning_message() {
    let mock_messenger = MockMessenger::new();
    let mut limit_tracker = LimitTracker::new(&mock_messenger, 100);

    limit_tracker.set_value(80);

    assert_eq!(1, mock_messenger.sent_message.borrow().len());
}

#[test]
fn each_threshold_has_its_message() {
    let mock_messenger = MockMessenger::new();
    let mut limit_tracker = LimitTracker::new(&mock_messenger, 100);
    assert_eq!(limit_tracker.set_value(74), Usage::Fine);
    assert_eq!(limit_tracker.set_value(75), Usage::Warning);
    assert_eq!(limit_tracker.set_value(89), Usage::Warning);
    assert_eq!(limit_tracker.set_value(90), Usage::Urgent);
    assert_eq!(limit_tracker.set_value(99), Usage::Urgent);
    assert_eq!(limit_tracker.set_value(100), Usage::Over);
    assert_eq!(limit_tracker.set_value(1000), Usage::Over);
    assert_eq!(limit_tracker.value(), 1000);
    assert_eq!(limit_tracker.max(), 100);
    assert_eq!(
        *mock_messenger.sent_message.borrow(),
        vec![
            "Warning: You've used up over 75% of your quota!",
            "Warning: You've used up over 75% of your quota!",
            "Urgent warning: You've used up over 90% of your quota!",
            "Urgent warning: You've used up over 90% of your quota!",
            "Error: You are over your quota!",
            "Error: You are over your quota!",
        ]
    );
}

#[test]
fn usage_is_exact() {
    assert_eq!(usage(0, 0), Usage::Fine);
    assert_eq!(usage(1, 0), Usage::Over);
    assert_eq!(usage(2, 3), Usage::Fine);
    assert_eq!(usage(3, 4), Usage::Warning);
    assert_eq!(usage(8, 9), Usage::Warning);
    assert_eq!(usage(9, 10), Usage::Urgent);
    assert_eq!(usage(usize::MAX - 1, usize::MAX), Usage::Urgent);
    assert_eq!(usage(usize::MAX, usize::MAX), Usage::Over);
    assert_eq!(message(Usage::Fine), None);
    assert_eq!(message(Usage::Over), Some("Error: You are over your quota!"));
}
