use pkgscrape::conan::{run_detail, Item};
use pkgscrape::retry::RetryCounter;

fn fresh_item() -> Item {
    Item {
        name: "p".to_string(),
        href: "/center/recipes/p".to_string(),
        git: None,
        description: String::new(),
    }
}

fn all_failures(n: usize) -> Vec<Option<String>> {
    let mut v = Vec::new();
    for _ in 0..n {
        v.push(None);
    }
    v
}

#[test]
fn exhaustion_with_maximum_three_makes_four_attempts() {
    let mut item = fresh_item();
    let mut counter = RetryCounter::new(3);
    let attempts = run_detail(&mut item, &mut counter, &all_failures(10));
    assert_eq!(attempts, 4);
    assert!(item.git.is_none());
}

#[test]
fn exhaustion_with_maximum_five_makes_six_attempts() {
    let mut item = fresh_item();
    let mut counter = RetryCounter::new(5);
    let attempts = run_detail(&mut item, &mut counter, &all_failures(10));
    assert_eq!(attempts, 6);
    assert!(item.git.is_none());
}

#[test]
fn abandoned_item_keeps_partial_data() {
    let mut item = fresh_item();
    let mut counter = RetryCounter::new(3);
    run_detail(&mut item, &mut counter, &all_failures(10));
    assert_eq!(item.name, "p");
    assert_eq!(item.href, "/center/recipes/p");
    assert_eq!(item.description, "");
}

#[test]
fn success_after_two_failures() {
    let page = "<a href=\"https://github.com/o/r\">r</a>".to_string();
    let outcomes = vec![None, None, Some(page)];
    let mut item = fresh_item();
    let mut counter = RetryCounter::new(3);
    let attempts = run_detail(&mut item, &mut counter, &outcomes);
    assert_eq!(attempts, 3);
    assert_eq!(item.git.as_deref(), Some("https://github.com/o/r"));
}

#[test]
fn immediate_success_makes_one_attempt() {
    let outcomes = vec![Some("<a href=\"https://github.com/o/r\">r</a>".to_string())];
    let mut item = fresh_item();
    let mut counter = RetryCounter::new(3);
    let attempts = run_detail(&mut item, &mut counter, &outcomes);
    assert_eq!(attempts, 1);
    assert_eq!(item.git.as_deref(), Some("https://github.com/o/r"));
}

#[test]
fn success_beyond_budget_is_not_reached() {
    let outcomes = vec![None, None, Some("<a href=\"https://github.com/o/r\">r</a>".to_string())];
    let mut item = fresh_item();
    let mut counter = RetryCounter::new(1);
    let attempts = run_detail(&mut item, &mut counter, &outcomes);
    assert_eq!(attempts, 2);
    assert!(item.git.is_none());
}

#[test]
fn failures_are_booked_per_name() {
    let mut counter = RetryCounter::new(3);
    assert!(counter.record_failure("a"));
    assert!(counter.record_failure("a"));
    assert_eq!(counter.retries_for("a"), Some(2));
    assert_eq!(counter.retries_for("b"), None);
    assert!(counter.record_failure("b"));
    assert_eq!(counter.retries_for("b"), Some(1));
    assert_eq!(counter.retries_for("a"), Some(2));
}

#[test]
fn decision_grants_exactly_max_retries() {
    let mut counter = RetryCounter::new(3);
    assert!(counter.record_failure("p"));
    assert!(counter.record_failure("p"));
    assert!(counter.record_failure("p"));
    assert!(!counter.record_failure("p"));
    assert!(!counter.record_failure("p"));
    assert_eq!(counter.retries_for("p"), Some(3));
}
