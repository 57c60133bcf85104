use chrono::{Datelike, NaiveDate};
use remtodo::dates::Date;
use remtodo::sync::fields::{
    extract_title, is_sentinel_eid, sentinel_original_eid, task_completion_date, task_due_date,
    task_eid, task_line_hash, task_notes,
};
use remtodo::task::{is_meta_word, Task};

fn day(y: i32, m: u32, d: u32) -> Date {
    let date = NaiveDate::from_ymd_opt(y, m, d).unwrap();
    Date::from_days_ce(date.num_days_from_ce()).unwrap()
}

fn task(line: &str) -> Task {
    Task::parse(line, day(2026, 2, 25))
}

#[test]
fn line_is_read_into_its_parts() {
    let t = task("(B) 2026-02-01 Buy milk +home @shop due:2026-03-01 t:2026-02-28 eid:e1");
    assert_eq!(t.priority, 1);
    assert!(!t.finished);
    assert_eq!(t.contexts, vec!["shop"]);
    assert_eq!(t.projects, vec!["home"]);
    assert_eq!(t.create_date, Some(day(2026, 2, 1)));
    assert_eq!(t.due_date, Some(day(2026, 3, 1)));
    assert_eq!(t.threshold_date, Some(day(2026, 2, 28)));
    assert_eq!(t.tags.get("eid").map(|s| s.as_str()), Some("e1"));
    assert_eq!(t.eid().map(|s| s.as_str()), Some("e1"));
    let t = task("x 2026-02-20 2026-02-01 Done");
    assert!(t.finished);
    assert_eq!(t.finish_date, Some(day(2026, 2, 20)));
    assert_eq!(task("Water plants due:2026-03-01 rec:1w").recurrence.is_some(), true);
}

#[test]
fn task_is_written_as_its_line() {
    for line in [
        "Buy milk",
        "(B) 2026-02-01 Buy milk +home @shop due:2026-03-01 eid:e1",
        "x 2026-02-20 2026-02-01 Done",
    ] {
        assert_eq!(task(line).to_line(), line);
    }
    assert_eq!(Task::default().to_line().trim(), "");
}

#[test]
fn external_identifier_is_set_and_removed() {
    let mut t = task("Buy milk @shop");
    let hash = task_line_hash(&t);
    t.set_eid("e1");
    assert_eq!(t.to_line(), "Buy milk @shop eid:e1");
    assert_eq!(task_eid(&t), Some("e1"));
    t.set_eid("e2");
    assert_eq!(t.to_line(), "Buy milk @shop eid:e2");
    assert_eq!(task_line_hash(&t), hash);
    t.set_eid("");
    assert_eq!(t.to_line(), "Buy milk @shop");
    assert_eq!(task_eid(&t), None);
}

#[test]
fn hash_of_a_line_tells_edits_from_identifiers() {
    let base = task_line_hash(&task("Buy milk @shop eid:e1"));
    assert_eq!(task_line_hash(&task("Buy milk @shop eid:e2")), base);
    assert_eq!(task_line_hash(&task("Buy milk @shop")), base);
    assert_ne!(task_line_hash(&task("Buy bread @shop eid:e1")), base);
    assert_ne!(task_line_hash(&task("(A) Buy milk @shop eid:e1")), base);
}

#[test]
fn due_date_is_set_and_removed() {
    let mut t = task("Buy milk eid:e1");
    t.set_due("2026-03-05", day(2026, 2, 25));
    assert_eq!(t.due_date, Some(day(2026, 3, 5)));
    assert_eq!(t.to_line(), "Buy milk eid:e1 due:2026-03-05");
    assert_eq!(task_due_date(&t), Some("2026-03-05".to_string()));
    t.set_due("", day(2026, 2, 25));
    assert_eq!(t.due_date, None);
    assert_eq!(t.to_line(), "Buy milk eid:e1");
    assert_eq!(task_due_date(&t), None);
}

#[test]
fn contexts_are_added_and_removed() {
    let mut t = task("Buy milk");
    t.add_context("shop");
    assert_eq!(t.to_line(), "Buy milk @shop");
    assert_eq!(t.contexts, vec!["shop"]);
    t.remove_context("shop");
    assert_eq!(t.to_line(), "Buy milk");
    assert!(t.contexts.is_empty());
}

#[test]
fn completion_is_set_and_taken_back() {
    let mut t = task("Buy milk");
    t.complete(day(2026, 2, 20));
    assert!(t.finished);
    assert_eq!(t.finish_date, Some(day(2026, 2, 20)));
    assert_eq!(task_completion_date(&t), Some("2026-02-20".to_string()));
    t.complete(day(2026, 2, 21));
    assert_eq!(t.finish_date, Some(day(2026, 2, 20)));
    t.reopen();
    assert!(!t.finished);
    assert_eq!(t.finish_date, None);
    assert_eq!(task_completion_date(&t), None);
    t.reopen();
    assert!(!t.finished);
}

#[test]
fn title_is_the_subject_without_metadata() {
    assert_eq!(
        extract_title(&task("(A) Call +home Bob @phone due:2026-03-01 at 5 eid:e1")),
        "Call Bob at 5"
    );
    assert!(is_meta_word("@shop"));
    assert!(is_meta_word("+home"));
    assert!(is_meta_word("due:2026-03-01"));
    assert!(!is_meta_word("Buy"));
    assert_eq!(task_notes(&task("Buy milk")), None);
}

#[test]
fn sentinels_are_recognised() {
    for s in ["na", "na/e1", "ns/e1", "na/"] {
        assert!(is_sentinel_eid(s), "{s}");
    }
    for s in ["", "n", "ns", "nas", "e1", "NA"] {
        assert!(!is_sentinel_eid(s), "{s}");
    }
    assert_eq!(sentinel_original_eid("na/e1"), Some("e1".to_string()));
    assert_eq!(sentinel_original_eid("ns/e1"), Some("e1".to_string()));
    assert_eq!(sentinel_original_eid("na"), None);
    assert_eq!(sentinel_original_eid("na/"), None);
    assert_eq!(sentinel_original_eid("e1"), None);
}

#[test]
fn copies_equal_what_they_copy() {
    let t = task("(B) 2026-02-01 Buy milk +home @shop due:2026-03-01 rec:1w eid:e1");
    let c = t.clone();
    assert_eq!(c.to_line(), t.to_line());
    assert_eq!(c.recurrence, t.recurrence);
    assert_eq!(c.tags.len(), t.tags.len());
}
