use chrono::{Datelike, NaiveDate};
use remtodo::dates::Date;
use remtodo::sync::actions::SyncAction;
use remtodo::sync::engine::verify_post_sync;
use remtodo::sync::recurrence::{
    can_recur, collect_recurrence_spawns, next_instance, spawns_safely, NextDates,
};
use remtodo::sync::state::SyncState;
use remtodo::task::Task;

fn day(y: i32, m: u32, d: u32) -> Date {
    let date = NaiveDate::from_ymd_opt(y, m, d).unwrap();
    Date::from_days_ce(date.num_days_from_ce()).unwrap()
}

fn base_date() -> Date {
    day(2026, 2, 25)
}

fn task(line: &str) -> Task {
    Task::parse(line, base_date())
}

/// Build a completed updated_task for use in UpdateTask actions.
fn completed_task(line: &str) -> Task {
    // Prepend completion marker so todo_lib sets finished=true.
    task(&format!("x 2026-02-25 2026-01-01 {line}"))
}

// ----------------------------------------------------------------
// Recurring completion → spawn
// ----------------------------------------------------------------

#[test]
fn recurring_completion_spawns_next_instance() {
    // rec:+1w (strict mode) advances by whole weeks from the due date, to a day that
    // is not in the past.
    let old = task("Buy milk due:2026-02-25 rec:+1w eid:eid1");
    let updated = completed_task("Buy milk due:2026-02-25 rec:+1w eid:eid1");

    let actions = vec![SyncAction::UpdateTask {
        eid: "eid1".to_string(),
        updated_task: updated,
    }];

    let spawns = collect_recurrence_spawns(&actions, &[old]);
    assert_eq!(spawns.len(), 1, "expected exactly one spawn");
    let due = spawns[0].due_date.unwrap();
    if Date::today().days_ce() <= day(2026, 3, 4).days_ce() {
        assert_eq!(
            due,
            day(2026, 3, 4),
            "next due date should be 1 week after original due"
        );
    }
    let days = due.days_ce() - day(2026, 2, 25).days_ce();
    assert!(days >= 7, "next due date should be after original due");
    assert_eq!(days % 7, 0, "next due date should be whole weeks later");
    assert!(due.days_ce() >= Date::today().days_ce());
    assert!(
        spawns[0].tags.get("eid").is_none(),
        "spawned task must not inherit parent eid"
    );
}

// ----------------------------------------------------------------
// until: tag suppresses spawn
// ----------------------------------------------------------------

#[test]
fn until_tag_suppresses_spawn() {
    // rec:+1w (strict): next due = 2026-03-04. until:2026-03-01 < 2026-03-04 → suppressed.
    let old = task("Buy milk due:2026-02-25 rec:+1w until:2026-03-01 eid:eid1");
    let updated = completed_task("Buy milk due:2026-02-25 rec:+1w until:2026-03-01 eid:eid1");

    let actions = vec![SyncAction::UpdateTask {
        eid: "eid1".to_string(),
        updated_task: updated,
    }];

    let spawns = collect_recurrence_spawns(&actions, &[old]);
    assert_eq!(spawns.len(), 0, "spawn should be suppressed by until: tag");
}

// ----------------------------------------------------------------
// Non-recurring task produces no spawn
// ----------------------------------------------------------------

#[test]
fn non_recurring_completion_produces_no_spawn() {
    let old = task("Buy milk due:2026-02-25 eid:eid1");
    let updated = completed_task("Buy milk due:2026-02-25 eid:eid1");

    let actions = vec![SyncAction::UpdateTask {
        eid: "eid1".to_string(),
        updated_task: updated,
    }];

    let spawns = collect_recurrence_spawns(&actions, &[old]);
    assert_eq!(
        spawns.len(),
        0,
        "non-recurring task should produce no spawn"
    );
}

// ----------------------------------------------------------------
// Already-completed old task → no spawn (double-spawn guard)
// ----------------------------------------------------------------

#[test]
fn already_completed_old_task_produces_no_spawn() {
    // The old task is already finished — guard skips it to prevent double-spawning.
    let old = task("x 2026-02-20 2026-01-01 Buy milk due:2026-02-20 rec:1w eid:eid1");
    let updated = completed_task("Buy milk due:2026-02-25 rec:1w eid:eid1");

    let actions = vec![SyncAction::UpdateTask {
        eid: "eid1".to_string(),
        updated_task: updated,
    }];

    let spawns = collect_recurrence_spawns(&actions, &[old]);
    assert_eq!(
        spawns.len(),
        0,
        "already-completed old task should not produce a second spawn"
    );
}

#[test]
fn spawn_eid_stripped_no_duplicate_eid_in_post_sync_task_list() {
    let eid = "eid-recurring";
    let old = task(&format!("Buy milk due:2026-02-25 rec:+1w eid:{eid}"));
    let updated = completed_task(&format!("Buy milk due:2026-02-25 rec:+1w eid:{eid}"));

    let actions = vec![SyncAction::UpdateTask {
        eid: eid.to_string(),
        updated_task: updated,
    }];

    let spawns = collect_recurrence_spawns(&actions, &[old.clone()]);
    assert_eq!(spawns.len(), 1);

    let spawn = &spawns[0];
    assert!(
        spawn.tags.get("eid").is_none(),
        "spawn must not carry the parent eid; got {:?}",
        spawn.tags.get("eid")
    );

    // The task list after a run: the completed parent, which still carries
    // its eid, and the new instance.
    let completed_parent = task(&format!(
        "x 2026-02-25 2026-02-25 Buy milk due:2026-02-25 rec:+1w eid:{eid}"
    ));
    let post_sync_tasks = [completed_parent, spawn.clone()];

    // verify_post_sync should not report any duplicate-eid issue.
    let issues = verify_post_sync(&post_sync_tasks, &SyncState::default());
    assert!(
        issues.iter().all(|s| !s.contains("duplicate eid")),
        "unexpected duplicate-eid issue: {issues:?}"
    );
}

// ----------------------------------------------------------------
// What can recur
// ----------------------------------------------------------------

#[test]
fn rules_that_stand_still_cannot_recur() {
    assert!(can_recur(&task("Buy milk due:2026-02-25 rec:+1w")));
    assert!(can_recur(&task("Buy milk due:2026-02-25")));
    assert!(!can_recur(&task("Buy milk due:2026-02-25 rec:+0d")));
    let mut padded = task("Buy milk due:2026-02-25 rec:+5d");
    padded.recurrence = Some("rec:+05d".to_string());
    assert!(can_recur(&padded));
    padded.recurrence = Some("+00d".to_string());
    assert!(!can_recur(&padded));
    padded.recurrence = Some("0d".to_string());
    assert!(can_recur(&padded));
}

#[test]
fn strict_rules_need_room_in_the_calendar() {
    let max = remtodo::dates::MAX_DAYS;
    let cases = [
        ("rec:1w", 0),
        ("rec:255d", 0),
        ("rec:+255d", 255),
        ("+3w", 21),
        ("rec:+1b", 4),
        ("rec:+6b", 11),
        ("rec:mon", 7),
        ("rec:+255m", 0),
        ("rec:+255y", 0),
        ("rec:+256d", 0),
        ("rec:+5x", 0),
    ];
    for (rule, days) in cases {
        let mut far = task("Buy milk rec:1w eid:eid1");
        far.recurrence = Some(rule.to_string());
        for threshold in [false, true] {
            far.due_date = None;
            far.threshold_date = None;
            let at = |n: i32| Date::from_days_ce(n);
            let set = |t: &mut Task, n: i32| {
                if threshold {
                    t.threshold_date = at(n);
                } else {
                    t.due_date = at(n);
                }
            };
            set(&mut far, max - days);
            assert!(can_recur(&far), "{rule}");
            let mut done = far.clone();
            done.finished = true;
            let actions = vec![SyncAction::UpdateTask {
                eid: "eid1".to_string(),
                updated_task: done,
            }];
            let count = if rule == "rec:+256d" || rule == "rec:+5x" { 0 } else { 1 };
            assert_eq!(collect_recurrence_spawns(&actions, &[far.clone()]).len(), count, "{rule}");
            if days > 0 {
                set(&mut far, max - days + 1);
                assert!(!can_recur(&far), "{rule}");
            }
        }
    }
}

#[test]
fn time_spent_leaves_room_for_the_timer() {
    let with = |tags: &str| can_recur(&task(&format!("Buy milk rec:1w due:2026-02-25 {tags}")));
    assert!(with("tmr:1 spent:60"));
    assert!(with("spent:9223372036854775807"));
    assert!(with("tmr:off spent:9223372036854775807"));
    assert!(with("tmr:soon spent:9223372036854775807"));
    assert!(!with("tmr:1 spent:9223372036854775807"));
    // The calendar ends 8210266876799 seconds behind January 1, 1970.
    assert!(with("tmr:0 spent:9223363826587899008"));
    assert!(!with("tmr:0 spent:+9223363826587899009"));
    assert!(with("tmr:8210266876799 spent:9223372036854775807"));
    assert!(with("tmr:8210266876800 spent:9223372036854775807"));
    assert!(!with("tmr:-8334601228800 spent:9223355491986670209"));
    assert!(with("tmr:-8334601228800 spent:9223355491986670208"));
    assert!(with("tmr:-8334601228801 spent:9223372036854775807"));
    assert!(with("tmr:1 spent:1234567890123456789"));
    assert!(with("tmr:1 spent:9223372036854775808"));
    assert!(with("tmr:1 spent:-9223372036854775808"));
    assert_eq!(chrono::DateTime::<chrono::Utc>::MAX_UTC.timestamp(), 8_210_266_876_799);
    assert_eq!(chrono::DateTime::<chrono::Utc>::MIN_UTC.timestamp(), -8_334_601_228_800);
}

#[test]
fn dates_of_the_next_instance_follow_the_rule() {
    let now = chrono::Local::now().date_naive();
    let old = task("2026-01-01 Buy milk due:2026-02-25 t:2026-02-20 rec:10d eid:eid1");
    let actions = vec![SyncAction::UpdateTask {
        eid: "eid1".to_string(),
        updated_task: completed_task("Buy milk due:2026-02-25 t:2026-02-20 rec:10d eid:eid1"),
    }];
    let next = collect_recurrence_spawns(&actions, &[old]);
    let today = next[0].create_date.unwrap().days_ce();
    assert!((0..=1).contains(&(today - now.num_days_from_ce())));
    assert_eq!(next[0].due_date.unwrap().days_ce(), today + 10);
    assert_eq!(next[0].threshold_date.unwrap().days_ce(), today + 10);

    // A strict rule counts from the old date, until today is reached.
    let far = day(2999, 12, 31);
    let line = "Buy milk due:2999-12-31 rec:+1m eid:eid1";
    let actions = vec![SyncAction::UpdateTask {
        eid: "eid1".to_string(),
        updated_task: completed_task(line),
    }];
    let next = collect_recurrence_spawns(&actions, &[task(line)]);
    assert_eq!(next[0].due_date.unwrap().days_ce(), far.days_ce() + 31);

    // The last day of the recurrence is not reached any more.
    for (until, count) in [("3000-02-01", 1), ("3000-01-31", 0), ("2999-12-31", 0)] {
        let old = task(&format!("{line} until:{until}"));
        assert_eq!(collect_recurrence_spawns(&actions, &[old]).len(), count, "{until}");
    }
}

#[test]
fn spawning_is_safe_where_what_completes_can_recur() {
    let old = task("Buy milk due:2026-02-25 rec:+0d eid:eid1");
    let actions = vec![SyncAction::UpdateTask {
        eid: "eid1".to_string(),
        updated_task: completed_task("Buy milk due:2026-02-25 rec:+0d eid:eid1"),
    }];
    assert!(!spawns_safely(&actions, &[old]));
    let other = task("Buy milk due:2026-02-25 rec:+0d eid:eid2");
    assert!(spawns_safely(&actions, &[other]));
    assert!(spawns_safely(&[], &[]));
}

#[test]
fn next_instance_takes_its_dates_and_loses_its_identifier() {
    let old = task("(B) 2026-02-01 Buy milk @shop due:2026-02-25 rec:1w eid:eid1");
    let mut tags = remtodo::keyed::TextMap::new();
    tags.insert("due".to_string(), "2026-03-04".to_string());
    tags.insert("rec".to_string(), "1w".to_string());
    tags.insert("eid".to_string(), "eid1".to_string());
    let next = next_instance(
        &old,
        NextDates {
            subject: "Buy milk @shop due:2026-03-04 rec:1w eid:eid1".to_string(),
            tags,
            create_date: Some(day(2026, 2, 26)),
            due_date: Some(day(2026, 3, 4)),
            threshold_date: None,
        },
    );
    assert_eq!(
        next.to_line(),
        "(B) 2026-02-26 Buy milk @shop due:2026-03-04 rec:1w"
    );
    assert!(next.eid().is_none());
    assert_eq!(next.contexts, vec!["shop"]);
}
