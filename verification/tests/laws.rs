use chrono::{Datelike, NaiveDate};
use remtodo::dates::{Date, Timestamp};
use remtodo::keyed::{TextMap, TextSet};
use remtodo::reminder::Reminder;
use remtodo::sync::actions::SyncAction;
use remtodo::sync::apply::apply_task_actions_on;
use remtodo::sync::bootstrap::{build_initial_state, make_reconciliation_key};
use remtodo::sync::check::verify_post_sync;
use remtodo::sync::config::{ListSyncConfig, PriorityMap, StickyTracking, WritebackConfig};
use remtodo::sync::diff::{apply_task_updates, three_way_diff, TaskFieldUpdates};
use remtodo::sync::fields::{
    build_field_state_from_reminder, extract_title, synced_field_hash, task_due_date,
    task_line_hash, task_priority,
};
use remtodo::sync::plan::compute_sync_actions_on;
use remtodo::sync::release::compute_release_set;
use remtodo::sync::state::{SyncItemState, SyncState};
use remtodo::task::Task;

const T0: Timestamp = Timestamp {
    secs: 1_771_000_000,
    nanos: 0,
};
const T1: Timestamp = Timestamp {
    secs: 1_771_000_600,
    nanos: 0,
};

fn day(m: u32, d: u32) -> Date {
    let date = NaiveDate::from_ymd_opt(2026, m, d).unwrap();
    Date::from_days_ce(date.num_days_from_ce()).unwrap()
}

fn today() -> Date {
    day(2, 25)
}

fn task(line: &str) -> Task {
    Task::parse(line, today())
}

fn at(t: Timestamp) -> Option<String> {
    Some(
        chrono::DateTime::from_timestamp(t.secs, t.nanos)
            .unwrap()
            .format("%Y-%m-%dT%H:%M:%SZ")
            .to_string(),
    )
}

fn reminder(eid: &str, title: &str) -> Reminder {
    Reminder {
        id: format!("id-{eid}"),
        external_id: eid.to_string(),
        title: title.to_string(),
        due_date: None,
        priority: 0,
        is_completed: false,
        completion_date: None,
        creation_date: None,
        last_modified_date: at(T0),
        notes: None,
        list: "Tasks".to_string(),
    }
}

fn all_fields() -> WritebackConfig {
    WritebackConfig {
        title: true,
        due_date: true,
        priority: true,
        is_completed: true,
    }
}

fn no_fields() -> WritebackConfig {
    WritebackConfig {
        title: false,
        due_date: false,
        priority: false,
        is_completed: false,
    }
}

fn list() -> ListSyncConfig {
    ListSyncConfig::new("Tasks").with_writeback(all_fields())
}

fn item(r: &Reminder, t: &Task) -> SyncItemState {
    let fields = build_field_state_from_reminder(r);
    let hash = synced_field_hash(&fields);
    SyncItemState {
        eid: r.external_id.clone(),
        fields,
        reminders_last_modified: None,
        task_line_hash: task_line_hash(t),
        reminders_field_hash: hash,
        last_synced: T0,
        pushed: true,
    }
}

fn state(pairs: &[(&Reminder, &Task)]) -> SyncState {
    let mut s = SyncState::default();
    for (r, t) in pairs {
        s.items.insert(r.external_id.clone(), item(r, t));
    }
    s
}

fn plan(rs: &[Reminder], ts: &[Task], s: &SyncState, c: &ListSyncConfig) -> Vec<SyncAction> {
    compute_sync_actions_on(rs, ts, s, c, Some(T1), &TextSet::new(), 0, today())
}

/// The reminder as the helper changes it for an update.
fn updated(r: &Reminder, actions: &[SyncAction]) -> Reminder {
    let mut r = r.clone();
    for a in actions {
        let u = match a {
            SyncAction::UpdateReminder {
                updated_reminder, ..
            } => updated_reminder,
            SyncAction::MergeConflict {
                updated_reminder, ..
            } => updated_reminder,
            _ => continue,
        };
        if let Some(x) = &u.title {
            r.title = x.clone();
        }
        if let Some(x) = u.priority {
            r.priority = x;
        }
        if let Some(x) = u.is_completed {
            r.is_completed = x;
        }
        if let Some(x) = &u.completion_date {
            r.completion_date = x.clone();
        }
        if let Some(x) = &u.due_date {
            r.due_date = x.clone();
        }
    }
    r
}

// ── comparing a pair ──────────────────────────────────────────────────────────

#[test]
fn fields_changed_on_different_sides_merge() {
    let base = reminder("e1", "Buy milk");
    let r = Reminder {
        due_date: Some("2026-03-01".to_string()),
        ..reminder("e1", "Buy milk")
    };
    let t = task("Buy bread eid:e1");
    let (to_task, to_reminder) = three_way_diff(
        &r,
        &t,
        &build_field_state_from_reminder(&base),
        Some(T1),
        &PriorityMap::default(),
        0,
        &all_fields(),
    );
    assert_eq!(to_task.due_date, Some(Some("2026-03-01".to_string())));
    assert_eq!(to_task.title, None);
    assert_eq!(to_reminder.title, Some("Buy bread".to_string()));
    assert_eq!(to_reminder.due_date, None);
}

#[test]
fn newer_side_wins_a_field_changed_on_both() {
    let base = build_field_state_from_reminder(&reminder("e1", "Old"));
    let r = Reminder {
        last_modified_date: at(T0),
        ..reminder("e1", "From reminder")
    };
    let t = task("From task eid:e1");
    let diff = |file: Option<Timestamp>, tolerance: u64| {
        three_way_diff(&r, &t, &base, file, &PriorityMap::default(), tolerance, &all_fields())
    };
    let (a, b) = diff(Some(T1), 0);
    assert_eq!((a.title, b.title), (None, Some("From task".to_string())));
    // A tie, an unknown time and a tolerance favour the reminder.
    for (file, tolerance) in [(Some(T0), 0), (None, 0), (Some(T1), 600)] {
        let (a, b) = diff(file, tolerance);
        assert_eq!((a.title, b.title), (Some("From reminder".to_string()), None));
    }
    let (_, b) = diff(Some(T1), 599);
    assert_eq!(b.title, Some("From task".to_string()));
}

#[test]
fn agreement_asks_for_nothing() {
    let r = reminder("e1", "Buy milk");
    let t = task("Buy milk @shop eid:e1");
    let base = build_field_state_from_reminder(&reminder("e1", "Something else"));
    for wb in [all_fields(), no_fields()] {
        let (a, b) = three_way_diff(&r, &t, &base, Some(T1), &PriorityMap::default(), 0, &wb);
        assert!(a.is_empty());
        assert!(b.is_empty());
    }
}

#[test]
fn without_writeback_the_task_stays() {
    let base = build_field_state_from_reminder(&reminder("e1", "Old"));
    let r = Reminder {
        priority: 9,
        ..reminder("e1", "From reminder")
    };
    let t = task("Old eid:e1");
    let (a, b) = three_way_diff(&r, &t, &base, None, &PriorityMap::default(), 0, &no_fields());
    assert!(a.is_empty());
    assert_eq!(b.title, Some("Old".to_string()));
    assert_eq!(b.priority, Some(0));
}

#[test]
fn one_run_settles_a_pair() {
    let base = reminder("e1", "Buy milk");
    let old = task("Buy milk eid:e1");
    let known = state(&[(&base, &old)]);
    for (r, line) in [
        (Reminder { title: "Buy oat milk".to_string(), ..base.clone() }, "Buy milk eid:e1"),
        (base.clone(), "Buy bread eid:e1"),
        (
            Reminder { due_date: Some("2026-03-01".to_string()), ..base.clone() },
            "Buy bread @shop eid:e1",
        ),
        (Reminder { priority: 9, ..base.clone() }, "Buy milk due:2026-04-01 eid:e1"),
        (
            Reminder {
                is_completed: true,
                completion_date: Some("2026-02-24".to_string()),
                ..base.clone()
            },
            "Buy milk eid:e1",
        ),
        (base.clone(), "x 2026-02-24 2026-02-01 Buy milk eid:e1"),
    ] {
        let actions = plan(&[r.clone()], &[task(line)], &known, &list());
        assert!(!actions.is_empty(), "{line}");
        let after = updated(&r, &actions);
        let (tasks, state) =
            apply_task_actions_on(&actions, vec![task(line)], &known, &list(), T1, today());
        assert!(plan(&[after], &tasks, &state, &list()).is_empty(), "{line}");
        assert!(verify_post_sync(&tasks, &state).is_empty());
    }
}

#[test]
fn updated_task_shows_the_changes() {
    let map = PriorityMap::default();
    let u = TaskFieldUpdates {
        title: Some("Buy oat milk".to_string()),
        due_date: Some(Some("2026-03-01".to_string())),
        priority: Some(9),
        is_completed: Some(false),
        completion_date: None,
    };
    let t = apply_task_updates(&task("Buy milk +home @shop eid:e1"), &u, &map, today());
    assert_eq!(extract_title(&t), "Buy oat milk");
    assert_eq!(task_due_date(&t), Some("2026-03-01".to_string()));
    assert_eq!(task_priority(&t, &map), 9);
    assert!(!t.finished);
    assert_eq!(t.projects, vec!["home"]);
    assert_eq!(t.eid().map(|s| s.as_str()), Some("e1"));
}

#[test]
fn title_stays_where_no_change_names_one() {
    let map = PriorityMap::default();
    for due in [None, Some(None), Some(Some("2026-03-01".to_string()))] {
        for is_completed in [None, Some(true), Some(false)] {
            let u = TaskFieldUpdates {
                title: None,
                due_date: due.clone(),
                priority: Some(9),
                is_completed,
                completion_date: None,
            };
            for line in ["Buy  milk @shop due:2026-02-25", "(A) Buy milk +home", "x Buy milk"] {
                let t = apply_task_updates(&task(line), &u, &map, today());
                assert_eq!(extract_title(&t), "Buy milk", "{line}");
            }
        }
    }
}

#[test]
fn title_stays_where_two_priorities_share_a_context() {
    let mut table = TextMap::new();
    table.insert("1".to_string(), "context:today".to_string());
    table.insert("9".to_string(), "context:today".to_string());
    let map = PriorityMap::from_config(&table);
    let u = TaskFieldUpdates {
        title: None,
        due_date: None,
        priority: None,
        is_completed: Some(true),
        completion_date: Some(Some("2026-02-25".to_string())),
    };
    let t = apply_task_updates(&task("Buy milk @today @shop rec:1w eid:e1"), &u, &map, today());
    assert!(t.finished);
    assert_eq!(extract_title(&t), "Buy milk");
    assert_eq!(t.contexts, vec!["shop"]);
    assert_eq!(t.eid().map(|s| s.as_str()), Some("e1"));
}

#[test]
fn priority_is_carried_over_and_read_back() {
    let mut table = TextMap::new();
    table.insert("1".to_string(), "priority:A".to_string());
    table.insert("9".to_string(), "context:today".to_string());
    let map = PriorityMap::from_config(&table);
    for (p, back) in [(1, 1), (9, 9), (5, 0), (0, 0)] {
        for line in ["Buy milk", "(A) Buy milk", "Buy milk @today"] {
            let u = TaskFieldUpdates {
                title: None,
                due_date: None,
                priority: Some(p),
                is_completed: None,
                completion_date: None,
            };
            let t = apply_task_updates(&task(line), &u, &map, today());
            assert_eq!(task_priority(&t, &map), back, "{p} on {line}");
        }
    }
}

#[test]
fn priority_reads_back_from_a_context_of_two_words() {
    let mut table = TextMap::new();
    table.insert("1".to_string(), "context:to day".to_string());
    table.insert("9".to_string(), "priority:B".to_string());
    let map = PriorityMap::from_config(&table);
    for (p, back) in [(1, 1), (9, 9), (5, 0)] {
        let u = TaskFieldUpdates {
            title: None,
            due_date: None,
            priority: Some(p),
            is_completed: None,
            completion_date: None,
        };
        let t = apply_task_updates(&task("(B) Buy milk"), &u, &map, today());
        assert_eq!(task_priority(&t, &map), back, "{p}");
    }
}

// ── planning ──────────────────────────────────────────────────────────────────

#[test]
fn sides_in_step_plan_nothing() {
    let (r, s) = (reminder("e1", "a"), reminder("e2", "b"));
    let tasks = [task("a eid:e1"), task("b @x eid:e2"), task("c eid:na")];
    let known = state(&[(&r, &tasks[0]), (&s, &tasks[1])]);
    assert!(plan(&[r, s], &tasks, &known, &list()).is_empty());
}

#[test]
fn finished_and_known_tasks_are_not_pushed() {
    let known = state(&[(&reminder("e1", "a"), &task("a eid:e1"))]);
    let tasks = [task("x 2026-02-24 2026-02-01 done"), task("a eid:e1"), task("opted out eid:na")];
    let actions = plan(&[reminder("e1", "a")], &tasks, &known, &list());
    assert!(actions.is_empty());
}

#[test]
fn file_without_identifiers_deletes_nothing() {
    let rs = [reminder("e1", "a"), reminder("e2", "b")];
    let (t1, t2) = (task("a eid:e1"), task("b eid:e2"));
    let known = state(&[(&rs[0], &t1), (&rs[1], &t2)]);
    let actions = plan(&rs, &[task("a"), task("b")], &known, &list());
    assert!(!actions
        .iter()
        .any(|a| matches!(a, SyncAction::DeleteReminder { .. } | SyncAction::DeleteTask { .. })));
}

#[test]
fn pair_with_unknown_hashes_is_kept() {
    let r = reminder("e1", "a");
    let t = task("a eid:e1");
    let mut known = state(&[(&r, &t)]);
    let mut unknown = known.items.get("e1").unwrap().clone();
    unknown.task_line_hash = 0;
    unknown.reminders_field_hash = 0;
    known.items.insert("e1".to_string(), unknown);
    let actions = plan(&[], &[t], &known, &list());
    assert_eq!(actions.len(), 1);
    assert!(matches!(&actions[0], SyncAction::ResurrectReminder { eid, .. } if eid == "e1"));
    let actions = plan(&[r], &[], &known, &list());
    assert_eq!(actions.len(), 1);
    assert!(matches!(&actions[0], SyncAction::ResurrectTask { eid, .. } if eid == "e1"));
}

#[test]
fn pairs_of_another_list_are_left_alone() {
    let r = reminder("e1", "a");
    let known = state(&[(&r, &task("a eid:e1"))]);
    let other = ListSyncConfig {
        push_filter: Some("@nothing".to_string()),
        ..ListSyncConfig::new("Work")
    };
    let actions = plan(&[], &[task("changed eid:e1")], &known, &other);
    assert!(!actions.iter().any(|a| matches!(
        a,
        SyncAction::UpdateTask { .. } | SyncAction::DeleteTask { .. }
    )));
}

#[test]
fn lost_reminder_goes_on_as_one_new_one() {
    let old = reminder("old", "a");
    let t = task("a eid:old");
    let known = state(&[(&old, &t)]);
    let actions = plan(&[reminder("new", "a")], &[t], &known, &list());
    assert_eq!(actions.len(), 1);
    assert!(matches!(
        &actions[0],
        SyncAction::RelinkEid { old_eid, new_eid } if old_eid == "old" && new_eid == "new"
    ));
    let (tasks, after) =
        apply_task_actions_on(&actions, vec![task("a eid:old")], &known, &list(), T1, today());
    assert_eq!(tasks[0].to_line(), "a eid:new");
    assert!(after.items.contains_key("new"));
    assert!(!after.items.contains_key("old"));
    // Two candidates are told apart by nothing: neither is taken.
    let rs = [reminder("new", "a"), reminder("newer", "a")];
    let actions = plan(&rs, &[task("a eid:old")], &known, &list());
    assert!(!actions.iter().any(|a| matches!(a, SyncAction::RelinkEid { .. })));
}

#[test]
fn sentinel_ejects_and_is_simplified() {
    let r = reminder("e1", "a");
    let known = state(&[(&r, &task("a eid:e1"))]);
    for (line, after) in [("a eid:na/e1", "a eid:na"), ("a eid:ns/e1", "a")] {
        let actions = plan(&[r.clone()], &[task(line)], &known, &list());
        assert!(actions
            .iter()
            .any(|a| matches!(a, SyncAction::DeleteReminder { eid } if eid == "e1")));
        let gone = plan(&[], &[task(line)], &SyncState::default(), &list());
        assert_eq!(gone.len(), 1);
        let (tasks, _) = apply_task_actions_on(
            &gone,
            vec![task(line)],
            &SyncState::default(),
            &list(),
            T1,
            today(),
        );
        assert_eq!(tasks[0].to_line(), after);
    }
}

#[test]
fn release_takes_an_edit() {
    let r = reminder("e1", "a");
    let t = task("a @today eid:e1");
    let known = state(&[(&r, &t)]);
    let mut c = list();
    c.push_filter = Some("@today".to_string());
    c.sticky_tracking = StickyTracking::Triage;
    let released = |line: &str, c: &ListSyncConfig| {
        compute_release_set(&[task(line)], &known, &[c.clone()], today()).contains("e1")
    };
    assert!(released("a @later eid:e1", &c));
    assert!(!released("a @today due:2026-03-01 eid:e1", &c));
    assert!(!released("a @today eid:e1", &c));
    c.sticky_tracking = StickyTracking::Always;
    assert!(!released("a @later eid:e1", &c));
}

#[test]
fn tracking_decides_whether_a_task_stays() {
    let r = reminder("e1", "a");
    let known = state(&[(&r, &task("a @today eid:e1"))]);
    let mut c = list();
    c.push_filter = Some("@today".to_string());
    for (mode, goes) in [
        (StickyTracking::Always, false),
        (StickyTracking::Triage, false),
        (StickyTracking::Never, true),
    ] {
        c.sticky_tracking = mode;
        let actions = plan(&[r.clone()], &[task("a @later eid:e1")], &known, &c);
        assert_eq!(
            actions
                .iter()
                .any(|a| matches!(a, SyncAction::DeleteReminder { .. })),
            goes,
            "{mode:?}"
        );
    }
}

// ── carrying out ──────────────────────────────────────────────────────────────

#[test]
fn imported_reminder_is_not_imported_again() {
    let r = reminder("e1", "a");
    let actions = plan(&[r.clone()], &[], &SyncState::default(), &list());
    let (tasks, after) =
        apply_task_actions_on(&actions, vec![], &SyncState::default(), &list(), T1, today());
    assert_eq!(tasks.len(), 1);
    assert!(plan(&[r], &tasks, &after, &list()).is_empty());
}

#[test]
fn orphans_lose_their_identifiers() {
    let (tasks, after) = apply_task_actions_on(
        &[],
        vec![task("a eid:gone"), task("b eid:na"), task("c")],
        &SyncState::default(),
        &list(),
        T1,
        today(),
    );
    let lines: Vec<String> = tasks.iter().map(|t| t.to_line()).collect();
    assert_eq!(lines, vec!["a", "b eid:na", "c"]);
    assert!(verify_post_sync(&tasks, &after).is_empty());
}

#[test]
fn only_deletions_take_tasks_away() {
    let r = reminder("e1", "a");
    let known = state(&[(&r, &task("a eid:e1"))]);
    let tasks = || vec![task("a eid:e1"), task("b"), task("c eid:na/x")];
    let harmless = [
        SyncAction::CreateTask {
            eid: "e2".to_string(),
            reminder: reminder("e2", "two"),
        },
        SyncAction::CleanSentinelTag {
            sentinel_eid: "na/x".to_string(),
        },
        SyncAction::DeleteReminder {
            eid: "e1".to_string(),
        },
    ];
    let (after, _) = apply_task_actions_on(&harmless, tasks(), &known, &list(), T1, today());
    assert!(after.len() >= 3);
    let deletion = [SyncAction::DeleteTask {
        eid: "e1".to_string(),
    }];
    let (after, _) = apply_task_actions_on(&deletion, tasks(), &known, &list(), T1, today());
    assert_eq!(after.len(), 2);
}

// ── the first run ─────────────────────────────────────────────────────────────

#[test]
fn first_run_joins_each_task_once() {
    let rs = [reminder("e1", "a"), reminder("e2", "a"), reminder("e3", "b")];
    let ts = [task("a"), task("b @x"), task("c")];
    let (state, joined) = build_initial_state(&rs, &ts, T0);
    let mut positions: Vec<usize> = joined.iter().map(|j| j.1).collect();
    positions.sort();
    positions.dedup();
    assert_eq!(positions.len(), joined.len());
    assert!(joined.iter().any(|j| j.0 == "e3" && j.1 == 1));
    assert_eq!(state.last_sync_time, Some(T0));
}

#[test]
fn titles_are_joined_without_regard_to_case() {
    let key = make_reconciliation_key("  Buy MILK ", Some("2026-03-01"));
    assert_eq!(key, make_reconciliation_key("buy milk", Some("2026-03-01")));
    assert_ne!(key, make_reconciliation_key("buy milk", None));
}
