use std::collections::HashSet;

use chrono::{Datelike, NaiveDate};
use remtodo::config::AppConfig;
use remtodo::dates::{Date, Timestamp};
use remtodo::error::SyncError;
use remtodo::keyed::TextSet;
use remtodo::reminder::Reminder;
use remtodo::run::{
    begin_run, carry_out_on, check_failures, check_unmodified, describe_action, drop_claimed,
    end_pass, end_run,
    parse_subcommand, parse_sync_args, plan_list_on, tracked_for_list, Subcommand,
    MAX_RECURRENCE_PASSES,
};
use remtodo::sync::actions::SyncAction;
use remtodo::sync::config::ListSyncConfig;
use remtodo::sync::engine::{build_field_state_from_reminder, synced_field_hash};
use remtodo::sync::state::{SyncItemState, SyncState};
use remtodo::task::Task;

#[test]
fn parse_sync_args_dry_run_flag() {
    let args: Vec<String> = vec!["--dry-run".to_string()];
    let parsed = parse_sync_args(&args).unwrap();
    assert!(parsed.dry_run, "--dry-run must set dry_run=true");
    assert!(parsed.config_path.is_none());
}

#[test]
fn parse_sync_args_no_flags() {
    let args: Vec<String> = vec![];
    let parsed = parse_sync_args(&args).unwrap();
    assert!(!parsed.dry_run, "default dry_run must be false");
    assert!(parsed.config_path.is_none());
}

#[test]
fn parse_sync_args_config_and_dry_run() {
    let args: Vec<String> = vec![
        "--config".to_string(),
        "/tmp/my.toml".to_string(),
        "--dry-run".to_string(),
    ];
    let parsed = parse_sync_args(&args).unwrap();
    assert!(parsed.dry_run);
    assert_eq!(parsed.config_path.as_deref(), Some("/tmp/my.toml"));
}

fn args(words: &[&str]) -> Vec<String> {
    words.iter().map(|w| w.to_string()).collect()
}

#[test]
fn options_that_cannot_be_read_are_refused() {
    assert_eq!(parse_sync_args(&args(&["--config"])).unwrap_err(), "--config requires a value");
    assert_eq!(parse_sync_args(&args(&["--fast"])).unwrap_err(), "Unknown option: --fast");
    let parsed = parse_sync_args(&args(&["--config", "a", "--daemon", "--config", "b"])).unwrap();
    assert!(parsed.daemon);
    assert_eq!(parsed.config_path.as_deref(), Some("b"));
}

#[test]
fn subcommands_are_named() {
    for (word, expected) in [
        ("sync", Subcommand::Sync),
        ("install", Subcommand::Install),
        ("uninstall", Subcommand::Uninstall),
        ("status", Subcommand::Status),
        ("restore", Subcommand::Restore),
        ("--version", Subcommand::Version),
    ] {
        assert_eq!(parse_subcommand(&word.to_string()), Ok(expected), "{word}");
    }
    assert!(parse_subcommand(&"dance".to_string()).is_err());
}

fn day() -> Date {
    let date = NaiveDate::from_ymd_opt(2026, 2, 25).unwrap();
    Date::from_days_ce(date.num_days_from_ce()).unwrap()
}

fn task(line: &str) -> Task {
    Task::parse(line, day())
}

fn reminder(eid: &str, title: &str) -> Reminder {
    Reminder {
        id: format!("id-{eid}"),
        external_id: eid.to_string(),
        title: title.to_string(),
        due_date: None,
        priority: 0,
        is_completed: false,
        completion_date: None,
        creation_date: None,
        last_modified_date: None,
        notes: None,
        list: "Tasks".to_string(),
    }
}

const NOW: Timestamp = Timestamp {
    secs: 1_772_000_000,
    nanos: 0,
};

fn push_of(line: &str) -> SyncAction {
    SyncAction::CreateReminder {
        task: task(line),
        target_list: "Tasks".to_string(),
    }
}

#[test]
fn first_run_joins_tasks_with_their_reminders() {
    let (tasks, state) = begin_run(
        vec![task("Other"), task("Buy milk")],
        None,
        &[reminder("e1", "Buy milk")],
        NOW,
    );
    assert_eq!(tasks[0].to_line(), "Other");
    assert_eq!(tasks[1].to_line(), "Buy milk eid:e1");
    assert!(state.items.contains_key("e1"));
    assert_eq!(state.last_sync_time, Some(NOW));
}

#[test]
fn later_runs_start_from_the_saved_state() {
    let (tasks, state) = begin_run(
        vec![task("Buy milk")],
        Some(SyncState::default()),
        &[reminder("e1", "Buy milk")],
        NOW,
    );
    assert_eq!(tasks[0].to_line(), "Buy milk");
    assert!(state.items.is_empty());
    assert_eq!(state.last_sync_time, None);
}

#[test]
fn first_list_claims_a_task() {
    let mut claimed: HashSet<u64> = HashSet::new();
    let first = drop_claimed(vec![push_of("a @x"), push_of("b")], &mut claimed);
    assert_eq!(first.len(), 2);
    let second = drop_claimed(vec![push_of("b"), push_of("c")], &mut claimed);
    assert_eq!(second.len(), 1);
    assert!(matches!(&second[0], SyncAction::CreateReminder { task, .. } if task.subject == "c"));
    assert_eq!(claimed.len(), 3);
}

fn state_of(n: usize) -> SyncState {
    let mut state = SyncState::default();
    for i in 0..n {
        let r = reminder(&format!("e{i}"), &format!("task {i}"));
        let fields = build_field_state_from_reminder(&r);
        let hash = synced_field_hash(&fields);
        state.items.insert(
            r.external_id.clone(),
            SyncItemState {
                eid: r.external_id.clone(),
                fields,
                reminders_last_modified: None,
                task_line_hash: 0,
                reminders_field_hash: hash,
                last_synced: NOW,
                pushed: true,
            },
        );
    }
    state
}

#[test]
fn plan_that_deletes_too_much_is_refused() {
    let state = state_of(10);
    let list = ListSyncConfig::new("Tasks");
    let app = AppConfig::default();
    let reminders: Vec<Reminder> = (0..10)
        .map(|i| reminder(&format!("e{i}"), &format!("task {i}")))
        .collect();
    let tasks = vec![task("task 0 eid:e0"), task("task 1 eid:e1")];
    assert_eq!(tracked_for_list(&state, &"Tasks".to_string()), 10);
    assert_eq!(tracked_for_list(&state, &"Work".to_string()), 0);
    let plan = |app: &AppConfig, is_first: bool| {
        plan_list_on(
            &reminders,
            &tasks,
            &state,
            &list,
            app,
            None,
            &TextSet::new(),
            is_first,
            "/state.json",
            &mut HashSet::new(),
            day(),
        )
    };
    assert!(matches!(plan(&app, false), Err(SyncError::SafetyAbort(_))));
    assert!(matches!(plan(&app, true), Err(SyncError::SafetyAbort(_))));
    let off = AppConfig {
        max_delete_percent: 100,
        ..AppConfig::default()
    };
    assert_eq!(plan(&off, false).unwrap().len(), 8);
}

#[test]
fn actions_are_carried_out_on_the_file() {
    let list = ListSyncConfig::new("Tasks");
    let (tasks, state) = carry_out_on(
        &[
            SyncAction::DeleteTask {
                eid: "e0".to_string(),
            },
            SyncAction::CreateTask {
                eid: "e5".to_string(),
                reminder: reminder("e5", "five"),
            },
        ],
        vec![task("task 0 eid:e0"), task("keep")],
        &state_of(1),
        &list,
        NOW,
        day(),
    )
    .unwrap();
    let lines: Vec<String> = tasks.iter().map(|t| t.to_line()).collect();
    assert_eq!(lines.len(), 2);
    assert_eq!(lines[0], "keep");
    assert!(lines[1].contains("five") && lines[1].contains("eid:e5"));
    assert!(!state.items.contains_key("e0"));
    assert!(state.items.contains_key("e5"));
    assert_eq!(state.last_sync_time, Some(NOW));
}

#[test]
fn recurring_tasks_call_for_another_pass() {
    let mut tasks = vec![task("a")];
    assert!(!end_pass(1, false, &mut tasks, vec![]));
    assert!(!end_pass(1, true, &mut tasks, vec![task("b")]));
    assert_eq!(tasks.len(), 1);
    assert!(end_pass(1, false, &mut tasks, vec![task("b")]));
    assert!(!end_pass(MAX_RECURRENCE_PASSES, false, &mut tasks, vec![task("c")]));
    assert_eq!(tasks.len(), 3);
}

#[test]
fn file_that_changed_during_the_run_is_not_written() {
    let later = Timestamp {
        secs: NOW.secs,
        nanos: 1,
    };
    assert!(check_unmodified("todo.txt", Some(NOW), Some(NOW), "a", "a").is_ok());
    assert!(check_unmodified("todo.txt", None, None, "a", "a").is_ok());
    for after in [Some(later), None] {
        let e = check_unmodified("todo.txt", Some(NOW), after, "T1", "T2").unwrap_err();
        assert_eq!(
            e.message(),
            "Safety check failed — aborting to prevent data loss: todo.txt was modified \
             externally during sync (mtime changed from T1 to T2). Re-run sync to pick up \
             the latest version."
        );
    }
}

#[test]
fn interrupted_run_says_what_was_saved() {
    assert!(end_run(false, 2).is_ok());
    assert!(matches!(end_run(true, 2), Err(SyncError::Interrupted(2))));
}

#[test]
fn actions_are_described() {
    let eid = || "e1".to_string();
    assert_eq!(describe_action(&SyncAction::DeleteTask { eid: eid() }), "DeleteTask eid:e1");
    assert_eq!(describe_action(&push_of("Buy milk")), "CreateReminder 'Buy milk' → Tasks");
    assert_eq!(
        describe_action(&SyncAction::CleanSentinelTag {
            sentinel_eid: "na/e1".to_string()
        }),
        "CleanSentinelTag na/e1 → na"
    );
    assert_eq!(
        describe_action(&SyncAction::RelinkEid {
            old_eid: eid(),
            new_eid: "e2".to_string()
        }),
        "RelinkEid e1 → e2"
    );
}

#[test]
fn failed_actions_keep_the_files_as_they_are() {
    assert!(check_failures(0).is_ok());
    let e = check_failures(2).unwrap_err();
    assert!(matches!(e, SyncError::SafetyAbort(_)));
    assert!(e.message().contains("2 reminder action(s) failed"));
}
