use chrono::{Datelike, NaiveDate};
use remtodo::dates::{Date, Timestamp};
use remtodo::error::SyncError;
use remtodo::execute::{
    apply_batch_results, create_input_for_task, create_input_for_update, reminder_op, reminder_ops,
    BatchedActionKind,
};
use remtodo::reminder::Reminder;
use remtodo::swift_cli::{
    check_batch_len, get_reminders_args, BatchItemResult, BatchOp, HelperSearch, SwiftCli,
};
use remtodo::sync::actions::{ReminderUpdate, SyncAction};
use remtodo::sync::config::{ListSyncConfig, PriorityMap};
use remtodo::sync::state::SyncState;
use remtodo::task::Task;
use remtodo::undo::UndoEntry;

const NOW: Timestamp = Timestamp {
    secs: 1_772_000_000,
    nanos: 0,
};

fn task(line: &str) -> Task {
    let date = NaiveDate::from_ymd_opt(2026, 2, 25).unwrap();
    Task::parse(line, Date::from_days_ce(date.num_days_from_ce()).unwrap())
}

fn reminder(eid: &str, title: &str) -> Reminder {
    Reminder {
        id: format!("id-{eid}"),
        external_id: eid.to_string(),
        title: title.to_string(),
        due_date: None,
        priority: 0,
        is_completed: false,
        completion_date: None,
        creation_date: None,
        last_modified_date: None,
        notes: None,
        list: "Tasks".to_string(),
    }
}

fn update(eid: &str) -> ReminderUpdate {
    ReminderUpdate {
        eid: eid.to_string(),
        list_name: "Tasks".to_string(),
        title: Some("New".to_string()),
        priority: None,
        is_completed: Some(false),
        completion_date: None,
        due_date: Some(Some("2026-03-01".to_string())),
        notes: None,
    }
}

fn answer(reminder: Option<Reminder>) -> BatchItemResult {
    BatchItemResult {
        ok: true,
        reminder,
        deleted: None,
        error: None,
    }
}

fn failure() -> BatchItemResult {
    BatchItemResult {
        ok: false,
        reminder: None,
        deleted: None,
        error: Some("boom".to_string()),
    }
}

#[test]
fn batch_result_count_mismatch_is_swift_cli_error() {
    assert!(check_batch_len(2, 2).is_ok());
    let e = check_batch_len(2, 1).unwrap_err();
    assert!(matches!(e, SyncError::SwiftCli(_)));
    assert!(e.message().contains('2') && e.message().contains('1'));
}

#[test]
fn helper_program_is_chosen() {
    let none = HelperSearch {
        env: Some(("/env".to_string(), false)),
        sibling: None,
        release: None,
        debug: None,
        which: None,
    };
    assert_eq!(
        SwiftCli::new(&none).unwrap_err().message(),
        "Swift CLI error: reminders-helper not found. Install with: make install"
    );
    let found = HelperSearch {
        which: Some("/usr/bin/reminders-helper\n".to_string()),
        ..none
    };
    assert_eq!(SwiftCli::new(&found).unwrap().binary, "/usr/bin/reminders-helper");
    let first = HelperSearch {
        env: Some(("/env".to_string(), true)),
        ..found
    };
    assert_eq!(SwiftCli::new(&first).unwrap().binary, "/env");
    assert_eq!(
        get_reminders_args("Tasks", true),
        vec!["get-reminders", "--list", "Tasks", "--include-completed"]
    );
    assert_eq!(get_reminders_args("Tasks", false).len(), 3);
}

#[test]
fn task_is_described_to_the_helper() {
    let c = create_input_for_task(
        &task("(A) Buy milk @today due:2026-03-01 eid:e1"),
        &PriorityMap::default(),
        "Tasks",
    );
    assert_eq!(c.title, "Buy milk");
    assert_eq!(c.list_name, "Tasks");
    assert_eq!(c.due_date.as_deref(), Some("2026-03-01"));
    assert!(!c.is_completed);
    assert_eq!(c.notes, None);
    let c = create_input_for_update(&update("e1"), "Work");
    assert_eq!(c.title, "New");
    assert_eq!(c.list_name, "Work");
    assert_eq!(c.priority, 0);
    assert_eq!(c.due_date.as_deref(), Some("2026-03-01"));
    assert!(!c.is_completed);
}

#[test]
fn only_actions_on_reminders_are_sent() {
    let config = ListSyncConfig::new("Tasks");
    let map = config.compiled_priority_map();
    let local = SyncAction::DeleteTask {
        eid: "e1".to_string(),
    };
    assert!(reminder_op(&local, &config, &map).is_none());
    let ops = reminder_ops(
        &[
            SyncAction::CreateReminder {
                task: task("Buy milk"),
                target_list: "Tasks".to_string(),
            },
            local,
            SyncAction::UpdateReminder {
                eid: "e2".to_string(),
                updated_reminder: update("e2"),
            },
            SyncAction::DeleteReminder {
                eid: "e3".to_string(),
            },
            SyncAction::ResurrectReminder {
                eid: "e4".to_string(),
                reminder_update: update("e4"),
                target_list: "Tasks".to_string(),
            },
        ],
        &config,
    );
    assert_eq!(ops.len(), 4);
    assert!(matches!(&ops[0], (BatchOp::CreateReminder(_), BatchedActionKind::Create { .. })));
    assert!(matches!(&ops[1], (BatchOp::UpdateReminder(_), BatchedActionKind::Update { .. })));
    assert!(matches!(&ops[2], (BatchOp::DeleteReminder { .. }, BatchedActionKind::Delete { .. })));
    assert!(matches!(&ops[3], (BatchOp::CreateReminder(_), BatchedActionKind::Resurrect { .. })));
}

#[test]
fn created_reminder_gives_its_task_an_identifier() {
    let config = ListSyncConfig::new("Tasks");
    let mut tasks = vec![task("Other"), task("Buy milk")];
    let mut state = SyncState::default();
    let mut undo: Vec<UndoEntry> = Vec::new();
    let ops = reminder_ops(
        &[SyncAction::CreateReminder {
            task: tasks[1].clone(),
            target_list: "Tasks".to_string(),
        }],
        &config,
    );
    let failed = apply_batch_results(
        &ops,
        &[answer(Some(reminder("e9", "Buy milk")))],
        &mut tasks,
        &mut state,
        &config,
        NOW,
        &[],
        &mut undo,
    );
    assert_eq!(failed, 0);
    assert_eq!(tasks[1].to_line(), "Buy milk eid:e9");
    assert_eq!(tasks[0].to_line(), "Other");
    let item = state.items.get("e9").unwrap();
    assert_eq!(item.fields.title, "Buy milk");
    assert_eq!(item.fields.list, "Tasks");
    assert!(item.pushed);
    assert_eq!(item.last_synced, NOW);
    assert!(matches!(&undo[0], UndoEntry::UndoCreate { eid, .. } if eid == "e9"));
}

#[test]
fn failed_operations_change_nothing() {
    let config = ListSyncConfig::new("Tasks");
    let mut tasks = vec![task("Buy milk")];
    let mut state = SyncState::default();
    let mut undo: Vec<UndoEntry> = Vec::new();
    let ops = reminder_ops(
        &[
            SyncAction::CreateReminder {
                task: tasks[0].clone(),
                target_list: "Tasks".to_string(),
            },
            SyncAction::DeleteReminder {
                eid: "e3".to_string(),
            },
        ],
        &config,
    );
    let failed = apply_batch_results(
        &ops,
        &[failure(), failure()],
        &mut tasks,
        &mut state,
        &config,
        NOW,
        &[reminder("e3", "three")],
        &mut undo,
    );
    assert_eq!(failed, 2);
    assert_eq!(tasks[0].to_line(), "Buy milk");
    assert!(state.items.is_empty());
    assert!(undo.is_empty());
}

#[test]
fn updates_and_deletions_are_logged() {
    let config = ListSyncConfig::new("Tasks");
    let mut tasks = vec![task("New eid:e2")];
    let mut state = SyncState::default();
    let mut undo: Vec<UndoEntry> = Vec::new();
    let ops = reminder_ops(
        &[
            SyncAction::UpdateReminder {
                eid: "e2".to_string(),
                updated_reminder: update("e2"),
            },
            SyncAction::DeleteReminder {
                eid: "e3".to_string(),
            },
        ],
        &config,
    );
    let before = [reminder("e2", "Old"), reminder("e3", "three")];
    apply_batch_results(
        &ops,
        &[answer(Some(reminder("e2", "New"))), answer(None)],
        &mut tasks,
        &mut state,
        &config,
        NOW,
        &before,
        &mut undo,
    );
    assert_eq!(undo.len(), 2);
    assert!(matches!(&undo[0], UndoEntry::UndoUpdate { old_reminder } if old_reminder.title == "Old"));
    assert!(matches!(&undo[1], UndoEntry::UndoDelete { reminder } if reminder.title == "three"));
}

#[test]
fn resurrected_reminder_renames_its_task() {
    let config = ListSyncConfig::new("Tasks");
    let mut tasks = vec![task("New eid:old")];
    let mut state = SyncState::default();
    let mut undo: Vec<UndoEntry> = Vec::new();
    let ops = reminder_ops(
        &[SyncAction::ResurrectReminder {
            eid: "old".to_string(),
            reminder_update: update("old"),
            target_list: "Tasks".to_string(),
        }],
        &config,
    );
    apply_batch_results(
        &ops,
        &[answer(Some(reminder("fresh", "New")))],
        &mut tasks,
        &mut state,
        &config,
        NOW,
        &[],
        &mut undo,
    );
    assert_eq!(tasks[0].to_line(), "New eid:fresh");
    assert!(state.items.contains_key("fresh"));
    assert!(!state.items.contains_key("old"));
}
