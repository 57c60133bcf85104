use remtodo::reminder::Reminder;
use remtodo::swift_cli::BatchOp;
use remtodo::undo::{
    backup_file_paths, recreate_input, restore_ops, restore_summary, revert_update, undo_log_path,
    undo_op, UndoEntry, UndoLog,
};

#[test]
fn revert_update_populates_all_fields() {
    let r = Reminder {
        id: "id-1".to_string(),
        external_id: "eid-1".to_string(),
        title: "Buy milk".to_string(),
        due_date: Some("2026-03-01".to_string()),
        priority: 9,
        is_completed: true,
        completion_date: Some("2026-02-28".to_string()),
        creation_date: None,
        last_modified_date: None,
        notes: Some("2% from Costco".to_string()),
        list: "Shopping".to_string(),
    };

    let update = revert_update(&r);

    assert_eq!(update.eid, "eid-1");
    assert_eq!(update.list_name, "Shopping");
    assert_eq!(update.title, Some("Buy milk".to_string()));
    assert_eq!(update.priority, Some(9));
    assert_eq!(update.is_completed, Some(true));
    assert_eq!(update.completion_date, Some(Some("2026-02-28".to_string())));
    assert_eq!(update.due_date, Some(Some("2026-03-01".to_string())));
    assert_eq!(update.notes, Some(Some("2% from Costco".to_string())));
}

#[test]
fn recreate_input_populates_all_fields() {
    let r = Reminder {
        id: "id-1".to_string(),
        external_id: "eid-1".to_string(),
        title: "Buy milk".to_string(),
        due_date: Some("2026-03-01".to_string()),
        priority: 5,
        is_completed: false,
        completion_date: None,
        creation_date: None,
        last_modified_date: None,
        notes: Some("organic".to_string()),
        list: "Shopping".to_string(),
    };

    let input = recreate_input(&r);

    assert_eq!(input.title, "Buy milk");
    assert_eq!(input.list_name, "Shopping");
    assert_eq!(input.priority, 5);
    assert_eq!(input.due_date, Some("2026-03-01".to_string()));
    assert_eq!(input.notes, Some("organic".to_string()));
    assert!(!input.is_completed);
    assert!(input.completion_date.is_none());
}

fn reminder(eid: &str, title: &str) -> Reminder {
    Reminder {
        id: format!("id-{eid}"),
        external_id: eid.to_string(),
        title: title.to_string(),
        due_date: None,
        priority: 0,
        is_completed: false,
        completion_date: None,
        creation_date: None,
        last_modified_date: None,
        notes: None,
        list: "Tasks".to_string(),
    }
}

#[test]
fn every_entry_is_taken_back_in_order() {
    let log = UndoLog {
        timestamp: "2026-02-25T12:00:00Z".to_string(),
        todo_original_path: "/todo.txt".to_string(),
        entries: vec![
            UndoEntry::UndoCreate {
                eid: "e1".to_string(),
                list_name: "Tasks".to_string(),
            },
            UndoEntry::UndoDelete {
                reminder: reminder("e2", "two"),
            },
            UndoEntry::UndoUpdate {
                old_reminder: reminder("e3", "three"),
            },
        ],
    };
    let ops = restore_ops(&log);
    assert_eq!(ops.len(), 3);
    match &ops[0] {
        BatchOp::DeleteReminder { eid, list_name } => {
            assert_eq!(eid, "e1");
            assert_eq!(list_name, "Tasks");
        }
        other => panic!("{other:?}"),
    }
    match &ops[1] {
        BatchOp::CreateReminder(c) => assert_eq!(c.title, "two"),
        other => panic!("{other:?}"),
    }
    match undo_op(&log.entries[2]) {
        BatchOp::UpdateReminder(u) => {
            assert_eq!(u.eid, "e3");
            assert_eq!(u.title, Some("three".to_string()));
            assert_eq!(u.due_date, Some(None));
        }
        other => panic!("{other:?}"),
    }
}

#[test]
fn restoring_reports_failures() {
    assert_eq!(restore_summary(0), "Restore complete.");
    assert_eq!(
        restore_summary(2),
        "Restore partially complete — 2 reminder operation(s) failed (see warnings above)."
    );
}

#[test]
fn files_of_a_run_lie_in_the_state_directory() {
    assert_eq!(undo_log_path("/state/"), "/state/undo.json");
    assert_eq!(backup_file_paths("/state").1, "/state/state.json.bak");
}
