use chrono::{DateTime, Datelike, NaiveDate, NaiveDateTime};
use remtodo::dates::{Date, Timestamp};
use remtodo::keyed::TextSet;
use remtodo::reminder::Reminder;
use remtodo::sync::actions::SyncAction;
use remtodo::sync::config::{ListSyncConfig, StickyTracking, WritebackConfig};
use remtodo::sync::engine::{
    apply_task_actions, build_field_state_from_reminder, build_initial_state, compute_release_set,
    compute_sync_actions, compute_sync_actions_ext, extract_title, replace_title_in_subject,
    synced_field_hash, task_line_hash, verify_post_sync,
};
use remtodo::sync::state::{SyncItemState, SyncState, SyncedFieldState};
use remtodo::task::Task;

// ----------------------------------------------------------------
// Time helpers
// ----------------------------------------------------------------

fn time(s: &str) -> Timestamp {
    let t = NaiveDateTime::parse_from_str(s, "%Y-%m-%d %H:%M:%S")
        .unwrap()
        .and_utc();
    Timestamp {
        secs: t.timestamp(),
        nanos: t.timestamp_subsec_nanos(),
    }
}

fn day(y: i32, m: u32, d: u32) -> Date {
    let date = NaiveDate::from_ymd_opt(y, m, d).unwrap();
    Date::from_days_ce(date.num_days_from_ce()).unwrap()
}

fn now() -> Timestamp {
    time("2026-02-25 12:00:00")
}

fn past_time() -> Timestamp {
    time("2026-02-20 10:00:00")
}

fn recent_time() -> Timestamp {
    time("2026-02-24 15:00:00")
}

fn old_time() -> Timestamp {
    time("2026-02-15 08:00:00")
}

// ----------------------------------------------------------------
// Reminder builder
// ----------------------------------------------------------------

struct ReminderBuilder {
    eid: String,
    title: String,
    due: Option<String>,
    priority: i32,
    is_completed: bool,
    completion_date: Option<String>,
    modified: Option<Timestamp>,
    notes: Option<String>,
    list: String,
}

impl ReminderBuilder {
    fn new(eid: &str) -> Self {
        Self {
            eid: eid.to_string(),
            title: "Test Reminder".to_string(),
            due: None,
            priority: 0,
            is_completed: false,
            completion_date: None,
            modified: Some(past_time()),
            notes: None,
            list: "Tasks".to_string(),
        }
    }

    fn title(mut self, t: &str) -> Self {
        self.title = t.to_string();
        self
    }
    fn due(mut self, d: &str) -> Self {
        self.due = Some(d.to_string());
        self
    }
    fn priority(mut self, p: i32) -> Self {
        self.priority = p;
        self
    }
    fn completed(mut self, date: &str) -> Self {
        self.is_completed = true;
        self.completion_date = Some(date.to_string());
        self
    }
    fn modified(mut self, t: Timestamp) -> Self {
        self.modified = Some(t);
        self
    }
    fn notes(mut self, n: &str) -> Self {
        self.notes = Some(n.to_string());
        self
    }
    fn list(mut self, l: &str) -> Self {
        self.list = l.to_string();
        self
    }

    fn build(self) -> Reminder {
        Reminder {
            id: format!("id-{}", self.eid),
            external_id: self.eid.clone(),
            title: self.title,
            due_date: self.due,
            priority: self.priority,
            is_completed: self.is_completed,
            completion_date: self.completion_date,
            creation_date: Some("2026-02-01".to_string()),
            last_modified_date: self
                .modified
                .map(|t| {
                    DateTime::from_timestamp(t.secs, t.nanos)
                        .unwrap()
                        .format("%Y-%m-%dT%H:%M:%SZ")
                        .to_string()
                }),
            notes: self.notes,
            list: self.list,
        }
    }
}

// ----------------------------------------------------------------
// Task helpers
// ----------------------------------------------------------------

fn base_date() -> Date {
    day(2026, 2, 25)
}

fn task_from_line(line: &str) -> Task {
    Task::parse(line, base_date())
}

fn task_with_eid(eid: &str, subject: &str) -> Task {
    task_from_line(&format!("{subject} eid:{eid}"))
}

fn completed_task_with_eid(eid: &str, subject: &str) -> Task {
    task_from_line(&format!("x 2026-02-20 2026-02-01 {subject} eid:{eid}"))
}

fn local_task(subject: &str) -> Task {
    task_from_line(subject)
}

// ----------------------------------------------------------------
// State helpers
// ----------------------------------------------------------------

fn default_config() -> ListSyncConfig {
    ListSyncConfig {
        reminders_list: "Tasks".to_string(),
        ..Default::default()
    }
}

fn shopping_config() -> ListSyncConfig {
    ListSyncConfig {
        reminders_list: "Shopping".to_string(),
        auto_context: Some("shopping".to_string()),
        ..Default::default()
    }
}

fn empty_state() -> SyncState {
    SyncState::default()
}

fn synced_item(eid: &str, title: &str) -> SyncItemState {
    let fields = SyncedFieldState {
        title: title.to_string(),
        priority: 0,
        is_completed: false,
        completion_date: None,
        due_date: None,
        notes: None,
        list: "Tasks".to_string(),
    };
    let r_hash = synced_field_hash(&fields);
    SyncItemState {
        eid: eid.to_string(),
        fields,
        reminders_last_modified: Some(past_time()),
        task_line_hash: 0,
        reminders_field_hash: r_hash,
        last_synced: past_time(),
        pushed: true,
    }
}

fn state_with_items(items: Vec<SyncItemState>) -> SyncState {
    let mut state = SyncState::default();
    for item in items {
        state.items.insert(item.eid.clone(), item);
    }
    state.last_sync_time = Some(past_time());
    state
}

// ----------------------------------------------------------------
// Action assertion helpers
// ----------------------------------------------------------------

fn assert_creates_task(actions: &[SyncAction], eid: &str) {
    let found = actions.iter().any(|a| {
        if let SyncAction::CreateTask { eid: e, .. } = a {
            e.as_str() == eid
        } else {
            false
        }
    });
    assert!(found, "Expected CreateTask(eid={eid})");
}

fn assert_creates_reminder(actions: &[SyncAction]) {
    assert!(
        actions
            .iter()
            .any(|a| matches!(a, SyncAction::CreateReminder { .. })),
        "Expected at least one CreateReminder action"
    );
}

fn assert_updates_task(actions: &[SyncAction], eid: &str) {
    let found = actions.iter().any(|a| {
        if let SyncAction::UpdateTask { eid: e, .. } = a {
            e.as_str() == eid
        } else {
            false
        }
    });
    assert!(found, "Expected UpdateTask(eid={eid})");
}

fn assert_updates_reminder(actions: &[SyncAction], eid: &str) {
    let found = actions.iter().any(|a| {
        if let SyncAction::UpdateReminder { eid: e, .. } = a {
            e.as_str() == eid
        } else {
            false
        }
    });
    assert!(found, "Expected UpdateReminder(eid={eid})");
}

fn assert_deletes_task(actions: &[SyncAction], eid: &str) {
    let found = actions.iter().any(|a| {
        if let SyncAction::DeleteTask { eid: e } = a {
            e.as_str() == eid
        } else {
            false
        }
    });
    assert!(found, "Expected DeleteTask(eid={eid})");
}

fn assert_deletes_reminder(actions: &[SyncAction], eid: &str) {
    let found = actions.iter().any(|a| {
        if let SyncAction::DeleteReminder { eid: e } = a {
            e.as_str() == eid
        } else {
            false
        }
    });
    assert!(found, "Expected DeleteReminder(eid={eid})");
}

fn assert_no_action(actions: &[SyncAction]) {
    assert!(
        actions.is_empty(),
        "Expected no actions but got {} action(s)",
        actions.len()
    );
}

fn assert_resurrects_task(actions: &[SyncAction], eid: &str) {
    let found = actions.iter().any(|a| {
        if let SyncAction::ResurrectTask { eid: e, .. } = a {
            e.as_str() == eid
        } else {
            false
        }
    });
    assert!(found, "Expected ResurrectTask(eid={eid})");
}

fn assert_resurrects_reminder(actions: &[SyncAction], eid: &str) {
    let found = actions.iter().any(|a| {
        if let SyncAction::ResurrectReminder { eid: e, .. } = a {
            e.as_str() == eid
        } else {
            false
        }
    });
    assert!(found, "Expected ResurrectReminder(eid={eid})");
}

#[test]
fn new_reminder_creates_task() {
    let reminders = vec![ReminderBuilder::new("eid-1").title("Buy milk").build()];
    let tasks = vec![];
    let state = empty_state();
    let config = default_config();
    let actions = compute_sync_actions(&reminders, &tasks, &state, &config, now(), None);
    assert_creates_task(&actions, "eid-1");
}

#[test]
fn new_reminder_with_due_date_maps_correctly() {
    let reminders = vec![ReminderBuilder::new("eid-2")
        .title("Dentist")
        .due("2026-03-10")
        .build()];
    let tasks = vec![];
    let state = empty_state();
    let config = default_config();
    let actions = compute_sync_actions(&reminders, &tasks, &state, &config, now(), None);
    assert_creates_task(&actions, "eid-2");
    if let Some(SyncAction::CreateTask { reminder, .. }) = actions
        .iter()
        .find(|a| matches!(a, SyncAction::CreateTask { .. }))
    {
        assert_eq!(reminder.due_date, Some("2026-03-10".to_string()));
    }
}

#[test]
fn new_reminder_with_priority_9_gets_today_context() {
    let reminders = vec![ReminderBuilder::new("eid-3")
        .title("Urgent task")
        .priority(9)
        .build()];
    let tasks = vec![];
    let state = empty_state();
    let config = default_config();
    let actions = compute_sync_actions(&reminders, &tasks, &state, &config, now(), None);
    assert_creates_task(&actions, "eid-3");
    if let Some(SyncAction::CreateTask { reminder, .. }) = actions
        .iter()
        .find(|a| matches!(a, SyncAction::CreateTask { .. }))
    {
        assert_eq!(reminder.priority, 9);
    }
}

#[test]
fn new_completed_reminder_creates_completed_task() {
    let reminders = vec![ReminderBuilder::new("eid-4")
        .title("Done thing")
        .completed("2026-02-24")
        .build()];
    let tasks = vec![];
    let state = empty_state();
    // sync_initial_completed = true: import already-completed reminders
    let config = ListSyncConfig {
        reminders_list: "Tasks".to_string(),
        sync_initial_completed: true,
        ..Default::default()
    };
    let actions = compute_sync_actions(&reminders, &tasks, &state, &config, now(), None);
    assert_creates_task(&actions, "eid-4");
    if let Some(SyncAction::CreateTask { reminder, .. }) = actions
        .iter()
        .find(|a| matches!(a, SyncAction::CreateTask { .. }))
    {
        assert!(reminder.is_completed);
    }
}

#[test]
fn completed_reminder_skipped_on_first_sync_by_default() {
    let reminders = vec![ReminderBuilder::new("eid-skip")
        .title("Old completed thing")
        .completed("2026-01-01")
        .build()];
    let tasks = vec![];
    let state = empty_state();
    let config = default_config(); // sync_initial_completed = false
    let actions = compute_sync_actions(&reminders, &tasks, &state, &config, now(), None);
    assert!(
        !actions
            .iter()
            .any(|a| matches!(a, SyncAction::CreateTask { .. })),
        "completed reminder should be skipped when sync_initial_completed=false"
    );
}

#[test]
fn new_reminder_with_notes_creates_task() {
    // Notes live in Reminders only — they should not appear in the task line,
    // but the CreateTask action should still be produced.
    let reminders = vec![ReminderBuilder::new("eid-5")
        .title("Read book")
        .notes("Chapter 5 first")
        .build()];
    let tasks = vec![];
    let state = empty_state();
    let config = default_config();
    let actions = compute_sync_actions(&reminders, &tasks, &state, &config, now(), None);
    assert_creates_task(&actions, "eid-5");
    if let Some(SyncAction::CreateTask { reminder, .. }) = actions
        .iter()
        .find(|a| matches!(a, SyncAction::CreateTask { .. }))
    {
        // Notes are preserved in the reminder data passed to the action.
        assert_eq!(reminder.notes, Some("Chapter 5 first".to_string()));
    }
}

#[test]
fn multiple_new_reminders_create_multiple_tasks() {
    let reminders = vec![
        ReminderBuilder::new("eid-a").title("Task A").build(),
        ReminderBuilder::new("eid-b").title("Task B").build(),
        ReminderBuilder::new("eid-c").title("Task C").build(),
    ];
    let tasks = vec![];
    let state = empty_state();
    let config = default_config();
    let actions = compute_sync_actions(&reminders, &tasks, &state, &config, now(), None);
    assert_creates_task(&actions, "eid-a");
    assert_creates_task(&actions, "eid-b");
    assert_creates_task(&actions, "eid-c");
    let create_count = actions
        .iter()
        .filter(|a| matches!(a, SyncAction::CreateTask { .. }))
        .count();
    assert_eq!(create_count, 3);
}

#[test]
fn new_local_task_without_eid_creates_reminder() {
    let reminders = vec![];
    let tasks = vec![local_task("Buy groceries")];
    let state = empty_state();
    let config = default_config();
    let actions = compute_sync_actions(
        &reminders,
        &tasks,
        &state,
        &config,
        now(),
        Some(recent_time()),
    );
    assert_creates_reminder(&actions);
}

#[test]
fn new_local_task_targets_configured_list() {
    let reminders = vec![];
    let tasks = vec![local_task("Get milk @shopping")];
    let state = empty_state();
    let config = shopping_config();
    let actions = compute_sync_actions(
        &reminders,
        &tasks,
        &state,
        &config,
        now(),
        Some(recent_time()),
    );
    assert_creates_reminder(&actions);
    if let Some(SyncAction::CreateReminder { target_list, .. }) = actions
        .iter()
        .find(|a| matches!(a, SyncAction::CreateReminder { .. }))
    {
        assert_eq!(target_list.as_str(), "Shopping");
    }
}

#[test]
fn completed_task_without_eid_not_pushed_to_reminders() {
    // Completed tasks must never be pushed as *new* reminders via Step 3.
    // Only the UpdateReminder path (three_way_diff) may mark an already-synced
    // reminder complete.  This prevents historical completions in todo.txt from
    // flooding Apple Reminders on the first sync.
    let reminders = vec![];
    let tasks = vec![task_from_line("x 2026-02-20 2026-02-01 Done thing")];
    let state = empty_state();
    let config = default_config();
    let actions = compute_sync_actions(
        &reminders,
        &tasks,
        &state,
        &config,
        now(),
        Some(recent_time()),
    );
    assert!(
        !actions
            .iter()
            .any(|a| matches!(a, SyncAction::CreateReminder { .. })),
        "completed tasks must not produce CreateReminder actions"
    );
}

#[test]
fn task_with_eid_already_in_state_is_not_new() {
    let reminders = vec![ReminderBuilder::new("eid-1").build()];
    let tasks = vec![task_with_eid("eid-1", "Some task")];
    let state = state_with_items(vec![synced_item("eid-1", "Some task")]);
    let config = default_config();
    let actions = compute_sync_actions(
        &reminders,
        &tasks,
        &state,
        &config,
        now(),
        Some(past_time()),
    );
    assert!(!actions
        .iter()
        .any(|a| matches!(a, SyncAction::CreateTask { .. })));
    assert!(!actions
        .iter()
        .any(|a| matches!(a, SyncAction::CreateReminder { .. })));
}

#[test]
fn reminder_title_changed_updates_task() {
    let eid = "eid-1";
    let reminders = vec![ReminderBuilder::new(eid)
        .title("New Title")
        .modified(recent_time())
        .build()];
    let tasks = vec![task_with_eid(eid, "Old Title")];
    let state = state_with_items(vec![synced_item(eid, "Old Title")]);
    let config = default_config();
    let actions = compute_sync_actions(
        &reminders,
        &tasks,
        &state,
        &config,
        now(),
        Some(past_time()),
    );
    assert_updates_task(&actions, eid);
}

#[test]
fn reminder_due_date_added_updates_task() {
    let eid = "eid-2";
    let mut item = synced_item(eid, "Task");
    item.fields.due_date = None;
    let reminders = vec![ReminderBuilder::new(eid)
        .title("Task")
        .due("2026-03-15")
        .modified(recent_time())
        .build()];
    let tasks = vec![task_with_eid(eid, "Task")];
    let state = state_with_items(vec![item]);
    let config = default_config();
    let actions = compute_sync_actions(
        &reminders,
        &tasks,
        &state,
        &config,
        now(),
        Some(past_time()),
    );
    assert_updates_task(&actions, eid);
}

#[test]
fn reminder_due_date_removed_updates_task() {
    let eid = "eid-3";
    let mut item = synced_item(eid, "Task");
    item.fields.due_date = Some("2026-03-01".to_string());
    let reminders = vec![ReminderBuilder::new(eid)
        .title("Task")
        .modified(recent_time())
        .build()];
    let tasks = vec![task_from_line(&format!("Task due:2026-03-01 eid:{eid}"))];
    let state = state_with_items(vec![item]);
    let config = default_config();
    let actions = compute_sync_actions(
        &reminders,
        &tasks,
        &state,
        &config,
        now(),
        Some(past_time()),
    );
    assert_updates_task(&actions, eid);
}

#[test]
fn reminder_priority_changed_updates_task() {
    let eid = "eid-4";
    let mut item = synced_item(eid, "Task");
    item.fields.priority = 0;
    let reminders = vec![ReminderBuilder::new(eid)
        .title("Task")
        .priority(9)
        .modified(recent_time())
        .build()];
    let tasks = vec![task_with_eid(eid, "Task")];
    let state = state_with_items(vec![item]);
    let config = default_config();
    let actions = compute_sync_actions(
        &reminders,
        &tasks,
        &state,
        &config,
        now(),
        Some(past_time()),
    );
    assert_updates_task(&actions, eid);
}

#[test]
fn reminder_notes_changed_no_task_update() {
    // Notes no longer round-trip through todo.txt — a change to reminder
    // notes should not trigger UpdateTask.
    let eid = "eid-5";
    let reminders = vec![ReminderBuilder::new(eid)
        .title("Task")
        .notes("New note text")
        .modified(recent_time())
        .build()];
    let tasks = vec![task_with_eid(eid, "Task")];
    let state = state_with_items(vec![synced_item(eid, "Task")]);
    let config = default_config();
    let actions = compute_sync_actions(
        &reminders,
        &tasks,
        &state,
        &config,
        now(),
        Some(past_time()),
    );
    assert!(
        !actions
            .iter()
            .any(|a| matches!(a, SyncAction::UpdateTask { .. })),
        "notes change must not trigger UpdateTask"
    );
}

#[test]
fn task_title_changed_updates_reminder() {
    let eid = "eid-1";
    let reminders = vec![ReminderBuilder::new(eid).title("Old Title").build()];
    let tasks = vec![task_with_eid(eid, "New Title")];
    let state = state_with_items(vec![synced_item(eid, "Old Title")]);
    let config = default_config();
    let actions = compute_sync_actions(
        &reminders,
        &tasks,
        &state,
        &config,
        now(),
        Some(recent_time()),
    );
    assert_updates_reminder(&actions, eid);
}

#[test]
fn task_due_date_added_updates_reminder() {
    let eid = "eid-2";
    let mut item = synced_item(eid, "Task");
    item.fields.due_date = None;
    let reminders = vec![ReminderBuilder::new(eid).title("Task").build()];
    let tasks = vec![task_from_line(&format!("Task due:2026-04-01 eid:{eid}"))];
    let state = state_with_items(vec![item]);
    let config = default_config();
    let actions = compute_sync_actions(
        &reminders,
        &tasks,
        &state,
        &config,
        now(),
        Some(recent_time()),
    );
    assert_updates_reminder(&actions, eid);
}

#[test]
fn task_due_date_removed_updates_reminder() {
    let eid = "eid-3";
    let mut item = synced_item(eid, "Task");
    item.fields.due_date = Some("2026-03-01".to_string());
    let reminders = vec![ReminderBuilder::new(eid)
        .title("Task")
        .due("2026-03-01")
        .build()];
    let tasks = vec![task_with_eid(eid, "Task")]; // no due date
    let state = state_with_items(vec![item]);
    let config = default_config();
    let actions = compute_sync_actions(
        &reminders,
        &tasks,
        &state,
        &config,
        now(),
        Some(recent_time()),
    );
    assert_updates_reminder(&actions, eid);
}

#[test]
fn task_today_context_added_updates_reminder_priority() {
    let eid = "eid-4";
    let mut item = synced_item(eid, "Task");
    item.fields.priority = 0;
    let reminders = vec![ReminderBuilder::new(eid).title("Task").priority(0).build()];
    let tasks = vec![task_from_line(&format!("Task @today eid:{eid}"))];
    let state = state_with_items(vec![item]);
    let config = default_config();
    let actions = compute_sync_actions(
        &reminders,
        &tasks,
        &state,
        &config,
        now(),
        Some(recent_time()),
    );
    assert_updates_reminder(&actions, eid);
}

#[test]
fn unchanged_item_produces_no_action() {
    let eid = "eid-1";
    let reminders = vec![ReminderBuilder::new(eid).title("Same title").build()];
    let tasks = vec![task_with_eid(eid, "Same title")];
    let state = state_with_items(vec![synced_item(eid, "Same title")]);
    let config = default_config();
    let actions = compute_sync_actions(
        &reminders,
        &tasks,
        &state,
        &config,
        now(),
        Some(past_time()),
    );
    assert_no_action(&actions);
}

#[test]
fn unchanged_item_with_due_date_produces_no_action() {
    let eid = "eid-2";
    let mut item = synced_item(eid, "Task with due");
    item.fields.due_date = Some("2026-03-01".to_string());
    let reminders = vec![ReminderBuilder::new(eid)
        .title("Task with due")
        .due("2026-03-01")
        .build()];
    let tasks = vec![task_from_line(&format!(
        "Task with due due:2026-03-01 eid:{eid}"
    ))];
    let state = state_with_items(vec![item]);
    let config = default_config();
    let actions = compute_sync_actions(
        &reminders,
        &tasks,
        &state,
        &config,
        now(),
        Some(past_time()),
    );
    assert_no_action(&actions);
}

#[test]
fn unchanged_completed_item_produces_no_action() {
    let eid = "eid-3";
    let mut item = synced_item(eid, "Done task");
    item.fields.is_completed = true;
    item.fields.completion_date = Some("2026-02-20".to_string());
    let reminders = vec![ReminderBuilder::new(eid)
        .title("Done task")
        .completed("2026-02-20")
        .build()];
    let tasks = vec![completed_task_with_eid(eid, "Done task")];
    let state = state_with_items(vec![item]);
    let config = default_config();
    let actions = compute_sync_actions(
        &reminders,
        &tasks,
        &state,
        &config,
        now(),
        Some(past_time()),
    );
    assert_no_action(&actions);
}

#[test]
fn complete_in_reminders_completes_task() {
    let eid = "eid-1";
    let reminders = vec![ReminderBuilder::new(eid)
        .title("Task")
        .completed("2026-02-24")
        .modified(recent_time())
        .build()];
    let tasks = vec![task_with_eid(eid, "Task")];
    let state = state_with_items(vec![synced_item(eid, "Task")]);
    let config = default_config();
    let actions = compute_sync_actions(
        &reminders,
        &tasks,
        &state,
        &config,
        now(),
        Some(past_time()),
    );
    assert_updates_task(&actions, eid);
}

#[test]
fn complete_in_task_completes_reminder() {
    let eid = "eid-2";
    let reminders = vec![ReminderBuilder::new(eid).title("Task").build()];
    let tasks = vec![completed_task_with_eid(eid, "Task")];
    let state = state_with_items(vec![synced_item(eid, "Task")]);
    let config = default_config();
    let actions = compute_sync_actions(
        &reminders,
        &tasks,
        &state,
        &config,
        now(),
        Some(recent_time()),
    );
    assert_updates_reminder(&actions, eid);
}

#[test]
fn uncomplete_in_reminders_uncompletes_task() {
    let eid = "eid-3";
    let mut item = synced_item(eid, "Task");
    item.fields.is_completed = true;
    item.fields.completion_date = Some("2026-02-20".to_string());
    let reminders = vec![ReminderBuilder::new(eid)
        .title("Task")
        .modified(recent_time())
        .build()];
    let tasks = vec![completed_task_with_eid(eid, "Task")];
    let state = state_with_items(vec![item]);
    let config = default_config();
    let actions = compute_sync_actions(
        &reminders,
        &tasks,
        &state,
        &config,
        now(),
        Some(past_time()),
    );
    assert_updates_task(&actions, eid);
}

#[test]
fn uncomplete_in_task_uncompletes_reminder() {
    let eid = "eid-4";
    let mut item = synced_item(eid, "Task");
    item.fields.is_completed = true;
    item.fields.completion_date = Some("2026-02-20".to_string());
    let reminders = vec![ReminderBuilder::new(eid)
        .title("Task")
        .completed("2026-02-20")
        .build()];
    let tasks = vec![task_with_eid(eid, "Task")];
    let state = state_with_items(vec![item]);
    let config = default_config();
    let actions = compute_sync_actions(
        &reminders,
        &tasks,
        &state,
        &config,
        now(),
        Some(recent_time()),
    );
    assert_updates_reminder(&actions, eid);
}

#[test]
fn complete_on_both_sides_no_conflict() {
    let eid = "eid-5";
    let mut item = synced_item(eid, "Task");
    item.fields.is_completed = true;
    item.fields.completion_date = Some("2026-02-20".to_string());
    let reminders = vec![ReminderBuilder::new(eid)
        .title("Task")
        .completed("2026-02-20")
        .build()];
    let tasks = vec![completed_task_with_eid(eid, "Task")];
    let state = state_with_items(vec![item]);
    let config = default_config();
    let actions = compute_sync_actions(
        &reminders,
        &tasks,
        &state,
        &config,
        now(),
        Some(past_time()),
    );
    assert_no_action(&actions);
}

#[test]
fn complete_in_reminders_with_priority_9_drops_today() {
    let eid = "eid-6";
    let mut item = synced_item(eid, "Task");
    item.fields.priority = 9;
    let reminders = vec![ReminderBuilder::new(eid)
        .title("Task")
        .priority(9)
        .completed("2026-02-24")
        .modified(recent_time())
        .build()];
    let tasks = vec![task_from_line(&format!("Task @today eid:{eid}"))];
    let state = state_with_items(vec![item]);
    let config = default_config();
    let actions = compute_sync_actions(
        &reminders,
        &tasks,
        &state,
        &config,
        now(),
        Some(past_time()),
    );
    assert_updates_task(&actions, eid);
    if let Some(SyncAction::UpdateTask { updated_task, .. }) = actions.iter().find(|a| {
        if let SyncAction::UpdateTask { eid: e, .. } = a {
            e.as_str() == eid
        } else {
            false
        }
    }) {
        assert!(
            !updated_task.contexts.contains(&"today".to_string()),
            "@today must be dropped for completed task"
        );
    }
}

#[test]
fn complete_preserves_other_fields() {
    let eid = "eid-7";
    let mut item = synced_item(eid, "Task");
    item.fields.due_date = Some("2026-03-01".to_string());
    item.fields.notes = Some("Some note".to_string());
    let reminders = vec![ReminderBuilder::new(eid)
        .title("Task")
        .due("2026-03-01")
        .notes("Some note")
        .completed("2026-02-24")
        .modified(recent_time())
        .build()];
    let tasks = vec![task_from_line(&format!(
        "Task due:2026-03-01 note:Some note eid:{eid}"
    ))];
    let state = state_with_items(vec![item]);
    let config = default_config();
    let actions = compute_sync_actions(
        &reminders,
        &tasks,
        &state,
        &config,
        now(),
        Some(past_time()),
    );
    assert_updates_task(&actions, eid);
    if let Some(SyncAction::UpdateTask { updated_task, .. }) = actions.iter().find(|a| {
        if let SyncAction::UpdateTask { eid: e, .. } = a {
            e.as_str() == eid
        } else {
            false
        }
    }) {
        let line = updated_task.to_line();
        assert!(line.contains("eid:"), "eid tag must survive completion");
        assert!(line.contains("due:"), "due date must survive completion");
    }
}

#[test]
fn both_sides_uncomplete_produces_no_action() {
    let eid = "eid-8";
    let item = synced_item(eid, "Task"); // already synced as uncompleted
    let reminders = vec![ReminderBuilder::new(eid).title("Task").build()];
    let tasks = vec![task_with_eid(eid, "Task")];
    let state = state_with_items(vec![item]);
    let config = default_config();
    let actions = compute_sync_actions(
        &reminders,
        &tasks,
        &state,
        &config,
        now(),
        Some(past_time()),
    );
    assert_no_action(&actions);
}

#[test]
fn reminder_deleted_removes_task() {
    let eid = "eid-1";
    let task = task_with_eid(eid, "Some task");
    let mut item = synced_item(eid, "Some task");
    item.task_line_hash = task_line_hash(&task); // hash matches → task unchanged → deletion wins
    let reminders = vec![]; // reminder gone
    let tasks = vec![task];
    let state = state_with_items(vec![item]);
    let config = default_config();
    let actions = compute_sync_actions(&reminders, &tasks, &state, &config, now(), None);
    assert_deletes_task(&actions, eid);
}

#[test]
fn task_deleted_removes_reminder() {
    let eid = "eid-2";
    let reminders = vec![ReminderBuilder::new(eid).title("Some task").build()];
    let tasks = vec![]; // task gone
    let state = state_with_items(vec![synced_item(eid, "Some task")]);
    let config = default_config();
    let actions = compute_sync_actions(
        &reminders,
        &tasks,
        &state,
        &config,
        now(),
        Some(recent_time()),
    );
    assert_deletes_reminder(&actions, eid);
}

#[test]
fn both_deleted_just_removes_state() {
    let eid = "eid-3";
    let reminders = vec![];
    let tasks = vec![];
    let state = state_with_items(vec![synced_item(eid, "Some task")]);
    let config = default_config();
    let actions = compute_sync_actions(
        &reminders,
        &tasks,
        &state,
        &config,
        now(),
        Some(past_time()),
    );
    // Both sides gone — no need to emit a delete for either
    assert!(
        !actions.iter().any(|a| {
            if let SyncAction::DeleteTask { eid: e } = a {
                e.as_str() == eid
            } else {
                false
            }
        }),
        "Should not emit DeleteTask when task is already gone"
    );
    assert!(
        !actions.iter().any(|a| {
            if let SyncAction::DeleteReminder { eid: e } = a {
                e.as_str() == eid
            } else {
                false
            }
        }),
        "Should not emit DeleteReminder when reminder is already gone"
    );
}

#[test]
fn reminder_deleted_does_not_affect_unrelated_tasks() {
    let eid = "eid-deleted";
    let other_eid = "eid-other";
    let deleted_task = task_with_eid(eid, "Deleted reminder's task");
    let other_task = task_with_eid(other_eid, "Unrelated task");
    // eid-deleted reminder is gone; eid-other reminder still exists
    let reminders = vec![ReminderBuilder::new(other_eid)
        .title("Unrelated task")
        .build()];
    let mut del_item = synced_item(eid, "Deleted reminder's task");
    del_item.task_line_hash = task_line_hash(&deleted_task); // hash matches → unchanged
    let state = state_with_items(vec![del_item, synced_item(other_eid, "Unrelated task")]);
    let tasks = vec![deleted_task, other_task];
    let config = default_config();
    let actions = compute_sync_actions(&reminders, &tasks, &state, &config, now(), None);
    assert_deletes_task(&actions, eid);
    assert!(
        !actions.iter().any(|a| {
            if let SyncAction::DeleteTask { eid: e } = a {
                e.as_str() == other_eid
            } else {
                false
            }
        }),
        "Unrelated task must not be deleted"
    );
}

#[test]
fn task_without_eid_not_in_state_is_preserved() {
    let reminders = vec![];
    let tasks = vec![local_task("Local task no eid")];
    let state = empty_state();
    let config = default_config();
    let actions = compute_sync_actions(
        &reminders,
        &tasks,
        &state,
        &config,
        now(),
        Some(recent_time()),
    );
    // Engine should not delete a local task — it may create a reminder for it
    assert!(!actions
        .iter()
        .any(|a| matches!(a, SyncAction::DeleteTask { .. })));
}

#[test]
fn task_with_eid_not_in_state_is_preserved() {
    // eid present in task but absent from sync state → treat as orphan/new, not deleted
    let eid = "eid-orphan";
    let reminders = vec![];
    let tasks = vec![task_with_eid(eid, "Orphan task")];
    let state = empty_state();
    let config = default_config();
    let actions = compute_sync_actions(
        &reminders,
        &tasks,
        &state,
        &config,
        now(),
        Some(recent_time()),
    );
    assert!(
        !actions.iter().any(|a| {
            if let SyncAction::DeleteTask { eid: e } = a {
                e.as_str() == eid
            } else {
                false
            }
        }),
        "Orphan eid task should not be deleted"
    );
}

#[test]
fn delete_from_reminders_cleans_state_entry() {
    let eid = "eid-del";
    let task = task_with_eid(eid, "Task");
    let mut item = synced_item(eid, "Task");
    item.task_line_hash = task_line_hash(&task); // hash matches → unchanged → DeleteTask
    let reminders = vec![];
    let tasks = vec![task.clone()];
    let state = state_with_items(vec![item]);
    let config = default_config();
    let actions = compute_sync_actions(&reminders, &tasks, &state, &config, now(), None);
    let (_, new_state) = apply_task_actions(&actions, vec![task], &state, &config, now());
    assert!(
        !new_state.items.contains_key(eid),
        "Deleted eid should be removed from sync state"
    );
}

#[test]
fn archived_task_treated_as_deletion() {
    // Task with known eid is absent from the list → treated as deleted
    let eid = "eid-arch";
    let reminders = vec![ReminderBuilder::new(eid).title("Archived task").build()];
    let tasks = vec![]; // moved to done.txt or otherwise absent
    let state = state_with_items(vec![synced_item(eid, "Archived task")]);
    let config = default_config();
    let actions = compute_sync_actions(
        &reminders,
        &tasks,
        &state,
        &config,
        now(),
        Some(recent_time()),
    );
    assert_deletes_reminder(&actions, eid);
}

#[test]
fn delete_multiple_items() {
    let eid1 = "eid-1";
    let eid2 = "eid-2";
    let task1 = task_with_eid(eid1, "Task 1");
    let task2 = task_with_eid(eid2, "Task 2");
    let mut item1 = synced_item(eid1, "Task 1");
    item1.task_line_hash = task_line_hash(&task1);
    let mut item2 = synced_item(eid2, "Task 2");
    item2.task_line_hash = task_line_hash(&task2);
    let reminders = vec![]; // both reminders deleted
    let tasks = vec![task1, task2];
    let state = state_with_items(vec![item1, item2]);
    let config = default_config();
    let actions = compute_sync_actions(&reminders, &tasks, &state, &config, now(), None);
    assert_deletes_task(&actions, eid1);
    assert_deletes_task(&actions, eid2);
}

#[test]
fn delete_reminder_for_completed_task_still_works() {
    let eid = "eid-cdel";
    let task = completed_task_with_eid(eid, "Done task");
    let mut item = synced_item(eid, "Done task");
    item.fields.is_completed = true;
    item.task_line_hash = task_line_hash(&task); // hash matches → unchanged → DeleteTask
    let reminders = vec![];
    let tasks = vec![task];
    let state = state_with_items(vec![item]);
    let config = default_config();
    let actions = compute_sync_actions(&reminders, &tasks, &state, &config, now(), None);
    assert_deletes_task(&actions, eid);
}

#[test]
fn conflict_title_changed_both_sides_lww_reminders_wins() {
    let eid = "eid-1";
    // Reminder was modified more recently → reminder title wins
    let reminders = vec![ReminderBuilder::new(eid)
        .title("Reminder Title")
        .modified(recent_time())
        .build()];
    let tasks = vec![task_with_eid(eid, "Task Title")];
    let state = state_with_items(vec![synced_item(eid, "Old Title")]);
    let config = default_config();
    let actions = compute_sync_actions(
        &reminders,
        &tasks,
        &state,
        &config,
        now(),
        Some(recent_time()),
    );
    // Reminder newer: update task only
    assert_updates_task(&actions, eid);
    assert!(
        !actions.iter().any(|a| {
            if let SyncAction::UpdateReminder { eid: e, .. } = a {
                e.as_str() == eid
            } else {
                false
            }
        }),
        "Should not update reminder when it is the newer side"
    );
}

#[test]
fn conflict_title_changed_both_sides_lww_task_wins() {
    let eid = "eid-2";
    // Task modified more recently → task title wins
    let reminders = vec![ReminderBuilder::new(eid)
        .title("Reminder Title")
        .modified(past_time())
        .build()];
    let tasks = vec![task_with_eid(eid, "Task Title")];
    let state = state_with_items(vec![synced_item(eid, "Old Title")]);
    let config = default_config();
    let actions = compute_sync_actions(
        &reminders,
        &tasks,
        &state,
        &config,
        now(),
        Some(recent_time()),
    );
    // Task newer: update reminder only
    assert_updates_reminder(&actions, eid);
    assert!(
        !actions.iter().any(|a| {
            if let SyncAction::UpdateTask { eid: e, .. } = a {
                e.as_str() == eid
            } else {
                false
            }
        }),
        "Should not update task when it is the newer side"
    );
}

#[test]
fn conflict_different_fields_changed_merges_both() {
    let eid = "eid-3";
    // Reminder changed its title; task changed its due date → merge both changes
    let mut item = synced_item(eid, "Old Title");
    item.fields.due_date = None;
    let reminders = vec![ReminderBuilder::new(eid)
        .title("New Title")
        .modified(recent_time())
        .build()];
    let tasks = vec![task_from_line(&format!(
        "Old Title due:2026-04-01 eid:{eid}"
    ))];
    let state = state_with_items(vec![item]);
    let config = default_config();
    let actions = compute_sync_actions(
        &reminders,
        &tasks,
        &state,
        &config,
        now(),
        Some(recent_time()),
    );
    // Different fields → MergeConflict or (UpdateTask + UpdateReminder)
    let has_merge = actions
        .iter()
        .any(|a| matches!(a, SyncAction::MergeConflict { .. }));
    let has_both_updates = actions.iter().any(|a| {
        if let SyncAction::UpdateTask { eid: e, .. } = a {
            e.as_str() == eid
        } else {
            false
        }
    }) && actions.iter().any(|a| {
        if let SyncAction::UpdateReminder { eid: e, .. } = a {
            e.as_str() == eid
        } else {
            false
        }
    });
    assert!(
        has_merge || has_both_updates,
        "Expected merge or coordinated update for non-overlapping field changes"
    );
}

#[test]
fn conflict_reminder_completed_task_title_changed() {
    let eid = "eid-4";
    let reminders = vec![ReminderBuilder::new(eid)
        .title("Task")
        .completed("2026-02-24")
        .modified(recent_time())
        .build()];
    let tasks = vec![task_with_eid(eid, "Changed Title")];
    let state = state_with_items(vec![synced_item(eid, "Task")]);
    let config = default_config();
    let actions = compute_sync_actions(
        &reminders,
        &tasks,
        &state,
        &config,
        now(),
        Some(recent_time()),
    );
    assert!(
        !actions.is_empty(),
        "Expected at least one action for completion/title conflict"
    );
}

#[test]
fn conflict_both_completed_with_different_dates() {
    let eid = "eid-5";
    let mut item = synced_item(eid, "Task");
    item.fields.is_completed = false; // was not completed at last sync
    let reminders = vec![ReminderBuilder::new(eid)
        .title("Task")
        .completed("2026-02-23")
        .modified(recent_time())
        .build()];
    let tasks = vec![task_from_line(&format!(
        "x 2026-02-24 2026-02-01 Task eid:{eid}"
    ))];
    let state = state_with_items(vec![item]);
    let config = default_config();
    let actions = compute_sync_actions(
        &reminders,
        &tasks,
        &state,
        &config,
        now(),
        Some(recent_time()),
    );
    assert!(
        !actions.is_empty(),
        "Expected action to reconcile different completion dates"
    );
}

#[test]
fn conflict_task_completed_reminder_deleted_resurrects() {
    // Task changed (completed) since last sync → task wins → resurrect the reminder.
    // The stored hash is for the uncompleted baseline; the completed task has a
    // different hash → task_changed = true → ResurrectReminder.
    let eid = "eid-6";
    let baseline_task = task_from_line(&format!("Task eid:{eid}"));
    let mut item = synced_item(eid, "Task");
    item.task_line_hash = task_line_hash(&baseline_task); // hash of uncompleted baseline
    let reminders = vec![]; // reminder gone
    let tasks = vec![task_from_line(&format!(
        "x 2026-02-24 2026-02-01 Task eid:{eid}"
    ))];
    let state = state_with_items(vec![item]);
    let config = default_config();
    let actions = compute_sync_actions(&reminders, &tasks, &state, &config, now(), None);
    assert_resurrects_reminder(&actions, eid);
}

#[test]
fn conflict_task_unchanged_reminder_deleted_deletes() {
    // Task unchanged since last sync → reminder deletion wins → delete the task.
    // The stored hash matches the current task → task_changed = false → DeleteTask.
    let eid = "eid-7";
    let current_task = task_from_line(&format!("Task eid:{eid}"));
    let mut item = synced_item(eid, "Task");
    item.task_line_hash = task_line_hash(&current_task); // hash matches current task
    let reminders = vec![]; // reminder gone
    let tasks = vec![current_task];
    let state = state_with_items(vec![item]);
    let config = default_config();
    let actions = compute_sync_actions(&reminders, &tasks, &state, &config, now(), None);
    assert_deletes_task(&actions, eid);
}

#[test]
fn conflict_reminder_modified_task_deleted_resurrects() {
    // Reminder changed since last sync → reminder wins → resurrect the task.
    // Stored hash is for baseline title "Task"; current reminder has "Modified Reminder"
    // → different hash → reminder_changed = true → ResurrectTask.
    let eid = "eid-8";
    let baseline_reminder = ReminderBuilder::new(eid).title("Task").build();
    let mut item = synced_item(eid, "Task");
    item.reminders_field_hash =
        synced_field_hash(&build_field_state_from_reminder(&baseline_reminder));
    let reminders = vec![ReminderBuilder::new(eid)
        .title("Modified Reminder")
        .modified(recent_time())
        .build()];
    let tasks = vec![]; // task gone
    let state = state_with_items(vec![item]);
    let config = default_config();
    let actions = compute_sync_actions(&reminders, &tasks, &state, &config, now(), None);
    assert_resurrects_task(&actions, eid);
}

#[test]
fn conflict_reminder_unchanged_task_deleted_deletes() {
    // Reminder unchanged since last sync → task deletion wins → delete the reminder.
    // Stored hash matches current reminder → reminder_changed = false → DeleteReminder.
    let eid = "eid-9";
    let current_reminder = ReminderBuilder::new(eid).title("Task").build();
    let mut item = synced_item(eid, "Task");
    item.reminders_field_hash =
        synced_field_hash(&build_field_state_from_reminder(&current_reminder));
    let reminders = vec![current_reminder];
    let tasks = vec![]; // task gone
    let state = state_with_items(vec![item]);
    let config = default_config();
    let actions = compute_sync_actions(&reminders, &tasks, &state, &config, now(), None);
    assert_deletes_reminder(&actions, eid);
}

#[test]
fn reminder_completed_on_remote_marks_task_done() {
    // Simulates fetching with include_completed=true: the completed reminder
    // is present in the reminders slice.  Case A → three_way_diff detects
    // is_completed changed → UpdateTask.
    let eid = "eid-remote-complete";
    let reminders = vec![ReminderBuilder::new(eid)
        .title("Daily feeding")
        .completed("2026-02-26")
        .modified(recent_time())
        .build()];
    let tasks = vec![task_with_eid(eid, "Daily feeding")];
    let state = state_with_items(vec![synced_item(eid, "Daily feeding")]);
    let config = default_config();
    let actions = compute_sync_actions(
        &reminders,
        &tasks,
        &state,
        &config,
        now(),
        Some(past_time()),
    );
    assert_updates_task(&actions, eid);
    // Verify the updated task is marked as completed.
    if let Some(SyncAction::UpdateTask { updated_task, .. }) = actions
        .iter()
        .find(|a| matches!(a, SyncAction::UpdateTask { .. }))
    {
        assert!(
            updated_task.finished,
            "Task should be marked as completed when reminder is completed"
        );
    }
    // Must not produce a ResurrectReminder — that would undo the completion.
    assert!(
        !actions
            .iter()
            .any(|a| matches!(a, SyncAction::ResurrectReminder { .. })),
        "ResurrectReminder must not fire when reminder was completed remotely"
    );
}

#[test]
fn completed_reminder_with_absent_task_no_action() {
    // Case C guard: completed reminder, task already gone → skip.
    // Do not attempt to resurrect from a completed reminder.
    let eid = "eid-done-gone";
    let reminders = vec![ReminderBuilder::new(eid)
        .title("Done thing")
        .completed("2026-02-25")
        .modified(recent_time())
        .build()];
    let tasks = vec![]; // task already absent
    let state = state_with_items(vec![synced_item(eid, "Done thing")]);
    let config = default_config();
    let actions =
        compute_sync_actions(&reminders, &tasks, &state, &config, now(), Some(old_time()));
    assert!(
        !actions
            .iter()
            .any(|a| matches!(a, SyncAction::ResurrectTask { .. })),
        "Should not resurrect task from a completed reminder"
    );
    assert!(
        !actions
            .iter()
            .any(|a| matches!(a, SyncAction::DeleteReminder { .. })),
        "Should not delete a completed reminder"
    );
}

#[test]
fn conflict_notes_changed_both_sides_no_action() {
    // Notes no longer round-trip through todo.txt; any apparent note
    // difference should not trigger a sync action.
    let eid = "eid-10";
    let mut item = synced_item(eid, "Task");
    item.fields.notes = Some("Original note".to_string());
    let reminders = vec![ReminderBuilder::new(eid)
        .title("Task")
        .notes("Reminder note")
        .modified(recent_time())
        .build()];
    let tasks = vec![task_with_eid(eid, "Task")];
    let state = state_with_items(vec![item]);
    let config = default_config();
    let actions = compute_sync_actions(
        &reminders,
        &tasks,
        &state,
        &config,
        now(),
        Some(recent_time()),
    );
    assert!(
        !actions.iter().any(|a| matches!(
            a,
            SyncAction::UpdateTask { .. } | SyncAction::MergeConflict { .. }
        )),
        "notes-only difference must not produce any sync action"
    );
}

#[test]
fn conflict_priority_changed_both_sides() {
    // Both sides converge on @today (priority 9) → effectively no conflict
    let eid = "eid-11";
    let mut item = synced_item(eid, "Task");
    item.fields.priority = 0;
    let reminders = vec![ReminderBuilder::new(eid).title("Task").priority(9).build()];
    let tasks = vec![task_from_line(&format!("Task @today eid:{eid}"))];
    let state = state_with_items(vec![item]);
    let config = default_config();
    let actions = compute_sync_actions(
        &reminders,
        &tasks,
        &state,
        &config,
        now(),
        Some(recent_time()),
    );
    // Both sides set the same effective priority → no MergeConflict needed
    assert!(!actions
        .iter()
        .any(|a| matches!(a, SyncAction::MergeConflict { .. })));
}

#[test]
fn no_conflict_when_same_field_changed_to_same_value() {
    let eid = "eid-12";
    let mut item = synced_item(eid, "Old Title");
    item.fields.title = "Old Title".to_string();
    let reminders = vec![ReminderBuilder::new(eid)
        .title("New Title")
        .modified(recent_time())
        .build()];
    let tasks = vec![task_with_eid(eid, "New Title")];
    let state = state_with_items(vec![item]);
    let config = default_config();
    let actions = compute_sync_actions(
        &reminders,
        &tasks,
        &state,
        &config,
        now(),
        Some(recent_time()),
    );
    // Both sides already agree on the new value → no conflict
    assert!(!actions
        .iter()
        .any(|a| matches!(a, SyncAction::MergeConflict { .. })));
}

#[test]
fn conflict_resolution_updates_sync_state() {
    let eid = "eid-13";
    let reminders = vec![ReminderBuilder::new(eid)
        .title("New Title")
        .modified(recent_time())
        .build()];
    let tasks = vec![task_with_eid(eid, "Old Title")];
    let state = state_with_items(vec![synced_item(eid, "Old Title")]);
    let config = default_config();
    let actions = compute_sync_actions(
        &reminders,
        &tasks,
        &state,
        &config,
        now(),
        Some(past_time()),
    );
    let (_, new_state) = apply_task_actions(
        &actions,
        vec![task_with_eid(eid, "Old Title")],
        &state,
        &config,
        now(),
    );
    assert_eq!(
        new_state
            .items
            .get(eid)
            .expect("state entry must exist")
            .fields
            .title,
        "New Title"
    );
}

#[test]
fn auto_context_filters_tasks_to_matching_context() {
    let shopping_eid = "eid-shop";
    let other_eid = "eid-other";
    let reminders = vec![ReminderBuilder::new(shopping_eid).list("Shopping").build()];
    let tasks = vec![
        task_from_line(&format!("Shopping task @shopping eid:{shopping_eid}")),
        task_from_line(&format!("Other task @work eid:{other_eid}")),
    ];
    let state = state_with_items(vec![
        synced_item(shopping_eid, "Shopping task"),
        synced_item(other_eid, "Other task"),
    ]);
    let config = shopping_config();
    let actions = compute_sync_actions(
        &reminders,
        &tasks,
        &state,
        &config,
        now(),
        Some(past_time()),
    );
    // @work task must not be touched by the shopping list sync
    assert!(
        !actions.iter().any(|a| {
            if let SyncAction::DeleteTask { eid: e } = a {
                e.as_str() == other_eid
            } else {
                false
            }
        }),
        "@work task must not be deleted by shopping list sync"
    );
    assert!(
        !actions.iter().any(|a| {
            if let SyncAction::UpdateTask { eid: e, .. } = a {
                e.as_str() == other_eid
            } else {
                false
            }
        }),
        "@work task must not be updated by shopping list sync"
    );
}

#[test]
fn auto_context_added_to_new_tasks_from_reminders() {
    let eid = "eid-new";
    let reminders = vec![ReminderBuilder::new(eid)
        .title("Buy apples")
        .list("Shopping")
        .build()];
    let tasks = vec![];
    let state = empty_state();
    let config = shopping_config();
    let actions = compute_sync_actions(&reminders, &tasks, &state, &config, now(), None);
    assert_creates_task(&actions, eid);
    if let Some(SyncAction::CreateTask { reminder, .. }) = actions
        .iter()
        .find(|a| matches!(a, SyncAction::CreateTask { .. }))
    {
        assert_eq!(reminder.list, "Shopping");
    }
}

#[test]
fn auto_context_preserved_on_update() {
    let eid = "eid-upd";
    let mut item = synced_item(eid, "Old Title");
    item.fields.list = "Shopping".to_string();
    let reminders = vec![ReminderBuilder::new(eid)
        .title("New Title")
        .list("Shopping")
        .modified(recent_time())
        .build()];
    let tasks = vec![task_from_line(&format!("Old Title @shopping eid:{eid}"))];
    let state = state_with_items(vec![item]);
    let config = shopping_config();
    let actions = compute_sync_actions(
        &reminders,
        &tasks,
        &state,
        &config,
        now(),
        Some(past_time()),
    );
    assert_updates_task(&actions, eid);
    if let Some(SyncAction::UpdateTask { updated_task, .. }) = actions.iter().find(|a| {
        if let SyncAction::UpdateTask { eid: e, .. } = a {
            e.as_str() == eid
        } else {
            false
        }
    }) {
        assert!(
            updated_task.contexts.contains(&"shopping".to_string()),
            "@shopping context must be preserved on update"
        );
    }
}

#[test]
fn default_list_no_auto_context() {
    let eid = "eid-def";
    let reminders = vec![ReminderBuilder::new(eid).title("Plain task").build()];
    let tasks = vec![];
    let state = empty_state();
    let config = default_config(); // no auto_context
    let actions = compute_sync_actions(&reminders, &tasks, &state, &config, now(), None);
    assert_creates_task(&actions, eid);
    if let Some(SyncAction::CreateTask { reminder, .. }) = actions
        .iter()
        .find(|a| matches!(a, SyncAction::CreateTask { .. }))
    {
        assert_eq!(reminder.list, "Tasks");
    }
}

#[test]
fn new_task_with_matching_context_creates_reminder_in_correct_list() {
    let reminders = vec![];
    let tasks = vec![local_task("Buy bananas @shopping")];
    let state = empty_state();
    let config = shopping_config();
    let actions = compute_sync_actions(
        &reminders,
        &tasks,
        &state,
        &config,
        now(),
        Some(recent_time()),
    );
    assert_creates_reminder(&actions);
    if let Some(SyncAction::CreateReminder { target_list, .. }) = actions
        .iter()
        .find(|a| matches!(a, SyncAction::CreateReminder { .. }))
    {
        assert_eq!(target_list.as_str(), "Shopping");
    }
}

#[test]
fn task_without_matching_context_ignored_by_list_config() {
    let reminders = vec![];
    let tasks = vec![local_task("Some work task @work")];
    let state = empty_state();
    let config = shopping_config();
    let actions = compute_sync_actions(
        &reminders,
        &tasks,
        &state,
        &config,
        now(),
        Some(recent_time()),
    );
    assert!(
        !actions.iter().any(|a| {
            if let SyncAction::CreateReminder { target_list, .. } = a {
                target_list.as_str() == "Shopping"
            } else {
                false
            }
        }),
        "@work task must not create a reminder in Shopping list"
    );
}

#[test]
fn project_tag_from_list_name_snake_cased() {
    // Reminders from "My Shopping" list → tasks should have +my_shopping
    let eid = "eid-proj";
    let reminders = vec![ReminderBuilder::new(eid)
        .title("Buy things")
        .list("My Shopping")
        .build()];
    let tasks = vec![];
    let state = empty_state();
    let config = ListSyncConfig {
        reminders_list: "My Shopping".to_string(),
        ..Default::default()
    };
    let actions = compute_sync_actions(&reminders, &tasks, &state, &config, now(), None);
    assert_creates_task(&actions, eid);
}

#[test]
fn sync_across_two_lists_independently() {
    let tasks_eid = "eid-tasks";
    let shop_eid = "eid-shop";

    // Tasks list sync: one new reminder
    let tasks_reminders = vec![ReminderBuilder::new(tasks_eid)
        .title("Work task")
        .list("Tasks")
        .build()];
    let tasks_config = default_config();
    let all_tasks: Vec<Task> = vec![];
    let tasks_state = empty_state();
    let actions1 = compute_sync_actions(
        &tasks_reminders,
        &all_tasks,
        &tasks_state,
        &tasks_config,
        now(),
        None,
    );
    assert_creates_task(&actions1, tasks_eid);

    // Shopping list sync: one new reminder
    let shop_reminders = vec![ReminderBuilder::new(shop_eid)
        .title("Shopping thing")
        .list("Shopping")
        .build()];
    let shop_config = shopping_config();
    let shop_state = empty_state();
    let actions2 = compute_sync_actions(
        &shop_reminders,
        &all_tasks,
        &shop_state,
        &shop_config,
        now(),
        None,
    );
    assert_creates_task(&actions2, shop_eid);

    // The two sync calls must be independent
    assert!(
        !actions1.iter().any(|a| {
            if let SyncAction::CreateTask { eid: e, .. } = a {
                e.as_str() == shop_eid
            } else {
                false
            }
        }),
        "Tasks list sync must not create Shopping reminder's task"
    );
    assert!(
        !actions2.iter().any(|a| {
            if let SyncAction::CreateTask { eid: e, .. } = a {
                e.as_str() == tasks_eid
            } else {
                false
            }
        }),
        "Shopping list sync must not create Tasks reminder's task"
    );
}

#[test]
fn initial_sync_empty_state_creates_all() {
    let reminders = vec![
        ReminderBuilder::new("eid-1").title("Task A").build(),
        ReminderBuilder::new("eid-2").title("Task B").build(),
    ];
    let tasks = vec![];
    let state = empty_state();
    let config = default_config();
    let actions = compute_sync_actions(&reminders, &tasks, &state, &config, now(), None);
    assert_creates_task(&actions, "eid-1");
    assert_creates_task(&actions, "eid-2");
}

#[test]
fn build_initial_state_captures_all_synced_items() {
    let reminders = vec![
        ReminderBuilder::new("eid-1").title("Task A").build(),
        ReminderBuilder::new("eid-2").title("Task B").build(),
    ];
    let tasks = vec![
        task_with_eid("eid-1", "Task A"),
        task_with_eid("eid-2", "Task B"),
    ];
    let (state, reconciled) = build_initial_state(&reminders, &tasks, now());
    assert!(state.items.contains_key("eid-1"));
    assert!(state.items.contains_key("eid-2"));
    assert_eq!(state.items.get("eid-1").unwrap().fields.title, "Task A");
    assert!(
        reconciled.is_empty(),
        "EID-matched items must not appear in reconciled vec"
    );
}

#[test]
fn state_updated_after_create_task() {
    let eid = "eid-new";
    let reminders = vec![ReminderBuilder::new(eid).title("New Task").build()];
    let tasks = vec![];
    let state = empty_state();
    let config = default_config();
    let actions = compute_sync_actions(&reminders, &tasks, &state, &config, now(), None);
    let (_, new_state) = apply_task_actions(&actions, vec![], &state, &config, now());
    assert!(
        new_state.items.contains_key(eid),
        "State must contain new item after CreateTask"
    );
}

#[test]
fn state_updated_after_update_task() {
    let eid = "eid-upd";
    let reminders = vec![ReminderBuilder::new(eid)
        .title("Updated Title")
        .modified(recent_time())
        .build()];
    let tasks = vec![task_with_eid(eid, "Old Title")];
    let state = state_with_items(vec![synced_item(eid, "Old Title")]);
    let config = default_config();
    let actions = compute_sync_actions(
        &reminders,
        &tasks,
        &state,
        &config,
        now(),
        Some(past_time()),
    );
    let (_, new_state) = apply_task_actions(
        &actions,
        vec![task_with_eid(eid, "Old Title")],
        &state,
        &config,
        now(),
    );
    assert_eq!(new_state.items.get(eid).unwrap().fields.title, "Updated Title");
}

#[test]
fn state_cleaned_after_delete() {
    let eid = "eid-del";
    let task = task_with_eid(eid, "Task");
    let mut item = synced_item(eid, "Task");
    item.task_line_hash = task_line_hash(&task); // hash matches → unchanged → DeleteTask
    let reminders = vec![];
    let tasks = vec![task.clone()];
    let state = state_with_items(vec![item]);
    let config = default_config();
    let actions = compute_sync_actions(&reminders, &tasks, &state, &config, now(), None);
    let (_, new_state) = apply_task_actions(&actions, vec![task], &state, &config, now());
    assert!(
        !new_state.items.contains_key(eid),
        "Deleted eid must be removed from sync state"
    );
}

#[test]
fn task_line_hash_changes_when_task_modified() {
    let t1 = task_from_line("Buy milk eid:abc");
    let t2 = task_from_line("Buy cream eid:abc");
    let h1 = task_line_hash(&t1);
    let h2 = task_line_hash(&t2);
    assert_ne!(h1, h2, "Different tasks must produce different hashes");
}

#[test]
fn task_line_hash_stable_for_same_task() {
    let t = task_from_line("Buy milk eid:abc");
    assert_eq!(
        task_line_hash(&t),
        task_line_hash(&t),
        "Same task must always hash the same"
    );
}

#[test]
fn last_sync_time_updated_after_sync() {
    let eid = "eid-1";
    let reminders = vec![ReminderBuilder::new(eid).title("Task").build()];
    let tasks = vec![];
    let state = empty_state();
    let config = default_config();
    let actions = compute_sync_actions(&reminders, &tasks, &state, &config, now(), None);
    let (_, new_state) = apply_task_actions(&actions, vec![], &state, &config, now());
    assert!(
        new_state.last_sync_time.is_some(),
        "last_sync_time must be set after sync"
    );
    assert_eq!(new_state.last_sync_time, Some(now()));
}

#[test]
fn empty_sync_no_reminders_no_tasks_no_state() {
    let reminders: Vec<Reminder> = vec![];
    let tasks: Vec<Task> = vec![];
    let state = empty_state();
    let config = default_config();
    let actions = compute_sync_actions(&reminders, &tasks, &state, &config, now(), None);
    assert_no_action(&actions);
}

#[test]
fn reminder_with_empty_title() {
    let reminders = vec![ReminderBuilder::new("eid-empty").title("").build()];
    let tasks = vec![];
    let state = empty_state();
    let config = default_config();
    // Should not panic — engine handles empty title gracefully
    let _actions = compute_sync_actions(&reminders, &tasks, &state, &config, now(), None);
}

#[test]
fn reminder_with_very_long_notes_no_panic() {
    // Notes are no longer written to todo.txt; engine should not panic
    // regardless of note length.
    let long_notes = "a".repeat(1000);
    let reminders = vec![ReminderBuilder::new("eid-long")
        .title("Task")
        .notes(&long_notes)
        .build()];
    let tasks = vec![];
    let state = empty_state();
    let config = default_config();
    let actions = compute_sync_actions(&reminders, &tasks, &state, &config, now(), None);
    assert_creates_task(&actions, "eid-long");
}

#[test]
fn duplicate_eids_in_tasks_handled_gracefully() {
    let eid = "eid-dup";
    let reminders = vec![ReminderBuilder::new(eid).title("Task").build()];
    let tasks = vec![
        task_with_eid(eid, "Task"),
        task_with_eid(eid, "Task duplicate"),
    ];
    let state = state_with_items(vec![synced_item(eid, "Task")]);
    let config = default_config();
    // Must not panic when duplicate eids are present
    let _actions = compute_sync_actions(
        &reminders,
        &tasks,
        &state,
        &config,
        now(),
        Some(past_time()),
    );
}

#[test]
fn reminder_with_no_last_modified_date() {
    let eid = "eid-nomod";
    let mut r = ReminderBuilder::new(eid).title("Task").build();
    r.last_modified_date = None;
    let tasks = vec![task_with_eid(eid, "Task")];
    let state = state_with_items(vec![synced_item(eid, "Task")]);
    let config = default_config();
    // Must not panic when last_modified_date is absent
    let _actions =
        compute_sync_actions(&[r], &tasks, &state, &config, now(), Some(past_time()));
}

#[test]
fn task_with_extra_tags_preserved() {
    let eid = "eid-extra";
    let reminders = vec![ReminderBuilder::new(eid).title("Recurring task").build()];
    let tasks = vec![task_from_line(&format!(
        "Recurring task rec:1w t:2026-03-01 h:1 eid:{eid}"
    ))];
    let state = state_with_items(vec![synced_item(eid, "Recurring task")]);
    let config = default_config();
    let actions = compute_sync_actions(
        &reminders,
        &tasks,
        &state,
        &config,
        now(),
        Some(past_time()),
    );
    // If an update is produced, TTDL-specific tags must survive
    if let Some(SyncAction::UpdateTask { updated_task, .. }) = actions.iter().find(|a| {
        if let SyncAction::UpdateTask { eid: e, .. } = a {
            e.as_str() == eid
        } else {
            false
        }
    }) {
        let line = updated_task.to_line();
        assert!(line.contains("rec:"), "rec: tag must survive sync");
        assert!(line.contains("t:"), "t: tag must survive sync");
        assert!(line.contains("h:"), "h: tag must survive sync");
    }
}

#[test]
fn large_batch_performance() {
    let count = 1000usize;
    let reminders: Vec<Reminder> = (0..count)
        .map(|i| {
            ReminderBuilder::new(&format!("eid-{i}"))
                .title(&format!("Task {i}"))
                .build()
        })
        .collect();
    let tasks = vec![];
    let state = empty_state();
    let config = default_config();
    let actions = compute_sync_actions(&reminders, &tasks, &state, &config, now(), None);
    assert_eq!(
        actions
            .iter()
            .filter(|a| matches!(a, SyncAction::CreateTask { .. }))
            .count(),
        count,
        "All 1000 new reminders should produce CreateTask actions"
    );
}

#[test]
fn apply_actions_returns_tasks_in_stable_order() {
    let reminders = vec![
        ReminderBuilder::new("eid-1").title("First").build(),
        ReminderBuilder::new("eid-2").title("Second").build(),
        ReminderBuilder::new("eid-3").title("Third").build(),
    ];
    let tasks = vec![];
    let state = empty_state();
    let config = default_config();
    let actions = compute_sync_actions(&reminders, &tasks, &state, &config, now(), None);
    let (result_tasks, _) = apply_task_actions(&actions, vec![], &state, &config, now());
    // Insertion order is preserved; count must match
    assert_eq!(result_tasks.len(), 3);
}

#[test]
fn stale_state_no_eid_in_file_does_not_delete_reminders() {
    let eid = "eid-stale";
    let reminder = ReminderBuilder::new(eid)
        .title("Gym options in S2")
        .modified(old_time()) // reminder is older than the file
        .build();

    // State says this reminder was previously synced.
    let state = state_with_items(vec![synced_item(eid, "Gym options in S2")]);

    // The output file exists but has NO eid: tags (stale / wrong-path situation).
    let tasks_without_eid = vec![
        local_task("Some unrelated task"),
        local_task("Another task without eid"),
    ];

    let file_mtime = Some(recent_time());

    let config = default_config();
    let actions = compute_sync_actions(
        &[reminder],
        &tasks_without_eid,
        &state,
        &config,
        now(),
        file_mtime,
    );

    assert!(
        !actions
            .iter()
            .any(|a| matches!(a, SyncAction::DeleteReminder { .. })),
        "must not delete reminders when no eid: tags exist in the output file"
    );
    assert!(
        actions
            .iter()
            .any(|a| matches!(a, SyncAction::CreateTask { .. })),
        "should recreate the task from the reminder instead"
    );
}

#[test]
fn completed_task_matching_filter_not_pushed_to_reminders() {
    let reminders = vec![];
    let state = empty_state();
    let config = default_config(); // push_filter = "@today" by default

    let completed = task_from_line("x 2026-02-20 2026-02-01 Old errand @today due:2026-02-15");

    let actions = compute_sync_actions(&reminders, &[completed], &state, &config, now(), None);

    assert!(
        !actions
            .iter()
            .any(|a| matches!(a, SyncAction::CreateReminder { .. })),
        "completed tasks must not be pushed to Reminders as new reminders"
    );
}

#[test]
fn resurrected_task_not_processed_by_second_list() {
    // Simulate the state AFTER list A has already executed ResurrectReminder:
    // - old_eid removed, new_eid inserted with list = "Tasks"
    // - task in current_tasks now carries new_eid
    let new_eid = "eid-resurrected";
    let task = task_from_line(&format!(
        "Finish report @today due:2026-02-26 eid:{new_eid}"
    ));

    let mut state = empty_state();
    {
        let fields = SyncedFieldState {
            title: "Finish report".to_string(),
            priority: 9,
            is_completed: false,
            completion_date: None,
            due_date: Some("2026-02-26".to_string()),
            notes: None,
            list: "Tasks".to_string(), // owned by Tasks, not To-do
        };
        let r_hash = synced_field_hash(&fields);
        state.items.insert(
            new_eid.to_string(),
            SyncItemState {
                eid: new_eid.to_string(),
                fields,
                reminders_last_modified: None,
                task_line_hash: task_line_hash(&task),
                reminders_field_hash: r_hash,
                last_synced: now(),
                pushed: true,
            },
        );
    }

    // List B ("To-do") has no reminder with new_eid — it only has its own reminders.
    let todo_reminders: Vec<Reminder> = vec![];
    let todo_config = ListSyncConfig {
        reminders_list: "To-do".to_string(),
        ..Default::default()
    };

    let actions = compute_sync_actions(
        &todo_reminders,
        &[task],
        &state,
        &todo_config,
        now(),
        Some(recent_time()),
    );

    assert!(
        !actions
            .iter()
            .any(|a| matches!(a, SyncAction::ResurrectReminder { .. })),
        "list B must not resurrect a task already owned by list A"
    );
    assert!(
        !actions
            .iter()
            .any(|a| matches!(a, SyncAction::CreateReminder { .. })),
        "list B must not create a new reminder for a task owned by list A"
    );
}

// ----------------------------------------------------------------
// replace_title_in_subject
// ----------------------------------------------------------------

#[test]
fn replace_title_replaces_in_place() {
    let result =
        replace_title_in_subject("Old title @today due:2026-03-01", "Old title", "New title");
    assert_eq!(result, "New title @today due:2026-03-01");
}

#[test]
fn replace_title_replaces_all_nonmeta_words() {
    // Token-based: all non-meta words are treated as the old title and
    // replaced with new_title inserted at the first non-meta position.
    let result = replace_title_in_subject("something else @today", "missing", "New title");
    assert_eq!(result, "New title @today");
}

#[test]
fn replace_title_prepends_when_old_empty() {
    let result = replace_title_in_subject("@today due:2026-03-01", "", "New title");
    assert_eq!(result, "New title @today due:2026-03-01");
}

#[test]
fn replace_title_normalises_whitespace() {
    let result = replace_title_in_subject("Old title  @ctx", "Old title", "New");
    assert_eq!(result, "New @ctx");
}

// ── extract_title ───────────────────────────────────────────────────────────

#[test]
fn extract_title_basic() {
    let t = task_from_line("Buy milk @today due:2026-03-01 eid:abc");
    assert_eq!(extract_title(&t), "Buy milk");
}

#[test]
fn extract_title_no_partial_context_corruption() {
    // @work must not be stripped from @workshop
    let t = task_from_line("Attend @workshop @work eid:abc");
    let title = extract_title(&t);
    assert!(
        !title.contains("shop"),
        "partial context strip must not leave 'shop': got '{title}'"
    );
    assert_eq!(title, "Attend");
}

#[test]
fn extract_title_interleaved_metadata() {
    let t = task_from_line("Buy @store milk eid:abc");
    // "Buy" and "milk" are title words; "@store" is metadata
    assert_eq!(extract_title(&t), "Buy milk");
}

#[test]
fn extract_title_preserves_special_chars() {
    let t = task_from_line("Buy 2% milk eid:abc");
    assert_eq!(extract_title(&t), "Buy 2% milk");
}

#[test]
fn extract_title_all_metadata_empty() {
    let t = task_from_line("@today due:2026-03-01 eid:abc");
    assert_eq!(extract_title(&t), "");
}

// ── New replace_title tests ──────────────────────────────────────────────────

#[test]
fn replace_title_with_interleaved_metadata() {
    // Interleaved @store should stay in place; title words replaced.
    let result = replace_title_in_subject("Buy @store milk", "Buy milk", "New item");
    assert_eq!(result, "New item @store");
}

#[test]
fn replace_title_no_tag_value_collision() {
    // "old" appearing inside a tag value must not be treated as a title word.
    let result =
        replace_title_in_subject("Old task due:2026-old-01 eid:old-abc", "Old task", "New");
    assert_eq!(result, "New due:2026-old-01 eid:old-abc");
}

// ── task_line_hash ──────────────────────────────────────────────────────────

#[test]
fn task_line_hash_ignores_eid_change() {
    // EID reassignment must not count as a task change.
    let t1 = task_from_line("Buy milk @today due:2026-03-01 eid:old-eid");
    let t2 = task_from_line("Buy milk @today due:2026-03-01 eid:new-eid");
    assert_eq!(
        task_line_hash(&t1),
        task_line_hash(&t2),
        "Different eid values must produce the same hash"
    );
}

#[test]
fn task_line_hash_stable_across_parse_roundtrip() {
    let line = "Buy milk @today due:2026-03-01 eid:abc";
    let t1 = task_from_line(line);
    let t2 = task_from_line(line);
    assert_eq!(task_line_hash(&t1), task_line_hash(&t2));
}

#[test]
fn task_line_hash_stable_with_multiple_contexts() {
    // Guards against todo_lib ever non-deterministically iterating contexts.
    let t1 = task_from_line("Buy milk @home @today eid:abc");
    let t2 = task_from_line("Buy milk @home @today eid:abc");
    assert_eq!(task_line_hash(&t1), task_line_hash(&t2));
}

#[test]
fn task_line_hash_stable_with_multiple_tags() {
    let t1 = task_from_line("Buy milk due:2026-03-01 note:hello eid:abc rec:1w");
    let t2 = task_from_line("Buy milk due:2026-03-01 note:hello eid:abc rec:1w");
    assert_eq!(task_line_hash(&t1), task_line_hash(&t2));
}

#[test]
fn task_line_hash_detects_real_change() {
    let t1 = task_from_line("Buy milk eid:abc");
    let t2 = task_from_line("Buy cream eid:abc");
    assert_ne!(task_line_hash(&t1), task_line_hash(&t2));
}

// ── synced_field_hash ───────────────────────────────────────────────────────

#[test]
fn synced_field_hash_stability() {
    let fields = SyncedFieldState {
        title: "Buy milk".to_string(),
        priority: 0,
        is_completed: false,
        completion_date: None,
        due_date: Some("2026-03-01".to_string()),
        notes: None,
        list: "Tasks".to_string(),
    };
    assert_eq!(synced_field_hash(&fields), synced_field_hash(&fields));
}

#[test]
fn synced_field_hash_sensitivity() {
    let f1 = SyncedFieldState {
        title: "Buy milk".to_string(),
        priority: 0,
        is_completed: false,
        completion_date: None,
        due_date: None,
        notes: None,
        list: "Tasks".to_string(),
    };
    let f2 = SyncedFieldState {
        title: "Buy cream".to_string(),
        ..f1.clone()
    };
    assert_ne!(synced_field_hash(&f1), synced_field_hash(&f2));
}

// ── verify_post_sync ────────────────────────────────────────────────────────

#[test]
fn verify_post_sync_clean_state_no_issues() {
    // Happy path: tracked task with correct hash → no issues.
    let task = task_with_eid("eid1", "Buy milk");
    let mut item = synced_item("eid1", "Buy milk");
    item.task_line_hash = task_line_hash(&task);
    let state = state_with_items(vec![item]);
    assert!(verify_post_sync(&[task], &state).is_empty());
}

#[test]
fn verify_post_sync_empty_inputs_no_issues() {
    // Empty task list + empty state is always clean.
    assert!(verify_post_sync(&[], &SyncState::default()).is_empty());
}

#[test]
fn verify_post_sync_untracked_tasks_ignored() {
    // Tasks without eid are not in state — no issue.
    let task = local_task("Buy milk");
    assert!(verify_post_sync(&[task], &SyncState::default()).is_empty());
}

#[test]
fn verify_post_sync_orphan_state_entry_not_reported() {
    // State entry whose eid doesn't appear in tasks is normal (task deleted).
    let item = synced_item("ghost-eid", "Old task");
    let state = state_with_items(vec![item]);
    // No tasks at all — should be silent.
    assert!(verify_post_sync(&[], &state).is_empty());
}

#[test]
fn verify_post_sync_sentinel_eids_ignored() {
    // sentinel eid:na and eid:na/<orig> tasks must be silently skipped.
    let na_task = task_from_line("Local only task eid:na");
    let na_slash = task_from_line("Ejected task eid:na/x-apple-reminder://ABC");
    let ns_slash = task_from_line("Temp eject eid:ns/x-apple-reminder://DEF");
    assert!(verify_post_sync(&[na_task, na_slash, ns_slash], &SyncState::default()).is_empty());
}

#[test]
fn verify_post_sync_detects_duplicate_eid() {
    // Two tasks sharing the same eid should produce one "duplicate" issue.
    let t1 = task_with_eid("shared-eid", "First task");
    let t2 = task_with_eid("shared-eid", "Second task");
    let mut item = synced_item("shared-eid", "First task");
    item.task_line_hash = task_line_hash(&t1);
    let state = state_with_items(vec![item]);
    let issues = verify_post_sync(&[t1, t2], &state);
    assert_eq!(issues.len(), 1, "expected 1 issue, got: {issues:?}");
    assert!(
        issues[0].contains("duplicate eid:shared-eid"),
        "{}",
        issues[0]
    );
}

#[test]
fn verify_post_sync_detects_orphan_task_eid() {
    // Task carries a real eid but no state entry exists.
    let task = task_with_eid("missing-from-state", "Orphan");
    let issues = verify_post_sync(&[task], &SyncState::default());
    assert_eq!(issues.len(), 1, "expected 1 issue, got: {issues:?}");
    assert!(
        issues[0].contains("eid:missing-from-state") && issues[0].contains("no state entry"),
        "{}",
        issues[0]
    );
}

#[test]
fn verify_post_sync_detects_hash_mismatch() {
    // State hash is stale (task was mutated without updating state hash).
    let task = task_with_eid("eid-hash", "Updated subject");
    let mut item = synced_item("eid-hash", "Updated subject");
    item.task_line_hash = 9999; // deliberately wrong
    let state = state_with_items(vec![item]);
    let issues = verify_post_sync(&[task], &state);
    assert_eq!(issues.len(), 1, "expected 1 issue, got: {issues:?}");
    assert!(
        issues[0].contains("hash mismatch") && issues[0].contains("eid:eid-hash"),
        "{}",
        issues[0]
    );
}

#[test]
fn verify_post_sync_multiple_issues_all_reported() {
    // Duplicate + orphan task eid — both issues present simultaneously.
    let t1 = task_with_eid("dup", "Task one");
    let t2 = task_with_eid("dup", "Task two");
    let orphan = task_with_eid("orphan", "No state");
    // State has entry for dup but not orphan.
    let mut item = synced_item("dup", "Task one");
    item.task_line_hash = task_line_hash(&t1);
    let state = state_with_items(vec![item]);
    let issues = verify_post_sync(&[t1, t2, orphan], &state);
    // Expect at least: 1 duplicate + 1 orphan (duplicate suppresses hash check for dup).
    assert!(issues.len() >= 2, "expected ≥2 issues, got: {issues:?}");
    assert!(
        issues.iter().any(|s| s.contains("duplicate eid:dup")),
        "missing duplicate issue: {issues:?}"
    );
    assert!(
        issues
            .iter()
            .any(|s| s.contains("eid:orphan") && s.contains("no state entry")),
        "missing orphan issue: {issues:?}"
    );
}

#[test]
fn delete_reminder_release_path_strips_eid_from_task() {
    let eid = "eid-released";
    let task = task_from_line(&format!("Buy milk eid:{eid}"));
    let mut item = synced_item(eid, "Buy milk");
    item.task_line_hash = task_line_hash(&task);
    let state = state_with_items(vec![item]);

    let action = SyncAction::DeleteReminder {
        eid: eid.to_string(),
    };
    let (tasks, new_state) =
        apply_task_actions(&[action], vec![task], &state, &default_config(), now());

    // Task is kept (not deleted).
    assert_eq!(tasks.len(), 1, "task must remain in the list");
    // eid: tag must be stripped so push_filter can re-admit it to a new list.
    assert!(
        tasks[0].tags.get("eid").is_none(),
        "DeleteReminder in release path must strip eid: tag; got {:?}",
        tasks[0].tags.get("eid")
    );
    // State entry must be removed.
    assert!(
        !new_state.items.contains_key(eid),
        "state entry must be removed"
    );
    // verify_post_sync must report no issues (no orphan eid warning).
    let issues = verify_post_sync(&tasks, &new_state);
    assert!(
        issues.is_empty(),
        "verify_post_sync must be clean after DeleteReminder fix: {issues:?}"
    );
}

#[test]
fn orphan_eid_stripped_by_apply_task_actions() {
    let eid = "eid-orphan";
    let task = task_from_line(&format!("Buy milk eid:{eid}"));

    // No actions, empty state — the orphan cleanup pass must fire.
    let (tasks, new_state) = apply_task_actions(
        &[],
        vec![task],
        &SyncState::default(),
        &default_config(),
        now(),
    );

    assert_eq!(tasks.len(), 1, "task must remain");
    assert!(
        tasks[0].tags.get("eid").is_none(),
        "orphan eid must be stripped; got {:?}",
        tasks[0].tags.get("eid")
    );
    assert!(new_state.items.is_empty(), "state must be empty");

    // verify_post_sync must now report no issues.
    let issues = verify_post_sync(&tasks, &new_state);
    assert!(
        issues.is_empty(),
        "verify_post_sync must be clean after orphan cleanup: {issues:?}"
    );
}

/// A task tracked by another list (eid in state from that list) must NOT
/// have its eid stripped by the orphan cleanup pass.
#[test]
fn orphan_cleanup_does_not_strip_eid_tracked_by_another_list() {
    let eid = "eid-other-list";
    let task = task_from_line(&format!("Buy milk eid:{eid}"));
    // State entry exists (from another list) — task is legitimately tracked.
    let mut item = synced_item(eid, "Buy milk");
    item.task_line_hash = task_line_hash(&task);
    let state = state_with_items(vec![item]);

    let (tasks, _) = apply_task_actions(&[], vec![task], &state, &default_config(), now());

    assert_eq!(
        tasks[0].tags.get("eid").map(|s| s.as_str()),
        Some(eid),
        "eid must not be stripped when a state entry exists"
    );
}

#[test]
fn hash_reconciliation_updates_stale_hash_for_untracked_change() {
    let eid = "eid-untracked";
    // Task has had @joint added — an untracked field change.
    let task = task_from_line(&format!("Buy milk @joint eid:{eid}"));
    let current_hash = task_line_hash(&task);

    // State was recorded before @joint was added → hash is stale.
    let old_hash = task_line_hash(&task_from_line(&format!("Buy milk eid:{eid}")));
    assert_ne!(
        current_hash, old_hash,
        "hashes must differ to set up the test"
    );

    let mut item = synced_item(eid, "Buy milk");
    item.task_line_hash = old_hash;
    let state = state_with_items(vec![item]);

    // No actions — three_way_diff sees no tracked-field change.
    let (tasks, new_state) =
        apply_task_actions(&[], vec![task], &state, &default_config(), now());

    assert_eq!(
        new_state.items.get(eid).unwrap().task_line_hash, current_hash,
        "reconciliation must refresh stale task_line_hash after untracked change"
    );
    // verify_post_sync must report no hash mismatch.
    let issues = verify_post_sync(&tasks, &new_state);
    assert!(
        issues.is_empty(),
        "verify_post_sync must be clean after hash reconciliation: {issues:?}"
    );
}

// ── Case B integration ──────────────────────────────────────────────────────

#[test]
fn verify_post_sync_correct_hash_no_false_positive() {
    // Correct hash must not trigger hash-mismatch issue.
    let task = task_with_eid("eid-ok", "Unchanged task");
    let mut item = synced_item("eid-ok", "Unchanged task");
    item.task_line_hash = task_line_hash(&task);
    let state = state_with_items(vec![item]);
    assert!(verify_post_sync(&[task], &state).is_empty());
}

#[test]
fn case_b_task_unchanged_hash_deletion_wins() {
    // Reminder absent, task present, task hash matches stored → DeleteTask.
    let eid = "eid-b-del";
    let task = task_from_line(&format!("Task eid:{eid}"));
    let mut item = synced_item(eid, "Task");
    item.task_line_hash = task_line_hash(&task); // hash matches → unchanged
    let state = state_with_items(vec![item]);
    let config = default_config();
    let actions = compute_sync_actions(&[], &[task], &state, &config, now(), None);
    assert_deletes_task(&actions, eid);
}

#[test]
fn case_b_task_changed_hash_resurrects() {
    // Reminder absent, task present, task hash differs from stored → ResurrectReminder.
    let eid = "eid-b-res";
    let baseline = task_from_line(&format!("Task eid:{eid}"));
    let current = task_from_line(&format!("Task with extra note eid:{eid}"));
    let mut item = synced_item(eid, "Task");
    item.task_line_hash = task_line_hash(&baseline); // stored hash of old content
    let state = state_with_items(vec![item]);
    let config = default_config();
    let actions = compute_sync_actions(&[], &[current], &state, &config, now(), None);
    assert_resurrects_reminder(&actions, eid);
}

#[test]
fn case_b_zero_stored_hash_treats_as_changed() {
    // Backward compat: stored hash 0 → always "changed" → ResurrectReminder.
    let eid = "eid-b-zero";
    let task = task_from_line(&format!("Task eid:{eid}"));
    let mut item = synced_item(eid, "Task");
    item.task_line_hash = 0; // zero = unknown (old state.json)
    let state = state_with_items(vec![item]);
    let config = default_config();
    let actions = compute_sync_actions(&[], &[task], &state, &config, now(), None);
    assert_resurrects_reminder(&actions, eid);
}

// ── Case C integration ──────────────────────────────────────────────────────

#[test]
fn case_c_reminder_unchanged_hash_deletion_wins() {
    // Task absent, reminder present, reminder hash matches stored → DeleteReminder.
    let eid = "eid-c-del";
    let reminder = ReminderBuilder::new(eid).title("Task").build();
    let mut item = synced_item(eid, "Task");
    item.reminders_field_hash = synced_field_hash(&build_field_state_from_reminder(&reminder));
    let state = state_with_items(vec![item]);
    let config = default_config();
    let actions = compute_sync_actions(&[reminder], &[], &state, &config, now(), None);
    assert_deletes_reminder(&actions, eid);
}

#[test]
fn case_c_reminder_changed_hash_resurrects() {
    // Task absent, reminder present, reminder hash differs → ResurrectTask.
    let eid = "eid-c-res";
    let baseline_reminder = ReminderBuilder::new(eid).title("Task").build();
    let current_reminder = ReminderBuilder::new(eid).title("Updated Task").build();
    let mut item = synced_item(eid, "Task");
    item.reminders_field_hash =
        synced_field_hash(&build_field_state_from_reminder(&baseline_reminder));
    let state = state_with_items(vec![item]);
    let config = default_config();
    let actions = compute_sync_actions(&[current_reminder], &[], &state, &config, now(), None);
    assert_resurrects_task(&actions, eid);
}

// ── Sentinel eids ────────────────────────────────────────────────────────────
//
// Three sentinel forms:
//   eid:na         — permanent local opt-out (never pushed)
//   eid:na/<orig>  — eject reminder <orig>, then simplify to eid:na
//   eid:ns/<orig>  — eject reminder <orig>, then remove eid: entirely
//
// Tests below cover all three, plus edge cases.

#[test]
fn sentinel_eid_na_not_pushed_to_reminders() {
    // A plain eid:na task is never pushed as a new reminder, even if it
    // matches the push_filter.  Empty state, no reminders.
    let task = task_from_line("Buy milk eid:na");
    let config = default_config();
    let actions = compute_sync_actions(&[], &[task], &empty_state(), &config, now(), None);
    assert!(
        !actions
            .iter()
            .any(|a| matches!(a, SyncAction::CreateReminder { .. })),
        "eid:na task must not produce CreateReminder"
    );
}

#[test]
fn sentinel_eid_na_slash_deletes_reminder_unconditionally() {
    // eid:na/ABC → DeleteReminder regardless of whether the reminder was
    // modified since last sync (no hash check, no resurrection).
    let eid = "ABC";
    let reminder = ReminderBuilder::new(eid).title("Buy milk").build();
    // Simulate a reminder that has changed since last sync (hash won't match).
    let mut item = synced_item(eid, "Buy milk");
    item.reminders_field_hash = 0; // force mismatch → would normally ResurrectTask
    let state = state_with_items(vec![item]);
    let task = task_from_line(&format!("Buy milk eid:na/{eid}"));
    let config = default_config();
    let actions = compute_sync_actions(&[reminder], &[task], &state, &config, now(), None);
    assert!(
        actions
            .iter()
            .any(|a| matches!(a, SyncAction::DeleteReminder { eid: e } if e == eid)),
        "eid:na/<eid> must produce DeleteReminder even when reminder hash changed"
    );
    assert!(
        !actions
            .iter()
            .any(|a| matches!(a, SyncAction::ResurrectTask { .. })),
        "eid:na/<eid> must never produce ResurrectTask"
    );
}

#[test]
fn sentinel_eid_ns_slash_deletes_reminder_unconditionally() {
    // eid:ns/ABC behaves identically to eid:na/ABC for the DeleteReminder step.
    let eid = "ABC";
    let reminder = ReminderBuilder::new(eid).title("Buy milk").build();
    let mut item = synced_item(eid, "Buy milk");
    item.reminders_field_hash = 0; // force mismatch → would normally ResurrectTask
    let state = state_with_items(vec![item]);
    let task = task_from_line(&format!("Buy milk eid:ns/{eid}"));
    let config = default_config();
    let actions = compute_sync_actions(&[reminder], &[task], &state, &config, now(), None);
    assert!(
        actions
            .iter()
            .any(|a| matches!(a, SyncAction::DeleteReminder { eid: e } if e == eid)),
        "eid:ns/<eid> must produce DeleteReminder even when reminder hash changed"
    );
    assert!(
        !actions
            .iter()
            .any(|a| matches!(a, SyncAction::ResurrectTask { .. })),
        "eid:ns/<eid> must never produce ResurrectTask"
    );
}

#[test]
fn sentinel_eid_na_slash_not_pushed_to_reminders() {
    // eid:na/<orig> tasks are also suppressed from Step 3, even if the task
    // matches the push_filter and has no state entry for the sentinel eid.
    let task = task_from_line("Buy milk eid:na/GHOST");
    let config = default_config();
    let actions = compute_sync_actions(&[], &[task], &empty_state(), &config, now(), None);
    assert!(
        !actions
            .iter()
            .any(|a| matches!(a, SyncAction::CreateReminder { .. })),
        "eid:na/<orig> must not produce CreateReminder"
    );
}

#[test]
fn sentinel_eid_ns_slash_not_pushed_to_reminders() {
    // eid:ns/<orig> tasks are suppressed from Step 3, same as eid:na/<orig>.
    let task = task_from_line("Buy milk eid:ns/GHOST");
    let config = default_config();
    let actions = compute_sync_actions(&[], &[task], &empty_state(), &config, now(), None);
    assert!(
        !actions
            .iter()
            .any(|a| matches!(a, SyncAction::CreateReminder { .. })),
        "eid:ns/<orig> must not produce CreateReminder"
    );
}

#[test]
fn sentinel_eid_na_prevents_stale_state_trigger() {
    // When the only task in the file carries eid:na, stale_state must NOT
    // fire (the tag counts as a real eid: tag for the heuristic), so Case C
    // produces DeleteReminder rather than CreateTask.
    let eid = "ABC";
    let reminder = ReminderBuilder::new(eid).title("Buy milk").build();
    let mut item = synced_item(eid, "Buy milk");
    // Make reminder hash match so deletion wins (not resurrection).
    item.reminders_field_hash = synced_field_hash(&build_field_state_from_reminder(&reminder));
    let state = state_with_items(vec![item]);
    // Only task in the file — no real eid: tag, just the sentinel.
    let task = task_from_line(&format!("Buy milk eid:na/{eid}"));
    let config = default_config();
    let actions = compute_sync_actions(&[reminder], &[task], &state, &config, now(), None);
    assert!(
        actions
            .iter()
            .any(|a| matches!(a, SyncAction::DeleteReminder { eid: e } if e == eid)),
        "must DeleteReminder even when the sentinel is the only eid: tag in the file"
    );
    assert!(
        !actions
            .iter()
            .any(|a| matches!(a, SyncAction::CreateTask { .. })),
        "stale_state must not fire — must not CreateTask"
    );
}

#[test]
fn sentinel_eid_na_slash_cleans_tag_when_original_eid_gone_from_state() {
    // When the original eid is no longer in state (reminder deleted last
    // sync), emit CleanSentinelTag { sentinel_eid: "na/GONE" }.
    let task = task_from_line("Buy milk eid:na/GONE");
    let config = default_config();
    let actions = compute_sync_actions(&[], &[task], &empty_state(), &config, now(), None);
    assert!(
        actions.iter().any(|a| matches!(
            a,
            SyncAction::CleanSentinelTag { sentinel_eid: s } if s == "na/GONE"
        )),
        "must emit CleanSentinelTag when original eid is absent from state"
    );
}

#[test]
fn sentinel_eid_ns_slash_cleans_tag_when_original_eid_gone_from_state() {
    // eid:ns/GONE → CleanSentinelTag { sentinel_eid: "ns/GONE" } once the
    // original eid is absent from state.
    let task = task_from_line("Buy milk eid:ns/GONE");
    let config = default_config();
    let actions = compute_sync_actions(&[], &[task], &empty_state(), &config, now(), None);
    assert!(
        actions.iter().any(|a| matches!(
            a,
            SyncAction::CleanSentinelTag { sentinel_eid: s } if s == "ns/GONE"
        )),
        "must emit CleanSentinelTag when original eid is absent from state"
    );
}

#[test]
fn sentinel_eid_na_plain_no_cleanup_emitted() {
    // Plain eid:na (no original eid encoded) never produces CleanSentinelTag.
    let task = task_from_line("Buy milk eid:na");
    let config = default_config();
    let actions = compute_sync_actions(&[], &[task], &empty_state(), &config, now(), None);
    assert!(
        !actions
            .iter()
            .any(|a| matches!(a, SyncAction::CleanSentinelTag { .. })),
        "plain eid:na must not produce CleanSentinelTag"
    );
}

#[test]
fn clean_sentinel_tag_na_slash_rewrites_eid_to_na() {
    // apply_task_actions with CleanSentinelTag("na/ABC") → eid:na (permanent opt-out).
    let task = task_from_line("Buy milk eid:na/ABC");
    let action = SyncAction::CleanSentinelTag {
        sentinel_eid: "na/ABC".to_string(),
    };
    let (tasks, _) = apply_task_actions(
        &[action],
        vec![task],
        &empty_state(),
        &default_config(),
        now(),
    );
    assert_eq!(tasks.len(), 1);
    assert_eq!(
        tasks[0].tags.get("eid").map(|s| s.as_str()),
        Some("na"),
        "eid:na/<orig> cleanup must leave eid:na"
    );
}

#[test]
fn clean_sentinel_tag_ns_slash_removes_eid_entirely() {
    // apply_task_actions with CleanSentinelTag("ns/ABC") → eid: tag removed
    // entirely so push_filter re-applies on the next cycle.
    let task = task_from_line("Buy milk eid:ns/ABC");
    let action = SyncAction::CleanSentinelTag {
        sentinel_eid: "ns/ABC".to_string(),
    };
    let (tasks, _) = apply_task_actions(
        &[action],
        vec![task],
        &empty_state(),
        &default_config(),
        now(),
    );
    assert_eq!(tasks.len(), 1);
    assert!(
        tasks[0].tags.get("eid").is_none(),
        "eid:ns/<orig> cleanup must remove the eid: tag entirely"
    );
}

fn triage_config_with_filter(filter: &str) -> ListSyncConfig {
    ListSyncConfig {
        reminders_list: "Tasks".to_string(),
        push_filter: Some(filter.to_string()),
        sticky_tracking: StickyTracking::Triage,
        ..Default::default()
    }
}

fn synced_item_with_hash(eid: &str, title: &str, hash: u64, pushed: bool) -> SyncItemState {
    let fields = SyncedFieldState {
        title: title.to_string(),
        priority: 0,
        is_completed: false,
        completion_date: None,
        due_date: None,
        notes: None,
        list: "Tasks".to_string(),
    };
    let r_hash = synced_field_hash(&fields);
    SyncItemState {
        eid: eid.to_string(),
        fields,
        reminders_last_modified: Some(past_time()),
        task_line_hash: hash,
        reminders_field_hash: r_hash,
        last_synced: past_time(),
        pushed,
    }
}

/// The tracking mode that a configuration in TOML gives; `None` for a value that
/// names no mode.
fn sticky_in(text: &str) -> Option<StickyTracking> {
    let table: toml::Table = toml::from_str(text).unwrap();
    match table.get("sticky_tracking") {
        None => Some(StickyTracking::default()),
        Some(toml::Value::Boolean(flag)) => Some(StickyTracking::from_flag(*flag)),
        Some(toml::Value::String(name)) => StickyTracking::from_name(name),
        Some(_) => None,
    }
}

#[test]
fn sticky_serde_true_maps_to_always() {
    let toml = r#"reminders_list = "Tasks"
sticky_tracking = true"#;
    assert_eq!(sticky_in(toml), Some(StickyTracking::Always));
}

#[test]
fn sticky_serde_false_maps_to_never() {
    let toml = r#"reminders_list = "Tasks"
sticky_tracking = false"#;
    assert_eq!(sticky_in(toml), Some(StickyTracking::Never));
}

#[test]
fn sticky_serde_string_triage() {
    let toml = r#"reminders_list = "Tasks"
sticky_tracking = "triage""#;
    assert_eq!(sticky_in(toml), Some(StickyTracking::Triage));
}

#[test]
fn sticky_serde_default_is_triage() {
    let toml = r#"reminders_list = "Tasks""#;
    assert_eq!(sticky_in(toml), Some(StickyTracking::Triage));
}

#[test]
fn sticky_serde_auto_is_invalid() {
    let toml = r#"reminders_list = "Tasks"
sticky_tracking = "auto""#;
    assert!(
        sticky_in(toml).is_none(),
        r#""auto" must no longer be accepted as a sticky_tracking value"#
    );
}

/// Any edited task (push-origin) that falls off filter → released.
#[test]
fn compute_release_set_edited_task_off_filter_released() {
    // push_filter: @today — task no longer has @today
    let eid = "eid-edited";
    let task = task_with_eid(eid, "Buy milk");
    let current_hash = task_line_hash(&task);

    // Stored hash differs → task changed
    let mut item = synced_item_with_hash(eid, "Buy milk", current_hash + 1, true);
    item.fields.list = "Tasks".to_string();

    let state = state_with_items(vec![item]);
    let config = triage_config_with_filter("@today");
    let today = base_date();

    let release = compute_release_set(&[task], &state, &[config], today);
    assert!(
        release.contains(eid),
        "edited task off filter should be in release set"
    );
}

/// Pushed task still admitted → not released.
#[test]
fn compute_release_set_still_admitted_not_released() {
    let eid = "eid-admitted";
    let task = task_from_line(&format!("Buy milk @today eid:{eid}"));
    let current_hash = task_line_hash(&task);

    let mut item = synced_item_with_hash(eid, "Buy milk", current_hash + 1, true);
    item.fields.list = "Tasks".to_string();

    let state = state_with_items(vec![item]);
    let config = triage_config_with_filter("@today");

    let release = compute_release_set(&[task], &state, &[config], base_date());
    assert!(
        !release.contains(eid),
        "task still matching push_filter must not be released"
    );
}

/// Inbox task (pushed=false) with no change → not released.
#[test]
fn inbox_not_released_when_unchanged() {
    let eid = "eid-inbox";
    let task = task_with_eid(eid, "Buy milk");
    let current_hash = task_line_hash(&task);

    // Hash matches → task unchanged
    let mut item = synced_item_with_hash(eid, "Buy milk", current_hash, false);
    item.fields.list = "Tasks".to_string();

    let state = state_with_items(vec![item]);
    let config = triage_config_with_filter("@today");

    let release = compute_release_set(&[task], &state, &[config], base_date());
    assert!(
        !release.contains(eid),
        "inbox task unchanged should not be released"
    );
}

/// Pull-origin task with any edit that falls off filter → released.
///
/// Core triage behaviour: the edit is the triage signal regardless of
/// whether the task was pull- or push-origin. "Cosmetic" edits count too —
/// once you touch a task you own its filter state.
#[test]
fn pull_origin_released_after_any_edit_off_filter() {
    let eid = "eid-inbox2";
    let task = task_with_eid(eid, "Buy milk fixed"); // title changed
    let current_hash = task_line_hash(&task);

    // Stored hash differs (title edit), pushed=false (pull-origin)
    let mut item = synced_item_with_hash(eid, "Buy milk", current_hash + 1, false);
    item.fields.list = "Tasks".to_string();

    let state = state_with_items(vec![item]);
    let config = triage_config_with_filter("@today");

    let release = compute_release_set(&[task], &state, &[config], base_date());
    assert!(
        release.contains(eid),
        "pull-origin task with any edit off filter must be released under Triage"
    );
}

/// Task edited + off owning-filter → released even when another list admits.
///
/// Under Triage, cross-list admission is not required; the task is released
/// because it was edited (hash differs). The second list (To-do) will then
/// create a new Reminder in the cross-list move end-to-end flow.
#[test]
fn edited_task_released_when_another_list_admits() {
    let eid = "eid-triaged";
    let task = task_from_line(&format!("Buy milk @joint eid:{eid}"));
    let current_hash = task_line_hash(&task);

    // Stored hash differs — user added @joint
    let mut item = synced_item_with_hash(eid, "Buy milk", current_hash + 1, false);
    item.fields.list = "Tasks".to_string();

    let state = state_with_items(vec![item]);

    let tasks_config = triage_config_with_filter("@today"); // @joint no longer matches
    let todo_config = ListSyncConfig {
        reminders_list: "To-do".to_string(),
        push_filter: Some("@joint".to_string()),
        sticky_tracking: StickyTracking::Triage,
        ..Default::default()
    };

    let release =
        compute_release_set(&[task], &state, &[tasks_config, todo_config], base_date());
    assert!(
        release.contains(eid),
        "edited task off Tasks filter should be released (To-do will pick it up)"
    );
}

/// sticky_tracking = Always → release set is always empty.
#[test]
fn sticky_always_never_releases() {
    let eid = "eid-always";
    let task = task_with_eid(eid, "Buy milk");
    let current_hash = task_line_hash(&task);

    let mut item = synced_item_with_hash(eid, "Buy milk", current_hash + 1, true);
    item.fields.list = "Tasks".to_string();

    let state = state_with_items(vec![item]);
    let config = ListSyncConfig {
        reminders_list: "Tasks".to_string(),
        push_filter: Some("@today".to_string()),
        sticky_tracking: StickyTracking::Always,
        ..Default::default()
    };

    let release = compute_release_set(&[task], &state, &[config], base_date());
    assert!(
        release.is_empty(),
        "sticky_tracking=Always must never produce a release set"
    );
}

// ── Triage mode: comprehensive scenario coverage ─────────────────────────

/// Unedited task off filter → stays (inbox protection regardless of origin).
#[test]
fn triage_unedited_task_off_filter_stays() {
    let eid = "eid-unedited";
    let task = task_with_eid(eid, "Buy milk"); // no @today
    let current_hash = task_line_hash(&task);

    // Hash matches — task unchanged since last sync
    let mut item = synced_item_with_hash(eid, "Buy milk", current_hash, false);
    item.fields.list = "Tasks".to_string();

    let state = state_with_items(vec![item]);
    let config = triage_config_with_filter("@today");

    let release = compute_release_set(&[task], &state, &[config], base_date());
    assert!(
        !release.contains(eid),
        "unedited task off filter must not be released (inbox protection)"
    );
}

/// Edited task still admitted by owning filter → not released.
#[test]
fn triage_edited_task_still_on_filter_stays() {
    let eid = "eid-still-admitted";
    let task = task_from_line(&format!("Buy milk @today eid:{eid}")); // matches filter
    let current_hash = task_line_hash(&task);

    // Hash differs — task was edited (e.g. priority added)
    let mut item = synced_item_with_hash(eid, "Buy milk @today", current_hash + 1, false);
    item.fields.list = "Tasks".to_string();

    let state = state_with_items(vec![item]);
    let config = triage_config_with_filter("@today");

    let release = compute_release_set(&[task], &state, &[config], base_date());
    assert!(
        !release.contains(eid),
        "edited task still matching filter must not be released"
    );
}

/// Pull-origin task, priority assigned in todo.txt, no longer matches
/// push_filter → released. This is the core user workflow:
///   Reminders → todo.txt (inbox) → assign priority (triage) → remove from Reminders.
#[test]
fn triage_pull_origin_priority_assigned_off_filter_released() {
    let eid = "eid-joint-prioritised";

    // Task as it looks after the user assigned priority C in todo.txt.
    // The To-do push_filter requires @joint AND (@today OR due=..+1d).
    // It has @joint but no @today and no due → off filter.
    let task = task_from_line(&format!("(C) Folding table @joint eid:{eid}"));
    let current_hash = task_line_hash(&task);

    // State: was pulled from To-do with no priority (hash differs → user edited)
    let mut item = synced_item_with_hash(eid, "Folding table", current_hash + 1, false);
    item.fields.list = "To-do".to_string();

    let state = state_with_items(vec![item]);

    // To-do list: must have @joint AND (@today OR due=..+1d)
    let todo_config = ListSyncConfig {
        reminders_list: "To-do".to_string(),
        push_filter: Some("@joint;@today~@joint;due=..+1d".to_string()),
        sticky_tracking: StickyTracking::Triage,
        ..Default::default()
    };

    let release = compute_release_set(&[task], &state, &[todo_config], base_date());
    assert!(
        release.contains(eid),
        "pull-origin task triaged with priority but off filter must be released"
    );
}

/// Same setup as above but with Always → task stays despite edit.
#[test]
fn always_blocks_release_of_edited_pull_origin_task() {
    let eid = "eid-joint-always";
    let task = task_from_line(&format!("(C) Extension cord @joint eid:{eid}"));
    let current_hash = task_line_hash(&task);

    let mut item = synced_item_with_hash(eid, "Extension cord", current_hash + 1, false);
    item.fields.list = "To-do".to_string();

    let state = state_with_items(vec![item]);

    let todo_config = ListSyncConfig {
        reminders_list: "To-do".to_string(),
        push_filter: Some("@joint;@today~@joint;due=..+1d".to_string()),
        sticky_tracking: StickyTracking::Always,
        ..Default::default()
    };

    let release = compute_release_set(&[task], &state, &[todo_config], base_date());
    assert!(
        release.is_empty(),
        "Always must block release even when task is edited and off filter"
    );
}

/// Never mode: task unchanged + off filter → still released immediately
/// (task-change protection does not apply to Never mode).
#[test]
fn never_mode_releases_unchanged_task() {
    let eid = "eid-never-unchanged";
    let task = task_with_eid(eid, "Buy milk"); // no @today
    let current_hash = task_line_hash(&task);

    // Hash matches — task unchanged (Never doesn't check)
    let item = synced_item_with_hash(eid, "Buy milk", current_hash, false);
    let state = state_with_items(vec![item]);

    let config = ListSyncConfig {
        reminders_list: "Tasks".to_string(),
        push_filter: Some("@today".to_string()),
        sticky_tracking: StickyTracking::Never,
        ..Default::default()
    };
    let reminder = ReminderBuilder::new(eid).title("Buy milk").build();

    // Never mode: task absent from task_by_eid → Case C → DeleteReminder
    let actions = compute_sync_actions_ext(
        &[reminder],
        &[task],
        &state,
        &config,
        now(),
        None,
        &TextSet::new(),
        0,
    );
    assert_deletes_reminder(&actions, eid);
}

/// End-to-end triage workflow matching the real config:
///   1. @joint task pulled from To-do Reminders list (pushed=false)
///   2. User assigns priority in todo.txt → hash changes
///   3. Task has @joint but no @today/due → off To-do push_filter
///   4. Expected: DeleteReminder for the To-do item
#[test]
fn triage_real_workflow_joint_task_prioritised_then_removed_from_reminders() {
    let eid = "eid-real-workflow";

    // After triage: user added priority C, task has @joint but no @today, no near due.
    let task = task_from_line(&format!("(C) Extension cord @joint eid:{eid} #buy"));
    let current_hash = task_line_hash(&task);

    // State: pulled from To-do, no priority (hash differs)
    let mut state_item =
        synced_item_with_hash(eid, "Extension cord #buy", current_hash + 1, false);
    state_item.fields.list = "To-do".to_string();
    let state = state_with_items(vec![state_item]);

    // Config mirrors ~/config/remtodo: push @joint;@today OR @joint;due=..+1d
    let todo_config = ListSyncConfig {
        reminders_list: "To-do".to_string(),
        push_filter: Some("@joint;@today~@joint;due=..+1d".to_string()),
        sticky_tracking: StickyTracking::Triage,
        ..Default::default()
    };
    let all_configs = vec![todo_config.clone()];

    let release_eids = compute_release_set(&[task.clone()], &state, &all_configs, base_date());
    assert!(
        release_eids.contains(eid),
        "triaged @joint task with no @today/due should enter release set"
    );

    let reminder = ReminderBuilder::new(eid)
        .title("Extension cord #buy")
        .list("To-do")
        .build();
    let actions = compute_sync_actions_ext(
        &[reminder],
        &[task],
        &state,
        &todo_config,
        now(),
        None,
        &release_eids,
        0,
    );

    assert_deletes_reminder(&actions, eid);
}

/// Released pushed task emits DeleteReminder in Case A.
#[test]
fn released_pushed_task_emits_delete_reminder() {
    let eid = "eid-release";
    let reminder = ReminderBuilder::new(eid).title("Buy milk").build();
    let task = task_with_eid(eid, "Buy milk");

    let item = synced_item_with_hash(eid, "Buy milk", task_line_hash(&task), true);
    let state = state_with_items(vec![item]);

    let config = triage_config_with_filter("@today");
    let mut release_eids = TextSet::new();
    release_eids.insert(eid.to_string());

    let actions = compute_sync_actions_ext(
        &[reminder],
        &[task],
        &state,
        &config,
        now(),
        None,
        &release_eids,
        0,
    );

    assert_deletes_reminder(&actions, eid);
    // Must not also update or create
    assert!(
        !actions
            .iter()
            .any(|a| matches!(a, SyncAction::UpdateReminder { .. })),
        "release must not also emit UpdateReminder"
    );
}

/// Released task where reminder was also completed → UpdateTask + DeleteReminder.
#[test]
fn released_task_preserves_reminder_changes() {
    let eid = "eid-release-complete";
    // Reminder was completed on device
    let reminder = ReminderBuilder::new(eid)
        .title("Buy milk")
        .completed("2026-02-25")
        .modified(recent_time())
        .build();
    let task = task_with_eid(eid, "Buy milk"); // not yet completed in todo.txt

    // Baseline: task was not completed
    let mut item = synced_item_with_hash(eid, "Buy milk", task_line_hash(&task), true);
    item.fields.is_completed = false;
    item.reminders_last_modified = Some(past_time());
    let state = state_with_items(vec![item]);

    let config = triage_config_with_filter("@today");
    let mut release_eids = TextSet::new();
    release_eids.insert(eid.to_string());

    let actions = compute_sync_actions_ext(
        &[reminder],
        &[task],
        &state,
        &config,
        now(),
        Some(old_time()), // task_mtime older than reminder → reminder wins
        &release_eids,
        0,
    );

    assert_updates_task(&actions, eid);
    assert_deletes_reminder(&actions, eid);
}

/// create_task handler sets pushed=false in state.
#[test]
fn apply_task_actions_create_task_sets_pushed_false() {
    let eid = "eid-pull";
    let reminder = ReminderBuilder::new(eid).title("Buy milk").build();
    let action = SyncAction::CreateTask {
        eid: eid.to_string(),
        reminder: reminder.clone(),
    };
    let (_, new_state) =
        apply_task_actions(&[action], vec![], &empty_state(), &default_config(), now());
    let item = new_state.items.get(eid).expect("state item should exist");
    assert!(!item.pushed, "CreateTask must set pushed=false");
    let _ = reminder; // suppress unused warning
}

/// resurrect_task handler sets pushed=false in state.
#[test]
fn apply_task_actions_resurrect_task_sets_pushed_false() {
    let eid = "eid-resurrect";
    let task = task_with_eid(eid, "Resurrected task");
    let action = SyncAction::ResurrectTask {
        eid: eid.to_string(),
        task: task.clone(),
    };
    let (_, new_state) =
        apply_task_actions(&[action], vec![], &empty_state(), &default_config(), now());
    let item = new_state.items.get(eid).expect("state item should exist");
    assert!(!item.pushed, "ResurrectTask must set pushed=false");
}

// ============================================================
// Cross-list move end-to-end
// ============================================================

#[test]
fn cross_list_move_end_to_end() {
    let eid = "eid-triaged";

    let task = task_from_line(&format!("Buy milk @joint eid:{eid}"));
    let original_hash = task_line_hash(&task) + 1; // stored hash differs → changed

    let mut state_item = synced_item_with_hash(eid, "Buy milk", original_hash, false);
    state_item.fields.list = "Tasks".to_string();
    let state = state_with_items(vec![state_item]);

    let tasks_config = triage_config_with_filter("@today"); // @joint no longer matches
    let todo_config = ListSyncConfig {
        reminders_list: "To-do".to_string(),
        push_filter: Some("@joint".to_string()),
        sticky_tracking: StickyTracking::Triage,
        ..Default::default()
    };
    let all_configs = vec![tasks_config.clone(), todo_config.clone()];

    let release_eids = compute_release_set(&[task.clone()], &state, &all_configs, base_date());
    assert!(release_eids.contains(eid), "eid should be in release set");

    // Tasks has a live reminder for this eid.
    let tasks_reminder = ReminderBuilder::new(eid).title("Buy milk").build();

    // ── Pass 1: Tasks list ────────────────────────────────────────────────
    let tasks_actions = compute_sync_actions_ext(
        &[tasks_reminder],
        &[task.clone()],
        &state,
        &tasks_config,
        now(),
        None,
        &release_eids,
        0,
    );
    assert_deletes_reminder(&tasks_actions, eid);

    // Apply task-side actions (removes state entry, task unchanged in list).
    let (tasks_after, state_after) = apply_task_actions(
        &tasks_actions,
        vec![task.clone()],
        &state,
        &tasks_config,
        now(),
    );

    // State entry must be gone.
    assert!(
        !state_after.items.contains_key(eid),
        "state entry must be removed after Tasks release"
    );
    // Task must still be present (DeleteReminder doesn't remove tasks).
    assert_eq!(tasks_after.len(), 1);

    // ── Pass 2: To-do list ────────────────────────────────────────────────
    // To-do has no reminders with this eid yet.
    let todo_actions = compute_sync_actions_ext(
        &[], // no To-do reminders
        &tasks_after,
        &state_after,
        &todo_config,
        now(),
        None,
        &release_eids,
        0,
    );

    // To-do must issue CreateReminder for the triaged task.
    assert_creates_reminder(&todo_actions);
}

/// When the owning list has sticky_tracking=Always, a cross-list move is
/// blocked — the task stays in the original list regardless.
#[test]
fn always_list_blocks_cross_list_move() {
    let eid = "eid-always-blocked";
    let task = task_from_line(&format!("Buy milk @joint eid:{eid}"));
    let original_hash = task_line_hash(&task) + 1; // changed

    let mut state_item = synced_item_with_hash(eid, "Buy milk", original_hash, false);
    state_item.fields.list = "Tasks".to_string();
    let state = state_with_items(vec![state_item]);

    // Tasks = Always; To-do = Auto and admits the task.
    let tasks_config = ListSyncConfig {
        reminders_list: "Tasks".to_string(),
        push_filter: Some("@today".to_string()),
        sticky_tracking: StickyTracking::Always,
        ..Default::default()
    };
    let todo_config = ListSyncConfig {
        reminders_list: "To-do".to_string(),
        push_filter: Some("@joint".to_string()),
        sticky_tracking: StickyTracking::Triage,
        ..Default::default()
    };

    let release =
        compute_release_set(&[task], &state, &[tasks_config, todo_config], base_date());

    assert!(
        release.is_empty(),
        "Always on owning list must block cross-list move; release set should be empty"
    );
}

/// sticky_tracking=Never: task falls off filter → not in task_by_eid →
/// Case C fires → DeleteReminder (no task-change protection).
#[test]
fn never_mode_deletes_reminder_immediately_on_filter_miss() {
    let eid = "eid-never";
    // Task no longer has @today — falls off the filter.
    let task = task_with_eid(eid, "Buy milk");
    let current_hash = task_line_hash(&task);

    // State entry with matching hash (task UNCHANGED — Never has no change guard).
    let item = synced_item_with_hash(eid, "Buy milk", current_hash, true);
    let state = state_with_items(vec![item]);

    let config = ListSyncConfig {
        reminders_list: "Tasks".to_string(),
        push_filter: Some("@today".to_string()),
        sticky_tracking: StickyTracking::Never,
        ..Default::default()
    };

    let reminder = ReminderBuilder::new(eid).title("Buy milk").build();

    // Release set is empty — Never doesn't use it.
    let actions = compute_sync_actions_ext(
        &[reminder],
        &[task],
        &state,
        &config,
        now(),
        None,
        &TextSet::new(),
        0,
    );

    // Reminder unchanged, so hash check passes deletion.
    assert_deletes_reminder(&actions, eid);
}

/// Exact title+due pair → matched in Pass 2, state entry created.
#[test]
fn reconcile_title_and_due_matches() {
    let eid = "eid-reconcile-1";
    let reminders = vec![ReminderBuilder::new(eid)
        .title("Buy milk")
        .due("2026-03-01")
        .build()];
    // Task has no eid — would normally be treated as a new reminder
    let tasks = vec![task_from_line("Buy milk due:2026-03-01")];
    let (state, reconciled) = build_initial_state(&reminders, &tasks, now());
    assert!(
        state.items.contains_key(eid),
        "State entry must be created for reconciled pair"
    );
    assert_eq!(reconciled.len(), 1);
    assert_eq!(reconciled[0].0, eid);
    assert_eq!(reconciled[0].1, 0); // task index 0
}

/// Both items have no due date → matched by title alone.
#[test]
fn reconcile_title_only_no_due() {
    let eid = "eid-reconcile-2";
    let reminders = vec![ReminderBuilder::new(eid).title("Read emails").build()];
    let tasks = vec![task_from_line("Read emails")];
    let (state, reconciled) = build_initial_state(&reminders, &tasks, now());
    assert!(state.items.contains_key(eid));
    assert_eq!(reconciled.len(), 1);
}

/// Title comparison is case-insensitive.
#[test]
fn reconcile_case_insensitive() {
    let eid = "eid-reconcile-3";
    let reminders = vec![ReminderBuilder::new(eid).title("BUY MILK").build()];
    let tasks = vec![task_from_line("buy milk")];
    let (state, reconciled) = build_initial_state(&reminders, &tasks, now());
    assert!(
        state.items.contains_key(eid),
        "Case-insensitive match should produce state entry"
    );
    assert_eq!(reconciled.len(), 1);
}

/// EID-matched pair does NOT appear in the reconciled vec.
#[test]
fn reconcile_eid_takes_priority() {
    let eid = "eid-reconcile-4";
    let reminders = vec![ReminderBuilder::new(eid).title("Buy milk").build()];
    // Task already has the EID — matched in Pass 1.
    let tasks = vec![task_with_eid(eid, "Buy milk")];
    let (state, reconciled) = build_initial_state(&reminders, &tasks, now());
    assert!(state.items.contains_key(eid));
    assert!(
        reconciled.is_empty(),
        "EID-matched pair must not appear in reconciled vec"
    );
}

/// Task has a stale eid (no matching reminder) → falls through to title match.
#[test]
fn reconcile_stale_eid_falls_to_title() {
    let stale_eid = "eid-old-stale";
    let real_eid = "eid-reconcile-5";
    let reminders = vec![ReminderBuilder::new(real_eid).title("Buy milk").build()];
    // Task has a stale eid that doesn't match any reminder.
    let tasks = vec![task_with_eid(stale_eid, "Buy milk")];
    let (state, reconciled) = build_initial_state(&reminders, &tasks, now());
    // The real reminder's eid should be in state via title match.
    assert!(
        state.items.contains_key(real_eid),
        "Real eid should be in state after title match"
    );
    assert_eq!(reconciled.len(), 1);
    assert_eq!(reconciled[0].0, real_eid);
}

/// Two reminders with the same key → ambiguous → no match.
#[test]
fn reconcile_ambiguous_reminders_skipped() {
    let eid1 = "eid-amb-r1";
    let eid2 = "eid-amb-r2";
    let reminders = vec![
        ReminderBuilder::new(eid1).title("Buy milk").build(),
        ReminderBuilder::new(eid2).title("Buy milk").build(),
    ];
    let tasks = vec![task_from_line("Buy milk")];
    let (state, reconciled) = build_initial_state(&reminders, &tasks, now());
    assert!(
        reconciled.is_empty(),
        "Ambiguous reminders must not produce a match"
    );
    assert!(!state.items.contains_key(eid1));
    assert!(!state.items.contains_key(eid2));
}

/// Two tasks with the same key → ambiguous → no match.
#[test]
fn reconcile_ambiguous_tasks_skipped() {
    let eid = "eid-amb-t1";
    let reminders = vec![ReminderBuilder::new(eid).title("Buy milk").build()];
    let tasks = vec![task_from_line("Buy milk"), task_from_line("Buy milk")];
    let (state, reconciled) = build_initial_state(&reminders, &tasks, now());
    assert!(
        reconciled.is_empty(),
        "Ambiguous tasks must not produce a match"
    );
    assert!(!state.items.contains_key(eid));
}

/// `eid:na` sentinel task must not be a reconciliation candidate.
#[test]
fn reconcile_sentinel_excluded() {
    let eid = "eid-sentinel-test";
    let reminders = vec![ReminderBuilder::new(eid).title("Buy milk").build()];
    // Sentinel task with same title — must not be matched.
    let tasks = vec![task_from_line("Buy milk eid:na")];
    let (state, reconciled) = build_initial_state(&reminders, &tasks, now());
    assert!(
        reconciled.is_empty(),
        "Sentinel task must be excluded from reconciliation"
    );
    assert!(
        !state.items.contains_key(eid),
        "Sentinel task must not produce a state entry"
    );
}

/// Mix: some pairs matched by EID, others by title. All correct.
#[test]
fn reconcile_mixed_eid_and_title() {
    let eid_via_eid = "eid-mix-1";
    let eid_via_title = "eid-mix-2";
    let reminders = vec![
        ReminderBuilder::new(eid_via_eid).title("Task EID").build(),
        ReminderBuilder::new(eid_via_title)
            .title("Task Title")
            .build(),
    ];
    let tasks = vec![
        task_with_eid(eid_via_eid, "Task EID"), // EID match
        task_from_line("Task Title"),           // title match
    ];
    let (state, reconciled) = build_initial_state(&reminders, &tasks, now());
    assert!(
        state.items.contains_key(eid_via_eid),
        "EID-matched pair must be in state"
    );
    assert!(
        state.items.contains_key(eid_via_title),
        "Title-matched pair must be in state"
    );
    assert_eq!(
        reconciled.len(),
        1,
        "Only the title-matched pair should be in reconciled vec"
    );
    assert_eq!(reconciled[0].0, eid_via_title);
}

/// Same title but different due date → no match.
#[test]
fn reconcile_different_due_no_match() {
    let eid = "eid-diff-due";
    let reminders = vec![ReminderBuilder::new(eid)
        .title("Buy milk")
        .due("2026-03-01")
        .build()];
    let tasks = vec![task_from_line("Buy milk due:2026-04-15")];
    let (state, reconciled) = build_initial_state(&reminders, &tasks, now());
    assert!(
        reconciled.is_empty(),
        "Different due dates must not produce a match"
    );
    assert!(!state.items.contains_key(eid));
}

/// Completed reminder + completed task → matched by title+due.
#[test]
fn reconcile_completed_items_match() {
    let eid = "eid-completed-rec";
    let reminders = vec![ReminderBuilder::new(eid)
        .title("Old task")
        .completed("2026-02-20")
        .build()];
    let tasks = vec![task_from_line("x 2026-02-20 2026-02-01 Old task")];
    let (state, reconciled) = build_initial_state(&reminders, &tasks, now());
    assert!(
        state.items.contains_key(eid),
        "Completed pair should be reconciled"
    );
    assert_eq!(reconciled.len(), 1);
}

/// Zero reminders or zero tasks → no panic, empty result.
#[test]
fn reconcile_empty_inputs_no_panic() {
    let (state_a, rec_a) = build_initial_state(&[], &[], now());
    assert!(state_a.items.is_empty());
    assert!(rec_a.is_empty());

    let reminders = vec![ReminderBuilder::new("eid-x").title("A").build()];
    let (state_b, rec_b) = build_initial_state(&reminders, &[], now());
    assert!(state_b.items.is_empty());
    assert!(rec_b.is_empty());

    let tasks = vec![task_from_line("A")];
    let (state_c, rec_c) = build_initial_state(&[], &tasks, now());
    assert!(state_c.items.is_empty());
    assert!(rec_c.is_empty());
}

/// Integration: after bootstrap reconciliation stamps the EID, the next
/// sync pass must produce no CreateTask or CreateReminder for the matched pair.
#[test]
fn reconcile_no_duplicates_in_sync() {
    let eid = "eid-no-dup";
    let reminders = vec![ReminderBuilder::new(eid).title("Buy milk").build()];
    // Task has no eid — would create a duplicate without reconciliation.
    let mut tasks = vec![task_from_line("Buy milk")];
    let (initial_state, reconciled) = build_initial_state(&reminders, &tasks, now());

    for (stamp_eid, idx) in &reconciled {
        tasks[*idx].set_eid(stamp_eid);
    }
    assert_eq!(reconciled.len(), 1, "Should have one title-matched pair");

    // Now run the sync engine with the stamped tasks and the initial state.
    let config = default_config();
    let actions =
        compute_sync_actions(&reminders, &tasks, &initial_state, &config, now(), None);

    let has_create_task = actions
        .iter()
        .any(|a| matches!(a, SyncAction::CreateTask { .. }));
    let has_create_reminder = actions
        .iter()
        .any(|a| matches!(a, SyncAction::CreateReminder { .. }));

    assert!(
        !has_create_task,
        "Reconciled pair must not produce CreateTask"
    );
    assert!(
        !has_create_reminder,
        "Reconciled pair must not produce CreateReminder"
    );
}

/// Both sides changed every field that maps bidirectionally (title + due);
/// task_mtime > r_modified → task wins all conflicts.
/// Expect UpdateReminder with task's values; no UpdateTask.
#[test]
fn all_fields_changed_both_sides_task_wins() {
    let eid = "eid-all-task-wins";
    // Baseline: title="Baseline", priority=0, due=None, notes=None.
    // synced_item sets task_line_hash=0 so any real task looks "changed".
    let item = synced_item(eid, "Baseline");

    // Reminder changed title + due (priority=0 to keep default map stable).
    // Reminder is *older* than the task → task wins the conflict.
    let reminder = ReminderBuilder::new(eid)
        .title("Reminder New")
        .due("2026-04-01")
        .modified(past_time()) // older → task wins
        .build();

    // Task also changed title + due to *different* values than the reminder.
    // task_mtime is newer → task wins.
    let task = task_from_line(&format!("Task New due:2026-05-01 eid:{eid}"));

    let state = state_with_items(vec![item]);
    let config = default_config();
    let actions = compute_sync_actions(
        &[reminder],
        &[task],
        &state,
        &config,
        now(),
        Some(recent_time()), // task_mtime newer → task wins
    );

    // Task side won all conflicting fields → update reminder only.
    assert_updates_reminder(&actions, eid);
    assert!(
        !actions
            .iter()
            .any(|a| matches!(a, SyncAction::UpdateTask { .. })),
        "All-fields-changed task-wins: must not emit UpdateTask"
    );
}

/// Both sides changed every field that maps bidirectionally (title + due);
/// r_modified > task_mtime → reminder wins all conflicts.
/// Expect UpdateTask with reminder's values; no UpdateReminder.
#[test]
fn all_fields_changed_both_sides_reminder_wins() {
    let eid = "eid-all-rem-wins";
    // Baseline: title="Baseline", priority=0, due=None, notes=None.
    let item = synced_item(eid, "Baseline");

    // Reminder changed title + due and is *newer* than the task → reminder wins.
    let reminder = ReminderBuilder::new(eid)
        .title("Reminder New")
        .due("2026-04-01")
        .modified(recent_time()) // newer → reminder wins
        .build();

    // Task also changed title + due to *different* values than the reminder.
    // task_mtime is older → task loses all conflicts.
    let task = task_from_line(&format!("Task New due:2026-05-01 eid:{eid}"));

    let state = state_with_items(vec![item]);
    let config = default_config();
    let actions = compute_sync_actions(
        &[reminder],
        &[task],
        &state,
        &config,
        now(),
        Some(past_time()), // task_mtime older → reminder wins
    );

    // Reminder side won all conflicting fields → update task only.
    assert_updates_task(&actions, eid);
    assert!(
        !actions
            .iter()
            .any(|a| matches!(a, SyncAction::UpdateReminder { .. })),
        "All-fields-changed reminder-wins: must not emit UpdateReminder"
    );
}

/// compute_sync_actions returns identical results regardless of any
/// caller-side dry-run flag — confirming zero-side-effect guarantee.
#[test]
fn dry_run_action_plan_is_identical_to_live_run() {
    let eid = "eid-dry-run";
    let reminders = vec![ReminderBuilder::new(eid).title("Task A").build()];
    let tasks = vec![task_with_eid(eid, "Task A")];
    let state = state_with_items(vec![synced_item(eid, "Task A")]);
    let config = default_config();

    // Both runs call the same pure function — results must be equal.
    let live_actions = compute_sync_actions(
        &reminders,
        &tasks,
        &state,
        &config,
        now(),
        Some(recent_time()),
    );
    let dry_actions = compute_sync_actions(
        &reminders,
        &tasks,
        &state,
        &config,
        now(),
        Some(recent_time()),
    );

    assert_eq!(
        live_actions.len(),
        dry_actions.len(),
        "dry-run and live-run must produce the same number of actions"
    );
}

fn assert_relinks_eid(actions: &[SyncAction], old_eid: &str, new_eid: &str) {
    let found = actions.iter().any(|a| {
        if let SyncAction::RelinkEid {
            old_eid: o,
            new_eid: n,
        } = a
        {
            o.as_str() == old_eid && n.as_str() == new_eid
        } else {
            false
        }
    });
    assert!(found, "Expected RelinkEid(old={old_eid}, new={new_eid})");
}

/// Old EID gone, new EID with same synced-field hash → RelinkEid only.
/// No DeleteTask, no CreateTask.
#[test]
fn relink_basic() {
    let new_reminder = ReminderBuilder::new("new-eid").title("Buy milk").build();
    let reminders = vec![new_reminder];
    let task = task_with_eid("old-eid", "Buy milk");
    let tasks = vec![task];
    let state = state_with_items(vec![synced_item("old-eid", "Buy milk")]);
    let config = default_config();
    let actions = compute_sync_actions(&reminders, &tasks, &state, &config, now(), None);

    assert_relinks_eid(&actions, "old-eid", "new-eid");
    assert!(
        !actions
            .iter()
            .any(|a| matches!(a, SyncAction::DeleteTask { .. })),
        "Expected no DeleteTask"
    );
    assert!(
        !actions
            .iter()
            .any(|a| matches!(a, SyncAction::CreateTask { .. })),
        "Expected no CreateTask (new EID consumed by relink)"
    );
}

/// Task title edited locally after the EID was reassigned → RelinkEid + UpdateReminder.
#[test]
fn relink_with_task_edit() {
    // Baseline: "Buy milk". Task now says "Buy almond milk".
    // New reminder still has the baseline title (unchanged on Reminders side).
    let new_reminder = ReminderBuilder::new("new-eid").title("Buy milk").build();
    let reminders = vec![new_reminder];
    let task = task_with_eid("old-eid", "Buy almond milk");
    let tasks = vec![task];
    let state = state_with_items(vec![synced_item("old-eid", "Buy milk")]);
    let config = default_config();
    let actions = compute_sync_actions(&reminders, &tasks, &state, &config, now(), None);

    assert_relinks_eid(&actions, "old-eid", "new-eid");
    assert_updates_reminder(&actions, "new-eid");
    assert!(
        !actions
            .iter()
            .any(|a| matches!(a, SyncAction::DeleteTask { .. })),
        "Expected no DeleteTask"
    );
}

/// Two unmatched reminders share the same hash → ambiguous, no relink.
#[test]
fn relink_ambiguous_multiple_unmatched() {
    let r1 = ReminderBuilder::new("new-eid-a").title("Buy milk").build();
    let r2 = ReminderBuilder::new("new-eid-b").title("Buy milk").build();
    let reminders = vec![r1, r2];
    let task = task_with_eid("old-eid", "Buy milk");
    let tasks = vec![task];
    let state = state_with_items(vec![synced_item("old-eid", "Buy milk")]);
    let config = default_config();
    let actions = compute_sync_actions(&reminders, &tasks, &state, &config, now(), None);

    assert!(
        !actions
            .iter()
            .any(|a| matches!(a, SyncAction::RelinkEid { .. })),
        "Ambiguous unmatched reminders should not trigger RelinkEid"
    );
}

/// Two state entries share the same stored hash, both missing → no relink.
#[test]
fn relink_ambiguous_multiple_state_entries() {
    let new_reminder = ReminderBuilder::new("new-eid").title("Buy milk").build();
    let reminders = vec![new_reminder];
    let task_a = task_with_eid("old-eid-a", "Buy milk");
    let task_b = task_with_eid("old-eid-b", "Buy milk");
    let tasks = vec![task_a, task_b];
    let state = state_with_items(vec![
        synced_item("old-eid-a", "Buy milk"),
        synced_item("old-eid-b", "Buy milk"),
    ]);
    let config = default_config();
    let actions = compute_sync_actions(&reminders, &tasks, &state, &config, now(), None);

    assert!(
        !actions
            .iter()
            .any(|a| matches!(a, SyncAction::RelinkEid { .. })),
        "Ambiguous state entries should not trigger RelinkEid"
    );
}

/// Stored hash = 0 (old state.json) → no relink attempted.
#[test]
fn relink_zero_stored_hash() {
    let new_reminder = ReminderBuilder::new("new-eid").title("Buy milk").build();
    let reminders = vec![new_reminder];
    let task = task_with_eid("old-eid", "Buy milk");
    let tasks = vec![task];
    let mut item = synced_item("old-eid", "Buy milk");
    item.reminders_field_hash = 0;
    let state = state_with_items(vec![item]);
    let config = default_config();
    let actions = compute_sync_actions(&reminders, &tasks, &state, &config, now(), None);

    assert!(
        !actions
            .iter()
            .any(|a| matches!(a, SyncAction::RelinkEid { .. })),
        "Zero stored hash should not trigger RelinkEid"
    );
}

/// The relinked new-eid must not also appear as a CreateTask in Step 2.
#[test]
fn relink_consumed_not_duplicated_step2() {
    let new_reminder = ReminderBuilder::new("new-eid").title("Buy milk").build();
    let reminders = vec![new_reminder];
    let task = task_with_eid("old-eid", "Buy milk");
    let tasks = vec![task];
    let state = state_with_items(vec![synced_item("old-eid", "Buy milk")]);
    let config = default_config();
    let actions = compute_sync_actions(&reminders, &tasks, &state, &config, now(), None);

    let create_task_count = actions
        .iter()
        .filter(|a| matches!(a, SyncAction::CreateTask { .. }))
        .count();
    assert_eq!(
        create_task_count, 0,
        "RelinkEid should prevent Step 2 from also emitting CreateTask"
    );
}

/// apply_task_actions correctly rewrites the eid: tag and moves the state entry.
#[test]
fn relink_apply_task_actions() {
    let task = task_with_eid("old-eid", "Buy milk");
    let tasks = vec![task];
    let mut item = synced_item("old-eid", "Buy milk");
    item.pushed = true;
    let state = state_with_items(vec![item]);
    let config = default_config();
    let actions = vec![SyncAction::RelinkEid {
        old_eid: "old-eid".to_string(),
        new_eid: "new-eid".to_string(),
    }];
    let (new_tasks, new_state) = apply_task_actions(&actions, tasks, &state, &config, now());

    // Task eid: tag rewritten.
    assert_eq!(new_tasks.len(), 1);
    let new_task_eid = new_tasks[0].tags.get("eid").map(|s| s.as_str());
    assert_eq!(
        new_task_eid,
        Some("new-eid"),
        "Task eid: tag should be rewritten to new-eid"
    );

    // State entry moved from old to new key.
    assert!(
        !new_state.items.contains_key("old-eid"),
        "Old eid should be removed from state"
    );
    assert!(
        new_state.items.contains_key("new-eid"),
        "New eid should be present in state"
    );

    // pushed flag preserved.
    let new_item = new_state.items.get("new-eid").unwrap();
    assert!(new_item.pushed, "pushed flag should be preserved");
    assert_eq!(new_item.eid, "new-eid");
}

// ----------------------------------------------------------------
// Writeback control tests
// ----------------------------------------------------------------

/// Reminder-only title change with writeback.title=false → push task title
/// back to Reminder instead of updating the task.
#[test]
fn writeback_disabled_title_reminder_only_pushes_back() {
    // Baseline: title="Buy milk", reminder changed to "Buy groceries", task unchanged.
    let reminder = ReminderBuilder::new("e1")
        .title("Buy groceries")
        .modified(recent_time())
        .build();
    let task = task_with_eid("e1", "Buy milk");
    let state = state_with_items(vec![synced_item("e1", "Buy milk")]);
    let config = ListSyncConfig::new("Tasks").with_writeback(WritebackConfig {
        title: false,
        ..WritebackConfig::default()
    });

    let actions = compute_sync_actions(&[reminder], &[task], &state, &config, now(), None);

    let has_update_task = actions
        .iter()
        .any(|a| matches!(a, SyncAction::UpdateTask { .. }));
    let update_reminder = actions.iter().find_map(|a| {
        if let SyncAction::UpdateReminder {
            updated_reminder, ..
        } = a
        {
            Some(updated_reminder)
        } else {
            None
        }
    });

    assert!(!has_update_task, "task title must not be overwritten");
    assert!(
        update_reminder.is_some(),
        "should push task title back to Reminder"
    );
    assert_eq!(
        update_reminder.unwrap().title.as_deref(),
        Some("Buy milk"),
        "UpdateReminder should carry the task title"
    );
}

/// Both sides changed due date (reminder newer in LWW terms), but
/// writeback.due_date=false means task always wins the conflict.
#[test]
fn writeback_disabled_due_date_conflict_task_wins() {
    // Baseline: due_date=None. Reminder sets 2026-03-01, task sets 2026-03-15.
    // Reminder mtime is recent (newer), task mtime is old → LWW would pick reminder.
    // With writeback disabled the task value must win regardless.
    let reminder = ReminderBuilder::new("e1")
        .title("Buy milk") // match baseline so title doesn't generate an UpdateTask
        .due("2026-03-01")
        .modified(recent_time())
        .build();
    let task = task_with_eid("e1", "Buy milk due:2026-03-15");
    let state = state_with_items(vec![synced_item("e1", "Buy milk")]);
    let config = ListSyncConfig::new("Tasks").with_writeback(WritebackConfig {
        due_date: false,
        ..WritebackConfig::default()
    });

    let actions = compute_sync_actions(
        &[reminder],
        &[task],
        &state,
        &config,
        now(),
        Some(old_time()),
    );

    let has_update_task = actions
        .iter()
        .any(|a| matches!(a, SyncAction::UpdateTask { .. }));
    let update_reminder = actions.iter().find_map(|a| {
        if let SyncAction::UpdateReminder {
            updated_reminder, ..
        } = a
        {
            Some(updated_reminder)
        } else {
            None
        }
    });

    assert!(!has_update_task, "task due date must not be overwritten");
    let ur = update_reminder.expect("should push task due date back");
    assert_eq!(
        ur.due_date,
        Some(Some("2026-03-15".to_string())),
        "UpdateReminder due_date should carry the task value"
    );
}

/// Reminder completed while writeback.is_completed=false → push false back to
/// Reminder, task remains not completed.
#[test]
fn writeback_disabled_is_completed_suppresses() {
    let reminder = ReminderBuilder::new("e1")
        .title("Buy milk") // match baseline so title doesn't generate an UpdateTask
        .completed("2026-02-20")
        .modified(recent_time())
        .build();
    let task = task_with_eid("e1", "Buy milk");
    let state = state_with_items(vec![synced_item("e1", "Buy milk")]);
    let config = ListSyncConfig::new("Tasks").with_writeback(WritebackConfig {
        is_completed: false,
        ..WritebackConfig::default()
    });

    let actions = compute_sync_actions(&[reminder], &[task], &state, &config, now(), None);

    let has_update_task = actions
        .iter()
        .any(|a| matches!(a, SyncAction::UpdateTask { .. }));
    let update_reminder = actions.iter().find_map(|a| {
        if let SyncAction::UpdateReminder {
            updated_reminder, ..
        } = a
        {
            Some(updated_reminder)
        } else {
            None
        }
    });

    assert!(!has_update_task, "task must not be marked completed");
    let ur = update_reminder.expect("should push false back to Reminder");
    assert_eq!(
        ur.is_completed,
        Some(false),
        "UpdateReminder should carry is_completed=false"
    );
    // completion_date follows is_completed flag — should push None back.
    assert_eq!(
        ur.completion_date,
        Some(None),
        "UpdateReminder should carry completion_date=None"
    );
}

/// Reminder priority changed with writeback.priority=false → push task
/// priority back to Reminder, task priority unchanged.
#[test]
fn writeback_disabled_priority_pushes_back() {
    // Baseline: priority=0 (no priority). Reminder now has priority=9 (@today).
    // Task still has no priority. writeback.priority=false → push 0 back.
    let reminder = ReminderBuilder::new("e1")
        .title("Buy milk") // match baseline so title doesn't generate an UpdateTask
        .priority(9)
        .modified(recent_time())
        .build();
    let task = task_with_eid("e1", "Buy milk");
    let state = state_with_items(vec![synced_item("e1", "Buy milk")]);
    let config = ListSyncConfig::new("Tasks").with_writeback(WritebackConfig {
        priority: false,
        ..WritebackConfig::default()
    });

    let actions = compute_sync_actions(&[reminder], &[task], &state, &config, now(), None);

    let has_update_task = actions
        .iter()
        .any(|a| matches!(a, SyncAction::UpdateTask { .. }));
    let update_reminder = actions.iter().find_map(|a| {
        if let SyncAction::UpdateReminder {
            updated_reminder, ..
        } = a
        {
            Some(updated_reminder)
        } else {
            None
        }
    });

    assert!(!has_update_task, "task priority must not be updated");
    let ur = update_reminder.expect("should push task priority back");
    assert_eq!(
        ur.priority,
        Some(0),
        "UpdateReminder should carry priority=0 (task value)"
    );
}

/// When only the task changed (reminder matches baseline), writeback disabled
/// on a field has no effect — the normal task→reminder push still fires.
#[test]
fn writeback_disabled_task_only_change_unaffected() {
    // Baseline: due_date=None. Task now has due:2026-03-01. Reminder unchanged.
    // writeback.due_date=false controls reminder→task direction only; this is
    // a task-only change so due_date should still flow to the Reminder.
    let reminder = ReminderBuilder::new("e1").modified(past_time()).build();
    let task = task_with_eid("e1", "Buy milk due:2026-03-01");
    let state = state_with_items(vec![synced_item("e1", "Buy milk")]);
    let config = ListSyncConfig::new("Tasks").with_writeback(WritebackConfig {
        due_date: false,
        ..WritebackConfig::default()
    });

    let actions = compute_sync_actions(&[reminder], &[task], &state, &config, now(), None);

    let update_reminder = actions.iter().find_map(|a| {
        if let SyncAction::UpdateReminder {
            updated_reminder, ..
        } = a
        {
            Some(updated_reminder)
        } else {
            None
        }
    });

    let ur = update_reminder.expect("task change should push due date to Reminder");
    assert_eq!(
        ur.due_date,
        Some(Some("2026-03-01".to_string())),
        "task-only due_date change must still push to Reminder even when writeback=false"
    );
}

/// All writeback fields disabled: all reminder-side changes pushed back to
/// Reminder as a single UpdateReminder, no UpdateTask emitted.
#[test]
fn writeback_all_disabled_all_pushed_back() {
    // Baseline: title="Buy milk", priority=0, due_date=None.
    // Reminder changed all three. Task unchanged.
    let reminder = ReminderBuilder::new("e1")
        .title("Buy groceries")
        .priority(9)
        .due("2026-03-01")
        .modified(recent_time())
        .build();
    let task = task_with_eid("e1", "Buy milk");
    let state = state_with_items(vec![synced_item("e1", "Buy milk")]);
    let config = ListSyncConfig::new("Tasks").with_writeback(WritebackConfig {
        title: false,
        due_date: false,
        priority: false,
        is_completed: false,
    });

    let actions = compute_sync_actions(&[reminder], &[task], &state, &config, now(), None);

    let has_update_task = actions
        .iter()
        .any(|a| matches!(a, SyncAction::UpdateTask { .. }));
    let update_reminder = actions.iter().find_map(|a| {
        if let SyncAction::UpdateReminder {
            updated_reminder, ..
        } = a
        {
            Some(updated_reminder)
        } else {
            None
        }
    });

    assert!(!has_update_task, "no task fields should be updated");
    let ur = update_reminder.expect("should emit a single UpdateReminder");
    assert_eq!(
        ur.title.as_deref(),
        Some("Buy milk"),
        "title pushed back to task value"
    );
    assert_eq!(ur.priority, Some(0), "priority pushed back to task value");
    assert_eq!(
        ur.due_date,
        Some(None),
        "due_date pushed back to task value (None)"
    );
}

/// Mixed policy: title=false (task authoritative) + due_date=true (Reminders authoritative).
/// Reminder changes both. Expect UpdateTask for due_date and UpdateReminder for title.
#[test]
fn writeback_mixed_some_flow_some_suppressed() {
    // Baseline: title="Buy milk", due_date=None. Reminder changes both.
    let reminder = ReminderBuilder::new("e1")
        .title("Buy groceries")
        .due("2026-03-01")
        .modified(recent_time())
        .build();
    let task = task_with_eid("e1", "Buy milk");
    let state = state_with_items(vec![synced_item("e1", "Buy milk")]);
    let config = ListSyncConfig::new("Tasks").with_writeback(WritebackConfig {
        title: false,
        due_date: true,
        ..WritebackConfig::default()
    });

    let actions = compute_sync_actions(&[reminder], &[task], &state, &config, now(), None);

    // due_date=true → UpdateTask should carry the new due date.
    let update_task = actions.iter().find_map(|a| {
        if let SyncAction::UpdateTask { updated_task, .. } = a {
            Some(updated_task)
        } else {
            None
        }
    });
    let update_reminder = actions.iter().find_map(|a| {
        if let SyncAction::UpdateReminder {
            updated_reminder, ..
        } = a
        {
            Some(updated_reminder)
        } else {
            None
        }
    });

    let ut = update_task.expect("due_date=true should produce UpdateTask");
    assert_eq!(
        ut.tags.get("due").map(|s| s.as_str()),
        Some("2026-03-01"),
        "UpdateTask should carry the new due date from Reminders"
    );

    // title=false → UpdateReminder should carry the task title.
    let ur = update_reminder.expect("title=false should produce UpdateReminder");
    assert_eq!(
        ur.title.as_deref(),
        Some("Buy milk"),
        "UpdateReminder should push task title back"
    );
}
