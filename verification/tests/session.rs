use chrono::{Datelike, NaiveDate};
use remtodo::config::AppConfig;
use remtodo::dates::{Date, Timestamp};
use remtodo::error::SyncError;
use remtodo::reminder::Reminder;
use remtodo::run::MAX_RECURRENCE_PASSES;
use remtodo::session::{Pending, Phase, Step, SyncRun};
use remtodo::swift_cli::BatchItemResult;
use remtodo::sync::config::ListSyncConfig;
use remtodo::sync::state::SyncState;
use remtodo::task::Task;
use remtodo::undo::UndoEntry;

const NOW: Timestamp = Timestamp {
    secs: 1_772_000_000,
    nanos: 0,
};

fn day() -> Date {
    let date = NaiveDate::from_ymd_opt(2026, 2, 25).unwrap();
    Date::from_days_ce(date.num_days_from_ce()).unwrap()
}

fn task(line: &str) -> Task {
    Task::parse(line, day())
}

fn reminder(eid: &str, title: &str) -> Reminder {
    Reminder {
        id: format!("id-{eid}"),
        external_id: eid.to_string(),
        title: title.to_string(),
        due_date: None,
        priority: 0,
        is_completed: false,
        completion_date: None,
        creation_date: None,
        last_modified_date: None,
        notes: None,
        list: "Tasks".to_string(),
    }
}

fn created(eid: &str, title: &str) -> BatchItemResult {
    BatchItemResult {
        ok: true,
        reminder: Some(reminder(eid, title)),
        deleted: None,
        error: None,
    }
}

fn two_lists() -> AppConfig {
    AppConfig {
        lists: vec![ListSyncConfig::new("Tasks"), ListSyncConfig::new("Work")],
        ..AppConfig::default()
    }
}

fn failed() -> BatchItemResult {
    BatchItemResult {
        ok: false,
        reminder: None,
        deleted: None,
        error: Some("no access".to_string()),
    }
}

/// A run over two lists that has just decided on the first.
fn decided(app: &AppConfig, lines: &[&str]) -> SyncRun {
    let tasks = lines.iter().map(|l| task(l)).collect();
    let mut run = SyncRun::start(tasks, Some(SyncState::default()), &[], NOW);
    run.note_backup();
    run.begin_pass(&app.lists, day()).unwrap();
    run.decide(vec![], app, None, "/s", NOW, day()).unwrap();
    run
}

fn pending(run: &SyncRun) -> &Pending {
    run.pending.as_ref().unwrap()
}

#[test]
fn run_goes_through_all_lists() {
    let app = two_lists();
    let mut run = SyncRun::start(vec![task("Buy milk")], None, &[], NOW);
    assert!(run.is_first);
    assert_eq!(run.next_step(2, false, false), Step::SaveBackup);
    run.note_backup();
    assert_eq!(run.next_step(2, false, false), Step::BeginPass);
    run.begin_pass(&app.lists, day()).unwrap();

    assert_eq!(run.next_step(2, false, false), Step::List(0));
    run.decide(vec![], &app, None, "/s", NOW, day()).unwrap();
    assert_eq!(pending(&run).ops.len(), 1);
    assert_eq!(run.next_step(2, false, false), Step::SendBatch);
    run.take_batch(Some(&[created("e1", "Buy milk")]), &app, NOW);
    assert_eq!(run.tasks[0].to_line(), "Buy milk eid:e1");
    assert_eq!(run.completed_lists, 1);

    // The task has been claimed by the first list.
    assert_eq!(run.next_step(2, false, false), Step::List(1));
    run.decide(vec![], &app, None, "/s", NOW, day()).unwrap();
    assert!(pending(&run).actions.is_empty());
    run.take_batch(Some(&[]), &app, NOW);

    assert_eq!(run.next_step(2, false, false), Step::EndPass);
    run.end_pass(false);
    assert_eq!(run.next_step(2, false, false), Step::CheckFile);
    run.check_file("/t", Some(NOW), Some(NOW), "a", "a").unwrap();
    assert_eq!(run.next_step(2, false, false), Step::SaveUndo);
    run.note_undo();
    assert_eq!(run.next_step(2, false, false), Step::SaveTasks);
    run.note_tasks();
    assert_eq!(run.next_step(2, false, false), Step::SaveState);
    run.note_state();
    assert_eq!(run.next_step(2, false, false), Step::Finish);
    assert!(run.finish(false).is_ok());
    assert!(matches!(run.finish(true), Err(SyncError::Interrupted(2))));
}

#[test]
fn dry_run_sends_and_writes_nothing() {
    let app = two_lists();
    let mut run = SyncRun::start(vec![task("Buy milk")], None, &[], NOW);
    let mut steps = vec![];
    loop {
        let step = run.next_step(2, true, false);
        steps.push(step);
        match step {
            Step::BeginPass => run.begin_pass(&app.lists, day()).unwrap(),
            Step::List(_) => run.decide(vec![], &app, None, "/s", NOW, day()).unwrap(),
            Step::Describe => run.note_described(),
            Step::EndPass => run.end_pass(true),
            _ => break,
        }
    }
    assert_eq!(
        steps,
        [
            Step::BeginPass,
            Step::List(0),
            Step::Describe,
            Step::List(1),
            Step::Describe,
            Step::EndPass,
            Step::Finish
        ]
    );
    assert!(run.undo.is_empty());
    assert_eq!(run.completed_lists, 2);
}

#[test]
fn failed_batch_is_sent_one_by_one() {
    let app = two_lists();
    let mut run = decided(&app, &["Buy milk", "Buy bread"]);
    assert_eq!(run.next_step(2, false, false), Step::SendBatch);
    run.take_batch(None, &app, NOW);
    assert_eq!(run.phase, Phase::Singles);
    assert_eq!(run.next_step(2, false, false), Step::SendOne(0));
    run.take_one(&created("e1", "Buy milk"), &app, NOW);
    assert_eq!(run.tasks[0].to_line(), "Buy milk");
    assert_eq!(pending(&run).tasks[0].to_line(), "Buy milk eid:e1");
    assert_eq!(run.next_step(2, false, false), Step::SendOne(1));
    run.take_one(&failed(), &app, NOW);
    assert_eq!(run.phase, Phase::Lists);
    assert_eq!(run.tasks[0].to_line(), "Buy milk eid:e1");
    assert_eq!(run.tasks[1].to_line(), "Buy bread");
    assert_eq!((run.failures, run.completed_lists, run.list), (1, 1, 1));

    // An answer to another number of changes is no answer.
    let mut run = decided(&app, &["Buy milk", "Buy bread"]);
    run.take_batch(Some(&[failed()]), &app, NOW);
    assert_eq!(run.next_step(2, false, false), Step::SendOne(0));
    assert_eq!(run.failures, 0);
}

#[test]
fn interrupted_list_leaves_nothing_but_its_undo_log() {
    let app = two_lists();
    let mut run = decided(&app, &["Buy milk", "Buy bread"]);
    run.take_batch(None, &app, NOW);
    run.take_one(&created("e1", "Buy milk"), &app, NOW);
    assert_eq!(run.next_step(2, false, true), Step::EndPass);
    run.end_pass(false);
    assert_eq!(run.tasks[0].to_line(), "Buy milk");
    assert!(run.state.items.is_empty());
    assert!(run.pending.is_none());
    assert_eq!(run.completed_lists, 0);
    assert!(matches!(&run.undo[0], UndoEntry::UndoCreate { eid, .. } if eid == "e1"));
    assert_eq!(run.next_step(2, false, true), Step::CheckFile);
    assert!(matches!(run.finish(true), Err(SyncError::Interrupted(0))));
}

#[test]
fn signal_stops_before_the_next_step() {
    let app = two_lists();
    let mut run = SyncRun::start(vec![], None, &[], NOW);
    run.note_backup();
    assert_eq!(run.next_step(2, false, true), Step::EndPass);
    run.begin_pass(&app.lists, day()).unwrap();
    assert_eq!(run.next_step(2, false, true), Step::EndPass);
    // Nothing is left out where nothing is to be done.
    run.decide(vec![], &app, None, "/s", NOW, day()).unwrap();
    assert_eq!(run.next_step(2, false, true), Step::SendBatch);

    let run = decided(&app, &["Buy milk"]);
    assert_eq!(run.next_step(2, false, true), Step::EndPass);

    let mut run = SyncRun::start(vec![], None, &[], NOW);
    run.note_backup();
    run.end_pass(false);
    assert_eq!(run.next_step(2, false, true), Step::CheckFile);
}

#[test]
fn changed_file_is_not_overwritten() {
    let mut run = SyncRun::start(vec![], None, &[], NOW);
    run.note_backup();
    run.end_pass(false);
    let later = Timestamp { secs: NOW.secs + 1, nanos: 0 };
    let e = run.check_file("/t", Some(NOW), Some(later), "then", "now").unwrap_err();
    assert_eq!(
        e.message(),
        "Safety check failed — aborting to prevent data loss: /t was modified externally during \
         sync (mtime changed from then to now). Re-run sync to pick up the latest version."
    );
    assert_eq!(run.next_step(0, false, false), Step::Finish);
}

#[test]
fn failures_keep_the_files_but_not_the_undo_log() {
    let app = two_lists();
    let mut run = decided(&app, &["Buy milk"]);
    run.take_batch(Some(&[failed()]), &app, NOW);
    run.decide(vec![], &app, None, "/s", NOW, day()).unwrap();
    run.take_batch(Some(&[]), &app, NOW);
    run.end_pass(false);
    run.check_file("/t", None, None, "a", "a").unwrap();
    assert_eq!(run.next_step(2, false, false), Step::SaveUndo);
    run.note_undo();
    assert_eq!(run.next_step(2, false, false), Step::Finish);
    assert!(run.finish(true).unwrap_err().message().contains("1 reminder action(s) failed"));
}

#[test]
fn completed_recurring_task_calls_for_another_pass() {
    let app = AppConfig::default();
    let first = reminder("e1", "Buy milk");
    let line = "Buy milk due:2026-02-25 rec:1w eid:e1";
    let mut run = SyncRun::start(vec![task(line)], None, &[first.clone()], NOW);
    run.note_backup();
    run.begin_pass(&app.lists, day()).unwrap();
    let done = Reminder {
        is_completed: true,
        completion_date: Some("2026-02-25".to_string()),
        due_date: Some("2026-02-25".to_string()),
        ..first
    };
    run.decide(vec![done], &app, None, "/s", NOW, day()).unwrap();
    assert_eq!(pending(&run).spawns.len(), 1);
    assert!(pending(&run).ops.is_empty());
    run.take_batch(Some(&[]), &app, NOW);
    run.end_pass(false);
    assert_eq!(run.phase, Phase::Ready);
    assert_eq!(run.pass, 2);
    assert_eq!(run.tasks.len(), 2);
    assert!(run.tasks[0].finished);
    assert!(run.tasks[1].eid().is_none());
    assert!(run.pass <= MAX_RECURRENCE_PASSES);
    // A signal leaves the next instance for the next run.
    assert_eq!(run.next_step(1, false, true), Step::EndPass);
    run.end_pass(false);
    assert_eq!(run.tasks.len(), 2);
    assert_eq!(run.phase, Phase::Writing);
}

#[test]
fn what_cannot_be_worked_out_stops_a_run() {
    let mut app = AppConfig::default();
    app.lists[0].push_filter = Some("due=..99999999d".to_string());
    let mut run = SyncRun::start(vec![task("Buy milk due:2026-02-25")], None, &[], NOW);
    let e = run.begin_pass(&app.lists, day()).unwrap_err();
    assert_eq!(
        e.message(),
        "Safety check failed — aborting to prevent data loss: a date offset, a size or a duration \
         in a push filter or in a tag is out of range"
    );

    // A finished task that no reminder belongs to is not held against the filter.
    let mut run = SyncRun::start(vec![task("x 2026-02-24 Buy milk due:2026-02-25")], None, &[], NOW);
    run.begin_pass(&app.lists, day()).unwrap();
    run.decide(vec![], &app, None, "/s", NOW, day()).unwrap();

    // On the last days of the calendar nothing can be counted on.
    let app = AppConfig::default();
    let last = Date::from_days_ce(remtodo::dates::MAX_DAYS).unwrap();
    let mut run = SyncRun::start(vec![task("Buy milk")], None, &[], NOW);
    run.begin_pass(&app.lists, last).unwrap();
    let e = run.decide(vec![], &app, None, "/s", NOW, last).unwrap_err();
    assert!(e.message().contains("is out of range"));

    let line = "Buy milk due:2026-02-25 rec:+0d eid:e1";
    let first = reminder("e1", "Buy milk");
    let mut run = SyncRun::start(vec![task(line)], None, &[first.clone()], NOW);
    run.begin_pass(&app.lists, day()).unwrap();
    let done = Reminder {
        is_completed: true,
        ..first
    };
    let e = run.decide(vec![done], &app, None, "/s", NOW, day()).unwrap_err();
    assert!(e.message().contains("the next date of a recurring task cannot be computed"));
}
