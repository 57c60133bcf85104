//! Undoing the last run.

use crate::reminder::{Reminder, ReminderView};
use crate::swift_cli::{BatchOp, CreateReminderInput, CreateView, OpView};
use crate::sync::actions::{ReminderUpdate, UpdateView};
use crate::sync::fields::reminder_fields;
use crate::text::{copy_opt, decimal, decimal_text, is_within, lemma_within};
use vstd::prelude::*;

verus! {

/// One change to Reminders that can be taken back.
#[derive(Debug)]
pub enum UndoEntry {
    /// A reminder was created: delete it.
    UndoCreate { eid: String, list_name: String },
    /// A reminder was deleted: create it anew.
    UndoDelete { reminder: Reminder },
    /// A reminder was updated: give it its old fields.
    UndoUpdate { old_reminder: Reminder },
}

/// What an [`UndoEntry`] says.
#[verifier::ext_equal]
pub enum UndoView {
    UndoCreate { eid: Seq<char>, list_name: Seq<char> },
    UndoDelete { reminder: ReminderView },
    UndoUpdate { old_reminder: ReminderView },
}

impl View for UndoEntry {
    type V = UndoView;

    open spec fn view(&self) -> UndoView {
        match *self {
            UndoEntry::UndoCreate { eid, list_name } => UndoView::UndoCreate {
                eid: eid@,
                list_name: list_name@,
            },
            UndoEntry::UndoDelete { reminder } => UndoView::UndoDelete { reminder: reminder@ },
            UndoEntry::UndoUpdate { old_reminder } => UndoView::UndoUpdate {
                old_reminder: old_reminder@,
            },
        }
    }
}

/// What a list of entries says.
pub open spec fn undo_view(v: Seq<UndoEntry>) -> Seq<UndoView> {
    v.map_values(|e: UndoEntry| e@)
}

/// The changes to Reminders of one run, in their order.
#[derive(Debug)]
pub struct UndoLog {
    /// When the run was, in the notation of ISO 8601.
    pub timestamp: String,
    /// The path of the todo.txt file that was backed up.
    pub todo_original_path: String,
    pub entries: Vec<UndoEntry>,
}

/// A path below a directory.
pub open spec fn below(dir: Seq<char>, name: Seq<char>) -> Seq<char> {
    if dir.len() == 0 || dir.last() == '/' {
        dir + name
    } else {
        dir + "/"@ + name
    }
}

/// A slash at the end of a directory makes no difference to the paths below it, and names
/// that differ give paths that do.
pub proof fn paths_lie_below(dir: Seq<char>, a: Seq<char>, b: Seq<char>)
    ensures
        dir.len() > 0 && dir.last() != '/' ==> below(dir, a) == below(dir.push('/'), a) && below(
            dir,
            a,
        ) == dir.push('/') + a,
        below(dir, a) == below(dir, b) <==> a == b,
{
    reveal_strlit("/");
    let slash = dir.len() > 0 && dir.last() != '/';
    let start = if slash {
        dir.push('/')
    } else {
        dir
    };
    assert(below(dir, a) =~= start + a);
    assert(below(dir, b) =~= start + b);
    assert((start + a).skip(start.len() as int) =~= a);
    assert((start + b).skip(start.len() as int) =~= b);
    assert(dir.push('/').last() == '/');
}

/// A path below a directory. The name is relative.
pub fn path_below(dir: &str, name: &str) -> (r: String)
    ensures
        r@ == below(dir@, name@),
{
    let n: usize = dir.unicode_len();
    if n == 0 || dir.get_char(n - 1) == '/' {
        dir.to_owned().concat(name)
    } else {
        dir.to_owned().concat("/").concat(name)
    }
}

/// The path of the undo log.
pub fn undo_log_path(state_dir: &str) -> (r: String)
    ensures
        r@ == below(state_dir@, "undo.json"@),
{
    path_below(state_dir, "undo.json")
}

/// The paths of the backups of the todo.txt file and of the state.
pub fn backup_file_paths(state_dir: &str) -> (r: (String, String))
    ensures
        r.0@ == below(state_dir@, "todo.md.bak"@),
        r.1@ == below(state_dir@, "state.json.bak"@),
{
    (path_below(state_dir, "todo.md.bak"), path_below(state_dir, "state.json.bak"))
}

/// The update that gives a reminder the fields of `r`.
pub open spec fn reverting_update(r: ReminderView) -> UpdateView {
    UpdateView {
        eid: r.external_id,
        list_name: r.list,
        title: Some(r.title),
        priority: Some(r.priority),
        is_completed: Some(r.is_completed),
        completion_date: Some(r.completion_date),
        due_date: Some(r.due_date),
        notes: Some(r.notes),
    }
}

/// The update that gives a reminder the fields of `r`.
pub fn revert_update(r: &Reminder) -> (u: ReminderUpdate)
    ensures
        u@ == reverting_update(r@),
{
    ReminderUpdate {
        eid: r.external_id.clone(),
        list_name: r.list.clone(),
        title: Some(r.title.clone()),
        priority: Some(r.priority),
        is_completed: Some(r.is_completed),
        completion_date: Some(copy_opt(&r.completion_date)),
        due_date: Some(copy_opt(&r.due_date)),
        notes: Some(copy_opt(&r.notes)),
    }
}

/// A reminder with the fields that an update sets.
pub open spec fn with_update(r: ReminderView, u: UpdateView) -> ReminderView {
    ReminderView {
        title: match u.title {
            Some(x) => x,
            None => r.title,
        },
        priority: match u.priority {
            Some(x) => x,
            None => r.priority,
        },
        is_completed: match u.is_completed {
            Some(x) => x,
            None => r.is_completed,
        },
        completion_date: match u.completion_date {
            Some(x) => x,
            None => r.completion_date,
        },
        due_date: match u.due_date {
            Some(x) => x,
            None => r.due_date,
        },
        notes: match u.notes {
            Some(x) => x,
            None => r.notes,
        },
        ..r
    }
}

/// Whatever was done to a reminder, reverting it gives it back the synced fields
/// that it had.
pub proof fn reverting_restores(old: ReminderView, u: UpdateView)
    ensures
        reminder_fields(with_update(with_update(old, u), reverting_update(old)))
            == reminder_fields(old),
{
}

/// What has to be created to get the reminder `r` back.
pub open spec fn recreating_input(r: ReminderView) -> CreateView {
    CreateView {
        title: r.title,
        list_name: r.list,
        priority: r.priority,
        due_date: r.due_date,
        notes: r.notes,
        is_completed: r.is_completed,
        completion_date: r.completion_date,
    }
}

/// What has to be created to get the reminder `r` back.
pub fn recreate_input(r: &Reminder) -> (c: CreateReminderInput)
    ensures
        c@ == recreating_input(r@),
{
    CreateReminderInput {
        title: r.title.clone(),
        list_name: r.list.clone(),
        priority: r.priority,
        due_date: copy_opt(&r.due_date),
        notes: copy_opt(&r.notes),
        is_completed: r.is_completed,
        completion_date: copy_opt(&r.completion_date),
    }
}

/// The change that takes an entry back.
pub open spec fn undoing_op(e: UndoView) -> OpView {
    match e {
        UndoView::UndoCreate { eid, list_name } => OpView::DeleteReminder { eid, list_name },
        UndoView::UndoDelete { reminder } => OpView::CreateReminder(recreating_input(reminder)),
        UndoView::UndoUpdate { old_reminder } => OpView::UpdateReminder(
            reverting_update(old_reminder),
        ),
    }
}

/// The change that takes an entry back.
pub fn undo_op(entry: &UndoEntry) -> (op: BatchOp)
    ensures
        op@ == undoing_op(entry@),
{
    match entry {
        UndoEntry::UndoCreate { eid, list_name } => BatchOp::DeleteReminder {
            eid: eid.clone(),
            list_name: list_name.clone(),
        },
        UndoEntry::UndoDelete { reminder } => BatchOp::CreateReminder(recreate_input(reminder)),
        UndoEntry::UndoUpdate { old_reminder } => BatchOp::UpdateReminder(
            revert_update(old_reminder),
        ),
    }
}

/// The changes that take a run back, in the order of its log.
pub fn restore_ops(log: &UndoLog) -> (ops: Vec<BatchOp>)
    ensures
        ops@.map_values(|o: BatchOp| o@) == undo_view(log.entries@).map_values(
            |e: UndoView| undoing_op(e),
        ),
{
    let ghost wanted = undo_view(log.entries@).map_values(|e: UndoView| undoing_op(e));
    let mut ops: Vec<BatchOp> = Vec::new();
    assert(ops@.map_values(|o: BatchOp| o@) =~= wanted.take(0));
    for i in 0..log.entries.len()
        invariant
            wanted == undo_view(log.entries@).map_values(|e: UndoView| undoing_op(e)),
            ops@.len() == i,
            ops@.map_values(|o: BatchOp| o@) == wanted.take(i as int),
    {
        let ghost before = ops@.map_values(|o: BatchOp| o@);
        let op = undo_op(&log.entries[i]);
        ops.push(op);
        assert(undo_view(log.entries@)[i as int] == log.entries@[i as int]@);
        assert(ops@.map_values(|o: BatchOp| o@) =~= before.push(op@));
        assert(ops@.map_values(|o: BatchOp| o@) =~= wanted.take(i + 1));
    }
    assert(wanted.take(wanted.len() as int) =~= wanted);
    ops
}

/// What is reported after a run was taken back: failed changes do not stop it.
pub open spec fn restore_report(failures: nat) -> Seq<char> {
    if failures == 0 {
        "Restore complete."@
    } else {
        "Restore partially complete — "@ + decimal(failures)
            + " reminder operation(s) failed (see warnings above)."@
    }
}

/// What is reported after a run was taken back.
pub fn restore_summary(failures: usize) -> (r: String)
    ensures
        r@ == restore_report(failures as nat),
{
    if failures == 0 {
        "Restore complete.".to_owned()
    } else {
        let n = decimal_text(failures as u64);
        "Restore partially complete — ".to_owned().concat(n.as_str()).concat(
            " reminder operation(s) failed (see warnings above).",
        )
    }
}

/// What is reported after a run was taken back tells how many changes failed, where any
/// did.
pub proof fn restore_tells_failures(n: nat)
    ensures
        n > 0 ==> is_within(decimal(n), restore_report(n)),
        restore_report(0) == "Restore complete."@,
{
    lemma_within(
        "Restore partially complete — "@,
        decimal(n),
        " reminder operation(s) failed (see warnings above)."@,
    );
}

} // verus!
