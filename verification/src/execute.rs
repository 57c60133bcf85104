//! Carrying out the reminders' side of a sync run.

use crate::dates::Timestamp;
use crate::reminder::{Reminder, ReminderView};
use crate::swift_cli::{
    BatchItemResult, BatchOp, CreateReminderInput, CreateView, OpView, ResultView,
};
use crate::sync::actions::{actions_view, ActionView, ReminderUpdate, SyncAction, UpdateView};
use crate::sync::apply::{find_first, first_with, renamed};
use crate::sync::bootstrap::first_reminder;
use crate::sync::config::{priority_of, ConfigView, ListSyncConfig, PriorityMap, TargetView};
use crate::sync::fields::{
    day_text, extract_title, fields_hash, line_hash, synced_field_hash, task_completion_date,
    task_due_date, task_fields, task_line_hash, task_notes, task_priority, title_of,
};
use crate::sync::plan::{reminders_view, tasks_view, Scene};
use crate::sync::state::{ItemView, SyncItemState, SyncState, SyncedFieldState};
use crate::task::{eid_of, line_of, with_eid, Task, TaskView};
use crate::text::{copy_opt, opt_opt_text, opt_text};
use crate::undo::{undo_view, UndoEntry, UndoView};
use vstd::prelude::*;

verus! {

// ---------------------------------------------------------------------------
// What Reminders is asked to do
// ---------------------------------------------------------------------------

/// Which action a change to Reminders stands for.
#[derive(Debug)]
pub enum BatchedActionKind {
    Create { original_task_line: String, target_list: String },
    Update { eid: String },
    Delete { eid: String },
    Resurrect { old_eid: String, target_list: String },
}

/// What a [`BatchedActionKind`] says.
#[verifier::ext_equal]
pub enum KindView {
    Create { original_task_line: Seq<char>, target_list: Seq<char> },
    Update { eid: Seq<char> },
    Delete { eid: Seq<char> },
    Resurrect { old_eid: Seq<char>, target_list: Seq<char> },
}

impl View for BatchedActionKind {
    type V = KindView;

    open spec fn view(&self) -> KindView {
        match *self {
            BatchedActionKind::Create { original_task_line, target_list } => KindView::Create {
                original_task_line: original_task_line@,
                target_list: target_list@,
            },
            BatchedActionKind::Update { eid } => KindView::Update { eid: eid@ },
            BatchedActionKind::Delete { eid } => KindView::Delete { eid: eid@ },
            BatchedActionKind::Resurrect { old_eid, target_list } => KindView::Resurrect {
                old_eid: old_eid@,
                target_list: target_list@,
            },
        }
    }
}

/// The reminder that a task is pushed as.
pub open spec fn task_input(
    t: TaskView,
    mapping: Seq<(i32, TargetView)>,
    list: Seq<char>,
) -> CreateView {
    CreateView {
        title: title_of(t),
        list_name: list,
        priority: priority_of(mapping, t),
        due_date: day_text(t.due_date),
        notes: None,
        is_completed: t.finished,
        completion_date: day_text(t.finish_date),
    }
}

/// A doubly optional value without one of its layers.
pub open spec fn flat<X>(o: Option<Option<X>>) -> Option<X> {
    match o {
        Some(x) => x,
        None => None,
    }
}

/// The reminder that an update of a lost one amounts to.
pub open spec fn update_input(u: UpdateView, list: Seq<char>) -> CreateView {
    CreateView {
        title: match u.title {
            Some(t) => t,
            None => Seq::empty(),
        },
        list_name: list,
        priority: match u.priority {
            Some(p) => p,
            None => 0,
        },
        due_date: flat(u.due_date),
        notes: flat(u.notes),
        is_completed: u.is_completed == Some(true),
        completion_date: flat(u.completion_date),
    }
}

/// The change to Reminders that an action calls for.
pub open spec fn op_for(a: ActionView, c: ConfigView) -> Option<(OpView, KindView)> {
    match a {
        ActionView::CreateReminder { task, target_list } => Some(
            (
                OpView::CreateReminder(task_input(task, c.mapping, target_list)),
                KindView::Create { original_task_line: line_of(task), target_list },
            ),
        ),
        ActionView::UpdateReminder { eid, updated_reminder } => Some(
            (OpView::UpdateReminder(updated_reminder), KindView::Update { eid }),
        ),
        ActionView::DeleteReminder { eid } => Some(
            (
                OpView::DeleteReminder { eid, list_name: c.reminders_list },
                KindView::Delete { eid },
            ),
        ),
        ActionView::ResurrectReminder { eid, reminder_update, target_list } => Some(
            (
                OpView::CreateReminder(update_input(reminder_update, target_list)),
                KindView::Resurrect { old_eid: eid, target_list },
            ),
        ),
        _ => None,
    }
}

/// The changes to Reminders that actions call for, in order.
pub open spec fn ops_for(actions: Seq<ActionView>, c: ConfigView) -> Seq<(OpView, KindView)>
    decreases actions.len(),
{
    if actions.len() == 0 {
        Seq::empty()
    } else {
        let front = ops_for(actions.drop_last(), c);
        match op_for(actions.last(), c) {
            Some(x) => front.push(x),
            None => front,
        }
    }
}

/// The content of a list of changes.
pub open spec fn ops_view(v: Seq<(BatchOp, BatchedActionKind)>) -> Seq<(OpView, KindView)> {
    v.map_values(|x: (BatchOp, BatchedActionKind)| (x.0@, x.1@))
}

/// The reminder that a task is pushed as.
pub fn create_input_for_task(task: &Task, map: &PriorityMap, list: &str) -> (r: CreateReminderInput)
    ensures
        r@ == task_input(task@, map@, list@),
{
    CreateReminderInput {
        title: extract_title(task),
        list_name: list.to_owned(),
        priority: task_priority(task, map),
        due_date: task_due_date(task),
        notes: task_notes(task),
        is_completed: task.finished,
        completion_date: task_completion_date(task),
    }
}

fn flatten(o: &Option<Option<String>>) -> (r: Option<String>)
    ensures
        opt_text(r) == flat(opt_opt_text(*o)),
{
    match o {
        Some(x) => copy_opt(x),
        None => None,
    }
}

/// The reminder that an update of a lost one amounts to.
pub fn create_input_for_update(u: &ReminderUpdate, list: &str) -> (r: CreateReminderInput)
    ensures
        r@ == update_input(u@, list@),
{
    let title = match &u.title {
        Some(t) => t.clone(),
        None => String::new(),
    };
    let priority: i32 = match u.priority {
        Some(p) => p,
        None => 0,
    };
    let is_completed: bool = match u.is_completed {
        Some(b) => b,
        None => false,
    };
    CreateReminderInput {
        title,
        list_name: list.to_owned(),
        priority,
        due_date: flatten(&u.due_date),
        notes: flatten(&u.notes),
        is_completed,
        completion_date: flatten(&u.completion_date),
    }
}

/// The change to Reminders that an action calls for.
pub fn reminder_op(action: &SyncAction, config: &ListSyncConfig, map: &PriorityMap) -> (r: Option<
    (BatchOp, BatchedActionKind),
>)
    requires
        map@ == config@.mapping,
    ensures
        (match r {
            Some(x) => Some((x.0@, x.1@)),
            None => None,
        }) == op_for(action@, config@),
{
    match action {
        SyncAction::CreateReminder { task, target_list } => Some(
            (
                BatchOp::CreateReminder(create_input_for_task(task, map, target_list.as_str())),
                BatchedActionKind::Create {
                    original_task_line: task.to_line(),
                    target_list: target_list.clone(),
                },
            ),
        ),
        SyncAction::UpdateReminder { eid, updated_reminder } => Some(
            (
                BatchOp::UpdateReminder(updated_reminder.clone()),
                BatchedActionKind::Update { eid: eid.clone() },
            ),
        ),
        SyncAction::DeleteReminder { eid } => Some(
            (
                BatchOp::DeleteReminder {
                    eid: eid.clone(),
                    list_name: config.reminders_list.clone(),
                },
                BatchedActionKind::Delete { eid: eid.clone() },
            ),
        ),
        SyncAction::ResurrectReminder { eid, reminder_update, target_list } => Some(
            (
                BatchOp::CreateReminder(
                    create_input_for_update(reminder_update, target_list.as_str()),
                ),
                BatchedActionKind::Resurrect {
                    old_eid: eid.clone(),
                    target_list: target_list.clone(),
                },
            ),
        ),
        _ => None,
    }
}

/// The changes to Reminders that actions call for, in order.
pub fn reminder_ops(actions: &[SyncAction], config: &ListSyncConfig) -> (r: Vec<
    (BatchOp, BatchedActionKind),
>)
    ensures
        ops_view(r@) == ops_for(actions_view(actions@), config@),
{
    let map = config.compiled_priority_map();
    let ghost all = actions_view(actions@);
    let mut out: Vec<(BatchOp, BatchedActionKind)> = Vec::new();
    assert(all.take(0) =~= Seq::<ActionView>::empty());
    assert(ops_view(out@) =~= ops_for(all.take(0), config@));
    for i in 0..actions.len()
        invariant
            map@ == config@.mapping,
            all == actions_view(actions@),
            ops_view(out@) == ops_for(all.take(i as int), config@),
    {
        assert(all.take(i + 1).drop_last() =~= all.take(i as int));
        assert(all.take(i + 1).last() == actions@[i as int]@);
        let ghost before = ops_view(out@);
        if let Some(x) = reminder_op(&actions[i], config, &map) {
            out.push(x);
            assert(ops_view(out@) =~= before.push((x.0@, x.1@)));
        }
    }
    assert(all.take(all.len() as int) =~= all);
    out
}

// ---------------------------------------------------------------------------
// What becomes of the answers
// ---------------------------------------------------------------------------

/// The tasks, the known pairs and the log of a run in progress.
#[verifier::ext_equal]
pub struct Progress {
    pub tasks: Seq<TaskView>,
    pub items: Map<Seq<char>, ItemView>,
    pub undo: Seq<UndoView>,
}

/// The position of the first task with a line, or the number of tasks.
pub open spec fn first_line(ts: Seq<TaskView>, line: Seq<char>) -> nat
    decreases ts.len(),
{
    if ts.len() == 0 || line_of(ts[0]) == line {
        0
    } else {
        1 + first_line(ts.skip(1), line)
    }
}

/// A pair whose reminder was made from its task.
pub open spec fn pushed_item(
    eid: Seq<char>,
    t: TaskView,
    mapping: Seq<(i32, TargetView)>,
    list: Seq<char>,
    now: Timestamp,
    pushed: bool,
) -> ItemView {
    let fields = task_fields(t, mapping, None, list);
    ItemView {
        eid,
        fields,
        reminders_last_modified: None,
        task_line_hash: line_hash(t),
        reminders_field_hash: fields_hash(fields),
        last_synced: now,
        pushed,
    }
}

impl Progress {
    /// After a reminder was created for the task with a line: the task gets the
    /// external identifier, and the pair becomes known.
    pub open spec fn created(
        self,
        eid: Seq<char>,
        line: Seq<char>,
        list: Seq<char>,
        mapping: Seq<(i32, TargetView)>,
        now: Timestamp,
    ) -> Progress {
        let i = first_line(self.tasks, line) as int;
        let undo = self.undo.push(UndoView::UndoCreate { eid, list_name: list });
        if i < self.tasks.len() {
            let t = with_eid(self.tasks[i], eid);
            Progress {
                tasks: self.tasks.update(i, t),
                items: self.items.insert(eid, pushed_item(eid, t, mapping, list, now, true)),
                undo,
            }
        } else {
            Progress { undo, ..self }
        }
    }

    /// After a lost reminder was created anew: the task gets the new external
    /// identifier, and the pair goes on under it.
    pub open spec fn resurrected(
        self,
        eid: Seq<char>,
        old_eid: Seq<char>,
        list: Seq<char>,
        mapping: Seq<(i32, TargetView)>,
        now: Timestamp,
    ) -> Progress {
        let tasks = renamed(self.tasks, old_eid, eid);
        let pushed = if self.items.dom().contains(old_eid) {
            self.items[old_eid].pushed
        } else {
            true
        };
        let left = self.items.remove(old_eid);
        let i = first_with(tasks, eid) as int;
        Progress {
            tasks,
            items: if i < tasks.len() {
                left.insert(eid, pushed_item(eid, tasks[i], mapping, list, now, pushed))
            } else {
                left
            },
            undo: self.undo.push(UndoView::UndoCreate { eid, list_name: list }),
        }
    }

    /// After an answer to a change. A failed change leaves everything as it is.
    pub open spec fn answered(
        self,
        kind: KindView,
        result: ResultView,
        mapping: Seq<(i32, TargetView)>,
        now: Timestamp,
        rs: Seq<ReminderView>,
    ) -> Progress {
        if !result.ok {
            self
        } else {
            match kind {
                KindView::Create { original_task_line, target_list } => match result.reminder {
                    Some(r) => self.created(
                        r.external_id,
                        original_task_line,
                        target_list,
                        mapping,
                        now,
                    ),
                    None => self,
                },
                KindView::Update { eid } => {
                    let i = first_reminder(rs, eid) as int;
                    if i < rs.len() {
                        Progress {
                            undo: self.undo.push(UndoView::UndoUpdate { old_reminder: rs[i] }),
                            ..self
                        }
                    } else {
                        self
                    }
                },
                KindView::Delete { eid } => {
                    let i = first_reminder(rs, eid) as int;
                    if i < rs.len() {
                        Progress {
                            undo: self.undo.push(UndoView::UndoDelete { reminder: rs[i] }),
                            ..self
                        }
                    } else {
                        self
                    }
                },
                KindView::Resurrect { old_eid, target_list } => match result.reminder {
                    Some(r) => self.resurrected(r.external_id, old_eid, target_list, mapping, now),
                    None => self,
                },
            }
        }
    }

    /// After the first `n` answers.
    pub open spec fn answered_all(
        self,
        kinds: Seq<KindView>,
        results: Seq<ResultView>,
        mapping: Seq<(i32, TargetView)>,
        now: Timestamp,
        rs: Seq<ReminderView>,
        n: nat,
    ) -> Progress
        decreases n,
    {
        if n == 0 {
            self
        } else {
            self.answered_all(kinds, results, mapping, now, rs, (n - 1) as nat).answered(
                kinds[n - 1],
                results[n - 1],
                mapping,
                now,
                rs,
            )
        }
    }
}

/// The tasks, the known pairs and the log of a run in progress.
pub open spec fn progress(tasks: Seq<Task>, state: SyncState, undo: Seq<UndoEntry>) -> Progress {
    Progress { tasks: tasks_view(tasks), items: state@.items, undo: undo_view(undo) }
}

fn find_line(tasks: &Vec<Task>, line: &String) -> (r: usize)
    ensures
        r == first_line(tasks_view(tasks@), line@),
        r <= tasks@.len(),
{
    let ghost ts = tasks_view(tasks@);
    assert(ts.skip(0) =~= ts);
    for i in 0..tasks.len()
        invariant
            ts == tasks_view(tasks@),
            first_line(ts, line@) == i + first_line(ts.skip(i as int), line@),
    {
        assert(ts.skip(i as int)[0] == tasks@[i as int]@);
        assert(ts.skip(i as int).skip(1) =~= ts.skip(i + 1));
        if tasks[i].to_line() == *line {
            return i;
        }
    }
    tasks.len()
}

fn new_pushed_item(
    eid: &String,
    t: &Task,
    map: &PriorityMap,
    list: &str,
    now: Timestamp,
    pushed: bool,
) -> (item: SyncItemState)
    ensures
        item@ == pushed_item(eid@, t@, map@, list@, now, pushed),
{
    let fields = SyncedFieldState {
        title: extract_title(t),
        priority: task_priority(t, map),
        is_completed: t.finished,
        completion_date: task_completion_date(t),
        due_date: task_due_date(t),
        notes: task_notes(t),
        list: list.to_owned(),
    };
    let field_hash: u64 = synced_field_hash(&fields);
    SyncItemState {
        eid: eid.clone(),
        fields,
        reminders_last_modified: None,
        task_line_hash: task_line_hash(t),
        reminders_field_hash: field_hash,
        last_synced: now,
        pushed,
    }
}

fn log_undo(undo_entries: &mut Vec<UndoEntry>, e: UndoEntry)
    ensures
        undo_view(final(undo_entries)@) == undo_view(old(undo_entries)@).push(e@),
{
    let ghost before = undo_view(undo_entries@);
    undo_entries.push(e);
    assert(undo_view(undo_entries@) =~= before.push(e@));
}

/// Takes in that a reminder was created for the task with a line.
pub fn apply_create_result(
    reminder: &Reminder,
    original_task_line: &String,
    target_list: &str,
    tasks: &mut Vec<Task>,
    state: &mut SyncState,
    priority_map: &PriorityMap,
    now: Timestamp,
    undo_entries: &mut Vec<UndoEntry>,
)
    ensures
        progress(final(tasks)@, *final(state), final(undo_entries)@) == progress(
            old(tasks)@,
            *old(state),
            old(undo_entries)@,
        ).created(
            reminder@.external_id,
            original_task_line@,
            target_list@,
            priority_map@,
            now,
        ),
        final(state)@.last_sync_time == old(state)@.last_sync_time,
{
    let ghost ts = tasks_view(tasks@);
    let i: usize = find_line(tasks, original_task_line);
    if i < tasks.len() {
        let mut t = tasks[i].clone();
        t.set_eid(reminder.external_id.as_str());
        let item = new_pushed_item(
            &reminder.external_id,
            &t,
            priority_map,
            target_list,
            now,
            true,
        );
        tasks.set(i, t);
        assert(tasks_view(tasks@) =~= ts.update(i as int, t@));
        state.items.insert(reminder.external_id.clone(), item);
    }
    log_undo(
        undo_entries,
        UndoEntry::UndoCreate {
            eid: reminder.external_id.clone(),
            list_name: target_list.to_owned(),
        },
    );
}

/// Takes in that a lost reminder was created anew.
pub fn apply_resurrect_result(
    reminder: &Reminder,
    old_eid: &String,
    target_list: &str,
    tasks: &mut Vec<Task>,
    state: &mut SyncState,
    priority_map: &PriorityMap,
    now: Timestamp,
    undo_entries: &mut Vec<UndoEntry>,
)
    ensures
        progress(final(tasks)@, *final(state), final(undo_entries)@) == progress(
            old(tasks)@,
            *old(state),
            old(undo_entries)@,
        ).resurrected(reminder@.external_id, old_eid@, target_list@, priority_map@, now),
        final(state)@.last_sync_time == old(state)@.last_sync_time,
{
    let ghost ts = tasks_view(tasks@);
    let new_eid = &reminder.external_id;
    let i: usize = find_first(tasks.as_slice(), old_eid);
    if i < tasks.len() {
        let mut t = tasks[i].clone();
        t.set_eid(new_eid.as_str());
        tasks.set(i, t);
        assert(tasks_view(tasks@) =~= ts.update(i as int, with_eid(ts[i as int], new_eid@)));
    }
    assert(tasks_view(tasks@) == renamed(ts, old_eid@, new_eid@));
    let pushed: bool = match state.items.get(old_eid.as_str()) {
        Some(item) => item.pushed,
        None => true,
    };
    state.items.remove(old_eid.as_str());
    let j: usize = find_first(tasks.as_slice(), new_eid);
    if j < tasks.len() {
        assert(tasks_view(tasks@)[j as int] == tasks@[j as int]@);
        let item = new_pushed_item(new_eid, &tasks[j], priority_map, target_list, now, pushed);
        state.items.insert(new_eid.clone(), item);
    }
    log_undo(
        undo_entries,
        UndoEntry::UndoCreate { eid: new_eid.clone(), list_name: target_list.to_owned() },
    );
}

fn find_reminder_at(reminders: &[Reminder], eid: &String) -> (r: usize)
    ensures
        r == first_reminder(reminders_view(reminders@), eid@),
        r <= reminders@.len(),
{
    let ghost rs = reminders_view(reminders@);
    assert(rs.skip(0) =~= rs);
    for i in 0..reminders.len()
        invariant
            rs == reminders_view(reminders@),
            first_reminder(rs, eid@) == i + first_reminder(rs.skip(i as int), eid@),
    {
        assert(rs.skip(i as int)[0] == reminders@[i as int]@);
        assert(rs.skip(i as int).skip(1) =~= rs.skip(i + 1));
        if reminders[i].external_id == *eid {
            return i;
        }
    }
    reminders.len()
}

/// Takes in the answer to a change: what was created becomes known, and what was
/// changed can be undone. A failed change leaves everything as it is.
pub fn apply_batch_result(
    kind: &BatchedActionKind,
    result: &BatchItemResult,
    tasks: &mut Vec<Task>,
    state: &mut SyncState,
    priority_map: &PriorityMap,
    now: Timestamp,
    reminders: &[Reminder],
    undo_entries: &mut Vec<UndoEntry>,
)
    ensures
        progress(final(tasks)@, *final(state), final(undo_entries)@) == progress(
            old(tasks)@,
            *old(state),
            old(undo_entries)@,
        ).answered(kind@, result@, priority_map@, now, reminders_view(reminders@)),
        final(state)@.last_sync_time == old(state)@.last_sync_time,
{
    if !result.ok {
        return;
    }
    let ghost rs = reminders_view(reminders@);
    match kind {
        BatchedActionKind::Create { original_task_line, target_list } => {
            if let Some(reminder) = &result.reminder {
                apply_create_result(
                    reminder,
                    original_task_line,
                    target_list.as_str(),
                    tasks,
                    state,
                    priority_map,
                    now,
                    undo_entries,
                );
            }
        },
        BatchedActionKind::Update { eid } => {
            let i: usize = find_reminder_at(reminders, eid);
            if i < reminders.len() {
                assert(rs[i as int] == reminders@[i as int]@);
                log_undo(
                    undo_entries,
                    UndoEntry::UndoUpdate { old_reminder: reminders[i].clone() },
                );
            }
        },
        BatchedActionKind::Delete { eid } => {
            let i: usize = find_reminder_at(reminders, eid);
            if i < reminders.len() {
                assert(rs[i as int] == reminders@[i as int]@);
                log_undo(
                    undo_entries,
                    UndoEntry::UndoDelete { reminder: reminders[i].clone() },
                );
            }
        },
        BatchedActionKind::Resurrect { old_eid, target_list } => {
            if let Some(reminder) = &result.reminder {
                apply_resurrect_result(
                    reminder,
                    old_eid,
                    target_list.as_str(),
                    tasks,
                    state,
                    priority_map,
                    now,
                    undo_entries,
                );
            }
        },
    }
}

/// The kinds of a list of changes.
pub open spec fn kinds_view(v: Seq<(BatchOp, BatchedActionKind)>) -> Seq<KindView> {
    v.map_values(|x: (BatchOp, BatchedActionKind)| x.1@)
}

/// The content of a list of answers.
pub open spec fn results_view(v: Seq<BatchItemResult>) -> Seq<ResultView> {
    v.map_values(|x: BatchItemResult| x@)
}

/// How many of the first `n` answers are failures.
pub open spec fn failures(results: Seq<ResultView>, n: nat) -> nat
    decreases n,
{
    if n == 0 {
        0
    } else {
        failures(results, (n - 1) as nat) + if results[n - 1].ok {
            0nat
        } else {
            1
        }
    }
}

/// Takes in the answers to a batch of changes, in order, and counts the failures.
pub fn apply_batch_results(
    ops: &[(BatchOp, BatchedActionKind)],
    results: &[BatchItemResult],
    tasks: &mut Vec<Task>,
    state: &mut SyncState,
    config: &ListSyncConfig,
    now: Timestamp,
    reminders: &[Reminder],
    undo_entries: &mut Vec<UndoEntry>,
) -> (failed: usize)
    requires
        ops@.len() == results@.len(),
    ensures
        progress(final(tasks)@, *final(state), final(undo_entries)@) == progress(
            old(tasks)@,
            *old(state),
            old(undo_entries)@,
        ).answered_all(
            kinds_view(ops@),
            results_view(results@),
            config@.mapping,
            now,
            reminders_view(reminders@),
            ops@.len(),
        ),
        failed == failures(results_view(results@), results@.len()),
        final(state)@.last_sync_time == old(state)@.last_sync_time,
{
    let map = config.compiled_priority_map();
    let ghost start = progress(tasks@, *state, undo_entries@);
    let ghost ks = kinds_view(ops@);
    let ghost res = results_view(results@);
    let ghost rs = reminders_view(reminders@);
    let mut failed: usize = 0;
    for i in 0..ops.len()
        invariant
            ops@.len() == results@.len(),
            map@ == config@.mapping,
            ks == kinds_view(ops@),
            res == results_view(results@),
            rs == reminders_view(reminders@),
            failed <= i,
            failed == failures(res, i as nat),
            state@.last_sync_time == old(state)@.last_sync_time,
            progress(tasks@, *state, undo_entries@) == start.answered_all(
                ks,
                res,
                config@.mapping,
                now,
                rs,
                i as nat,
            ),
    {
        assert(ks[i as int] == ops@[i as int].1@);
        assert(res[i as int] == results@[i as int]@);
        if !results[i].ok {
            failed = failed + 1;
        }
        apply_batch_result(
            &ops[i].1,
            &results[i],
            tasks,
            state,
            &map,
            now,
            reminders,
            undo_entries,
        );
    }
    failed
}

// ---------------------------------------------------------------------------
// What holds of the answers
// ---------------------------------------------------------------------------

/// Answers that all are failures change nothing.
pub proof fn failures_change_nothing(
    p: Progress,
    kinds: Seq<KindView>,
    results: Seq<ResultView>,
    mapping: Seq<(i32, TargetView)>,
    now: Timestamp,
    rs: Seq<ReminderView>,
    n: nat,
)
    requires
        forall|i: int| 0 <= i < n ==> !(#[trigger] results[i]).ok,
    ensures
        p.answered_all(kinds, results, mapping, now, rs, n) == p,
        failures(results, n) == n,
    decreases n,
{
    if n > 0 {
        failures_change_nothing(p, kinds, results, mapping, now, rs, (n - 1) as nat);
        assert(!results[n - 1].ok);
    }
}

/// What can be undone stays so: an answer only adds to the log, and a successful
/// change of a known reminder, or one that created a reminder, adds its entry.
pub proof fn changes_are_logged(
    p: Progress,
    kind: KindView,
    result: ResultView,
    mapping: Seq<(i32, TargetView)>,
    now: Timestamp,
    rs: Seq<ReminderView>,
)
    ensures
        p.undo.is_prefix_of(p.answered(kind, result, mapping, now, rs).undo),
        result.ok && (match kind {
            KindView::Create { original_task_line, target_list } => result.reminder is Some,
            KindView::Resurrect { old_eid, target_list } => result.reminder is Some,
            KindView::Update { eid } => first_reminder(rs, eid) < rs.len(),
            KindView::Delete { eid } => first_reminder(rs, eid) < rs.len(),
        }) ==> p.answered(kind, result, mapping, now, rs).undo.len() == p.undo.len() + 1,
{
}

/// A text that can become the value of any `eid:` tag.
pub open spec fn is_plain_eid(eid: Seq<char>) -> bool {
    eid.len() > 0 && !(eid.len() >= 2 && eid[0] == '/' && eid[1] == '/')
}

/// A task for which a reminder was created belongs to a known pair from then on,
/// and so is not pushed again.
pub proof fn created_task_is_known(
    p: Progress,
    eid: Seq<char>,
    line: Seq<char>,
    list: Seq<char>,
    mapping: Seq<(i32, TargetView)>,
    now: Timestamp,
    next: Scene,
)
    requires
        first_line(p.tasks, line) < p.tasks.len(),
        is_plain_eid(eid),
        next.items() == p.created(eid, line, list, mapping, now).items,
    ensures
        ({
            let t = p.created(eid, line, list, mapping, now).tasks[first_line(
                p.tasks,
                line,
            ) as int];
            eid_of(t) == Some(eid) && next.knows(eid) && !next.is_pushed(t)
        }),
{
}

/// Failures are counted one by one; there is none where every change succeeded.
pub proof fn failures_are_counted(results: Seq<ResultView>, n: nat)
    ensures
        failures(results, n + 1) == failures(results, n) + (if results[n as int].ok {
            0nat
        } else {
            1
        }),
        failures(results, n) == 0 <==> forall|i: int| 0 <= i < n ==> (#[trigger] results[i]).ok,
        failures(results, n) <= n,
    decreases n,
{
    if n > 0 {
        let m = (n - 1) as nat;
        failures_are_counted(results, m);
        if failures(results, n) == 0 {
            assert forall|i: int| 0 <= i < n implies (#[trigger] results[i]).ok by {
                if i < m {
                    assert(failures(results, m) == 0);
                }
            }
        }
    }
}

/// The changes to Reminders are those of the actions, in their order: a deletion asks to
/// delete the reminder from the list, and what concerns the file alone asks for nothing.
pub proof fn changes_follow_actions(a: Seq<ActionView>, b: Seq<ActionView>, x: ActionView, c: ConfigView)
    ensures
        ops_for(a + b, c) == ops_for(a, c) + ops_for(b, c),
        ops_for(seq![x], c).len() == (if x is CreateReminder || x is UpdateReminder || x
            is DeleteReminder || x is ResurrectReminder {
            1nat
        } else {
            0
        }),
        op_for(x, c) matches Some(op) ==> ops_for(seq![x], c) == seq![op],
        x matches ActionView::DeleteReminder { eid } ==> op_for(x, c) == Some(
            (
                OpView::DeleteReminder { eid, list_name: c.reminders_list },
                KindView::Delete { eid },
            ),
        ),
    decreases b.len(),
{
    assert(seq![x].drop_last() =~= Seq::<ActionView>::empty());
    assert(ops_for(seq![x].drop_last(), c) =~= Seq::<(OpView, KindView)>::empty());
    assert(seq![x].last() == x);
    if let Some(op) = op_for(x, c) {
        assert(ops_for(seq![x], c) =~= seq![op]);
    }
    if b.len() == 0 {
        assert(a + b =~= a);
        assert(ops_for(a, c) + ops_for(b, c) =~= ops_for(a, c));
    } else {
        changes_follow_actions(a, b.drop_last(), x, c);
        assert((a + b).drop_last() =~= a + b.drop_last());
        assert(ops_for(a + b, c) =~= ops_for(a, c) + ops_for(b, c));
    }
}

} // verus!
