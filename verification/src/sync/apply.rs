//! Carrying out the file's side of a sync run.

use crate::dates::{Date, Timestamp};
use crate::keyed::{distinct_keys, lemma_map_of, map_of, TextMap};
use crate::mapping::{reminder_line, reminder_to_task_on};
use crate::sync::actions::{actions_view, ActionView, SyncAction};
use crate::sync::config::{ConfigView, ListSyncConfig, PriorityMap, TargetView};
use crate::sync::fields::{
    build_field_state_from_reminder, extract_title, fields_hash, is_sentinel, is_sentinel_eid,
    line_hash, modified_at, parse_reminder_modified, reminder_fields, synced_field_hash,
    task_completion_date, task_due_date, task_fields, task_line_hash, task_priority,
};
use crate::sync::plan::tasks_view;
use crate::sync::state::{
    copy_items, FieldsView, ItemView, SyncItemState, SyncState, SyncedFieldState,
};
use crate::task::{eid_of, parsed_task, with_context, with_eid, Task, TaskView};
use crate::text::{copy_opt, has_prefix};
use vstd::prelude::*;

verus! {

// ---------------------------------------------------------------------------
// Effects
// ---------------------------------------------------------------------------

/// The tasks of the file and the known pairs.
#[verifier::ext_equal]
pub struct Board {
    pub tasks: Seq<TaskView>,
    pub items: Map<Seq<char>, ItemView>,
}

/// The position of the first task with an external identifier, or the number of
/// tasks.
pub open spec fn first_with(ts: Seq<TaskView>, eid: Seq<char>) -> nat
    decreases ts.len(),
{
    if ts.len() == 0 || eid_of(ts[0]) == Some(eid) {
        0
    } else {
        1 + first_with(ts.skip(1), eid)
    }
}

/// The last task with an external identifier.
pub open spec fn last_with(ts: Seq<TaskView>, eid: Seq<char>) -> Option<TaskView>
    decreases ts.len(),
{
    if ts.len() == 0 {
        None
    } else if eid_of(ts.last()) == Some(eid) {
        Some(ts.last())
    } else {
        last_with(ts.drop_last(), eid)
    }
}

/// Tasks of which the first with an external identifier was replaced, or to which
/// the task was added where there is none.
pub open spec fn replaced(ts: Seq<TaskView>, eid: Seq<char>, t: TaskView) -> Seq<TaskView> {
    let i = first_with(ts, eid) as int;
    if i < ts.len() {
        ts.update(i, t)
    } else {
        ts.push(t)
    }
}

/// Tasks of which the first with an external identifier got another one, or none
/// where the new one is empty.
pub open spec fn renamed(ts: Seq<TaskView>, eid: Seq<char>, new: Seq<char>) -> Seq<TaskView> {
    let i = first_with(ts, eid) as int;
    if i < ts.len() {
        ts.update(i, with_eid(ts[i], new))
    } else {
        ts
    }
}

/// A pair that has been brought in line with its task.
pub open spec fn refreshed(
    item: ItemView,
    t: TaskView,
    mapping: Seq<(i32, TargetView)>,
    now: Timestamp,
) -> ItemView {
    let fields = task_fields(t, mapping, item.fields.notes, item.fields.list);
    ItemView {
        fields,
        task_line_hash: line_hash(t),
        reminders_field_hash: fields_hash(fields),
        last_synced: now,
        ..item
    }
}

/// A new pair that came about by pulling a reminder.
pub open spec fn pulled_item(
    eid: Seq<char>,
    fields: FieldsView,
    modified: Option<Timestamp>,
    t: TaskView,
    now: Timestamp,
) -> ItemView {
    ItemView {
        eid,
        fields,
        reminders_last_modified: modified,
        task_line_hash: line_hash(t),
        reminders_field_hash: fields_hash(fields),
        last_synced: now,
        pushed: false,
    }
}

/// The task that an imported reminder becomes: with the context of its list.
pub open spec fn imported_task(line: Seq<char>, c: ConfigView, today: int) -> TaskView {
    let t = parsed_task(line, today);
    match c.auto_context {
        Some(ctx) => with_context(t, ctx),
        None => t,
    }
}

impl Board {
    /// What becomes of the board when a task is updated.
    pub open spec fn task_updated(
        self,
        eid: Seq<char>,
        t: TaskView,
        mapping: Seq<(i32, TargetView)>,
        now: Timestamp,
    ) -> Board {
        Board {
            tasks: replaced(self.tasks, eid, t),
            items: if self.items.dom().contains(eid) {
                self.items.insert(eid, refreshed(self.items[eid], t, mapping, now))
            } else {
                self.items
            },
        }
    }

    /// What becomes of the known pairs when a pair goes on with another external
    /// identifier: it keeps everything but the hash of its line.
    pub open spec fn relinked_items(
        self,
        tasks: Seq<TaskView>,
        old_eid: Seq<char>,
        new_eid: Seq<char>,
        now: Timestamp,
    ) -> Map<Seq<char>, ItemView> {
        if self.items.dom().contains(old_eid) {
            let i = first_with(tasks, new_eid) as int;
            let item = self.items[old_eid];
            self.items.remove(old_eid).insert(
                new_eid,
                ItemView {
                    eid: new_eid,
                    task_line_hash: if i < tasks.len() {
                        line_hash(tasks[i])
                    } else {
                        item.task_line_hash
                    },
                    last_synced: now,
                    ..item
                },
            )
        } else {
            self.items
        }
    }

    /// What becomes of the board by one action.
    pub open spec fn after(self, a: ActionView, c: ConfigView, now: Timestamp, today: int) -> Board {
        match a {
            ActionView::CreateTask { eid, reminder } => {
                let t = imported_task(reminder_line(reminder, c.mapping), c, today);
                Board {
                    tasks: self.tasks.push(t),
                    items: self.items.insert(
                        eid,
                        pulled_item(eid, reminder_fields(reminder), modified_at(reminder), t, now),
                    ),
                }
            },
            ActionView::UpdateTask { eid, updated_task } => self.task_updated(
                eid,
                updated_task,
                c.mapping,
                now,
            ),
            ActionView::MergeConflict { eid, updated_task, updated_reminder } => self.task_updated(
                eid,
                updated_task,
                c.mapping,
                now,
            ),
            ActionView::UpdateReminder { eid, updated_reminder } => {
                let i = first_with(self.tasks, eid) as int;
                Board {
                    items: if self.items.dom().contains(eid) && i < self.tasks.len() {
                        self.items.insert(
                            eid,
                            refreshed(self.items[eid], self.tasks[i], c.mapping, now),
                        )
                    } else {
                        self.items
                    },
                    ..self
                }
            },
            ActionView::DeleteTask { eid } => Board {
                tasks: self.tasks.filter(|t: TaskView| eid_of(t) != Some(eid)),
                items: self.items.remove(eid),
            },
            ActionView::DeleteReminder { eid } => Board {
                tasks: renamed(self.tasks, eid, Seq::empty()),
                items: self.items.remove(eid),
            },
            ActionView::ResurrectTask { eid, task } => Board {
                tasks: self.tasks.push(task),
                items: self.items.insert(
                    eid,
                    pulled_item(
                        eid,
                        task_fields(task, c.mapping, None, c.reminders_list),
                        None,
                        task,
                        now,
                    ),
                ),
            },
            ActionView::ResurrectReminder { eid, reminder_update, target_list } => Board {
                items: if self.items.dom().contains(eid) {
                    self.items.insert(eid, ItemView { last_synced: now, ..self.items[eid] })
                } else {
                    self.items
                },
                ..self
            },
            ActionView::CreateReminder { task, target_list } => self,
            ActionView::CleanSentinelTag { sentinel_eid } => Board {
                tasks: renamed(
                    self.tasks,
                    sentinel_eid,
                    if "na/"@.is_prefix_of(sentinel_eid) {
                        "na"@
                    } else {
                        Seq::empty()
                    },
                ),
                ..self
            },
            ActionView::RelinkEid { old_eid, new_eid } => {
                let tasks = renamed(self.tasks, old_eid, new_eid);
                Board { tasks, items: self.relinked_items(tasks, old_eid, new_eid, now) }
            },
        }
    }

    /// What becomes of the board by a list of actions, one after the other.
    pub open spec fn after_all(
        self,
        actions: Seq<ActionView>,
        c: ConfigView,
        now: Timestamp,
        today: int,
    ) -> Board
        decreases actions.len(),
    {
        if actions.len() == 0 {
            self
        } else {
            self.after_all(actions.drop_last(), c, now, today).after(actions.last(), c, now, today)
        }
    }

    /// Whether a task carries an external identifier of no known pair.
    pub open spec fn is_orphan(self, t: TaskView) -> bool {
        eid_of(t) matches Some(e) && e.len() > 0 && !is_sentinel(e) && !self.items.dom().contains(e)
    }

    /// The board with the external identifiers of no known pair taken off.
    pub open spec fn without_orphans(self) -> Board {
        Board {
            tasks: self.tasks.map_values(
                |t: TaskView|
                    if self.is_orphan(t) {
                        with_eid(t, Seq::empty())
                    } else {
                        t
                    },
            ),
            ..self
        }
    }

    /// A pair with the hash of its task's line.
    pub open spec fn rehashed(self, eid: Seq<char>, item: ItemView) -> ItemView {
        match last_with(self.tasks, eid) {
            Some(t) => ItemView { task_line_hash: line_hash(t), ..item },
            None => item,
        }
    }

    /// The board with the hashes of the tasks' lines.
    pub open spec fn with_hashes(self) -> Board {
        Board {
            items: Map::new(
                |e: Seq<char>| self.items.dom().contains(e),
                |e: Seq<char>| self.rehashed(e, self.items[e]),
            ),
            ..self
        }
    }

    /// What becomes of the board in a run.
    pub open spec fn after_run(
        self,
        actions: Seq<ActionView>,
        c: ConfigView,
        now: Timestamp,
        today: int,
    ) -> Board {
        self.after_all(actions, c, now, today).without_orphans().with_hashes()
    }
}

// ---------------------------------------------------------------------------
// Searching
// ---------------------------------------------------------------------------

proof fn lemma_first_with_is(ts: Seq<TaskView>, eid: Seq<char>, n: int)
    requires
        0 <= n <= ts.len(),
        forall|j: int| 0 <= j < n ==> eid_of(#[trigger] ts[j]) != Some(eid),
        n < ts.len() ==> eid_of(ts[n]) == Some(eid),
    ensures
        first_with(ts, eid) == n,
    decreases ts.len(),
{
    if n > 0 {
        assert forall|j: int| 0 <= j < n - 1 implies eid_of(#[trigger] ts.skip(1)[j]) != Some(eid) by {
            assert(ts.skip(1)[j] == ts[j + 1]);
        }
        if n < ts.len() {
            assert(ts.skip(1)[n - 1] == ts[n]);
        }
        lemma_first_with_is(ts.skip(1), eid, n - 1);
    }
}

/// Whether a task carries an external identifier.
fn has_eid(t: &Task, eid: &String) -> (r: bool)
    ensures
        r == (eid_of(t@) == Some(eid@)),
{
    match t.eid() {
        Some(e) => *e == *eid,
        None => false,
    }
}

/// The position of the first task with an external identifier, or the number of
/// tasks.
pub fn find_first(tasks: &[Task], eid: &String) -> (r: usize)
    ensures
        r == first_with(tasks_view(tasks@), eid@),
        r <= tasks@.len(),
        r < tasks@.len() ==> eid_of(tasks@[r as int]@) == Some(eid@),
{
    let ghost ts = tasks_view(tasks@);
    for i in 0..tasks.len()
        invariant
            ts == tasks_view(tasks@),
            forall|j: int| 0 <= j < i ==> eid_of(#[trigger] ts[j]) != Some(eid@),
    {
        assert(ts[i as int] == tasks@[i as int]@);
        if has_eid(&tasks[i], eid) {
            proof {
                lemma_first_with_is(ts, eid@, i as int);
            }
            return i;
        }
    }
    proof {
        lemma_first_with_is(ts, eid@, ts.len() as int);
    }
    tasks.len()
}

/// The position of the last task with an external identifier.
fn find_last(tasks: &Vec<Task>, eid: &String) -> (r: Option<usize>)
    ensures
        match r {
            Some(i) => i < tasks@.len() && last_with(tasks_view(tasks@), eid@) == Some(
                tasks@[i as int]@,
            ),
            None => last_with(tasks_view(tasks@), eid@) is None,
        },
{
    let ghost ts = tasks_view(tasks@);
    let mut n: usize = tasks.len();
    assert(ts.take(n as int) =~= ts);
    while n > 0
        invariant
            n <= tasks@.len(),
            ts == tasks_view(tasks@),
            last_with(ts.take(n as int), eid@) == last_with(ts, eid@),
        decreases n,
    {
        assert(ts.take(n as int).last() == tasks@[n - 1]@);
        assert(ts.take(n as int).drop_last() =~= ts.take(n - 1));
        if has_eid(&tasks[n - 1], eid) {
            return Some(n - 1);
        }
        n = n - 1;
    }
    None
}

// ---------------------------------------------------------------------------
// Carrying out
// ---------------------------------------------------------------------------

/// Replaces the first task with an external identifier, or adds the task.
fn replace_task(tasks: &mut Vec<Task>, eid: &String, t: Task)
    ensures
        tasks_view(final(tasks)@) == replaced(tasks_view(old(tasks)@), eid@, t@),
{
    let i: usize = find_first(tasks.as_slice(), eid);
    let ghost before = tasks_view(tasks@);
    if i < tasks.len() {
        tasks.set(i, t);
        assert(tasks_view(tasks@) =~= before.update(i as int, t@));
    } else {
        tasks.push(t);
        assert(tasks_view(tasks@) =~= before.push(t@));
    }
}

/// Gives the first task with an external identifier another one, or none where
/// the new one is empty.
fn rename_task(tasks: &mut Vec<Task>, eid: &String, new: &str)
    ensures
        tasks_view(final(tasks)@) == renamed(tasks_view(old(tasks)@), eid@, new@),
{
    let i: usize = find_first(tasks.as_slice(), eid);
    let ghost before = tasks_view(tasks@);
    if i < tasks.len() {
        let mut t = tasks[i].clone();
        t.set_eid(new);
        tasks.set(i, t);
        assert(tasks_view(tasks@) =~= before.update(i as int, with_eid(before[i as int], new@)));
    }
}

/// Drops every task with an external identifier.
fn drop_tasks(tasks: Vec<Task>, eid: &String) -> (r: Vec<Task>)
    ensures
        tasks_view(r@) == tasks_view(tasks@).filter(|t: TaskView| eid_of(t) != Some(eid@)),
{
    let ghost ts = tasks_view(tasks@);
    let ghost keep = |t: TaskView| eid_of(t) != Some(eid@);
    let mut out: Vec<Task> = Vec::new();
    proof {
        reveal(Seq::filter);
        assert(ts.take(0) =~= Seq::<TaskView>::empty());
        assert(tasks_view(out@) =~= ts.take(0).filter(keep));
    }
    for i in 0..tasks.len()
        invariant
            ts == tasks_view(tasks@),
            keep == (|t: TaskView| eid_of(t) != Some(eid@)),
            tasks_view(out@) == ts.take(i as int).filter(keep),
    {
        let ghost before = tasks_view(out@);
        proof {
            reveal(Seq::filter);
            let more = ts.take(i + 1);
            assert(more.drop_last() =~= ts.take(i as int));
            assert(more.last() == tasks@[i as int]@);
        }
        if !has_eid(&tasks[i], eid) {
            out.push(tasks[i].clone());
            assert(tasks_view(out@) =~= before.push(tasks@[i as int]@));
        }
    }
    assert(ts.take(tasks@.len() as int) =~= ts);
    out
}

/// The fields that a task has in Reminders.
fn fields_of_task(
    task: &Task,
    map: &PriorityMap,
    notes: Option<String>,
    list: String,
) -> (f: SyncedFieldState)
    ensures
        f@ == task_fields(task@, map@, crate::text::opt_text(notes), list@),
{
    SyncedFieldState {
        title: extract_title(task),
        priority: task_priority(task, map),
        is_completed: task.finished,
        completion_date: task_completion_date(task),
        due_date: task_due_date(task),
        notes,
        list,
    }
}

/// Brings a known pair in line with its task.
fn refresh_item(
    items: &mut TextMap<SyncItemState>,
    eid: &String,
    task: &Task,
    map: &PriorityMap,
    now: Timestamp,
)
    ensures
        final(items)@ == (if old(items)@.dom().contains(eid@) {
            old(items)@.insert(eid@, refreshed(old(items)@[eid@], task@, map@, now))
        } else {
            old(items)@
        }),
{
    let found: Option<SyncItemState> = match items.get(eid.as_str()) {
        Some(item) => Some(item.clone()),
        None => None,
    };
    if let Some(mut item) = found {
        let fields = fields_of_task(
            task,
            map,
            copy_opt(&item.fields.notes),
            item.fields.list.clone(),
        );
        item.task_line_hash = task_line_hash(task);
        item.reminders_field_hash = synced_field_hash(&fields);
        item.fields = fields;
        item.last_synced = now;
        assert(item@ == refreshed(old(items)@[eid@], task@, map@, now));
        items.insert(eid.clone(), item);
    }
}

/// A new pair that came about by pulling a reminder.
fn new_pulled_item(
    eid: &String,
    fields: SyncedFieldState,
    modified: Option<Timestamp>,
    task: &Task,
    now: Timestamp,
) -> (item: SyncItemState)
    ensures
        item@ == pulled_item(eid@, fields@, modified, task@, now),
{
    let field_hash: u64 = synced_field_hash(&fields);
    SyncItemState {
        eid: eid.clone(),
        fields,
        reminders_last_modified: modified,
        task_line_hash: task_line_hash(task),
        reminders_field_hash: field_hash,
        last_synced: now,
        pushed: false,
    }
}

/// Carries out one action on the tasks and the known pairs.
fn apply_action(
    action: &SyncAction,
    tasks: Vec<Task>,
    items: TextMap<SyncItemState>,
    config: &ListSyncConfig,
    map: &PriorityMap,
    now: Timestamp,
    today: Date,
) -> (r: (Vec<Task>, TextMap<SyncItemState>))
    requires
        today.has_room(),
        map@ == config@.mapping,
    ensures
        (Board { tasks: tasks_view(r.0@), items: r.1@ }) == (Board {
            tasks: tasks_view(tasks@),
            items: items@,
        }).after(action@, config@, now, today@),
{
    let mut tasks = tasks;
    let mut items = items;
    let ghost ts = tasks_view(tasks@);
    let ghost known = items@;
    match action {
        SyncAction::CreateTask { eid, reminder } => {
            let mut task = reminder_to_task_on(reminder, map, today);
            if let Some(ctx) = &config.auto_context {
                task.add_context(ctx.as_str());
            }
            let fields = build_field_state_from_reminder(reminder);
            let modified = parse_reminder_modified(reminder);
            let item = new_pulled_item(eid, fields, modified, &task, now);
            tasks.push(task);
            items.insert(eid.clone(), item);
            assert(tasks_view(tasks@) =~= ts.push(task@));
        },
        SyncAction::UpdateTask { eid, updated_task } => {
            replace_task(&mut tasks, eid, updated_task.clone());
            refresh_item(&mut items, eid, updated_task, map, now);
        },
        SyncAction::MergeConflict { eid, updated_task, updated_reminder: _ } => {
            replace_task(&mut tasks, eid, updated_task.clone());
            refresh_item(&mut items, eid, updated_task, map, now);
        },
        SyncAction::UpdateReminder { eid, updated_reminder: _ } => {
            let i: usize = find_first(tasks.as_slice(), eid);
            if i < tasks.len() {
                assert(ts[i as int] == tasks@[i as int]@);
                refresh_item(&mut items, eid, &tasks[i], map, now);
            }
        },
        SyncAction::DeleteTask { eid } => {
            tasks = drop_tasks(tasks, eid);
            items.remove(eid.as_str());
        },
        SyncAction::DeleteReminder { eid } => {
            proof {
                reveal_strlit("");
                assert(""@ =~= Seq::<char>::empty());
            }
            items.remove(eid.as_str());
            rename_task(&mut tasks, eid, "");
        },
        SyncAction::ResurrectTask { eid, task } => {
            let fields = fields_of_task(task, map, None, config.reminders_list.clone());
            let item = new_pulled_item(eid, fields, None, task, now);
            tasks.push(task.clone());
            items.insert(eid.clone(), item);
            assert(tasks_view(tasks@) =~= ts.push(task@));
        },
        SyncAction::ResurrectReminder { eid, reminder_update: _, target_list: _ } => {
            let found: Option<SyncItemState> = match items.get(eid.as_str()) {
                Some(item) => Some(item.clone()),
                None => None,
            };
            if let Some(mut item) = found {
                item.last_synced = now;
                assert(item@ == (ItemView { last_synced: now, ..known[eid@] }));
                items.insert(eid.clone(), item);
            }
        },
        SyncAction::CreateReminder { task: _, target_list: _ } => {},
        SyncAction::CleanSentinelTag { sentinel_eid } => {
            proof {
                reveal_strlit("");
                assert(""@ =~= Seq::<char>::empty());
            }
            if has_prefix(sentinel_eid.as_str(), "na/") {
                rename_task(&mut tasks, sentinel_eid, "na");
            } else {
                rename_task(&mut tasks, sentinel_eid, "");
            }
        },
        SyncAction::RelinkEid { old_eid, new_eid } => {
            rename_task(&mut tasks, old_eid, new_eid.as_str());
            let ghost ts2 = tasks_view(tasks@);
            let removed = items.remove(old_eid.as_str());
            if let Some(mut item) = removed {
                item.eid = new_eid.clone();
                let i: usize = find_first(tasks.as_slice(), new_eid);
                if i < tasks.len() {
                    assert(ts2[i as int] == tasks@[i as int]@);
                    item.task_line_hash = task_line_hash(&tasks[i]);
                }
                item.last_synced = now;
                items.insert(new_eid.clone(), item);
            } else {
                assert(known.remove(old_eid@) =~= known);
            }
        },
    }
    (tasks, items)
}

/// Takes off the external identifiers of no known pair.
fn strip_orphans(tasks: Vec<Task>, items: &TextMap<SyncItemState>) -> (r: Vec<Task>)
    ensures
        tasks_view(r@) == (Board { tasks: tasks_view(tasks@), items: items@ }).without_orphans().tasks,
{
    let ghost b = Board { tasks: tasks_view(tasks@), items: items@ };
    let ghost wanted = b.without_orphans().tasks;
    let mut out: Vec<Task> = Vec::new();
    proof {
        reveal_strlit("");
        assert(""@ =~= Seq::<char>::empty());
    }
    assert(tasks_view(out@) =~= wanted.take(0));
    for i in 0..tasks.len()
        invariant
            ""@ == Seq::<char>::empty(),
            b == (Board { tasks: tasks_view(tasks@), items: items@ }),
            wanted == b.without_orphans().tasks,
            wanted.len() == tasks@.len(),
            out@.len() == i,
            tasks_view(out@) == wanted.take(i as int),
    {
        let mut t = tasks[i].clone();
        assert(b.tasks[i as int] == t@);
        let orphan: bool = match t.eid() {
            Some(e) => !e.as_str().is_empty() && !is_sentinel_eid(e.as_str())
                && !items.contains_key(e.as_str()),
            None => false,
        };
        assert(orphan == b.is_orphan(t@));
        if orphan {
            t.set_eid("");
        }
        let ghost before = tasks_view(out@);
        out.push(t);
        assert(wanted[i as int] == t@);
        assert(tasks_view(out@) =~= before.push(t@));
        assert(tasks_view(out@) =~= wanted.take(i + 1));
    }
    assert(wanted.take(wanted.len() as int) =~= wanted);
    out
}

/// Pairs of a list of which the values were changed have the same keys.
proof fn lemma_same_keys<X>(a: Seq<(Seq<char>, X)>, b: Seq<(Seq<char>, X)>)
    requires
        a.len() == b.len(),
        distinct_keys(a),
        forall|i: int| 0 <= i < a.len() ==> (#[trigger] a[i]).0 == (#[trigger] b[i]).0,
    ensures
        distinct_keys(b),
        map_of(a).dom() =~= map_of(b).dom(),
{
    assert forall|i: int, j: int| 0 <= i < j < b.len() implies (#[trigger] b[i]).0 != (
    #[trigger] b[j]).0 by {
        assert(a[i].0 != a[j].0);
    }
    lemma_map_of(a);
    lemma_map_of(b);
    assert forall|k: Seq<char>| map_of(a).dom().contains(k) <==> map_of(b).dom().contains(k) by {
        if map_of(a).dom().contains(k) {
            let i = choose|i: int| 0 <= i < a.len() && (#[trigger] a[i]).0 == k;
            assert(b[i].0 == k);
        }
        if map_of(b).dom().contains(k) {
            let i = choose|i: int| 0 <= i < b.len() && (#[trigger] b[i]).0 == k;
            assert(a[i].0 == k);
        }
    }
}

/// Brings the hashes of the tasks' lines up to date.
fn refresh_hashes(tasks: &Vec<Task>, items: &TextMap<SyncItemState>) -> (r: TextMap<SyncItemState>)
    ensures
        r@ == (Board { tasks: tasks_view(tasks@), items: items@ }).with_hashes().items,
{
    let ghost b = Board { tasks: tasks_view(tasks@), items: items@ };
    let n: usize = items.len();
    let ghost pairs = items.pairs();
    let ghost wanted = pairs.map_values(
        |p: (Seq<char>, ItemView)| (p.0, b.rehashed(p.0, p.1)),
    );
    let mut out: TextMap<SyncItemState> = TextMap::new();
    proof {
        assert forall|i: int| 0 <= i < pairs.len() implies (#[trigger] pairs[i]).0 == (
        #[trigger] wanted[i]).0 by {}
        lemma_same_keys(pairs, wanted);
    }
    assert(wanted.take(0) =~= Seq::<(Seq<char>, ItemView)>::empty());
    for i in 0..n
        invariant
            n == pairs.len(),
            pairs == items.pairs(),
            b == (Board { tasks: tasks_view(tasks@), items: items@ }),
            wanted == pairs.map_values(
                |p: (Seq<char>, ItemView)| (p.0, b.rehashed(p.0, p.1)),
            ),
            distinct_keys(wanted),
            out.pairs() == wanted.take(i as int),
    {
        let key = items.key_at(i);
        let mut item = items.value_at(i).clone();
        if let Some(k) = find_last(tasks, key) {
            item.task_line_hash = task_line_hash(&tasks[k]);
        }
        assert(wanted[i as int] == (key@, item@));
        proof {
            crate::keyed::lemma_fresh_key(wanted, i as int);
        }
        out.insert(key.clone(), item);
        assert(out.pairs() =~= wanted.take(i + 1));
    }
    proof {
        assert(wanted.take(n as int) =~= wanted);
        lemma_map_of(pairs);
        lemma_map_of(wanted);
        let goal = b.with_hashes().items;
        assert(map_of(wanted).dom() =~= goal.dom());
        assert forall|k: Seq<char>| map_of(wanted).dom().contains(k) implies map_of(wanted)[k]
            == goal[k] by {
            let i = choose|i: int| 0 <= i < wanted.len() && (#[trigger] wanted[i]).0 == k;
            assert(pairs[i].0 == k);
            assert(map_of(pairs)[k] == pairs[i].1);
        }
        assert(map_of(wanted) =~= goal);
    }
    out
}

/// Carries out the file's side of a run on the day `today`: every action in
/// order; then external identifiers of no known pair are taken off, and the
/// hashes of the tasks' lines are brought up to date.
pub fn apply_task_actions_on(
    actions: &[SyncAction],
    tasks: Vec<Task>,
    state: &SyncState,
    config: &ListSyncConfig,
    now: Timestamp,
    today: Date,
) -> (r: (Vec<Task>, SyncState))
    requires
        today.has_room(),
    ensures
        (Board { tasks: tasks_view(r.0@), items: r.1@.items }) == (Board {
            tasks: tasks_view(tasks@),
            items: state@.items,
        }).after_run(actions_view(actions@), config@, now, today@),
        r.1@.last_sync_time == Some(now),
{
    let map = config.compiled_priority_map();
    let ghost start = Board { tasks: tasks_view(tasks@), items: state@.items };
    let ghost all = actions_view(actions@);
    let mut tasks = tasks;
    let mut items = copy_items(&state.items);
    assert(all.take(0) =~= Seq::<ActionView>::empty());
    for i in 0..actions.len()
        invariant
            today.has_room(),
            map@ == config@.mapping,
            all == actions_view(actions@),
            (Board { tasks: tasks_view(tasks@), items: items@ }) == start.after_all(
                all.take(i as int),
                config@,
                now,
                today@,
            ),
    {
        assert(all.take(i + 1).drop_last() =~= all.take(i as int));
        assert(all.take(i + 1).last() == actions@[i as int]@);
        let (t, s) = apply_action(&actions[i], tasks, items, config, &map, now, today);
        tasks = t;
        items = s;
    }
    assert(all.take(all.len() as int) =~= all);
    let ghost done = start.after_all(all, config@, now, today@);
    let tasks = strip_orphans(tasks, &items);
    assert((Board { tasks: tasks_view(tasks@), items: items@ }) == done.without_orphans());
    let items = refresh_hashes(&tasks, &items);
    (tasks, SyncState { items, last_sync_time: Some(now) })
}

/// Carries out the file's side of a run. Relative dates are counted from today in
/// the local time zone.
pub fn apply_task_actions(
    actions: &[SyncAction],
    tasks: Vec<Task>,
    state: &SyncState,
    config: &ListSyncConfig,
    now: Timestamp,
) -> (r: (Vec<Task>, SyncState))
    ensures
        exists|today: int|
            (Board { tasks: tasks_view(r.0@), items: r.1@.items }) == #[trigger] (Board {
                tasks: tasks_view(tasks@),
                items: state@.items,
            }).after_run(actions_view(actions@), config@, now, today),
        r.1@.last_sync_time == Some(now),
{
    let today = Date::today().within_reach();
    apply_task_actions_on(actions, tasks, state, config, now, today)
}

} // verus!
