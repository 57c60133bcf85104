//! What an action does to the file and to the known pairs, and what an answer does: to
//! the task and the pair that it is about, and to nothing else.

use crate::dates::Timestamp;
use crate::execute::{first_line, KindView, Progress};
use crate::mapping::reminder_line;
use crate::reminder::ReminderView;
use crate::swift_cli::{OpView, ResultView};
use crate::sync::actions::{ActionView, UpdateView};
use crate::sync::apply::{first_with, Board};
use crate::sync::bootstrap::first_reminder;
use crate::sync::check::lemma_first_with;
use crate::sync::config::{ConfigView, TargetView};
use crate::sync::faithful::{are_fields_of, as_reminder, lemma_first_at, written_time};
use crate::sync::fields::{
    day_text, fields_hash, is_sentinel, line_hash, reminder_fields, title_of,
};
use crate::sync::imports::{imported_task_agrees, is_plain_reminder, says_the_same};
use crate::sync::laws::{agree, has_clear_targets};
use crate::sync::state::ItemView;
use crate::task::{
    eid_of, is_read, lemma_context_added, line_of, one_word, parsed_task, with_context, TaskView,
};
use crate::undo::{undoing_op, with_update, UndoView};
use vstd::prelude::*;

verus! {

// ---------------------------------------------------------------------------
// What stays
// ---------------------------------------------------------------------------

/// Whether a list of tasks differs from another one at most in the task at a position.
pub open spec fn same_but(a: Seq<TaskView>, b: Seq<TaskView>, i: int) -> bool {
    &&& a.len() == b.len()
    &&& forall|k: int| 0 <= k < a.len() && k != i ==> #[trigger] a[k] == b[k]
}

/// Whether the known pairs are the same but for the one with an external identifier.
pub open spec fn same_pairs_but(
    a: Map<Seq<char>, ItemView>,
    b: Map<Seq<char>, ItemView>,
    eid: Seq<char>,
) -> bool {
    forall|e: Seq<char>|
        e != eid ==> (#[trigger] a.dom().contains(e) <==> b.dom().contains(e)) && (
        b.dom().contains(e) ==> a[e] == b[e])
}

/// Whether two tasks differ in the external identifier alone.
pub open spec fn same_but_eid(a: TaskView, b: TaskView) -> bool {
    &&& a.priority == b.priority
    &&& a.create_date == b.create_date
    &&& a.finish_date == b.finish_date
    &&& a.finished == b.finished
    &&& a.threshold_date == b.threshold_date
    &&& a.due_date == b.due_date
    &&& a.contexts == b.contexts
    &&& a.projects == b.projects
    &&& a.hashtags == b.hashtags
    &&& a.recurrence == b.recurrence
    &&& forall|n: Seq<char>|
        n != "eid"@ ==> (#[trigger] a.tags.dom().contains(n) <==> b.tags.dom().contains(n)) && (
        b.tags.dom().contains(n) ==> a.tags[n] == b.tags[n])
}

/// Whether what is known of a pair is what a reminder says, and its hashes are those of
/// the reminder and of a task.
pub open spec fn remembers(item: ItemView, r: ReminderView, t: TaskView) -> bool {
    &&& are_fields_of(item.fields, r)
    &&& item.reminders_field_hash == fields_hash(item.fields)
    &&& item.task_line_hash == line_hash(t)
}

/// Whether the task at a position is the first with an external identifier.
pub open spec fn is_first_with(ts: Seq<TaskView>, eid: Seq<char>, i: int) -> bool {
    &&& 0 <= i < ts.len()
    &&& eid_of(ts[i]) == Some(eid)
    &&& forall|k: int| 0 <= k < i ==> eid_of(#[trigger] ts[k]) != Some(eid)
}

// ---------------------------------------------------------------------------
// Actions
// ---------------------------------------------------------------------------

/// An imported reminder becomes one more task, behind the others: what is read from its
/// line, with the context of the list besides. The task says what a plain reminder says.
/// What is remembered is what the reminder says. Other tasks and pairs stay.
pub proof fn import_adds_task(
    b: Board,
    r: ReminderView,
    c: ConfigView,
    now: Timestamp,
    today: int,
)
    requires
        is_read(
            reminder_line(r, c.mapping),
            today,
            parsed_task(reminder_line(r, c.mapping), today),
        ),
    ensures
        ({
            let eid = r.external_id;
            let after = b.after(ActionView::CreateTask { eid, reminder: r }, c, now, today);
            let t = after.tasks.last();
            let item = after.items[eid];
            &&& after.tasks.drop_last() == b.tasks
            &&& is_plain_reminder(r, c.mapping) && has_clear_targets(c.mapping) && (
            c.auto_context matches Some(ctx) ==> one_word(ctx)) ==> {
                &&& title_of(t) == r.title
                &&& day_text(t.due_date) == r.due_date
                &&& t.finished == r.is_completed
                &&& day_text(t.finish_date) == r.completion_date
                &&& day_text(t.create_date) == r.creation_date
                &&& c.auto_context is None ==> says_the_same(r, t, c.mapping)
            }
            &&& c.auto_context is None ==> t == parsed_task(reminder_line(r, c.mapping), today)
            &&& c.auto_context matches Some(ctx) ==> ctx.len() > 0 ==> t.contexts.contains(ctx)
            &&& after.items.dom().contains(eid)
            &&& item.eid == eid
            &&& remembers(item, r, t)
            &&& item.reminders_last_modified == written_time(r)
            &&& item.last_synced == now
            &&& !item.pushed
            &&& same_pairs_but(after.items, b.items, eid)
        }),
{
    let line = reminder_line(r, c.mapping);
    let read = parsed_task(line, today);
    if is_plain_reminder(r, c.mapping) && has_clear_targets(c.mapping) {
        imported_task_agrees(r, c.mapping, read, today);
    }
    let after = b.after(
        ActionView::CreateTask { eid: r.external_id, reminder: r },
        c,
        now,
        today,
    );
    assert(after.tasks.drop_last() =~= b.tasks);
    if let Some(ctx) = c.auto_context {
        if one_word(ctx) {
            lemma_context_added(read, ctx);
        }
        let t = after.tasks.last();
        assert(t == with_context(read, ctx));
        if ctx.len() > 0 && !read.contexts.contains(ctx) {
            assert(t.contexts[t.contexts.len() - 1] == ctx);
        }
    }
}

/// A conflict that was settled on both sides.
pub open spec fn merge_of(
    eid: Seq<char>,
    t: TaskView,
    u: UpdateView,
) -> ActionView {
    ActionView::MergeConflict { eid, updated_task: t, updated_reminder: u }
}

/// An update of a task replaces the first task with the external identifier, or adds the
/// task where there is none. What is remembered is what a reminder says that agrees with
/// it. Other tasks and pairs stay. A settled conflict does the same to the file.
pub proof fn update_replaces_task(
    b: Board,
    eid: Seq<char>,
    t: TaskView,
    c: ConfigView,
    now: Timestamp,
    today: int,
    i: int,
    r: ReminderView,
)
    requires
        is_first_with(b.tasks, eid, i) || first_with(b.tasks, eid) == b.tasks.len(),
        agree(r, t, c.mapping),
        r.notes == b.items[eid].fields.notes,
        r.list == b.items[eid].fields.list,
    ensures
        ({
            let after = b.after(ActionView::UpdateTask { eid, updated_task: t }, c, now, today);
            let item = after.items[eid];
            &&& forall|u: UpdateView|
                after == b.after(
                    #[trigger] merge_of(eid, t, u),
                    c,
                    now,
                    today,
                )
            &&& is_first_with(b.tasks, eid, i) ==> same_but(after.tasks, b.tasks, i)
                && after.tasks[i] == t
            &&& !is_first_with(b.tasks, eid, i) ==> after.tasks == b.tasks.push(t)
            &&& after.items.dom() == b.items.dom()
            &&& same_pairs_but(after.items, b.items, eid)
            &&& b.items.dom().contains(eid) ==> remembers(item, r, t) && item.eid
                == b.items[eid].eid && item.pushed == b.items[eid].pushed
                && item.reminders_last_modified == b.items[eid].reminders_last_modified
                && item.last_synced == now
        }),
{
    let after = b.after(ActionView::UpdateTask { eid, updated_task: t }, c, now, today);
    if is_first_with(b.tasks, eid, i) {
        lemma_first_at(b.tasks, eid, i);
    } else {
        lemma_first_with(b.tasks, eid);
    }
    assert(after.items.dom() =~= b.items.dom());
}

/// An update of a reminder leaves the file as it is. What is remembered is what the task
/// says, for the reminder agrees with it from then on. Other pairs stay.
pub proof fn reminder_update_keeps_file(
    b: Board,
    eid: Seq<char>,
    u: UpdateView,
    c: ConfigView,
    now: Timestamp,
    today: int,
    i: int,
    r: ReminderView,
)
    requires
        is_first_with(b.tasks, eid, i),
        agree(r, b.tasks[i], c.mapping),
        r.notes == b.items[eid].fields.notes,
        r.list == b.items[eid].fields.list,
    ensures
        ({
            let after = b.after(
                ActionView::UpdateReminder { eid, updated_reminder: u },
                c,
                now,
                today,
            );
            let item = after.items[eid];
            &&& after.tasks == b.tasks
            &&& after.items.dom() == b.items.dom()
            &&& same_pairs_but(after.items, b.items, eid)
            &&& b.items.dom().contains(eid) ==> remembers(item, r, b.tasks[i]) && item.eid
                == b.items[eid].eid && item.pushed == b.items[eid].pushed
                && item.reminders_last_modified == b.items[eid].reminders_last_modified
                && item.last_synced == now
        }),
{
    lemma_first_at(b.tasks, eid, i);
    let after = b.after(ActionView::UpdateReminder { eid, updated_reminder: u }, c, now, today);
    assert(after.items.dom() =~= b.items.dom());
}

proof fn lemma_filter_only(ts: Seq<TaskView>, eid: Seq<char>, i: int)
    requires
        0 <= i < ts.len(),
        eid_of(ts[i]) == Some(eid),
        forall|k: int| 0 <= k < ts.len() && k != i ==> eid_of(#[trigger] ts[k]) != Some(eid),
    ensures
        ts.filter(|t: TaskView| eid_of(t) != Some(eid)) == ts.remove(i),
    decreases ts.len(),
{
    reveal(Seq::filter);
    let keep = |t: TaskView| eid_of(t) != Some(eid);
    let front = ts.drop_last();
    if i == ts.len() - 1 {
        assert forall|k: int| 0 <= k < front.len() implies keep(#[trigger] front[k]) by {
            assert(front[k] == ts[k]);
        }
        lemma_filter_all(front, keep);
        assert(ts.remove(i) =~= front);
    } else {
        assert(front[i] == ts[i]);
        assert forall|k: int| 0 <= k < front.len() && k != i implies eid_of(#[trigger] front[k])
            != Some(eid) by {
            assert(front[k] == ts[k]);
        }
        lemma_filter_only(front, eid, i);
        assert(keep(ts[ts.len() - 1]));
        assert(ts.remove(i) =~= front.remove(i).push(ts.last()));
    }
}

proof fn lemma_filter_all(ts: Seq<TaskView>, keep: spec_fn(TaskView) -> bool)
    requires
        forall|k: int| 0 <= k < ts.len() ==> keep(#[trigger] ts[k]),
    ensures
        ts.filter(keep) == ts,
    decreases ts.len(),
{
    reveal(Seq::filter);
    if ts.len() > 0 {
        let front = ts.drop_last();
        assert forall|k: int| 0 <= k < front.len() implies keep(#[trigger] front[k]) by {
            assert(front[k] == ts[k]);
        }
        lemma_filter_all(front, keep);
        assert(keep(ts[ts.len() - 1]));
        assert(front.push(ts.last()) =~= ts);
    } else {
        assert(ts.filter(keep) =~= ts);
    }
}

/// A deleted task goes, together with what is known of its pair. Other tasks and pairs
/// stay.
pub proof fn deletion_takes_one_task(
    b: Board,
    eid: Seq<char>,
    c: ConfigView,
    now: Timestamp,
    today: int,
    i: int,
)
    requires
        0 <= i < b.tasks.len(),
        eid_of(b.tasks[i]) == Some(eid),
        forall|k: int| 0 <= k < b.tasks.len() && k != i ==> eid_of(#[trigger] b.tasks[k]) != Some(eid),
    ensures
        ({
            let after = b.after(ActionView::DeleteTask { eid }, c, now, today);
            &&& after.tasks == b.tasks.remove(i)
            &&& !after.items.dom().contains(eid)
            &&& same_pairs_but(after.items, b.items, eid)
        }),
{
    lemma_filter_only(b.tasks, eid, i);
}

/// Where a reminder is deleted, its task stays in the file, without the external
/// identifier; what is known of the pair goes. Other tasks and pairs stay.
pub proof fn deleted_reminder_leaves_task(
    b: Board,
    eid: Seq<char>,
    c: ConfigView,
    now: Timestamp,
    today: int,
    i: int,
)
    requires
        is_first_with(b.tasks, eid, i) || first_with(b.tasks, eid) == b.tasks.len(),
    ensures
        ({
            let after = b.after(ActionView::DeleteReminder { eid }, c, now, today);
            &&& is_first_with(b.tasks, eid, i) ==> same_but(after.tasks, b.tasks, i) && eid_of(
                after.tasks[i],
            ) is None && same_but_eid(after.tasks[i], b.tasks[i])
            &&& !is_first_with(b.tasks, eid, i) ==> after.tasks == b.tasks
            &&& !after.items.dom().contains(eid)
            &&& same_pairs_but(after.items, b.items, eid)
        }),
{
    if is_first_with(b.tasks, eid, i) {
        lemma_first_at(b.tasks, eid, i);
    } else {
        lemma_first_with(b.tasks, eid);
    }
}

/// A task that comes back is added behind the others as it is, and what is remembered is
/// what a reminder without notes says that agrees with it. Other tasks and pairs stay.
pub proof fn task_comes_back(
    b: Board,
    eid: Seq<char>,
    t: TaskView,
    c: ConfigView,
    now: Timestamp,
    today: int,
    r: ReminderView,
)
    requires
        agree(r, t, c.mapping),
        r.notes is None,
        r.list == c.reminders_list,
    ensures
        ({
            let after = b.after(ActionView::ResurrectTask { eid, task: t }, c, now, today);
            let item = after.items[eid];
            &&& after.tasks == b.tasks.push(t)
            &&& after.items.dom().contains(eid)
            &&& item.eid == eid
            &&& remembers(item, r, t)
            &&& item.last_synced == now
            &&& !item.pushed
            &&& same_pairs_but(after.items, b.items, eid)
        }),
{
}

/// What has to be done in Reminders alone leaves the file as it is, and of what is known
/// at most the time of the last run changes.
pub proof fn reminders_side_keeps_file(
    b: Board,
    a: ActionView,
    c: ConfigView,
    now: Timestamp,
    today: int,
)
    requires
        a is CreateReminder || a is ResurrectReminder,
    ensures
        ({
            let after = b.after(a, c, now, today);
            &&& after.tasks == b.tasks
            &&& after.items.dom() == b.items.dom()
            &&& a is CreateReminder ==> after.items == b.items
            &&& a matches ActionView::ResurrectReminder { eid, .. } ==> same_pairs_but(
                after.items,
                b.items,
                eid,
            ) && (b.items.dom().contains(eid) ==> after.items[eid].fields == b.items[eid].fields
                && after.items[eid].task_line_hash == b.items[eid].task_line_hash
                && after.items[eid].reminders_field_hash == b.items[eid].reminders_field_hash
                && after.items[eid].pushed == b.items[eid].pushed && after.items[eid].eid
                == b.items[eid].eid)
        }),
{
    assert(b.after(a, c, now, today).items.dom() =~= b.items.dom());
}

/// A tag that is simplified changes in one task, which stays the same otherwise. Nothing
/// that is known changes.
pub proof fn simplified_tag_keeps_rest(
    b: Board,
    value: Seq<char>,
    c: ConfigView,
    now: Timestamp,
    today: int,
    i: int,
)
    requires
        is_first_with(b.tasks, value, i),
    ensures
        ({
            let after = b.after(
                ActionView::CleanSentinelTag { sentinel_eid: value },
                c,
                now,
                today,
            );
            &&& after.items == b.items
            &&& same_but(after.tasks, b.tasks, i)
            &&& same_but_eid(after.tasks[i], b.tasks[i])
        }),
{
    lemma_first_at(b.tasks, value, i);
}

/// A pair that goes on under another external identifier: its task gets that identifier
/// and stays the same otherwise, and so do the other tasks and pairs.
pub proof fn relink_moves_one_task(
    b: Board,
    old_eid: Seq<char>,
    new_eid: Seq<char>,
    c: ConfigView,
    now: Timestamp,
    today: int,
    i: int,
)
    requires
        is_first_with(b.tasks, old_eid, i),
        b.items.dom().contains(old_eid),
        old_eid != new_eid,
        new_eid.len() > 0,
        !(new_eid.len() >= 2 && new_eid[0] == '/' && new_eid[1] == '/'),
        forall|k: int| 0 <= k < b.tasks.len() ==> eid_of(#[trigger] b.tasks[k]) != Some(new_eid),
    ensures
        ({
            let after = b.after(ActionView::RelinkEid { old_eid, new_eid }, c, now, today);
            &&& same_but(after.tasks, b.tasks, i)
            &&& same_but_eid(after.tasks[i], b.tasks[i])
            &&& eid_of(after.tasks[i]) == Some(new_eid)
            &&& after.items.dom() == b.items.dom().remove(old_eid).insert(new_eid)
            &&& after.items[new_eid] == (ItemView {
                eid: new_eid,
                task_line_hash: line_hash(after.tasks[i]),
                last_synced: now,
                ..b.items[old_eid]
            })
            &&& forall|e: Seq<char>|
                e != old_eid && e != new_eid && #[trigger] b.items.dom().contains(e)
                    ==> after.items[e] == b.items[e]
        }),
{
    lemma_first_at(b.tasks, old_eid, i);
    let after = b.after(ActionView::RelinkEid { old_eid, new_eid }, c, now, today);
    assert forall|k: int| 0 <= k < i implies eid_of(#[trigger] after.tasks[k]) != Some(new_eid) by {
        assert(after.tasks[k] == b.tasks[k]);
    }
    lemma_first_at(after.tasks, new_eid, i);
    assert(after.items.dom() =~= b.items.dom().remove(old_eid).insert(new_eid));
}

/// At the end of a run only tasks change whose external identifier belongs to no known
/// pair, and they lose that and nothing else. Of what is known, only the hashes of the
/// tasks' lines change.
pub proof fn run_end_touches_orphans_only(b: Board, i: int, eid: Seq<char>)
    ensures
        ({
            let end = b.without_orphans().with_hashes();
            &&& end.tasks.len() == b.tasks.len()
            &&& 0 <= i < b.tasks.len() ==> {
                let orphan = eid_of(b.tasks[i]) matches Some(e) && e.len() > 0 && !is_sentinel(e)
                    && !b.items.dom().contains(e);
                &&& !orphan ==> end.tasks[i] == b.tasks[i]
                &&& orphan ==> eid_of(end.tasks[i]) is None && same_but_eid(
                    end.tasks[i],
                    b.tasks[i],
                )
            }
            &&& end.items.dom() == b.items.dom()
            &&& b.items.dom().contains(eid) ==> {
                &&& end.items[eid] == (ItemView {
                    task_line_hash: end.items[eid].task_line_hash,
                    ..b.items[eid]
                })
                &&& 0 <= i < b.tasks.len() && eid_of(end.tasks[i]) == Some(eid) && (forall|k: int|
                    i < k < end.tasks.len() ==> eid_of(#[trigger] end.tasks[k]) != Some(eid))
                    ==> end.items[eid].task_line_hash == line_hash(end.tasks[i])
            }
        }),
{
    let mid = b.without_orphans();
    let end = mid.with_hashes();
    assert(end.items.dom() =~= b.items.dom());
    if 0 <= i < b.tasks.len() {
        assert(mid.tasks[i] == if b.is_orphan(b.tasks[i]) {
            crate::task::with_eid(b.tasks[i], Seq::empty())
        } else {
            b.tasks[i]
        });
        if eid_of(end.tasks[i]) == Some(eid) && (forall|k: int|
            i < k < end.tasks.len() ==> eid_of(#[trigger] end.tasks[k]) != Some(eid)) {
            lemma_last_at(end.tasks, eid, i);
        }
    }
}

proof fn lemma_last_at(ts: Seq<TaskView>, eid: Seq<char>, i: int)
    requires
        0 <= i < ts.len(),
        eid_of(ts[i]) == Some(eid),
        forall|k: int| i < k < ts.len() ==> eid_of(#[trigger] ts[k]) != Some(eid),
    ensures
        crate::sync::apply::last_with(ts, eid) == Some(ts[i]),
    decreases ts.len(),
{
    if i < ts.len() - 1 {
        let front = ts.drop_last();
        assert(eid_of(ts[ts.len() - 1]) != Some(eid));
        assert forall|k: int| i < k < front.len() implies eid_of(#[trigger] front[k]) != Some(eid) by {
            assert(front[k] == ts[k]);
        }
        lemma_last_at(front, eid, i);
    }
}

// ---------------------------------------------------------------------------
// Answers
// ---------------------------------------------------------------------------

proof fn lemma_line_at(ts: Seq<TaskView>, line: Seq<char>, i: int)
    requires
        0 <= i < ts.len(),
        line_of(ts[i]) == line,
        forall|k: int| 0 <= k < i ==> line_of(#[trigger] ts[k]) != line,
    ensures
        first_line(ts, line) == i,
    decreases ts.len(),
{
    if i > 0 {
        assert(line_of(ts[0]) != line);
        let rest = ts.skip(1);
        assert(rest[i - 1] == ts[i]);
        assert forall|k: int| 0 <= k < i - 1 implies line_of(#[trigger] rest[k]) != line by {
            assert(rest[k] == ts[k + 1]);
        }
        lemma_line_at(rest, line, i - 1);
    }
}

/// Where a reminder was created for a task, the task gets its external identifier and
/// stays the same otherwise. What is remembered is what a reminder without notes says
/// that agrees with the task, and that it was pushed. The log takes the reminder's
/// removal. Other tasks and pairs stay.
pub proof fn created_reminder_joins_its_task(
    p: Progress,
    line: Seq<char>,
    list: Seq<char>,
    result: ResultView,
    mapping: Seq<(i32, TargetView)>,
    now: Timestamp,
    rs: Seq<ReminderView>,
    i: int,
    r: ReminderView,
)
    requires
        result.ok,
        result.reminder is Some,
        0 <= i < p.tasks.len(),
        line_of(p.tasks[i]) == line,
        forall|k: int| 0 <= k < i ==> line_of(#[trigger] p.tasks[k]) != line,
        r.notes is None,
        r.list == list,
    ensures
        ({
            let eid = result.reminder->0.external_id;
            let after = p.answered(
                KindView::Create { original_task_line: line, target_list: list },
                result,
                mapping,
                now,
                rs,
            );
            let t = after.tasks[i];
            let item = after.items[eid];
            &&& same_but(after.tasks, p.tasks, i)
            &&& same_but_eid(t, p.tasks[i])
            &&& eid.len() > 0 && !(eid.len() >= 2 && eid[0] == '/' && eid[1] == '/') ==> eid_of(t)
                == Some(eid)
            &&& after.items.dom() == p.items.dom().insert(eid)
            &&& same_pairs_but(after.items, p.items, eid)
            &&& item.eid == eid
            &&& agree(r, t, mapping) ==> remembers(item, r, t)
            &&& item.pushed
            &&& item.last_synced == now
            &&& after.undo == p.undo.push(UndoView::UndoCreate { eid, list_name: list })
        }),
{
    lemma_line_at(p.tasks, line, i);
    let eid = result.reminder->0.external_id;
    let after = p.created(eid, line, list, mapping, now);
    assert(after.items.dom() =~= p.items.dom().insert(eid));
}

/// Where a lost reminder was created anew, the task gets its external identifier and
/// stays the same otherwise. The pair goes on under it, with what a reminder without
/// notes says that agrees with the task, and remembers where it came from. Other tasks
/// and pairs stay.
pub proof fn new_reminder_takes_over(
    p: Progress,
    old_eid: Seq<char>,
    list: Seq<char>,
    result: ResultView,
    mapping: Seq<(i32, TargetView)>,
    now: Timestamp,
    rs: Seq<ReminderView>,
    i: int,
    r: ReminderView,
)
    requires
        result.ok,
        result.reminder is Some,
        is_first_with(p.tasks, old_eid, i),
        r.notes is None,
        r.list == list,
        ({
            let eid = result.reminder->0.external_id;
            &&& eid.len() > 0
            &&& !(eid.len() >= 2 && eid[0] == '/' && eid[1] == '/')
            &&& eid != old_eid
            &&& forall|k: int| 0 <= k < p.tasks.len() ==> eid_of(#[trigger] p.tasks[k]) != Some(eid)
        }),
    ensures
        ({
            let eid = result.reminder->0.external_id;
            let after = p.answered(
                KindView::Resurrect { old_eid, target_list: list },
                result,
                mapping,
                now,
                rs,
            );
            let t = after.tasks[i];
            let item = after.items[eid];
            &&& same_but(after.tasks, p.tasks, i)
            &&& same_but_eid(t, p.tasks[i])
            &&& eid_of(t) == Some(eid)
            &&& after.items.dom() == p.items.dom().remove(old_eid).insert(eid)
            &&& forall|e: Seq<char>|
                e != old_eid && e != eid && #[trigger] p.items.dom().contains(e)
                    ==> after.items[e] == p.items[e]
            &&& item.eid == eid
            &&& agree(r, t, mapping) ==> remembers(item, r, t)
            &&& item.pushed == (p.items.dom().contains(old_eid) ==> p.items[old_eid].pushed)
            &&& item.last_synced == now
            &&& after.undo == p.undo.push(UndoView::UndoCreate { eid, list_name: list })
        }),
{
    let eid = result.reminder->0.external_id;
    lemma_first_at(p.tasks, old_eid, i);
    let after = p.resurrected(eid, old_eid, list, mapping, now);
    assert forall|k: int| 0 <= k < i implies eid_of(#[trigger] after.tasks[k]) != Some(eid) by {
        assert(after.tasks[k] == p.tasks[k]);
    }
    lemma_first_at(after.tasks, eid, i);
    assert(after.items.dom() =~= p.items.dom().remove(old_eid).insert(eid));
}

pub(crate) proof fn lemma_first_reminder_at(rs: Seq<ReminderView>, eid: Seq<char>, i: int)
    requires
        0 <= i < rs.len(),
        rs[i].external_id == eid,
        forall|k: int| 0 <= k < i ==> (#[trigger] rs[k]).external_id != eid,
    ensures
        first_reminder(rs, eid) == i,
    decreases rs.len(),
{
    if i > 0 {
        assert(rs[0].external_id != eid);
        let rest = rs.skip(1);
        assert(rest[i - 1] == rs[i]);
        assert forall|k: int| 0 <= k < i - 1 implies (#[trigger] rest[k]).external_id != eid by {
            assert(rest[k] == rs[k + 1]);
        }
        lemma_first_reminder_at(rest, eid, i - 1);
    }
}

/// Where a reminder was updated or deleted, the log takes what it was before. The file
/// and the known pairs stay.
pub proof fn old_reminder_is_logged(
    p: Progress,
    eid: Seq<char>,
    result: ResultView,
    mapping: Seq<(i32, TargetView)>,
    now: Timestamp,
    rs: Seq<ReminderView>,
    i: int,
)
    requires
        result.ok,
        0 <= i < rs.len(),
        rs[i].external_id == eid,
        forall|k: int| 0 <= k < i ==> (#[trigger] rs[k]).external_id != eid,
    ensures
        ({
            let updated = p.answered(KindView::Update { eid }, result, mapping, now, rs);
            let deleted = p.answered(KindView::Delete { eid }, result, mapping, now, rs);
            &&& updated.tasks == p.tasks && deleted.tasks == p.tasks
            &&& updated.items == p.items && deleted.items == p.items
            &&& updated.undo == p.undo.push(UndoView::UndoUpdate { old_reminder: rs[i] })
            &&& deleted.undo == p.undo.push(UndoView::UndoDelete { reminder: rs[i] })
        }),
{
    lemma_first_reminder_at(rs, eid, i);
}

/// Taking an entry of the log back undoes what it stands for: a created reminder is
/// deleted from its list, a deleted one is created with all that it said, and an updated
/// one gets back all that it said, whatever it says now.
pub proof fn log_is_taken_back(eid: Seq<char>, list: Seq<char>, old: ReminderView, now: ReminderView)
    ensures
        undoing_op(UndoView::UndoCreate { eid, list_name: list }) == (OpView::DeleteReminder {
            eid,
            list_name: list,
        }),
        undoing_op(UndoView::UndoDelete { reminder: old }) matches OpView::CreateReminder(c)
            && are_fields_of(reminder_fields(as_reminder(c, now)), old),
        now.list == old.list ==> (undoing_op(
            UndoView::UndoUpdate { old_reminder: old },
        ) matches OpView::UpdateReminder(u) && u.eid == old.external_id && u.list_name == old.list
            && are_fields_of(reminder_fields(with_update(now, u)), old)),
{
}

/// Actions are carried out one after the other.
pub proof fn actions_follow_each_other(
    board: Board,
    a: Seq<ActionView>,
    b: Seq<ActionView>,
    x: ActionView,
    c: ConfigView,
    now: Timestamp,
    today: int,
)
    ensures
        board.after_all(Seq::empty(), c, now, today) == board,
        board.after_all(seq![x], c, now, today) == board.after(x, c, now, today),
        board.after_all(a + b, c, now, today) == board.after_all(a, c, now, today).after_all(
            b,
            c,
            now,
            today,
        ),
    decreases b.len(),
{
    assert(seq![x].drop_last() =~= Seq::<ActionView>::empty());
    assert(seq![x].last() == x);
    assert(board.after_all(seq![x].drop_last(), c, now, today) == board);
    if b.len() == 0 {
        assert(a + b =~= a);
    } else {
        actions_follow_each_other(board, a, b.drop_last(), x, c, now, today);
        assert((a + b).drop_last() =~= a + b.drop_last());
        assert((a + b).last() == b.last());
    }
}

/// A deletion takes every task with the external identifier, and no other task.
pub proof fn deletion_takes_every_such_task(
    b: Board,
    eid: Seq<char>,
    c: ConfigView,
    now: Timestamp,
    today: int,
    t: TaskView,
)
    ensures
        ({
            let after = b.after(ActionView::DeleteTask { eid }, c, now, today);
            &&& after.tasks.contains(t) <==> b.tasks.contains(t) && eid_of(t) != Some(eid)
            &&& !after.items.dom().contains(eid)
            &&& same_pairs_but(after.items, b.items, eid)
        }),
{
    lemma_filter_has(b.tasks, |x: TaskView| eid_of(x) != Some(eid), t);
}

proof fn lemma_filter_has(ts: Seq<TaskView>, keep: spec_fn(TaskView) -> bool, t: TaskView)
    ensures
        ts.filter(keep).contains(t) <==> ts.contains(t) && keep(t),
    decreases ts.len(),
{
    reveal(Seq::filter);
    if ts.len() > 0 {
        let front = ts.drop_last();
        let some = front.filter(keep);
        let all = ts.filter(keep);
        lemma_filter_has(front, keep, t);
        if front.contains(t) {
            let k = front.index_of(t);
            assert(ts[k] == t);
        }
        if ts.contains(t) {
            let k = ts.index_of(t);
            if k < front.len() {
                assert(front[k] == t);
            }
        }
        assert(ts[ts.len() - 1] == ts.last());
        if some.contains(t) {
            let k = some.index_of(t);
            assert(all[k] == t);
        }
        if keep(ts.last()) {
            assert(all == some.push(ts.last()));
            assert(all[some.len() as int] == ts.last());
            if all.contains(t) {
                let k = all.index_of(t);
                if k < some.len() {
                    assert(some[k] == t);
                }
            }
        }
    }
}

/// An action on a pair without a task, or on one that is not known, leaves the other side
/// as it is.
pub proof fn missing_side_is_not_made_up(
    b: Board,
    eid: Seq<char>,
    new_eid: Seq<char>,
    t: TaskView,
    u: UpdateView,
    c: ConfigView,
    now: Timestamp,
    today: int,
)
    requires
        forall|k: int| 0 <= k < b.tasks.len() ==> eid_of(#[trigger] b.tasks[k]) != Some(eid),
    ensures
        b.after(ActionView::UpdateReminder { eid, updated_reminder: u }, c, now, today) == b,
        b.after(ActionView::DeleteReminder { eid }, c, now, today).tasks == b.tasks,
        b.after(ActionView::CleanSentinelTag { sentinel_eid: eid }, c, now, today) == b,
        b.after(ActionView::RelinkEid { old_eid: eid, new_eid }, c, now, today).tasks == b.tasks,
        !b.items.dom().contains(eid) ==> b.after(
            ActionView::UpdateTask { eid, updated_task: t },
            c,
            now,
            today,
        ).items == b.items && b.after(
            ActionView::RelinkEid { old_eid: eid, new_eid },
            c,
            now,
            today,
        ) == b,
{
    lemma_first_with(b.tasks, eid);
    if first_with(b.tasks, eid) < b.tasks.len() {
        assert(eid_of(b.tasks[first_with(b.tasks, eid) as int]) != Some(eid));
    }
}

/// An answer without a reminder, or about a reminder that was not there, changes nothing.
/// Where the task of a new reminder is gone, only the log grows; where that of one that
/// came back is, the pair is forgotten as well.
pub proof fn answers_without_a_side(
    p: Progress,
    eid: Seq<char>,
    line: Seq<char>,
    list: Seq<char>,
    result: ResultView,
    mapping: Seq<(i32, TargetView)>,
    now: Timestamp,
    rs: Seq<ReminderView>,
)
    requires
        result.ok,
    ensures
        ({
            let create = KindView::Create { original_task_line: line, target_list: list };
            let back = KindView::Resurrect { old_eid: eid, target_list: list };
            let logged = p.undo.push(
                UndoView::UndoCreate {
                    eid: result.reminder->0.external_id,
                    list_name: list,
                },
            );
            &&& result.reminder is None ==> p.answered(create, result, mapping, now, rs) == p
                && p.answered(back, result, mapping, now, rs) == p
            &&& (forall|k: int| 0 <= k < rs.len() ==> (#[trigger] rs[k]).external_id != eid)
                ==> p.answered(KindView::Update { eid }, result, mapping, now, rs) == p
                && p.answered(KindView::Delete { eid }, result, mapping, now, rs) == p
            &&& result.reminder is Some && (forall|k: int|
                0 <= k < p.tasks.len() ==> line_of(#[trigger] p.tasks[k]) != line) ==> p.answered(
                create,
                result,
                mapping,
                now,
                rs,
            ) == (Progress { undo: logged, ..p })
            &&& result.reminder is Some && (forall|k: int|
                0 <= k < p.tasks.len() ==> eid_of(#[trigger] p.tasks[k]) != Some(eid) && eid_of(
                    p.tasks[k],
                ) != Some(result.reminder->0.external_id)) ==> p.answered(
                back,
                result,
                mapping,
                now,
                rs,
            ) == (Progress { items: p.items.remove(eid), undo: logged, ..p })
        }),
{
    if forall|k: int| 0 <= k < rs.len() ==> (#[trigger] rs[k]).external_id != eid {
        lemma_no_first_reminder(rs, eid);
    }
    if forall|k: int| 0 <= k < p.tasks.len() ==> line_of(#[trigger] p.tasks[k]) != line {
        lemma_no_line(p.tasks, line);
    }
    if result.reminder is Some && (forall|k: int|
        0 <= k < p.tasks.len() ==> eid_of(#[trigger] p.tasks[k]) != Some(eid) && eid_of(p.tasks[k])
            != Some(result.reminder->0.external_id)) {
        let new = result.reminder->0.external_id;
        lemma_first_with(p.tasks, eid);
        lemma_first_with(p.tasks, new);
        if first_with(p.tasks, eid) < p.tasks.len() {
            assert(eid_of(p.tasks[first_with(p.tasks, eid) as int]) != Some(eid));
        }
        if first_with(p.tasks, new) < p.tasks.len() {
            assert(eid_of(p.tasks[first_with(p.tasks, new) as int]) != Some(new));
        }
    }
}

proof fn lemma_no_first_reminder(rs: Seq<ReminderView>, eid: Seq<char>)
    requires
        forall|k: int| 0 <= k < rs.len() ==> (#[trigger] rs[k]).external_id != eid,
    ensures
        first_reminder(rs, eid) == rs.len(),
    decreases rs.len(),
{
    if rs.len() > 0 {
        let rest = rs.skip(1);
        assert(rs[0].external_id != eid);
        assert forall|k: int| 0 <= k < rest.len() implies (#[trigger] rest[k]).external_id != eid by {
            assert(rest[k] == rs[k + 1]);
        }
        lemma_no_first_reminder(rest, eid);
    }
}

proof fn lemma_no_line(ts: Seq<TaskView>, line: Seq<char>)
    requires
        forall|k: int| 0 <= k < ts.len() ==> line_of(#[trigger] ts[k]) != line,
    ensures
        first_line(ts, line) == ts.len(),
    decreases ts.len(),
{
    if ts.len() > 0 {
        let rest = ts.skip(1);
        assert(line_of(ts[0]) != line);
        assert forall|k: int| 0 <= k < rest.len() implies line_of(#[trigger] rest[k]) != line by {
            assert(rest[k] == ts[k + 1]);
        }
        lemma_no_line(rest, line);
    }
}

} // verus!
