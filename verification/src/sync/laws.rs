//! What holds of the sync engine as a whole.

use crate::dates::{has_plain_year, iso_day, iso_text, reads_back, Timestamp};
use crate::keyed::{distinct_keys, lemma_map_of, map_of};
use crate::reminder::ReminderView;
use crate::sync::actions::ActionView;
use crate::sync::apply::{first_with, last_with, Board};
use crate::sync::bootstrap::{
    are_partners, initial_partners, is_free_reminder, matched_eids, matched_tasks, partners,
};
use crate::sync::check::{
    all_positions, duplicate_reports, is_mismatch, is_real, lemma_first_with, mismatch_reports,
    new_eid_at, orphan_reports, positions, reports,
};
use crate::sync::config::{
    carries, mapped_contexts, mapped_priorities, priority_of, target_for, ConfigView,
    StickyTracking, TargetView, WritebackConfig,
};
use crate::sync::diff::{
    completion_day, completion_updated, diff, due_updated, merged, priority_updated,
    retitling_sets_title, task_is_newer, title_updated, updated_task, with_target,
    without_contexts, ChangesView,
};
use crate::sync::fields::{
    day_text, fields_hash, is_sentinel, line_hash, reminder_fields, sentinel_original, task_fields,
    title_of,
};
use crate::sync::plan::{admits, find_reminder, is_changed, Scene};
use crate::sync::release::{config_for, is_released};
use crate::sync::safety::{
    delete_limit, deletions, is_bulk_deletion, reminder_deletions, task_deletions,
};
use crate::sync::state::{FieldsView, ItemView};
use crate::task::{eid_of, is_tag_value, one_word, plain_words, with_eid, TaskView, NO_PRIORITY};
use crate::text::join;
use vstd::prelude::*;

verus! {

// ---------------------------------------------------------------------------
// Merging
// ---------------------------------------------------------------------------

/// A value after a change to it.
pub open spec fn changed<X>(x: X, change: Option<X>) -> X {
    match change {
        Some(y) => y,
        None => x,
    }
}

/// Merging a field brings both sides together, and changes at most one of them.
/// Nothing changes where the sides agree. A side that did not change never wins
/// over one that did, unless the reminder may not overwrite the task; and a task
/// that the reminder may not overwrite is never changed.
pub proof fn merge_converges<X>(r: X, t: X, base: X, writeback: bool, task_wins: bool)
    ensures
        changed(t, merged(r, t, base, writeback, task_wins).0) == changed(
            r,
            merged(r, t, base, writeback, task_wins).1,
        ),
        merged(r, t, base, writeback, task_wins).0 is None || merged(
            r,
            t,
            base,
            writeback,
            task_wins,
        ).1 is None,
        r == t ==> merged(r, t, base, writeback, task_wins) == (None::<X>, None::<X>),
        r == base && t != base ==> merged(r, t, base, writeback, task_wins) == (
            None::<X>,
            Some(t),
        ),
        t == base && r != base && writeback ==> merged(r, t, base, writeback, task_wins) == (
            Some(r),
            None::<X>,
        ),
        !writeback ==> merged(r, t, base, writeback, task_wins).0 is None,
{
}

/// Where both sides changed a field to different values, the newer side wins: the
/// task where the file is newer, and the reminder otherwise.
pub proof fn newer_side_wins<X>(r: X, t: X, base: X, task_wins: bool)
    requires
        r != base,
        t != base,
        r != t,
    ensures
        merged(r, t, base, true, task_wins) == (if task_wins {
            (None::<X>, Some(t))
        } else {
            (Some(r), None::<X>)
        }),
{
}

/// The file is not newer than a reminder that was modified at the same time, nor
/// where the time of the file is not known.
pub proof fn tie_goes_to_reminder(at: Timestamp, modified: Option<Timestamp>)
    ensures
        !task_is_newer(Some(at), Some(at), 0),
        !task_is_newer(None, modified, 0),
{
}

/// A greater tolerance never lets the file win where a smaller one did not.
pub proof fn tolerance_favours_reminder(file: Timestamp, modified: Timestamp, a: u64, b: u64)
    requires
        a <= b <= i64::MAX,
        modified.nanos < 1_000_000_000,
        task_is_newer(Some(file), Some(modified), b),
    ensures
        task_is_newer(Some(file), Some(modified), a),
{
}

/// The synced fields of a reminder after changes.
pub open spec fn patched(r: ReminderView, u: ChangesView) -> ReminderView {
    ReminderView {
        title: changed(r.title, u.title),
        due_date: changed(r.due_date, u.due_date),
        priority: changed(r.priority, u.priority),
        is_completed: changed(r.is_completed, u.is_completed),
        completion_date: changed(r.completion_date, u.completion_date),
        ..r
    }
}

/// Whether the task `after` shows the changes `u` to the task `before`: the changed
/// fields have their new values, the others their old ones.
pub open spec fn shows(
    before: TaskView,
    after: TaskView,
    u: ChangesView,
    mapping: Seq<(i32, TargetView)>,
) -> bool {
    &&& title_of(after) == changed(title_of(before), u.title)
    &&& day_text(after.due_date) == changed(day_text(before.due_date), u.due_date)
    &&& priority_of(mapping, after) == changed(priority_of(mapping, before), u.priority)
    &&& after.finished == changed(before.finished, u.is_completed)
    &&& day_text(after.finish_date) == changed(day_text(before.finish_date), u.completion_date)
}

/// Whether a reminder and a task have the same synced fields.
pub open spec fn agree(r: ReminderView, t: TaskView, mapping: Seq<(i32, TargetView)>) -> bool {
    &&& r.title == title_of(t)
    &&& r.due_date == day_text(t.due_date)
    &&& r.priority == priority_of(mapping, t)
    &&& r.is_completed == t.finished
    &&& r.completion_date == day_text(t.finish_date)
}

/// The changes that a comparison asks for bring the two sides together, whatever
/// they were before.
pub proof fn diff_converges(
    r: ReminderView,
    t: TaskView,
    after: TaskView,
    base: FieldsView,
    file: Option<Timestamp>,
    mapping: Seq<(i32, TargetView)>,
    tolerance: u64,
    wb: WritebackConfig,
)
    requires
        shows(t, after, diff(r, t, base, file, mapping, tolerance, wb).0, mapping),
    ensures
        agree(patched(r, diff(r, t, base, file, mapping, tolerance, wb).1), after, mapping),
{
}

/// Two sides that agree need no change, whatever they last agreed on.
pub proof fn agreement_is_quiet(
    r: ReminderView,
    t: TaskView,
    base: FieldsView,
    file: Option<Timestamp>,
    mapping: Seq<(i32, TargetView)>,
    tolerance: u64,
    wb: WritebackConfig,
)
    requires
        agree(r, t, mapping),
    ensures
        diff(r, t, base, file, mapping, tolerance, wb).0.is_nothing(),
        diff(r, t, base, file, mapping, tolerance, wb).1.is_nothing(),
{
}

/// Sides that both have what they last agreed on need no change either.
pub proof fn no_change_is_quiet(
    r: ReminderView,
    t: TaskView,
    base: FieldsView,
    file: Option<Timestamp>,
    mapping: Seq<(i32, TargetView)>,
    tolerance: u64,
    wb: WritebackConfig,
)
    requires
        reminder_fields(r) == base,
        task_fields(t, mapping, base.notes, base.list) == base,
    ensures
        diff(r, t, base, file, mapping, tolerance, wb).0.is_nothing(),
        diff(r, t, base, file, mapping, tolerance, wb).1.is_nothing(),
{
}

/// A list that may overwrite no field of a task never changes one.
pub proof fn no_writeback_keeps_task(
    r: ReminderView,
    t: TaskView,
    base: FieldsView,
    file: Option<Timestamp>,
    mapping: Seq<(i32, TargetView)>,
    tolerance: u64,
    wb: WritebackConfig,
)
    requires
        !wb.title,
        !wb.due_date,
        !wb.priority,
        !wb.is_completed,
    ensures
        diff(r, t, base, file, mapping, tolerance, wb).0.is_nothing(),
{
}

// ---------------------------------------------------------------------------
// Plans
// ---------------------------------------------------------------------------

impl Scene {
    /// Whether both sides of a pair are there: under the external identifier that it
    /// has, or under the one that it goes on with.
    pub open spec fn is_met(self, eid: Seq<char>) -> bool {
        ||| self.knows(eid) && self.reminder(eid) is Some && self.task(eid) is Some
        ||| exists|old: Seq<char>| #[trigger] self.relinks(old, eid)
    }

    /// Whether an action of a plan is in order: what it does is called for by the
    /// reminder, the task and the pair that it is about.
    pub open spec fn is_called_for(self, a: ActionView) -> bool {
        match a {
            ActionView::CreateTask { eid, reminder } => {
                &&& eid == reminder.external_id
                &&& reminder.list == self.config.reminders_list
                &&& self.is_imported(reminder) || (self.knows(eid) && self.task(eid) is None
                    && self.is_stale() && !reminder.is_completed)
            },
            ActionView::CreateReminder { task, target_list } => {
                &&& self.tasks.contains(task)
                &&& self.is_pushed(task)
                &&& target_list == self.config.reminders_list
            },
            ActionView::DeleteTask { eid } => {
                &&& self.knows(eid)
                &&& self.reminder(eid) is None
                &&& self.task(eid) matches Some(t) && !is_changed(
                    line_hash(t),
                    self.items()[eid].task_line_hash,
                )
                &&& !exists|new: Seq<char>| #[trigger] self.relinks(eid, new)
            },
            ActionView::DeleteReminder { eid } => {
                &&& self.knows(eid)
                &&& self.reminder(eid) matches Some(r) && match self.task(eid) {
                    Some(t) => self.release.contains(eid),
                    None => !r.is_completed && !self.is_stale() && (self.is_ejected(eid)
                        || !is_changed(
                        fields_hash(reminder_fields(r)),
                        self.items()[eid].reminders_field_hash,
                    )),
                }
            },
            ActionView::ResurrectTask { eid, task } => {
                &&& self.knows(eid)
                &&& self.task(eid) is None
                &&& self.reminder(eid) matches Some(r) && !r.is_completed && is_changed(
                    fields_hash(reminder_fields(r)),
                    self.items()[eid].reminders_field_hash,
                )
            },
            ActionView::ResurrectReminder { eid, reminder_update, target_list } => {
                &&& self.knows(eid)
                &&& self.reminder(eid) is None
                &&& self.task(eid) matches Some(t) && is_changed(
                    line_hash(t),
                    self.items()[eid].task_line_hash,
                )
                &&& target_list == self.config.reminders_list
            },
            ActionView::RelinkEid { old_eid, new_eid } => self.relinks(old_eid, new_eid),
            ActionView::CleanSentinelTag { sentinel_eid } => sentinel_original(
                sentinel_eid,
            ) matches Some(original) && !self.knows(original),
            ActionView::UpdateTask { eid, updated_task } => self.is_met(eid),
            ActionView::UpdateReminder { eid, updated_reminder } => {
                &&& self.is_met(eid)
                &&& updated_reminder.eid == eid
                &&& updated_reminder.list_name == self.config.reminders_list
                &&& updated_reminder.notes is None
            },
            ActionView::MergeConflict { eid, updated_task, updated_reminder } => false,
        }
    }

    /// Whether every action of a list is in order.
    pub open spec fn all_called_for(self, actions: Seq<ActionView>) -> bool {
        forall|i: int| 0 <= i < actions.len() ==> self.is_called_for(#[trigger] actions[i])
    }
}

/// A reminder that is found has the external identifier and the list that were
/// looked for.
pub(crate) proof fn lemma_found(rs: Seq<ReminderView>, list: Seq<char>, eid: Seq<char>)
    requires
        find_reminder(rs, list, eid) is Some,
    ensures
        find_reminder(rs, list, eid)->0.external_id == eid,
        find_reminder(rs, list, eid)->0.list == list,
    decreases rs.len(),
{
    if !(rs.last().list == list && rs.last().external_id == eid) {
        lemma_found(rs.drop_last(), list, eid);
    }
}

/// A task that is found counts as the one with the external identifier.
pub(crate) proof fn lemma_found_task(s: Scene, ts: Seq<TaskView>, eid: Seq<char>)
    requires
        s.find_task(ts, eid) is Some,
    ensures
        s.in_scope(s.find_task(ts, eid)->0, eid),
        ts.contains(s.find_task(ts, eid)->0),
    decreases ts.len(),
{
    if ts.len() > 0 {
        let front = ts.drop_last();
        if s.find_task(front, eid) is Some {
            lemma_found_task(s, front, eid);
            let t = s.find_task(front, eid)->0;
            let i = front.index_of(t);
            assert(ts[i] == t);
        } else {
            assert(ts[ts.len() - 1] == ts.last());
        }
    }
}

/// An external identifier that a task asks to eject is one of a task that carries
/// a tag, so that the file is not taken to be another one.
proof fn lemma_ejected_is_not_stale(s: Scene, eid: Seq<char>)
    requires
        s.is_ejected(eid),
    ensures
        !s.is_stale(),
{
    let i = choose|i: int|
        0 <= i < s.tasks.len() && (eid_of(#[trigger] s.tasks[i]) matches Some(e)
            && sentinel_original(e) == Some(eid));
    assert(eid_of(s.tasks[i]) is Some);
}

proof fn lemma_concat(s: Scene, a: Seq<ActionView>, b: Seq<ActionView>)
    requires
        s.all_called_for(a),
        s.all_called_for(b),
    ensures
        s.all_called_for(a + b),
{
    assert forall|i: int| 0 <= i < (a + b).len() implies s.is_called_for(#[trigger] (a + b)[i]) by {
        if i < a.len() {
            assert((a + b)[i] == a[i]);
        } else {
            assert((a + b)[i] == b[i - a.len()]);
        }
    }
}

proof fn lemma_updates(s: Scene, eid: Seq<char>, t: TaskView, tu: ChangesView, ru: ChangesView)
    requires
        s.is_met(eid),
    ensures
        s.all_called_for(s.task_update(eid, t, tu)),
        s.all_called_for(s.reminder_update(eid, ru)),
{
}

proof fn lemma_pair_with_both(s: Scene, eid: Seq<char>, r: ReminderView, t: TaskView)
    requires
        s.knows(eid),
        s.reminder(eid) == Some(r),
        s.task(eid) == Some(t),
    ensures
        s.all_called_for(s.for_both(eid, r, t)),
{
    let (tu, ru) = s.changes(r, t, eid);
    lemma_updates(s, eid, t, tu, ru);
    if s.release.contains(eid) {
        let end = seq![ActionView::DeleteReminder { eid }];
        assert(s.is_called_for(ActionView::DeleteReminder { eid }));
        assert(s.all_called_for(end));
        lemma_concat(s, s.task_update(eid, t, tu), end);
    } else {
        lemma_concat(s, s.task_update(eid, t, tu), s.reminder_update(eid, ru));
    }
}

proof fn lemma_pair_with_task(s: Scene, eid: Seq<char>, t: TaskView)
    requires
        s.knows(eid),
        s.reminder(eid) is None,
        s.task(eid) == Some(t),
    ensures
        s.all_called_for(s.for_task(eid, t)),
{
    if exists|new: Seq<char>| #[trigger] s.relinks(eid, new) {
        let new = choose|new: Seq<char>| #[trigger] s.relinks(eid, new);
        let (tu, ru) = s.changes(s.reminder(new)->0, t, eid);
        lemma_updates(s, new, t, tu, ru);
        let start = seq![ActionView::RelinkEid { old_eid: eid, new_eid: new }];
        assert(s.is_called_for(ActionView::RelinkEid { old_eid: eid, new_eid: new }));
        assert(s.all_called_for(start));
        lemma_concat(s, start, s.task_update(new, t, tu));
        lemma_concat(s, start + s.task_update(new, t, tu), s.reminder_update(new, ru));
    } else if !is_changed(line_hash(t), s.items()[eid].task_line_hash) {
        assert(s.is_called_for(ActionView::DeleteTask { eid }));
    }
}

proof fn lemma_pair_with_reminder(s: Scene, eid: Seq<char>, r: ReminderView)
    requires
        s.knows(eid),
        s.reminder(eid) == Some(r),
        s.task(eid) is None,
    ensures
        s.all_called_for(s.for_reminder(eid, r)),
{
    lemma_found(s.reminders, s.config.reminders_list, eid);
    if s.is_ejected(eid) {
        lemma_ejected_is_not_stale(s, eid);
        assert(r.is_completed || s.is_called_for(ActionView::DeleteReminder { eid }));
    } else if s.is_stale() {
        assert(r.is_completed || s.is_called_for(ActionView::CreateTask { eid, reminder: r }));
    } else if !is_changed(
        fields_hash(reminder_fields(r)),
        s.items()[eid].reminders_field_hash,
    ) {
        assert(r.is_completed || s.is_called_for(ActionView::DeleteReminder { eid }));
    }
}

proof fn lemma_pair(s: Scene, eid: Seq<char>)
    requires
        s.knows(eid),
    ensures
        s.all_called_for(s.for_pair(eid)),
{
    match (s.reminder(eid), s.task(eid)) {
        (Some(r), Some(t)) => lemma_pair_with_both(s, eid, r, t),
        (None, Some(t)) => lemma_pair_with_task(s, eid, t),
        (Some(r), None) => lemma_pair_with_reminder(s, eid, r),
        (None, None) => {},
    }
}

proof fn lemma_pairs(s: Scene, n: nat)
    requires
        n <= s.pairs.len(),
        distinct_keys(s.pairs),
    ensures
        s.all_called_for(s.for_pairs(n)),
    decreases n,
{
    if n > 0 {
        lemma_pairs(s, (n - 1) as nat);
        lemma_map_of(s.pairs);
        let eid = s.pairs[n - 1].0;
        assert(s.knows(eid));
        lemma_pair(s, eid);
        lemma_concat(s, s.for_pairs((n - 1) as nat), s.for_pair(eid));
    }
}

proof fn lemma_sentinels(s: Scene, n: nat)
    requires
        n <= s.tasks.len(),
    ensures
        s.all_called_for(s.for_sentinels(n)),
    decreases n,
{
    if n > 0 {
        lemma_sentinels(s, (n - 1) as nat);
        lemma_concat(s, s.for_sentinels((n - 1) as nat), s.for_sentinel(s.tasks[n - 1]));
    }
}

proof fn lemma_imports(s: Scene, n: nat)
    requires
        n <= s.reminders.len(),
    ensures
        s.all_called_for(s.for_imports(n)),
    decreases n,
{
    if n > 0 {
        lemma_imports(s, (n - 1) as nat);
        let a = s.for_imports((n - 1) as nat);
        let all = s.for_imports(n);
        assert forall|i: int| 0 <= i < all.len() implies s.is_called_for(#[trigger] all[i]) by {
            if i < a.len() {
                assert(all[i] == a[i]);
            }
        }
    }
}

proof fn lemma_pushes(s: Scene, n: nat)
    requires
        n <= s.tasks.len(),
    ensures
        s.all_called_for(s.for_pushes(n)),
    decreases n,
{
    if n > 0 {
        lemma_pushes(s, (n - 1) as nat);
        let a = s.for_pushes((n - 1) as nat);
        let all = s.for_pushes(n);
        assert(s.tasks.contains(s.tasks[n - 1]));
        assert forall|i: int| 0 <= i < all.len() implies s.is_called_for(#[trigger] all[i]) by {
            if i < a.len() {
                assert(all[i] == a[i]);
            }
        }
    }
}

/// Every action of a plan is called for. In particular: a task is deleted only
/// where its reminder is gone and its line did not change since the last run; a
/// reminder is deleted only where it was released, or where its task is gone and
/// it asks for that or did not change; a side that did change is created anew
/// instead. A reminder is created only for an unfinished task that the list takes,
/// that does not opt out and that belongs to no known pair.
pub proof fn plan_is_called_for(s: Scene)
    requires
        distinct_keys(s.pairs),
    ensures
        s.all_called_for(s.plan()),
{
    lemma_sentinels(s, s.tasks.len());
    lemma_pairs(s, s.pairs.len());
    lemma_imports(s, s.reminders.len());
    lemma_pushes(s, s.tasks.len());
    let a = s.for_sentinels(s.tasks.len());
    let b = s.for_pairs(s.pairs.len());
    let c = s.for_imports(s.reminders.len());
    lemma_concat(s, a, b);
    lemma_concat(s, a + b, c);
    lemma_concat(s, a + b + c, s.for_pushes(s.tasks.len()));
}

/// A task that opts out by `eid:na`, `eid:na/<eid>` or `eid:ns/<eid>` is never
/// pushed, and never counts as the task of a pair.
pub proof fn sentinel_opts_out(s: Scene, t: TaskView, value: Seq<char>, eid: Seq<char>)
    requires
        eid_of(t) == Some(value),
        is_sentinel(value),
    ensures
        !s.is_pushed(t),
        !s.in_scope(t, eid),
{
}

/// A finished task is never pushed.
pub proof fn finished_is_not_pushed(s: Scene, t: TaskView)
    requires
        t.finished,
    ensures
        !s.is_pushed(t),
{
}

/// A task of a known pair is never pushed, and a known reminder never imported.
pub proof fn known_is_not_new(s: Scene, t: TaskView, r: ReminderView, eid: Seq<char>)
    requires
        s.knows(eid),
        eid_of(t) == Some(eid),
        r.external_id == eid,
    ensures
        !s.is_pushed(t),
        !s.is_imported(r),
{
}

/// Where it is not known what one side of a pair was, nothing is lost with the other
/// side: the reminder is made anew from the task, or the task from the reminder,
/// unless the reminder is completed or a task asks to remove it.
pub proof fn unknown_side_is_kept(s: Scene, eid: Seq<char>, r: ReminderView, t: TaskView)
    ensures
        s.items()[eid].task_line_hash == 0 && s.items()[eid].reminders_field_hash == 0
            ==> s.for_task(eid, t).len() == 1 && s.for_task(eid, t)[0] is ResurrectReminder,
        s.items()[eid].reminders_field_hash == 0 && !r.is_completed && !s.is_ejected(eid)
            ==> s.for_reminder(eid, r).len() == 1 && !(s.for_reminder(eid, r)[0] is DeleteReminder),
{
}

/// A file that has tasks but no external identifiers is not taken for one from
/// which everything was deleted: nothing is deleted on either side.
pub proof fn stale_file_deletes_nothing(s: Scene)
    requires
        distinct_keys(s.pairs),
        s.is_stale(),
    ensures
        forall|i: int|
            0 <= i < s.plan().len() ==> !((#[trigger] s.plan()[i]) is DeleteReminder)
                && !(s.plan()[i] is DeleteTask),
{
    plan_is_called_for(s);
    assert forall|i: int| 0 <= i < s.plan().len() implies !((#[trigger] s.plan()[i])
        is DeleteReminder) && !(s.plan()[i] is DeleteTask) by {
        assert(s.is_called_for(s.plan()[i]));
        match s.plan()[i] {
            ActionView::DeleteReminder { eid } => {
                if s.task(eid) is Some {
                    lemma_found_task(s, s.tasks, eid);
                    let t = s.task(eid)->0;
                    let k = s.tasks.index_of(t);
                    assert(eid_of(s.tasks[k]) is Some);
                }
            },
            ActionView::DeleteTask { eid } => {
                lemma_found_task(s, s.tasks, eid);
                let t = s.task(eid)->0;
                let k = s.tasks.index_of(t);
                assert(eid_of(s.tasks[k]) is Some);
            },
            _ => {},
        }
    }
}

/// A pair that another list owns has no task here, so that nothing is updated and
/// no task deleted on its account.
pub proof fn other_list_is_left_alone(s: Scene, eid: Seq<char>)
    requires
        s.knows(eid),
        s.items()[eid].fields.list != s.config.reminders_list,
    ensures
        s.task(eid) is None,
{
    if s.task(eid) is Some {
        lemma_found_task(s, s.tasks, eid);
    }
}

/// A lost reminder goes on as at most one new reminder, a new reminder takes the
/// place of at most one lost one, and one that does is not imported as well. A
/// pair without a hash is never moved.
pub proof fn relinks_one_to_one(s: Scene, a: Seq<char>, b: Seq<char>, n: Seq<char>, m: Seq<char>)
    ensures
        s.relinks(a, n) && s.relinks(b, n) ==> a == b,
        s.relinks(a, n) && s.relinks(a, m) ==> n == m,
        s.relinks(a, n) ==> s.items()[a].reminders_field_hash != 0,
        s.relinks(a, n) ==> (s.reminder(n) matches Some(r) && !s.is_imported(r)),
{
    if s.relinks(a, n) {
        lemma_found(s.reminders, s.config.reminders_list, n);
        let r = s.reminder(n)->0;
        assert(s.relinks(a, r.external_id));
        let h = s.items()[a].reminders_field_hash;
        if s.relinks(b, n) {
            assert(s.is_lost(b, h));
        }
        if s.relinks(a, m) {
            assert(s.is_fresh(m, h));
        }
    }
}

/// A pair that both sides left as they last agreed on needs nothing done, unless
/// it is released.
pub proof fn unchanged_pair_is_quiet(s: Scene, eid: Seq<char>, r: ReminderView, t: TaskView)
    requires
        s.reminder(eid) == Some(r),
        s.task(eid) == Some(t),
        agree(r, t, s.config.mapping),
        !s.release.contains(eid),
    ensures
        s.for_pair(eid) == Seq::<ActionView>::empty(),
{
    agreement_is_quiet(
        r,
        t,
        s.items()[eid].fields,
        s.file,
        s.config.mapping,
        s.tolerance,
        s.config.writeback,
    );
    assert(s.for_pair(eid) =~= Seq::<ActionView>::empty());
}

impl Scene {
    /// Whether both sides are in step: every known pair of the list agrees and is
    /// not released, the others are gone on both sides; no reminder is new and no
    /// task is to be pushed or asks for anything.
    pub open spec fn is_in_step(self) -> bool {
        &&& forall|k: int|
            0 <= k < self.pairs.len() ==> {
                let eid = (#[trigger] self.pairs[k]).0;
                match (self.reminder(eid), self.task(eid)) {
                    (Some(r), Some(t)) => agree(r, t, self.config.mapping)
                        && !self.release.contains(eid),
                    (Some(r), None) => r.is_completed,
                    (None, Some(_)) => false,
                    (None, None) => true,
                }
            }
        &&& forall|k: int|
            0 <= k < self.reminders.len() ==> !self.is_imported(#[trigger] self.reminders[k])
        &&& forall|k: int|
            0 <= k < self.tasks.len() ==> !self.is_pushed(#[trigger] self.tasks[k])
                && self.for_sentinel(self.tasks[k]).len() == 0
    }
}

proof fn lemma_quiet_pairs(s: Scene, n: nat)
    requires
        s.is_in_step(),
        n <= s.pairs.len(),
    ensures
        s.for_pairs(n) == Seq::<ActionView>::empty(),
    decreases n,
{
    if n > 0 {
        lemma_quiet_pairs(s, (n - 1) as nat);
        let eid = s.pairs[n - 1].0;
        match (s.reminder(eid), s.task(eid)) {
            (Some(r), Some(t)) => {
                unchanged_pair_is_quiet(s, eid, r, t);
            },
            _ => {},
        }
        assert(s.for_pairs(n) =~= Seq::<ActionView>::empty());
    }
}

proof fn lemma_quiet_rest(s: Scene, n: nat, m: nat)
    requires
        s.is_in_step(),
        n <= s.tasks.len(),
        m <= s.reminders.len(),
    ensures
        s.for_sentinels(n) == Seq::<ActionView>::empty(),
        s.for_pushes(n) == Seq::<ActionView>::empty(),
        s.for_imports(m) == Seq::<ActionView>::empty(),
    decreases n + m,
{
    if n > 0 {
        lemma_quiet_rest(s, (n - 1) as nat, m);
        assert(s.for_sentinels(n) =~= Seq::<ActionView>::empty());
        assert(s.for_pushes(n) =~= Seq::<ActionView>::empty());
    } else if m > 0 {
        lemma_quiet_rest(s, n, (m - 1) as nat);
        assert(s.for_imports(m) =~= Seq::<ActionView>::empty());
    }
}

/// Where both sides are in step, a run has nothing to do.
pub proof fn in_step_plans_nothing(s: Scene)
    requires
        s.is_in_step(),
    ensures
        s.plan() == Seq::<ActionView>::empty(),
{
    lemma_quiet_pairs(s, s.pairs.len());
    lemma_quiet_rest(s, s.tasks.len(), s.reminders.len());
    assert(s.plan() =~= Seq::<ActionView>::empty());
}

/// An update settles a pair: the plan's update of the task and of the reminder
/// bring both sides together, so that the next comparison asks for nothing. The
/// updated task shows what it was updated with.
pub proof fn updates_settle_pair(
    s: Scene,
    eid: Seq<char>,
    r: ReminderView,
    t: TaskView,
    base: FieldsView,
    file: Option<Timestamp>,
)
    requires
        shows(
            t,
            updated_task(t, s.changes(r, t, eid).0, s.config.mapping, s.today),
            s.changes(r, t, eid).0,
            s.config.mapping,
        ),
    ensures
        ({
            let after = updated_task(t, s.changes(r, t, eid).0, s.config.mapping, s.today);
            let other = patched(r, s.changes(r, t, eid).1);
            let again = diff(
                other,
                after,
                base,
                file,
                s.config.mapping,
                s.tolerance,
                s.config.writeback,
            );
            again.0.is_nothing() && again.1.is_nothing()
        }),
{
    let after = updated_task(t, s.changes(r, t, eid).0, s.config.mapping, s.today);
    let other = patched(r, s.changes(r, t, eid).1);
    diff_converges(
        r,
        t,
        after,
        s.items()[eid].fields,
        s.file,
        s.config.mapping,
        s.tolerance,
        s.config.writeback,
    );
    agreement_is_quiet(
        other,
        after,
        base,
        file,
        s.config.mapping,
        s.tolerance,
        s.config.writeback,
    );
}

// ---------------------------------------------------------------------------
// Sticky tracking
// ---------------------------------------------------------------------------

/// Only an edited task that its list does not take any more is released, and only
/// where the list goes by edits.
pub proof fn release_needs_edit(
    ts: Seq<TaskView>,
    cs: Seq<ConfigView>,
    eid: Seq<char>,
    item: ItemView,
    today: int,
)
    requires
        is_released(ts, cs, eid, item, today),
    ensures
        ({
            let t = ts[first_with(ts, eid) as int];
            &&& eid_of(t) == Some(eid)
            &&& line_hash(t) != item.task_line_hash
            &&& config_for(cs, item.fields.list) matches Some(c) && c.sticky_tracking
                == StickyTracking::Triage && !admits(c, t, today)
        }),
{
    lemma_first_with(ts, eid);
}

/// Unless the list tracks never, a task of a pair that it owns stays the task of
/// that pair, whether the list takes it or not.
pub proof fn sticky_keeps_task(s: Scene, t: TaskView, eid: Seq<char>)
    requires
        s.config.sticky_tracking != StickyTracking::Never,
        s.knows(eid),
        s.items()[eid].fields.list == s.config.reminders_list,
        eid_of(t) == Some(eid),
        !is_sentinel(eid),
    ensures
        s.in_scope(t, eid),
{
}

/// A list that tracks never lets a task go as soon as it does not take it: the
/// task does not count any more.
pub proof fn never_lets_go(s: Scene, t: TaskView, eid: Seq<char>)
    requires
        s.config.sticky_tracking == StickyTracking::Never,
        !admits(s.config, t, s.today),
    ensures
        !s.in_scope(t, eid),
{
}

// ---------------------------------------------------------------------------
// Opting out
// ---------------------------------------------------------------------------

/// A task with `eid:na/<eid>` or `eid:ns/<eid>` removes the reminder that it names:
/// where that is open and has no task, it is deleted.
pub proof fn sentinel_ejects_reminder(
    s: Scene,
    i: int,
    value: Seq<char>,
    eid: Seq<char>,
    r: ReminderView,
)
    requires
        0 <= i < s.tasks.len(),
        eid_of(s.tasks[i]) == Some(value),
        sentinel_original(value) == Some(eid),
        s.reminder(eid) == Some(r),
        !r.is_completed,
        s.task(eid) is None,
    ensures
        s.for_pair(eid) == seq![ActionView::DeleteReminder { eid }],
{
    assert(s.is_ejected(eid));
}

/// Once the pair is gone, the tag of a task that opts out is simplified: `na/<eid>`
/// becomes `na`, and `ns/<eid>` goes.
pub proof fn sentinel_is_simplified(
    b: Board,
    value: Seq<char>,
    c: ConfigView,
    now: Timestamp,
    today: int,
)
    requires
        first_with(b.tasks, value) < b.tasks.len(),
    ensures
        ({
            let i = first_with(b.tasks, value) as int;
            let after = b.after(
                ActionView::CleanSentinelTag { sentinel_eid: value },
                c,
                now,
                today,
            );
            after.items == b.items && eid_of(after.tasks[i]) == (if "na/"@.is_prefix_of(value) {
                Some("na"@)
            } else {
                None
            })
        }),
{
    reveal_strlit("na");
    lemma_first_with(b.tasks, value);
}

// ---------------------------------------------------------------------------
// The file's side
// ---------------------------------------------------------------------------

/// After a run no task carries an external identifier of no known pair.
pub proof fn run_leaves_no_orphan(
    b: Board,
    actions: Seq<ActionView>,
    c: ConfigView,
    now: Timestamp,
    today: int,
    i: int,
)
    requires
        0 <= i < b.after_run(actions, c, now, today).tasks.len(),
    ensures
        !b.after_run(actions, c, now, today).is_orphan(
            b.after_run(actions, c, now, today).tasks[i],
        ),
{
    let end = b.after_all(actions, c, now, today);
    let t = end.tasks[i];
    assert(end.without_orphans().tasks[i] == if end.is_orphan(t) {
        with_eid(t, Seq::empty())
    } else {
        t
    });
}

/// Whether no two tasks carry the same external identifier, of those that join a
/// task to a pair.
pub open spec fn distinct_eids(ts: Seq<TaskView>) -> bool {
    forall|i: int, j: int|
        0 <= i < j < ts.len() ==> (eid_of(#[trigger] ts[i]) matches Some(e) ==> (is_real(e)
            ==> eid_of(#[trigger] ts[j]) != Some(e)))
}

proof fn lemma_one_position(ts: Seq<TaskView>, eid: Seq<char>, n: nat)
    requires
        distinct_eids(ts),
        is_real(eid),
        n <= ts.len(),
    ensures
        positions(ts, eid, n).len() <= 1,
        forall|k: int|
            0 <= k < positions(ts, eid, n).len() ==> (#[trigger] positions(ts, eid, n)[k]) < n
                && eid_of(ts[positions(ts, eid, n)[k] as int]) == Some(eid),
    decreases n,
{
    if n > 0 {
        lemma_one_position(ts, eid, (n - 1) as nat);
        let front = positions(ts, eid, (n - 1) as nat);
        if eid_of(ts[n - 1]) == Some(eid) && front.len() > 0 {
            let p = front[0] as int;
            assert(eid_of(ts[p]) == Some(eid));
            assert(eid_of(ts[n - 1]) != Some(eid));
        }
    }
}

proof fn lemma_last_is_only(ts: Seq<TaskView>, eid: Seq<char>, p: int)
    requires
        0 <= p < ts.len(),
        eid_of(ts[p]) == Some(eid),
        forall|j: int| 0 <= j < ts.len() && j != p ==> eid_of(#[trigger] ts[j]) != Some(eid),
    ensures
        last_with(ts, eid) == Some(ts[p]),
    decreases ts.len(),
{
    if p < ts.len() - 1 {
        assert(eid_of(ts[ts.len() - 1]) != Some(eid));
        let front = ts.drop_last();
        assert forall|j: int| 0 <= j < front.len() && j != p implies eid_of(#[trigger] front[j])
            != Some(eid) by {
            assert(front[j] == ts[j]);
        }
        lemma_last_is_only(front, eid, p);
    }
}

proof fn lemma_no_duplicates(ts: Seq<TaskView>, n: nat)
    requires
        distinct_eids(ts),
        n <= ts.len(),
    ensures
        duplicate_reports(ts, n) == Seq::<Seq<char>>::empty(),
    decreases n,
{
    if n > 0 {
        lemma_no_duplicates(ts, (n - 1) as nat);
        if let Some(e) = new_eid_at(ts, n - 1) {
            lemma_one_position(ts, e, ts.len());
        }
    }
}

proof fn lemma_no_mismatch(b: Board, pairs: Seq<(Seq<char>, ItemView)>, n: nat)
    requires
        distinct_eids(b.tasks),
        distinct_keys(pairs),
        map_of(pairs) == b.with_hashes().items,
        n <= pairs.len(),
    ensures
        mismatch_reports(b.tasks, pairs, n) == Seq::<Seq<char>>::empty(),
    decreases n,
{
    if n > 0 {
        lemma_no_mismatch(b, pairs, (n - 1) as nat);
        lemma_map_of(pairs);
        let e = pairs[n - 1].0;
        let item = pairs[n - 1].1;
        let ts = b.tasks;
        assert(map_of(pairs)[e] == item);
        assert(b.with_hashes().items[e] == b.rehashed(e, b.items[e]));
        if is_mismatch(ts, e, item) {
            lemma_one_position(ts, e, ts.len());
            let p = all_positions(ts, e)[0] as int;
            assert(eid_of(ts[p]) == Some(e));
            assert forall|j: int| 0 <= j < ts.len() && j != p implies eid_of(#[trigger] ts[j])
                != Some(e) by {
                if eid_of(ts[j]) == Some(e) {
                    if j < p {
                        assert(eid_of(ts[p]) != Some(e));
                    } else {
                        assert(eid_of(ts[j]) != Some(e));
                    }
                }
            }
            lemma_last_is_only(ts, e, p);
        }
    }
}

proof fn lemma_no_orphan_reports(b: Board, n: nat)
    requires
        forall|i: int| 0 <= i < b.tasks.len() ==> !b.is_orphan(#[trigger] b.tasks[i]),
        n <= b.tasks.len(),
    ensures
        orphan_reports(b.tasks, b.items, n) == Seq::<Seq<char>>::empty(),
    decreases n,
{
    if n > 0 {
        lemma_no_orphan_reports(b, (n - 1) as nat);
        assert(!b.is_orphan(b.tasks[n - 1]));
    }
}

/// After a run the tasks and the known pairs fit together: the check that follows
/// a run has nothing to report, unless several tasks carry one external identifier.
pub proof fn run_is_consistent(
    b: Board,
    actions: Seq<ActionView>,
    c: ConfigView,
    now: Timestamp,
    today: int,
    pairs: Seq<(Seq<char>, ItemView)>,
)
    requires
        distinct_keys(pairs),
        map_of(pairs) == b.after_run(actions, c, now, today).items,
        distinct_eids(b.after_run(actions, c, now, today).tasks),
    ensures
        reports(
            b.after_run(actions, c, now, today).tasks,
            pairs,
            b.after_run(actions, c, now, today).items,
        ) == Seq::<Seq<char>>::empty(),
{
    let mid = b.after_all(actions, c, now, today).without_orphans();
    let end = b.after_run(actions, c, now, today);
    lemma_no_duplicates(end.tasks, end.tasks.len());
    lemma_no_mismatch(mid, pairs, pairs.len());
    assert forall|i: int| 0 <= i < end.tasks.len() implies !end.is_orphan(
        #[trigger] end.tasks[i],
    ) by {
        run_leaves_no_orphan(b, actions, c, now, today, i);
    }
    lemma_no_orphan_reports(end, end.tasks.len());
    assert(reports(end.tasks, pairs, end.items) =~= Seq::<Seq<char>>::empty());
}

/// Only an action that deletes a task takes a task away.
pub proof fn only_deletions_shrink(
    b: Board,
    actions: Seq<ActionView>,
    c: ConfigView,
    now: Timestamp,
    today: int,
)
    requires
        task_deletions(actions) == 0,
    ensures
        b.after_run(actions, c, now, today).tasks.len() >= b.tasks.len(),
    decreases actions.len(),
{
    if actions.len() > 0 {
        only_deletions_shrink(b, actions.drop_last(), c, now, today);
        let front = b.after_all(actions.drop_last(), c, now, today);
        assert(front.without_orphans().with_hashes().tasks.len() == front.tasks.len());
        let end = b.after_all(actions, c, now, today);
        assert(end.without_orphans().with_hashes().tasks.len() == end.tasks.len());
    }
}

/// A reminder that was imported is known from then on: its task carries its
/// external identifier where the line of the task does, and it is not imported
/// again.
pub proof fn import_is_remembered(
    b: Board,
    reminder: ReminderView,
    c: ConfigView,
    now: Timestamp,
    today: int,
    next: Scene,
)
    requires
        next.items() == b.after(
            ActionView::CreateTask { eid: reminder.external_id, reminder },
            c,
            now,
            today,
        ).items,
    ensures
        next.knows(reminder.external_id),
        !next.is_imported(reminder),
{
}

/// A pair that goes on under another external identifier keeps its fields, its
/// origin and the reminder's hash.
pub proof fn relink_keeps_pair(
    b: Board,
    old_eid: Seq<char>,
    new_eid: Seq<char>,
    c: ConfigView,
    now: Timestamp,
    today: int,
)
    requires
        b.items.dom().contains(old_eid),
    ensures
        ({
            let after = b.after(ActionView::RelinkEid { old_eid, new_eid }, c, now, today);
            &&& after.items.dom().contains(new_eid)
            &&& old_eid != new_eid ==> !after.items.dom().contains(old_eid)
            &&& after.items[new_eid].eid == new_eid
            &&& after.items[new_eid].fields == b.items[old_eid].fields
            &&& after.items[new_eid].pushed == b.items[old_eid].pushed
            &&& after.items[new_eid].reminders_field_hash == b.items[old_eid].reminders_field_hash
        }),
{
}

// ---------------------------------------------------------------------------
// The first run
// ---------------------------------------------------------------------------

/// Whether a joined pair comes from the first `n` reminders.
pub open spec fn is_joined(
    rs: Seq<ReminderView>,
    ts: Seq<TaskView>,
    taken_eids: Set<Seq<char>>,
    taken_tasks: Set<int>,
    n: nat,
    p: (Seq<char>, int),
) -> bool {
    exists|i: int|
        0 <= i < n && p.0 == rs[i].external_id && #[trigger] are_partners(
            rs,
            ts,
            taken_eids,
            taken_tasks,
            i,
            p.1,
        )
}

pub(crate) proof fn lemma_partner_positions(
    rs: Seq<ReminderView>,
    ts: Seq<TaskView>,
    taken_eids: Set<Seq<char>>,
    taken_tasks: Set<int>,
    n: nat,
)
    requires
        n <= rs.len(),
    ensures
        forall|k: int|
            0 <= k < partners(rs, ts, taken_eids, taken_tasks, n).len() ==> is_joined(
                rs,
                ts,
                taken_eids,
                taken_tasks,
                n,
                #[trigger] partners(rs, ts, taken_eids, taken_tasks, n)[k],
            ),
        forall|a: int, b: int|
            0 <= a < b < partners(rs, ts, taken_eids, taken_tasks, n).len() ==> (
            #[trigger] partners(rs, ts, taken_eids, taken_tasks, n)[a]).1 != (
            #[trigger] partners(rs, ts, taken_eids, taken_tasks, n)[b]).1,
    decreases n,
{
    if n > 0 {
        lemma_partner_positions(rs, ts, taken_eids, taken_tasks, (n - 1) as nat);
        let front = partners(rs, ts, taken_eids, taken_tasks, (n - 1) as nat);
        let all = partners(rs, ts, taken_eids, taken_tasks, n);
        assert forall|k: int| 0 <= k < all.len() implies is_joined(
            rs,
            ts,
            taken_eids,
            taken_tasks,
            n,
            #[trigger] all[k],
        ) by {
            if k < front.len() {
                assert(all[k] == front[k]);
                let i = choose|i: int|
                    0 <= i < n - 1 && front[k].0 == rs[i].external_id
                        && #[trigger] are_partners(
                        rs,
                        ts,
                        taken_eids,
                        taken_tasks,
                        i,
                        front[k].1,
                    );
                assert(are_partners(rs, ts, taken_eids, taken_tasks, i, all[k].1));
            } else {
                assert(are_partners(rs, ts, taken_eids, taken_tasks, n - 1, all[k].1));
            }
        }
        assert forall|a: int, b: int| 0 <= a < b < all.len() implies (#[trigger] all[a]).1 != (
        #[trigger] all[b]).1 by {
            assert(all[a] == front[a]);
            if b < front.len() {
                assert(all[b] == front[b]);
            } else if all[a].1 == all[b].1 {
                assert(is_joined(rs, ts, taken_eids, taken_tasks, (n - 1) as nat, front[a]));
                let i = choose|i: int|
                    0 <= i < n - 1 && front[a].0 == rs[i].external_id
                        && #[trigger] are_partners(
                        rs,
                        ts,
                        taken_eids,
                        taken_tasks,
                        i,
                        front[a].1,
                    );
                assert(are_partners(rs, ts, taken_eids, taken_tasks, n - 1, all[b].1));
                assert(is_free_reminder(rs, taken_eids, i));
            }
        }
    }
}

/// On the first run no task is joined with two reminders, and every joined pair is
/// unambiguous: no other free reminder or task has its title and due date.
pub proof fn first_run_joins_once(rs: Seq<ReminderView>, ts: Seq<TaskView>, a: int, b: int)
    requires
        0 <= a < b < initial_partners(rs, ts).len(),
    ensures
        initial_partners(rs, ts)[a].1 != initial_partners(rs, ts)[b].1,
{
    lemma_partner_positions(
        rs,
        ts,
        matched_eids(rs, ts, rs.len()),
        matched_tasks(rs, ts, rs.len()),
        rs.len(),
    );
}

// ---------------------------------------------------------------------------
// Guards
// ---------------------------------------------------------------------------

/// Three reminders may always be deleted; the limit grows with the number of
/// tracked reminders and with the percentage; and at one hundred percent any number
/// may be deleted.
pub proof fn delete_limit_is_monotone(
    total: nat,
    more: nat,
    percent: nat,
    higher: nat,
    actions: Seq<ActionView>,
)
    requires
        total <= more,
        percent <= higher,
    ensures
        delete_limit(total, percent) >= 3,
        delete_limit(total, percent) <= delete_limit(more, percent),
        delete_limit(total, percent) <= delete_limit(total, higher),
        reminder_deletions(actions) <= 3 ==> !is_bulk_deletion(actions, total, percent),
        !is_bulk_deletion(actions, total, 100),
{
    let p: nat = if percent < 100 {
        percent
    } else {
        100
    };
    let h: nat = if higher < 100 {
        higher
    } else {
        100
    };
    assert(total * p <= more * p) by (nonlinear_arith)
        requires
            total <= more,
            p >= 0,
    ;
    assert(total * p <= total * h) by (nonlinear_arith)
        requires
            p <= h,
            total >= 0,
    ;
}

/// A run that deletes nothing passes every guard.
pub proof fn harmless_run_is_allowed(actions: Seq<ActionView>, total: nat, percent: nat)
    requires
        deletions(actions) == 0,
    ensures
        !is_bulk_deletion(actions, total, percent),
{
}

// ---------------------------------------------------------------------------
// Priorities
// ---------------------------------------------------------------------------

/// Whether a target is a letter, a name without a sign before it, or nothing.
pub open spec fn is_named_target(target: TargetView) -> bool {
    match target {
        TargetView::Context(c) => c.len() > 0 && c[0] != '@',
        TargetView::Priority(p) => p < NO_PRIORITY,
        TargetView::Nothing => true,
    }
}

/// Whether a target is a letter, a single word without a sign before it, or nothing.
pub open spec fn is_clear_target(target: TargetView) -> bool {
    is_named_target(target) && (target matches TargetView::Context(c) ==> one_word(c))
}

/// Whether letters are A to Z and contexts are names without a sign before them.
pub open spec fn has_named_targets(v: Seq<(i32, TargetView)>) -> bool {
    forall|i: int| 0 <= i < v.len() ==> is_named_target((#[trigger] v[i]).1)
}

/// Whether letters are A to Z and contexts are single words without a sign before them.
pub open spec fn has_clear_targets(v: Seq<(i32, TargetView)>) -> bool {
    forall|i: int| 0 <= i < v.len() ==> is_clear_target((#[trigger] v[i]).1)
}

/// Whether no target occurs twice in a priority map.
pub open spec fn has_distinct_targets(v: Seq<(i32, TargetView)>) -> bool {
    forall|i: int, j: int|
        0 <= i < j < v.len() ==> ((#[trigger] v[i]).1 != (#[trigger] v[j]).1 || v[i].1 is Nothing)
}

pub(crate) proof fn lemma_mapped_contexts(v: Seq<(i32, TargetView)>, i: int)
    requires
        0 <= i < v.len(),
    ensures
        v[i].1 matches TargetView::Context(c) ==> mapped_contexts(v).contains(c),
        v[i].1 matches TargetView::Priority(p) ==> mapped_priorities(v).contains(p),
    decreases v.len(),
{
    let front = v.drop_last();
    if i < front.len() {
        lemma_mapped_contexts(front, i);
        assert(front[i] == v[i]);
        match v[i].1 {
            TargetView::Context(c) => {
                let k = mapped_contexts(front).index_of(c);
                assert(mapped_contexts(v)[k] == c);
            },
            TargetView::Priority(p) => {
                let k = mapped_priorities(front).index_of(p);
                assert(mapped_priorities(v)[k] == p);
            },
            TargetView::Nothing => {},
        }
    } else {
        match v[i].1 {
            TargetView::Context(c) => {
                assert(mapped_contexts(v)[mapped_contexts(front).len() as int] == c);
            },
            TargetView::Priority(p) => {
                assert(mapped_priorities(v)[mapped_priorities(front).len() as int] == p);
            },
            TargetView::Nothing => {},
        }
    }
}

/// What a map with named targets can put on a task has a name.
pub(crate) proof fn lemma_mapped_are_named(v: Seq<(i32, TargetView)>)
    requires
        has_named_targets(v),
    ensures
        forall|k: int|
            0 <= k < mapped_contexts(v).len() ==> (#[trigger] mapped_contexts(v)[k]).len() > 0
                && mapped_contexts(v)[k][0] != '@',
        forall|k: int|
            0 <= k < mapped_priorities(v).len() ==> (#[trigger] mapped_priorities(v)[k])
                < NO_PRIORITY,
    decreases v.len(),
{
    if v.len() > 0 {
        let front = v.drop_last();
        assert forall|i: int| 0 <= i < front.len() implies is_named_target(
            (#[trigger] front[i]).1,
        ) by {
            assert(front[i] == v[i]);
        }
        lemma_mapped_are_named(front);
        assert(is_named_target(v[v.len() - 1].1));
        let cs = mapped_contexts(v);
        assert forall|k: int| 0 <= k < cs.len() implies (#[trigger] cs[k]).len() > 0 && cs[k][0]
            != '@' by {
            if k < mapped_contexts(front).len() {
                assert(cs[k] == mapped_contexts(front)[k]);
            }
        }
        let ps = mapped_priorities(v);
        assert forall|k: int| 0 <= k < ps.len() implies (#[trigger] ps[k]) < NO_PRIORITY by {
            if k < mapped_priorities(front).len() {
                assert(ps[k] == mapped_priorities(front)[k]);
            }
        }
    }
}

/// What a map with clear targets can put on a task is clear.
pub proof fn lemma_mapped_are_clear(v: Seq<(i32, TargetView)>)
    requires
        has_clear_targets(v),
    ensures
        forall|k: int|
            0 <= k < mapped_contexts(v).len() ==> (#[trigger] mapped_contexts(v)[k]).len() > 0
                && mapped_contexts(v)[k][0] != '@' && one_word(mapped_contexts(v)[k]),
    decreases v.len(),
{
    lemma_mapped_are_named(v);
    if v.len() > 0 {
        let front = v.drop_last();
        assert forall|i: int| 0 <= i < front.len() implies is_clear_target(
            (#[trigger] front[i]).1,
        ) by {
            assert(front[i] == v[i]);
        }
        lemma_mapped_are_clear(front);
        assert(is_clear_target(v[v.len() - 1].1));
        let cs = mapped_contexts(v);
        assert forall|k: int| 0 <= k < cs.len() implies one_word(#[trigger] cs[k]) by {
            if k < mapped_contexts(front).len() {
                assert(cs[k] == mapped_contexts(front)[k]);
            }
        }
    }
}

pub(crate) proof fn lemma_filtered(s: Seq<Seq<char>>, keep: spec_fn(Seq<char>) -> bool, c: Seq<char>)
    requires
        s.filter(keep).contains(c),
    ensures
        s.contains(c),
        keep(c),
    decreases s.len(),
{
    reveal(Seq::filter);
    if s.len() > 0 {
        let front = s.drop_last();
        if front.filter(keep).contains(c) {
            lemma_filtered(front, keep, c);
            let k = front.index_of(c);
            assert(s[k] == c);
        } else {
            let k = s.filter(keep).index_of(c);
            if k < front.filter(keep).len() {
                assert(front.filter(keep)[k] == c);
            }
            assert(s[s.len() - 1] == c);
        }
    }
}

pub(crate) proof fn lemma_without_contexts(t: TaskView, cs: Seq<Seq<char>>)
    requires
        forall|k: int| 0 <= k < cs.len() ==> (#[trigger] cs[k]).len() > 0 && cs[k][0] != '@',
    ensures
        forall|c: Seq<char>| #[trigger]
            without_contexts(t, cs).contexts.contains(c) ==> t.contexts.contains(c)
                && !cs.contains(c),
        without_contexts(t, cs).priority == t.priority,
        without_contexts(t, cs).finished == t.finished,
        without_contexts(t, cs).finish_date == t.finish_date,
        without_contexts(t, cs).due_date == t.due_date,
    decreases cs.len(),
{
    if cs.len() > 0 {
        let front = cs.drop_last();
        assert forall|k: int| 0 <= k < front.len() implies (#[trigger] front[k]).len() > 0
            && front[k][0] != '@' by {
            assert(front[k] == cs[k]);
        }
        lemma_without_contexts(t, front);
        let mid = without_contexts(t, front);
        let gone = cs.last();
        assert(cs[cs.len() - 1] == gone);
        let keep = |c: Seq<char>| c != gone;
        assert(without_contexts(t, cs).contexts == mid.contexts.filter(keep));
        assert forall|c: Seq<char>| #[trigger]
            without_contexts(t, cs).contexts.contains(c) implies t.contexts.contains(c)
            && !cs.contains(c) by {
            lemma_filtered(mid.contexts, keep, c);
            if cs.contains(c) {
                let j = cs.index_of(c);
                assert(front[j] == c);
            }
        }
    }
}

pub(crate) proof fn lemma_priority_of_none(v: Seq<(i32, TargetView)>, t: TaskView)
    requires
        forall|i: int| 0 <= i < v.len() ==> !carries(t, (#[trigger] v[i]).1),
    ensures
        priority_of(v, t) == 0,
    decreases v.len(),
{
    if v.len() > 0 {
        assert(!carries(t, v[0].1));
        assert forall|i: int| 0 <= i < v.skip(1).len() implies !carries(
            t,
            (#[trigger] v.skip(1)[i]).1,
        ) by {
            assert(v.skip(1)[i] == v[i + 1]);
        }
        lemma_priority_of_none(v.skip(1), t);
    }
}

pub(crate) proof fn lemma_priority_of_only(v: Seq<(i32, TargetView)>, t: TaskView, k: int)
    requires
        0 <= k < v.len(),
        carries(t, v[k].1),
        forall|i: int| 0 <= i < k ==> !carries(t, (#[trigger] v[i]).1),
    ensures
        priority_of(v, t) == v[k].0,
    decreases v.len(),
{
    if k > 0 {
        assert(!carries(t, v[0].1));
        assert(v.skip(1)[k - 1] == v[k]);
        assert forall|i: int| 0 <= i < k - 1 implies !carries(t, (#[trigger] v.skip(1)[i]).1) by {
            assert(v.skip(1)[i] == v[i + 1]);
        }
        lemma_priority_of_only(v.skip(1), t, k - 1);
    }
}

pub(crate) proof fn lemma_target_for(v: Seq<(i32, TargetView)>, p: i32) -> (k: int)
    requires
        !(target_for(v, p) is Nothing),
    ensures
        0 <= k < v.len(),
        v[k] == (p, target_for(v, p)),
    decreases v.len(),
{
    if v[0].0 == p {
        0
    } else {
        let k = lemma_target_for(v.skip(1), p);
        assert(v.skip(1)[k] == v[k + 1]);
        k + 1
    }
}

/// The target of a priority in a map with clear targets is clear.
pub proof fn lemma_target_is_clear(v: Seq<(i32, TargetView)>, p: i32)
    requires
        has_clear_targets(v),
    ensures
        is_clear_target(target_for(v, p)),
{
    if !(target_for(v, p) is Nothing) {
        let k = lemma_target_for(v, p);
        assert(is_clear_target(v[k].1));
    }
}

/// A priority that is carried over to an open task can be read back from it, where
/// the map has a target for it; a priority without a target reads as none.
pub proof fn priority_reads_back(
    t: TaskView,
    u: ChangesView,
    p: i32,
    mapping: Seq<(i32, TargetView)>,
)
    requires
        has_distinct_targets(mapping),
        has_named_targets(mapping),
        u.priority == Some(p),
        !t.finished,
    ensures
        priority_of(mapping, priority_updated(t, u, mapping)) == (if target_for(mapping, p)
            is Nothing {
            0
        } else {
            p
        }),
{
    let cs = mapped_contexts(mapping);
    let bare = without_contexts(t, cs);
    lemma_mapped_are_named(mapping);
    lemma_without_contexts(t, cs);
    let plain = TaskView {
        priority: if mapped_priorities(mapping).contains(bare.priority) {
            NO_PRIORITY
        } else {
            bare.priority
        },
        ..bare
    };
    let target = target_for(mapping, p);
    let after = with_target(plain, target);
    assert(priority_updated(t, u, mapping) == after);
    assert forall|i: int| 0 <= i < mapping.len() implies !carries(plain, (#[trigger] mapping[i]).1) by {
        lemma_mapped_contexts(mapping, i);
        assert(is_named_target(mapping[i].1));
    }
    if target is Nothing {
        lemma_priority_of_none(mapping, after);
    } else {
        let k = lemma_target_for(mapping, p);
        assert(is_named_target(mapping[k].1));
        match target {
            TargetView::Context(c) => {
                assert(!carries(plain, mapping[k].1));
                assert(after.contexts == plain.contexts.push(c));
                assert(after.contexts[plain.contexts.len() as int] == c);
                assert forall|i: int| 0 <= i < k implies !carries(
                    after,
                    (#[trigger] mapping[i]).1,
                ) by {
                    assert(!carries(plain, mapping[i].1));
                    assert(mapping[i].1 != mapping[k].1 || mapping[i].1 is Nothing);
                    if let TargetView::Context(d) = mapping[i].1 {
                        if after.contexts.contains(d) {
                            let j = after.contexts.index_of(d);
                            if j < plain.contexts.len() {
                                assert(plain.contexts[j] == d);
                            }
                        }
                    }
                }
                lemma_priority_of_only(mapping, after, k);
            },
            TargetView::Priority(q) => {
                assert forall|i: int| 0 <= i < k implies !carries(
                    after,
                    (#[trigger] mapping[i]).1,
                ) by {
                    assert(!carries(plain, mapping[i].1));
                    assert(mapping[i].1 != mapping[k].1 || mapping[i].1 is Nothing);
                }
                lemma_priority_of_only(mapping, after, k);
            },
            TargetView::Nothing => {},
        }
    }
}

/// An update completes or reopens a task as it says, and completes it on the day
/// that it names. Without a word on it the task stays as it is.
pub proof fn completion_is_shown(
    t: TaskView,
    u: ChangesView,
    mapping: Seq<(i32, TargetView)>,
    today: int,
)
    requires
        has_named_targets(mapping),
    ensures
        updated_task(t, u, mapping, today).finished == changed(t.finished, u.is_completed),
        updated_task(t, u, mapping, today).finish_date == (if u.is_completed == Some(true)
            && !t.finished {
            Some(completion_day(u, today))
        } else if u.is_completed == Some(false) && t.finished {
            None
        } else {
            t.finish_date
        }),
{
    lemma_mapped_are_named(mapping);
    let a = due_updated(title_updated(t, u), u, today);
    let done = TaskView { finished: true, finish_date: Some(completion_day(u, today)), ..a };
    lemma_without_contexts(done, mapped_contexts(mapping));
    let b = completion_updated(a, u, mapping, today);
    lemma_without_contexts(b, mapped_contexts(mapping));
}

proof fn lemma_same_priority(v: Seq<(i32, TargetView)>, a: TaskView, b: TaskView)
    requires
        forall|i: int|
            0 <= i < v.len() ==> carries(a, (#[trigger] v[i]).1) == carries(b, v[i].1),
    ensures
        priority_of(v, a) == priority_of(v, b),
    decreases v.len(),
{
    if v.len() > 0 {
        assert(carries(a, v[0].1) == carries(b, v[0].1));
        assert forall|i: int| 0 <= i < v.skip(1).len() implies carries(
            a,
            (#[trigger] v.skip(1)[i]).1,
        ) == carries(b, v.skip(1)[i].1) by {
            assert(v.skip(1)[i] == v[i + 1]);
        }
        lemma_same_priority(v.skip(1), a, b);
    }
}

// ---------------------------------------------------------------------------
// Ordinary updates
// ---------------------------------------------------------------------------

/// Whether a text is a date as tasks and reminders write it.
pub open spec fn is_plain_date(s: Seq<char>) -> bool {
    is_tag_value(s) && exists|d: int| has_plain_year(d) && s == #[trigger] iso_text(d)
}

/// Whether the due date of a task and its `due:` tag say the same.
pub open spec fn has_plain_due(t: TaskView) -> bool {
    match t.due_date {
        Some(d) => t.tags.dom().contains("due"@) && t.tags["due"@] == iso_text(d)
            && is_tag_value(iso_text(d)),
        None => !t.tags.dom().contains("due"@),
    }
}

/// Whether changes complete or reopen a task as Reminders does: a task becomes
/// completed together with its date, and loses the date when it is reopened. A
/// task that stands in a context for its priority loses that on completion, and so
/// is not one of these.
pub open spec fn has_plain_completion(
    t: TaskView,
    u: ChangesView,
    mapping: Seq<(i32, TargetView)>,
) -> bool {
    match u.is_completed {
        None => u.completion_date is None,
        Some(true) => {
            &&& !t.finished
            &&& u.completion_date matches Some(Some(s)) && is_plain_date(s)
            &&& u.priority is None
            &&& forall|c: Seq<char>| #[trigger]
                t.contexts.contains(c) ==> !mapped_contexts(mapping).contains(c)
        },
        Some(false) => t.finished && u.completion_date == Some(None::<Seq<char>>),
    }
}

/// Whether changes are such as a reminder makes to an ordinary task: titles are
/// words without metadata and one space apart, dates are plain, a priority has a
/// target and comes with an open task.
pub open spec fn is_ordinary(
    t: TaskView,
    u: ChangesView,
    mapping: Seq<(i32, TargetView)>,
) -> bool {
    &&& has_distinct_targets(mapping)
    &&& has_clear_targets(mapping)
    &&& has_plain_due(t)
    &&& has_plain_completion(t, u, mapping)
    &&& u.title matches Some(title) ==> title == join(plain_words(title), " "@)
    &&& u.due_date matches Some(Some(d)) ==> is_plain_date(d)
    &&& u.priority matches Some(p) ==> (target_for(mapping, p) is Nothing ==> p == 0) && (
    !t.finished || u.is_completed == Some(false))
}

/// Ordinary changes show on the task that they are applied to. What the plain words
/// of its subject are, and which days the changes' dates stand for, is known.
pub proof fn ordinary_changes_show(
    t: TaskView,
    u: ChangesView,
    mapping: Seq<(i32, TargetView)>,
    today: int,
)
    requires
        is_ordinary(t, u, mapping),
        plain_words(updated_task(t, u, mapping, today).subject) == plain_words(
            title_updated(t, u).subject,
        ),
        u.completion_date matches Some(Some(s)) ==> reads_back(s, iso_day(s)),
        u.due_date matches Some(Some(d)) ==> (t.tags.dom().contains("due"@) && t.tags["due"@] == d)
            || reads_back(d, due_updated(title_updated(t, u), u, today).due_date),
    ensures
        shows(t, updated_task(t, u, mapping, today), u, mapping),
{
    let after = updated_task(t, u, mapping, today);
    let a = title_updated(t, u);
    let b = due_updated(a, u, today);
    let c = completion_updated(b, u, mapping, today);
    let cs = mapped_contexts(mapping);
    lemma_mapped_are_clear(mapping);
    completion_is_shown(t, u, mapping, today);
    let done = TaskView { finished: true, finish_date: Some(completion_day(u, today)), ..b };
    lemma_without_contexts(done, cs);
    lemma_without_contexts(c, cs);
    // Title.
    match u.title {
        Some(title) => {
            retitling_sets_title(t.subject, title);
            assert(title_of(after) == join(plain_words(after.subject), " "@));
        },
        None => {
            assert(title_of(after) == join(plain_words(after.subject), " "@));
            assert(title_of(t) == join(plain_words(t.subject), " "@));
        },
    }
    // Due date.
    assert(after.due_date == b.due_date);
    match u.due_date {
        Some(Some(d)) => {
            let x = choose|x: int| has_plain_year(x) && d == #[trigger] iso_text(x);
            if t.tags.dom().contains("due"@) && t.tags["due"@] == d {
                assert(b.due_date == t.due_date);
            } else {
                assert(b.due_date == Some(x));
            }
        },
        Some(None) => {
            assert(b.due_date is None);
        },
        None => {},
    }
    // Completion.
    if u.is_completed == Some(true) {
        let s = u.completion_date->0->0;
        let x = choose|x: int| has_plain_year(x) && s == #[trigger] iso_text(x);
        assert(iso_day(s) == Some(x));
    }
    // Priority.
    match u.priority {
        Some(p) => {
            priority_reads_back(c, u, p, mapping);
        },
        None => {
            assert(after == c);
            assert forall|i: int| 0 <= i < mapping.len() implies carries(
                after,
                (#[trigger] mapping[i]).1,
            ) == carries(t, mapping[i].1) by {
                lemma_mapped_contexts(mapping, i);
            }
            lemma_same_priority(mapping, after, t);
        },
    }
}

} // verus!
