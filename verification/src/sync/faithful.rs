//! What one side is given agrees with the other: nothing is lost on the way from a
//! task to a reminder or back, and nothing is touched that no change names.

use crate::dates::{iso_day, tag_day, utc_timestamp, Timestamp};
use crate::execute::{op_for, pushed_item, KindView};
use crate::reminder::ReminderView;
use crate::swift_cli::{CreateView, OpView};
use crate::sync::actions::ActionView;
use crate::sync::apply::first_with;
use crate::sync::check::lemma_first_with;
use crate::sync::config::{
    carries, mapped_contexts, mapped_priorities, priority_of, target_for, ConfigView,
    StickyTracking, TargetView, WritebackConfig,
};
use crate::sync::diff::{
    completion_updated, diff, due_updated, full_update, title_updated, updated_task, update_of,
    without_contexts, ChangesView,
};
use crate::sync::fields::{
    day_text, fields_hash, is_sentinel, line_hash, reminder_fields, task_fields, title_of,
};
use crate::sync::laws::{
    agree, agreement_is_quiet, completion_is_shown, has_named_targets, lemma_filtered,
    lemma_mapped_are_named, lemma_mapped_contexts, patched,
};
use crate::sync::plan::admits;
use crate::sync::release::{config_for, is_released};
use crate::sync::state::{FieldsView, ItemView};
use crate::task::{eid_of, line_of, TaskView};
use crate::undo::with_update;
use vstd::prelude::*;

verus! {

// ---------------------------------------------------------------------------
// Changes to a task
// ---------------------------------------------------------------------------

/// Whether a priority map has a target.
pub open spec fn has_target(mapping: Seq<(i32, TargetView)>, target: TargetView) -> bool {
    exists|i: int| 0 <= i < mapping.len() && (#[trigger] mapping[i]).1 == target
}

/// Only targets of a map are among the contexts and letters that it can put on a task.
proof fn lemma_mapped_only(v: Seq<(i32, TargetView)>)
    ensures
        forall|c: Seq<char>| #[trigger]
            mapped_contexts(v).contains(c) <==> has_target(v, TargetView::Context(c)),
        forall|p: u8| #[trigger]
            mapped_priorities(v).contains(p) <==> has_target(v, TargetView::Priority(p)),
    decreases v.len(),
{
    if v.len() > 0 {
        let front = v.drop_last();
        lemma_mapped_only(front);
        assert forall|c: Seq<char>| #[trigger]
            mapped_contexts(v).contains(c) implies has_target(v, TargetView::Context(c)) by {
            let k = mapped_contexts(v).index_of(c);
            if k < mapped_contexts(front).len() {
                assert(mapped_contexts(front)[k] == c);
                assert(mapped_contexts(front).contains(c));
                let i = choose|i: int|
                    0 <= i < front.len() && (#[trigger] front[i]).1 == TargetView::Context(c);
                assert(v[i].1 == TargetView::Context(c));
            } else {
                assert(v[v.len() - 1].1 == TargetView::Context(c));
            }
        }
        assert forall|p: u8| #[trigger]
            mapped_priorities(v).contains(p) implies has_target(v, TargetView::Priority(p)) by {
            let k = mapped_priorities(v).index_of(p);
            if k < mapped_priorities(front).len() {
                assert(mapped_priorities(front)[k] == p);
                assert(mapped_priorities(front).contains(p));
                let i = choose|i: int|
                    0 <= i < front.len() && (#[trigger] front[i]).1 == TargetView::Priority(p);
                assert(v[i].1 == TargetView::Priority(p));
            } else {
                assert(v[v.len() - 1].1 == TargetView::Priority(p));
            }
        }
    }
    assert forall|c: Seq<char>| has_target(v, TargetView::Context(c)) implies #[trigger]
        mapped_contexts(v).contains(c) by {
        let i = choose|i: int| 0 <= i < v.len() && (#[trigger] v[i]).1 == TargetView::Context(c);
        lemma_mapped_contexts(v, i);
    }
    assert forall|p: u8| has_target(v, TargetView::Priority(p)) implies #[trigger]
        mapped_priorities(v).contains(p) by {
        let i = choose|i: int| 0 <= i < v.len() && (#[trigger] v[i]).1 == TargetView::Priority(p);
        lemma_mapped_contexts(v, i);
    }
}

pub(crate) proof fn lemma_kept(s: Seq<Seq<char>>, keep: spec_fn(Seq<char>) -> bool, c: Seq<char>)
    requires
        s.contains(c),
        keep(c),
    ensures
        s.filter(keep).contains(c),
    decreases s.len(),
{
    reveal(Seq::filter);
    let front = s.drop_last();
    let k = s.index_of(c);
    if k < front.len() {
        assert(front[k] == c);
        lemma_kept(front, keep, c);
        let j = front.filter(keep).index_of(c);
        assert(s.filter(keep)[j] == c);
    } else {
        assert(s.filter(keep).last() == c);
        assert(s.filter(keep)[s.filter(keep).len() - 1] == c);
    }
}

/// Taking contexts away touches nothing but these contexts.
proof fn lemma_contexts_taken(t: TaskView, cs: Seq<Seq<char>>)
    requires
        forall|k: int| 0 <= k < cs.len() ==> (#[trigger] cs[k]).len() > 0 && cs[k][0] != '@',
    ensures
        without_contexts(t, cs) == (TaskView {
            subject: without_contexts(t, cs).subject,
            contexts: without_contexts(t, cs).contexts,
            ..t
        }),
        forall|c: Seq<char>| #[trigger]
            without_contexts(t, cs).contexts.contains(c) <==> t.contexts.contains(c)
                && !cs.contains(c),
    decreases cs.len(),
{
    if cs.len() > 0 {
        let front = cs.drop_last();
        assert forall|k: int| 0 <= k < front.len() implies (#[trigger] front[k]).len() > 0
            && front[k][0] != '@' by {
            assert(front[k] == cs[k]);
        }
        lemma_contexts_taken(t, front);
        let mid = without_contexts(t, front);
        let gone = cs.last();
        assert(cs[cs.len() - 1] == gone);
        let keep = |c: Seq<char>| c != gone;
        assert(without_contexts(t, cs).contexts == mid.contexts.filter(keep));
        assert forall|c: Seq<char>| #[trigger]
            without_contexts(t, cs).contexts.contains(c) <==> t.contexts.contains(c)
                && !cs.contains(c) by {
            if without_contexts(t, cs).contexts.contains(c) {
                lemma_filtered(mid.contexts, keep, c);
                assert(mid.contexts.contains(c));
                if cs.contains(c) {
                    let j = cs.index_of(c);
                    assert(front[j] == c);
                }
            }
            if t.contexts.contains(c) && !cs.contains(c) {
                if front.contains(c) {
                    let j = front.index_of(c);
                    assert(cs[j] == c);
                }
                assert(mid.contexts.contains(c));
                assert(c != gone);
                lemma_kept(mid.contexts, keep, c);
            }
        }
    }
}

/// Changes leave alone what they do not name. Projects, hashtags, dates that are not
/// synced, the recurrence and every tag but `due:` stay, and so does the letter, unless
/// the new priority is a letter itself or the map has the old one as a target. Contexts
/// outside the map stay. Without a new due date the tags and the due date stay, without
/// a word on completion the completion does, and without a priority or a completion the
/// contexts do. A finished task that is not reopened keeps them in any case.
pub proof fn changes_keep_the_rest(
    t: TaskView,
    u: ChangesView,
    mapping: Seq<(i32, TargetView)>,
    today: int,
)
    requires
        has_named_targets(mapping),
    ensures
        ({
            let a = updated_task(t, u, mapping, today);
            &&& a.projects == t.projects
            &&& a.hashtags == t.hashtags
            &&& a.create_date == t.create_date
            &&& a.threshold_date == t.threshold_date
            &&& a.recurrence == t.recurrence
            &&& forall|n: Seq<char>|
                n != "due"@ ==> (#[trigger] a.tags.dom().contains(n) <==> t.tags.dom().contains(n))
                    && (t.tags.dom().contains(n) ==> a.tags[n] == t.tags[n])
            &&& eid_of(a) == eid_of(t)
            &&& u.due_date is None ==> a.tags == t.tags && a.due_date == t.due_date
            &&& u.is_completed is None ==> a.finished == t.finished && a.finish_date
                == t.finish_date
            &&& u.priority is None ==> a.priority == t.priority
            &&& (u.priority matches Some(p) ==> !(target_for(mapping, p) is Priority))
                && !has_target(mapping, TargetView::Priority(t.priority)) ==> a.priority
                == t.priority
            &&& a.finished ==> a.priority == t.priority
            &&& forall|c: Seq<char>|
                !has_target(mapping, TargetView::Context(c)) ==> (#[trigger] a.contexts.contains(c)
                    <==> t.contexts.contains(c))
            &&& u.priority is None && (u.is_completed != Some(true) || t.finished) ==> a.contexts
                == t.contexts
            &&& t.finished && u.is_completed != Some(false) ==> a.contexts == t.contexts
                && a.priority == t.priority && a.finish_date == t.finish_date
            &&& u.title is None && u.due_date is None && u.priority is None && u.is_completed
                is None ==> a == t
        }),
{
    let a = updated_task(t, u, mapping, today);
    let b = due_updated(title_updated(t, u), u, today);
    let c = completion_updated(b, u, mapping, today);
    let cs = mapped_contexts(mapping);
    lemma_mapped_are_named(mapping);
    lemma_mapped_only(mapping);
    lemma_contexts_taken(
        TaskView {
            finished: true,
            finish_date: Some(crate::sync::diff::completion_day(u, today)),
            ..b
        },
        cs,
    );
    lemma_contexts_taken(c, cs);
    reveal_strlit("due");
    reveal_strlit("eid");
    assert("due"@[0] != "eid"@[0]);
    assert(a.tags == b.tags);
    assert forall|x: Seq<char>|
        !has_target(mapping, TargetView::Context(x)) implies (#[trigger] a.contexts.contains(x)
        <==> t.contexts.contains(x)) by {
        if let Some(p) = u.priority {
            if !c.finished {
                let bare = without_contexts(c, cs);
                let target = target_for(mapping, p);
                if let TargetView::Context(y) = target {
                    let k = crate::sync::laws::lemma_target_for(mapping, p);
                    assert(mapping[k].1 == TargetView::Context(y));
                    assert(x != y);
                    assert(bare.contexts.contains(x) == c.contexts.contains(x));
                    if bare.contexts.contains(x) {
                        let j = bare.contexts.index_of(x);
                        assert(bare.contexts.push(y)[j] == x);
                    }
                    if bare.contexts.push(y).contains(x) {
                        let j = bare.contexts.push(y).index_of(x);
                        assert(bare.contexts[j] == x);
                    }
                }
            }
        }
    }
}

/// A task that is completed is so on the day that the changes name, or today where they
/// name none that can be read; a task that is reopened has no such day.
pub proof fn completion_has_its_day(
    t: TaskView,
    u: ChangesView,
    mapping: Seq<(i32, TargetView)>,
    today: int,
    s: Seq<char>,
)
    requires
        has_named_targets(mapping),
    ensures
        ({
            let a = updated_task(t, u, mapping, today);
            &&& u.is_completed == Some(true) && !t.finished ==> {
                &&& u.completion_date is None ==> a.finish_date == Some(today)
                &&& u.completion_date == Some(None::<Seq<char>>) ==> a.finish_date == Some(today)
                &&& u.completion_date == Some(Some(s)) && iso_day(s) is None ==> a.finish_date
                    == Some(today)
                &&& u.completion_date == Some(Some(s)) && iso_day(s) is Some ==> a.finish_date
                    == iso_day(s)
            }
            &&& u.is_completed == Some(false) && t.finished ==> a.finish_date is None
        }),
{
    completion_is_shown(t, u, mapping, today);
}

/// A new due date goes to the `due:` tag, and no due date takes the tag away.
pub proof fn due_tag_follows(
    t: TaskView,
    u: ChangesView,
    mapping: Seq<(i32, TargetView)>,
    today: int,
    d: Seq<char>,
)
    requires
        has_named_targets(mapping),
        d.len() > 0,
        !(d.len() >= 2 && d[0] == '/' && d[1] == '/'),
    ensures
        ({
            let a = updated_task(t, u, mapping, today);
            &&& u.due_date == Some(Some(d)) ==> a.tags.dom().contains("due"@) && a.tags["due"@] == d
            &&& u.due_date == Some(Some(d)) && t.tags.dom().contains("due"@) && t.tags["due"@] == d
                ==> a.due_date == t.due_date
            &&& u.due_date == Some(Some(d)) && !(t.tags.dom().contains("due"@) && t.tags["due"@]
                == d) ==> a.due_date == tag_day(d, today)
            &&& u.due_date == Some(None::<Seq<char>>) ==> !a.tags.dom().contains("due"@) && (
            t.tags.dom().contains("due"@) ==> a.due_date is None)
        }),
{
    let b = due_updated(title_updated(t, u), u, today);
    let c = completion_updated(b, u, mapping, today);
    let cs = mapped_contexts(mapping);
    lemma_mapped_are_named(mapping);
    lemma_contexts_taken(
        TaskView {
            finished: true,
            finish_date: Some(crate::sync::diff::completion_day(u, today)),
            ..b
        },
        cs,
    );
    lemma_contexts_taken(c, cs);
    let a = updated_task(t, u, mapping, today);
    assert(a.tags == b.tags);
    assert(a.due_date == b.due_date);
}

/// A new priority takes the place of every other one of the map: the task carries its
/// target and no other. A completed task loses the contexts that stand for priorities.
pub proof fn new_priority_is_the_only_one(
    t: TaskView,
    u: ChangesView,
    p: i32,
    mapping: Seq<(i32, TargetView)>,
    today: int,
)
    requires
        has_named_targets(mapping),
    ensures
        ({
            let a = updated_task(t, u, mapping, today);
            &&& u.priority == Some(p) && !a.finished ==> forall|i: int|
                0 <= i < mapping.len() && !((#[trigger] mapping[i]).1 is Nothing) ==> (carries(
                    a,
                    mapping[i].1,
                ) <==> mapping[i].1 == target_for(mapping, p))
            &&& u.is_completed == Some(true) && !t.finished ==> forall|c: Seq<char>|
                has_target(mapping, TargetView::Context(c)) ==> !(
                #[trigger] a.contexts.contains(c))
        }),
{
    let a = updated_task(t, u, mapping, today);
    let b = due_updated(title_updated(t, u), u, today);
    let c = completion_updated(b, u, mapping, today);
    let cs = mapped_contexts(mapping);
    lemma_mapped_are_named(mapping);
    lemma_mapped_only(mapping);
    lemma_contexts_taken(
        TaskView {
            finished: true,
            finish_date: Some(crate::sync::diff::completion_day(u, today)),
            ..b
        },
        cs,
    );
    lemma_contexts_taken(c, cs);
    if u.priority == Some(p) && !a.finished {
        let bare = without_contexts(c, cs);
        let target = target_for(mapping, p);
        assert forall|i: int|
            0 <= i < mapping.len() && !((#[trigger] mapping[i]).1 is Nothing) implies (carries(
            a,
            mapping[i].1,
        ) <==> mapping[i].1 == target) by {
            assert(has_target(mapping, mapping[i].1));
            assert(crate::sync::laws::is_named_target(mapping[i].1));
            match target {
                TargetView::Context(y) => {
                    let k = crate::sync::laws::lemma_target_for(mapping, p);
                    assert(has_target(mapping, mapping[k].1));
                    assert(!bare.contexts.contains(y));
                    assert(a.contexts == bare.contexts.push(y));
                    assert(a.contexts[bare.contexts.len() as int] == y);
                    if let TargetView::Context(x) = mapping[i].1 {
                        assert(!bare.contexts.contains(x));
                        if a.contexts.contains(x) {
                            let j = a.contexts.index_of(x);
                            if j < bare.contexts.len() {
                                assert(bare.contexts[j] == x);
                            }
                        }
                    }
                },
                _ => {
                    if let TargetView::Context(x) = mapping[i].1 {
                        assert(!bare.contexts.contains(x));
                    }
                },
            }
        }
    }
}

// ---------------------------------------------------------------------------
// Tasks that become reminders
// ---------------------------------------------------------------------------

/// The reminder that comes of what the helper is asked to create.
pub open spec fn as_reminder(c: CreateView, r: ReminderView) -> ReminderView {
    ReminderView {
        title: c.title,
        due_date: c.due_date,
        priority: c.priority,
        is_completed: c.is_completed,
        completion_date: c.completion_date,
        notes: c.notes,
        list: c.list_name,
        ..r
    }
}

/// Whether fields are what a reminder says.
pub open spec fn are_fields_of(f: FieldsView, r: ReminderView) -> bool {
    &&& f.title == r.title
    &&& f.priority == r.priority
    &&& f.is_completed == r.is_completed
    &&& f.completion_date == r.completion_date
    &&& f.due_date == r.due_date
    &&& f.notes == r.notes
    &&& f.list == r.list
}

/// The synced fields of a reminder are all that it says.
pub proof fn fields_say_what_reminder_says(r: ReminderView, f: FieldsView)
    ensures
        are_fields_of(f, r) <==> f == reminder_fields(r),
{
}

/// A task is pushed as it is: the reminder that the helper is asked to create, in the
/// list that takes the task, agrees with the task in every synced field, so that a
/// comparison right after asks for nothing. It has no notes, and the answer is looked
/// for under the line of the task.
pub proof fn pushed_reminder_agrees(
    t: TaskView,
    c: ConfigView,
    list: Seq<char>,
    r: ReminderView,
    base: FieldsView,
    file: Option<Timestamp>,
    tolerance: u64,
)
    ensures
        op_for(ActionView::CreateReminder { task: t, target_list: list }, c) matches Some((op, kind))
            && {
            &&& op matches OpView::CreateReminder(asked) && {
                let made = as_reminder(asked, r);
                &&& agree(made, t, c.mapping)
                &&& made.list == list
                &&& made.notes is None
                &&& are_fields_of(task_fields(t, c.mapping, None, list), made)
                &&& diff(made, t, base, file, c.mapping, tolerance, c.writeback).0.is_nothing()
                &&& diff(made, t, base, file, c.mapping, tolerance, c.writeback).1.is_nothing()
            }
            &&& kind == KindView::Create { original_task_line: line_of(t), target_list: list }
        },
{
    let (op, _) = op_for(ActionView::CreateReminder { task: t, target_list: list }, c)->0;
    if let OpView::CreateReminder(asked) = op {
        agreement_is_quiet(
            as_reminder(asked, r),
            t,
            base,
            file,
            c.mapping,
            tolerance,
            c.writeback,
        );
    }
}

/// What is remembered of a pushed task is what the task says: the pair's fields are
/// those of a reminder that agrees with the task, with the hashes of both sides. A next
/// run that finds both sides so asks for nothing.
pub proof fn pushed_pair_is_in_step(
    eid: Seq<char>,
    t: TaskView,
    r: ReminderView,
    mapping: Seq<(i32, TargetView)>,
    list: Seq<char>,
    now: Timestamp,
    pushed: bool,
    file: Option<Timestamp>,
    tolerance: u64,
    wb: WritebackConfig,
)
    requires
        agree(r, t, mapping),
        r.notes is None,
        r.list == list,
    ensures
        ({
            let item = pushed_item(eid, t, mapping, list, now, pushed);
            &&& item.eid == eid
            &&& are_fields_of(item.fields, r)
            &&& item.reminders_field_hash == fields_hash(item.fields)
            &&& item.task_line_hash == line_hash(t)
            &&& item.pushed == pushed
            &&& item.last_synced == now
        }),
{
}

/// The update that brings a lost reminder back makes every reminder agree with the task,
/// whatever it was before; and so does the reminder that is created from it. It is one
/// of the list that the task belongs to.
pub proof fn resurrected_reminder_agrees(
    eid: Seq<char>,
    t: TaskView,
    c: ConfigView,
    list: Seq<char>,
    r: ReminderView,
)
    ensures
        ({
            let u = full_update(eid, t, c.mapping, c.reminders_list);
            &&& agree(with_update(r, u), t, c.mapping)
            &&& with_update(r, u).notes == r.notes
            &&& u.eid == eid
            &&& u.list_name == c.reminders_list
            &&& op_for(
                ActionView::ResurrectReminder { eid, reminder_update: u, target_list: list },
                c,
            ) matches Some((op, kind)) && {
                &&& op matches OpView::CreateReminder(asked) && {
                    &&& agree(as_reminder(asked, r), t, c.mapping)
                    &&& as_reminder(asked, r).list == list
                    &&& as_reminder(asked, r).notes is None
                }
                &&& kind == KindView::Resurrect { old_eid: eid, target_list: list }
            }
        }),
{
}

/// An update of a reminder sets what the changes name, and nothing else: the reminder
/// ends up as the comparison wants it. Its notes stay.
pub proof fn update_carries_the_changes(
    eid: Seq<char>,
    u: ChangesView,
    c: ConfigView,
    r: ReminderView,
)
    ensures
        ({
            let update = update_of(eid, u, None, c.reminders_list);
            &&& with_update(r, update) == patched(r, u)
            &&& op_for(ActionView::UpdateReminder { eid, updated_reminder: update }, c) == Some(
                (OpView::UpdateReminder(update), KindView::Update { eid }),
            )
            &&& update.eid == eid
            &&& update.list_name == c.reminders_list
        }),
{
    assert(with_update(r, update_of(eid, u, None, c.reminders_list)) =~= patched(r, u));
}

// ---------------------------------------------------------------------------
// Comparing
// ---------------------------------------------------------------------------

/// Whether a field is settled: sides that agree stay, the value of the only side that
/// has changed goes over to the other, and of two changed sides the newer one wins. A
/// value that may not be written back to the task gives way to that of the task.
pub open spec fn is_settled<X>(
    r: X,
    t: X,
    base: X,
    may_write: bool,
    task_newer: bool,
    for_task: Option<X>,
    for_reminder: Option<X>,
) -> bool {
    &&& r == t ==> for_task is None && for_reminder is None
    &&& r == base && t != base ==> for_task is None && for_reminder == Some(t)
    &&& r != base && t == base && may_write ==> for_task == Some(r) && for_reminder is None
    &&& r != base && r != t && !may_write ==> for_task is None && for_reminder == Some(t)
    &&& r != base && t != base && r != t && may_write && task_newer ==> for_task is None
        && for_reminder == Some(t)
    &&& r != base && t != base && r != t && may_write && !task_newer ==> for_task == Some(r)
        && for_reminder is None
}

/// Whether the file was modified later than a reminder by more than a number of seconds,
/// counted in nanoseconds; or the reminder does not say when it was.
pub open spec fn is_file_newer(
    file: Option<Timestamp>,
    modified: Option<Timestamp>,
    secs: int,
) -> bool {
    match (file, modified) {
        (Some(f), Some(m)) => f.secs * 1_000_000_000 + f.nanos > (m.secs + secs) * 1_000_000_000
            + m.nanos,
        (Some(_), None) => true,
        (None, _) => false,
    }
}

/// When a reminder was last modified: the time that its text gives, where it has one.
pub open spec fn written_time(r: ReminderView) -> Option<Timestamp> {
    match r.last_modified_date {
        Some(s) => utc_timestamp(s),
        None => None,
    }
}

/// Every field is settled on its own, under its own leave to be written back; the two
/// fields of the completion share one.
pub proof fn each_field_is_settled(
    r: ReminderView,
    t: TaskView,
    base: FieldsView,
    file: Option<Timestamp>,
    mapping: Seq<(i32, TargetView)>,
    tolerance: u64,
    wb: WritebackConfig,
)
    requires
        tolerance <= i64::MAX,
        file matches Some(f) ==> f.nanos < 1_000_000_000,
        written_time(r) matches Some(m) ==> m.nanos < 1_000_000_000,
    ensures
        ({
            let (a, b) = diff(r, t, base, file, mapping, tolerance, wb);
            let newer = is_file_newer(file, written_time(r), tolerance as int);
            &&& is_settled(r.title, title_of(t), base.title, wb.title, newer, a.title, b.title)
            &&& is_settled(
                r.due_date,
                day_text(t.due_date),
                base.due_date,
                wb.due_date,
                newer,
                a.due_date,
                b.due_date,
            )
            &&& is_settled(
                r.priority,
                priority_of(mapping, t),
                base.priority,
                wb.priority,
                newer,
                a.priority,
                b.priority,
            )
            &&& is_settled(
                r.is_completed,
                t.finished,
                base.is_completed,
                wb.is_completed,
                newer,
                a.is_completed,
                b.is_completed,
            )
            &&& is_settled(
                r.completion_date,
                day_text(t.finish_date),
                base.completion_date,
                wb.is_completed,
                newer,
                a.completion_date,
                b.completion_date,
            )
        }),
{
}

// ---------------------------------------------------------------------------
// Letting go
// ---------------------------------------------------------------------------

/// A list without a push filter takes the tasks with its context, and every task where
/// it has none. A push filter alone decides where there is one.
pub proof fn list_takes_by_filter_or_context(c: ConfigView, t: TaskView, today: int)
    ensures
        c.push_filter is None && c.auto_context is None ==> admits(c, t, today),
        c.push_filter is None ==> (c.auto_context matches Some(ctx) ==> (admits(c, t, today)
            <==> t.contexts.contains(ctx))),
        c.push_filter matches Some(text) ==> (admits(c, t, today) <==> crate::filter::rules_admit(
            crate::filter::filter_rules(text),
            t,
            today,
        )),
{
}

proof fn lemma_config_at(cs: Seq<ConfigView>, list: Seq<char>, j: int)
    requires
        0 <= j < cs.len(),
        cs[j].reminders_list == list,
        forall|k: int| 0 <= k < j ==> (#[trigger] cs[k]).reminders_list != list,
    ensures
        config_for(cs, list) == Some(cs[j]),
    decreases cs.len(),
{
    if j > 0 {
        assert(cs[0].reminders_list != list);
        assert(cs.skip(1)[j - 1] == cs[j]);
        assert forall|k: int| 0 <= k < j - 1 implies (#[trigger] cs.skip(1)[k]).reminders_list
            != list by {
            assert(cs.skip(1)[k] == cs[k + 1]);
        }
        lemma_config_at(cs.skip(1), list, j - 1);
    }
}

pub(crate) proof fn lemma_first_at(ts: Seq<TaskView>, eid: Seq<char>, i: int)
    requires
        0 <= i < ts.len(),
        eid_of(ts[i]) == Some(eid),
        forall|k: int| 0 <= k < i ==> eid_of(#[trigger] ts[k]) != Some(eid),
    ensures
        first_with(ts, eid) == i,
{
    lemma_first_with(ts, eid);
    let f = first_with(ts, eid) as int;
    if f < i {
        assert(eid_of(ts[f]) != Some(eid));
    }
    if i < f {
        assert(eid_of(ts[i]) != Some(eid));
    }
}

/// A pair is released as soon as it has to be: its task, edited since the last run, is
/// not taken any more by the list that the pair belongs to, by the push filter or, where
/// there is none, by the context, and the list goes by edits. A task that opts out is
/// not one of these.
pub proof fn edited_out_task_is_released(
    ts: Seq<TaskView>,
    cs: Seq<ConfigView>,
    eid: Seq<char>,
    item: ItemView,
    today: int,
    i: int,
    j: int,
)
    requires
        0 <= i < ts.len(),
        eid_of(ts[i]) == Some(eid),
        forall|k: int| 0 <= k < i ==> eid_of(#[trigger] ts[k]) != Some(eid),
        0 <= j < cs.len(),
        cs[j].reminders_list == item.fields.list,
        forall|k: int| 0 <= k < j ==> (#[trigger] cs[k]).reminders_list != item.fields.list,
    ensures
        is_released(ts, cs, eid, item, today) <==> {
            &&& cs[j].sticky_tracking == StickyTracking::Triage
            &&& !is_sentinel(eid)
            &&& line_hash(ts[i]) != item.task_line_hash
            &&& match cs[j].push_filter {
                Some(text) => !crate::filter::rules_admit(
                    crate::filter::filter_rules(text),
                    ts[i],
                    today,
                ),
                None => cs[j].auto_context matches Some(ctx) && !ts[i].contexts.contains(ctx),
            }
        },
{
    lemma_config_at(cs, item.fields.list, j);
    lemma_first_at(ts, eid, i);
}

/// A pair without a task, or of a list that is not configured, is never released.
pub proof fn nothing_else_is_released(
    ts: Seq<TaskView>,
    cs: Seq<ConfigView>,
    eid: Seq<char>,
    item: ItemView,
    today: int,
)
    requires
        (forall|k: int| 0 <= k < ts.len() ==> eid_of(#[trigger] ts[k]) != Some(eid)) || (forall|
            k: int,
        |
            0 <= k < cs.len() ==> (#[trigger] cs[k]).reminders_list != item.fields.list),
    ensures
        !is_released(ts, cs, eid, item, today),
{
    lemma_first_with(ts, eid);
    lemma_config_missing(cs, item.fields.list);
}

proof fn lemma_config_missing(cs: Seq<ConfigView>, list: Seq<char>)
    ensures
        config_for(cs, list) matches Some(c) ==> c.reminders_list == list && cs.contains(c),
    decreases cs.len(),
{
    if cs.len() > 0 {
        if cs[0].reminders_list == list {
            assert(cs.contains(cs[0]));
        } else {
            lemma_config_missing(cs.skip(1), list);
            if let Some(c) = config_for(cs.skip(1), list) {
                let k = cs.skip(1).index_of(c);
                assert(cs[k + 1] == c);
            }
        }
    }
}

} // verus!
