//! Comparing a reminder and a task with what they last agreed on, and carrying
//! the changes of one side over to the other.

use crate::dates::{iso_day, reads_back, Date, Timestamp};
use crate::reminder::{Reminder, ReminderView};
use crate::sync::actions::{ReminderUpdate, UpdateView};
use crate::sync::config::{
    mapped_contexts, mapped_priorities, priority_of, target_for, ListSyncConfig, MappingTarget,
    PriorityMap, TargetView, WritebackConfig,
};
use crate::sync::fields::{
    day_text, extract_title, modified_at, parse_reminder_modified, task_completion_date,
    task_due_date, task_priority, title_of,
};
use crate::sync::laws::{
    has_clear_targets, is_ordinary, lemma_mapped_are_clear, lemma_target_is_clear,
    ordinary_changes_show, shows,
};
use crate::sync::state::{FieldsView, SyncedFieldState};
use crate::task::{
    is_meta, is_meta_word, is_tag_value, one_word, plain_words, with_context, with_due,
    without_context, Task, TaskView,
    NO_PRIORITY,
};
use crate::text::{
    all_words, copy_opt, copy_opt_opt, join, join_texts, lemma_all_words, lemma_all_words_add,
    lemma_words_clean, lemma_words_join, lemma_words_single, opt_opt_text, opt_text, same_opt,
    split_words, texts, words,
};
use vstd::prelude::*;

verus! {

// ---------------------------------------------------------------------------
// Updates
// ---------------------------------------------------------------------------

/// Changes to the fields of a task. `Some(None)` removes a date.
#[derive(Debug)]
pub struct TaskFieldUpdates {
    pub title: Option<String>,
    pub due_date: Option<Option<String>>,
    pub priority: Option<i32>,
    pub is_completed: Option<bool>,
    pub completion_date: Option<Option<String>>,
}

/// Changes to the fields of a reminder. `Some(None)` removes a date or the notes.
#[derive(Debug)]
pub struct ReminderFieldUpdates {
    pub title: Option<String>,
    pub due_date: Option<Option<String>>,
    pub notes: Option<Option<String>>,
    pub priority: Option<i32>,
    pub is_completed: Option<bool>,
    pub completion_date: Option<Option<String>>,
}

/// Changes to the five fields that both sides have.
#[verifier::ext_equal]
pub struct ChangesView {
    pub title: Option<Seq<char>>,
    pub due_date: Option<Option<Seq<char>>>,
    pub priority: Option<i32>,
    pub is_completed: Option<bool>,
    pub completion_date: Option<Option<Seq<char>>>,
}

impl ChangesView {
    /// Whether nothing changes.
    pub open spec fn is_nothing(self) -> bool {
        self.title is None && self.due_date is None && self.priority is None && self.is_completed
            is None && self.completion_date is None
    }
}

impl View for TaskFieldUpdates {
    type V = ChangesView;

    open spec fn view(&self) -> ChangesView {
        ChangesView {
            title: opt_text(self.title),
            due_date: opt_opt_text(self.due_date),
            priority: self.priority,
            is_completed: self.is_completed,
            completion_date: opt_opt_text(self.completion_date),
        }
    }
}

impl View for ReminderFieldUpdates {
    type V = ChangesView;

    open spec fn view(&self) -> ChangesView {
        ChangesView {
            title: opt_text(self.title),
            due_date: opt_opt_text(self.due_date),
            priority: self.priority,
            is_completed: self.is_completed,
            completion_date: opt_opt_text(self.completion_date),
        }
    }
}

impl TaskFieldUpdates {
    /// Whether nothing changes.
    pub fn is_empty(&self) -> (r: bool)
        ensures
            r == self@.is_nothing(),
    {
        self.title.is_none() && self.due_date.is_none() && self.priority.is_none()
            && self.is_completed.is_none() && self.completion_date.is_none()
    }
}

impl ReminderFieldUpdates {
    /// Whether nothing changes.
    pub fn is_empty(&self) -> (r: bool)
        ensures
            r == (self@.is_nothing() && self.notes is None),
    {
        self.title.is_none() && self.due_date.is_none() && self.notes.is_none()
            && self.priority.is_none() && self.is_completed.is_none()
            && self.completion_date.is_none()
    }
}

// ---------------------------------------------------------------------------
// Comparison
// ---------------------------------------------------------------------------

/// Which side of a pair takes over the other's value of a field.
#[derive(Clone, Copy, Debug, PartialEq, Eq, Structural)]
pub enum Side {
    Task,
    Reminder,
    Neither,
}

/// Which side takes over the other's value, given whether each side has changed,
/// whether they agree, whether the reminder may overwrite the task, and whether
/// the task is the newer side.
pub open spec fn side_to_update(
    r_changed: bool,
    t_changed: bool,
    agree: bool,
    writeback: bool,
    task_wins: bool,
) -> Side {
    if agree || (!r_changed && !t_changed) {
        Side::Neither
    } else if !r_changed {
        Side::Reminder
    } else if !writeback || (t_changed && task_wins) {
        Side::Reminder
    } else {
        Side::Task
    }
}

/// The changes of one field: the new value for the task and that for the
/// reminder.
pub open spec fn merged<X>(r: X, t: X, base: X, writeback: bool, task_wins: bool) -> (
    Option<X>,
    Option<X>,
) {
    match side_to_update(r != base, t != base, r == t, writeback, task_wins) {
        Side::Task => (Some(r), None),
        Side::Reminder => (None, Some(t)),
        Side::Neither => (None, None),
    }
}

/// Whether the task is the newer side: the file was modified later than the
/// reminder by more than the tolerance, or the reminder does not say when it was
/// modified.
pub open spec fn task_is_newer(
    file: Option<Timestamp>,
    reminder: Option<Timestamp>,
    tolerance_secs: u64,
) -> bool {
    match (file, reminder) {
        (Some(t), Some(r)) => t.is_later(r, (tolerance_secs as i64) as int),
        (Some(_), None) => true,
        _ => false,
    }
}

/// The changes that bring a reminder and its task together: those to the task and
/// those to the reminder.
pub open spec fn diff(
    r: ReminderView,
    t: TaskView,
    base: FieldsView,
    file: Option<Timestamp>,
    mapping: Seq<(i32, TargetView)>,
    tolerance_secs: u64,
    wb: WritebackConfig,
) -> (ChangesView, ChangesView) {
    let wins = task_is_newer(file, modified_at(r), tolerance_secs);
    let title = merged(r.title, title_of(t), base.title, wb.title, wins);
    let due = merged(r.due_date, day_text(t.due_date), base.due_date, wb.due_date, wins);
    let priority = merged(r.priority, priority_of(mapping, t), base.priority, wb.priority, wins);
    let done = merged(r.is_completed, t.finished, base.is_completed, wb.is_completed, wins);
    let day = merged(
        r.completion_date,
        day_text(t.finish_date),
        base.completion_date,
        wb.is_completed,
        wins,
    );
    (
        ChangesView {
            title: title.0,
            due_date: due.0,
            priority: priority.0,
            is_completed: done.0,
            completion_date: day.0,
        },
        ChangesView {
            title: title.1,
            due_date: due.1,
            priority: priority.1,
            is_completed: done.1,
            completion_date: day.1,
        },
    )
}

fn choose_side(
    r_changed: bool,
    t_changed: bool,
    agree: bool,
    writeback: bool,
    task_wins: bool,
) -> (s: Side)
    ensures
        s == side_to_update(r_changed, t_changed, agree, writeback, task_wins),
{
    if agree || (!r_changed && !t_changed) {
        Side::Neither
    } else if !r_changed {
        Side::Reminder
    } else if !writeback || (t_changed && task_wins) {
        Side::Reminder
    } else {
        Side::Task
    }
}

/// Merges one optional text.
fn merge_opt(r: &Option<String>, t: &Option<String>, base: &Option<String>, wb: bool, wins: bool)
    -> (m: (Option<Option<String>>, Option<Option<String>>))
    ensures
        (opt_opt_text(m.0), opt_opt_text(m.1)) == merged(
            opt_text(*r),
            opt_text(*t),
            opt_text(*base),
            wb,
            wins,
        ),
{
    match choose_side(!same_opt(r, base), !same_opt(t, base), same_opt(r, t), wb, wins) {
        Side::Task => (Some(copy_opt(r)), None),
        Side::Reminder => (None, Some(copy_opt(t))),
        Side::Neither => (None, None),
    }
}

/// Compares a reminder and its task with what they last agreed on, field by
/// field, and says what has to change on either side. Where only one side has
/// changed, the other takes its value over. Where both have, the newer one wins,
/// and the reminder on a tie. A field that the reminder may not overwrite is
/// always taken from the task.
pub fn three_way_diff(
    reminder: &Reminder,
    task: &Task,
    baseline: &SyncedFieldState,
    task_mtime: Option<Timestamp>,
    map: &PriorityMap,
    timestamp_tolerance_secs: u64,
    writeback: &WritebackConfig,
) -> (r: (TaskFieldUpdates, ReminderFieldUpdates))
    ensures
        (r.0@, r.1@) == diff(
            reminder@,
            task@,
            baseline@,
            task_mtime,
            map@,
            timestamp_tolerance_secs,
            *writeback,
        ),
        r.1.notes is None,
{
    let r_modified = parse_reminder_modified(reminder);
    let wins: bool = match (task_mtime, r_modified) {
        (Some(t), Some(r)) => t.later_than(&r, timestamp_tolerance_secs as i64),
        (Some(_), None) => true,
        _ => false,
    };

    let t_title = extract_title(task);
    let (title_t, title_r) = match choose_side(
        reminder.title != baseline.title,
        t_title != baseline.title,
        reminder.title == t_title,
        writeback.title,
        wins,
    ) {
        Side::Task => (Some(reminder.title.clone()), None),
        Side::Reminder => (None, Some(t_title)),
        Side::Neither => (None, None),
    };

    let t_due = task_due_date(task);
    let (due_t, due_r) = merge_opt(
        &reminder.due_date,
        &t_due,
        &baseline.due_date,
        writeback.due_date,
        wins,
    );

    let t_pri: i32 = task_priority(task, map);
    let (pri_t, pri_r): (Option<i32>, Option<i32>) = match choose_side(
        reminder.priority != baseline.priority,
        t_pri != baseline.priority,
        reminder.priority == t_pri,
        writeback.priority,
        wins,
    ) {
        Side::Task => (Some(reminder.priority), None),
        Side::Reminder => (None, Some(t_pri)),
        Side::Neither => (None, None),
    };

    let (done_t, done_r): (Option<bool>, Option<bool>) = match choose_side(
        reminder.is_completed != baseline.is_completed,
        task.finished != baseline.is_completed,
        reminder.is_completed == task.finished,
        writeback.is_completed,
        wins,
    ) {
        Side::Task => (Some(reminder.is_completed), None),
        Side::Reminder => (None, Some(task.finished)),
        Side::Neither => (None, None),
    };

    let t_day = task_completion_date(task);
    let (day_t, day_r) = merge_opt(
        &reminder.completion_date,
        &t_day,
        &baseline.completion_date,
        writeback.is_completed,
        wins,
    );

    (
        TaskFieldUpdates {
            title: title_t,
            due_date: due_t,
            priority: pri_t,
            is_completed: done_t,
            completion_date: day_t,
        },
        ReminderFieldUpdates {
            title: title_r,
            due_date: due_r,
            notes: None,
            priority: pri_r,
            is_completed: done_r,
            completion_date: day_r,
        },
    )
}

// ---------------------------------------------------------------------------
// Changing the task
// ---------------------------------------------------------------------------

/// The position of the first word that is not metadata, or the number of words.
pub open spec fn first_plain(ws: Seq<Seq<char>>) -> nat
    decreases ws.len(),
{
    if ws.len() == 0 || !is_meta(ws[0]) {
        0
    } else {
        1 + first_plain(ws.skip(1))
    }
}

/// The words of a subject with a new title: it takes the place of the first word
/// that is not metadata, and the other such words go. Without such a word it
/// comes first.
pub open spec fn retitled_words(ws: Seq<Seq<char>>, title: Seq<char>) -> Seq<Seq<char>> {
    let n = first_plain(ws) as int;
    if n < ws.len() {
        ws.take(n).push(title) + ws.skip(n + 1).filter(|w: Seq<char>| is_meta(w))
    } else {
        seq![title] + ws
    }
}

/// A subject with a new title.
pub open spec fn retitled(subject: Seq<char>, title: Seq<char>) -> Seq<char> {
    join(retitled_words(words(subject), title), " "@)
}

proof fn lemma_first_plain_is(ws: Seq<Seq<char>>, n: int)
    requires
        0 <= n <= ws.len(),
        forall|j: int| 0 <= j < n ==> is_meta(#[trigger] ws[j]),
        n < ws.len() ==> !is_meta(ws[n]),
    ensures
        first_plain(ws) == n,
    decreases ws.len(),
{
    if n > 0 {
        assert forall|j: int| 0 <= j < n - 1 implies is_meta(#[trigger] ws.skip(1)[j]) by {
            assert(ws.skip(1)[j] == ws[j + 1]);
        }
        if n < ws.len() {
            assert(ws.skip(1)[n - 1] == ws[n]);
        }
        lemma_first_plain_is(ws.skip(1), n - 1);
    }
}

proof fn lemma_sift_none(ws: Seq<Seq<char>>)
    requires
        forall|k: int| 0 <= k < ws.len() ==> is_meta(#[trigger] ws[k]),
    ensures
        ws.filter(|w: Seq<char>| !is_meta(w)) == Seq::<Seq<char>>::empty(),
    decreases ws.len(),
{
    reveal(Seq::filter);
    if ws.len() > 0 {
        assert forall|k: int| 0 <= k < ws.drop_last().len() implies is_meta(
            #[trigger] ws.drop_last()[k],
        ) by {
            assert(ws.drop_last()[k] == ws[k]);
        }
        lemma_sift_none(ws.drop_last());
        assert(is_meta(ws[ws.len() - 1]));
    }
}

proof fn lemma_first_plain(ws: Seq<Seq<char>>)
    ensures
        first_plain(ws) <= ws.len(),
        forall|k: int| 0 <= k < first_plain(ws) ==> is_meta(#[trigger] ws[k]),
        first_plain(ws) < ws.len() ==> !is_meta(ws[first_plain(ws) as int]),
    decreases ws.len(),
{
    if ws.len() > 0 && is_meta(ws[0]) {
        lemma_first_plain(ws.skip(1));
        assert forall|k: int| 0 <= k < first_plain(ws) implies is_meta(#[trigger] ws[k]) by {
            if k > 0 {
                assert(ws[k] == ws.skip(1)[k - 1]);
            }
        }
        if first_plain(ws) < ws.len() {
            assert(ws[first_plain(ws) as int] == ws.skip(1)[first_plain(ws.skip(1)) as int]);
        }
    }
}

/// The words of a list that are metadata.
pub open spec fn only_meta(ws: Seq<Seq<char>>) -> Seq<Seq<char>> {
    ws.filter(|w: Seq<char>| is_meta(w))
}

proof fn lemma_only_meta(ws: Seq<Seq<char>>)
    ensures
        only_meta(ws).filter(|w: Seq<char>| !is_meta(w)) == Seq::<Seq<char>>::empty(),
        forall|k: int| 0 <= k < only_meta(ws).len() ==> ws.contains(#[trigger] only_meta(ws)[k]),
    decreases ws.len(),
{
    reveal(Seq::filter);
    let keep = |w: Seq<char>| is_meta(w);
    let all = ws.filter(keep);
    assert forall|k: int| 0 <= k < all.len() implies is_meta(#[trigger] all[k]) by {
        ws.lemma_filter_pred(keep, k);
    }
    lemma_sift_none(all);
    if ws.len() > 0 {
        let front = ws.drop_last();
        lemma_only_meta(front);
        assert(only_meta(front) == front.filter(keep));
        assert forall|k: int| 0 <= k < all.len() implies ws.contains(#[trigger] all[k]) by {
            if k < front.filter(keep).len() {
                assert(front.contains(only_meta(front)[k]));
                assert(front.filter(keep)[k] == all[k]);
                let j = front.index_of(all[k]);
                assert(ws[j] == all[k]);
            } else {
                assert(ws[ws.len() - 1] == all[k]);
            }
        }
    }
}

proof fn lemma_all_meta(ws: Seq<Seq<char>>)
    requires
        forall|k: int| 0 <= k < ws.len() ==> is_meta(#[trigger] ws[k]),
    ensures
        only_meta(ws) == ws,
    decreases ws.len(),
{
    reveal(Seq::filter);
    if ws.len() > 0 {
        let front = ws.drop_last();
        assert forall|k: int| 0 <= k < front.len() implies is_meta(#[trigger] front[k]) by {
            assert(front[k] == ws[k]);
        }
        lemma_all_meta(front);
        assert(is_meta(ws[ws.len() - 1]));
        assert(front.push(ws.last()) =~= ws);
    } else {
        assert(only_meta(ws) =~= ws);
    }
}

proof fn lemma_no_meta(ws: Seq<Seq<char>>)
    requires
        ws.filter(|w: Seq<char>| !is_meta(w)) == ws,
    ensures
        only_meta(ws) == Seq::<Seq<char>>::empty(),
{
    let plain = |w: Seq<char>| !is_meta(w);
    assert forall|k: int| 0 <= k < ws.len() implies !is_meta(#[trigger] ws[k]) by {
        ws.lemma_filter_pred(plain, k);
    }
    lemma_no_meta_in(ws);
}

proof fn lemma_no_meta_in(ws: Seq<Seq<char>>)
    requires
        forall|k: int| 0 <= k < ws.len() ==> !is_meta(#[trigger] ws[k]),
    ensures
        only_meta(ws) == Seq::<Seq<char>>::empty(),
    decreases ws.len(),
{
    reveal(Seq::filter);
    if ws.len() > 0 {
        let front = ws.drop_last();
        assert forall|k: int| 0 <= k < front.len() implies !is_meta(#[trigger] front[k]) by {
            assert(front[k] == ws[k]);
        }
        lemma_no_meta_in(front);
        assert(!is_meta(ws[ws.len() - 1]));
    }
}

proof fn lemma_retitled_words(subject: Seq<char>, title: Seq<char>)
    ensures
        ({
            let ws = words(subject);
            let n = first_plain(ws) as int;
            words(retitled(subject, title)) == (if n < ws.len() {
                ws.take(n) + words(title) + only_meta(ws.skip(n + 1))
            } else {
                words(title) + ws
            })
        }),
{
    let ws = words(subject);
    let n = first_plain(ws) as int;
    lemma_first_plain(ws);
    assert forall|k: int| 0 <= k < ws.len() implies words(#[trigger] ws[k]) == seq![ws[k]] by {
        lemma_words_clean(subject, k);
        lemma_words_single(ws[k]);
    }
    lemma_words_join(retitled_words(ws, title));
    assert(seq![title].drop_last() =~= Seq::<Seq<char>>::empty());
    assert(all_words(seq![title].drop_last()) =~= Seq::<Seq<char>>::empty());
    assert(all_words(seq![title]) =~= words(title));
    if n < ws.len() {
        let head = ws.take(n);
        let rest = ws.skip(n + 1);
        let tail = only_meta(rest);
        lemma_only_meta(rest);
        assert forall|k: int| 0 <= k < head.len() implies words(#[trigger] head[k]) == seq![
            head[k],
        ] by {
            assert(head[k] == ws[k]);
        }
        assert forall|k: int| 0 <= k < tail.len() implies words(#[trigger] tail[k]) == seq![
            tail[k],
        ] by {
            let j = rest.index_of(tail[k]);
            assert(ws[n + 1 + j] == tail[k]);
        }
        lemma_all_words(head);
        lemma_all_words(tail);
        assert(head.push(title) =~= head + seq![title]);
        lemma_all_words_add(head + seq![title], tail);
        lemma_all_words_add(head, seq![title]);
    } else {
        lemma_all_words(ws);
        lemma_all_words_add(seq![title], ws);
    }
}

proof fn lemma_meta_add(a: Seq<Seq<char>>, b: Seq<Seq<char>>, c: Seq<Seq<char>>)
    ensures
        only_meta(a + b + c) == only_meta(a) + only_meta(b) + only_meta(c),
{
    let meta = |w: Seq<char>| is_meta(w);
    Seq::filter_distributes_over_add(a + b, c, meta);
    Seq::filter_distributes_over_add(a, b, meta);
}

proof fn lemma_meta_twice(ws: Seq<Seq<char>>)
    ensures
        only_meta(only_meta(ws)) == only_meta(ws),
{
    let meta = |w: Seq<char>| is_meta(w);
    let some = only_meta(ws);
    assert forall|k: int| 0 <= k < some.len() implies is_meta(#[trigger] some[k]) by {
        ws.lemma_filter_pred(meta, k);
    }
    lemma_all_meta(some);
}

proof fn lemma_meta_swap(head: Seq<Seq<char>>, new: Seq<Seq<char>>, x: Seq<char>, rest: Seq<Seq<char>>)
    requires
        !is_meta(x),
        only_meta(new).len() == 0,
    ensures
        only_meta(head + new + only_meta(rest)) == only_meta(head + seq![x] + rest),
{
    lemma_meta_twice(rest);
    lemma_no_meta_in(seq![x]);
    lemma_meta_add(head, new, only_meta(rest));
    lemma_meta_add(head, seq![x], rest);
    assert(only_meta(new) =~= only_meta(seq![x]));
}

/// A new title of plain words leaves the metadata of a subject alone: contexts, projects
/// and tags stay, in their order.
pub proof fn retitling_keeps_metadata(subject: Seq<char>, title: Seq<char>)
    requires
        plain_words(title) == words(title),
    ensures
        only_meta(words(retitled(subject, title))) == only_meta(words(subject)),
{
    let ws = words(subject);
    let n = first_plain(ws) as int;
    let new = words(title);
    assert(only_meta(new).len() == 0) by {
        lemma_no_meta(new);
    }
    lemma_retitled_words(subject, title);
    if n < ws.len() {
        assert(!is_meta(ws[n])) by {
            lemma_first_plain(ws);
        }
        lemma_meta_swap(ws.take(n), new, ws[n], ws.skip(n + 1));
        assert(ws =~= ws.take(n) + seq![ws[n]] + ws.skip(n + 1));
    } else {
        let meta = |w: Seq<char>| is_meta(w);
        Seq::filter_distributes_over_add(new, ws, meta);
        assert(only_meta(new) + only_meta(ws) =~= only_meta(ws));
    }
}

/// A new title takes the place of the first word that is no metadata: what stands before
/// that word stays before the title, and of what stands behind it the metadata stays. A
/// subject of metadata alone gets the title before it.
pub proof fn title_takes_first_place(subject: Seq<char>, title: Seq<char>, n: int)
    requires
        0 <= n <= words(subject).len(),
        forall|k: int| 0 <= k < n ==> is_meta(#[trigger] words(subject)[k]),
        n < words(subject).len() ==> !is_meta(words(subject)[n]),
    ensures
        n < words(subject).len() ==> words(retitled(subject, title)) == words(subject).take(n)
            + words(title) + words(subject).skip(n + 1).filter(|w: Seq<char>| is_meta(w)),
        n == words(subject).len() ==> words(retitled(subject, title)) == words(title) + words(
            subject,
        ),
{
    lemma_first_plain_is(words(subject), n);
    lemma_retitled_words(subject, title);
}

/// The plain words of a subject with a new title are those of the title.
pub proof fn retitling_sets_title(subject: Seq<char>, title: Seq<char>)
    ensures
        plain_words(retitled(subject, title)) == plain_words(title),
{
    let ws = words(subject);
    let n = first_plain(ws) as int;
    let keep = |w: Seq<char>| !is_meta(w);
    lemma_first_plain(ws);
    assert forall|k: int| 0 <= k < ws.len() implies words(#[trigger] ws[k]) == seq![ws[k]] by {
        lemma_words_clean(subject, k);
        lemma_words_single(ws[k]);
    }
    lemma_words_join(retitled_words(ws, title));
    if n < ws.len() {
        let head = ws.take(n);
        let tail = only_meta(ws.skip(n + 1));
        lemma_only_meta(ws.skip(n + 1));
        assert forall|k: int| 0 <= k < head.len() implies words(#[trigger] head[k]) == seq![
            head[k],
        ] by {
            assert(head[k] == ws[k]);
        }
        assert forall|k: int| 0 <= k < tail.len() implies words(#[trigger] tail[k]) == seq![
            tail[k],
        ] by {
            let j = ws.skip(n + 1).index_of(tail[k]);
            assert(ws[n + 1 + j] == tail[k]);
        }
        lemma_all_words(head);
        lemma_all_words(tail);
        lemma_all_words_add(head.push(title), tail);
        assert(head.push(title).drop_last() =~= head);
        assert forall|k: int| 0 <= k < head.len() implies is_meta(#[trigger] head[k]) by {
            assert(head[k] == ws[k]);
        }
        lemma_sift_none(head);
        Seq::filter_distributes_over_add(head + words(title), tail, keep);
        Seq::filter_distributes_over_add(head, words(title), keep);
        assert(plain_words(retitled(subject, title)) =~= plain_words(title));
    } else {
        lemma_all_words(ws);
        lemma_all_words_add(seq![title], ws);
        assert(seq![title].drop_last() =~= Seq::<Seq<char>>::empty());
        assert(all_words(seq![title].drop_last()) == Seq::<Seq<char>>::empty());
        assert(seq![title].last() == title);
        assert(all_words(seq![title]) =~= words(title));
        lemma_sift_none(ws);
        Seq::filter_distributes_over_add(words(title), ws, keep);
        assert(plain_words(retitled(subject, title)) =~= plain_words(title));
    }
}

/// Replaces the title in a subject; contexts, projects and tags stay where they
/// are.
pub fn replace_title_in_subject(subject: &str, _old_title: &str, new_title: &str) -> (r: String)
    ensures
        r@ == retitled(subject@, new_title@),
{
    let all = split_words(subject);
    let ghost ws = texts(all@);
    let n: usize = all.len();
    let mut out: Vec<String> = Vec::new();
    let mut i: usize = 0;
    while i < n && is_meta_word(all[i].as_str())
        invariant
            ws == texts(all@),
            n == ws.len(),
            i <= n,
            texts(out@) == ws.take(i as int),
            forall|j: int| 0 <= j < i ==> is_meta(#[trigger] ws[j]),
        decreases n - i,
    {
        assert(all@[i as int]@ == ws[i as int]);
        let ghost before = texts(out@);
        out.push(all[i].clone());
        assert(texts(out@) =~= before.push(ws[i as int]));
        assert(texts(out@) =~= ws.take(i + 1));
        i = i + 1;
    }
    assert(i < n ==> all@[i as int]@ == ws[i as int]);
    proof {
        lemma_first_plain_is(ws, i as int);
    }
    if i == n {
        assert(texts(out@) =~= ws);
        let ghost before = out@;
        out.insert(0, new_title.to_owned());
        assert(texts(out@) =~= seq![new_title@] + texts(before));
    } else {
        out.push(new_title.to_owned());
        let ghost head = ws.take(i as int).push(new_title@);
        assert(texts(out@) =~= head);
        let start: usize = i + 1;
        let ghost rest = ws.skip(start as int);
        let ghost keep = |w: Seq<char>| is_meta(w);
        proof {
            reveal(Seq::filter);
            assert(rest.take(0) =~= Seq::<Seq<char>>::empty());
            assert(texts(out@) =~= head + rest.take(0).filter(keep));
        }
        for k in start..n
            invariant
                ws == texts(all@),
                n == ws.len(),
                start <= n,
                rest == ws.skip(start as int),
                keep == (|w: Seq<char>| is_meta(w)),
                texts(out@) == head + rest.take(k - start).filter(keep),
        {
            let ghost before = texts(out@);
            proof {
                reveal(Seq::filter);
                let more = rest.take(k + 1 - start);
                assert(more.drop_last() =~= rest.take(k - start));
                assert(more.last() == all@[k as int]@);
            }
            if is_meta_word(all[k].as_str()) {
                out.push(all[k].clone());
                assert(texts(out@) =~= before.push(all@[k as int]@));
                assert(texts(out@) =~= head + rest.take(k + 1 - start).filter(keep));
            }
        }
        assert(rest.take(n - start) =~= rest);
    }
    join_texts(&out, " ")
}

/// A task from which contexts were taken one after the other.
pub open spec fn without_contexts(t: TaskView, ctxs: Seq<Seq<char>>) -> TaskView
    decreases ctxs.len(),
{
    if ctxs.len() == 0 {
        t
    } else {
        without_context(without_contexts(t, ctxs.drop_last()), ctxs.last())
    }
}

/// A task with the title of the changes.
pub open spec fn title_updated(t: TaskView, u: ChangesView) -> TaskView {
    match u.title {
        Some(title) => TaskView { subject: retitled(t.subject, title), ..t },
        None => t,
    }
}

/// A task with the due date of the changes.
pub open spec fn due_updated(t: TaskView, u: ChangesView, today: int) -> TaskView {
    match u.due_date {
        Some(Some(d)) => with_due(t, d, today),
        Some(None) => with_due(t, Seq::empty(), today),
        None => t,
    }
}

/// The day on which changes complete a task: the one they name, or today.
pub open spec fn completion_day(u: ChangesView, today: int) -> int {
    match u.completion_date {
        Some(Some(s)) => match iso_day(s) {
            Some(d) => d,
            None => today,
        },
        _ => today,
    }
}

/// A task completed or reopened as the changes say. A completed task loses the
/// contexts that stand for priorities.
pub open spec fn completion_updated(
    t: TaskView,
    u: ChangesView,
    mapping: Seq<(i32, TargetView)>,
    today: int,
) -> TaskView {
    match u.is_completed {
        Some(true) => if t.finished {
            t
        } else {
            without_contexts(
                TaskView { finished: true, finish_date: Some(completion_day(u, today)), ..t },
                mapped_contexts(mapping),
            )
        },
        Some(false) => if t.finished {
            TaskView { finished: false, finish_date: None, ..t }
        } else {
            t
        },
        None => t,
    }
}

/// A task that carries a target of the priority map.
pub open spec fn with_target(t: TaskView, target: TargetView) -> TaskView {
    match target {
        TargetView::Context(c) => with_context(t, c),
        TargetView::Priority(p) => TaskView { priority: p, ..t },
        TargetView::Nothing => t,
    }
}

/// A task with the priority of the changes, where it is not finished. What stood
/// for another priority goes.
pub open spec fn priority_updated(
    t: TaskView,
    u: ChangesView,
    mapping: Seq<(i32, TargetView)>,
) -> TaskView {
    match u.priority {
        Some(p) => if t.finished {
            t
        } else {
            let bare = without_contexts(t, mapped_contexts(mapping));
            let plain = TaskView {
                priority: if mapped_priorities(mapping).contains(bare.priority) {
                    NO_PRIORITY
                } else {
                    bare.priority
                },
                ..bare
            };
            with_target(plain, target_for(mapping, p))
        },
        None => t,
    }
}

/// A task with changes applied to it.
pub open spec fn updated_task(
    t: TaskView,
    u: ChangesView,
    mapping: Seq<(i32, TargetView)>,
    today: int,
) -> TaskView {
    priority_updated(
        completion_updated(due_updated(title_updated(t, u), u, today), u, mapping, today),
        u,
        mapping,
    )
}

/// Takes away every context that the map can produce.
fn remove_mapped_contexts(t: &mut Task, map: &PriorityMap)
    ensures
        final(t)@ == without_contexts(old(t)@, mapped_contexts(map@)),
        has_clear_targets(map@) ==> plain_words(final(t)@.subject) == plain_words(old(t)@.subject),
{
    let ctxs = map.all_mapped_contexts();
    let ghost cs = ctxs@.map_values(|s: &str| s@);
    proof {
        if has_clear_targets(map@) {
            lemma_mapped_are_clear(map@);
        }
    }
    for i in 0..ctxs.len()
        invariant
            cs == ctxs@.map_values(|s: &str| s@),
            t@ == without_contexts(old(t)@, cs.take(i as int)),
            has_clear_targets(map@) ==> forall|k: int|
                0 <= k < cs.len() ==> (#[trigger] cs[k]).len() > 0 && cs[k][0] != '@' && one_word(
                    cs[k],
                ),
            has_clear_targets(map@) ==> plain_words(t@.subject) == plain_words(old(t)@.subject),
    {
        assert(cs[i as int] == ctxs@[i as int]@);
        assert(cs.take(i + 1).drop_last() =~= cs.take(i as int));
        assert(cs.take(i + 1).last() == ctxs@[i as int]@);
        t.remove_context(ctxs[i]);
    }
    assert(cs.take(cs.len() as int) =~= cs);
}

/// Whether a change of the due date leaves the other words of a task alone: the old
/// and the new value, where they are there, are values of a tag.
pub open spec fn swaps_due_tag(t: TaskView, u: ChangesView) -> bool {
    u.due_date matches Some(due) ==> {
        &&& due matches Some(d) ==> d.len() == 0 || is_tag_value(d)
        &&& t.tags.dom().contains("due"@) ==> is_tag_value(t.tags["due"@])
    }
}

/// Applies changes to a copy of a task. Tags that are not synced stay, and so does the
/// title where the changes name none. Dates in relative notation are counted from
/// `today`, which is also the completion date where the changes name none.
pub fn apply_task_updates(
    task: &Task,
    updates: &TaskFieldUpdates,
    map: &PriorityMap,
    today: Date,
) -> (r: Task)
    requires
        today.has_room(),
    ensures
        r@ == updated_task(task@, updates@, map@, today@),
        is_ordinary(task@, updates@, map@) ==> shows(task@, r@, updates@, map@),
        has_clear_targets(map@) && updates@.title is None && swaps_due_tag(task@, updates@)
            ==> title_of(r@) == title_of(task@),
{
    let mut t = task.clone();
    let ghost ordinary = is_ordinary(task@, updates@, map@);
    let ghost plainly = has_clear_targets(map@) && swaps_due_tag(task@, updates@);

    if let Some(new_title) = &updates.title {
        let old_title = extract_title(task);
        t.subject = replace_title_in_subject(
            t.subject.as_str(),
            old_title.as_str(),
            new_title.as_str(),
        );
    }
    assert(t@ == title_updated(task@, updates@));
    let ghost plain = plain_words(t@.subject);

    if let Some(due) = &updates.due_date {
        match due {
            Some(d) => t.set_due(d.as_str(), today),
            None => {
                proof {
                    reveal_strlit("");
                    assert(""@ =~= Seq::<char>::empty());
                }
                t.set_due("", today)
            },
        }
    }
    assert(t@ == due_updated(title_updated(task@, updates@), updates@, today@));
    assert(plainly ==> plain_words(t@.subject) == plain);

    if let Some(completed) = updates.is_completed {
        if completed && !t.finished {
            let mut date: Date = today;
            if let Some(Some(s)) = &updates.completion_date {
                if let Some(d) = Date::parse(s.as_str()) {
                    date = d;
                }
                proof {
                    assert(reads_back(s@, iso_day(s@)));
                }
            }
            t.complete(date);
            remove_mapped_contexts(&mut t, map);
        } else if !completed && t.finished {
            t.reopen();
        }
    }
    assert(t@ == completion_updated(
        due_updated(title_updated(task@, updates@), updates@, today@),
        updates@,
        map@,
        today@,
    ));

    assert(plainly ==> plain_words(t@.subject) == plain);

    if !t.finished {
        if let Some(priority) = updates.priority {
            proof {
                if plainly {
                    lemma_target_is_clear(map@, priority);
                }
            }
            remove_mapped_contexts(&mut t, map);
            let letters = map.all_mapped_priorities();
            let mut mapped: bool = false;
            for i in 0..letters.len()
                invariant
                    mapped == letters@.take(i as int).contains(t.priority),
            {
                let ghost head = letters@.take(i as int);
                if letters[i] == t.priority {
                    mapped = true;
                }
                proof {
                    let more = letters@.take(i + 1);
                    assert(more =~= head.push(letters@[i as int]));
                    if head.contains(t.priority) {
                        let k = head.index_of(t.priority);
                        assert(more[k] == t.priority);
                    }
                    if letters@[i as int] == t.priority {
                        assert(more[i as int] == t.priority);
                    }
                    if more.contains(t.priority) && letters@[i as int] != t.priority {
                        let k = more.index_of(t.priority);
                        assert(head[k] == t.priority);
                    }
                }
            }
            assert(letters@.take(letters@.len() as int) =~= letters@);
            if mapped {
                t.priority = NO_PRIORITY;
            }
            match map.reminders_to_task(priority) {
                MappingTarget::Context(ctx) => t.add_context(ctx.as_str()),
                MappingTarget::Priority(p) => {
                    t.priority = *p;
                },
                MappingTarget::Nothing => {},
            }
        }
    }
    proof {
        if plainly {
            assert(plain_words(t@.subject) == plain);
        }
        if ordinary {
            ordinary_changes_show(task@, updates@, map@, today@);
        }
    }
    t
}

// ---------------------------------------------------------------------------
// Changing the reminder
// ---------------------------------------------------------------------------

/// The update of a reminder that changes to its fields amount to.
pub open spec fn update_of(
    eid: Seq<char>,
    u: ChangesView,
    notes: Option<Option<Seq<char>>>,
    list: Seq<char>,
) -> UpdateView {
    UpdateView {
        eid,
        list_name: list,
        title: u.title,
        priority: u.priority,
        is_completed: u.is_completed,
        completion_date: u.completion_date,
        due_date: u.due_date,
        notes,
    }
}

/// The update of a reminder that changes to its fields amount to.
pub fn build_reminder_update(
    eid: &str,
    upd: &ReminderFieldUpdates,
    config: &ListSyncConfig,
) -> (r: ReminderUpdate)
    ensures
        r@ == update_of(eid@, upd@, opt_opt_text(upd.notes), config@.reminders_list),
{
    ReminderUpdate {
        eid: eid.to_owned(),
        list_name: config.reminders_list.clone(),
        title: copy_opt(&upd.title),
        priority: upd.priority,
        is_completed: upd.is_completed,
        completion_date: copy_opt_opt(&upd.completion_date),
        due_date: copy_opt_opt(&upd.due_date),
        notes: copy_opt_opt(&upd.notes),
    }
}

/// The update that gives a reminder all fields of a task but the notes.
pub open spec fn full_update(
    eid: Seq<char>,
    t: TaskView,
    mapping: Seq<(i32, TargetView)>,
    list: Seq<char>,
) -> UpdateView {
    UpdateView {
        eid,
        list_name: list,
        title: Some(title_of(t)),
        priority: Some(priority_of(mapping, t)),
        is_completed: Some(t.finished),
        completion_date: Some(day_text(t.finish_date)),
        due_date: Some(day_text(t.due_date)),
        notes: None,
    }
}

/// The update that gives a reminder all fields of a task but the notes.
pub fn task_to_reminder_update(
    eid: &str,
    task: &Task,
    config: &ListSyncConfig,
    map: &PriorityMap,
) -> (r: ReminderUpdate)
    ensures
        r@ == full_update(eid@, task@, map@, config@.reminders_list),
{
    ReminderUpdate {
        eid: eid.to_owned(),
        list_name: config.reminders_list.clone(),
        title: Some(extract_title(task)),
        priority: Some(task_priority(task, map)),
        is_completed: Some(task.finished),
        completion_date: Some(task_completion_date(task)),
        due_date: Some(task_due_date(task)),
        notes: None,
    }
}

} // verus!
