//! The next instances of recurring tasks.

use crate::dates::{iso_text, opt_day, tag_day, Date, MAX_DAYS};
use crate::keyed::TextMap;
use crate::sync::actions::{actions_view, ActionView, SyncAction};
use crate::sync::apply::{find_first, first_with};
use crate::sync::plan::tasks_view;
use crate::task::{copy_tags, eid_of, one_word, with_eid, Task, TaskView};
use crate::text::{
    chars_of, has_prefix, integer, is_digit, is_digit_char, parse_i64, string_of, text_after,
    words,
};
use chrono::{Datelike, NaiveDate};
use todo_lib::{todo, todotxt};
use vstd::prelude::*;

verus! {

// ---------------------------------------------------------------------------
// One instance
// ---------------------------------------------------------------------------

/// A recurrence rule without the name of its tag.
pub open spec fn rule_text(rule: Seq<char>) -> Seq<char> {
    if "rec:"@.is_prefix_of(rule) {
        rule.skip(4)
    } else {
        rule
    }
}

/// Whether a rule counts from the old dates: `+1w` and `mon,fri` do, `1w` counts from
/// the day of completion.
pub open spec fn is_strict(rule: Seq<char>) -> bool {
    rule_text(rule).len() > 0 && !is_digit(rule_text(rule)[0])
}

/// Whether a recurrence rule moves dates forward. A strict rule of zero units,
/// such as `rec:+0d`, does not.
pub open spec fn moves_on(rule: Seq<char>) -> bool {
    let s = rule_text(rule);
    s.len() >= 3 && s[0] == '+' ==> exists|i: int| 0 < i < s.len() - 1 && #[trigger] s[i] != '0'
}

/// How many days todo_lib looks ahead when it moves a date by a strict rule. Months and
/// years that the calendar does not have are passed over.
pub open spec fn days_ahead(rule: Seq<char>) -> int {
    let s = rule_text(rule);
    if !is_strict(rule) {
        0
    } else if s[0] != '+' {
        7
    } else {
        match integer(s.drop_last()) {
            Some(n) => if n > 255 {
                0
            } else if s.last() == 'd' {
                n
            } else if s.last() == 'w' {
                7 * n
            } else if s.last() == 'b' {
                n + 2 * ((n + 4) / 5) + 1
            } else {
                0
            },
            None => 0,
        }
    }
}

/// Whether a rule does not move a date out of the calendar.
pub open spec fn leaves_room(rule: Seq<char>, day: Option<int>) -> bool {
    day matches Some(d) ==> d + days_ahead(rule) <= MAX_DAYS
}

/// The first and the last second of the calendar, since January 1, 1970.
pub const FIRST_SECOND: i64 = -8_334_601_228_800;

pub const LAST_SECOND: i64 = 8_210_266_876_799;

/// The integer that a text writes, where it has 64 bits.
pub open spec fn small_integer(s: Seq<char>) -> Option<int> {
    match integer(s) {
        Some(n) => if i64::MIN <= n <= i64::MAX {
            Some(n)
        } else {
            None
        },
        None => None,
    }
}

/// Whether the time that a running timer shows can be added to the time spent before,
/// whatever the clock shows. The timer holds the second at which it was started.
pub open spec fn can_add_time(tags: Map<Seq<char>, Seq<char>>) -> bool {
    tags.dom().contains("tmr"@) && tags.dom().contains("spent"@) ==> (small_integer(
        tags["tmr"@],
    ) matches Some(start) ==> (small_integer(tags["spent"@]) matches Some(n) ==> FIRST_SECOND
        <= start <= LAST_SECOND ==> n + (LAST_SECOND - start) <= i64::MAX))
}

/// Whether todo_lib can read a text as a recurrence rule.
pub uninterp spec fn is_rule(rule: Seq<char>) -> bool;

/// The day to which todo_lib moves a date of a recurring task that is completed on the
/// day `today`.
pub uninterp spec fn next_day(rule: Seq<char>, day: int, today: int) -> int;

/// Whether a recurrence has ended before a day: its `until:` tag, read on the day
/// `today`, gives no later one.
pub open spec fn is_past_end(tags: Map<Seq<char>, Seq<char>>, day: int, today: int) -> bool {
    tags.dom().contains("until"@) && (tag_day(tags["until"@], today) matches Some(end) && end
        <= day)
}

/// A day to which a date is moved, where there is a date.
pub open spec fn moved(rule: Seq<char>, day: Option<int>, today: int) -> Option<int> {
    match day {
        Some(d) => Some(next_day(rule, d, today)),
        None => None,
    }
}

/// Whether the dates of a next instance are those of a completion on the day `today`.
pub open spec fn are_moved(
    n: NextDates,
    rule: Seq<char>,
    create: Option<int>,
    due: Option<int>,
    threshold: Option<int>,
    today: int,
) -> bool {
    &&& opt_day(n.create_date) == (if create is Some {
        Some(today)
    } else {
        None
    })
    &&& opt_day(n.due_date) == moved(rule, due, today)
    &&& opt_day(n.threshold_date) == moved(rule, threshold, today)
}

/// What changes between a recurring task and its next instance.
pub struct NextDates {
    pub subject: String,
    pub tags: TextMap<String>,
    pub create_date: Option<Date>,
    pub due_date: Option<Date>,
    pub threshold_date: Option<Date>,
}

/// What changes between a recurring task and its next instance: subject, tags,
/// creation date, due date and threshold date.
pub open spec fn next_dates(
    n: (String, TextMap<String>, Option<Date>, Option<Date>, Option<Date>),
) -> NextDates {
    NextDates { subject: n.0, tags: n.1, create_date: n.2, due_date: n.3, threshold_date: n.4 }
}

/// Whether a tag is the same in two maps.
pub open spec fn same_tag(
    a: Map<Seq<char>, Seq<char>>,
    b: Map<Seq<char>, Seq<char>>,
    n: Seq<char>,
) -> bool {
    (a.dom().contains(n) <==> b.dom().contains(n)) && (a.dom().contains(n) ==> a[n] == b[n])
}

/// Whether a tag holds a date, where there is one, and is the old tag otherwise.
pub open spec fn date_tag(
    old: Map<Seq<char>, Seq<char>>,
    new: Map<Seq<char>, Seq<char>>,
    n: Seq<char>,
    day: Option<int>,
) -> bool {
    match day {
        Some(d) => new.dom().contains(n) && new[n] == iso_text(d),
        None => same_tag(old, new, n),
    }
}

/// Whether `new` are the tags of a next instance: the dates are those of the
/// instance, the tags of the timer are gone, the others stay.
pub open spec fn next_tags(
    old: Map<Seq<char>, Seq<char>>,
    new: Map<Seq<char>, Seq<char>>,
    due: Option<int>,
    threshold: Option<int>,
) -> bool {
    &&& date_tag(old, new, "due"@, due)
    &&& date_tag(old, new, "t"@, threshold)
    &&& !new.dom().contains("tmr"@)
    &&& !new.dom().contains("spent"@)
    &&& forall|n: Seq<char>|
        n != "due"@ && n != "t"@ && n != "tmr"@ && n != "spent"@ ==> #[trigger] same_tag(old, new, n)
}

/// Whether a word is a tag that differs between a task and its next instance: a
/// date, or a tag of the timer.
pub open spec fn is_timed_word(w: Seq<char>) -> bool {
    "due:"@.is_prefix_of(w) || "t:"@.is_prefix_of(w) || "tmr:"@.is_prefix_of(w)
        || "spent:"@.is_prefix_of(w)
}

/// The words of a text that a next instance keeps.
pub open spec fn lasting_words(s: Seq<char>) -> Seq<Seq<char>> {
    words(s).filter(|w: Seq<char>| !is_timed_word(w))
}

/// Whether a tag, where it is there, is one word.
pub open spec fn is_plain_tag(tags: Map<Seq<char>, Seq<char>>, n: Seq<char>) -> bool {
    tags.dom().contains(n) ==> one_word(tags[n])
}

/// Whether `n` keeps the words and the tags of a task that its dates do not change.
pub open spec fn keeps_rest(
    n: NextDates,
    subject: Seq<char>,
    tags: Map<Seq<char>, Seq<char>>,
) -> bool {
    &&& is_plain_tag(tags, "tmr"@) && is_plain_tag(tags, "spent"@) ==> lasting_words(n.subject@)
        == lasting_words(subject)
    &&& next_tags(tags, n.tags@, opt_day(n.due_date), opt_day(n.threshold_date))
}

/// Calls `todo_lib::todo::done` on a list of one unfinished task, and gives what
/// differs in the instance that it appends. The dates of that instance depend on the
/// rule, on the old dates and on the day, which the clock tells: they are given a name,
/// for some day that is the same for all of them. Of the subject, which repeats the
/// dates, the other words stay, where the tags of the timer hold no white space. An
/// instance is appended where the rule can be read, there is a due or threshold date,
/// and the new due date does not reach what the `until:` tag tells on a day of the
/// clock.
#[verifier::external_body]
fn done(
    subject: String,
    tags: TextMap<String>,
    create: Option<Date>,
    due: Option<Date>,
    threshold: Option<Date>,
    rule: &str,
) -> (r: Option<(String, TextMap<String>, Option<Date>, Option<Date>, Option<Date>)>)
    requires
        moves_on(rule@),
        leaves_room(rule@, opt_day(due)),
        leaves_room(rule@, opt_day(threshold)),
        can_add_time(tags@),
    ensures
        r matches Some(n) ==> keeps_rest(next_dates(n), subject@, tags@),
        r matches Some(n) ==> exists|today: int| #[trigger]
            are_moved(
                next_dates(n),
                rule@,
                opt_day(create),
                opt_day(due),
                opt_day(threshold),
                today,
            ),
        r matches Some(n) ==> (n.3 matches Some(d) ==> exists|today: int| !(#[trigger] is_past_end(
            tags@,
            d@,
            today,
        ))),
        r is Some ==> is_rule(rule@) && (due is Some || threshold is Some),
        r is None && is_rule(rule@) && (due is Some || threshold is Some) ==> (due matches Some(d)
            && exists|day: int, today: int| #[trigger]
            is_past_end(tags@, next_day(rule@, d@, day), today)),
{
    let to = |d: Date| NaiveDate::from_num_days_from_ce_opt(d.days);
    let from = |d: NaiveDate| Date { days: d.num_days_from_ce() };
    let mut list = vec![todotxt::Task {
        subject, tags: tags.entries.into_iter().collect(), recurrence: rule.parse().ok(),
        create_date: create.and_then(to), due_date: due.and_then(to),
        threshold_date: threshold.and_then(to), ..Default::default()
    }];
    todo::done(&mut list, None, Default::default());
    list.into_iter().nth(1).map(|t| (
        t.subject, TextMap { entries: t.tags.into_iter().collect() },
        t.create_date.map(from), t.due_date.map(from), t.threshold_date.map(from)))
}

/// The next instance of a task, put together from what differs in it. It carries
/// no external identifier.
pub open spec fn instance_of(old: TaskView, n: NextDates) -> TaskView {
    with_eid(
        TaskView {
            subject: n.subject@,
            tags: n.tags@,
            create_date: opt_day(n.create_date),
            due_date: opt_day(n.due_date),
            threshold_date: opt_day(n.threshold_date),
            ..old
        },
        Seq::empty(),
    )
}

/// Puts the next instance of a task together from what differs in it.
pub fn next_instance(old: &Task, n: NextDates) -> (r: Task)
    ensures
        r@ == instance_of(old@, n),
        eid_of(r@) is None,
{
    let mut t = old.clone();
    t.subject = n.subject;
    t.tags = n.tags;
    t.create_date = n.create_date;
    t.due_date = n.due_date;
    t.threshold_date = n.threshold_date;
    proof {
        reveal_strlit("");
        assert(""@ =~= Seq::<char>::empty());
    }
    t.set_eid("");
    t
}

/// Whether a task can recur: its rule moves its dates forward and not out of the
/// calendar, and its timer can be stopped.
pub open spec fn recurs_safely(t: TaskView) -> bool {
    &&& t.recurrence matches Some(rule) ==> moves_on(rule) && leaves_room(rule, t.due_date)
        && leaves_room(rule, t.threshold_date)
    &&& can_add_time(t.tags)
}

fn is_timer_safe(tags: &TextMap<String>) -> (r: bool)
    ensures
        r == can_add_time(tags@),
{
    match (tags.get("tmr"), tags.get("spent")) {
        (Some(tmr), Some(spent)) => match (parse_i64(tmr.as_str()), parse_i64(spent.as_str())) {
            (Some(start), Some(n)) => start < FIRST_SECOND || LAST_SECOND < start || n <= i64::MAX
                - (LAST_SECOND - start),
            _ => true,
        },
        _ => true,
    }
}

/// The characters of a rule without the name of its tag.
fn rule_chars(rule: &str) -> (r: Vec<char>)
    ensures
        r@ == rule_text(rule@),
{
    proof {
        reveal_strlit("rec:");
    }
    if has_prefix(rule, "rec:") {
        let s = text_after(rule, 4);
        chars_of(s.as_str())
    } else {
        chars_of(rule)
    }
}

/// Whether a recurrence rule moves dates forward.
fn is_moving(rule: &str) -> (r: bool)
    ensures
        r == moves_on(rule@),
{
    let cs = rule_chars(rule);
    let n: usize = cs.len();
    if n < 3 || cs[0] != '+' {
        return true;
    }
    for i in 1..n - 1
        invariant
            cs@ == rule_text(rule@),
            n == cs@.len(),
            n >= 3,
            cs@[0] == '+',
            forall|k: int| 0 < k < i ==> #[trigger] cs@[k] == '0',
    {
        if cs[i] != '0' {
            assert(rule_text(rule@)[i as int] != '0');
            return true;
        }
    }
    false
}

/// How many days todo_lib looks ahead when it moves a date by a strict rule.
fn look_ahead(rule: &str) -> (r: i32)
    ensures
        r == days_ahead(rule@),
        0 <= r <= 1785,
{
    let cs = rule_chars(rule);
    let n: usize = cs.len();
    if n == 0 || is_digit_char(cs[0]) {
        return 0;
    }
    if cs[0] != '+' {
        return 7;
    }
    let number = string_of(&cs, 0, n - 1);
    assert(number@ =~= rule_text(rule@).drop_last());
    assert(number@.len() > 0 ==> number@[0] == '+');
    let last = cs[n - 1];
    match parse_i64(number.as_str()) {
        Some(k) => if k > 255 {
            0
        } else if last == 'd' {
            k as i32
        } else if last == 'w' {
            7 * (k as i32)
        } else if last == 'b' {
            k as i32 + 2 * ((k as i32 + 4) / 5) + 1
        } else {
            0
        },
        None => 0,
    }
}

fn has_room(d: &Option<Date>, ahead: i32) -> (r: bool)
    requires
        0 <= ahead <= 1785,
    ensures
        r == (opt_day(*d) matches Some(x) ==> x + ahead <= MAX_DAYS),
{
    match d {
        Some(x) => x.days_ce() <= MAX_DAYS - ahead,
        None => true,
    }
}

/// Whether a task can recur: its rule moves its dates forward and not out of the
/// calendar, and its timer can be stopped.
pub fn can_recur(t: &Task) -> (r: bool)
    ensures
        r == recurs_safely(t@),
{
    if let Some(rule) = &t.recurrence {
        if !is_moving(rule.as_str()) {
            return false;
        }
        let ahead: i32 = look_ahead(rule.as_str());
        if !has_room(&t.due_date, ahead) || !has_room(&t.threshold_date, ahead) {
            return false;
        }
    }
    is_timer_safe(&t.tags)
}

// ---------------------------------------------------------------------------
// All instances
// ---------------------------------------------------------------------------

/// The task whose completion by an action calls for a next instance: the action
/// finishes a recurring task that was not finished before.
pub open spec fn completed_by(a: ActionView, ts: Seq<TaskView>) -> Option<TaskView> {
    let (eid, updated) = match a {
        ActionView::UpdateTask { eid, updated_task } => (eid, Some(updated_task)),
        ActionView::MergeConflict { eid, updated_task, updated_reminder } => (
            eid,
            Some(updated_task),
        ),
        _ => (Seq::empty(), None),
    };
    let i = first_with(ts, eid) as int;
    match updated {
        Some(u) => if u.finished && u.recurrence is Some && i < ts.len() && !ts[i].finished {
            Some(ts[i])
        } else {
            None
        },
        None => None,
    }
}

/// Whether a next instance of a task can come about: it recurs, and there is a
/// date to count from.
pub open spec fn can_have_next(t: TaskView) -> bool {
    t.recurrence matches Some(rule) && is_rule(rule) && (t.due_date is Some || t.threshold_date
        is Some)
}

/// Whether the recurrence of a task may have ended: its `until:` tag gives no later day
/// than the next due date.
pub open spec fn may_have_ended(t: TaskView) -> bool {
    t.due_date matches Some(d) && (t.recurrence matches Some(rule) && exists|day: int, today: int|
     #[trigger]
        is_past_end(t.tags, next_day(rule, d, day), today))
}

/// Whether a next instance of a task has to come about: nothing ends the
/// recurrence.
pub open spec fn must_have_next(t: TaskView) -> bool {
    can_have_next(t) && !may_have_ended(t)
}

/// Whether `s` fits as the next instance of `old`: the clock tells the day from which
/// the dates are moved.
pub open spec fn is_next(old: TaskView, s: TaskView) -> bool {
    &&& can_have_next(old)
    &&& exists|n: NextDates| #[trigger] fits_next(old, n) && s == instance_of(old, n)
}

/// Whether `n` fits as what differs in the next instance of `old`.
pub open spec fn fits_next(old: TaskView, n: NextDates) -> bool {
    &&& old.recurrence matches Some(rule) && exists|today: int| #[trigger]
        are_moved(n, rule, old.create_date, old.due_date, old.threshold_date, today)
    &&& n.due_date matches Some(d) ==> exists|today: int| !(#[trigger] is_past_end(
        old.tags,
        d@,
        today,
    ))
    &&& keeps_rest(n, old.subject, old.tags)
}

/// Whether `out` are next instances of the tasks that the actions complete, in
/// order: one for each that has to have one, and at most one for any.
pub open spec fn are_next(actions: Seq<ActionView>, ts: Seq<TaskView>, out: Seq<TaskView>) -> bool
    decreases actions.len(),
{
    if actions.len() == 0 {
        out.len() == 0
    } else {
        match completed_by(actions.last(), ts) {
            Some(old) => {
                ||| !must_have_next(old) && are_next(actions.drop_last(), ts, out)
                ||| out.len() > 0 && is_next(old, out.last()) && are_next(
                    actions.drop_last(),
                    ts,
                    out.drop_last(),
                )
            },
            None => are_next(actions.drop_last(), ts, out),
        }
    }
}

/// Whether todo_lib can count on from the dates of every task that the actions
/// complete.
pub open spec fn can_spawn(actions: Seq<ActionView>, ts: Seq<TaskView>) -> bool {
    forall|i: int|
        0 <= i < actions.len() ==> (completed_by(#[trigger] actions[i], ts) matches Some(old)
            ==> recurs_safely(old))
}

/// The position of the task that an action completes.
fn completed_at(action: &SyncAction, tasks: &[Task]) -> (p: Option<usize>)
    ensures
        match p {
            Some(i) => i < tasks@.len() && completed_by(action@, tasks_view(tasks@)) == Some(
                tasks@[i as int]@,
            ),
            None => completed_by(action@, tasks_view(tasks@)) is None,
        },
{
    let ghost ts = tasks_view(tasks@);
    let hit: Option<(&String, &Task)> = match action {
        SyncAction::UpdateTask { eid, updated_task } => Some((eid, updated_task)),
        SyncAction::MergeConflict { eid, updated_task, updated_reminder: _ } => Some(
            (eid, updated_task),
        ),
        _ => None,
    };
    if let Some((eid, updated)) = hit {
        if updated.finished && updated.recurrence.is_some() {
            let p: usize = find_first(tasks, eid);
            if p < tasks.len() && !tasks[p].finished {
                assert(ts[p as int] == tasks@[p as int]@);
                return Some(p);
            }
            assert(p < ts.len() ==> ts[p as int] == tasks@[p as int]@);
        }
    }
    None
}

/// Whether todo_lib can count on from the dates of every task that the actions
/// complete.
pub fn spawns_safely(actions: &[SyncAction], current_tasks: &[Task]) -> (r: bool)
    ensures
        r == can_spawn(actions_view(actions@), tasks_view(current_tasks@)),
{
    let ghost all = actions_view(actions@);
    let ghost ts = tasks_view(current_tasks@);
    for i in 0..actions.len()
        invariant
            all == actions_view(actions@),
            ts == tasks_view(current_tasks@),
            forall|k: int|
                0 <= k < i ==> (completed_by(#[trigger] all[k], ts) matches Some(old)
                    ==> recurs_safely(old)),
    {
        assert(all[i as int] == actions@[i as int]@);
        if let Some(p) = completed_at(&actions[i], current_tasks) {
            if !can_recur(&current_tasks[p]) {
                return false;
            }
        }
    }
    true
}

/// The next instances of the recurring tasks that the actions complete, given
/// the tasks as they were before. They carry no external identifier, so that a
/// follow-up run treats them as new.
pub fn collect_recurrence_spawns(actions: &[SyncAction], current_tasks: &[Task]) -> (r: Vec<Task>)
    requires
        can_spawn(actions_view(actions@), tasks_view(current_tasks@)),
    ensures
        are_next(actions_view(actions@), tasks_view(current_tasks@), tasks_view(r@)),
        forall|i: int| 0 <= i < r@.len() ==> eid_of((#[trigger] r@[i])@) is None,
{
    let ghost all = actions_view(actions@);
    let ghost ts = tasks_view(current_tasks@);
    let mut out: Vec<Task> = Vec::new();
    assert(all.take(0) =~= Seq::<ActionView>::empty());
    for i in 0..actions.len()
        invariant
            can_spawn(all, ts),
            all == actions_view(actions@),
            ts == tasks_view(current_tasks@),
            are_next(all.take(i as int), ts, tasks_view(out@)),
            forall|k: int| 0 <= k < out@.len() ==> eid_of((#[trigger] out@[k])@) is None,
    {
        let ghost more = all.take(i + 1);
        assert(more.drop_last() =~= all.take(i as int));
        assert(more.last() == actions@[i as int]@);
        assert(all[i as int] == actions@[i as int]@);
        if let Some(p) = completed_at(&actions[i], current_tasks) {
            let old = &current_tasks[p];
            assert(recurs_safely(old@));
            let mut next: Option<NextDates> = None;
            if let Some(rule) = &old.recurrence {
                let instance = done(
                    old.subject.clone(),
                    copy_tags(&old.tags),
                    old.create_date,
                    old.due_date,
                    old.threshold_date,
                    rule.as_str(),
                );
                if let Some((subject, tags, create_date, due_date, threshold_date)) = instance {
                    next = Some(
                        NextDates { subject, tags, create_date, due_date, threshold_date },
                    );
                }
            }
            if let Some(n) = next {
                let ghost before = tasks_view(out@);
                assert(fits_next(old@, n));
                let t = next_instance(old, n);
                assert(is_next(old@, t@));
                out.push(t);
                assert(tasks_view(out@) =~= before.push(t@));
                assert(tasks_view(out@).drop_last() =~= before);
            }
        }
        assert(are_next(more, ts, tasks_view(out@)));
    }
    assert(all.take(all.len() as int) =~= all);
    out
}

} // verus!
