//! What a run owes: every new, changed or lost side of a pair is acted on.

use crate::filter::{filter_rules, rules_admit};
use crate::keyed::{distinct_keys, lemma_map_of};
use crate::mapping::reminder_line;
use crate::reminder::ReminderView;
use crate::sync::actions::{ActionView, UpdateView};
use crate::sync::config::{ConfigView, StickyTracking};
use crate::sync::diff::{full_update, update_of, updated_task};
use crate::sync::faithful::{resurrected_reminder_agrees, update_carries_the_changes};
use crate::sync::fields::{fields_hash, is_sentinel, line_hash, reminder_fields, sentinel_original};
use crate::sync::laws::{agree, lemma_found, lemma_found_task, patched, plan_is_called_for};
use crate::sync::plan::{admits, find_reminder, Scene};
use crate::task::{eid_of, parsed_task, TaskView};
use crate::undo::with_update;
use vstd::prelude::*;

verus! {

// ---------------------------------------------------------------------------
// Finding things
// ---------------------------------------------------------------------------

/// Whether a list takes a task: by its push filter where it has one, else by its
/// context where it has one, else always.
pub open spec fn takes(c: ConfigView, t: TaskView, today: int) -> bool {
    match (c.push_filter, c.auto_context) {
        (Some(text), _) => rules_admit(filter_rules(text), t, today),
        (None, Some(ctx)) => t.contexts.contains(ctx),
        (None, None) => true,
    }
}

/// Whether an external identifier is one that keeps its task out of the sync.
pub open spec fn opts_out(eid: Seq<char>) -> bool {
    ||| eid == "na"@
    ||| exists|rest: Seq<char>| eid == #[trigger] ("na/"@ + rest)
    ||| exists|rest: Seq<char>| eid == #[trigger] ("ns/"@ + rest)
}

/// `na`, `na/<eid>` and `ns/<eid>` keep a task out of the sync, and nothing else does;
/// the last two name the reminder `<eid>`.
pub proof fn sentinels_are_these(eid: Seq<char>, value: Seq<char>)
    ensures
        is_sentinel(value) <==> opts_out(value),
        is_sentinel("na/"@ + eid),
        is_sentinel("ns/"@ + eid),
        eid.len() > 0 ==> sentinel_original("na/"@ + eid) == Some(eid),
        eid.len() > 0 ==> sentinel_original("ns/"@ + eid) == Some(eid),
        sentinel_original("na"@) is None,
        sentinel_original(value) matches Some(e) ==> e.len() > 0 && (value == "na/"@ + e || value
            == "ns/"@ + e),
{
    reveal_strlit("na");
    reveal_strlit("na/");
    reveal_strlit("ns/");
    assert(("na/"@ + eid).take(3) =~= "na/"@);
    assert(("ns/"@ + eid).take(3) =~= "ns/"@);
    assert(("na/"@ + eid).skip(3) =~= eid);
    assert(("ns/"@ + eid).skip(3) =~= eid);
    if "na/"@.is_prefix_of(value) {
        assert(value =~= "na/"@ + value.skip(3));
    }
    if "ns/"@.is_prefix_of(value) {
        assert(value =~= "ns/"@ + value.skip(3));
    }
    if opts_out(value) && value != "na"@ {
        if exists|rest: Seq<char>| value == #[trigger] ("na/"@ + rest) {
            let rest = choose|rest: Seq<char>| value == #[trigger] ("na/"@ + rest);
            assert(value.take(3) =~= "na/"@);
        } else {
            let rest = choose|rest: Seq<char>| value == #[trigger] ("ns/"@ + rest);
            assert(value.take(3) =~= "ns/"@);
        }
    }
    if sentinel_original("na"@) is Some {
        assert("na"@.len() == 2);
    }
}

proof fn lemma_reminder_at(rs: Seq<ReminderView>, list: Seq<char>, eid: Seq<char>, i: int)
    requires
        0 <= i < rs.len(),
        rs[i].list == list,
        rs[i].external_id == eid,
        forall|k: int|
            i < k < rs.len() ==> !((#[trigger] rs[k]).list == list && rs[k].external_id == eid),
    ensures
        find_reminder(rs, list, eid) == Some(rs[i]),
    decreases rs.len(),
{
    if i < rs.len() - 1 {
        let front = rs.drop_last();
        assert(!(rs[rs.len() - 1].list == list && rs[rs.len() - 1].external_id == eid));
        assert forall|k: int| i < k < front.len() implies !((#[trigger] front[k]).list == list
            && front[k].external_id == eid) by {
            assert(front[k] == rs[k]);
        }
        lemma_reminder_at(front, list, eid, i);
    }
}

proof fn lemma_no_reminder(rs: Seq<ReminderView>, list: Seq<char>, eid: Seq<char>)
    requires
        forall|k: int|
            0 <= k < rs.len() ==> !((#[trigger] rs[k]).list == list && rs[k].external_id == eid),
    ensures
        find_reminder(rs, list, eid) is None,
    decreases rs.len(),
{
    if rs.len() > 0 {
        let front = rs.drop_last();
        assert(!(rs[rs.len() - 1].list == list && rs[rs.len() - 1].external_id == eid));
        assert forall|k: int| 0 <= k < front.len() implies !((#[trigger] front[k]).list == list
            && front[k].external_id == eid) by {
            assert(front[k] == rs[k]);
        }
        lemma_no_reminder(front, list, eid);
    }
}

proof fn lemma_task_at(s: Scene, ts: Seq<TaskView>, eid: Seq<char>, i: int)
    requires
        0 <= i < ts.len(),
        s.in_scope(ts[i], eid),
        forall|k: int| 0 <= k < i ==> eid_of(#[trigger] ts[k]) != Some(eid),
    ensures
        s.find_task(ts, eid) == Some(ts[i]),
    decreases ts.len(),
{
    let front = ts.drop_last();
    if i < ts.len() - 1 {
        assert forall|k: int| 0 <= k < i implies eid_of(#[trigger] front[k]) != Some(eid) by {
            assert(front[k] == ts[k]);
        }
        assert(front[i] == ts[i]);
        lemma_task_at(s, front, eid, i);
    } else {
        if s.find_task(front, eid) is Some {
            lemma_found_task(s, front, eid);
            let t = s.find_task(front, eid)->0;
            let k = front.index_of(t);
            assert(ts[k] == t);
            assert(eid_of(ts[k]) != Some(eid));
        }
    }
}

/// Whether the reminder at a position is that of a pair: it is one of the list, has the
/// external identifier, and no later one has.
pub open spec fn is_reminder_of(s: Scene, eid: Seq<char>, i: int) -> bool {
    &&& 0 <= i < s.reminders.len()
    &&& s.reminders[i].list == s.config.reminders_list
    &&& s.reminders[i].external_id == eid
    &&& forall|k: int|
        i < k < s.reminders.len() ==> !((#[trigger] s.reminders[k]).list
            == s.config.reminders_list && s.reminders[k].external_id == eid)
}

/// Whether no reminder of the list has an external identifier.
pub open spec fn has_no_reminder(s: Scene, eid: Seq<char>) -> bool {
    forall|k: int|
        0 <= k < s.reminders.len() ==> !((#[trigger] s.reminders[k]).list
            == s.config.reminders_list && s.reminders[k].external_id == eid)
}

/// Whether the task at a position is that of a pair of the list: it is the first with
/// the external identifier, and the list takes it, or keeps what it knows.
pub open spec fn is_task_of(s: Scene, eid: Seq<char>, i: int) -> bool {
    &&& 0 <= i < s.tasks.len()
    &&& eid_of(s.tasks[i]) == Some(eid)
    &&& forall|k: int| 0 <= k < i ==> eid_of(#[trigger] s.tasks[k]) != Some(eid)
    &&& !opts_out(eid)
    &&& takes(s.config, s.tasks[i], s.today) || s.config.sticky_tracking != StickyTracking::Never
}

/// Whether no task counts for a pair: none has the external identifier, or the list does
/// not take those that have, and does not keep what it knows.
pub open spec fn has_no_task(s: Scene, eid: Seq<char>) -> bool {
    forall|k: int|
        0 <= k < s.tasks.len() && eid_of(#[trigger] s.tasks[k]) == Some(eid)
            ==> s.config.sticky_tracking == StickyTracking::Never && !takes(
            s.config,
            s.tasks[k],
            s.today,
        )
}

/// Whether the pair at a position is one of the list.
pub open spec fn is_own_pair(s: Scene, n: int) -> bool {
    &&& 0 <= n < s.pairs.len()
    &&& distinct_keys(s.pairs)
    &&& s.pairs[n].1.fields.list == s.config.reminders_list
}

proof fn lemma_own_pair(s: Scene, n: int)
    requires
        is_own_pair(s, n),
    ensures
        s.knows(s.pairs[n].0),
        s.items()[s.pairs[n].0] == s.pairs[n].1,
{
    lemma_map_of(s.pairs);
}

/// The reminder of a pair is the one with its external identifier in the list, and its
/// task the first one with it, as long as the list takes the task or keeps what it knows.
pub proof fn sides_are_found(s: Scene, n: int, i: int, j: int)
    requires
        is_own_pair(s, n),
    ensures
        is_reminder_of(s, s.pairs[n].0, i) ==> s.reminder(s.pairs[n].0) == Some(s.reminders[i]),
        has_no_reminder(s, s.pairs[n].0) ==> s.reminder(s.pairs[n].0) is None,
        is_task_of(s, s.pairs[n].0, j) ==> s.task(s.pairs[n].0) == Some(s.tasks[j]),
        has_no_task(s, s.pairs[n].0) ==> s.task(s.pairs[n].0) is None,
{
    let eid = s.pairs[n].0;
    lemma_own_pair(s, n);
    if is_reminder_of(s, eid, i) {
        lemma_reminder_at(s.reminders, s.config.reminders_list, eid, i);
    }
    if has_no_reminder(s, eid) {
        lemma_no_reminder(s.reminders, s.config.reminders_list, eid);
    }
    if is_task_of(s, eid, j) {
        sentinels_are_these(Seq::empty(), eid);
        lemma_task_at(s, s.tasks, eid, j);
    }
    if has_no_task(s, eid) && s.task(eid) is Some {
        lemma_found_task(s, s.tasks, eid);
        let t = s.task(eid)->0;
        let k = s.tasks.index_of(t);
        assert(s.tasks[k] == t);
        assert(admits(s.config, t, s.today) == takes(s.config, t, s.today));
    }
}

// ---------------------------------------------------------------------------
// What ends up in a plan
// ---------------------------------------------------------------------------

proof fn lemma_has(a: Seq<ActionView>, b: Seq<ActionView>, x: ActionView)
    ensures
        (a + b).contains(x) <==> a.contains(x) || b.contains(x),
{
    if a.contains(x) {
        let k = a.index_of(x);
        assert((a + b)[k] == x);
    }
    if b.contains(x) {
        let k = b.index_of(x);
        assert((a + b)[a.len() + k] == x);
    }
    if (a + b).contains(x) {
        let k = (a + b).index_of(x);
        if k < a.len() {
            assert(a[k] == x);
        } else {
            assert(b[k - a.len()] == x);
        }
    }
}

proof fn lemma_plan_has(s: Scene, x: ActionView)
    ensures
        s.plan().contains(x) <==> s.for_sentinels(s.tasks.len()).contains(x) || s.for_pairs(
            s.pairs.len(),
        ).contains(x) || s.for_imports(s.reminders.len()).contains(x) || s.for_pushes(
            s.tasks.len(),
        ).contains(x),
{
    let a = s.for_sentinels(s.tasks.len());
    let b = s.for_pairs(s.pairs.len());
    let c = s.for_imports(s.reminders.len());
    lemma_has(a, b, x);
    lemma_has(a + b, c, x);
    lemma_has(a + b + c, s.for_pushes(s.tasks.len()), x);
}

proof fn lemma_pairs_have(s: Scene, m: nat, n: int, x: ActionView)
    requires
        0 <= n < m <= s.pairs.len(),
        s.for_pair(s.pairs[n].0).contains(x),
    ensures
        s.for_pairs(m).contains(x),
    decreases m,
{
    lemma_has(s.for_pairs((m - 1) as nat), s.for_pair(s.pairs[m - 1].0), x);
    if n < m - 1 {
        lemma_pairs_have(s, (m - 1) as nat, n, x);
    }
}

/// Everything that is done about a pair is done by the plan.
proof fn lemma_pair_planned(s: Scene, n: int, x: ActionView)
    requires
        0 <= n < s.pairs.len(),
        s.for_pair(s.pairs[n].0).contains(x),
    ensures
        s.plan().contains(x),
{
    lemma_pairs_have(s, s.pairs.len(), n, x);
    lemma_plan_has(s, x);
}

proof fn lemma_pushes_have(s: Scene, m: nat, i: int)
    requires
        0 <= i < m <= s.tasks.len(),
        s.is_pushed(s.tasks[i]),
    ensures
        s.for_pushes(m).contains(
            ActionView::CreateReminder {
                task: s.tasks[i],
                target_list: s.config.reminders_list,
            },
        ),
    decreases m,
{
    let x = ActionView::CreateReminder {
        task: s.tasks[i],
        target_list: s.config.reminders_list,
    };
    let t = s.tasks[m - 1];
    let end = if s.is_pushed(t) {
        seq![ActionView::CreateReminder { task: t, target_list: s.config.reminders_list }]
    } else {
        Seq::empty()
    };
    lemma_has(s.for_pushes((m - 1) as nat), end, x);
    if i < m - 1 {
        lemma_pushes_have(s, (m - 1) as nat, i);
    } else {
        assert(end[0] == x);
    }
}

proof fn lemma_imports_have(s: Scene, m: nat, i: int)
    requires
        0 <= i < m <= s.reminders.len(),
        s.is_imported(s.reminders[i]),
    ensures
        s.for_imports(m).contains(
            ActionView::CreateTask {
                eid: s.reminders[i].external_id,
                reminder: s.reminders[i],
            },
        ),
    decreases m,
{
    let r = s.reminders[m - 1];
    let x = ActionView::CreateTask {
        eid: s.reminders[i].external_id,
        reminder: s.reminders[i],
    };
    let end = if s.is_imported(r) {
        seq![ActionView::CreateTask { eid: r.external_id, reminder: r }]
    } else {
        Seq::empty()
    };
    lemma_has(s.for_imports((m - 1) as nat), end, x);
    if i < m - 1 {
        lemma_imports_have(s, (m - 1) as nat, i);
    } else {
        assert(end[0] == x);
    }
}

proof fn lemma_sentinels_have(s: Scene, m: nat, i: int, x: ActionView)
    requires
        0 <= i < m <= s.tasks.len(),
        s.for_sentinel(s.tasks[i]).contains(x),
    ensures
        s.for_sentinels(m).contains(x),
    decreases m,
{
    lemma_has(s.for_sentinels((m - 1) as nat), s.for_sentinel(s.tasks[m - 1]), x);
    if i < m - 1 {
        lemma_sentinels_have(s, (m - 1) as nat, i, x);
    }
}

// ---------------------------------------------------------------------------
// New tasks and reminders
// ---------------------------------------------------------------------------

/// Every open task that the list takes, that does not opt out and that belongs to no
/// known pair is pushed to the list; and no other task is.
pub proof fn new_task_is_pushed(s: Scene, i: int)
    requires
        0 <= i < s.tasks.len(),
        distinct_keys(s.pairs),
    ensures
        s.plan().contains(
            ActionView::CreateReminder {
                task: s.tasks[i],
                target_list: s.config.reminders_list,
            },
        ) <==> {
            &&& !s.tasks[i].finished
            &&& takes(s.config, s.tasks[i], s.today)
            &&& eid_of(s.tasks[i]) matches Some(e) ==> !opts_out(e) && !s.knows(e)
        },
{
    let t = s.tasks[i];
    let x = ActionView::CreateReminder { task: t, target_list: s.config.reminders_list };
    if let Some(e) = eid_of(t) {
        sentinels_are_these(Seq::empty(), e);
    }
    assert(admits(s.config, t, s.today) == takes(s.config, t, s.today));
    if s.is_pushed(t) {
        lemma_pushes_have(s, s.tasks.len(), i);
        lemma_plan_has(s, x);
    }
    if s.plan().contains(x) {
        plan_is_called_for(s);
        let k = s.plan().index_of(x);
        assert(s.is_called_for(s.plan()[k]));
    }
}

/// Whether a pair may go on as a reminder: it is a pair of the list whose reminder is
/// gone, and that reminder had the fields of the given one.
pub open spec fn may_go_on_as(s: Scene, old: Seq<char>, r: ReminderView) -> bool {
    &&& s.knows(old)
    &&& has_no_reminder(s, old)
    &&& s.items()[old].reminders_field_hash == fields_hash(reminder_fields(r))
}

/// Every reminder of the list that is not known becomes a task: an open one always, a
/// completed one where the list wants that. The exception is one that a lost reminder
/// goes on as. A reminder of another list, or a completed one that the list does not
/// want, becomes none.
pub proof fn new_reminder_is_imported(s: Scene, i: int)
    requires
        0 <= i < s.reminders.len(),
        distinct_keys(s.pairs),
        !s.knows(s.reminders[i].external_id),
        is_reminder_of(s, s.reminders[i].external_id, i) || s.reminders[i].list
            != s.config.reminders_list,
    ensures
        ({
            let r = s.reminders[i];
            let made = ActionView::CreateTask { eid: r.external_id, reminder: r };
            &&& s.plan().contains(made) ==> r.list == s.config.reminders_list && (!r.is_completed
                || s.config.sync_initial_completed)
            &&& r.list == s.config.reminders_list && (!r.is_completed
                || s.config.sync_initial_completed) ==> s.plan().contains(made) || exists|
                old: Seq<char>,
            | #[trigger]
                may_go_on_as(s, old, r)
        }),
{
    let r = s.reminders[i];
    let made = ActionView::CreateTask { eid: r.external_id, reminder: r };
    if s.plan().contains(made) {
        plan_is_called_for(s);
        let k = s.plan().index_of(made);
        assert(s.is_called_for(s.plan()[k]));
    }
    if r.list == s.config.reminders_list && (!r.is_completed || s.config.sync_initial_completed) {
        lemma_reminder_at(s.reminders, s.config.reminders_list, r.external_id, i);
        if exists|old: Seq<char>| #[trigger] s.relinks(old, r.external_id) {
            let old = choose|old: Seq<char>| #[trigger] s.relinks(old, r.external_id);
            let h = s.items()[old].reminders_field_hash;
            assert(s.is_lost(old, h));
            assert(s.is_fresh(r.external_id, h));
            assert(has_no_reminder(s, old)) by {
                if !has_no_reminder(s, old) {
                    let k = choose|k: int|
                        0 <= k < s.reminders.len() && ((#[trigger] s.reminders[k]).list
                            == s.config.reminders_list && s.reminders[k].external_id == old);
                    lemma_some_reminder(s.reminders, s.config.reminders_list, old, k);
                }
            }
            assert(may_go_on_as(s, old, r));
        } else {
            lemma_imports_have(s, s.reminders.len(), i);
            lemma_plan_has(s, made);
        }
    }
}

proof fn lemma_some_reminder(rs: Seq<ReminderView>, list: Seq<char>, eid: Seq<char>, k: int)
    requires
        0 <= k < rs.len(),
        rs[k].list == list,
        rs[k].external_id == eid,
    ensures
        find_reminder(rs, list, eid) is Some,
    decreases rs.len(),
{
    if k < rs.len() - 1 {
        assert(rs.drop_last()[k] == rs[k]);
        lemma_some_reminder(rs.drop_last(), list, eid, k);
    }
}

// ---------------------------------------------------------------------------
// Lost sides
// ---------------------------------------------------------------------------

/// Whether no reminder of the list that is not known has the fields that the reminder
/// of a pair had.
pub open spec fn has_no_double(s: Scene, n: int) -> bool {
    forall|k: int|
        0 <= k < s.reminders.len() && (#[trigger] s.reminders[k]).list == s.config.reminders_list
            && !s.knows(s.reminders[k].external_id) ==> fields_hash(
            reminder_fields(s.reminders[k]),
        ) != s.pairs[n].1.reminders_field_hash
}

/// Whether it is in doubt as which reminder a pair could go on: two new reminders of the
/// list have the fields that its reminder had, or another pair has lost such a reminder.
pub open spec fn is_in_doubt(s: Scene, n: int) -> bool {
    let hash = s.pairs[n].1.reminders_field_hash;
    ||| exists|a: int, b: int|
        #[trigger] is_new_reminder(s, a, hash) && #[trigger] is_new_reminder(s, b, hash)
            && s.reminders[a].external_id != s.reminders[b].external_id
    ||| exists|k: int, j: int|
        k != n && #[trigger] has_lost_reminder(s, k, j) && s.pairs[k].1.reminders_field_hash == hash
}

/// Whether the reminder at a position is one of the list that is not known, with fields of
/// a given hash.
pub open spec fn is_new_reminder(s: Scene, i: int, hash: u64) -> bool {
    &&& is_reminder_of(s, s.reminders[i].external_id, i)
    &&& !s.knows(s.reminders[i].external_id)
    &&& fields_hash(reminder_fields(s.reminders[i])) == hash
}

/// Whether the pair at a position has lost its reminder, and has its task at a position.
pub open spec fn has_lost_reminder(s: Scene, n: int, j: int) -> bool {
    &&& is_own_pair(s, n)
    &&& has_no_reminder(s, s.pairs[n].0)
    &&& is_task_of(s, s.pairs[n].0, j)
}

/// A pair whose reminder is gone, and does not go on under another external identifier, or
/// not beyond doubt: where the task was edited since, or nothing is known of
/// what it was, the reminder comes back with all that the task says; else the task goes
/// too. Nothing else is done about the pair.
pub proof fn lost_reminder_is_settled(s: Scene, n: int, j: int, r: ReminderView)
    requires
        is_own_pair(s, n),
        has_no_reminder(s, s.pairs[n].0),
        is_task_of(s, s.pairs[n].0, j),
        has_no_double(s, n) || is_in_doubt(s, n) || s.pairs[n].1.reminders_field_hash == 0,
    ensures
        ({
            let eid = s.pairs[n].0;
            let known = s.pairs[n].1.task_line_hash;
            let deletion = ActionView::DeleteTask { eid };
            &&& known != 0 && line_hash(s.tasks[j]) == known ==> s.for_pair(eid) == seq![deletion]
                && s.plan().contains(deletion)
            &&& known == 0 || line_hash(s.tasks[j]) != known ==> exists|u: UpdateView|
                {
                    let back = ActionView::ResurrectReminder {
                        eid,
                        reminder_update: u,
                        target_list: s.config.reminders_list,
                    };
                    &&& #[trigger] agree(with_update(r, u), s.tasks[j], s.config.mapping)
                    &&& s.for_pair(eid) == seq![back]
                    &&& s.plan().contains(back)
                }
        }),
{
    let eid = s.pairs[n].0;
    let t = s.tasks[j];
    lemma_own_pair(s, n);
    sides_are_found(s, n, 0, j);
    if exists|new: Seq<char>| #[trigger] s.relinks(eid, new) {
        let new = choose|new: Seq<char>| #[trigger] s.relinks(eid, new);
        let h = s.items()[eid].reminders_field_hash;
        assert(s.is_fresh(new, h));
        let q = s.reminder(new)->0;
        lemma_found(s.reminders, s.config.reminders_list, new);
        lemma_found_in(s.reminders, s.config.reminders_list, new);
        let k = s.reminders.index_of(q);
        assert(s.reminders[k] == q);
        if is_in_doubt(s, n) {
            lemma_doubt(s, n, new);
        }
    }
    let u = full_update(eid, t, s.config.mapping, s.config.reminders_list);
    resurrected_reminder_agrees(eid, t, s.config, s.config.reminders_list, r);
    assert(s.for_pair(eid)[0] == s.for_pair(eid)[0]);
    assert(s.for_pair(eid).contains(s.for_pair(eid)[0]));
    lemma_pair_planned(s, n, s.for_pair(eid)[0]);
    assert(agree(with_update(r, u), s.tasks[j], s.config.mapping));
}

proof fn lemma_doubt(s: Scene, n: int, new: Seq<char>)
    requires
        is_own_pair(s, n),
        is_in_doubt(s, n),
    ensures
        !s.relinks(s.pairs[n].0, new),
{
    let hash = s.pairs[n].1.reminders_field_hash;
    let list = s.config.reminders_list;
    lemma_own_pair(s, n);
    if exists|a: int, b: int|
        #[trigger] is_new_reminder(s, a, hash) && #[trigger] is_new_reminder(s, b, hash)
            && s.reminders[a].external_id != s.reminders[b].external_id {
        let (a, b) = choose|a: int, b: int|
            #[trigger] is_new_reminder(s, a, hash) && #[trigger] is_new_reminder(s, b, hash)
                && s.reminders[a].external_id != s.reminders[b].external_id;
        lemma_reminder_at(s.reminders, list, s.reminders[a].external_id, a);
        lemma_reminder_at(s.reminders, list, s.reminders[b].external_id, b);
        assert(s.is_fresh(s.reminders[a].external_id, hash));
        assert(s.is_fresh(s.reminders[b].external_id, hash));
    } else {
        let (k, j) = choose|k: int, j: int|
            k != n && #[trigger] has_lost_reminder(s, k, j) && s.pairs[k].1.reminders_field_hash
                == hash;
        lemma_own_pair(s, k);
        sides_are_found(s, k, 0, j);
        assert(s.is_lost(s.pairs[k].0, hash));
        assert(s.pairs[k].0 != s.pairs[n].0);
    }
}

proof fn lemma_found_in(rs: Seq<ReminderView>, list: Seq<char>, eid: Seq<char>)
    requires
        find_reminder(rs, list, eid) is Some,
    ensures
        rs.contains(find_reminder(rs, list, eid)->0),
    decreases rs.len(),
{
    if rs.last().list == list && rs.last().external_id == eid {
        assert(rs[rs.len() - 1] == rs.last());
    } else {
        lemma_found_in(rs.drop_last(), list, eid);
        let q = find_reminder(rs.drop_last(), list, eid)->0;
        let k = rs.drop_last().index_of(q);
        assert(rs[k] == q);
    }
}

/// A pair whose task is gone. A completed reminder is left as it is. An open one goes
/// where a task asks for that. Where the file has lost all external identifiers, the task
/// is made anew; and so it is where the reminder was edited since, or nothing is known
/// of what it was. Else the reminder goes too. Nothing else is done about the pair.
pub proof fn lost_task_is_settled(s: Scene, n: int, i: int)
    requires
        is_own_pair(s, n),
        is_reminder_of(s, s.pairs[n].0, i),
        has_no_task(s, s.pairs[n].0),
    ensures
        ({
            let eid = s.pairs[n].0;
            let r = s.reminders[i];
            let known = s.pairs[n].1.reminders_field_hash;
            let asked = exists|k: int|
                0 <= k < s.tasks.len() && (eid_of(#[trigger] s.tasks[k]) == Some("na/"@ + eid)
                    || eid_of(s.tasks[k]) == Some("ns/"@ + eid));
            let stale = s.tasks.len() > 0 && forall|k: int|
                0 <= k < s.tasks.len() ==> eid_of(#[trigger] s.tasks[k]) is None;
            let gone = ActionView::DeleteReminder { eid };
            let anew = ActionView::CreateTask { eid, reminder: r };
            let back = ActionView::ResurrectTask {
                eid,
                task: parsed_task(reminder_line(r, s.config.mapping), s.today),
            };
            let edited = known == 0 || fields_hash(reminder_fields(r)) != known;
            &&& r.is_completed ==> s.for_pair(eid).len() == 0
            &&& !r.is_completed && eid.len() > 0 && asked ==> s.for_pair(eid) == seq![gone]
                && s.plan().contains(gone)
            &&& !r.is_completed && stale ==> s.for_pair(eid) == seq![anew] && s.plan().contains(anew)
            &&& !r.is_completed && !stale && !asked && edited ==> s.for_pair(eid) == seq![back]
                && s.plan().contains(back)
            &&& !r.is_completed && !stale && !asked && !edited ==> s.for_pair(eid) == seq![gone]
                && s.plan().contains(gone)
        }),
{
    let eid = s.pairs[n].0;
    let r = s.reminders[i];
    lemma_own_pair(s, n);
    sides_are_found(s, n, i, 0);
    if !r.is_completed {
        assert(s.for_pair(eid).contains(s.for_pair(eid)[0]));
        lemma_pair_planned(s, n, s.for_pair(eid)[0]);
    }
    let asked = exists|k: int|
        0 <= k < s.tasks.len() && (eid_of(#[trigger] s.tasks[k]) == Some("na/"@ + eid) || eid_of(
            s.tasks[k],
        ) == Some("ns/"@ + eid));
    if asked && eid.len() > 0 {
        let k = choose|k: int|
            0 <= k < s.tasks.len() && (eid_of(#[trigger] s.tasks[k]) == Some("na/"@ + eid)
                || eid_of(s.tasks[k]) == Some("ns/"@ + eid));
        sentinels_are_these(eid, eid);
        assert(sentinel_original(eid_of(s.tasks[k])->0) == Some(eid));
        assert(s.is_ejected(eid));
    }
    if s.is_ejected(eid) {
        let k = choose|k: int|
            0 <= k < s.tasks.len() && (eid_of(#[trigger] s.tasks[k]) matches Some(e)
                && sentinel_original(e) == Some(eid));
        sentinels_are_these(eid, eid_of(s.tasks[k])->0);
        assert(asked);
    }
}

/// Nothing is done about a pair that has lost both sides.
pub proof fn gone_pair_is_left_alone(s: Scene, n: int)
    requires
        is_own_pair(s, n),
        has_no_reminder(s, s.pairs[n].0),
        has_no_task(s, s.pairs[n].0),
    ensures
        s.for_pair(s.pairs[n].0).len() == 0,
{
    sides_are_found(s, n, 0, 0);
}

// ---------------------------------------------------------------------------
// Pairs with both sides
// ---------------------------------------------------------------------------

/// A pair with both sides: what the comparison asks of either side is done, unless the
/// pair is released; then the reminder goes, after the task has got what it asks for.
/// Nothing else is done about the pair.
pub proof fn changed_pair_is_settled(s: Scene, n: int, i: int, j: int)
    requires
        is_own_pair(s, n),
        is_reminder_of(s, s.pairs[n].0, i),
        is_task_of(s, s.pairs[n].0, j),
    ensures
        ({
            let eid = s.pairs[n].0;
            let (tu, ru) = s.changes(s.reminders[i], s.tasks[j], eid);
            let for_task = ActionView::UpdateTask {
                eid,
                updated_task: updated_task(s.tasks[j], tu, s.config.mapping, s.today),
            };
            let gone = ActionView::DeleteReminder { eid };
            &&& !tu.is_nothing() ==> s.plan().contains(for_task)
            &&& s.release.contains(eid) ==> s.plan().contains(gone) && s.for_pair(eid).last()
                == gone && s.for_pair(eid).len() == (if tu.is_nothing() {
                1int
            } else {
                2
            })
            &&& !s.release.contains(eid) && !ru.is_nothing() ==> exists|u: UpdateView|
                {
                    let for_reminder = ActionView::UpdateReminder { eid, updated_reminder: u };
                    &&& #[trigger] with_update(s.reminders[i], u) == patched(s.reminders[i], ru)
                    &&& u.eid == eid
                    &&& u.list_name == s.config.reminders_list
                    &&& s.plan().contains(for_reminder)
                    &&& s.for_pair(eid).last() == for_reminder
                }
            &&& !s.release.contains(eid) ==> s.for_pair(eid).len() == (if tu.is_nothing() {
                0int
            } else {
                1
            }) + (if ru.is_nothing() {
                0int
            } else {
                1
            })
        }),
{
    let eid = s.pairs[n].0;
    let r = s.reminders[i];
    let t = s.tasks[j];
    let (tu, ru) = s.changes(r, t, eid);
    lemma_own_pair(s, n);
    sides_are_found(s, n, i, j);
    let all = s.for_pair(eid);
    if !tu.is_nothing() {
        assert(all[0] == ActionView::UpdateTask {
            eid,
            updated_task: updated_task(t, tu, s.config.mapping, s.today),
        });
        lemma_pair_planned(s, n, all[0]);
    }
    if all.len() > 0 {
        assert(all.contains(all[all.len() - 1]));
        lemma_pair_planned(s, n, all.last());
    }
    let u = update_of(eid, ru, None, s.config.reminders_list);
    update_carries_the_changes(eid, ru, s.config, r);
    assert(with_update(r, u) == patched(r, ru));
}

/// A reminder that got a new external identifier: where exactly one pair has lost its
/// reminder and exactly one reminder is new among those with the same fields, the pair
/// goes on with that reminder, and no new task is made of it. What the comparison of the
/// two asks for is done as well, and nothing else is done about the pair.
pub proof fn moved_reminder_is_relinked(s: Scene, n: int, i: int, j: int)
    requires
        is_own_pair(s, n),
        has_no_reminder(s, s.pairs[n].0),
        is_task_of(s, s.pairs[n].0, j),
        s.pairs[n].1.reminders_field_hash != 0,
        is_reminder_of(s, s.reminders[i].external_id, i),
        !s.knows(s.reminders[i].external_id),
        fields_hash(reminder_fields(s.reminders[i])) == s.pairs[n].1.reminders_field_hash,
        forall|k: int|
            0 <= k < s.pairs.len() && k != n ==> (#[trigger] s.pairs[k]).1.reminders_field_hash
                != s.pairs[n].1.reminders_field_hash,
        forall|k: int|
            0 <= k < s.reminders.len() && k != i && (#[trigger] s.reminders[k]).list
                == s.config.reminders_list && !s.knows(s.reminders[k].external_id)
                ==> fields_hash(reminder_fields(s.reminders[k]))
                != s.pairs[n].1.reminders_field_hash,
    ensures
        ({
            let old_eid = s.pairs[n].0;
            let new_eid = s.reminders[i].external_id;
            let move_on = ActionView::RelinkEid { old_eid, new_eid };
            let (tu, ru) = s.changes(s.reminders[i], s.tasks[j], old_eid);
            &&& s.plan().contains(move_on)
            &&& s.for_pair(old_eid)[0] == move_on
            &&& !s.plan().contains(
                ActionView::CreateTask { eid: new_eid, reminder: s.reminders[i] },
            )
            &&& !tu.is_nothing() ==> s.plan().contains(
                ActionView::UpdateTask {
                    eid: new_eid,
                    updated_task: updated_task(s.tasks[j], tu, s.config.mapping, s.today),
                },
            )
            &&& !ru.is_nothing() ==> exists|u: UpdateView|
                {
                    &&& #[trigger] with_update(s.reminders[i], u) == patched(s.reminders[i], ru)
                    &&& u.eid == new_eid
                    &&& u.list_name == s.config.reminders_list
                    &&& s.plan().contains(
                        ActionView::UpdateReminder { eid: new_eid, updated_reminder: u },
                    )
                }
            &&& s.for_pair(old_eid).len() == 1 + (if tu.is_nothing() {
                0int
            } else {
                1
            }) + (if ru.is_nothing() {
                0int
            } else {
                1
            })
        }),
{
    let old_eid = s.pairs[n].0;
    let r = s.reminders[i];
    let h = s.pairs[n].1.reminders_field_hash;
    let list = s.config.reminders_list;
    lemma_own_pair(s, n);
    lemma_map_of(s.pairs);
    sides_are_found(s, n, 0, j);
    lemma_reminder_at(s.reminders, list, r.external_id, i);
    assert(s.is_lost(old_eid, h));
    assert(s.is_fresh(r.external_id, h));
    assert forall|e: Seq<char>| #[trigger] s.is_lost(e, h) implies e == old_eid by {
        let k = choose|k: int| 0 <= k < s.pairs.len() && (#[trigger] s.pairs[k]).0 == e;
        assert(s.items()[e] == s.pairs[k].1);
    }
    assert forall|e: Seq<char>| #[trigger] s.is_fresh(e, h) implies e == r.external_id by {
        lemma_found(s.reminders, list, e);
        lemma_found_in(s.reminders, list, e);
        let q = s.reminder(e)->0;
        let k = s.reminders.index_of(q);
        assert(s.reminders[k] == q);
    }
    assert(s.relinks(old_eid, r.external_id));
    let new = choose|new: Seq<char>| #[trigger] s.relinks(old_eid, new);
    assert(s.is_fresh(new, h));
    assert(new == r.external_id);
    assert(s.for_pair(old_eid)[0] == ActionView::RelinkEid { old_eid, new_eid: new });
    assert(s.for_pair(old_eid).contains(s.for_pair(old_eid)[0]));
    lemma_pair_planned(s, n, s.for_pair(old_eid)[0]);
    let t = s.tasks[j];
    let (tu, ru) = s.changes(r, t, old_eid);
    let all = s.for_pair(old_eid);
    if !tu.is_nothing() {
        assert(all[1] == ActionView::UpdateTask {
            eid: r.external_id,
            updated_task: updated_task(t, tu, s.config.mapping, s.today),
        });
        assert(all.contains(all[1]));
        lemma_pair_planned(s, n, all[1]);
    }
    let u = update_of(r.external_id, ru, None, list);
    update_carries_the_changes(r.external_id, ru, s.config, r);
    assert(with_update(r, u) == patched(r, ru));
    if !ru.is_nothing() {
        assert(all.last() == ActionView::UpdateReminder {
            eid: r.external_id,
            updated_reminder: u,
        });
        assert(all.contains(all[all.len() - 1]));
        lemma_pair_planned(s, n, all.last());
    }
    let made = ActionView::CreateTask { eid: r.external_id, reminder: r };
    if s.plan().contains(made) {
        plan_is_called_for(s);
        let k = s.plan().index_of(made);
        assert(s.is_called_for(s.plan()[k]));
    }
}

// ---------------------------------------------------------------------------
// Opting out
// ---------------------------------------------------------------------------

/// The tag of a task that names a reminder of no known pair is simplified.
pub proof fn spent_tag_is_simplified(s: Scene, i: int, eid: Seq<char>)
    requires
        0 <= i < s.tasks.len(),
        eid.len() > 0,
        !s.knows(eid),
        eid_of(s.tasks[i]) == Some("na/"@ + eid) || eid_of(s.tasks[i]) == Some("ns/"@ + eid),
    ensures
        s.plan().contains(
            ActionView::CleanSentinelTag { sentinel_eid: eid_of(s.tasks[i])->0 },
        ),
{
    let x = ActionView::CleanSentinelTag { sentinel_eid: eid_of(s.tasks[i])->0 };
    sentinels_are_these(eid, eid);
    assert(s.for_sentinel(s.tasks[i])[0] == x);
    lemma_sentinels_have(s, s.tasks.len(), i, x);
    lemma_plan_has(s, x);
}

} // verus!
