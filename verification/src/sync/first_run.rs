//! What the first run joins.

use crate::dates::Timestamp;
use crate::reminder::ReminderView;
use crate::sync::apply::first_with;
use crate::sync::bootstrap::{
    are_partners, first_reminder, initial_items, initial_partners, is_free_reminder, is_free_task,
    join_key, matched_eids, matched_items, matched_tasks, partners, reminder_key, task_key,
    with_joined,
};
use crate::sync::check::lemma_first_with;
use crate::sync::complete::{opts_out, sentinels_are_these};
use crate::sync::effects::{is_first_with, lemma_first_reminder_at, remembers};
use crate::sync::faithful::{lemma_first_at, written_time};
use crate::sync::fields::{day_text, title_of};
use crate::sync::laws::{is_joined, lemma_partner_positions};
use crate::sync::state::ItemView;
use crate::task::{eid_of, TaskView};
use crate::text::{lowercase, trim};
use vstd::prelude::*;

verus! {

/// Titles that differ in case and outer white space alone, with the same due date, have
/// the same key. Due dates that differ make keys differ, whatever the titles are, as
/// long as they hold no bar; and so do titles. No due date differs from every due date
/// that is not empty.
pub proof fn key_is_title_and_due(
    a: Seq<char>,
    b: Seq<char>,
    d: Option<Seq<char>>,
    e: Option<Seq<char>>,
)
    requires
        d matches Some(x) ==> x.len() > 0 && !x.contains('|'),
        e matches Some(x) ==> x.len() > 0 && !x.contains('|'),
    ensures
        join_key(a, d) == join_key(b, e) <==> d == e && lowercase(trim(a)) == lowercase(trim(b)),
{
    reveal_strlit("|");
    let p = lowercase(trim(a));
    let q = lowercase(trim(b));
    let x = match d {
        Some(s) => s,
        None => Seq::empty(),
    };
    let y = match e {
        Some(s) => s,
        None => Seq::empty(),
    };
    let k = join_key(a, d);
    let m = join_key(b, e);
    assert(k == p + "|"@ + x);
    assert(m == q + "|"@ + y);
    if k == m {
        assert(k.len() == p.len() + 1 + x.len());
        assert(m.len() == q.len() + 1 + y.len());
        assert(k[p.len() as int] == '|');
        assert(m[q.len() as int] == '|');
        if p.len() < q.len() {
            let at = q.len() - p.len() - 1;
            assert(k[q.len() as int] == x[at]);
            assert(x.contains('|'));
        }
        if q.len() < p.len() {
            let at = p.len() - q.len() - 1;
            assert(m[p.len() as int] == y[at]);
            assert(y.contains('|'));
        }
        assert(p =~= k.take(p.len() as int));
        assert(q =~= m.take(q.len() as int));
        assert(x =~= k.skip(p.len() as int + 1));
        assert(y =~= m.skip(q.len() as int + 1));
    }
}

/// Whether no two reminders have the same external identifier.
pub open spec fn are_distinct(rs: Seq<ReminderView>) -> bool {
    forall|i: int, k: int|
        0 <= i < k < rs.len() ==> (#[trigger] rs[i]).external_id != (#[trigger] rs[k]).external_id
}

/// Whether a task carries an external identifier.
pub open spec fn is_carried(ts: Seq<TaskView>, eid: Seq<char>) -> bool {
    exists|j: int| 0 <= j < ts.len() && eid_of(#[trigger] ts[j]) == Some(eid)
}

/// Whether the reminder at a position is still to be joined: no task carries its
/// external identifier.
pub open spec fn is_open_reminder(rs: Seq<ReminderView>, ts: Seq<TaskView>, i: int) -> bool {
    0 <= i < rs.len() && !is_carried(ts, rs[i].external_id)
}

/// Whether the task at a position is still to be joined: it is not the first that
/// carries the external identifier of a reminder, and does not opt out.
pub open spec fn is_open_task(rs: Seq<ReminderView>, ts: Seq<TaskView>, j: int) -> bool {
    &&& 0 <= j < ts.len()
    &&& eid_of(ts[j]) matches Some(e) ==> !opts_out(e)
    &&& forall|k: int|
        0 <= k < rs.len() ==> !is_first_with(ts, (#[trigger] rs[k]).external_id, j)
}

proof fn lemma_open(rs: Seq<ReminderView>, ts: Seq<TaskView>)
    ensures
        forall|i: int| #[trigger]
            is_free_reminder(rs, matched_eids(rs, ts, rs.len()), i) <==> is_open_reminder(
                rs,
                ts,
                i,
            ),
        forall|j: int| #[trigger]
            is_free_task(ts, matched_tasks(rs, ts, rs.len()), j) <==> is_open_task(rs, ts, j),
{
    let te = matched_eids(rs, ts, rs.len());
    let tt = matched_tasks(rs, ts, rs.len());
    assert forall|i: int| #[trigger]
        is_free_reminder(rs, te, i) <==> is_open_reminder(rs, ts, i) by {
        if 0 <= i < rs.len() {
            let e = rs[i].external_id;
            lemma_first_with(ts, e);
            if is_carried(ts, e) {
                let j = choose|j: int| 0 <= j < ts.len() && eid_of(#[trigger] ts[j]) == Some(e);
                assert(first_with(ts, e) <= j);
                assert(te.contains(e));
            }
            if te.contains(e) {
                assert(eid_of(ts[first_with(ts, e) as int]) == Some(e));
            }
        }
    }
    assert forall|j: int| #[trigger] is_free_task(ts, tt, j) <==> is_open_task(rs, ts, j) by {
        if 0 <= j < ts.len() {
            if let Some(e) = eid_of(ts[j]) {
                sentinels_are_these(Seq::empty(), e);
            }
            if tt.contains(j) {
                let k = choose|k: int|
                    0 <= k < rs.len() && first_with(ts, (#[trigger] rs[k]).external_id) == j && j
                        < ts.len();
                lemma_first_with(ts, rs[k].external_id);
                assert(is_first_with(ts, rs[k].external_id, j));
            }
            if exists|k: int|
                0 <= k < rs.len() && is_first_with(ts, (#[trigger] rs[k]).external_id, j) {
                let k = choose|k: int|
                    0 <= k < rs.len() && is_first_with(ts, (#[trigger] rs[k]).external_id, j);
                lemma_first_at(ts, rs[k].external_id, j);
                assert(tt.contains(j));
            }
        }
    }
}

proof fn lemma_matched(rs: Seq<ReminderView>, ts: Seq<TaskView>, now: Timestamp, n: nat)
    requires
        n <= rs.len(),
        are_distinct(rs),
    ensures
        forall|e: Seq<char>| #[trigger]
            matched_items(rs, ts, now, n).dom().contains(e) <==> is_carried(ts, e) && exists|i: int|
                0 <= i < n && (#[trigger] rs[i]).external_id == e,
        forall|i: int|
            0 <= i < n && is_carried(ts, (#[trigger] rs[i]).external_id) ==> {
                let item = matched_items(rs, ts, now, n)[rs[i].external_id];
                &&& item.eid == rs[i].external_id
                &&& remembers(item, rs[i], ts[first_with(ts, rs[i].external_id) as int])
                &&& item.reminders_last_modified == written_time(rs[i])
                &&& item.last_synced == now
                &&& !item.pushed
            },
    decreases n,
{
    if n > 0 {
        let m = (n - 1) as nat;
        lemma_matched(rs, ts, now, m);
        let front = matched_items(rs, ts, now, m);
        let all = matched_items(rs, ts, now, n);
        let last = rs[n - 1].external_id;
        lemma_first_with(ts, last);
        if is_carried(ts, last) {
            let j = choose|j: int| 0 <= j < ts.len() && eid_of(#[trigger] ts[j]) == Some(last);
            assert(first_with(ts, last) <= j);
        } else if first_with(ts, last) < ts.len() {
            assert(eid_of(ts[first_with(ts, last) as int]) == Some(last));
        }
        assert forall|e: Seq<char>| #[trigger] all.dom().contains(e) <==> is_carried(ts, e)
            && exists|i: int| 0 <= i < n && (#[trigger] rs[i]).external_id == e by {
            assert(front.dom().contains(e) <==> is_carried(ts, e) && exists|i: int|
                0 <= i < m && (#[trigger] rs[i]).external_id == e);
            if e == last {
                assert(rs[n - 1].external_id == e);
            }
            if exists|i: int| 0 <= i < n && (#[trigger] rs[i]).external_id == e {
                let i = choose|i: int| 0 <= i < n && (#[trigger] rs[i]).external_id == e;
                if i < m {
                    assert(rs[i].external_id == e);
                }
            }
        }
        assert forall|i: int|
            0 <= i < n && is_carried(ts, (#[trigger] rs[i]).external_id) implies ({
            let item = all[rs[i].external_id];
            &&& item.eid == rs[i].external_id
            &&& remembers(item, rs[i], ts[first_with(ts, rs[i].external_id) as int])
            &&& item.reminders_last_modified == written_time(rs[i])
            &&& item.last_synced == now
            &&& !item.pushed
        }) by {
            if i < m {
                assert(rs[i].external_id != rs[n - 1].external_id);
                assert(all[rs[i].external_id] == front[rs[i].external_id]);
            }
        }
    }
}

proof fn lemma_joined(
    items: Map<Seq<char>, ItemView>,
    joined: Seq<(Seq<char>, int)>,
    rs: Seq<ReminderView>,
    ts: Seq<TaskView>,
    now: Timestamp,
)
    ensures
        forall|e: Seq<char>| #[trigger]
            with_joined(items, joined, rs, ts, now).dom().contains(e) <==> items.dom().contains(e)
                || exists|k: int| 0 <= k < joined.len() && (#[trigger] joined[k]).0 == e,
        forall|e: Seq<char>|
            items.dom().contains(e) && (forall|k: int|
                0 <= k < joined.len() ==> (#[trigger] joined[k]).0 != e) ==> #[trigger] with_joined(
                items,
                joined,
                rs,
                ts,
                now,
            )[e] == items[e],
        forall|k: int|
            0 <= k < joined.len() && (forall|m: int|
                k < m < joined.len() ==> (#[trigger] joined[m]).0 != joined[k].0) ==> {
                let (eid, j) = #[trigger] joined[k];
                let r = rs[first_reminder(rs, eid) as int];
                let item = with_joined(items, joined, rs, ts, now)[eid];
                &&& item.eid == eid
                &&& remembers(item, r, ts[j])
                &&& item.reminders_last_modified == written_time(r)
                &&& item.last_synced == now
                &&& !item.pushed
            },
    decreases joined.len(),
{
    if joined.len() > 0 {
        let front = joined.drop_last();
        let n = joined.len() - 1;
        lemma_joined(items, front, rs, ts, now);
        let less = with_joined(items, front, rs, ts, now);
        let all = with_joined(items, joined, rs, ts, now);
        assert(joined.last() == joined[n]);
        assert forall|e: Seq<char>| #[trigger] all.dom().contains(e) <==> items.dom().contains(e)
            || exists|k: int| 0 <= k < joined.len() && (#[trigger] joined[k]).0 == e by {
            assert(less.dom().contains(e) <==> items.dom().contains(e) || exists|k: int|
                0 <= k < front.len() && (#[trigger] front[k]).0 == e);
            if exists|k: int| 0 <= k < front.len() && (#[trigger] front[k]).0 == e {
                let k = choose|k: int| 0 <= k < front.len() && (#[trigger] front[k]).0 == e;
                assert(joined[k].0 == e);
            }
            if exists|k: int| 0 <= k < joined.len() && (#[trigger] joined[k]).0 == e {
                let k = choose|k: int| 0 <= k < joined.len() && (#[trigger] joined[k]).0 == e;
                if k < n {
                    assert(front[k].0 == e);
                }
            }
        }
        assert forall|e: Seq<char>|
            items.dom().contains(e) && (forall|k: int|
                0 <= k < joined.len() ==> (#[trigger] joined[k]).0 != e) implies #[trigger] all[e]
            == items[e] by {
            assert forall|k: int| 0 <= k < front.len() implies (#[trigger] front[k]).0 != e by {
                assert(joined[k] == front[k]);
            }
            assert(joined[n].0 != e);
            assert(less[e] == items[e]);
        }
        assert forall|k: int|
            0 <= k < joined.len() && (forall|m: int|
                k < m < joined.len() ==> (#[trigger] joined[m]).0 != joined[k].0) implies ({
            let (eid, j) = #[trigger] joined[k];
            let r = rs[first_reminder(rs, eid) as int];
            let item = all[eid];
            &&& item.eid == eid
            &&& remembers(item, r, ts[j])
            &&& item.reminders_last_modified == written_time(r)
            &&& item.last_synced == now
            &&& !item.pushed
        }) by {
            if k < n {
                assert(joined[n].0 != joined[k].0);
                assert(front[k] == joined[k]);
                assert forall|m: int| k < m < front.len() implies (#[trigger] front[m]).0
                    != front[k].0 by {
                    assert(front[m] == joined[m]);
                }
                assert(all[joined[k].0] == less[joined[k].0]);
            }
        }
    }
}

proof fn lemma_partners_have(
    rs: Seq<ReminderView>,
    ts: Seq<TaskView>,
    te: Set<Seq<char>>,
    tt: Set<int>,
    n: nat,
    i: int,
    j: int,
)
    requires
        0 <= i < n <= rs.len(),
        are_partners(rs, ts, te, tt, i, j),
    ensures
        partners(rs, ts, te, tt, n).contains((rs[i].external_id, j)),
    decreases n,
{
    let front = partners(rs, ts, te, tt, (n - 1) as nat);
    let all = partners(rs, ts, te, tt, n);
    if i < n - 1 {
        lemma_partners_have(rs, ts, te, tt, (n - 1) as nat, i, j);
        let k = front.index_of((rs[i].external_id, j));
        assert(all[k] == front[k]);
    } else {
        let c = choose|c: int| #[trigger] are_partners(rs, ts, te, tt, n - 1, c);
        assert(are_partners(rs, ts, te, tt, n - 1, c));
        assert(is_free_task(ts, tt, c));
        assert(c == j);
        assert(all.last() == (rs[i].external_id, j));
        assert(all[all.len() - 1] == (rs[i].external_id, j));
    }
}

/// What is joined: a reminder that is still to be joined.
pub(crate) proof fn lemma_joined_is_open(rs: Seq<ReminderView>, ts: Seq<TaskView>, k: int) -> (i: int)
    requires
        0 <= k < initial_partners(rs, ts).len(),
    ensures
        is_open_reminder(rs, ts, i),
        rs[i].external_id == initial_partners(rs, ts)[k].0,
        are_partners(
            rs,
            ts,
            matched_eids(rs, ts, rs.len()),
            matched_tasks(rs, ts, rs.len()),
            i,
            initial_partners(rs, ts)[k].1,
        ),
{
    let te = matched_eids(rs, ts, rs.len());
    let tt = matched_tasks(rs, ts, rs.len());
    lemma_open(rs, ts);
    lemma_partner_positions(rs, ts, te, tt, rs.len());
    let p = initial_partners(rs, ts)[k];
    assert(is_joined(rs, ts, te, tt, rs.len(), p));
    let i = choose|i: int|
        0 <= i < rs.len() && p.0 == rs[i].external_id && #[trigger] are_partners(
            rs,
            ts,
            te,
            tt,
            i,
            p.1,
        );
    assert(is_free_reminder(rs, te, i));
    i
}

/// A reminder whose external identifier a task carries forms a pair with the first such
/// task. What is remembered is what the reminder says.
pub proof fn carried_reminder_is_known(
    rs: Seq<ReminderView>,
    ts: Seq<TaskView>,
    now: Timestamp,
    i: int,
    j: int,
)
    requires
        are_distinct(rs),
        0 <= i < rs.len(),
        is_first_with(ts, rs[i].external_id, j),
    ensures
        ({
            let item = initial_items(rs, ts, now)[rs[i].external_id];
            &&& initial_items(rs, ts, now).dom().contains(rs[i].external_id)
            &&& item.eid == rs[i].external_id
            &&& remembers(item, rs[i], ts[j])
            &&& item.reminders_last_modified == written_time(rs[i])
            &&& item.last_synced == now
            &&& !item.pushed
        }),
{
    let eid = rs[i].external_id;
    let joined = initial_partners(rs, ts);
    lemma_first_at(ts, eid, j);
    assert(is_carried(ts, eid));
    lemma_matched(rs, ts, now, rs.len());
    let items = matched_items(rs, ts, now, rs.len());
    lemma_joined(items, joined, rs, ts, now);
    assert(rs[i].external_id == eid);
    assert(items.dom().contains(eid));
    assert forall|k: int| 0 <= k < joined.len() implies (#[trigger] joined[k]).0 != eid by {
        let x = lemma_joined_is_open(rs, ts, k);
    }
}

/// A reminder and a task that are still to be joined form a pair where they have the
/// same title and due date and no other such reminder or task has. The task's position is
/// handed out, and what is remembered is what the reminder says.
pub proof fn lone_partners_are_joined(
    rs: Seq<ReminderView>,
    ts: Seq<TaskView>,
    now: Timestamp,
    i: int,
    j: int,
)
    requires
        are_distinct(rs),
        is_open_reminder(rs, ts, i),
        is_open_task(rs, ts, j),
        join_key(rs[i].title, rs[i].due_date) == join_key(
            title_of(ts[j]),
            day_text(ts[j].due_date),
        ),
        forall|k: int|
            is_open_reminder(rs, ts, k) && k != i ==> join_key(
                (#[trigger] rs[k]).title,
                rs[k].due_date,
            ) != join_key(rs[i].title, rs[i].due_date),
        forall|k: int|
            is_open_task(rs, ts, k) && k != j ==> join_key(
                title_of(#[trigger] ts[k]),
                day_text(ts[k].due_date),
            ) != join_key(rs[i].title, rs[i].due_date),
    ensures
        initial_partners(rs, ts).contains((rs[i].external_id, j)),
        ({
            let item = initial_items(rs, ts, now)[rs[i].external_id];
            &&& initial_items(rs, ts, now).dom().contains(rs[i].external_id)
            &&& item.eid == rs[i].external_id
            &&& remembers(item, rs[i], ts[j])
            &&& item.reminders_last_modified == written_time(rs[i])
            &&& item.last_synced == now
            &&& !item.pushed
        }),
{
    let eid = rs[i].external_id;
    let te = matched_eids(rs, ts, rs.len());
    let tt = matched_tasks(rs, ts, rs.len());
    let joined = initial_partners(rs, ts);
    lemma_open(rs, ts);
    assert(is_free_reminder(rs, te, i));
    assert(is_free_task(ts, tt, j));
    assert forall|x: int| #[trigger]
        is_free_reminder(rs, te, x) && reminder_key(rs[x]) == reminder_key(rs[i]) implies x
        == i by {
        assert(is_open_reminder(rs, ts, x));
    }
    assert forall|x: int| #[trigger]
        is_free_task(ts, tt, x) && task_key(ts[x]) == reminder_key(rs[i]) implies x == j by {
        assert(is_open_task(rs, ts, x));
    }
    assert(are_partners(rs, ts, te, tt, i, j));
    lemma_partners_have(rs, ts, te, tt, rs.len(), i, j);
    let k = joined.index_of((eid, j));
    assert(joined[k] == (eid, j));
    lemma_joined(matched_items(rs, ts, now, rs.len()), joined, rs, ts, now);
    assert forall|m: int| k < m < joined.len() implies (#[trigger] joined[m]).0 != joined[k].0 by {
        let x = lemma_joined_is_open(rs, ts, m);
        if joined[m].0 == eid {
            assert(x == i);
            lemma_partner_positions(rs, ts, te, tt, rs.len());
            assert(joined[k].1 != joined[m].1);
            assert(is_free_task(ts, tt, joined[m].1));
        }
    }
    assert forall|m: int| 0 <= m < i implies (#[trigger] rs[m]).external_id != eid by {}
    lemma_first_reminder_at(rs, eid, i);
}

/// Nothing else forms a pair: what is known after the first run is a reminder whose
/// external identifier a task carries, or one that has a task with the same title and
/// due date, both still to be joined, and no other such reminder or task.
pub proof fn doubtful_partners_are_not_joined(
    rs: Seq<ReminderView>,
    ts: Seq<TaskView>,
    now: Timestamp,
    eid: Seq<char>,
)
    requires
        are_distinct(rs),
        initial_items(rs, ts, now).dom().contains(eid),
    ensures
        exists|i: int|
            0 <= i < rs.len() && (#[trigger] rs[i]).external_id == eid && (is_carried(ts, eid)
                || exists|j: int| #[trigger]
                is_open_task(rs, ts, j) && join_key(title_of(ts[j]), day_text(ts[j].due_date))
                    == join_key(rs[i].title, rs[i].due_date) && (forall|k: int|
                    is_open_task(rs, ts, k) && k != j ==> join_key(
                        title_of(#[trigger] ts[k]),
                        day_text(ts[k].due_date),
                    ) != join_key(rs[i].title, rs[i].due_date)) && (forall|k: int|
                    is_open_reminder(rs, ts, k) && k != i ==> join_key(
                        (#[trigger] rs[k]).title,
                        rs[k].due_date,
                    ) != join_key(rs[i].title, rs[i].due_date))),
{
    let te = matched_eids(rs, ts, rs.len());
    let tt = matched_tasks(rs, ts, rs.len());
    let joined = initial_partners(rs, ts);
    let items = matched_items(rs, ts, now, rs.len());
    lemma_matched(rs, ts, now, rs.len());
    lemma_joined(items, joined, rs, ts, now);
    lemma_open(rs, ts);
    if items.dom().contains(eid) {
        let i = choose|i: int| 0 <= i < rs.len() && (#[trigger] rs[i]).external_id == eid;
        assert(rs[i].external_id == eid);
    } else {
        let k = choose|k: int| 0 <= k < joined.len() && (#[trigger] joined[k]).0 == eid;
        let i = lemma_joined_is_open(rs, ts, k);
        let j = joined[k].1;
        assert(is_free_task(ts, tt, j));
        assert(is_open_task(rs, ts, j));
        assert forall|x: int| is_open_task(rs, ts, x) && x != j implies join_key(
            title_of(#[trigger] ts[x]),
            day_text(ts[x].due_date),
        ) != join_key(rs[i].title, rs[i].due_date) by {
            assert(is_free_task(ts, tt, x));
        }
        assert forall|x: int| is_open_reminder(rs, ts, x) && x != i implies join_key(
            (#[trigger] rs[x]).title,
            rs[x].due_date,
        ) != join_key(rs[i].title, rs[i].due_date) by {
            assert(is_free_reminder(rs, te, x));
        }
        assert(rs[i].external_id == eid);
    }
}

} // verus!
