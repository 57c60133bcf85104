//! The first run: which reminders and tasks already belong together.

use crate::dates::Timestamp;
use crate::keyed::{TextMap, TextSet};
use crate::reminder::{Reminder, ReminderView};
use crate::sync::apply::{find_first, first_with, pulled_item};
use crate::sync::fields::{
    build_field_state_from_reminder, day_text, extract_title, is_sentinel, is_sentinel_eid,
    modified_at, parse_reminder_modified, reminder_fields, synced_field_hash, task_due_date,
    task_eid, task_line_hash, title_of,
};
use crate::sync::plan::{reminders_view, tasks_view};
use crate::sync::state::{ItemView, SyncItemState, SyncState};
use crate::task::{eid_of, Task, TaskView};
use crate::text::{lowercase, opt_text, to_lower, trim, trim_text};
use vstd::prelude::*;

verus! {

/// What two items have in common that belong together: the title without white
/// space around it, in lower case, and the due date.
pub open spec fn join_key(title: Seq<char>, due: Option<Seq<char>>) -> Seq<char> {
    lowercase(trim(title)) + "|"@ + match due {
        Some(d) => d,
        None => Seq::empty(),
    }
}

/// What two items have in common that belong together.
pub fn make_reconciliation_key(title: &str, due_date: Option<&str>) -> (r: String)
    ensures
        r@ == join_key(
            title@,
            match due_date {
                Some(d) => Some(d@),
                None => None,
            },
        ),
{
    let trimmed = trim_text(title);
    let key = to_lower(trimmed.as_str()).concat("|");
    match due_date {
        Some(d) => key.concat(d),
        None => {
            assert(key@ =~= key@ + Seq::<char>::empty());
            key
        },
    }
}

/// The key of a reminder.
pub open spec fn reminder_key(r: ReminderView) -> Seq<char> {
    join_key(r.title, r.due_date)
}

/// The key of a task.
pub open spec fn task_key(t: TaskView) -> Seq<char> {
    join_key(title_of(t), day_text(t.due_date))
}

/// Whether the reminder at position `i` is free to be joined by its key.
pub open spec fn is_free_reminder(rs: Seq<ReminderView>, taken: Set<Seq<char>>, i: int) -> bool {
    0 <= i < rs.len() && !taken.contains(rs[i].external_id)
}

/// Whether the task at position `j` is free to be joined by its key: it is not
/// taken and does not opt out.
pub open spec fn is_free_task(ts: Seq<TaskView>, taken: Set<int>, j: int) -> bool {
    0 <= j < ts.len() && !taken.contains(j) && !(eid_of(ts[j]) matches Some(e) && is_sentinel(e))
}

/// Whether a reminder and a task belong together: they have the same key, and no
/// other free reminder or task has it.
pub open spec fn are_partners(
    rs: Seq<ReminderView>,
    ts: Seq<TaskView>,
    taken_eids: Set<Seq<char>>,
    taken_tasks: Set<int>,
    i: int,
    j: int,
) -> bool {
    let key = reminder_key(rs[i]);
    &&& is_free_reminder(rs, taken_eids, i)
    &&& is_free_task(ts, taken_tasks, j)
    &&& task_key(ts[j]) == key
    &&& forall|i2: int| #[trigger]
        is_free_reminder(rs, taken_eids, i2) && reminder_key(rs[i2]) == key ==> i2 == i
    &&& forall|j2: int| #[trigger]
        is_free_task(ts, taken_tasks, j2) && task_key(ts[j2]) == key ==> j2 == j
}

/// The partners among the first `n` reminders: external identifier and position
/// of the task.
pub open spec fn partners(
    rs: Seq<ReminderView>,
    ts: Seq<TaskView>,
    taken_eids: Set<Seq<char>>,
    taken_tasks: Set<int>,
    n: nat,
) -> Seq<(Seq<char>, int)>
    decreases n,
{
    if n == 0 {
        Seq::empty()
    } else {
        let front = partners(rs, ts, taken_eids, taken_tasks, (n - 1) as nat);
        if exists|j: int| #[trigger] are_partners(rs, ts, taken_eids, taken_tasks, n - 1, j) {
            let j = choose|j: int| #[trigger]
                are_partners(rs, ts, taken_eids, taken_tasks, n - 1, j);
            front.push((rs[n - 1].external_id, j))
        } else {
            front
        }
    }
}

/// The content of a list of joined pairs.
pub open spec fn joined_view(v: Seq<(String, usize)>) -> Seq<(Seq<char>, int)> {
    v.map_values(|p: (String, usize)| (p.0@, p.1 as int))
}

/// The position of the first reminder with an external identifier, or the number
/// of reminders.
pub open spec fn first_reminder(rs: Seq<ReminderView>, eid: Seq<char>) -> nat
    decreases rs.len(),
{
    if rs.len() == 0 || rs[0].external_id == eid {
        0
    } else {
        1 + first_reminder(rs.skip(1), eid)
    }
}

/// The pair of a reminder and a task that both sides agree on.
pub open spec fn initial_item(
    eid: Seq<char>,
    r: ReminderView,
    t: TaskView,
    now: Timestamp,
) -> ItemView {
    pulled_item(eid, reminder_fields(r), modified_at(r), t, now)
}

/// The pairs of the first `n` reminders that a task carries the external
/// identifier of.
pub open spec fn matched_items(
    rs: Seq<ReminderView>,
    ts: Seq<TaskView>,
    now: Timestamp,
    n: nat,
) -> Map<Seq<char>, ItemView>
    decreases n,
{
    if n == 0 {
        Map::empty()
    } else {
        let front = matched_items(rs, ts, now, (n - 1) as nat);
        let r = rs[n - 1];
        let i = first_with(ts, r.external_id) as int;
        if i < ts.len() {
            front.insert(r.external_id, initial_item(r.external_id, r, ts[i], now))
        } else {
            front
        }
    }
}

/// The external identifiers of reminders that a task carries.
pub open spec fn matched_eids(rs: Seq<ReminderView>, ts: Seq<TaskView>, n: nat) -> Set<Seq<char>> {
    Set::new(
        |e: Seq<char>|
            exists|k: int|
                0 <= k < n && (#[trigger] rs[k]).external_id == e && first_with(ts, e) < ts.len(),
    )
}

/// The positions of tasks that are the first to carry the external identifier of
/// a reminder.
pub open spec fn matched_tasks(rs: Seq<ReminderView>, ts: Seq<TaskView>, n: nat) -> Set<int> {
    Set::new(
        |j: int|
            exists|k: int|
                0 <= k < n && first_with(ts, (#[trigger] rs[k]).external_id) == j && j < ts.len(),
    )
}

/// Pairs with those of joined items added.
pub open spec fn with_joined(
    items: Map<Seq<char>, ItemView>,
    joined: Seq<(Seq<char>, int)>,
    rs: Seq<ReminderView>,
    ts: Seq<TaskView>,
    now: Timestamp,
) -> Map<Seq<char>, ItemView>
    decreases joined.len(),
{
    if joined.len() == 0 {
        items
    } else {
        let (eid, j) = joined.last();
        with_joined(items, joined.drop_last(), rs, ts, now).insert(
            eid,
            initial_item(eid, rs[first_reminder(rs, eid) as int], ts[j], now),
        )
    }
}

/// The items that are joined by their keys on the first run.
pub open spec fn initial_partners(rs: Seq<ReminderView>, ts: Seq<TaskView>) -> Seq<
    (Seq<char>, int),
> {
    partners(rs, ts, matched_eids(rs, ts, rs.len()), matched_tasks(rs, ts, rs.len()), rs.len())
}

/// The pairs that are known after the first run's matching.
pub open spec fn initial_items(rs: Seq<ReminderView>, ts: Seq<TaskView>, now: Timestamp) -> Map<
    Seq<char>,
    ItemView,
> {
    with_joined(matched_items(rs, ts, now, rs.len()), initial_partners(rs, ts), rs, ts, now)
}

// ---------------------------------------------------------------------------
// Joining by key
// ---------------------------------------------------------------------------

/// The keys of the free reminders.
fn reminder_keys(reminders: &[Reminder], taken: &TextSet) -> (keys: Vec<Option<String>>)
    ensures
        keys@.len() == reminders@.len(),
        forall|i: int|
            0 <= i < keys@.len() ==> match #[trigger] keys@[i] {
                Some(k) => is_free_reminder(reminders_view(reminders@), taken@, i) && k@
                    == reminder_key(reminders@[i]@),
                None => !is_free_reminder(reminders_view(reminders@), taken@, i),
            },
{
    let ghost rs = reminders_view(reminders@);
    let mut out: Vec<Option<String>> = Vec::new();
    for i in 0..reminders.len()
        invariant
            rs == reminders_view(reminders@),
            out@.len() == i,
            forall|k: int|
                0 <= k < out@.len() ==> match #[trigger] out@[k] {
                    Some(x) => is_free_reminder(rs, taken@, k) && x@ == reminder_key(
                        reminders@[k]@,
                    ),
                    None => !is_free_reminder(rs, taken@, k),
                },
    {
        let r = &reminders[i];
        assert(rs[i as int] == r@);
        if taken.contains(r.external_id.as_str()) {
            out.push(None);
        } else {
            let due: Option<&str> = match &r.due_date {
                Some(d) => Some(d.as_str()),
                None => None,
            };
            out.push(Some(make_reconciliation_key(r.title.as_str(), due)));
        }
    }
    out
}

/// Whether a list of positions holds a position.
fn holds(v: &Vec<usize>, x: usize) -> (r: bool)
    ensures
        r == v@.contains(x),
{
    for i in 0..v.len()
        invariant
            forall|j: int| 0 <= j < i ==> #[trigger] v@[j] != x,
    {
        if v[i] == x {
            return true;
        }
    }
    false
}

/// The positions of a list as a set.
pub open spec fn position_set(v: Seq<usize>) -> Set<int> {
    Set::new(|j: int| exists|k: int| 0 <= k < v.len() && (#[trigger] v[k]) == j)
}

/// The keys of the free tasks.
fn task_keys(tasks: &[Task], taken: &Vec<usize>) -> (keys: Vec<Option<String>>)
    ensures
        keys@.len() == tasks@.len(),
        forall|i: int|
            0 <= i < keys@.len() ==> match #[trigger] keys@[i] {
                Some(k) => is_free_task(tasks_view(tasks@), position_set(taken@), i) && k@
                    == task_key(tasks@[i]@),
                None => !is_free_task(tasks_view(tasks@), position_set(taken@), i),
            },
{
    let ghost ts = tasks_view(tasks@);
    let ghost set = position_set(taken@);
    let mut out: Vec<Option<String>> = Vec::new();
    for i in 0..tasks.len()
        invariant
            ts == tasks_view(tasks@),
            set == position_set(taken@),
            out@.len() == i,
            forall|k: int|
                0 <= k < out@.len() ==> match #[trigger] out@[k] {
                    Some(x) => is_free_task(ts, set, k) && x@ == task_key(tasks@[k]@),
                    None => !is_free_task(ts, set, k),
                },
    {
        let t = &tasks[i];
        assert(ts[i as int] == t@);
        let sentinel: bool = match task_eid(t) {
            Some(e) => is_sentinel_eid(e),
            None => false,
        };
        let used: bool = holds(taken, i);
        proof {
            if used {
                let k = taken@.index_of(i);
                assert(taken@[k] == i);
            }
            assert(used == set.contains(i as int));
        }
        if used || sentinel {
            out.push(None);
        } else {
            let title = extract_title(t);
            let due = task_due_date(t);
            let due_ref: Option<&str> = match &due {
                Some(d) => Some(d.as_str()),
                None => None,
            };
            out.push(Some(make_reconciliation_key(title.as_str(), due_ref)));
        }
    }
    out
}

/// The only position with a key.
fn only_position(keys: &Vec<Option<String>>, key: &String) -> (r: Option<usize>)
    ensures
        match r {
            Some(i) => i < keys@.len() && opt_text(keys@[i as int]) == Some(key@) && forall|j: int|
                0 <= j < keys@.len() && opt_text(#[trigger] keys@[j]) == Some(key@) ==> j == i,
            None => forall|i: int|
                0 <= i < keys@.len() && opt_text(#[trigger] keys@[i]) == Some(key@)
                    ==> exists|j: int|
                    0 <= j < keys@.len() && j != i && opt_text(#[trigger] keys@[j]) == Some(key@),
        },
{
    let mut found: Option<usize> = None;
    for i in 0..keys.len()
        invariant
            match found {
                Some(k) => k < i && opt_text(keys@[k as int]) == Some(key@) && forall|j: int|
                    0 <= j < i && opt_text(#[trigger] keys@[j]) == Some(key@) ==> j == k,
                None => forall|j: int|
                    0 <= j < i ==> opt_text(#[trigger] keys@[j]) != Some(key@),
            },
    {
        let hit: bool = match &keys[i] {
            Some(k) => *k == *key,
            None => false,
        };
        if hit {
            if let Some(k) = found {
                proof {
                    assert(opt_text(keys@[k as int]) == Some(key@));
                    assert(opt_text(keys@[i as int]) == Some(key@));
                    assert forall|x: int|
                        0 <= x < keys@.len() && opt_text(#[trigger] keys@[x]) == Some(
                            key@,
                        ) implies exists|j: int|
                        0 <= j < keys@.len() && j != x && opt_text(#[trigger] keys@[j]) == Some(
                            key@,
                        ) by {
                        if x == k {
                            assert(opt_text(keys@[i as int]) == Some(key@));
                        } else {
                            assert(opt_text(keys@[k as int]) == Some(key@));
                        }
                    }
                }
                return None;
            }
            found = Some(i);
        }
    }
    found
}

/// Joins free reminders and free tasks with the same title and due date. A key
/// that occurs more than once on either side joins nothing.
pub fn reconcile_unmatched_by_title(
    reminders: &[Reminder],
    tasks: &[Task],
    matched_eids: &TextSet,
    matched_indices: &Vec<usize>,
) -> (r: Vec<(String, usize)>)
    ensures
        joined_view(r@) == partners(
            reminders_view(reminders@),
            tasks_view(tasks@),
            matched_eids@,
            position_set(matched_indices@),
            reminders@.len(),
        ),
        forall|k: int| 0 <= k < r@.len() ==> (#[trigger] r@[k]).1 < tasks@.len(),
        forall|k: int|
            0 <= k < r@.len() ==> exists|i: int|
                0 <= i < reminders@.len() && (#[trigger] reminders@[i])@.external_id
                    == #[trigger] r@[k].0@,
{
    let ghost rs = reminders_view(reminders@);
    let ghost ts = tasks_view(tasks@);
    let ghost te = matched_eids@;
    let ghost tt = position_set(matched_indices@);
    let r_keys = reminder_keys(reminders, matched_eids);
    let t_keys = task_keys(tasks, matched_indices);
    let mut out: Vec<(String, usize)> = Vec::new();
    assert(joined_view(out@) =~= partners(rs, ts, te, tt, 0));
    for i in 0..reminders.len()
        invariant
            rs == reminders_view(reminders@),
            ts == tasks_view(tasks@),
            te == matched_eids@,
            tt == position_set(matched_indices@),
            r_keys@.len() == reminders@.len(),
            t_keys@.len() == tasks@.len(),
            forall|k: int|
                0 <= k < r_keys@.len() ==> match #[trigger] r_keys@[k] {
                    Some(x) => is_free_reminder(rs, te, k) && x@ == reminder_key(reminders@[k]@),
                    None => !is_free_reminder(rs, te, k),
                },
            forall|k: int|
                0 <= k < t_keys@.len() ==> match #[trigger] t_keys@[k] {
                    Some(x) => is_free_task(ts, tt, k) && x@ == task_key(tasks@[k]@),
                    None => !is_free_task(ts, tt, k),
                },
            joined_view(out@) == partners(rs, ts, te, tt, i as nat),
            forall|k: int| 0 <= k < out@.len() ==> (#[trigger] out@[k]).1 < tasks@.len(),
            forall|k: int|
                0 <= k < out@.len() ==> exists|x: int|
                    0 <= x < reminders@.len() && (#[trigger] reminders@[x])@.external_id
                        == #[trigger] out@[k].0@,
    {
        let ghost before = out@;
        let mut partner: Option<usize> = None;
        if let Some(key) = &r_keys[i] {
            if let Some(only) = only_position(&r_keys, key) {
                if let Some(j) = only_position(&t_keys, key) {
                    partner = Some(j);
                    proof {
                        assert(r_keys@[i as int] is Some);
                        assert(opt_text(r_keys@[i as int]) == Some(key@));
                        assert(rs[i as int] == reminders@[i as int]@);
                        assert(opt_text(t_keys@[j as int]) == Some(key@));
                        assert(ts[j as int] == tasks@[j as int]@);
                        assert forall|i2: int| #[trigger]
                            is_free_reminder(rs, te, i2) && reminder_key(rs[i2]) == key@ implies i2
                            == i by {
                            assert(r_keys@[i2] is Some);
                            assert(rs[i2] == reminders@[i2]@);
                            assert(opt_text(r_keys@[i2]) == Some(key@));
                        }
                        assert forall|j2: int| #[trigger]
                            is_free_task(ts, tt, j2) && task_key(ts[j2]) == key@ implies j2 == j by {
                            assert(t_keys@[j2] is Some);
                            assert(ts[j2] == tasks@[j2]@);
                            assert(opt_text(t_keys@[j2]) == Some(key@));
                        }
                        assert(are_partners(rs, ts, te, tt, i as int, j as int));
                        let c = choose|c: int| #[trigger]
                            are_partners(rs, ts, te, tt, i as int, c);
                        assert(is_free_task(ts, tt, c) && task_key(ts[c]) == key@);
                        assert(c == j);
                    }
                } else {
                    proof {
                        assert forall|j: int| !are_partners(rs, ts, te, tt, i as int, j) by {
                            if are_partners(rs, ts, te, tt, i as int, j) {
                                assert(rs[i as int] == reminders@[i as int]@);
                                assert(t_keys@[j] is Some);
                                assert(ts[j] == tasks@[j]@);
                                assert(opt_text(t_keys@[j]) == Some(key@));
                                let j2 = choose|j2: int|
                                    0 <= j2 < t_keys@.len() && j2 != j && opt_text(
                                        #[trigger] t_keys@[j2],
                                    ) == Some(key@);
                                assert(ts[j2] == tasks@[j2]@);
                                assert(is_free_task(ts, tt, j2) && task_key(ts[j2]) == key@);
                            }
                        }
                    }
                }
            } else {
                proof {
                    assert forall|j: int| !are_partners(rs, ts, te, tt, i as int, j) by {
                        if are_partners(rs, ts, te, tt, i as int, j) {
                            assert(rs[i as int] == reminders@[i as int]@);
                            assert(opt_text(r_keys@[i as int]) == Some(key@));
                            let i2 = choose|i2: int|
                                0 <= i2 < r_keys@.len() && i2 != i && opt_text(
                                    #[trigger] r_keys@[i2],
                                ) == Some(key@);
                            assert(rs[i2] == reminders@[i2]@);
                            assert(is_free_reminder(rs, te, i2) && reminder_key(rs[i2]) == key@);
                        }
                    }
                }
            }
        } else {
            proof {
                assert(r_keys@[i as int] is None);
            }
        }
        if let Some(j) = partner {
            out.push((reminders[i].external_id.clone(), j));
            assert(rs[i as int] == reminders@[i as int]@);
            assert(joined_view(out@) =~= joined_view(before).push(
                (reminders@[i as int]@.external_id, j as int),
            ));
            proof {
                assert forall|k: int| 0 <= k < out@.len() implies exists|x: int|
                    0 <= x < reminders@.len() && (#[trigger] reminders@[x])@.external_id
                        == #[trigger] out@[k].0@ by {
                    if k < before.len() {
                        assert(out@[k] == before[k]);
                    } else {
                        assert(reminders@[i as int]@.external_id == out@[k].0@);
                    }
                }
            }
        }
    }
    out
}

// ---------------------------------------------------------------------------
// The first state
// ---------------------------------------------------------------------------

/// The position of the first reminder with an external identifier, or the number
/// of reminders.
fn reminder_with(reminders: &[Reminder], eid: &String) -> (r: usize)
    ensures
        r == first_reminder(reminders_view(reminders@), eid@),
        r <= reminders@.len(),
        r == reminders@.len() ==> forall|k: int|
            0 <= k < reminders@.len() ==> (#[trigger] reminders@[k])@.external_id != eid@,
{
    let ghost rs = reminders_view(reminders@);
    assert(rs.skip(0) =~= rs);
    for i in 0..reminders.len()
        invariant
            rs == reminders_view(reminders@),
            first_reminder(rs, eid@) == i + first_reminder(rs.skip(i as int), eid@),
            forall|k: int| 0 <= k < i ==> (#[trigger] reminders@[k])@.external_id != eid@,
    {
        assert(rs.skip(i as int)[0] == reminders@[i as int]@);
        assert(rs.skip(i as int).skip(1) =~= rs.skip(i + 1));
        if reminders[i].external_id == *eid {
            return i;
        }
    }
    reminders.len()
}

fn new_initial_item(eid: &String, r: &Reminder, t: &Task, now: Timestamp) -> (item: SyncItemState)
    ensures
        item@ == initial_item(eid@, r@, t@, now),
{
    let fields = build_field_state_from_reminder(r);
    let field_hash: u64 = synced_field_hash(&fields);
    SyncItemState {
        eid: eid.clone(),
        fields,
        reminders_last_modified: parse_reminder_modified(r),
        task_line_hash: task_line_hash(t),
        reminders_field_hash: field_hash,
        last_synced: now,
        pushed: false,
    }
}

/// The state to start from on the first run. Reminders whose external identifier
/// a task carries are paired with it; then the others are joined by title and
/// due date. The joined ones are given as well, with the positions of their
/// tasks, which still have to get the external identifiers.
pub fn build_initial_state(reminders: &[Reminder], tasks: &[Task], now: Timestamp) -> (r: (
    SyncState,
    Vec<(String, usize)>,
))
    ensures
        r.0@.items == initial_items(reminders_view(reminders@), tasks_view(tasks@), now),
        r.0@.last_sync_time == Some(now),
        joined_view(r.1@) == initial_partners(reminders_view(reminders@), tasks_view(tasks@)),
        forall|k: int| 0 <= k < r.1@.len() ==> (#[trigger] r.1@[k]).1 < tasks@.len(),
{
    let ghost rs = reminders_view(reminders@);
    let ghost ts = tasks_view(tasks@);
    let mut items: TextMap<SyncItemState> = TextMap::new();
    let mut eids = TextSet::new();
    let mut taken: Vec<usize> = Vec::new();
    assert(eids@ =~= matched_eids(rs, ts, 0));
    assert(position_set(taken@) =~= matched_tasks(rs, ts, 0));
    for i in 0..reminders.len()
        invariant
            rs == reminders_view(reminders@),
            ts == tasks_view(tasks@),
            items@ == matched_items(rs, ts, now, i as nat),
            eids@ == matched_eids(rs, ts, i as nat),
            position_set(taken@) == matched_tasks(rs, ts, i as nat),
    {
        let r = &reminders[i];
        assert(rs[i as int] == r@);
        let p: usize = find_first(tasks, &r.external_id);
        let ghost eids_before = eids@;
        let ghost taken_before = taken@;
        if p < tasks.len() {
            assert(ts[p as int] == tasks@[p as int]@);
            let item = new_initial_item(&r.external_id, r, &tasks[p], now);
            items.insert(r.external_id.clone(), item);
            eids.insert(r.external_id.clone());
            taken.push(p);
        }
        proof {
            assert(eids@ =~= matched_eids(rs, ts, (i + 1) as nat)) by {
                assert forall|e: Seq<char>| eids@.contains(e) <==> matched_eids(
                    rs,
                    ts,
                    (i + 1) as nat,
                ).contains(e) by {
                    if eids_before.contains(e) {
                        let k = choose|k: int|
                            0 <= k < i && (#[trigger] rs[k]).external_id == e && first_with(ts, e)
                                < ts.len();
                        assert(rs[k].external_id == e);
                    }
                    if p < ts.len() && e == r@.external_id {
                        assert(rs[i as int].external_id == e);
                    }
                }
            }
            assert(position_set(taken@) =~= matched_tasks(rs, ts, (i + 1) as nat)) by {
                assert forall|j: int| position_set(taken@).contains(j) <==> matched_tasks(
                    rs,
                    ts,
                    (i + 1) as nat,
                ).contains(j) by {
                    if position_set(taken_before).contains(j) {
                        assert(matched_tasks(rs, ts, i as nat).contains(j));
                        let k = choose|k: int|
                            0 <= k < i && first_with(ts, (#[trigger] rs[k]).external_id) == j && j
                                < ts.len();
                        assert(first_with(ts, rs[k].external_id) == j);
                        let m = choose|m: int|
                            0 <= m < taken_before.len() && (#[trigger] taken_before[m]) == j;
                        assert(taken@[m] == j);
                    }
                    if p < ts.len() && j == p {
                        assert(taken@[taken_before.len() as int] == j);
                        assert(first_with(ts, rs[i as int].external_id) == j);
                    }
                    if position_set(taken@).contains(j) {
                        let m = choose|m: int| 0 <= m < taken@.len() && (#[trigger] taken@[m]) == j;
                        if m < taken_before.len() {
                            assert(taken_before[m] == j);
                            assert(position_set(taken_before).contains(j));
                        }
                    }
                    if matched_tasks(rs, ts, (i + 1) as nat).contains(j) {
                        let k = choose|k: int|
                            0 <= k < i + 1 && first_with(ts, (#[trigger] rs[k]).external_id) == j
                                && j < ts.len();
                        if k < i {
                            assert(matched_tasks(rs, ts, i as nat).contains(j));
                            assert(position_set(taken_before).contains(j));
                        }
                    }
                }
            }
        }
    }
    let joined = reconcile_unmatched_by_title(reminders, tasks, &eids, &taken);
    let ghost jv = joined_view(joined@);
    let ghost matched = items@;
    assert(jv.take(0) =~= Seq::<(Seq<char>, int)>::empty());
    for k in 0..joined.len()
        invariant
            rs == reminders_view(reminders@),
            ts == tasks_view(tasks@),
            jv == joined_view(joined@),
            forall|k: int| 0 <= k < joined@.len() ==> (#[trigger] joined@[k]).1 < tasks@.len(),
            forall|k: int|
                0 <= k < joined@.len() ==> exists|i: int|
                    0 <= i < reminders@.len() && (#[trigger] reminders@[i])@.external_id
                        == #[trigger] joined@[k].0@,
            items@ == with_joined(matched, jv.take(k as int), rs, ts, now),
    {
        let eid = &joined[k].0;
        let j: usize = joined[k].1;
        let ghost more = jv.take(k + 1);
        assert(more.drop_last() =~= jv.take(k as int));
        assert(more.last() == (eid@, j as int));
        let p: usize = reminder_with(reminders, eid);
        assert(joined@[k as int].0@ == eid@);
        assert(p < reminders@.len());
        assert(rs[p as int] == reminders@[p as int]@);
        assert(ts[j as int] == tasks@[j as int]@);
        let item = new_initial_item(eid, &reminders[p], &tasks[j], now);
        items.insert(eid.clone(), item);
    }
    assert(jv.take(jv.len() as int) =~= jv);
    (SyncState { items, last_sync_time: Some(now) }, joined)
}

} // verus!
