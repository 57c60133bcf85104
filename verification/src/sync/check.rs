//! Checking that the tasks and the known pairs fit together.

use crate::sync::apply::first_with;
use crate::sync::fields::{is_sentinel, is_sentinel_eid, line_hash, task_eid, task_line_hash};
use crate::sync::plan::tasks_view;
use crate::sync::state::{ItemView, SyncState};
use crate::task::{eid_of, Task, TaskView};
use crate::text::{decimal, decimal_text, join, join_texts, texts};
use vstd::prelude::*;

verus! {

/// Whether an external identifier joins a task to a pair: it is not empty and
/// does not opt out.
pub open spec fn is_real(eid: Seq<char>) -> bool {
    eid.len() > 0 && !is_sentinel(eid)
}

/// Among the first `n` tasks, the positions of those with an external identifier.
pub open spec fn positions(ts: Seq<TaskView>, eid: Seq<char>, n: nat) -> Seq<nat>
    decreases n,
{
    if n == 0 {
        Seq::empty()
    } else if eid_of(ts[n - 1]) == Some(eid) {
        positions(ts, eid, (n - 1) as nat).push((n - 1) as nat)
    } else {
        positions(ts, eid, (n - 1) as nat)
    }
}

/// The positions of the tasks with an external identifier.
pub open spec fn all_positions(ts: Seq<TaskView>, eid: Seq<char>) -> Seq<nat> {
    positions(ts, eid, ts.len())
}

/// The decimal notations of numbers.
pub open spec fn decimals(ns: Seq<nat>) -> Seq<Seq<char>> {
    ns.map_values(|n: nat| decimal(n))
}

/// The report of an external identifier that several tasks carry.
pub open spec fn duplicate_report(eid: Seq<char>, at: Seq<nat>) -> Seq<char> {
    "duplicate eid:"@ + eid + " on "@ + decimal(at.len()) + " tasks (lines ["@ + join(
        decimals(at),
        ", "@,
    ) + "])"@
}

/// The report of a pair whose hash is not that of its task's line.
pub open spec fn mismatch_report(eid: Seq<char>, stored: u64, computed: u64) -> Seq<char> {
    "hash mismatch for eid:"@ + eid + ": state has "@ + decimal(stored as nat)
        + ", task hashes to "@ + decimal(computed as nat)
}

/// The report of a task that carries an external identifier of no known pair.
pub open spec fn orphan_report(eid: Seq<char>) -> Seq<char> {
    "task has eid:"@ + eid + " but no state entry (eid stamped without state update)"@
}

/// The external identifier that the task at position `i` is the first to carry.
pub open spec fn new_eid_at(ts: Seq<TaskView>, i: int) -> Option<Seq<char>> {
    match eid_of(ts[i]) {
        Some(e) => if is_real(e) && first_with(ts, e) == i {
            Some(e)
        } else {
            None
        },
        None => None,
    }
}

/// The reports of the external identifiers that the first `n` tasks bring in and
/// several tasks carry.
pub open spec fn duplicate_reports(ts: Seq<TaskView>, n: nat) -> Seq<Seq<char>>
    decreases n,
{
    if n == 0 {
        Seq::empty()
    } else {
        let front = duplicate_reports(ts, (n - 1) as nat);
        match new_eid_at(ts, n - 1) {
            Some(e) => if all_positions(ts, e).len() > 1 {
                front.push(duplicate_report(e, all_positions(ts, e)))
            } else {
                front
            },
            None => front,
        }
    }
}

/// Whether the one task of a pair has a line with another hash.
pub open spec fn is_mismatch(ts: Seq<TaskView>, eid: Seq<char>, item: ItemView) -> bool {
    let at = all_positions(ts, eid);
    is_real(eid) && at.len() == 1 && line_hash(ts[at[0] as int]) != item.task_line_hash
}

/// The reports of the first `n` pairs whose hash is not that of their task's line.
pub open spec fn mismatch_reports(
    ts: Seq<TaskView>,
    pairs: Seq<(Seq<char>, ItemView)>,
    n: nat,
) -> Seq<Seq<char>>
    decreases n,
{
    if n == 0 {
        Seq::empty()
    } else {
        let front = mismatch_reports(ts, pairs, (n - 1) as nat);
        let (e, item) = pairs[n - 1];
        if is_mismatch(ts, e, item) {
            front.push(
                mismatch_report(
                    e,
                    item.task_line_hash,
                    line_hash(ts[all_positions(ts, e)[0] as int]),
                ),
            )
        } else {
            front
        }
    }
}

/// The reports of the external identifiers that the first `n` tasks bring in and
/// that belong to no known pair.
pub open spec fn orphan_reports(
    ts: Seq<TaskView>,
    items: Map<Seq<char>, ItemView>,
    n: nat,
) -> Seq<Seq<char>>
    decreases n,
{
    if n == 0 {
        Seq::empty()
    } else {
        let front = orphan_reports(ts, items, (n - 1) as nat);
        match new_eid_at(ts, n - 1) {
            Some(e) => if items.dom().contains(e) {
                front
            } else {
                front.push(orphan_report(e))
            },
            None => front,
        }
    }
}

/// Everything that is wrong between the tasks and the known pairs.
pub open spec fn reports(
    ts: Seq<TaskView>,
    pairs: Seq<(Seq<char>, ItemView)>,
    items: Map<Seq<char>, ItemView>,
) -> Seq<Seq<char>> {
    duplicate_reports(ts, ts.len()) + mismatch_reports(ts, pairs, pairs.len()) + orphan_reports(
        ts,
        items,
        ts.len(),
    )
}

/// The positions of the tasks with an external identifier.
fn find_positions(tasks: &[Task], eid: &str) -> (r: Vec<usize>)
    ensures
        r@.map_values(|i: usize| i as nat) == all_positions(tasks_view(tasks@), eid@),
        forall|k: int| 0 <= k < r@.len() ==> (#[trigger] r@[k]) < tasks@.len(),
{
    let ghost ts = tasks_view(tasks@);
    let key = eid.to_owned();
    let mut out: Vec<usize> = Vec::new();
    assert(out@.map_values(|i: usize| i as nat) =~= positions(ts, eid@, 0));
    for i in 0..tasks.len()
        invariant
            ts == tasks_view(tasks@),
            key@ == eid@,
            out@.map_values(|i: usize| i as nat) == positions(ts, eid@, i as nat),
            forall|k: int| 0 <= k < out@.len() ==> (#[trigger] out@[k]) < tasks@.len(),
    {
        assert(ts[i as int] == tasks@[i as int]@);
        let ghost before = out@.map_values(|i: usize| i as nat);
        let hit: bool = match tasks[i].eid() {
            Some(e) => *e == key,
            None => false,
        };
        if hit {
            out.push(i);
            assert(out@.map_values(|i: usize| i as nat) =~= before.push(i as nat));
        }
    }
    out
}

/// The external identifier that the task at position `i` is the first to carry.
fn brings_eid(tasks: &[Task], i: usize) -> (r: Option<&str>)
    requires
        i < tasks@.len(),
    ensures
        (match r {
            Some(e) => Some(e@),
            None => None,
        }) == new_eid_at(tasks_view(tasks@), i as int),
{
    let ghost ts = tasks_view(tasks@);
    assert(ts[i as int] == tasks@[i as int]@);
    match task_eid(&tasks[i]) {
        Some(e) => {
            if e.is_empty() || is_sentinel_eid(e) {
                return None;
            }
            let at = find_positions(tasks, e);
            proof {
                lemma_first_position(ts, e@, ts.len(), i as int);
                assert(at@.map_values(|i: usize| i as nat).len() == at@.len());
                assert(at@.map_values(|i: usize| i as nat)[0] == at@[0] as nat);
            }
            if at[0] == i {
                Some(e)
            } else {
                None
            }
        },
        None => None,
    }
}

/// The first of the positions is that of the first task.
proof fn lemma_first_position(ts: Seq<TaskView>, eid: Seq<char>, n: nat, i: int)
    requires
        n <= ts.len(),
        0 <= i < n,
        eid_of(ts[i]) == Some(eid),
    ensures
        positions(ts, eid, n).len() > 0,
        positions(ts, eid, n)[0] == first_with(ts, eid),
        first_with(ts, eid) <= i,
    decreases n,
{
    let f = first_with(ts, eid) as int;
    lemma_first_with(ts, eid);
    assert(f <= i) by {
        if i < f {
            assert(eid_of(ts[i]) != Some(eid));
        }
    }
    if f < n - 1 {
        lemma_first_position(ts, eid, (n - 1) as nat, f);
    } else {
        lemma_no_positions(ts, eid, f as nat);
    }
}

/// No task before the first one carries the external identifier; the first does.
pub proof fn lemma_first_with(ts: Seq<TaskView>, eid: Seq<char>)
    ensures
        first_with(ts, eid) <= ts.len(),
        forall|j: int| 0 <= j < first_with(ts, eid) ==> eid_of(#[trigger] ts[j]) != Some(eid),
        first_with(ts, eid) < ts.len() ==> eid_of(ts[first_with(ts, eid) as int]) == Some(eid),
    decreases ts.len(),
{
    if ts.len() > 0 && eid_of(ts[0]) != Some(eid) {
        lemma_first_with(ts.skip(1), eid);
        let f = first_with(ts.skip(1), eid);
        assert forall|j: int| 0 <= j < first_with(ts, eid) implies eid_of(#[trigger] ts[j]) != Some(
            eid,
        ) by {
            if j > 0 {
                assert(ts[j] == ts.skip(1)[j - 1]);
            }
        }
        if f + 1 < ts.len() {
            assert(ts.skip(1)[f as int] == ts[f as int + 1]);
        }
    }
}

proof fn lemma_no_positions(ts: Seq<TaskView>, eid: Seq<char>, n: nat)
    requires
        n <= ts.len(),
        n <= first_with(ts, eid),
    ensures
        positions(ts, eid, n).len() == 0,
    decreases n,
{
    if n > 0 {
        lemma_first_with(ts, eid);
        assert(eid_of(ts[n - 1]) != Some(eid));
        lemma_no_positions(ts, eid, (n - 1) as nat);
    }
}

/// The decimal notations of positions, separated by commas.
fn list_positions(at: &Vec<usize>) -> (r: String)
    ensures
        r@ == join(decimals(at@.map_values(|i: usize| i as nat)), ", "@),
{
    let ghost wanted = decimals(at@.map_values(|i: usize| i as nat));
    let mut parts: Vec<String> = Vec::new();
    assert(texts(parts@) =~= wanted.take(0));
    for k in 0..at.len()
        invariant
            wanted == decimals(at@.map_values(|i: usize| i as nat)),
            texts(parts@) == wanted.take(k as int),
            parts@.len() == k,
    {
        parts.push(decimal_text(at[k] as u64));
        assert(wanted[k as int] == decimal(at@[k as int] as nat));
        assert(texts(parts@) =~= wanted.take(k + 1));
    }
    assert(wanted.take(wanted.len() as int) =~= wanted);
    join_texts(&parts, ", ")
}

fn report_duplicate(eid: &str, at: &Vec<usize>) -> (r: String)
    ensures
        r@ == duplicate_report(eid@, at@.map_values(|i: usize| i as nat)),
{
    let list = list_positions(at);
    let count = decimal_text(at.len() as u64);
    "duplicate eid:".to_owned().concat(eid).concat(" on ").concat(count.as_str()).concat(
        " tasks (lines [",
    ).concat(list.as_str()).concat("])")
}

fn report_mismatch(eid: &str, stored: u64, computed: u64) -> (r: String)
    ensures
        r@ == mismatch_report(eid@, stored, computed),
{
    let a = decimal_text(stored);
    let b = decimal_text(computed);
    "hash mismatch for eid:".to_owned().concat(eid).concat(": state has ").concat(
        a.as_str(),
    ).concat(", task hashes to ").concat(b.as_str())
}

fn report_orphan(eid: &str) -> (r: String)
    ensures
        r@ == orphan_report(eid@),
{
    "task has eid:".to_owned().concat(eid).concat(
        " but no state entry (eid stamped without state update)",
    )
}

/// Reports what is wrong between the tasks and the known pairs after a run: an
/// external identifier on several tasks, a pair whose hash is not that of its
/// task's line, and an external identifier of no known pair. A pair without a
/// task is in order.
pub fn verify_post_sync(tasks: &[Task], state: &SyncState) -> (issues: Vec<String>)
    ensures
        texts(issues@) == reports(tasks_view(tasks@), state.items.pairs(), state@.items),
{
    let ghost ts = tasks_view(tasks@);
    let ghost pairs = state.items.pairs();
    let mut issues: Vec<String> = Vec::new();
    assert(texts(issues@) =~= duplicate_reports(ts, 0));
    for i in 0..tasks.len()
        invariant
            ts == tasks_view(tasks@),
            texts(issues@) == duplicate_reports(ts, i as nat),
    {
        let ghost before = texts(issues@);
        if let Some(e) = brings_eid(tasks, i) {
            let at = find_positions(tasks, e);
            assert(at@.map_values(|i: usize| i as nat).len() == at@.len());
            if at.len() > 1 {
                let r = report_duplicate(e, &at);
                issues.push(r);
                assert(texts(issues@) =~= before.push(r@));
            }
        }
    }
    let ghost part1 = texts(issues@);
    let n: usize = state.items.len();
    assert(texts(issues@) =~= part1 + mismatch_reports(ts, pairs, 0));
    for i in 0..n
        invariant
            ts == tasks_view(tasks@),
            pairs == state.items.pairs(),
            n == pairs.len(),
            texts(issues@) == part1 + mismatch_reports(ts, pairs, i as nat),
    {
        let ghost before = texts(issues@);
        let e = state.items.key_at(i);
        let item = state.items.value_at(i);
        if !e.as_str().is_empty() && !is_sentinel_eid(e.as_str()) {
            let at = find_positions(tasks, e.as_str());
            assert(at@.map_values(|i: usize| i as nat).len() == at@.len());
            if at.len() == 1 {
                assert(at@.map_values(|i: usize| i as nat)[0] == at@[0] as nat);
                assert(ts[at@[0] as int] == tasks@[at@[0] as int]@);
                let computed: u64 = task_line_hash(&tasks[at[0]]);
                if computed != item.task_line_hash {
                    let r = report_mismatch(e.as_str(), item.task_line_hash, computed);
                    issues.push(r);
                    assert(texts(issues@) =~= before.push(r@));
                }
            }
        }
        assert(pairs[i as int] == (e@, item@));
        assert(texts(issues@) =~= part1 + mismatch_reports(ts, pairs, (i + 1) as nat));
    }
    let ghost part2 = texts(issues@);
    assert(texts(issues@) =~= part2 + orphan_reports(ts, state@.items, 0));
    for i in 0..tasks.len()
        invariant
            ts == tasks_view(tasks@),
            texts(issues@) == part2 + orphan_reports(ts, state@.items, i as nat),
    {
        let ghost before = texts(issues@);
        if let Some(e) = brings_eid(tasks, i) {
            if !state.items.contains_key(e) {
                let r = report_orphan(e);
                issues.push(r);
                assert(texts(issues@) =~= before.push(r@));
            }
        }
        assert(texts(issues@) =~= part2 + orphan_reports(ts, state@.items, (i + 1) as nat));
    }
    assert(texts(issues@) =~= reports(ts, pairs, state@.items));
    issues
}

} // verus!
