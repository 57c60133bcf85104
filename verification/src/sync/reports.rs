//! What is reported of tasks and pairs that do not fit together, and what is not.

use crate::sync::check::{
    all_positions, duplicate_report, duplicate_reports, is_mismatch, is_real, lemma_first_with,
    mismatch_report, mismatch_reports, new_eid_at, orphan_report, orphan_reports, positions,
    reports,
};
use crate::sync::apply::first_with;
use crate::sync::fields::line_hash;
use crate::sync::state::ItemView;
use crate::task::{eid_of, TaskView};
use vstd::prelude::*;

verus! {

/// The positions that a report names are those of all tasks with the external
/// identifier, in their order.
pub proof fn positions_are_all(ts: Seq<TaskView>, eid: Seq<char>, n: nat)
    requires
        n <= ts.len(),
    ensures
        forall|p: nat| #[trigger]
            positions(ts, eid, n).contains(p) <==> p < n && eid_of(ts[p as int]) == Some(eid),
        forall|a: int, b: int|
            0 <= a < b < positions(ts, eid, n).len() ==> (#[trigger] positions(ts, eid, n)[a]) < (
            #[trigger] positions(ts, eid, n)[b]),
    decreases n,
{
    if n > 0 {
        let m = (n - 1) as nat;
        positions_are_all(ts, eid, m);
        let front = positions(ts, eid, m);
        let all = positions(ts, eid, n);
        assert forall|p: nat| #[trigger]
            all.contains(p) <==> p < n && eid_of(ts[p as int]) == Some(eid) by {
            assert(front.contains(p) <==> p < m && eid_of(ts[p as int]) == Some(eid));
            if front.contains(p) {
                let k = front.index_of(p);
                assert(all[k] == p);
            }
            if p == m && eid_of(ts[p as int]) == Some(eid) {
                assert(all[all.len() - 1] == p);
            }
            if all.contains(p) {
                let k = all.index_of(p);
                if k < front.len() {
                    assert(front[k] == p);
                }
            }
        }
        assert forall|a: int, b: int| 0 <= a < b < all.len() implies (#[trigger] all[a]) < (
        #[trigger] all[b]) by {
            assert(all[a] == front[a]);
            assert(front.contains(front[a]));
            if b < front.len() {
                assert(all[b] == front[b]);
            }
        }
    }
}

proof fn lemma_has(a: Seq<Seq<char>>, b: Seq<Seq<char>>, c: Seq<Seq<char>>, x: Seq<char>)
    ensures
        a.contains(x) || b.contains(x) || c.contains(x) ==> (a + b + c).contains(x),
{
    let all = a + b + c;
    if a.contains(x) {
        assert(all[a.index_of(x)] == x);
    }
    if b.contains(x) {
        assert(all[a.len() + b.index_of(x)] == x);
    }
    if c.contains(x) {
        assert(all[a.len() + b.len() + c.index_of(x)] == x);
    }
}

proof fn lemma_duplicates_have(ts: Seq<TaskView>, n: nat, i: int)
    requires
        0 <= i < n <= ts.len(),
        new_eid_at(ts, i) is Some,
        all_positions(ts, new_eid_at(ts, i)->0).len() > 1,
    ensures
        duplicate_reports(ts, n).contains(
            duplicate_report(new_eid_at(ts, i)->0, all_positions(ts, new_eid_at(ts, i)->0)),
        ),
    decreases n,
{
    let e = new_eid_at(ts, i)->0;
    let x = duplicate_report(e, all_positions(ts, e));
    let front = duplicate_reports(ts, (n - 1) as nat);
    let all = duplicate_reports(ts, n);
    if i < n - 1 {
        lemma_duplicates_have(ts, (n - 1) as nat, i);
        let k = front.index_of(x);
        assert(all[k] == x);
    } else {
        assert(all[all.len() - 1] == x);
    }
}

proof fn lemma_orphans_have(ts: Seq<TaskView>, items: Map<Seq<char>, ItemView>, n: nat, i: int)
    requires
        0 <= i < n <= ts.len(),
        new_eid_at(ts, i) is Some,
        !items.dom().contains(new_eid_at(ts, i)->0),
    ensures
        orphan_reports(ts, items, n).contains(orphan_report(new_eid_at(ts, i)->0)),
    decreases n,
{
    let x = orphan_report(new_eid_at(ts, i)->0);
    let front = orphan_reports(ts, items, (n - 1) as nat);
    let all = orphan_reports(ts, items, n);
    if i < n - 1 {
        lemma_orphans_have(ts, items, (n - 1) as nat, i);
        let k = front.index_of(x);
        assert(all[k] == x);
    } else {
        assert(all[all.len() - 1] == x);
    }
}

proof fn lemma_mismatches_have(
    ts: Seq<TaskView>,
    pairs: Seq<(Seq<char>, ItemView)>,
    n: nat,
    i: int,
)
    requires
        0 <= i < n <= pairs.len(),
        is_mismatch(ts, pairs[i].0, pairs[i].1),
    ensures
        mismatch_reports(ts, pairs, n).contains(
            mismatch_report(
                pairs[i].0,
                pairs[i].1.task_line_hash,
                line_hash(ts[all_positions(ts, pairs[i].0)[0] as int]),
            ),
        ),
    decreases n,
{
    let x = mismatch_report(
        pairs[i].0,
        pairs[i].1.task_line_hash,
        line_hash(ts[all_positions(ts, pairs[i].0)[0] as int]),
    );
    let front = mismatch_reports(ts, pairs, (n - 1) as nat);
    let all = mismatch_reports(ts, pairs, n);
    if i < n - 1 {
        lemma_mismatches_have(ts, pairs, (n - 1) as nat, i);
        let k = front.index_of(x);
        assert(all[k] == x);
    } else {
        assert(all[all.len() - 1] == x);
    }
}

/// Two tasks with one external identifier are reported, unless it is empty or opts out.
pub proof fn duplicates_are_reported(
    ts: Seq<TaskView>,
    pairs: Seq<(Seq<char>, ItemView)>,
    items: Map<Seq<char>, ItemView>,
    eid: Seq<char>,
    i: int,
    j: int,
)
    requires
        0 <= i < j < ts.len(),
        eid_of(ts[i]) == Some(eid),
        eid_of(ts[j]) == Some(eid),
        is_real(eid),
    ensures
        reports(ts, pairs, items).contains(duplicate_report(eid, all_positions(ts, eid))),
{
    let f = first_with(ts, eid) as int;
    lemma_first_with(ts, eid);
    if i < f {
        assert(eid_of(ts[i]) != Some(eid));
    }
    assert(new_eid_at(ts, f) == Some(eid));
    positions_are_all(ts, eid, ts.len());
    let at = all_positions(ts, eid);
    assert(at.contains(i as nat));
    assert(at.contains(j as nat));
    if at.len() <= 1 {
        assert(at[at.index_of(i as nat)] == at[at.index_of(j as nat)]);
    }
    lemma_duplicates_have(ts, ts.len(), f);
    lemma_has(
        duplicate_reports(ts, ts.len()),
        mismatch_reports(ts, pairs, pairs.len()),
        orphan_reports(ts, items, ts.len()),
        duplicate_report(eid, at),
    );
}

/// A task with an external identifier of no known pair is reported, unless that is empty
/// or opts out.
pub proof fn orphans_are_reported(
    ts: Seq<TaskView>,
    pairs: Seq<(Seq<char>, ItemView)>,
    items: Map<Seq<char>, ItemView>,
    eid: Seq<char>,
    i: int,
)
    requires
        0 <= i < ts.len(),
        eid_of(ts[i]) == Some(eid),
        is_real(eid),
        !items.dom().contains(eid),
    ensures
        reports(ts, pairs, items).contains(orphan_report(eid)),
{
    let f = first_with(ts, eid) as int;
    lemma_first_with(ts, eid);
    if i < f {
        assert(eid_of(ts[i]) != Some(eid));
    }
    assert(new_eid_at(ts, f) == Some(eid));
    lemma_orphans_have(ts, items, ts.len(), f);
    lemma_has(
        duplicate_reports(ts, ts.len()),
        mismatch_reports(ts, pairs, pairs.len()),
        orphan_reports(ts, items, ts.len()),
        orphan_report(eid),
    );
}

proof fn lemma_only_position(ts: Seq<TaskView>, eid: Seq<char>, i: int)
    requires
        0 <= i < ts.len(),
        eid_of(ts[i]) == Some(eid),
        forall|k: int| 0 <= k < ts.len() && k != i ==> eid_of(#[trigger] ts[k]) != Some(eid),
    ensures
        all_positions(ts, eid).len() == 1,
        all_positions(ts, eid)[0] == i,
{
    positions_are_all(ts, eid, ts.len());
    let at = all_positions(ts, eid);
    assert(at.contains(i as nat));
    assert(at.contains(at[0]));
    if at.len() > 1 {
        assert(at.contains(at[1]));
        assert(at[0] < at[1]);
        assert(eid_of(ts[at[0] as int]) == Some(eid));
        assert(eid_of(ts[at[1] as int]) == Some(eid));
    }
    assert(eid_of(ts[at[0] as int]) == Some(eid));
}

/// A pair whose only task has a line with another hash than the known one is reported.
pub proof fn mismatches_are_reported(
    ts: Seq<TaskView>,
    pairs: Seq<(Seq<char>, ItemView)>,
    items: Map<Seq<char>, ItemView>,
    n: int,
    i: int,
)
    requires
        0 <= n < pairs.len(),
        0 <= i < ts.len(),
        eid_of(ts[i]) == Some(pairs[n].0),
        forall|k: int| 0 <= k < ts.len() && k != i ==> eid_of(#[trigger] ts[k]) != Some(pairs[n].0),
        is_real(pairs[n].0),
        line_hash(ts[i]) != pairs[n].1.task_line_hash,
    ensures
        reports(ts, pairs, items).contains(
            mismatch_report(pairs[n].0, pairs[n].1.task_line_hash, line_hash(ts[i])),
        ),
{
    lemma_only_position(ts, pairs[n].0, i);
    lemma_mismatches_have(ts, pairs, pairs.len(), n);
    lemma_has(
        duplicate_reports(ts, ts.len()),
        mismatch_reports(ts, pairs, pairs.len()),
        orphan_reports(ts, items, ts.len()),
        mismatch_report(pairs[n].0, pairs[n].1.task_line_hash, line_hash(ts[i])),
    );
}

} // verus!
