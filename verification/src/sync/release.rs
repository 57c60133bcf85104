//! Which pairs leave Reminders because their tasks were edited out of the push
//! filter.

use crate::dates::Date;
use crate::keyed::{lemma_map_of, map_of, TextSet};
use crate::sync::apply::{find_first, first_with};
use crate::sync::config::{ConfigView, ListSyncConfig, StickyTracking};
use crate::sync::fields::{is_sentinel, is_sentinel_eid, line_hash, task_line_hash};
use crate::sync::plan::{admits, can_admit, task_matches_push_filter, tasks_view};
use crate::sync::state::{ItemView, SyncState};
use crate::task::{Task, TaskView};
use vstd::prelude::*;

verus! {

/// The content of a list of configurations.
pub open spec fn configs_view(v: Seq<ListSyncConfig>) -> Seq<ConfigView> {
    v.map_values(|c: ListSyncConfig| c@)
}

/// The first configuration of a list.
pub open spec fn config_for(cs: Seq<ConfigView>, list: Seq<char>) -> Option<ConfigView>
    decreases cs.len(),
{
    if cs.len() == 0 {
        None
    } else if cs[0].reminders_list == list {
        Some(cs[0])
    } else {
        config_for(cs.skip(1), list)
    }
}

/// Whether a pair is released: its list goes by edits, its task does not opt out,
/// the list does not take the task any more, and the task's line has changed.
pub open spec fn is_released(
    ts: Seq<TaskView>,
    cs: Seq<ConfigView>,
    eid: Seq<char>,
    item: ItemView,
    today: int,
) -> bool {
    let i = first_with(ts, eid) as int;
    &&& config_for(cs, item.fields.list) matches Some(c)
    &&& c.sticky_tracking == StickyTracking::Triage
    &&& i < ts.len()
    &&& !is_sentinel(eid)
    &&& !admits(c, ts[i], today)
    &&& line_hash(ts[i]) != item.task_line_hash
}

/// The position of the first configuration of a list.
fn config_at(cs: &[ListSyncConfig], list: &String) -> (p: Option<usize>)
    ensures
        match p {
            Some(i) => i < cs@.len() && config_for(configs_view(cs@), list@) == Some(cs@[i as int]@),
            None => config_for(configs_view(cs@), list@) is None,
        },
{
    let ghost all = configs_view(cs@);
    assert(all.skip(0) =~= all);
    for i in 0..cs.len()
        invariant
            all == configs_view(cs@),
            config_for(all.skip(i as int), list@) == config_for(all, list@),
    {
        assert(all.skip(i as int)[0] == cs@[i as int]@);
        assert(all.skip(i as int).skip(1) =~= all.skip(i + 1));
        if cs[i].reminders_list == *list {
            return Some(i);
        }
    }
    None
}

/// The external identifiers of the pairs to be released under
/// [`StickyTracking::Triage`]: their tasks have been edited, and their lists do
/// not take them any more. A task that was not edited stays.
pub fn compute_release_set(
    tasks: &[Task],
    state: &SyncState,
    list_configs: &[ListSyncConfig],
    today: Date,
) -> (r: TextSet)
    requires
        forall|i: int|
            0 <= i < list_configs@.len() ==> can_admit(
                (#[trigger] list_configs@[i])@,
                tasks_view(tasks@),
                today@,
            ),
    ensures
        forall|eid: Seq<char>| #[trigger]
            r@.contains(eid) <==> state@.items.dom().contains(eid) && is_released(
                tasks_view(tasks@),
                configs_view(list_configs@),
                eid,
                state@.items[eid],
                today@,
            ),
{
    let n: usize = state.items.len();
    let ghost pairs = state.items.pairs();
    let ghost ts = tasks_view(tasks@);
    let ghost cs = configs_view(list_configs@);
    let mut out = TextSet::new();
    for i in 0..n
        invariant
            n == pairs.len(),
            pairs == state.items.pairs(),
            ts == tasks_view(tasks@),
            cs == configs_view(list_configs@),
            forall|i: int|
                0 <= i < list_configs@.len() ==> can_admit(
                    (#[trigger] list_configs@[i])@,
                    ts,
                    today@,
                ),
            forall|eid: Seq<char>| #[trigger]
                out@.contains(eid) <==> exists|k: int|
                    0 <= k < i && (#[trigger] pairs[k]).0 == eid && is_released(
                        ts,
                        cs,
                        eid,
                        pairs[k].1,
                        today@,
                    ),
    {
        let eid = state.items.key_at(i);
        let item = state.items.value_at(i);
        let ghost before = out@;
        let mut released: bool = false;
        if let Some(c) = config_at(list_configs, &item.fields.list) {
            let config = &list_configs[c];
            let triage: bool = match config.sticky_tracking {
                StickyTracking::Triage => true,
                _ => false,
            };
            let p: usize = find_first(tasks, eid);
            if triage && p < tasks.len() && !is_sentinel_eid(eid.as_str()) {
                assert(ts[p as int] == tasks@[p as int]@);
                let filter = config.compiled_push_filter();
                reveal(can_admit);
                released = !task_matches_push_filter(&tasks[p], config, &filter, today)
                    && task_line_hash(&tasks[p]) != item.task_line_hash;
            }
        }
        assert(released == is_released(ts, cs, eid@, item@, today@));
        if released {
            out.insert(eid.clone());
        }
        proof {
            assert(pairs[i as int] == (eid@, item@));
            assert forall|e: Seq<char>| #[trigger]
                out@.contains(e) <==> exists|k: int|
                    0 <= k < i + 1 && (#[trigger] pairs[k]).0 == e && is_released(
                        ts,
                        cs,
                        e,
                        pairs[k].1,
                        today@,
                    ) by {
                if before.contains(e) {
                    let k = choose|k: int|
                        0 <= k < i && (#[trigger] pairs[k]).0 == e && is_released(
                            ts,
                            cs,
                            e,
                            pairs[k].1,
                            today@,
                        );
                    assert(pairs[k].0 == e);
                }
                if released && e == eid@ {
                    assert(pairs[i as int].0 == e);
                }
            }
        }
    }
    proof {
        lemma_map_of(pairs);
        assert forall|eid: Seq<char>| #[trigger]
            out@.contains(eid) <==> state@.items.dom().contains(eid) && is_released(
                ts,
                cs,
                eid,
                state@.items[eid],
                today@,
            ) by {
            if out@.contains(eid) {
                let k = choose|k: int|
                    0 <= k < n && (#[trigger] pairs[k]).0 == eid && is_released(
                        ts,
                        cs,
                        eid,
                        pairs[k].1,
                        today@,
                    );
                assert(map_of(pairs)[pairs[k].0] == pairs[k].1);
            }
            if state@.items.dom().contains(eid) {
                let k = choose|k: int| 0 <= k < pairs.len() && (#[trigger] pairs[k]).0 == eid;
                assert(map_of(pairs)[pairs[k].0] == pairs[k].1);
            }
        }
    }
    out
}

} // verus!
