//! Guards against losing data.

use crate::error::{ErrorView, SyncError};
use crate::sync::actions::{actions_view, ActionView, SyncAction};
use crate::text::{decimal, decimal_text, is_within};
use vstd::prelude::*;

verus! {

/// Whether an action deletes a reminder.
pub open spec fn deletes_reminder(a: ActionView) -> bool {
    a is DeleteReminder
}

/// Whether an action deletes a task.
pub open spec fn deletes_task(a: ActionView) -> bool {
    a is DeleteTask
}

/// How many actions delete a reminder.
pub open spec fn reminder_deletions(actions: Seq<ActionView>) -> nat
    decreases actions.len(),
{
    if actions.len() == 0 {
        0
    } else {
        reminder_deletions(actions.drop_last()) + if deletes_reminder(actions.last()) {
            1nat
        } else {
            0
        }
    }
}

/// How many actions delete a task.
pub open spec fn task_deletions(actions: Seq<ActionView>) -> nat
    decreases actions.len(),
{
    if actions.len() == 0 {
        0
    } else {
        task_deletions(actions.drop_last()) + if deletes_task(actions.last()) {
            1nat
        } else {
            0
        }
    }
}

/// Counts the actions that delete a reminder.
pub fn count_reminder_deletions(actions: &[SyncAction]) -> (n: usize)
    ensures
        n == reminder_deletions(actions_view(actions@)),
        n <= actions@.len(),
{
    let ghost all = actions_view(actions@);
    let mut n: usize = 0;
    assert(all.take(0) =~= Seq::<ActionView>::empty());
    for i in 0..actions.len()
        invariant
            all == actions_view(actions@),
            n == reminder_deletions(all.take(i as int)),
            n <= i,
    {
        assert(all.take(i + 1).drop_last() =~= all.take(i as int));
        assert(all.take(i + 1).last() == actions@[i as int]@);
        if let SyncAction::DeleteReminder { eid: _ } = &actions[i] {
            n = n + 1;
        }
    }
    assert(all.take(all.len() as int) =~= all);
    n
}

/// Counts the actions that delete a task.
pub fn count_task_deletions(actions: &[SyncAction]) -> (n: usize)
    ensures
        n == task_deletions(actions_view(actions@)),
        n <= actions@.len(),
{
    let ghost all = actions_view(actions@);
    let mut n: usize = 0;
    assert(all.take(0) =~= Seq::<ActionView>::empty());
    for i in 0..actions.len()
        invariant
            all == actions_view(actions@),
            n == task_deletions(all.take(i as int)),
            n <= i,
    {
        assert(all.take(i + 1).drop_last() =~= all.take(i as int));
        assert(all.take(i + 1).last() == actions@[i as int]@);
        if let SyncAction::DeleteTask { eid: _ } = &actions[i] {
            n = n + 1;
        }
    }
    assert(all.take(all.len() as int) =~= all);
    n
}

/// How many actions delete something.
pub open spec fn deletions(actions: Seq<ActionView>) -> nat {
    reminder_deletions(actions) + task_deletions(actions)
}

/// The number of reminders that may be deleted at once: a percentage of the
/// tracked ones, and never less than three.
pub open spec fn delete_limit(total: nat, max_percent: nat) -> nat {
    let part = total * (if max_percent < 100 {
        max_percent
    } else {
        100
    }) / 100;
    if part > 3 {
        part
    } else {
        3
    }
}

/// The number of reminders that may be deleted at once. The floor of three keeps
/// the guard from firing on tiny lists.
pub fn bulk_delete_threshold(total: usize, max_percent: u8) -> (r: usize)
    ensures
        r == delete_limit(total as nat, max_percent as nat),
{
    let pct: usize = if max_percent < 100 {
        max_percent as usize
    } else {
        100
    };
    let q: usize = total / 100;
    let rest: usize = total % 100;
    proof {
        assert(q * pct <= q * 100) by (nonlinear_arith)
            requires
                pct <= 100,
        ;
        assert(rest * pct <= 100 * 100) by (nonlinear_arith)
            requires
                rest <= 100,
                pct <= 100,
        ;
        assert((rest * pct) / 100 <= rest) by (nonlinear_arith)
            requires
                pct <= 100,
                rest >= 0,
        ;
        assert(total * pct == 100 * (q * pct) + rest * pct) by (nonlinear_arith)
            requires
                total == 100 * q + rest,
        ;
        assert((100 * (q * pct) + rest * pct) / 100 == q * pct + (rest * pct) / 100);
    }
    let part: usize = q * pct + rest * pct / 100;
    if part > 3 {
        part
    } else {
        3
    }
}

/// The message of deletions on a first run.
pub open spec fn first_sync_message(n: nat, list: Seq<char>, state_path: Seq<char>) -> Seq<char> {
    decimal(n) + " deletion action(s) computed on first sync for list '"@ + list
        + "'. This should never happen — delete "@ + state_path + " to force a clean first sync."@
}

/// Makes sure that a first run deletes nothing: there both sides can only grow.
pub fn check_first_sync_no_deletions(
    actions: &[SyncAction],
    list_name: &str,
    state_path: &str,
) -> (r: Result<(), SyncError>)
    ensures
        match r {
            Ok(_) => deletions(actions_view(actions@)) == 0,
            Err(e) => deletions(actions_view(actions@)) > 0 && e@ == ErrorView::SafetyAbort(
                first_sync_message(deletions(actions_view(actions@)), list_name@, state_path@),
            ),
        },
{
    let ghost all = actions_view(actions@);
    let mut n: usize = 0;
    assert(all.take(0) =~= Seq::<ActionView>::empty());
    for i in 0..actions.len()
        invariant
            all == actions_view(actions@),
            n == deletions(all.take(i as int)),
            n <= i,
    {
        assert(all.take(i + 1).drop_last() =~= all.take(i as int));
        assert(all.take(i + 1).last() == actions@[i as int]@);
        let hit: bool = match &actions[i] {
            SyncAction::DeleteTask { eid: _ } => true,
            SyncAction::DeleteReminder { eid: _ } => true,
            _ => false,
        };
        if hit {
            n = n + 1;
        }
    }
    assert(all.take(all.len() as int) =~= all);
    if n > 0 {
        let msg = decimal_text(n as u64).concat(
            " deletion action(s) computed on first sync for list '",
        ).concat(list_name).concat("'. This should never happen — delete ").concat(
            state_path,
        ).concat(" to force a clean first sync.");
        return Err(SyncError::SafetyAbort(msg));
    }
    Ok(())
}

/// The message of too many deletions.
pub open spec fn bulk_message(
    deletes: nat,
    total: nat,
    list: Seq<char>,
    limit: nat,
    max_percent: nat,
    state_path: Seq<char>,
) -> Seq<char> {
    "Sync would delete "@ + decimal(deletes) + "/"@ + decimal(total)
        + " tracked reminders for list '"@ + list + "' — exceeds safety threshold of "@ + decimal(
        limit,
    ) + " ("@ + decimal(max_percent)
        + "%). If intentional, raise max_delete_percent in config.toml or delete "@ + state_path
        + " to reset state."@
}

/// Whether a run deletes more reminders of a list than it may. A percentage of
/// one hundred lets it delete any number.
pub open spec fn is_bulk_deletion(
    actions: Seq<ActionView>,
    total: nat,
    max_percent: nat,
) -> bool {
    total > 0 && max_percent < 100 && reminder_deletions(actions) > delete_limit(
        total,
        max_percent,
    )
}

/// Makes sure that a run does not delete too many reminders of a list at once. A
/// limit of one hundred percent switches the guard off.
pub fn check_bulk_deletion(
    actions: &[SyncAction],
    tracked_for_list: usize,
    list_name: &str,
    state_path: &str,
    max_delete_percent: u8,
) -> (r: Result<(), SyncError>)
    ensures
        match r {
            Ok(_) => !is_bulk_deletion(
                actions_view(actions@),
                tracked_for_list as nat,
                max_delete_percent as nat,
            ),
            Err(e) => is_bulk_deletion(
                actions_view(actions@),
                tracked_for_list as nat,
                max_delete_percent as nat,
            ) && e@ == ErrorView::SafetyAbort(
                bulk_message(
                    reminder_deletions(actions_view(actions@)),
                    tracked_for_list as nat,
                    list_name@,
                    delete_limit(tracked_for_list as nat, max_delete_percent as nat),
                    max_delete_percent as nat,
                    state_path@,
                ),
            ),
        },
{
    let deletes: usize = count_reminder_deletions(actions);
    let limit: usize = bulk_delete_threshold(tracked_for_list, max_delete_percent);
    if tracked_for_list > 0 && max_delete_percent < 100 && deletes > limit {
        let a = decimal_text(deletes as u64);
        let b = decimal_text(tracked_for_list as u64);
        let c = decimal_text(limit as u64);
        let d = decimal_text(max_delete_percent as u64);
        let msg = "Sync would delete ".to_owned().concat(a.as_str()).concat("/").concat(
            b.as_str(),
        ).concat(" tracked reminders for list '").concat(list_name).concat(
            "' — exceeds safety threshold of ",
        ).concat(c.as_str()).concat(" (").concat(d.as_str()).concat(
            "%). If intentional, raise max_delete_percent in config.toml or delete ",
        ).concat(state_path).concat(" to reset state.");
        return Err(SyncError::SafetyAbort(msg));
    }
    Ok(())
}

/// The message of tasks that went missing.
pub open spec fn coherence_message(pre: nat, post: nat, deleted: nat, list: Seq<char>) -> Seq<char> {
    "Task count fell from "@ + decimal(pre) + " to "@ + decimal(post) + " after sync for list '"@
        + list + "' (only "@ + decimal(deleted)
        + " explicit deletion(s) account for the difference). Aborting to prevent data loss."@
}

/// Makes sure that no task was dropped without an action that deletes it.
pub fn check_task_count_coherence(
    pre_count: usize,
    post_count: usize,
    delete_count: usize,
    list_name: &str,
) -> (r: Result<(), SyncError>)
    ensures
        match r {
            Ok(_) => post_count + delete_count >= pre_count,
            Err(e) => post_count + delete_count < pre_count && e@ == ErrorView::SafetyAbort(
                coherence_message(
                    pre_count as nat,
                    post_count as nat,
                    delete_count as nat,
                    list_name@,
                ),
            ),
        },
{
    if pre_count > post_count && pre_count - post_count > delete_count {
        let a = decimal_text(pre_count as u64);
        let b = decimal_text(post_count as u64);
        let c = decimal_text(delete_count as u64);
        let msg = "Task count fell from ".to_owned().concat(a.as_str()).concat(" to ").concat(
            b.as_str(),
        ).concat(" after sync for list '").concat(list_name).concat("' (only ").concat(
            c.as_str(),
        ).concat(
            " explicit deletion(s) account for the difference). Aborting to prevent data loss.",
        );
        return Err(SyncError::SafetyAbort(msg));
    }
    Ok(())
}

/// The messages of the guards tell the list, and the numbers that they go by.
pub proof fn messages_tell_numbers(
    a: nat,
    b: nat,
    c: nat,
    d: nat,
    list: Seq<char>,
    path: Seq<char>,
)
    ensures
        is_within(decimal(a), first_sync_message(a, list, path)),
        is_within(list, first_sync_message(a, list, path)),
        is_within(path, first_sync_message(a, list, path)),
        is_within(decimal(a) + "/"@ + decimal(b), bulk_message(a, b, list, c, d, path)),
        is_within(list, bulk_message(a, b, list, c, d, path)),
        is_within(decimal(c) + " ("@ + decimal(d) + "%)"@, bulk_message(a, b, list, c, d, path)),
        is_within(path, bulk_message(a, b, list, c, d, path)),
        is_within("from "@ + decimal(a) + " to "@ + decimal(b), coherence_message(a, b, c, list)),
        is_within(list, coherence_message(a, b, c, list)),
        is_within(decimal(c), coherence_message(a, b, c, list)),
{
    let f1 = " deletion action(s) computed on first sync for list '"@;
    let f2 = "'. This should never happen — delete "@;
    let f3 = " to force a clean first sync."@;
    let f = first_sync_message(a, list, path);
    assert(f =~= Seq::<char>::empty() + decimal(a) + (f1 + list + f2 + path + f3));
    assert(f =~= (decimal(a) + f1) + list + (f2 + path + f3));
    assert(f =~= (decimal(a) + f1 + list + f2) + path + f3);
    let b1 = "Sync would delete "@;
    let b2 = " tracked reminders for list '"@;
    let b3 = "' — exceeds safety threshold of "@;
    let b4 = "%). If intentional, raise max_delete_percent in config.toml or delete "@;
    let b5 = " to reset state."@;
    let m = bulk_message(a, b, list, c, d, path);
    let share = decimal(a) + "/"@ + decimal(b);
    reveal_strlit("%). If intentional, raise max_delete_percent in config.toml or delete ");
    reveal_strlit("%)");
    assert(b4 =~= "%)"@ + b4.skip(2));
    let limit = decimal(c) + " ("@ + decimal(d) + "%)"@;
    assert(m =~= b1 + share + (b2 + list + b3 + decimal(c) + " ("@ + decimal(d) + b4 + path + b5));
    assert(m =~= (b1 + share + b2) + list + (b3 + decimal(c) + " ("@ + decimal(d) + b4 + path
        + b5));
    assert(m =~= (b1 + share + b2 + list + b3) + limit + (b4.skip(2) + path + b5));
    assert(m =~= (b1 + share + b2 + list + b3 + decimal(c) + " ("@ + decimal(d) + b4) + path + b5);
    let c1 = "Task count fell from "@;
    let c2 = " after sync for list '"@;
    let c3 = "' (only "@;
    let c4 = " explicit deletion(s) account for the difference). Aborting to prevent data loss."@;
    let k = coherence_message(a, b, c, list);
    reveal_strlit("Task count fell from ");
    reveal_strlit("from ");
    assert(c1 =~= c1.take(16) + "from "@);
    let fall = "from "@ + decimal(a) + " to "@ + decimal(b);
    assert(k =~= c1.take(16) + fall + (c2 + list + c3 + decimal(c) + c4));
    assert(k =~= (c1 + decimal(a) + " to "@ + decimal(b) + c2) + list + (c3 + decimal(c) + c4));
    assert(k =~= (c1 + decimal(a) + " to "@ + decimal(b) + c2 + list + c3) + decimal(c) + c4);
}

} // verus!
