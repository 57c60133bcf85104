//! One sync run as a machine. The program fetches reminders, sends changes and writes
//! files; the machine says what comes next and keeps what came of it.

use crate::config::AppConfig;
use crate::dates::{Date, Timestamp};
use crate::error::{ErrorView, SyncError};
use crate::execute::{
    apply_batch_result, apply_batch_results, failures, kinds_view, ops_for, ops_view, progress,
    reminder_ops, results_view, BatchedActionKind,
};
use crate::keyed::TextSet;
use crate::reminder::Reminder;
use crate::run::{
    begin_run, carry_out_on, check_failures, check_unmodified, end_pass, end_run,
    failures_message, modified_message, pairs_of_list, plan_error, plan_list_on, stamped,
    unclaimed, with_claims, MAX_RECURRENCE_PASSES,
};
use crate::swift_cli::{BatchItemResult, BatchOp};
use crate::sync::actions::{actions_view, SyncAction};
use crate::sync::apply::Board;
use crate::sync::bootstrap::{initial_items, initial_partners};
use crate::sync::config::ListSyncConfig;
use crate::sync::plan::{can_admit, can_filter, reminders_view, scene, tasks_view};
use crate::sync::recurrence::{are_next, can_spawn, collect_recurrence_spawns, spawns_safely};
use crate::sync::release::{compute_release_set, configs_view, is_released};
use crate::sync::safety::{coherence_message, task_deletions};
use crate::sync::state::{StateView, SyncState};
use crate::task::Task;
use crate::undo::UndoEntry;
use std::collections::HashSet;
use vstd::prelude::*;

verus! {

// ---------------------------------------------------------------------------
// The machine
// ---------------------------------------------------------------------------

/// Where a run stands.
#[derive(Debug, Clone, Copy, PartialEq, Eq, Structural)]
pub enum Phase {
    /// A pass is about to begin.
    Ready,
    /// The lists are gone through.
    Lists,
    /// It is decided what is done for a list.
    Decided,
    /// The changes for a list are sent one by one.
    Singles,
    /// No pass follows, and the outcome is written.
    Writing,
    /// Nothing is left to do.
    Over,
}

/// What a run needs next.
#[derive(Debug, Clone, Copy, PartialEq, Eq, Structural)]
pub enum Step {
    /// Back both files up.
    SaveBackup,
    /// Begin a pass.
    BeginPass,
    /// Fetch the reminders of the list at a position, and decide on them.
    List(usize),
    /// Say what would be done for the list.
    Describe,
    /// Send the changes for the list in one call.
    SendBatch,
    /// Send the change at a position alone.
    SendOne(usize),
    /// End the pass.
    EndPass,
    /// See whether the todo.txt file has been changed in the meantime.
    CheckFile,
    /// Write the undo log.
    SaveUndo,
    /// Write the todo.txt file.
    SaveTasks,
    /// Write the state.
    SaveState,
    /// Report.
    Finish,
}

/// A run in progress.
#[derive(Debug)]
pub struct SyncRun {
    pub tasks: Vec<Task>,
    pub state: SyncState,
    /// What takes the changes to reminders back.
    pub undo: Vec<UndoEntry>,
    /// How many changes to reminders failed.
    pub failures: usize,
    /// How many lists were gone through.
    pub completed_lists: usize,
    /// Whether there was no state before.
    pub is_first: bool,
    pub phase: Phase,
    /// The number of the pass.
    pub pass: usize,
    /// The position of the next list.
    pub list: usize,
    /// The tasks for which a list has created a reminder in this pass.
    pub claimed: HashSet<u64>,
    /// The pairs to be released in this pass.
    pub release: TextSet,
    /// The next instances of the recurring tasks that were completed in this pass.
    pub spawns: Vec<Task>,
    /// What is decided for a list and not done yet.
    pub pending: Option<Pending>,
    /// Whether both files were backed up.
    pub backup_saved: bool,
    /// Whether the todo.txt file was found unchanged.
    pub file_checked: bool,
    /// Whether the undo log was written.
    pub undo_saved: bool,
    /// Whether the todo.txt file was written.
    pub tasks_saved: bool,
    /// Whether the state was written.
    pub state_saved: bool,
}

/// What was decided for a list, and what comes of it once it is done.
#[derive(Debug)]
pub struct Pending {
    pub actions: Vec<SyncAction>,
    /// The changes to reminders that the actions call for.
    pub ops: Vec<(BatchOp, BatchedActionKind)>,
    /// The reminders of the list.
    pub reminders: Vec<Reminder>,
    pub tasks: Vec<Task>,
    pub state: SyncState,
    pub spawns: Vec<Task>,
    /// How many of the changes failed.
    pub failures: usize,
    /// How many of the changes were sent one by one.
    pub sent: usize,
}

/// The message of a push filter that cannot be worked out.
pub open spec fn range_message() -> Seq<char> {
    "a date offset, a size or a duration in a push filter or in a tag is out of range"@
}

/// The message of a recurring task whose next date cannot be told.
pub open spec fn endless_message() -> Seq<char> {
    "the next date of a recurring task cannot be computed"@
}

/// A sum that stays at the largest number.
pub open spec fn capped_sum(a: usize, b: usize) -> usize {
    if a + b <= usize::MAX {
        (a + b) as usize
    } else {
        usize::MAX
    }
}

fn add_capped(a: usize, b: usize) -> (r: usize)
    ensures
        r == capped_sum(a, b),
{
    if b <= usize::MAX - a {
        a + b
    } else {
        usize::MAX
    }
}

fn copy_tasks(tasks: &Vec<Task>) -> (r: Vec<Task>)
    ensures
        tasks_view(r@) == tasks_view(tasks@),
{
    let mut out: Vec<Task> = Vec::new();
    assert(tasks_view(out@) =~= tasks_view(tasks@).take(0));
    for i in 0..tasks.len()
        invariant
            tasks_view(out@) == tasks_view(tasks@).take(i as int),
    {
        let ghost before = tasks_view(out@);
        let t = tasks[i].clone();
        out.push(t);
        assert(tasks_view(out@) =~= before.push(t@));
        assert(tasks_view(out@) =~= tasks_view(tasks@).take(i + 1));
    }
    assert(tasks_view(tasks@).take(tasks@.len() as int) =~= tasks_view(tasks@));
    out
}

/// The answers to a batch of `n` changes; a call that failed, or that answered another
/// number of changes, has none.
pub open spec fn answers(answer: Option<&[BatchItemResult]>, n: nat) -> Seq<BatchItemResult> {
    match answer {
        Some(results) => if results@.len() == n {
            results@
        } else {
            Seq::empty()
        },
        None => Seq::empty(),
    }
}

/// Whether the list on which `p` was decided counts in `new` as gone through, with
/// `failed` more failures. What became of tasks, state and undo log is left open.
pub open spec fn is_gone_through(old: SyncRun, new: SyncRun, p: Pending, failed: usize) -> bool {
    &&& new.phase == Phase::Lists
    &&& new.pending is None
    &&& new.list == old.list + 1
    &&& new.completed_lists == capped_sum(old.completed_lists, 1)
    &&& new.spawns@ == old.spawns@ + p.spawns@
    &&& new.failures == capped_sum(old.failures, capped_sum(p.failures, failed))
    &&& new == (SyncRun {
        tasks: new.tasks,
        state: new.state,
        undo: new.undo,
        failures: new.failures,
        completed_lists: new.completed_lists,
        phase: new.phase,
        list: new.list,
        spawns: new.spawns,
        pending: new.pending,
        ..old
    })
}

impl SyncRun {
    /// The number of passes that may follow this one.
    pub open spec fn passes_left(self) -> nat {
        if self.pass < MAX_RECURRENCE_PASSES {
            (MAX_RECURRENCE_PASSES - self.pass) as nat
        } else {
            0
        }
    }

    /// The number of lists that are left in this pass.
    pub open spec fn lists_left(self, lists: nat) -> nat {
        if self.list < lists {
            (lists - self.list) as nat
        } else {
            0
        }
    }

    /// How far the run is from writing its outcome, in passes and lists.
    pub open spec fn distance(self, lists: nat) -> nat {
        let left = self.passes_left() * (2 * lists + 3);
        match self.phase {
            Phase::Ready => left + 2 * lists + 3,
            Phase::Lists => left + 2 * self.lists_left(lists) + 2,
            Phase::Decided => left + 2 * self.lists_left(lists) + 1,
            Phase::Singles => left + 2 * self.lists_left(lists) + 1,
            Phase::Writing => 0,
            Phase::Over => 0,
        }
    }

    /// How many steps are left before the next list, or before the end.
    pub open spec fn rest(self) -> nat {
        match self.phase {
            Phase::Ready => if self.backup_saved {
                0
            } else {
                1
            },
            Phase::Lists => 0,
            Phase::Decided => match self.pending {
                Some(p) => p.ops@.len() + 1,
                None => 0,
            },
            Phase::Singles => match self.pending {
                Some(p) => if p.sent < p.ops@.len() {
                    (p.ops@.len() - p.sent) as nat
                } else {
                    0
                },
                None => 0,
            },
            Phase::Writing => {
                let saved = if self.state_saved {
                    0nat
                } else {
                    1
                } + if self.tasks_saved {
                    0nat
                } else {
                    1
                };
                1 + saved + if self.undo_saved {
                    0nat
                } else {
                    1
                } + if self.file_checked {
                    0nat
                } else {
                    1
                }
            },
            Phase::Over => 0,
        }
    }

    /// Whether the run is nearer to its end than before. Every step leads nearer to the
    /// end.
    pub open spec fn is_nearer(self, before: SyncRun, lists: nat) -> bool {
        ||| self.distance(lists) < before.distance(lists)
        ||| self.distance(lists) == before.distance(lists) && self.rest() < before.rest()
    }

    /// Whether what the phase speaks of is there: a list on which it was decided, and a
    /// change that is still to be sent.
    pub open spec fn is_coherent(self, lists: nat) -> bool {
        match self.phase {
            Phase::Decided => self.list < lists && self.pending is Some,
            Phase::Singles => self.list < lists && (self.pending matches Some(p) && p.sent
                < p.ops@.len()),
            _ => true,
        }
    }

    /// What a run needs next. A signal ends the pass before the next list, before the
    /// changes for a list and between single ones, and the run before the next pass. A
    /// dry run sends and writes nothing. The outcome is written where the file is as it
    /// was read, behind the undo log, and where no change failed.
    pub open spec fn step(self, lists: nat, dry_run: bool, shutdown: bool) -> Step {
        match self.phase {
            Phase::Ready => if !dry_run && !self.backup_saved {
                Step::SaveBackup
            } else if shutdown {
                Step::EndPass
            } else {
                Step::BeginPass
            },
            Phase::Lists => if self.list < lists && !shutdown {
                Step::List(self.list)
            } else {
                Step::EndPass
            },
            Phase::Decided => match self.pending {
                Some(p) => if dry_run {
                    Step::Describe
                } else if shutdown && p.actions@.len() > 0 {
                    Step::EndPass
                } else {
                    Step::SendBatch
                },
                None => Step::EndPass,
            },
            Phase::Singles => match self.pending {
                Some(p) => if !dry_run && !shutdown && p.sent < p.ops@.len() {
                    Step::SendOne(p.sent)
                } else {
                    Step::EndPass
                },
                None => Step::EndPass,
            },
            Phase::Writing => if dry_run {
                Step::Finish
            } else if !self.file_checked {
                Step::CheckFile
            } else if !self.undo_saved {
                Step::SaveUndo
            } else if self.failures > 0 || self.state_saved {
                Step::Finish
            } else if !self.tasks_saved {
                Step::SaveTasks
            } else {
                Step::SaveState
            },
            Phase::Over => Step::Finish,
        }
    }

    /// Starts a run: with the state of the last one, or with what belongs together
    /// where there is none.
    pub fn start(
        tasks: Vec<Task>,
        saved: Option<SyncState>,
        reminders: &[Reminder],
        now: Timestamp,
    ) -> (r: Self)
        ensures
            match saved {
                Some(s) => r.tasks@ == tasks@ && r.state == s,
                None => ({
                    let rs = reminders_view(reminders@);
                    let ts = tasks_view(tasks@);
                    tasks_view(r.tasks@) == stamped(ts, initial_partners(rs, ts)) && r.state@ == (
                    StateView { items: initial_items(rs, ts, now), last_sync_time: Some(now) })
                }),
            },
            r.is_first == (saved is None),
            r.undo@.len() == 0,
            r.failures == 0,
            r.completed_lists == 0,
            r.phase == Phase::Ready,
            r.pass == 1,
            r.pending is None,
            r.spawns@.len() == 0,
            !r.backup_saved && !r.file_checked && !r.undo_saved && !r.tasks_saved && !r.state_saved,
            forall|lists: nat| #[trigger] r.is_coherent(lists),
    {
        let is_first: bool = saved.is_none();
        let (tasks, state) = begin_run(tasks, saved, reminders, now);
        SyncRun {
            tasks,
            state,
            undo: Vec::new(),
            failures: 0,
            completed_lists: 0,
            is_first,
            phase: Phase::Ready,
            pass: 1,
            list: 0,
            claimed: HashSet::new(),
            release: TextSet::new(),
            spawns: Vec::new(),
            pending: None,
            backup_saved: false,
            file_checked: false,
            undo_saved: false,
            tasks_saved: false,
            state_saved: false,
        }
    }

    /// What the run needs next, with a number of lists.
    pub fn next_step(&self, lists: usize, dry_run: bool, shutdown: bool) -> (r: Step)
        ensures
            r == self.step(lists as nat, dry_run, shutdown),
            dry_run ==> !(r is SaveBackup) && !(r is SendBatch) && !(r is SendOne) && !(
            r is SaveUndo) && !(r is SaveTasks) && !(r is SaveState),
            !dry_run ==> !(r is Describe),
            r is SaveUndo ==> self.file_checked,
            r is SaveTasks || r is SaveState ==> self.file_checked && self.undo_saved
                && self.failures == 0,
            r is SaveState ==> self.tasks_saved,
    {
        match self.phase {
            Phase::Ready => if !dry_run && !self.backup_saved {
                Step::SaveBackup
            } else if shutdown {
                Step::EndPass
            } else {
                Step::BeginPass
            },
            Phase::Lists => if self.list < lists && !shutdown {
                Step::List(self.list)
            } else {
                Step::EndPass
            },
            Phase::Decided => match &self.pending {
                Some(p) => if dry_run {
                    Step::Describe
                } else if shutdown && p.actions.len() > 0 {
                    Step::EndPass
                } else {
                    Step::SendBatch
                },
                None => Step::EndPass,
            },
            Phase::Singles => match &self.pending {
                Some(p) => if !dry_run && !shutdown && p.sent < p.ops.len() {
                    Step::SendOne(p.sent)
                } else {
                    Step::EndPass
                },
                None => Step::EndPass,
            },
            Phase::Writing => if dry_run {
                Step::Finish
            } else if !self.file_checked {
                Step::CheckFile
            } else if !self.undo_saved {
                Step::SaveUndo
            } else if self.failures > 0 || self.state_saved {
                Step::Finish
            } else if !self.tasks_saved {
                Step::SaveTasks
            } else {
                Step::SaveState
            },
            Phase::Over => Step::Finish,
        }
    }

    /// Notes that both files were backed up.
    pub fn note_backup(&mut self)
        requires
            old(self).phase == Phase::Ready,
            !old(self).backup_saved,
        ensures
            *final(self) == (SyncRun { backup_saved: true, ..*old(self) }),
            forall|lists: nat| #[trigger] final(self).is_nearer(*old(self), lists),
            forall|lists: nat| #[trigger] final(self).is_coherent(lists),
    {
        self.backup_saved = true;
    }

    /// Begins a pass: no task is claimed, and the pairs to be released are told anew.
    /// An offset, a size or a duration in a push filter or in a tag that is out of range
    /// stops the run.
    pub fn begin_pass(&mut self, lists: &[ListSyncConfig], today: Date) -> (r: Result<
        (),
        SyncError,
    >)
        requires
            old(self).phase == Phase::Ready,
        ensures
            *final(self) == (SyncRun {
                phase: final(self).phase,
                list: final(self).list,
                claimed: final(self).claimed,
                release: final(self).release,
                spawns: final(self).spawns,
                pending: final(self).pending,
                ..*old(self)
            }),
            ({
                let ts = tasks_view(old(self).tasks@);
                let fine = forall|i: int|
                    0 <= i < lists@.len() ==> can_admit(
                        (#[trigger] lists@[i])@,
                        ts,
                        today@,
                    );
                match r {
                    Ok(_) => {
                        &&& fine
                        &&& final(self).phase == Phase::Lists
                        &&& final(self).list == 0
                        &&& final(self).claimed@ == Set::<u64>::empty()
                        &&& final(self).spawns@.len() == 0
                        &&& final(self).pending is None
                        &&& forall|eid: Seq<char>| #[trigger]
                            final(self).release@.contains(eid) <==> old(
                                self,
                            ).state@.items.dom().contains(eid) && is_released(
                                ts,
                                configs_view(lists@),
                                eid,
                                old(self).state@.items[eid],
                                today@,
                            )
                        &&& final(self).is_nearer(*old(self), lists@.len())
                        &&& final(self).is_coherent(lists@.len())
                    },
                    Err(e) => !fine && e@ == ErrorView::SafetyAbort(range_message()) && *final(self)
                        == *old(self),
                }
            }),
    {
        broadcast use vstd::std_specs::hash::group_hash_axioms;

        let ghost ts = tasks_view(self.tasks@);
        for i in 0..lists.len()
            invariant
                ts == tasks_view(self.tasks@),
                *self == *old(self),
                forall|k: int| 0 <= k < i ==> can_admit(
                    (#[trigger] lists@[k])@,
                    ts,
                    today@,
                ),
        {
            if !can_filter(&lists[i], self.tasks.as_slice(), today) {
                assert(!can_admit(lists@[i as int]@, ts, today@));
                return Err(
                    SyncError::SafetyAbort(
                        "a date offset, a size or a duration in a push filter or in a tag is out of range".to_owned(),
                    ),
                );
            }
        }
        self.release = compute_release_set(self.tasks.as_slice(), &self.state, lists, today);
        self.claimed = HashSet::new();
        self.spawns = Vec::new();
        self.pending = None;
        self.list = 0;
        self.phase = Phase::Lists;
        Ok(())
    }

    /// Decides what is done for the next list, given its reminders, and works out what
    /// comes of it in the file. A plan that deletes too much or drops tasks stops the
    /// run, as do dates, sizes and durations that are out of range.
    pub fn decide(
        &mut self,
        reminders: Vec<Reminder>,
        app_config: &AppConfig,
        task_mtime: Option<Timestamp>,
        state_path: &str,
        now: Timestamp,
        today: Date,
    ) -> (r: Result<(), SyncError>)
        requires
            old(self).phase == Phase::Lists,
            old(self).list < app_config.lists@.len(),
        ensures
            *final(self) == (SyncRun {
                phase: final(self).phase,
                claimed: final(self).claimed,
                pending: final(self).pending,
                ..*old(self)
            }),
            ({
                let list = app_config.lists@[old(self).list as int];
                let ts = tasks_view(old(self).tasks@);
                let plan = unclaimed(
                    scene(
                        reminders@,
                        old(self).tasks@,
                        old(self).state,
                        list,
                        task_mtime,
                        old(self).release@,
                        app_config.timestamp_tolerance_secs,
                        today@,
                    ).plan(),
                    old(self).claimed@,
                );
                let refusal = plan_error(
                    plan,
                    old(self).is_first,
                    pairs_of_list(old(self).state@.items, list@.reminders_list).len(),
                    list@.reminders_list,
                    state_path@,
                    app_config.max_delete_percent as nat,
                );
                let start = Board { tasks: ts, items: old(self).state@.items };
                let end = start.after_run(plan, list@, now, today@);
                let shortfall = end.tasks.len() + task_deletions(plan) < ts.len();
                let fine = today.has_room() && can_admit(list@, ts, today@);
                &&& fine ==> final(self).claimed@ == with_claims(
                    old(self).claimed@,
                    plan,
                )
                &&& match r {
                    Ok(_) => {
                        &&& fine
                        &&& refusal is None
                        &&& can_spawn(plan, ts)
                        &&& !shortfall
                        &&& final(self).phase == Phase::Decided
                        &&& final(self).pending matches Some(p) && {
                            &&& actions_view(p.actions@) == plan
                            &&& ops_view(p.ops@) == ops_for(plan, list@)
                            &&& p.reminders@ == reminders@
                            &&& (Board { tasks: tasks_view(p.tasks@), items: p.state@.items })
                                == end
                            &&& p.state@.last_sync_time == Some(now)
                            &&& are_next(plan, ts, tasks_view(p.spawns@))
                            &&& p.failures == 0
                            &&& p.sent == 0
                        }
                        &&& final(self).is_nearer(*old(self), app_config.lists@.len())
                        &&& final(self).is_coherent(app_config.lists@.len())
                    },
                    Err(e) => if !fine {
                        e@ == ErrorView::SafetyAbort(range_message())
                    } else if refusal is Some {
                        e@ == refusal->0
                    } else if !can_spawn(plan, ts) {
                        e@ == ErrorView::SafetyAbort(endless_message())
                    } else {
                        shortfall && e@ == ErrorView::SafetyAbort(
                            coherence_message(
                                ts.len(),
                                end.tasks.len(),
                                task_deletions(plan),
                                list@.reminders_list,
                            ),
                        )
                    },
                }
            }),
    {
        let list = &app_config.lists[self.list];
        if !today.leaves_room() || !can_filter(list, self.tasks.as_slice(), today) {
            return Err(
                SyncError::SafetyAbort(
                    "a date offset, a size or a duration in a push filter or in a tag is out of range".to_owned(),
                ),
            );
        }
        let planned = plan_list_on(
            reminders.as_slice(),
            self.tasks.as_slice(),
            &self.state,
            list,
            app_config,
            task_mtime,
            &self.release,
            self.is_first,
            state_path,
            &mut self.claimed,
            today,
        );
        let actions = match planned {
            Ok(a) => a,
            Err(e) => {
                return Err(e);
            },
        };
        if !spawns_safely(actions.as_slice(), self.tasks.as_slice()) {
            return Err(
                SyncError::SafetyAbort(
                    "the next date of a recurring task cannot be computed".to_owned(),
                ),
            );
        }
        let spawns = collect_recurrence_spawns(actions.as_slice(), self.tasks.as_slice());
        let tasks = copy_tasks(&self.tasks);
        let ops = reminder_ops(actions.as_slice(), list);
        match carry_out_on(actions.as_slice(), tasks, &self.state, list, now, today) {
            Ok((tasks, state)) => {
                self.pending = Some(
                    Pending { actions, ops, reminders, tasks, state, spawns, failures: 0, sent: 0 },
                );
                self.phase = Phase::Decided;
                Ok(())
            },
            Err(e) => Err(e),
        }
    }

    /// Takes over what came of a list.
    fn complete(&mut self, p: Pending)
        requires
            old(self).list < usize::MAX,
            old(self).phase == Phase::Decided || old(self).phase == Phase::Singles,
        ensures
            is_gone_through(*old(self), *final(self), p, 0),
            final(self).tasks == p.tasks,
            final(self).state == p.state,
            final(self).undo == old(self).undo,
            forall|lists: nat|
                old(self).list < lists ==> #[trigger] final(self).is_nearer(*old(self), lists),
    {
        let mut spawns = p.spawns;
        self.tasks = p.tasks;
        self.state = p.state;
        self.spawns.append(&mut spawns);
        self.failures = add_capped(self.failures, p.failures);
        self.completed_lists = add_capped(self.completed_lists, 1);
        self.list = self.list + 1;
        self.pending = None;
        self.phase = Phase::Lists;
    }

    /// Goes on behind a list whose actions were described: they count as if they had
    /// been carried out.
    pub fn note_described(&mut self)
        requires
            old(self).phase == Phase::Decided,
            old(self).pending is Some,
            old(self).list < usize::MAX,
        ensures
            is_gone_through(*old(self), *final(self), old(self).pending->0, 0),
            final(self).tasks == old(self).pending->0.tasks,
            final(self).state == old(self).pending->0.state,
            final(self).undo == old(self).undo,
            forall|lists: nat|
                old(self).list < lists ==> #[trigger] final(self).is_nearer(*old(self), lists),
            forall|lists: nat| #[trigger] final(self).is_coherent(lists),
    {
        if let Some(p) = self.pending.take() {
            self.complete(p);
        }
    }

    /// Takes in the outcome of the one call with all changes for a list. Where it
    /// answered them, the list is gone through; where it failed, they are sent one by
    /// one.
    pub fn take_batch(
        &mut self,
        answer: Option<&[BatchItemResult]>,
        app_config: &AppConfig,
        now: Timestamp,
    )
        requires
            old(self).phase == Phase::Decided,
            old(self).pending is Some,
            old(self).list < app_config.lists@.len(),
        ensures
            ({
                let p = old(self).pending->0;
                let n = p.ops@.len();
                let results = answers(answer, n);
                if results.len() == n {
                    &&& is_gone_through(
                        *old(self),
                        *final(self),
                        p,
                        failures(results_view(results), n) as usize,
                    )
                    &&& progress(final(self).tasks@, final(self).state, final(self).undo@)
                        == progress(p.tasks@, p.state, old(self).undo@).answered_all(
                        kinds_view(p.ops@),
                        results_view(results),
                        app_config.lists@[old(self).list as int]@.mapping,
                        now,
                        reminders_view(p.reminders@),
                        n,
                    )
                    &&& final(self).state@.last_sync_time == p.state@.last_sync_time
                } else {
                    *final(self) == (SyncRun {
                        phase: Phase::Singles,
                        pending: Some(Pending { sent: 0, ..p }),
                        ..*old(self)
                    })
                }
            }),
            final(self).is_nearer(*old(self), app_config.lists@.len()),
            final(self).is_coherent(app_config.lists@.len()),
    {
        if let Some(p) = self.pending.take() {
            let mut p = p;
            let none: Vec<BatchItemResult> = Vec::new();
            let results: &[BatchItemResult] = match answer {
                Some(results) => if results.len() == p.ops.len() {
                    results
                } else {
                    none.as_slice()
                },
                None => none.as_slice(),
            };
            assert(results@ =~= answers(answer, p.ops@.len()));
            if results.len() == p.ops.len() {
                let lists: usize = app_config.lists.len();
                assert(self.list < lists);
                let failed: usize = apply_batch_results(
                    p.ops.as_slice(),
                    results,
                    &mut p.tasks,
                    &mut p.state,
                    &app_config.lists[self.list],
                    now,
                    p.reminders.as_slice(),
                    &mut self.undo,
                );
                p.failures = add_capped(p.failures, failed);
                self.complete(p);
            } else {
                p.sent = 0;
                self.pending = Some(p);
                self.phase = Phase::Singles;
            }
        }
    }

    /// Takes in the answer to a change that was sent alone. Behind the last one the list
    /// is gone through.
    pub fn take_one(&mut self, result: &BatchItemResult, app_config: &AppConfig, now: Timestamp)
        requires
            old(self).phase == Phase::Singles,
            old(self).pending matches Some(p) && p.sent < p.ops@.len(),
            old(self).list < app_config.lists@.len(),
        ensures
            ({
                let p = old(self).pending->0;
                let failed: usize = if result@.ok {
                    0
                } else {
                    1
                };
                let after = progress(p.tasks@, p.state, old(self).undo@).answered(
                    p.ops@[p.sent as int].1@,
                    result@,
                    app_config.lists@[old(self).list as int]@.mapping,
                    now,
                    reminders_view(p.reminders@),
                );
                if p.sent + 1 == p.ops@.len() {
                    &&& is_gone_through(*old(self), *final(self), p, failed)
                    &&& progress(final(self).tasks@, final(self).state, final(self).undo@) == after
                    &&& final(self).state@.last_sync_time == p.state@.last_sync_time
                } else {
                    &&& final(self).pending matches Some(q) && {
                        &&& q == (Pending {
                            tasks: q.tasks,
                            state: q.state,
                            failures: capped_sum(p.failures, failed),
                            sent: (p.sent + 1) as usize,
                            ..p
                        })
                        &&& progress(q.tasks@, q.state, final(self).undo@) == after
                        &&& q.state@.last_sync_time == p.state@.last_sync_time
                    }
                    &&& *final(self) == (SyncRun {
                        undo: final(self).undo,
                        pending: final(self).pending,
                        ..*old(self)
                    })
                }
            }),
            final(self).is_nearer(*old(self), app_config.lists@.len()),
            final(self).is_coherent(app_config.lists@.len()),
    {
        if let Some(p) = self.pending.take() {
            let mut p = p;
            let map = app_config.lists[self.list].compiled_priority_map();
            apply_batch_result(
                &p.ops[p.sent].1,
                result,
                &mut p.tasks,
                &mut p.state,
                &map,
                now,
                p.reminders.as_slice(),
                &mut self.undo,
            );
            if !result.ok {
                p.failures = add_capped(p.failures, 1);
            }
            let n: usize = p.ops.len();
            p.sent = p.sent + 1;
            if p.sent == n {
                let lists: usize = app_config.lists.len();
                assert(self.list < lists);
                self.complete(p);
            } else {
                self.pending = Some(p);
            }
        }
    }

    /// Ends a pass. Where it ends within a list, nothing of that list counts; the
    /// changes that were sent stay in the undo log. The next instances of recurring
    /// tasks join the tasks, except on a dry run, and call for another pass, as long as
    /// the limit is not reached. A pass that has not begun is the last one.
    pub fn end_pass(&mut self, dry_run: bool)
        requires
            old(self).phase != Phase::Writing,
            old(self).phase != Phase::Over,
        ensures
            ({
                let begun = old(self).phase != Phase::Ready;
                let again = begun && old(self).spawns@.len() > 0 && !dry_run && old(self).pass
                    < MAX_RECURRENCE_PASSES;
                &&& final(self).tasks@ == (if begun && !dry_run {
                    old(self).tasks@ + old(self).spawns@
                } else {
                    old(self).tasks@
                })
                &&& final(self).spawns@.len() == 0
                &&& final(self).pending is None
                &&& again ==> final(self).phase == Phase::Ready && final(self).pass == old(
                    self,
                ).pass + 1
                &&& !again ==> final(self).phase == Phase::Writing && final(self).pass == old(
                    self,
                ).pass
                &&& *final(self) == (SyncRun {
                    tasks: final(self).tasks,
                    phase: final(self).phase,
                    pass: final(self).pass,
                    spawns: final(self).spawns,
                    pending: final(self).pending,
                    ..*old(self)
                })
            }),
            forall|lists: nat| #[trigger] final(self).is_nearer(*old(self), lists),
            forall|lists: nat| #[trigger] final(self).is_coherent(lists),
    {
        let mut spawns: Vec<Task> = Vec::new();
        let begun: bool = self.phase != Phase::Ready;
        if begun {
            spawns.append(&mut self.spawns);
            assert(spawns@ =~= old(self).spawns@);
        } else {
            self.spawns = Vec::new();
        }
        self.pending = None;
        let again: bool = end_pass(self.pass, dry_run, &mut self.tasks, spawns);
        if again {
            self.pass = self.pass + 1;
            self.phase = Phase::Ready;
        } else {
            self.phase = Phase::Writing;
        }
        assert(!begun ==> self.tasks@ =~= old(self).tasks@);
        proof {
            let p = old(self).passes_left() as int;
            assert forall|lists: nat| #[trigger] self.is_nearer(*old(self), lists) by {
                let n = 2 * (lists as int) + 3;
                assert(p * n >= 0) by (nonlinear_arith)
                    requires
                        p >= 0,
                        n >= 3,
                ;
                if again {
                    assert(self.passes_left() + 1 == p);
                    assert((p - 1) * n + n == p * n) by (nonlinear_arith);
                }
            }
        }
    }

    /// Takes in when the todo.txt file was last changed, before the run and now. A file
    /// that was changed in the meantime is not overwritten: the run is over.
    pub fn check_file(
        &mut self,
        path: &str,
        before: Option<Timestamp>,
        after: Option<Timestamp>,
        before_text: &str,
        after_text: &str,
    ) -> (r: Result<(), SyncError>)
        requires
            old(self).phase == Phase::Writing,
            !old(self).file_checked,
        ensures
            match r {
                Ok(_) => before == after && *final(self) == (SyncRun {
                    file_checked: true,
                    ..*old(self)
                }),
                Err(e) => before != after && e@ == ErrorView::SafetyAbort(
                    modified_message(path@, before_text@, after_text@),
                ) && *final(self) == (SyncRun { phase: Phase::Over, ..*old(self) }),
            },
            forall|lists: nat| #[trigger] final(self).is_nearer(*old(self), lists),
            forall|lists: nat| #[trigger] final(self).is_coherent(lists),
    {
        match check_unmodified(path, before, after, before_text, after_text) {
            Ok(_) => {
                self.file_checked = true;
                Ok(())
            },
            Err(e) => {
                self.phase = Phase::Over;
                Err(e)
            },
        }
    }

    /// Notes that the undo log was written.
    pub fn note_undo(&mut self)
        requires
            old(self).phase == Phase::Writing,
            !old(self).undo_saved,
        ensures
            *final(self) == (SyncRun { undo_saved: true, ..*old(self) }),
            forall|lists: nat| #[trigger] final(self).is_nearer(*old(self), lists),
            forall|lists: nat| #[trigger] final(self).is_coherent(lists),
    {
        self.undo_saved = true;
    }

    /// Notes that the todo.txt file was written.
    pub fn note_tasks(&mut self)
        requires
            old(self).phase == Phase::Writing,
            !old(self).tasks_saved,
        ensures
            *final(self) == (SyncRun { tasks_saved: true, ..*old(self) }),
            forall|lists: nat| #[trigger] final(self).is_nearer(*old(self), lists),
            forall|lists: nat| #[trigger] final(self).is_coherent(lists),
    {
        self.tasks_saved = true;
    }

    /// Notes that the state was written.
    pub fn note_state(&mut self)
        requires
            old(self).phase == Phase::Writing,
            !old(self).state_saved,
        ensures
            *final(self) == (SyncRun { state_saved: true, ..*old(self) }),
            forall|lists: nat| #[trigger] final(self).is_nearer(*old(self), lists),
            forall|lists: nat| #[trigger] final(self).is_coherent(lists),
    {
        self.state_saved = true;
    }

    /// Reports on the run: changes that failed come first, and an interrupted run says
    /// for how many lists its outcome was saved.
    pub fn finish(&self, interrupted: bool) -> (r: Result<(), SyncError>)
        ensures
            match r {
                Ok(_) => self.failures == 0 && !interrupted,
                Err(e) => if self.failures > 0 {
                    e@ == ErrorView::SafetyAbort(failures_message(self.failures as nat))
                } else {
                    interrupted && e@ == ErrorView::Interrupted(self.completed_lists)
                },
            },
    {
        match check_failures(self.failures) {
            Ok(_) => end_run(interrupted, self.completed_lists),
            Err(e) => Err(e),
        }
    }
}

// ---------------------------------------------------------------------------
// Laws
// ---------------------------------------------------------------------------

/// Whatever a coherent run asks for can be done: the method that the step calls for may
/// be called.
pub proof fn steps_can_be_taken(run: SyncRun, lists: nat, dry_run: bool, shutdown: bool)
    requires
        run.is_coherent(lists),
    ensures
        match run.step(lists, dry_run, shutdown) {
            Step::SaveBackup => run.phase == Phase::Ready && !run.backup_saved,
            Step::BeginPass => run.phase == Phase::Ready,
            Step::List(i) => run.phase == Phase::Lists && i == run.list && i < lists,
            Step::Describe => run.phase == Phase::Decided && run.pending is Some && run.list
                < lists,
            Step::SendBatch => run.phase == Phase::Decided && run.pending is Some && run.list
                < lists,
            Step::SendOne(i) => run.phase == Phase::Singles && run.list < lists && (
            run.pending matches Some(p) && i == p.sent && i < p.ops@.len()),
            Step::EndPass => run.phase != Phase::Writing && run.phase != Phase::Over,
            Step::CheckFile => run.phase == Phase::Writing && !run.file_checked,
            Step::SaveUndo => run.phase == Phase::Writing && !run.undo_saved,
            Step::SaveTasks => run.phase == Phase::Writing && !run.tasks_saved,
            Step::SaveState => run.phase == Phase::Writing && !run.state_saved,
            Step::Finish => true,
        },
{
}

/// A run does not end before its outcome is written: where it asks for nothing more, the
/// files were written, or it is a dry run, or a change failed, or the file was changed in
/// the meantime. The run is over, or no pass follows.
pub proof fn unwritten_run_has_a_reason(run: SyncRun, lists: nat, dry_run: bool, shutdown: bool)
    requires
        run.step(lists, dry_run, shutdown) == Step::Finish,
    ensures
        run.phase == Phase::Over || run.phase == Phase::Writing,
        run.phase == Phase::Writing ==> dry_run || (run.file_checked && run.undo_saved && (
        run.failures > 0 || run.state_saved)),
{
}

/// Without a signal a run goes on: a pass begins once the files are backed up, every list
/// is gone through in turn, what was decided is sent, and the outcome is written, the
/// tasks before the state, as long as no change failed.
pub proof fn run_goes_on(run: SyncRun, lists: nat, dry_run: bool)
    requires
        run.is_coherent(lists),
    ensures
        ({
            let step = run.step(lists, dry_run, false);
            &&& run.phase == Phase::Ready ==> step == (if dry_run || run.backup_saved {
                Step::BeginPass
            } else {
                Step::SaveBackup
            })
            &&& run.phase == Phase::Lists && run.list < lists ==> step == Step::List(run.list)
            &&& run.phase == Phase::Lists && run.list >= lists ==> step == Step::EndPass
            &&& run.phase == Phase::Decided ==> step == (if dry_run {
                Step::Describe
            } else {
                Step::SendBatch
            })
            &&& run.phase == Phase::Singles && !dry_run ==> step == Step::SendOne(
                run.pending->0.sent,
            )
            &&& run.phase == Phase::Writing && !dry_run && !run.file_checked ==> step
                == Step::CheckFile
            &&& run.phase == Phase::Writing && !dry_run && run.file_checked && !run.undo_saved
                ==> step == Step::SaveUndo
            &&& run.phase == Phase::Writing && !dry_run && run.file_checked && run.undo_saved
                && run.failures == 0 && !run.state_saved ==> step == (if run.tasks_saved {
                Step::SaveState
            } else {
                Step::SaveTasks
            })
        }),
{
}

/// After a signal no pass begins, no list is fetched and no change to a reminder is sent;
/// what was done before is still written.
pub proof fn signal_ends_the_pass(run: SyncRun, lists: nat, dry_run: bool)
    ensures
        ({
            let step = run.step(lists, dry_run, true);
            &&& !(step is BeginPass) && !(step is List) && !(step is SendOne)
            &&& step is SendBatch ==> (run.pending matches Some(p) && p.actions@.len() == 0)
            &&& run.phase == Phase::Writing ==> step == run.step(lists, dry_run, false)
        }),
{
}

} // verus!
