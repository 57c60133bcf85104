//! Deciding what a sync run has to do.

use crate::dates::{is_inner_day, Date, Timestamp, PLAIN_DAY};
use crate::filter::{are_safe_rules, filter_rules, rules_admit, Filter};
use crate::keyed::{distinct_keys, lemma_map_of, map_of, TextSet};
use crate::mapping::{reminder_line, reminder_to_task_on};
use crate::reminder::{Reminder, ReminderView};
use crate::sync::actions::{actions_view, ActionView, SyncAction};
use crate::sync::config::{ConfigView, ListSyncConfig, PriorityMap, StickyTracking};
use crate::sync::diff::{
    apply_task_updates, build_reminder_update, diff, full_update, task_to_reminder_update,
    three_way_diff, update_of, updated_task, ChangesView,
};
use crate::sync::fields::{
    build_field_state_from_reminder, fields_hash, is_sentinel, is_sentinel_eid, line_hash,
    reminder_fields, sentinel_original, sentinel_original_eid, synced_field_hash, task_eid,
    task_line_hash,
};
use crate::sync::state::{ItemView, SyncItemState, SyncState};
use crate::task::{eid_of, parsed_task, Task, TaskView};
use crate::text::contains_text;
use vstd::prelude::*;

verus! {

// ---------------------------------------------------------------------------
// Admission
// ---------------------------------------------------------------------------

/// Whether a list takes a task: by its push filter, or else by its context, or
/// else always.
pub open spec fn admits_by(
    rules: Option<Seq<Seq<char>>>,
    context: Option<Seq<char>>,
    t: TaskView,
    today: int,
) -> bool {
    match rules {
        Some(f) => rules_admit(f, t, today),
        None => match context {
            Some(c) => t.contexts.contains(c),
            None => true,
        },
    }
}

/// The rules of a list's push filter.
pub open spec fn push_rules(c: ConfigView) -> Option<Seq<Seq<char>>> {
    match c.push_filter {
        Some(s) => Some(filter_rules(s)),
        None => None,
    }
}

/// The rules of an optional filter.
pub open spec fn rules_in(f: Option<Filter>) -> Option<Seq<Seq<char>>> {
    match f {
        Some(x) => Some(x@),
        None => None,
    }
}

/// Whether a list takes a task.
pub open spec fn admits(c: ConfigView, t: TaskView, today: int) -> bool {
    admits_by(push_rules(c), c.auto_context, t, today)
}

/// Whether a task is held against push filters at all: a finished task that no reminder
/// belongs to is not.
pub open spec fn is_filtered(t: TaskView) -> bool {
    !t.finished || eid_of(t) is Some
}

/// Whether todo_lib can work a push filter out, on the day `today`, for every task that
/// is held against it.
#[verifier::opaque]
pub open spec fn can_admit(c: ConfigView, ts: Seq<TaskView>, today: int) -> bool {
    push_rules(c) matches Some(rules) ==> is_inner_day(today) && forall|i: int|
        0 <= i < ts.len() && is_filtered(#[trigger] ts[i]) ==> are_safe_rules(rules, ts[i], today)
}

/// Whether todo_lib can work a push filter out, on the day `today`, for every task that
/// is held against it.
pub fn can_filter(config: &ListSyncConfig, tasks: &[Task], today: Date) -> (r: bool)
    ensures
        r == can_admit(config@, tasks_view(tasks@), today@),
{
    reveal(can_admit);
    if let Some(f) = config.compiled_push_filter() {
        if !today.is_inner() {
            return false;
        }
        let ghost ts = tasks_view(tasks@);
        for i in 0..tasks.len()
            invariant
                ts == tasks_view(tasks@),
                push_rules(config@) == Some(f@),
                is_inner_day(today@),
                forall|j: int|
                    0 <= j < i && is_filtered(#[trigger] ts[j]) ==> are_safe_rules(
                        f@,
                        ts[j],
                        today@,
                    ),
        {
            reveal(can_admit);
            let t = &tasks[i];
            assert(ts[i as int] == t@);
            if (!t.finished || t.eid().is_some()) && !f.can_match(t, today) {
                return false;
            }
        }
    }
    true
}

/// Whether a list takes a task, given its compiled push filter.
pub fn task_matches_push_filter(
    task: &Task,
    config: &ListSyncConfig,
    push_filter: &Option<Filter>,
    today: Date,
) -> (r: bool)
    requires
        push_filter matches Some(f) ==> are_safe_rules(f@, task@, today@) && is_inner_day(
            today@,
        ),
    ensures
        r == admits_by(rules_in(*push_filter), config@.auto_context, task@, today@),
{
    match push_filter {
        Some(f) => f.matches(task, today),
        None => match &config.auto_context {
            Some(ctx) => contains_text(&task.contexts, ctx),
            None => true,
        },
    }
}

// ---------------------------------------------------------------------------
// What a run decides on
// ---------------------------------------------------------------------------

/// The content of a list of reminders.
pub open spec fn reminders_view(v: Seq<Reminder>) -> Seq<ReminderView> {
    v.map_values(|r: Reminder| r@)
}

/// The content of a list of tasks.
pub open spec fn tasks_view(v: Seq<Task>) -> Seq<TaskView> {
    v.map_values(|t: Task| t@)
}

/// Whether a content differs from the one of which a hash is known. Zero stands for
/// a hash that is not known: the content then counts as changed, so that it is kept.
pub open spec fn is_changed(hash: u64, known: u64) -> bool {
    known == 0 || hash != known
}

/// Everything that the decisions for one list depend on.
pub struct Scene {
    pub reminders: Seq<ReminderView>,
    pub tasks: Seq<TaskView>,
    /// The known pairs, by their external identifiers.
    pub pairs: Seq<(Seq<char>, ItemView)>,
    pub config: ConfigView,
    /// When the file was modified.
    pub file: Option<Timestamp>,
    /// The pairs to be released.
    pub release: Set<Seq<char>>,
    pub tolerance: u64,
    pub today: int,
}

/// The last reminder of a list with an external identifier.
pub open spec fn find_reminder(
    rs: Seq<ReminderView>,
    list: Seq<char>,
    eid: Seq<char>,
) -> Option<ReminderView>
    decreases rs.len(),
{
    if rs.len() == 0 {
        None
    } else if rs.last().list == list && rs.last().external_id == eid {
        Some(rs.last())
    } else {
        find_reminder(rs.drop_last(), list, eid)
    }
}

impl Scene {
    /// The known pairs.
    pub open spec fn items(self) -> Map<Seq<char>, ItemView> {
        map_of(self.pairs)
    }

    /// Whether a pair is known.
    pub open spec fn knows(self, eid: Seq<char>) -> bool {
        self.items().dom().contains(eid)
    }

    /// The reminder of this list with an external identifier.
    pub open spec fn reminder(self, eid: Seq<char>) -> Option<ReminderView> {
        find_reminder(self.reminders, self.config.reminders_list, eid)
    }

    /// Whether a task counts as the one with an external identifier: it carries
    /// it, no other list owns the pair, and this list takes the task or keeps
    /// the pair it owns.
    pub open spec fn in_scope(self, t: TaskView, eid: Seq<char>) -> bool {
        &&& eid_of(t) == Some(eid)
        &&& !is_sentinel(eid)
        &&& self.knows(eid) ==> self.items()[eid].fields.list == self.config.reminders_list
        &&& admits(self.config, t, self.today) || (self.knows(eid) && self.config.sticky_tracking
            != StickyTracking::Never)
    }

    /// The first of `ts` that counts as the task with an external identifier.
    pub open spec fn find_task(self, ts: Seq<TaskView>, eid: Seq<char>) -> Option<TaskView>
        decreases ts.len(),
    {
        if ts.len() == 0 {
            None
        } else {
            match self.find_task(ts.drop_last(), eid) {
                Some(t) => Some(t),
                None => if self.in_scope(ts.last(), eid) {
                    Some(ts.last())
                } else {
                    None
                },
            }
        }
    }

    /// The task with an external identifier.
    pub open spec fn task(self, eid: Seq<char>) -> Option<TaskView> {
        self.find_task(self.tasks, eid)
    }

    /// Whether the file cannot be the one that the known pairs come from: it has
    /// tasks, and none of them carries an external identifier.
    pub open spec fn is_stale(self) -> bool {
        self.tasks.len() > 0 && forall|i: int|
            0 <= i < self.tasks.len() ==> eid_of(#[trigger] self.tasks[i]) is None
    }

    /// Whether a task asks to remove the reminder with an external identifier.
    pub open spec fn is_ejected(self, eid: Seq<char>) -> bool {
        exists|i: int|
            0 <= i < self.tasks.len() && (eid_of(#[trigger] self.tasks[i]) matches Some(e)
                && sentinel_original(e) == Some(eid))
    }

    /// Whether a reminder of this list is not known yet and has fields with a
    /// given hash.
    pub open spec fn is_fresh(self, eid: Seq<char>, hash: u64) -> bool {
        !self.knows(eid) && (self.reminder(eid) matches Some(r) && fields_hash(reminder_fields(r))
            == hash)
    }

    /// Whether a pair has lost its reminder, and the reminder's fields had a
    /// given hash.
    pub open spec fn is_lost(self, eid: Seq<char>, hash: u64) -> bool {
        self.knows(eid) && self.reminder(eid) is None && self.task(eid) is Some
            && self.items()[eid].reminders_field_hash == hash
    }

    /// Whether a reminder is the only new one with a given hash.
    pub open spec fn is_only_fresh(self, eid: Seq<char>, hash: u64) -> bool {
        self.is_fresh(eid, hash) && forall|e: Seq<char>| #[trigger] self.is_fresh(e, hash) ==> e == eid
    }

    /// Whether a pair is the only one that has lost its reminder among those with
    /// a given hash.
    pub open spec fn is_only_lost(self, eid: Seq<char>, hash: u64) -> bool {
        self.is_lost(eid, hash) && forall|e: Seq<char>| #[trigger] self.is_lost(e, hash) ==> e == eid
    }

    /// Whether the reminder of the pair `old` goes on as `new`: the pair has lost
    /// its reminder, `new` is a new reminder with the same fields, and neither is
    /// in doubt.
    pub open spec fn relinks(self, old: Seq<char>, new: Seq<char>) -> bool {
        let hash = self.items()[old].reminders_field_hash;
        hash != 0 && self.is_only_lost(old, hash) && self.is_only_fresh(new, hash)
    }

    /// The changes that bring a reminder and a task together.
    pub open spec fn changes(self, r: ReminderView, t: TaskView, eid: Seq<char>) -> (
        ChangesView,
        ChangesView,
    ) {
        diff(
            r,
            t,
            self.items()[eid].fields,
            self.file,
            self.config.mapping,
            self.tolerance,
            self.config.writeback,
        )
    }

    /// The update of a task, where something changes.
    pub open spec fn task_update(self, eid: Seq<char>, t: TaskView, u: ChangesView) -> Seq<
        ActionView,
    > {
        if u.is_nothing() {
            Seq::empty()
        } else {
            seq![
                ActionView::UpdateTask {
                    eid,
                    updated_task: updated_task(t, u, self.config.mapping, self.today),
                },
            ]
        }
    }

    /// The update of a reminder, where something changes.
    pub open spec fn reminder_update(self, eid: Seq<char>, u: ChangesView) -> Seq<ActionView> {
        if u.is_nothing() {
            Seq::empty()
        } else {
            seq![
                ActionView::UpdateReminder {
                    eid,
                    updated_reminder: update_of(eid, u, None, self.config.reminders_list),
                },
            ]
        }
    }

    /// What is done about a pair with both sides present.
    pub open spec fn for_both(self, eid: Seq<char>, r: ReminderView, t: TaskView) -> Seq<ActionView> {
        let (tu, ru) = self.changes(r, t, eid);
        if self.release.contains(eid) {
            self.task_update(eid, t, tu) + seq![ActionView::DeleteReminder { eid }]
        } else {
            self.task_update(eid, t, tu) + self.reminder_update(eid, ru)
        }
    }

    /// What is done about a pair without its reminder.
    pub open spec fn for_task(self, eid: Seq<char>, t: TaskView) -> Seq<ActionView> {
        if exists|new: Seq<char>| #[trigger] self.relinks(eid, new) {
            let new = choose|new: Seq<char>| #[trigger] self.relinks(eid, new);
            let (tu, ru) = self.changes(self.reminder(new)->0, t, eid);
            seq![ActionView::RelinkEid { old_eid: eid, new_eid: new }] + self.task_update(new, t, tu)
                + self.reminder_update(new, ru)
        } else if is_changed(line_hash(t), self.items()[eid].task_line_hash) {
            seq![
                ActionView::ResurrectReminder {
                    eid,
                    reminder_update: full_update(
                        eid,
                        t,
                        self.config.mapping,
                        self.config.reminders_list,
                    ),
                    target_list: self.config.reminders_list,
                },
            ]
        } else {
            seq![ActionView::DeleteTask { eid }]
        }
    }

    /// What is done about a pair without its task.
    pub open spec fn for_reminder(self, eid: Seq<char>, r: ReminderView) -> Seq<ActionView> {
        if r.is_completed {
            Seq::empty()
        } else if self.is_ejected(eid) {
            seq![ActionView::DeleteReminder { eid }]
        } else if self.is_stale() {
            seq![ActionView::CreateTask { eid, reminder: r }]
        } else if is_changed(
            fields_hash(reminder_fields(r)),
            self.items()[eid].reminders_field_hash,
        ) {
            seq![
                ActionView::ResurrectTask {
                    eid,
                    task: parsed_task(reminder_line(r, self.config.mapping), self.today),
                },
            ]
        } else {
            seq![ActionView::DeleteReminder { eid }]
        }
    }

    /// What is done about a known pair.
    pub open spec fn for_pair(self, eid: Seq<char>) -> Seq<ActionView> {
        match (self.reminder(eid), self.task(eid)) {
            (Some(r), Some(t)) => self.for_both(eid, r, t),
            (None, Some(t)) => self.for_task(eid, t),
            (Some(r), None) => self.for_reminder(eid, r),
            (None, None) => Seq::empty(),
        }
    }

    /// What is done about the first `n` known pairs.
    pub open spec fn for_pairs(self, n: nat) -> Seq<ActionView>
        decreases n,
    {
        if n == 0 {
            Seq::empty()
        } else {
            self.for_pairs((n - 1) as nat) + self.for_pair(self.pairs[n - 1].0)
        }
    }

    /// What is done about a task that opts out: its tag is simplified once the
    /// reminder that it names is gone.
    pub open spec fn for_sentinel(self, t: TaskView) -> Seq<ActionView> {
        match eid_of(t) {
            Some(e) => match sentinel_original(e) {
                Some(original) => if self.knows(original) {
                    Seq::empty()
                } else {
                    seq![ActionView::CleanSentinelTag { sentinel_eid: e }]
                },
                None => Seq::empty(),
            },
            None => Seq::empty(),
        }
    }

    /// What is done about the first `n` tasks that opt out.
    pub open spec fn for_sentinels(self, n: nat) -> Seq<ActionView>
        decreases n,
    {
        if n == 0 {
            Seq::empty()
        } else {
            self.for_sentinels((n - 1) as nat) + self.for_sentinel(self.tasks[n - 1])
        }
    }

    /// Whether a reminder becomes a new task.
    pub open spec fn is_imported(self, r: ReminderView) -> bool {
        &&& r.list == self.config.reminders_list
        &&& !self.knows(r.external_id)
        &&& !exists|old: Seq<char>| #[trigger] self.relinks(old, r.external_id)
        &&& !r.is_completed || self.config.sync_initial_completed
    }

    /// What is done about the first `n` reminders that are not known.
    pub open spec fn for_imports(self, n: nat) -> Seq<ActionView>
        decreases n,
    {
        if n == 0 {
            Seq::empty()
        } else {
            let r = self.reminders[n - 1];
            self.for_imports((n - 1) as nat) + if self.is_imported(r) {
                seq![ActionView::CreateTask { eid: r.external_id, reminder: r }]
            } else {
                Seq::empty()
            }
        }
    }

    /// Whether a task becomes a new reminder.
    pub open spec fn is_pushed(self, t: TaskView) -> bool {
        &&& !t.finished
        &&& eid_of(t) matches Some(e) ==> !is_sentinel(e) && !self.knows(e)
        &&& admits(self.config, t, self.today)
    }

    /// What is done about the first `n` tasks that are not known.
    pub open spec fn for_pushes(self, n: nat) -> Seq<ActionView>
        decreases n,
    {
        if n == 0 {
            Seq::empty()
        } else {
            let t = self.tasks[n - 1];
            self.for_pushes((n - 1) as nat) + if self.is_pushed(t) {
                seq![
                    ActionView::CreateReminder {
                        task: t,
                        target_list: self.config.reminders_list,
                    },
                ]
            } else {
                Seq::empty()
            }
        }
    }

    /// Everything that a run does for the list.
    pub open spec fn plan(self) -> Seq<ActionView> {
        self.for_sentinels(self.tasks.len()) + self.for_pairs(self.pairs.len()) + self.for_imports(
            self.reminders.len(),
        ) + self.for_pushes(self.tasks.len())
    }
}

// ---------------------------------------------------------------------------
// Deciding
// ---------------------------------------------------------------------------

/// Everything that the decisions for one list depend on.
struct Inputs<'a> {
    reminders: &'a [Reminder],
    tasks: &'a [Task],
    state: &'a SyncState,
    config: &'a ListSyncConfig,
    filter: Option<Filter>,
    map: PriorityMap,
    file: Option<Timestamp>,
    release: &'a TextSet,
    tolerance: u64,
    today: Date,
}

impl<'a> View for Inputs<'a> {
    type V = Scene;

    closed spec fn view(&self) -> Scene {
        Scene {
            reminders: reminders_view(self.reminders@),
            tasks: tasks_view(self.tasks@),
            pairs: self.state.items.pairs(),
            config: self.config@,
            file: self.file,
            release: self.release@,
            tolerance: self.tolerance,
            today: self.today@,
        }
    }
}

impl<'a> Inputs<'a> {
    /// The compiled filter and priority map are those of the list.
    spec fn fits(&self) -> bool {
        &&& rules_in(self.filter) == push_rules(self.config@)
        &&& self.map@ == self.config@.mapping
        &&& self.today.has_room()
        &&& can_admit(self.config@, tasks_view(self.tasks@), self.today@)
    }

    /// The position of the reminder with an external identifier.
    fn reminder_at(&self, eid: &String) -> (p: Option<usize>)
        ensures
            match p {
                Some(i) => i < self.reminders@.len() && self@.reminder(eid@) == Some(
                    self.reminders@[i as int]@,
                ) && self.reminders@[i as int]@.external_id == eid@
                    && self.reminders@[i as int]@.list == self.config@.reminders_list,
                None => self@.reminder(eid@) is None,
            },
    {
        let mut n: usize = self.reminders.len();
        let ghost rs = self@.reminders;
        let ghost list = self@.config.reminders_list;
        assert(rs.take(n as int) =~= rs);
        while n > 0
            invariant
                n <= rs.len(),
                rs == reminders_view(self.reminders@),
                list == self.config@.reminders_list,
                find_reminder(rs.take(n as int), list, eid@) == find_reminder(rs, list, eid@),
            decreases n,
        {
            let r = &self.reminders[n - 1];
            assert(rs.take(n as int).last() == r@);
            assert(rs.take(n as int).drop_last() =~= rs.take(n - 1));
            if r.list == self.config.reminders_list && r.external_id == *eid {
                return Some(n - 1);
            }
            n = n - 1;
        }
        None
    }

    /// Whether a task counts as the one with an external identifier.
    fn is_in_scope(&self, t: &Task, eid: &String) -> (r: bool)
        requires
            self.fits(),
            self.filter matches Some(f) ==> (is_filtered(t@) ==> are_safe_rules(
                f@,
                t@,
                self.today@,
            )),
        ensures
            r == self@.in_scope(t@, eid@),
    {
        let carries: bool = match t.eid() {
            Some(e) => *e == *eid,
            None => false,
        };
        if !carries || is_sentinel_eid(eid.as_str()) {
            return false;
        }
        let known: bool = match self.state.items.get(eid.as_str()) {
            Some(item) => {
                if item.fields.list != self.config.reminders_list {
                    return false;
                }
                true
            },
            None => false,
        };
        let sticky: bool = match self.config.sticky_tracking {
            StickyTracking::Never => false,
            _ => true,
        };
        reveal(can_admit);
        (sticky && known) || task_matches_push_filter(t, self.config, &self.filter, self.today)
    }

    /// The position of the task with an external identifier.
    fn task_at(&self, eid: &String) -> (p: Option<usize>)
        requires
            self.fits(),
        ensures
            match p {
                Some(i) => i < self.tasks@.len() && self@.task(eid@) == Some(self.tasks@[i as int]@),
                None => self@.task(eid@) is None,
            },
    {
        let ghost ts = self@.tasks;
        let n: usize = self.tasks.len();
        let mut i: usize = 0;
        while i < n
            invariant
                n == ts.len(),
                ts == tasks_view(self.tasks@),
                self.fits(),
                i <= n,
                self@.find_task(ts.take(i as int), eid@) is None,
            decreases n - i,
        {
            assert(ts.take(i + 1).last() == self.tasks@[i as int]@);
            assert(ts.take(i + 1).drop_last() =~= ts.take(i as int));
            assert(ts[i as int] == self.tasks@[i as int]@);
            reveal(can_admit);
            if self.is_in_scope(&self.tasks[i], eid) {
                proof {
                    lemma_find_task_prefix(self@, ts, i + 1, eid@);
                }
                return Some(i);
            }
            i = i + 1;
        }
        assert(ts.take(n as int) =~= ts);
        None
    }

    /// Whether `v` lists the reminders that are not known, each identifier once,
    /// with the hashes of their fields.
    spec fn lists_fresh(&self, v: Seq<(usize, u64)>) -> bool {
        &&& forall|k: int|
            0 <= k < v.len() ==> (#[trigger] v[k]).0 < self.reminders@.len() && {
                let r = self.reminders@[v[k].0 as int]@;
                !self@.knows(r.external_id) && self@.reminder(r.external_id) == Some(r)
                    && fields_hash(reminder_fields(r)) == v[k].1
            }
        &&& forall|e: Seq<char>|
            !self@.knows(e) && (#[trigger] self@.reminder(e)) is Some ==> exists|k: int|
                0 <= k < v.len() && self.reminders@[(#[trigger] v[k]).0 as int]@.external_id == e
    }

    /// The reminders that are not known, with the hashes of their fields.
    fn fresh_reminders(&self) -> (v: Vec<(usize, u64)>)
        ensures
            self.lists_fresh(v@),
    {
        let n: usize = self.reminders.len();
        let ghost rs = self@.reminders;
        let ghost list = self@.config.reminders_list;
        let mut out: Vec<(usize, u64)> = Vec::new();
        let mut i: usize = 0;
        while i < n
            invariant
                n == self.reminders@.len(),
                rs == reminders_view(self.reminders@),
                list == self.config@.reminders_list,
                rs == self@.reminders,
                list == self@.config.reminders_list,
                i <= n,
                forall|k: int|
                    0 <= k < out@.len() ==> (#[trigger] out@[k]).0 < self.reminders@.len() && {
                        let r = self.reminders@[out@[k].0 as int]@;
                        !self@.knows(r.external_id) && self@.reminder(r.external_id) == Some(r)
                            && fields_hash(reminder_fields(r)) == out@[k].1
                    },
                forall|j: int|
                    0 <= j < i && !self@.knows((#[trigger] rs[j]).external_id) && rs[j].list == list
                        ==> exists|k: int|
                        0 <= k < out@.len() && self.reminders@[(#[trigger] out@[k]).0 as int]@.external_id
                            == rs[j].external_id,
            decreases n - i,
        {
            let r = &self.reminders[i];
            let ghost before = out@;
            assert(rs[i as int] == r@);
            if r.list == self.config.reminders_list && !self.state.items.contains_key(
                r.external_id.as_str(),
            ) {
                let mut seen: bool = false;
                let mut k: usize = 0;
                while k < out.len()
                    invariant
                        i < n,
                        n == self.reminders@.len(),
                        r == self.reminders@[i as int],
                        k <= out@.len(),
                        out@ == before,
                        forall|m: int|
                            0 <= m < out@.len() ==> (#[trigger] out@[m]).0 < self.reminders@.len(),
                        seen ==> exists|m: int|
                            0 <= m < out@.len() && self.reminders@[(#[trigger] out@[m]).0 as int]@.external_id
                                == r@.external_id,
                    decreases out@.len() - k,
                {
                    if self.reminders[out[k].0].external_id == r.external_id {
                        assert(self.reminders@[out@[k as int].0 as int]@.external_id
                            == r@.external_id);
                        seen = true;
                    }
                    k = k + 1;
                }
                if !seen {
                    if let Some(p) = self.reminder_at(&r.external_id) {
                        let fields = build_field_state_from_reminder(&self.reminders[p]);
                        out.push((p, synced_field_hash(&fields)));
                        assert(out@[before.len() as int].0 == p);
                    } else {
                        proof {
                            lemma_no_reminder(rs, list, r@.external_id, i as int);
                        }
                    }
                }
            }
            proof {
                assert forall|j: int|
                    0 <= j < i + 1 && !self@.knows((#[trigger] rs[j]).external_id) && rs[j].list
                        == list implies exists|k: int|
                    0 <= k < out@.len() && self.reminders@[(#[trigger] out@[k]).0 as int]@.external_id
                        == rs[j].external_id by {
                    if j < i {
                        let k = choose|k: int|
                            0 <= k < before.len() && self.reminders@[(#[trigger] before[k]).0 as int]@.external_id
                                == rs[j].external_id;
                        assert(out@[k] == before[k]);
                    }
                }
            }
            i = i + 1;
        }
        proof {
            assert forall|e: Seq<char>|
                !self@.knows(e) && (#[trigger] self@.reminder(e)) is Some implies exists|k: int|
                0 <= k < out@.len() && self.reminders@[(#[trigger] out@[k]).0 as int]@.external_id
                    == e by {
                lemma_find_reminder(rs, list, e);
                let j = choose|j: int|
                    0 <= j < rs.len() && (#[trigger] rs[j]).external_id == e && rs[j].list == list;
                assert(rs[j].external_id == e);
            }
        }
        out
    }

    /// The only new reminder with a given hash.
    fn only_fresh(&self, fresh: &Vec<(usize, u64)>, hash: u64) -> (p: Option<usize>)
        requires
            self.lists_fresh(fresh@),
        ensures
            match p {
                Some(i) => i < self.reminders@.len() && self@.is_only_fresh(
                    self.reminders@[i as int]@.external_id,
                    hash,
                ) && self@.reminder(self.reminders@[i as int]@.external_id) == Some(
                    self.reminders@[i as int]@,
                ),
                None => forall|e: Seq<char>| !self@.is_only_fresh(e, hash),
            },
    {
        let mut found: Option<usize> = None;
        let mut k: usize = 0;
        while k < fresh.len()
            invariant
                self.lists_fresh(fresh@),
                k <= fresh@.len(),
                match found {
                    Some(i) => i < self.reminders@.len() && self@.is_fresh(
                        self.reminders@[i as int]@.external_id,
                        hash,
                    ) && self@.reminder(self.reminders@[i as int]@.external_id) == Some(
                        self.reminders@[i as int]@,
                    ) && forall|m: int|
                        0 <= m < k && (#[trigger] fresh@[m]).1 == hash
                            ==> self.reminders@[fresh@[m].0 as int]@.external_id
                            == self.reminders@[i as int]@.external_id,
                    None => forall|m: int| 0 <= m < k ==> (#[trigger] fresh@[m]).1 != hash,
                },
            decreases fresh@.len() - k,
        {
            let (i, h) = fresh[k];
            if h == hash {
                assert(fresh@[k as int] == (i, h));
                assert(self@.is_fresh(self.reminders@[i as int]@.external_id, hash));
                match found {
                    Some(other) => {
                        if self.reminders[other].external_id != self.reminders[i].external_id {
                            assert(self@.is_fresh(
                                self.reminders@[other as int]@.external_id,
                                hash,
                            ));
                            return None;
                        }
                    },
                    None => {
                        found = Some(i);
                    },
                }
            }
            k = k + 1;
        }
        proof {
            assert forall|e: Seq<char>| #[trigger] self@.is_fresh(e, hash) implies exists|m: int|
                0 <= m < fresh@.len() && (#[trigger] fresh@[m]).1 == hash
                    && self.reminders@[fresh@[m].0 as int]@.external_id == e by {
                assert(self@.reminder(e) is Some);
                let m = choose|m: int|
                    0 <= m < fresh@.len() && self.reminders@[(#[trigger] fresh@[m]).0 as int]@.external_id
                        == e;
                assert(fresh@[m].1 == hash);
            }
        }
        found
    }

    /// Whether `s` are the positions of the two sides of a pair.
    spec fn are_sides(&self, eid: Seq<char>, s: (Option<usize>, Option<usize>)) -> bool {
        &&& match s.0 {
            Some(i) => i < self.reminders@.len() && self@.reminder(eid) == Some(
                self.reminders@[i as int]@,
            ),
            None => self@.reminder(eid) is None,
        }
        &&& match s.1 {
            Some(i) => i < self.tasks@.len() && self@.task(eid) == Some(self.tasks@[i as int]@),
            None => self@.task(eid) is None,
        }
    }

    /// The positions of the two sides of every known pair.
    fn sides(&self) -> (v: Vec<(Option<usize>, Option<usize>)>)
        requires
            self.fits(),
        ensures
            v@.len() == self@.pairs.len(),
            forall|i: int| 0 <= i < v@.len() ==> self.are_sides(self@.pairs[i].0, #[trigger] v@[i]),
    {
        let n: usize = self.state.items.len();
        let mut out: Vec<(Option<usize>, Option<usize>)> = Vec::new();
        for i in 0..n
            invariant
                self.fits(),
                n == self@.pairs.len(),
                out@.len() == i,
                forall|k: int|
                    0 <= k < out@.len() ==> self.are_sides(self@.pairs[k].0, #[trigger] out@[k]),
        {
            let eid = self.state.items.key_at(i);
            out.push((self.reminder_at(eid), self.task_at(eid)));
        }
        out
    }

    /// Whether the pair at position `at` is the only one that has lost its
    /// reminder among those with its hash.
    fn is_only_lost_at(&self, sides: &Vec<(Option<usize>, Option<usize>)>, at: usize) -> (r: bool)
        requires
            at < self@.pairs.len(),
            sides@.len() == self@.pairs.len(),
            forall|i: int|
                0 <= i < sides@.len() ==> self.are_sides(self@.pairs[i].0, #[trigger] sides@[i]),
            self@.is_lost(self@.pairs[at as int].0, self@.pairs[at as int].1.reminders_field_hash),
        ensures
            r == self@.is_only_lost(
                self@.pairs[at as int].0,
                self@.pairs[at as int].1.reminders_field_hash,
            ),
    {
        let n: usize = self.state.items.len();
        let ghost pairs = self@.pairs;
        let hash: u64 = self.state.items.value_at(at).reminders_field_hash;
        proof {
            lemma_map_of(pairs);
        }
        for i in 0..n
            invariant
                n == pairs.len(),
                at < n,
                pairs == self@.pairs,
                pairs == self.state.items.pairs(),
                distinct_keys(pairs),
                hash == pairs[at as int].1.reminders_field_hash,
                self@.is_lost(pairs[at as int].0, hash),
                sides@.len() == pairs.len(),
                forall|k: int|
                    0 <= k < sides@.len() ==> self.are_sides(self@.pairs[k].0, #[trigger] sides@[k]),
                forall|k: int| 0 <= k < pairs.len() ==> self@.knows((#[trigger] pairs[k]).0),
                forall|k: int|
                    0 <= k < pairs.len() ==> self@.items()[(#[trigger] pairs[k]).0] == pairs[k].1,
                forall|k: int|
                    0 <= k < i && k != at ==> !self@.is_lost((#[trigger] pairs[k]).0, hash),
        {
            assert(self.are_sides(pairs[i as int].0, sides@[i as int]));
            let lost: bool = match sides[i] {
                (None, Some(_)) => self.state.items.value_at(i).reminders_field_hash == hash,
                _ => false,
            };
            assert(lost == self@.is_lost(pairs[i as int].0, hash));
            if lost && i != at {
                proof {
                    assert(pairs[i as int].0 != pairs[at as int].0);
                }
                return false;
            }
        }
        proof {
            assert forall|e: Seq<char>| #[trigger] self@.is_lost(e, hash) implies e
                == pairs[at as int].0 by {
                assert(map_of(pairs).dom().contains(e));
                let k = choose|k: int| 0 <= k < pairs.len() && (#[trigger] pairs[k]).0 == e;
                assert(k == at);
            }
        }
        true
    }
}

/// Appends an action.
fn add_action(actions: &mut Vec<SyncAction>, a: SyncAction)
    ensures
        actions_view(final(actions)@) == actions_view(old(actions)@) + seq![a@],
{
    let ghost before = actions_view(actions@);
    actions.push(a);
    assert(actions_view(actions@) =~= before + seq![a@]);
}

impl<'a> Inputs<'a> {
    /// Appends what changes of the two sides of a pair amount to. With `release`
    /// the reminder is deleted in place of being updated.
    fn add_updates(
        &self,
        actions: &mut Vec<SyncAction>,
        reminder: &Reminder,
        task: &Task,
        item: &SyncItemState,
        eid: &String,
        release: bool,
    )
        requires
            self.fits(),
        ensures
            ({
                let (tu, ru) = diff(
                    reminder@,
                    task@,
                    item@.fields,
                    self@.file,
                    self@.config.mapping,
                    self@.tolerance,
                    self@.config.writeback,
                );
                actions_view(final(actions)@) == actions_view(old(actions)@) + self@.task_update(
                    eid@,
                    task@,
                    tu,
                ) + (if release {
                    seq![ActionView::DeleteReminder { eid: eid@ }]
                } else {
                    self@.reminder_update(eid@, ru)
                })
            }),
    {
        let (t_upd, r_upd) = three_way_diff(
            reminder,
            task,
            &item.fields,
            self.file,
            &self.map,
            self.tolerance,
            &self.config.writeback,
        );
        let ghost start = actions_view(actions@);
        if !t_upd.is_empty() {
            let updated_task = apply_task_updates(task, &t_upd, &self.map, self.today);
            add_action(actions, SyncAction::UpdateTask { eid: eid.clone(), updated_task });
        }
        assert(actions_view(actions@) =~= start + self@.task_update(eid@, task@, t_upd@));
        let ghost middle = actions_view(actions@);
        if release {
            add_action(actions, SyncAction::DeleteReminder { eid: eid.clone() });
        } else if !r_upd.is_empty() {
            let updated_reminder = build_reminder_update(eid.as_str(), &r_upd, self.config);
            add_action(actions, SyncAction::UpdateReminder { eid: eid.clone(), updated_reminder });
            assert(actions_view(actions@) =~= middle + self@.reminder_update(eid@, r_upd@));
        } else {
            assert(actions_view(actions@) =~= middle + self@.reminder_update(eid@, r_upd@));
        }
    }

    /// Whether a task asks to remove the reminder with an external identifier.
    fn has_ejected(&self, eid: &String) -> (r: bool)
        ensures
            r == self@.is_ejected(eid@),
    {
        for i in 0..self.tasks.len()
            invariant
                forall|k: int|
                    0 <= k < i ==> !(eid_of(#[trigger] self@.tasks[k]) matches Some(e)
                        && sentinel_original(e) == Some(eid@)),
        {
            assert(self@.tasks[i as int] == self.tasks@[i as int]@);
            if let Some(e) = task_eid(&self.tasks[i]) {
                if let Some(original) = sentinel_original_eid(e) {
                    if original == *eid {
                        return true;
                    }
                }
            }
        }
        false
    }

    /// Whether the file cannot be the one that the known pairs come from.
    fn has_stale_state(&self) -> (r: bool)
        ensures
            r == self@.is_stale(),
    {
        for i in 0..self.tasks.len()
            invariant
                forall|k: int| 0 <= k < i ==> eid_of(#[trigger] self@.tasks[k]) is None,
        {
            assert(self@.tasks[i as int] == self.tasks@[i as int]@);
            if task_eid(&self.tasks[i]).is_some() {
                return false;
            }
        }
        self.tasks.len() > 0
    }

    /// Appends what is done about the pair at position `at`, and gives the
    /// position of the reminder that it goes on as.
    fn decide_pair(
        &self,
        actions: &mut Vec<SyncAction>,
        sides: &Vec<(Option<usize>, Option<usize>)>,
        fresh: &Vec<(usize, u64)>,
        stale: bool,
        at: usize,
    ) -> (relinked: Option<usize>)
        requires
            self.fits(),
            self.lists_fresh(fresh@),
            stale == self@.is_stale(),
            at < self@.pairs.len(),
            sides@.len() == self@.pairs.len(),
            forall|i: int|
                0 <= i < sides@.len() ==> self.are_sides(self@.pairs[i].0, #[trigger] sides@[i]),
        ensures
            actions_view(final(actions)@) == actions_view(old(actions)@) + self@.for_pair(
                self@.pairs[at as int].0,
            ),
            match relinked {
                Some(i) => i < self.reminders@.len() && self@.relinks(
                    self@.pairs[at as int].0,
                    self.reminders@[i as int]@.external_id,
                ),
                None => forall|new: Seq<char>| !self@.relinks(self@.pairs[at as int].0, new),
            },
    {
        let n: usize = self.state.items.len();
        let ghost pairs = self@.pairs;
        let eid = self.state.items.key_at(at);
        let item = self.state.items.value_at(at);
        let ghost start = actions_view(actions@);
        proof {
            assert(distinct_keys(pairs));
            lemma_map_of(pairs);
            assert(pairs[at as int].0 == eid@);
            assert(self@.items()[eid@] == item@);
            assert(self.are_sides(eid@, sides@[at as int]));
        }
        match sides[at] {
            (Some(r), Some(t)) => {
                let release: bool = self.release.contains(eid.as_str());
                self.add_updates(
                    actions,
                    &self.reminders[r],
                    &self.tasks[t],
                    item,
                    eid,
                    release,
                );
                assert(actions_view(actions@) =~= start + self@.for_pair(eid@));
                None
            },
            (None, Some(t)) => {
                let task = &self.tasks[t];
                let hash: u64 = item.reminders_field_hash;
                assert(self@.is_lost(eid@, hash));
                if hash != 0 {
                    let candidate = self.only_fresh(fresh, hash);
                    if let Some(i) = candidate {
                        if self.is_only_lost_at(sides, at) {
                            let new_eid = &self.reminders[i].external_id;
                            assert(self@.relinks(eid@, new_eid@));
                            let ghost chosen = choose|new: Seq<char>| #[trigger]
                                self@.relinks(eid@, new);
                            assert(self@.is_fresh(chosen, hash));
                            assert(chosen == new_eid@);
                            add_action(
                                actions,
                                SyncAction::RelinkEid {
                                    old_eid: eid.clone(),
                                    new_eid: new_eid.clone(),
                                },
                            );
                            self.add_updates(
                                actions,
                                &self.reminders[i],
                                task,
                                item,
                                new_eid,
                                false,
                            );
                            assert(actions_view(actions@) =~= start + self@.for_pair(eid@));
                            return Some(i);
                        }
                    }
                }
                assert(forall|new: Seq<char>| !self@.relinks(eid@, new));
                if item.task_line_hash == 0 || task_line_hash(task) != item.task_line_hash {
                    let reminder_update = task_to_reminder_update(
                        eid.as_str(),
                        task,
                        self.config,
                        &self.map,
                    );
                    add_action(
                        actions,
                        SyncAction::ResurrectReminder {
                            eid: eid.clone(),
                            reminder_update,
                            target_list: self.config.reminders_list.clone(),
                        },
                    );
                } else {
                    add_action(actions, SyncAction::DeleteTask { eid: eid.clone() });
                }
                None
            },
            (Some(r), None) => {
                let reminder = &self.reminders[r];
                if reminder.is_completed {
                    assert(actions_view(actions@) =~= start + self@.for_pair(eid@));
                } else if self.has_ejected(eid) {
                    add_action(actions, SyncAction::DeleteReminder { eid: eid.clone() });
                } else if stale {
                    add_action(
                        actions,
                        SyncAction::CreateTask { eid: eid.clone(), reminder: reminder.clone() },
                    );
                } else {
                    let fields = build_field_state_from_reminder(reminder);
                    if item.reminders_field_hash == 0 || synced_field_hash(&fields)
                        != item.reminders_field_hash {
                        let task = reminder_to_task_on(reminder, &self.map, self.today);
                        add_action(actions, SyncAction::ResurrectTask { eid: eid.clone(), task });
                    } else {
                        add_action(actions, SyncAction::DeleteReminder { eid: eid.clone() });
                    }
                }
                None
            },
            (None, None) => {
                assert(actions_view(actions@) =~= start + self@.for_pair(eid@));
                None
            },
        }
    }

    /// Appends what is done about the tasks that opt out.
    fn decide_sentinels(&self, actions: &mut Vec<SyncAction>)
        ensures
            actions_view(final(actions)@) == actions_view(old(actions)@) + self@.for_sentinels(
                self@.tasks.len(),
            ),
    {
        let ghost start = actions_view(actions@);
        assert(actions_view(actions@) =~= start + self@.for_sentinels(0));
        for i in 0..self.tasks.len()
            invariant
                start == actions_view(old(actions)@),
                actions_view(actions@) == start + self@.for_sentinels(i as nat),
        {
            assert(self@.tasks[i as int] == self.tasks@[i as int]@);
            let ghost before = actions_view(actions@);
            if let Some(e) = task_eid(&self.tasks[i]) {
                if let Some(original) = sentinel_original_eid(e) {
                    if !self.state.items.contains_key(original.as_str()) {
                        add_action(
                            actions,
                            SyncAction::CleanSentinelTag { sentinel_eid: e.to_owned() },
                        );
                    }
                }
            }
            assert(actions_view(actions@) =~= before + self@.for_sentinel(self@.tasks[i as int]));
            assert(actions_view(actions@) =~= start + self@.for_sentinels((i + 1) as nat));
        }
    }

    /// Appends what is done about the known pairs, and gives the external
    /// identifiers that pairs go on with.
    #[verifier::rlimit(50)]
    fn decide_pairs(&self, actions: &mut Vec<SyncAction>) -> (relinked: TextSet)
        requires
            self.fits(),
        ensures
            actions_view(final(actions)@) == actions_view(old(actions)@) + self@.for_pairs(
                self@.pairs.len(),
            ),
            forall|new: Seq<char>| #[trigger]
                relinked@.contains(new) <==> exists|old: Seq<char>| #[trigger]
                    self@.relinks(old, new),
    {
        let n: usize = self.state.items.len();
        let ghost pairs = self@.pairs;
        let sides = self.sides();
        let fresh = self.fresh_reminders();
        let stale: bool = self.has_stale_state();
        let mut relinked = TextSet::new();
        let ghost start = actions_view(actions@);
        assert(actions_view(actions@) =~= start + self@.for_pairs(0));
        for i in 0..n
            invariant
                n == pairs.len(),
                pairs == self@.pairs,
                self.fits(),
                self.lists_fresh(fresh@),
                stale == self@.is_stale(),
                sides@.len() == pairs.len(),
                forall|k: int|
                    0 <= k < sides@.len() ==> self.are_sides(self@.pairs[k].0, #[trigger] sides@[k]),
                start == actions_view(old(actions)@),
                actions_view(actions@) == start + self@.for_pairs(i as nat),
                forall|new: Seq<char>| #[trigger]
                    relinked@.contains(new) <==> exists|k: int|
                        0 <= k < i && self@.relinks((#[trigger] pairs[k]).0, new),
        {
            let ghost before = relinked@;
            let r = self.decide_pair(actions, &sides, &fresh, stale, i);
            if let Some(p) = r {
                relinked.insert(self.reminders[p].external_id.clone());
            }
            assert(actions_view(actions@) =~= start + self@.for_pairs((i + 1) as nat));
            proof {
                assert forall|new: Seq<char>| #[trigger]
                    relinked@.contains(new) <==> exists|k: int|
                        0 <= k < i + 1 && self@.relinks((#[trigger] pairs[k]).0, new) by {
                    if before.contains(new) {
                        let k = choose|k: int|
                            0 <= k < i && self@.relinks((#[trigger] pairs[k]).0, new);
                        assert(self@.relinks(pairs[k].0, new));
                    }
                    if let Some(p) = r {
                        let came = self.reminders@[p as int]@.external_id;
                        assert(self@.relinks(pairs[i as int].0, came));
                        if self@.relinks(pairs[i as int].0, new) {
                            let hash = self@.items()[pairs[i as int].0].reminders_field_hash;
                            assert(self@.is_fresh(new, hash));
                            assert(new == came);
                        }
                    }
                }
            }
        }
        proof {
            lemma_map_of(pairs);
            assert forall|new: Seq<char>| #[trigger]
                relinked@.contains(new) <==> exists|old: Seq<char>| #[trigger]
                    self@.relinks(old, new) by {
                if relinked@.contains(new) {
                    let k = choose|k: int| 0 <= k < n && self@.relinks((#[trigger] pairs[k]).0, new);
                    assert(self@.relinks(pairs[k].0, new));
                }
                if exists|old: Seq<char>| #[trigger] self@.relinks(old, new) {
                    let old = choose|old: Seq<char>| #[trigger] self@.relinks(old, new);
                    assert(map_of(pairs).dom().contains(old));
                    let k = choose|k: int| 0 <= k < pairs.len() && (#[trigger] pairs[k]).0 == old;
                    assert(self@.relinks(pairs[k].0, new));
                }
            }
        }
        relinked
    }

    /// Appends what is done about the reminders that are not known.
    fn decide_imports(&self, actions: &mut Vec<SyncAction>, relinked: &TextSet)
        requires
            forall|new: Seq<char>| #[trigger]
                relinked@.contains(new) <==> exists|old: Seq<char>| #[trigger]
                    self@.relinks(old, new),
        ensures
            actions_view(final(actions)@) == actions_view(old(actions)@) + self@.for_imports(
                self@.reminders.len(),
            ),
    {
        let ghost start = actions_view(actions@);
        assert(actions_view(actions@) =~= start + self@.for_imports(0));
        for i in 0..self.reminders.len()
            invariant
                forall|new: Seq<char>| #[trigger]
                    relinked@.contains(new) <==> exists|old: Seq<char>| #[trigger]
                        self@.relinks(old, new),
                start == actions_view(old(actions)@),
                actions_view(actions@) == start + self@.for_imports(i as nat),
        {
            let r = &self.reminders[i];
            assert(self@.reminders[i as int] == r@);
            let import: bool = r.list == self.config.reminders_list
                && !self.state.items.contains_key(r.external_id.as_str()) && !relinked.contains(
                r.external_id.as_str(),
            ) && (!r.is_completed || self.config.sync_initial_completed);
            assert(import == self@.is_imported(r@)) by {
                assert(relinked@.contains(r@.external_id) <==> exists|old: Seq<char>| #[trigger]
                    self@.relinks(old, r@.external_id));
            }
            if import {
                add_action(
                    actions,
                    SyncAction::CreateTask { eid: r.external_id.clone(), reminder: r.clone() },
                );
            }
            assert(actions_view(actions@) =~= start + self@.for_imports((i + 1) as nat));
        }
    }

    /// Appends what is done about the tasks that are not known.
    fn decide_pushes(&self, actions: &mut Vec<SyncAction>)
        requires
            self.fits(),
        ensures
            actions_view(final(actions)@) == actions_view(old(actions)@) + self@.for_pushes(
                self@.tasks.len(),
            ),
    {
        let ghost start = actions_view(actions@);
        assert(actions_view(actions@) =~= start + self@.for_pushes(0));
        for i in 0..self.tasks.len()
            invariant
                self.fits(),
                start == actions_view(old(actions)@),
                actions_view(actions@) == start + self@.for_pushes(i as nat),
        {
            let t = &self.tasks[i];
            assert(self@.tasks[i as int] == t@);
            let untracked: bool = match task_eid(t) {
                Some(e) => !is_sentinel_eid(e) && !self.state.items.contains_key(e),
                None => true,
            };
            reveal(can_admit);
            let push: bool = !t.finished && untracked && task_matches_push_filter(
                t,
                self.config,
                &self.filter,
                self.today,
            );
            assert(push == self@.is_pushed(t@));
            if push {
                add_action(
                    actions,
                    SyncAction::CreateReminder {
                        task: t.clone(),
                        target_list: self.config.reminders_list.clone(),
                    },
                );
            }
            assert(actions_view(actions@) =~= start + self@.for_pushes((i + 1) as nat));
        }
    }
}

/// What the decisions for a list depend on.
pub open spec fn scene(
    reminders: Seq<Reminder>,
    tasks: Seq<Task>,
    state: SyncState,
    config: ListSyncConfig,
    task_mtime: Option<Timestamp>,
    release_eids: Set<Seq<char>>,
    timestamp_tolerance_secs: u64,
    today: int,
) -> Scene {
    Scene {
        reminders: reminders_view(reminders),
        tasks: tasks_view(tasks),
        pairs: state.items.pairs(),
        config: config@,
        file: task_mtime,
        release: release_eids,
        tolerance: timestamp_tolerance_secs,
        today,
    }
}

/// Decides what brings one list and the file into step on the day `today`, given
/// what both sides last agreed on.
pub fn compute_sync_actions_on(
    reminders: &[Reminder],
    tasks: &[Task],
    state: &SyncState,
    config: &ListSyncConfig,
    task_mtime: Option<Timestamp>,
    release_eids: &TextSet,
    timestamp_tolerance_secs: u64,
    today: Date,
) -> (actions: Vec<SyncAction>)
    requires
        today.has_room(),
        can_admit(config@, tasks_view(tasks@), today@),
    ensures
        actions_view(actions@) == scene(
            reminders@,
            tasks@,
            *state,
            *config,
            task_mtime,
            release_eids@,
            timestamp_tolerance_secs,
            today@,
        ).plan(),
{
    let inputs = Inputs {
        reminders,
        tasks,
        state,
        config,
        filter: config.compiled_push_filter(),
        map: config.compiled_priority_map(),
        file: task_mtime,
        release: release_eids,
        tolerance: timestamp_tolerance_secs,
        today,
    };
    let mut actions: Vec<SyncAction> = Vec::new();
    assert(actions_view(actions@) =~= Seq::<ActionView>::empty());
    inputs.decide_sentinels(&mut actions);
    let relinked = inputs.decide_pairs(&mut actions);
    inputs.decide_imports(&mut actions, &relinked);
    inputs.decide_pushes(&mut actions);
    assert(actions_view(actions@) =~= inputs@.plan());
    actions
}

/// Decides what brings one list and the file into step. Filters and relative
/// dates go by today in the local time zone; where todo_lib could not count on from
/// that, by January 1, 2000.
pub fn compute_sync_actions_ext(
    reminders: &[Reminder],
    tasks: &[Task],
    state: &SyncState,
    config: &ListSyncConfig,
    _now: Timestamp,
    task_mtime: Option<Timestamp>,
    release_eids: &TextSet,
    timestamp_tolerance_secs: u64,
) -> (actions: Vec<SyncAction>)
    requires
        can_admit(config@, tasks_view(tasks@), PLAIN_DAY as int),
    ensures
        exists|today: int|
            actions_view(actions@) == #[trigger] scene(
                reminders@,
                tasks@,
                *state,
                *config,
                task_mtime,
                release_eids@,
                timestamp_tolerance_secs,
                today,
            ).plan(),
{
    let now = Date::today();
    let today = if now.leaves_room() && can_filter(config, tasks, now) {
        now
    } else {
        Date::plain()
    };
    compute_sync_actions_on(
        reminders,
        tasks,
        state,
        config,
        task_mtime,
        release_eids,
        timestamp_tolerance_secs,
        today,
    )
}

/// Decides what brings one list and the file into step, without a tolerance and
/// without releasing pairs.
pub fn compute_sync_actions(
    reminders: &[Reminder],
    tasks: &[Task],
    state: &SyncState,
    config: &ListSyncConfig,
    now: Timestamp,
    task_mtime: Option<Timestamp>,
) -> (actions: Vec<SyncAction>)
    requires
        can_admit(config@, tasks_view(tasks@), PLAIN_DAY as int),
    ensures
        exists|today: int|
            actions_view(actions@) == #[trigger] scene(
                reminders@,
                tasks@,
                *state,
                *config,
                task_mtime,
                Set::empty(),
                0,
                today,
            ).plan(),
{
    let none = TextSet::new();
    compute_sync_actions_ext(reminders, tasks, state, config, now, task_mtime, &none, 0)
}

/// Where no reminder is found, none is in the list.
proof fn lemma_no_reminder(rs: Seq<ReminderView>, list: Seq<char>, eid: Seq<char>, i: int)
    requires
        find_reminder(rs, list, eid) is None,
        0 <= i < rs.len(),
    ensures
        !(rs[i].list == list && rs[i].external_id == eid),
    decreases rs.len(),
{
    if i < rs.len() - 1 {
        lemma_no_reminder(rs.drop_last(), list, eid, i);
    }
}

/// A reminder that is found is one of the list.
proof fn lemma_find_reminder(rs: Seq<ReminderView>, list: Seq<char>, eid: Seq<char>)
    requires
        find_reminder(rs, list, eid) is Some,
    ensures
        exists|j: int|
            0 <= j < rs.len() && (#[trigger] rs[j]).external_id == eid && rs[j].list == list && Some(
                rs[j],
            ) == find_reminder(rs, list, eid),
    decreases rs.len(),
{
    if rs.last().list == list && rs.last().external_id == eid {
        assert(rs[rs.len() - 1].external_id == eid);
    } else {
        lemma_find_reminder(rs.drop_last(), list, eid);
        let j = choose|j: int|
            0 <= j < rs.drop_last().len() && (#[trigger] rs.drop_last()[j]).external_id == eid
                && rs.drop_last()[j].list == list && Some(rs.drop_last()[j]) == find_reminder(
                rs.drop_last(),
                list,
                eid,
            );
        assert(rs[j].external_id == eid);
    }
}

/// A task that is found among the first tasks is found among all.
proof fn lemma_find_task_prefix(s: Scene, ts: Seq<TaskView>, n: int, eid: Seq<char>)
    requires
        0 <= n <= ts.len(),
        s.find_task(ts.take(n), eid) is Some,
    ensures
        s.find_task(ts, eid) == s.find_task(ts.take(n), eid),
    decreases ts.len() - n,
{
    if n < ts.len() {
        assert(ts.take(n + 1).drop_last() =~= ts.take(n));
        lemma_find_task_prefix(s, ts, n + 1, eid);
    } else {
        assert(ts.take(n) =~= ts);
    }
}

} // verus!
