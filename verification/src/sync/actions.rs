//! The decisions of the sync engine.

use crate::reminder::{Reminder, ReminderView};
use crate::task::{Task, TaskView};
use crate::text::{copy_opt, copy_opt_opt, opt_opt_text, opt_text};
use vstd::prelude::*;

verus! {

/// A partial update of a reminder. `None` leaves a field as it is, `Some(None)`
/// clears it and `Some(Some(v))` sets it to `v`.
#[derive(Debug)]
pub struct ReminderUpdate {
    pub eid: String,
    pub list_name: String,
    pub title: Option<String>,
    pub priority: Option<i32>,
    pub is_completed: Option<bool>,
    pub completion_date: Option<Option<String>>,
    pub due_date: Option<Option<String>>,
    pub notes: Option<Option<String>>,
}

/// What a [`ReminderUpdate`] holds.
#[verifier::ext_equal]
pub struct UpdateView {
    pub eid: Seq<char>,
    pub list_name: Seq<char>,
    pub title: Option<Seq<char>>,
    pub priority: Option<i32>,
    pub is_completed: Option<bool>,
    pub completion_date: Option<Option<Seq<char>>>,
    pub due_date: Option<Option<Seq<char>>>,
    pub notes: Option<Option<Seq<char>>>,
}

impl View for ReminderUpdate {
    type V = UpdateView;

    open spec fn view(&self) -> UpdateView {
        UpdateView {
            eid: self.eid@,
            list_name: self.list_name@,
            title: opt_text(self.title),
            priority: self.priority,
            is_completed: self.is_completed,
            completion_date: opt_opt_text(self.completion_date),
            due_date: opt_opt_text(self.due_date),
            notes: opt_opt_text(self.notes),
        }
    }
}

impl Clone for ReminderUpdate {
    fn clone(&self) -> (r: Self)
        ensures
            r@ == self@,
    {
        ReminderUpdate {
            eid: self.eid.clone(),
            list_name: self.list_name.clone(),
            title: copy_opt(&self.title),
            priority: self.priority,
            is_completed: self.is_completed,
            completion_date: copy_opt_opt(&self.completion_date),
            due_date: copy_opt_opt(&self.due_date),
            notes: copy_opt_opt(&self.notes),
        }
    }
}

/// What is to be done on one of the two sides.
#[derive(Debug)]
pub enum SyncAction {
    /// A reminder has no task yet: create one.
    CreateTask { eid: String, reminder: Reminder },
    /// A task has no reminder yet: create one.
    CreateReminder { task: Task, target_list: String },
    /// The reminder changed: update the task.
    UpdateTask { eid: String, updated_task: Task },
    /// The task changed: update the reminder.
    UpdateReminder { eid: String, updated_reminder: ReminderUpdate },
    /// The reminder was deleted: delete the task.
    DeleteTask { eid: String },
    /// The task was deleted or released: delete the reminder.
    DeleteReminder { eid: String },
    /// Both sides changed: apply a merged result to both.
    MergeConflict { eid: String, updated_task: Task, updated_reminder: ReminderUpdate },
    /// The task was deleted, but the reminder has changed since: create the task anew.
    ResurrectTask { eid: String, task: Task },
    /// The reminder was deleted, but the task has changed since: create the reminder
    /// anew.
    ResurrectReminder { eid: String, reminder_update: ReminderUpdate, target_list: String },
    /// The reminder that an opt-out tag names is gone: simplify the tag.
    CleanSentinelTag { sentinel_eid: String },
    /// A reminder got a new external identifier: move the pair to it.
    RelinkEid { old_eid: String, new_eid: String },
}

/// What a [`SyncAction`] says.
#[verifier::ext_equal]
pub enum ActionView {
    CreateTask { eid: Seq<char>, reminder: ReminderView },
    CreateReminder { task: TaskView, target_list: Seq<char> },
    UpdateTask { eid: Seq<char>, updated_task: TaskView },
    UpdateReminder { eid: Seq<char>, updated_reminder: UpdateView },
    DeleteTask { eid: Seq<char> },
    DeleteReminder { eid: Seq<char> },
    MergeConflict { eid: Seq<char>, updated_task: TaskView, updated_reminder: UpdateView },
    ResurrectTask { eid: Seq<char>, task: TaskView },
    ResurrectReminder { eid: Seq<char>, reminder_update: UpdateView, target_list: Seq<char> },
    CleanSentinelTag { sentinel_eid: Seq<char> },
    RelinkEid { old_eid: Seq<char>, new_eid: Seq<char> },
}

impl View for SyncAction {
    type V = ActionView;

    open spec fn view(&self) -> ActionView {
        match *self {
            SyncAction::CreateTask { eid, reminder } => ActionView::CreateTask {
                eid: eid@,
                reminder: reminder@,
            },
            SyncAction::CreateReminder { task, target_list } => ActionView::CreateReminder {
                task: task@,
                target_list: target_list@,
            },
            SyncAction::UpdateTask { eid, updated_task } => ActionView::UpdateTask {
                eid: eid@,
                updated_task: updated_task@,
            },
            SyncAction::UpdateReminder { eid, updated_reminder } => ActionView::UpdateReminder {
                eid: eid@,
                updated_reminder: updated_reminder@,
            },
            SyncAction::DeleteTask { eid } => ActionView::DeleteTask { eid: eid@ },
            SyncAction::DeleteReminder { eid } => ActionView::DeleteReminder { eid: eid@ },
            SyncAction::MergeConflict { eid, updated_task, updated_reminder } => ActionView::MergeConflict {
                eid: eid@,
                updated_task: updated_task@,
                updated_reminder: updated_reminder@,
            },
            SyncAction::ResurrectTask { eid, task } => ActionView::ResurrectTask {
                eid: eid@,
                task: task@,
            },
            SyncAction::ResurrectReminder { eid, reminder_update, target_list } => ActionView::ResurrectReminder {
                eid: eid@,
                reminder_update: reminder_update@,
                target_list: target_list@,
            },
            SyncAction::CleanSentinelTag { sentinel_eid } => ActionView::CleanSentinelTag {
                sentinel_eid: sentinel_eid@,
            },
            SyncAction::RelinkEid { old_eid, new_eid } => ActionView::RelinkEid {
                old_eid: old_eid@,
                new_eid: new_eid@,
            },
        }
    }
}

/// What a list of actions says.
pub open spec fn actions_view(v: Seq<SyncAction>) -> Seq<ActionView> {
    v.map_values(|a: SyncAction| a@)
}

} // verus!
