//! Reminders and the lists they are in.

use crate::text::{copy_opt, opt_text};
use vstd::prelude::*;

verus! {

/// A reminder as Apple Reminders reports it. Dates are texts in the form
/// `YYYY-MM-DD`, the modification date one in the form `YYYY-MM-DDTHH:MM:SSZ`.
#[derive(Debug)]
pub struct Reminder {
    pub id: String,
    /// Identifies the reminder on every device; the join key of the sync.
    pub external_id: String,
    pub title: String,
    pub due_date: Option<String>,
    pub priority: i32,
    pub is_completed: bool,
    pub completion_date: Option<String>,
    pub creation_date: Option<String>,
    pub last_modified_date: Option<String>,
    pub notes: Option<String>,
    /// The list that the reminder is in.
    pub list: String,
}

/// What a [`Reminder`] holds.
#[verifier::ext_equal]
pub struct ReminderView {
    pub id: Seq<char>,
    pub external_id: Seq<char>,
    pub title: Seq<char>,
    pub due_date: Option<Seq<char>>,
    pub priority: i32,
    pub is_completed: bool,
    pub completion_date: Option<Seq<char>>,
    pub creation_date: Option<Seq<char>>,
    pub last_modified_date: Option<Seq<char>>,
    pub notes: Option<Seq<char>>,
    pub list: Seq<char>,
}

impl View for Reminder {
    type V = ReminderView;

    open spec fn view(&self) -> ReminderView {
        ReminderView {
            id: self.id@,
            external_id: self.external_id@,
            title: self.title@,
            due_date: opt_text(self.due_date),
            priority: self.priority,
            is_completed: self.is_completed,
            completion_date: opt_text(self.completion_date),
            creation_date: opt_text(self.creation_date),
            last_modified_date: opt_text(self.last_modified_date),
            notes: opt_text(self.notes),
            list: self.list@,
        }
    }
}

impl Clone for Reminder {
    fn clone(&self) -> (r: Self)
        ensures
            r@ == self@,
    {
        Reminder {
            id: self.id.clone(),
            external_id: self.external_id.clone(),
            title: self.title.clone(),
            due_date: copy_opt(&self.due_date),
            priority: self.priority,
            is_completed: self.is_completed,
            completion_date: copy_opt(&self.completion_date),
            creation_date: copy_opt(&self.creation_date),
            last_modified_date: copy_opt(&self.last_modified_date),
            notes: copy_opt(&self.notes),
            list: self.list.clone(),
        }
    }
}

/// A reminder list.
#[derive(Debug)]
pub struct ReminderList {
    pub id: String,
    pub title: String,
}

} // verus!
