//! What a run remembers for the next one.

use crate::dates::Timestamp;
use crate::keyed::{distinct_keys, lemma_fresh_key, TextMap};
use crate::text::{copy_opt, opt_text};
use vstd::prelude::*;

verus! {

/// The fields of an item as both sides last agreed on them: the baseline of the
/// three-way comparison.
#[derive(Debug)]
pub struct SyncedFieldState {
    pub title: String,
    pub priority: i32,
    pub is_completed: bool,
    pub completion_date: Option<String>,
    pub due_date: Option<String>,
    pub notes: Option<String>,
    pub list: String,
}

/// What a [`SyncedFieldState`] holds.
#[verifier::ext_equal]
pub struct FieldsView {
    pub title: Seq<char>,
    pub priority: i32,
    pub is_completed: bool,
    pub completion_date: Option<Seq<char>>,
    pub due_date: Option<Seq<char>>,
    pub notes: Option<Seq<char>>,
    pub list: Seq<char>,
}

impl View for SyncedFieldState {
    type V = FieldsView;

    open spec fn view(&self) -> FieldsView {
        FieldsView {
            title: self.title@,
            priority: self.priority,
            is_completed: self.is_completed,
            completion_date: opt_text(self.completion_date),
            due_date: opt_text(self.due_date),
            notes: opt_text(self.notes),
            list: self.list@,
        }
    }
}

impl Clone for SyncedFieldState {
    fn clone(&self) -> (r: Self)
        ensures
            r@ == self@,
    {
        SyncedFieldState {
            title: self.title.clone(),
            priority: self.priority,
            is_completed: self.is_completed,
            completion_date: copy_opt(&self.completion_date),
            due_date: copy_opt(&self.due_date),
            notes: copy_opt(&self.notes),
            list: self.list.clone(),
        }
    }
}

/// What is kept about one synced pair between two runs.
#[derive(Debug)]
pub struct SyncItemState {
    pub eid: String,
    /// The baseline of the three-way comparison.
    pub fields: SyncedFieldState,
    /// When the reminder was last modified.
    pub reminders_last_modified: Option<Timestamp>,
    /// The hash of the task's line without its `eid:` tag.
    pub task_line_hash: u64,
    /// The hash of the reminder's synced fields; zero where it is not known.
    pub reminders_field_hash: u64,
    pub last_synced: Timestamp,
    /// Whether the pair came about by pushing a task to Reminders, rather than by
    /// pulling a reminder into the file.
    pub pushed: bool,
}

/// What a [`SyncItemState`] holds.
#[verifier::ext_equal]
pub struct ItemView {
    pub eid: Seq<char>,
    pub fields: FieldsView,
    pub reminders_last_modified: Option<Timestamp>,
    pub task_line_hash: u64,
    pub reminders_field_hash: u64,
    pub last_synced: Timestamp,
    pub pushed: bool,
}

impl View for SyncItemState {
    type V = ItemView;

    open spec fn view(&self) -> ItemView {
        ItemView {
            eid: self.eid@,
            fields: self.fields@,
            reminders_last_modified: self.reminders_last_modified,
            task_line_hash: self.task_line_hash,
            reminders_field_hash: self.reminders_field_hash,
            last_synced: self.last_synced,
            pushed: self.pushed,
        }
    }
}

impl Clone for SyncItemState {
    fn clone(&self) -> (r: Self)
        ensures
            r@ == self@,
    {
        SyncItemState {
            eid: self.eid.clone(),
            fields: self.fields.clone(),
            reminders_last_modified: self.reminders_last_modified,
            task_line_hash: self.task_line_hash,
            reminders_field_hash: self.reminders_field_hash,
            last_synced: self.last_synced,
            pushed: self.pushed,
        }
    }
}

/// The synced pairs by their external identifiers, and the time of the last run.
#[derive(Debug)]
pub struct SyncState {
    pub items: TextMap<SyncItemState>,
    pub last_sync_time: Option<Timestamp>,
}

/// What a [`SyncState`] holds.
#[verifier::ext_equal]
pub struct StateView {
    pub items: Map<Seq<char>, ItemView>,
    pub last_sync_time: Option<Timestamp>,
}

impl View for SyncState {
    type V = StateView;

    open spec fn view(&self) -> StateView {
        StateView { items: self.items@, last_sync_time: self.last_sync_time }
    }
}

/// A copy of a map of items.
pub fn copy_items(items: &TextMap<SyncItemState>) -> (r: TextMap<SyncItemState>)
    ensures
        r@ == items@,
        r.pairs() == items.pairs(),
{
    let n: usize = items.len();
    let mut out: TextMap<SyncItemState> = TextMap::new();
    assert(items.pairs().take(0) =~= Seq::<(Seq<char>, ItemView)>::empty());
    for i in 0..n
        invariant
            n == items.pairs().len(),
            distinct_keys(items.pairs()),
            out.pairs() == items.pairs().take(i as int),
    {
        proof {
            lemma_fresh_key(items.pairs(), i as int);
        }
        out.insert(items.key_at(i).clone(), items.value_at(i).clone());
        assert(out.pairs() =~= items.pairs().take(i + 1));
    }
    assert(items.pairs().take(n as int) =~= items.pairs());
    out
}

impl Clone for SyncState {
    fn clone(&self) -> (r: Self)
        ensures
            r@ == self@,
    {
        SyncState { items: copy_items(&self.items), last_sync_time: self.last_sync_time }
    }
}

impl Default for SyncState {
    fn default() -> (r: Self)
        ensures
            r@ == (StateView { items: Map::empty(), last_sync_time: None }),
            r.items.pairs().len() == 0,
    {
        SyncState { items: TextMap::new(), last_sync_time: None }
    }
}

} // verus!
