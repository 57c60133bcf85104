//! What the sync reads from tasks and reminders.

use crate::dates::{iso_text, Timestamp};
use crate::reminder::{Reminder, ReminderView};
use crate::sync::config::{priority_of, PriorityMap, TargetView};
use crate::sync::state::{FieldsView, SyncedFieldState};
use crate::task::{content_words, eid_of, is_eid_word, is_meta, is_meta_word, line_of, Task, TaskView};
use crate::text::{
    copy_opt, has_prefix, join, join_texts, opt_text, split_words, text_after, texts, words,
};
use std::collections::hash_map::DefaultHasher;
use std::hash::{Hash, Hasher};
use vstd::prelude::*;
use vstd::std_specs::hash::DefaultHasherAdditionalSpecFns;

verus! {

// ---------------------------------------------------------------------------
// Hashes
// ---------------------------------------------------------------------------

/// What hashing a text writes to a hasher.
pub uninterp spec fn text_writes(s: Seq<char>) -> Seq<Seq<u8>>;

/// Calls `Hash::hash` of `str`. What it writes to the hasher depends on the text
/// alone; it is given a name.
#[verifier::external_body]
fn hash_text(h: &mut DefaultHasher, s: &str)
    ensures
        final(h)@ == old(h)@ + text_writes(s@),
{
    s.hash(h)
}

/// What hashing the synced fields in their order writes to a hasher.
pub uninterp spec fn field_writes(f: FieldsView) -> Seq<Seq<u8>>;

/// Calls `Hash::hash` of a tuple, which hashes the components in order. What it
/// writes to the hasher depends on the fields alone; it is given a name.
#[verifier::external_body]
fn hash_fields(h: &mut DefaultHasher, f: &SyncedFieldState)
    ensures
        final(h)@ == old(h)@ + field_writes(f@),
{
    let dates = (&f.completion_date, &f.due_date);
    (&f.title, f.priority, f.is_completed, dates.0, dates.1, &f.notes, &f.list).hash(h)
}

/// The hash of a text.
pub open spec fn text_hash(s: Seq<char>) -> u64 {
    DefaultHasher::spec_finish(text_writes(s))
}

/// The hash of the synced fields.
pub open spec fn fields_hash(f: FieldsView) -> u64 {
    DefaultHasher::spec_finish(field_writes(f))
}

/// The words of a task's line without its `eid:` tags, one space apart.
pub open spec fn content_line(t: TaskView) -> Seq<char> {
    join(content_words(line_of(t)), " "@)
}

/// The hash of a task's line without its `eid:` tags.
pub open spec fn line_hash(t: TaskView) -> u64 {
    text_hash(content_line(t))
}

/// The words of a list that are kept by a test on each.
fn words_without_eid(all: &Vec<String>) -> (r: Vec<String>)
    ensures
        texts(r@) == texts(all@).filter(|w: Seq<char>| !is_eid_word(w)),
{
    let ghost keep = |w: Seq<char>| !is_eid_word(w);
    let mut out: Vec<String> = Vec::new();
    assert(texts(all@).take(0) =~= Seq::<Seq<char>>::empty());
    proof {
        reveal(Seq::filter);
    }
    assert(texts(out@) =~= texts(all@).take(0).filter(keep));
    for i in 0..all.len()
        invariant
            keep == (|w: Seq<char>| !is_eid_word(w)),
            texts(out@) == texts(all@).take(i as int).filter(keep),
    {
        let ghost before = texts(out@);
        proof {
            reveal(Seq::filter);
            let more = texts(all@).take(i + 1);
            assert(more.drop_last() =~= texts(all@).take(i as int));
            assert(more.last() == all@[i as int]@);
        }
        if !has_prefix(all[i].as_str(), "eid:") {
            out.push(all[i].clone());
            assert(texts(out@) =~= before.push(all@[i as int]@));
        }
    }
    assert(texts(all@).take(all@.len() as int) =~= texts(all@));
    out
}

/// The hash of a task's line without its `eid:` tags. The tag is the join key of
/// the sync and may be reassigned; that is no change of the task.
pub fn task_line_hash(task: &Task) -> (r: u64)
    ensures
        r == line_hash(task@),
{
    let line = task.to_line();
    let all = split_words(line.as_str());
    let kept = words_without_eid(&all);
    let content = join_texts(&kept, " ");
    let mut h = DefaultHasher::new();
    hash_text(&mut h, content.as_str());
    assert(h@ =~= text_writes(content@));
    h.finish()
}

/// The hash of the synced fields.
pub fn synced_field_hash(fields: &SyncedFieldState) -> (r: u64)
    ensures
        r == fields_hash(fields@),
{
    let mut h = DefaultHasher::new();
    hash_fields(&mut h, fields);
    assert(h@ =~= field_writes(fields@));
    h.finish()
}

// ---------------------------------------------------------------------------
// Tasks
// ---------------------------------------------------------------------------

/// The words of a subject that are not metadata, one space apart.
pub open spec fn title_of(t: TaskView) -> Seq<char> {
    join(words(t.subject).filter(|w: Seq<char>| !is_meta(w)), " "@)
}

/// The text of an optional day.
pub open spec fn day_text(d: Option<int>) -> Option<Seq<char>> {
    match d {
        Some(x) => Some(iso_text(x)),
        None => None,
    }
}

/// The title of a task: its subject without contexts, projects and tags.
pub fn extract_title(task: &Task) -> (r: String)
    ensures
        r@ == title_of(task@),
{
    let all = split_words(task.subject.as_str());
    let ghost keep = |w: Seq<char>| !is_meta(w);
    let mut out: Vec<String> = Vec::new();
    assert(texts(all@).take(0) =~= Seq::<Seq<char>>::empty());
    proof {
        reveal(Seq::filter);
    }
    assert(texts(out@) =~= texts(all@).take(0).filter(keep));
    for i in 0..all.len()
        invariant
            keep == (|w: Seq<char>| !is_meta(w)),
            texts(out@) == texts(all@).take(i as int).filter(keep),
    {
        let ghost before = texts(out@);
        proof {
            reveal(Seq::filter);
            let more = texts(all@).take(i + 1);
            assert(more.drop_last() =~= texts(all@).take(i as int));
            assert(more.last() == all@[i as int]@);
        }
        if !is_meta_word(all[i].as_str()) {
            out.push(all[i].clone());
            assert(texts(out@) =~= before.push(all@[i as int]@));
        }
    }
    assert(texts(all@).take(all@.len() as int) =~= texts(all@));
    join_texts(&out, " ")
}

/// The priority in Reminders of a task.
pub fn task_priority(task: &Task, map: &PriorityMap) -> (r: i32)
    ensures
        r == priority_of(map@, task@),
{
    map.task_to_reminders(task)
}

/// The due date of a task as `YYYY-MM-DD`.
pub fn task_due_date(task: &Task) -> (r: Option<String>)
    ensures
        opt_text(r) == day_text(task@.due_date),
{
    match task.due_date {
        Some(d) => Some(d.to_text()),
        None => None,
    }
}

/// The completion date of a task as `YYYY-MM-DD`.
pub fn task_completion_date(task: &Task) -> (r: Option<String>)
    ensures
        opt_text(r) == day_text(task@.finish_date),
{
    match task.finish_date {
        Some(d) => Some(d.to_text()),
        None => None,
    }
}

/// The notes of a task: tasks carry none, notes live in Reminders only.
pub fn task_notes(_task: &Task) -> (r: Option<String>)
    ensures
        r is None,
{
    None
}

/// The value of a task's `eid:` tag.
pub fn task_eid(task: &Task) -> (r: Option<&str>)
    ensures
        (match r {
            Some(e) => Some(e@),
            None => None,
        }) == eid_of(task@),
{
    match task.eid() {
        Some(e) => Some(e.as_str()),
        None => None,
    }
}

/// The fields that a task has in Reminders, in a given list with given notes.
pub open spec fn task_fields(
    t: TaskView,
    mapping: Seq<(i32, TargetView)>,
    notes: Option<Seq<char>>,
    list: Seq<char>,
) -> FieldsView {
    FieldsView {
        title: title_of(t),
        priority: priority_of(mapping, t),
        is_completed: t.finished,
        completion_date: day_text(t.finish_date),
        due_date: day_text(t.due_date),
        notes,
        list,
    }
}

// ---------------------------------------------------------------------------
// Opting out
// ---------------------------------------------------------------------------

/// Whether the value of an `eid:` tag keeps its task out of the sync: `na`,
/// `na/<eid>` or `ns/<eid>`.
pub open spec fn is_sentinel(eid: Seq<char>) -> bool {
    eid == "na"@ || "na/"@.is_prefix_of(eid) || "ns/"@.is_prefix_of(eid)
}

/// The external identifier behind `na/` or `ns/`.
pub open spec fn sentinel_original(eid: Seq<char>) -> Option<Seq<char>> {
    if ("na/"@.is_prefix_of(eid) || "ns/"@.is_prefix_of(eid)) && eid.len() > 3 {
        Some(eid.skip(3))
    } else {
        None
    }
}

/// Whether the value of an `eid:` tag keeps its task out of the sync.
pub fn is_sentinel_eid(eid: &str) -> (r: bool)
    ensures
        r == is_sentinel(eid@),
{
    eid.to_owned() == "na".to_owned() || has_prefix(eid, "na/") || has_prefix(eid, "ns/")
}

/// The external identifier behind `na/` or `ns/`.
pub fn sentinel_original_eid(eid: &str) -> (r: Option<String>)
    ensures
        opt_text(r) == sentinel_original(eid@),
{
    if has_prefix(eid, "na/") || has_prefix(eid, "ns/") {
        proof {
            reveal_strlit("na/");
            reveal_strlit("ns/");
        }
        if eid.unicode_len() > 3 {
            return Some(text_after(eid, 3));
        }
    }
    None
}

// ---------------------------------------------------------------------------
// Reminders
// ---------------------------------------------------------------------------

/// When a reminder was last modified, where it says so in the known form.
pub open spec fn modified_at(r: ReminderView) -> Option<Timestamp> {
    match r.last_modified_date {
        Some(s) => crate::dates::utc_timestamp(s),
        None => None,
    }
}

/// When a reminder was last modified, where it says so in the known form.
pub fn parse_reminder_modified(r: &Reminder) -> (t: Option<Timestamp>)
    ensures
        t == modified_at(r@),
{
    match &r.last_modified_date {
        Some(s) => Timestamp::parse(s.as_str()),
        None => None,
    }
}

/// The synced fields of a reminder.
pub open spec fn reminder_fields(r: ReminderView) -> FieldsView {
    FieldsView {
        title: r.title,
        priority: r.priority,
        is_completed: r.is_completed,
        completion_date: r.completion_date,
        due_date: r.due_date,
        notes: r.notes,
        list: r.list,
    }
}

/// The synced fields of a reminder.
pub fn build_field_state_from_reminder(r: &Reminder) -> (f: SyncedFieldState)
    ensures
        f@ == reminder_fields(r@),
{
    SyncedFieldState {
        title: r.title.clone(),
        priority: r.priority,
        is_completed: r.is_completed,
        completion_date: copy_opt(&r.completion_date),
        due_date: copy_opt(&r.due_date),
        notes: copy_opt(&r.notes),
        list: r.list.clone(),
    }
}

} // verus!
