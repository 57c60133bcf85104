//! A line of a todo.txt file, taken apart.

use crate::dates::{has_plain_year, iso_text, opt_day, reads_back, tag_day, Date};
use crate::keyed::{distinct_keys, lemma_fresh_key, TextMap};
use crate::sync::fields::line_hash;
use crate::text::{
    copy_opt, copy_texts, find, is_digit, is_white, lemma_sift_twice, lemma_words_single, lemma_words_split,
    opt_text, split, texts, words,
};
use chrono::Datelike;
use vstd::prelude::*;

verus! {

/// The priority of a task that has none. Lower values are the letters A to Z.
pub const NO_PRIORITY: u8 = 26;

/// A task of a todo.txt file.
///
/// `subject` holds the text of the line behind the completion mark, the priority
/// and the dates. The lists and `tags` hold what was found in that text.
#[derive(Debug)]
pub struct Task {
    pub subject: String,
    pub priority: u8,
    pub finished: bool,
    pub contexts: Vec<String>,
    pub projects: Vec<String>,
    pub tags: TextMap<String>,
    pub create_date: Option<Date>,
    pub finish_date: Option<Date>,
    pub due_date: Option<Date>,
    pub threshold_date: Option<Date>,
    /// The recurrence rule in the form `rec:1w`.
    pub recurrence: Option<String>,
    pub hashtags: Vec<String>,
}

/// What a [`Task`] holds.
#[verifier::ext_equal]
pub struct TaskView {
    pub subject: Seq<char>,
    pub priority: u8,
    pub finished: bool,
    pub contexts: Seq<Seq<char>>,
    pub projects: Seq<Seq<char>>,
    pub tags: Map<Seq<char>, Seq<char>>,
    pub create_date: Option<int>,
    pub finish_date: Option<int>,
    pub due_date: Option<int>,
    pub threshold_date: Option<int>,
    pub recurrence: Option<Seq<char>>,
    pub hashtags: Seq<Seq<char>>,
}

impl View for Task {
    type V = TaskView;

    open spec fn view(&self) -> TaskView {
        TaskView {
            subject: self.subject@,
            priority: self.priority,
            finished: self.finished,
            contexts: texts(self.contexts@),
            projects: texts(self.projects@),
            tags: self.tags@,
            create_date: opt_day(self.create_date),
            finish_date: opt_day(self.finish_date),
            due_date: opt_day(self.due_date),
            threshold_date: opt_day(self.threshold_date),
            recurrence: opt_text(self.recurrence),
            hashtags: texts(self.hashtags@),
        }
    }
}

/// A copy of a map of tags.
pub fn copy_tags(tags: &TextMap<String>) -> (r: TextMap<String>)
    ensures
        r@ == tags@,
        r.pairs() == tags.pairs(),
{
    let n: usize = tags.len();
    let mut out: TextMap<String> = TextMap::new();
    assert(tags.pairs().take(0) =~= Seq::<(Seq<char>, Seq<char>)>::empty());
    for i in 0..n
        invariant
            n == tags.pairs().len(),
            distinct_keys(tags.pairs()),
            out.pairs() == tags.pairs().take(i as int),
    {
        proof {
            lemma_fresh_key(tags.pairs(), i as int);
        }
        out.insert(tags.key_at(i).clone(), tags.value_at(i).clone());
        assert(out.pairs() =~= tags.pairs().take(i + 1));
    }
    assert(tags.pairs().take(n as int) =~= tags.pairs());
    out
}

/// What an empty task holds.
pub open spec fn empty_task() -> TaskView {
    TaskView {
        subject: Seq::empty(),
        priority: NO_PRIORITY,
        finished: false,
        contexts: Seq::empty(),
        projects: Seq::empty(),
        tags: Map::empty(),
        create_date: None,
        finish_date: None,
        due_date: None,
        threshold_date: None,
        recurrence: None,
        hashtags: Seq::empty(),
    }
}

impl Default for Task {
    fn default() -> (r: Self)
        ensures
            r@ == empty_task(),
    {
        let t = Task {
            subject: String::new(),
            priority: NO_PRIORITY,
            finished: false,
            contexts: Vec::new(),
            projects: Vec::new(),
            tags: TextMap::new(),
            create_date: None,
            finish_date: None,
            due_date: None,
            threshold_date: None,
            recurrence: None,
            hashtags: Vec::new(),
        };
        assert(t@ =~= empty_task());
        t
    }
}

impl Clone for Task {
    fn clone(&self) -> (r: Self)
        ensures
            r@ == self@,
    {
        Task {
            subject: self.subject.clone(),
            priority: self.priority,
            finished: self.finished,
            contexts: copy_texts(&self.contexts),
            projects: copy_texts(&self.projects),
            tags: copy_tags(&self.tags),
            create_date: self.create_date,
            finish_date: self.finish_date,
            due_date: self.due_date,
            threshold_date: self.threshold_date,
            recurrence: copy_opt(&self.recurrence),
            hashtags: copy_texts(&self.hashtags),
        }
    }
}

// ---------------------------------------------------------------------------
// Tags in text
// ---------------------------------------------------------------------------

/// The first colon of a word that is a tag: there is text on both sides of it,
/// and the word is not an address such as `http://host`.
pub open spec fn tag_colon(w: Seq<char>) -> Option<int> {
    let p = crate::text::find(w, ':') as int;
    if 0 < p < w.len() - 1 && !(p + 2 < w.len() && w[p + 1] == '/' && w[p + 2] == '/') {
        Some(p)
    } else {
        None
    }
}

/// The tags among space-separated words; of two with one name the later counts.
pub open spec fn tags_of(ws: Seq<Seq<char>>) -> Map<Seq<char>, Seq<char>>
    decreases ws.len(),
{
    if ws.len() == 0 {
        Map::empty()
    } else {
        let front = tags_of(ws.drop_last());
        match tag_colon(ws.last()) {
            Some(p) => front.insert(ws.last().take(p), ws.last().skip(p + 1)),
            None => front,
        }
    }
}

/// Whether `tags` are the tags of the words `ws`, apart from those whose values
/// stand for dates: `t`, `due` and `until`.
pub open spec fn keeps_tags(ws: Seq<Seq<char>>, tags: Map<Seq<char>, Seq<char>>) -> bool {
    forall|n: Seq<char>|
        n != "t"@ && n != "due"@ && n != "until"@ ==> (#[trigger] tags.dom().contains(n)
            <==> tags_of(ws).dom().contains(n)) && (tags.dom().contains(n) ==> tags[n]
            == tags_of(ws)[n])
}

/// Calls `todo_lib::todotxt::split_tag`, which splits a word at its first colon
/// into the name and the value of a tag, and refuses a word with an empty name
/// or value and an address. Only whether it refuses is reported.
#[verifier::external_body]
fn splits_as_tag(w: &str) -> (r: bool)
    ensures
        r == (tag_colon(w@) is Some),
{
    todo_lib::todotxt::split_tag(w).is_some()
}

/// Whether a word of a subject is metadata: a context, a project or a tag.
pub open spec fn is_meta(w: Seq<char>) -> bool {
    (w.len() > 0 && (w[0] == '@' || w[0] == '+')) || tag_colon(w) is Some
}

/// Whether a word of a subject is metadata: a context, a project or a tag.
pub fn is_meta_word(w: &str) -> (r: bool)
    ensures
        r == is_meta(w@),
{
    let n: usize = w.unicode_len();
    if n > 0 {
        let c = w.get_char(0);
        if c == '@' || c == '+' {
            return true;
        }
    }
    splits_as_tag(w)
}

// ---------------------------------------------------------------------------
// Reading and writing lines
// ---------------------------------------------------------------------------

/// The text before the first space.
pub open spec fn first_word(s: Seq<char>) -> Seq<char> {
    s.take(find(s, ' ') as int)
}

/// Whether a word may be read as a date: digits and dashes, or a number and a unit of time.
pub open spec fn is_datelike(w: Seq<char>) -> bool {
    &&& w.len() > 0
    &&& is_digit(w[0])
    &&& if w.contains('-') {
        forall|i: int| 0 <= i < w.len() ==> is_digit(#[trigger] w[i]) || w[i] == '-' || w[i] == '+'
    } else {
        &&& forall|i: int| 0 <= i < w.len() - 1 ==> is_digit(#[trigger] w[i])
        &&& w.last() == 'd' || w.last() == 'w' || w.last() == 'm' || w.last() == 'y' || w.last()
            == 'b'
    }
}

/// Whether a text may start with a priority.
pub open spec fn is_priority_like(s: Seq<char>) -> bool {
    s.len() > 0 && s[0] == '(' && first_word(s).len() == 3
}

/// Whether a subject is read as it is written: it is not empty, only spaces separate its
/// words, and none stands around them.
pub open spec fn is_plain_subject(s: Seq<char>) -> bool {
    &&& s.len() > 0
    &&& s[0] != ' '
    &&& s.last() != ' '
    &&& forall|i: int| 0 <= i < s.len() && is_white(#[trigger] s[i]) ==> s[i] == ' '
}

/// Whether the line of a task says what the task is: its dates are plain, only a finished
/// task has a completion date, and a finished one with a creation date has it. The
/// subject is plain, and does not start like what could stand in its place: a completion
/// mark, a priority or a date.
pub open spec fn is_writable(t: TaskView) -> bool {
    &&& t.priority <= NO_PRIORITY
    &&& t.finish_date is Some ==> t.finished
    &&& t.finished && t.create_date is Some ==> t.finish_date is Some
    &&& t.finish_date matches Some(d) ==> has_plain_year(d)
    &&& t.create_date matches Some(d) ==> has_plain_year(d)
    &&& is_plain_subject(t.subject)
    &&& !t.finished && t.priority == NO_PRIORITY && t.create_date is None
        ==> !"x "@.is_prefix_of(t.subject)
    &&& t.priority == NO_PRIORITY && t.finish_date is None && t.create_date is None
        ==> !is_priority_like(t.subject)
    &&& t.create_date is None ==> !is_datelike(first_word(t.subject))
}

/// Whether two tasks are the same before their subjects, which have the same words but
/// for metadata.
pub open spec fn same_start(a: TaskView, b: TaskView) -> bool {
    &&& a.finished == b.finished
    &&& a.priority == b.priority
    &&& a.finish_date == b.finish_date
    &&& a.create_date == b.create_date
    &&& plain_words(a.subject) == plain_words(b.subject)
}

/// Whether `t` is what a line says, with relative dates counted from a base. What was
/// written of a task is read back. The contexts are the words with an `@` before them.
/// The due date is that of the `due:` tag, which then holds it.
pub open spec fn is_read(line: Seq<char>, base: int, t: TaskView) -> bool {
    let ws = split(line, ' ');
    let tags = tags_of(ws);
    &&& forall|v: TaskView| is_writable(v) && line == #[trigger] line_of(v) ==> same_start(t, v)
    &&& forall|c: Seq<char>| #[trigger]
        t.contexts.contains(c) <==> c.len() > 0 && ws.contains("@"@ + c)
    &&& t.due_date == (if tags.dom().contains("due"@) {
        tag_day(tags["due"@], base)
    } else {
        None
    })
    &&& tags.dom().contains("due"@) ==> reads_back(tags["due"@], t.due_date)
    &&& t.due_date matches Some(d) ==> t.tags.dom().contains("due"@) && t.tags["due"@] == iso_text(d)
    &&& t.tags.dom().contains("due"@) ==> tags.dom().contains("due"@)
}

/// What todo_lib reads from a line, with relative dates counted from a base.
pub uninterp spec fn parsed_task(line: Seq<char>, base: int) -> TaskView;

/// Calls `todo_lib::todotxt::Task::parse`. The task depends on the line and the
/// base alone; it is given a name. Of its tags all but `t`, `due` and `until`,
/// whose values may be rewritten as dates, are those of the line's words. What the
/// `Display` of a plain task wrote is read back; contexts are the words with an `@`; the
/// due date is what `parse_date` makes of the `due:` tag.
#[verifier::external_body]
fn parse_line(line: &str, base: Date) -> (r: Task)
    requires
        base.has_room(),
    ensures
        r@ == parsed_task(line@, base@),
        keeps_tags(split(line@, ' '), r@.tags),
        is_read(line@, base@, r@),
{
    let day = chrono::NaiveDate::from_num_days_from_ce_opt(base.days).unwrap();
    let t = todo_lib::todotxt::Task::parse(line, day);
    let date = |d: chrono::NaiveDate| Date { days: d.num_days_from_ce() };
    Task {
        subject: t.subject, priority: t.priority, finished: t.finished,
        contexts: t.contexts, projects: t.projects, hashtags: t.hashtags,
        tags: TextMap { entries: t.tags.into_iter().collect() },
        create_date: t.create_date.map(date), finish_date: t.finish_date.map(date),
        due_date: t.due_date.map(date), threshold_date: t.threshold_date.map(date),
        recurrence: t.recurrence.map(|r| r.to_string()),
    }
}

/// The letter of a priority.
pub open spec fn priority_letter(p: u8) -> char {
    (('A' as int) + p) as char
}

/// The part of a line that stands before the subject.
pub open spec fn line_prefix(t: TaskView) -> Seq<char> {
    (if t.finished {
        "x "@
    } else {
        Seq::empty()
    }) + (if t.priority < NO_PRIORITY {
        seq!['(', priority_letter(t.priority), ')', ' ']
    } else {
        Seq::empty()
    }) + (match t.finish_date {
        Some(d) => iso_text(d).push(' '),
        None => Seq::empty(),
    }) + (match t.create_date {
        Some(d) => iso_text(d).push(' '),
        None => Seq::empty(),
    })
}

/// The line of a task: completion mark, priority, completion date, creation date
/// and subject.
pub open spec fn line_of(t: TaskView) -> Seq<char> {
    line_prefix(t) + t.subject
}

/// Calls the `Display` of `todo_lib::todotxt::Task`, which writes the completion
/// mark, the priority, the two dates and the subject, each with a space behind
/// it but the subject.
#[verifier::external_body]
fn display(task: &Task) -> (r: String)
    ensures
        r@ == line_of(task@),
{
    let date = |d: Date| chrono::NaiveDate::from_num_days_from_ce_opt(d.days).unwrap();
    let t = todo_lib::todotxt::Task {
        subject: task.subject.clone(),
        priority: task.priority,
        finished: task.finished,
        finish_date: task.finish_date.map(date),
        create_date: task.create_date.map(date),
        ..Default::default()
    };
    format!("{t}")
}

// ---------------------------------------------------------------------------
// Changing a task
// ---------------------------------------------------------------------------

/// No character of `s` is white space.
pub open spec fn one_word(s: Seq<char>) -> bool {
    forall|i: int| 0 <= i < s.len() ==> !is_white(#[trigger] s[i])
}

/// Whether a word is an `eid:` tag, with or without a value.
pub open spec fn is_eid_word(w: Seq<char>) -> bool {
    "eid:"@.is_prefix_of(w)
}

/// The words of a text that are not `eid:` tags.
pub open spec fn content_words(s: Seq<char>) -> Seq<Seq<char>> {
    words(s).filter(|w: Seq<char>| !is_eid_word(w))
}

/// A tag as a word.
pub open spec fn tag_word(tag: Seq<char>, value: Seq<char>) -> Seq<char> {
    tag + ":"@ + value
}

/// The words of a text other than two given ones.
pub open spec fn other_words(s: Seq<char>, a: Option<Seq<char>>, b: Option<Seq<char>>) -> Seq<
    Seq<char>,
> {
    words(s).filter(|w: Seq<char>| a != Some(w) && b != Some(w))
}

/// The word of a tag that is there.
pub open spec fn present_tag(tags: Map<Seq<char>, Seq<char>>, tag: Seq<char>) -> Option<Seq<char>> {
    if tags.dom().contains(tag) {
        Some(tag_word(tag, tags[tag]))
    } else {
        None
    }
}

/// The word of a tag with a value.
pub open spec fn new_tag(tag: Seq<char>, value: Seq<char>) -> Option<Seq<char>> {
    if value.len() > 0 {
        Some(tag_word(tag, value))
    } else {
        None
    }
}

/// The words of a text that are not metadata.
pub open spec fn plain_words(s: Seq<char>) -> Seq<Seq<char>> {
    words(s).filter(|w: Seq<char>| !is_meta(w))
}

/// Whether a text is the value of a tag in a line: not empty, without white space,
/// and not the rest of an address.
pub open spec fn is_tag_value(v: Seq<char>) -> bool {
    &&& v.len() > 0
    &&& one_word(v)
    &&& !(v.len() >= 2 && v[0] == '/' && v[1] == '/')
}

/// A tag is metadata.
pub(crate) proof fn lemma_tag_is_meta(tag: Seq<char>, value: Seq<char>)
    requires
        tag.len() > 0,
        !tag.contains(':'),
        is_tag_value(value),
    ensures
        is_meta(tag_word(tag, value)),
{
    reveal_strlit(":");
    let w = tag_word(tag, value);
    let n = tag.len() as int;
    assert forall|i: int| 0 <= i < n implies #[trigger] w[i] != ':' by {
        assert(w[i] == tag[i]);
    }
    assert(w[n] == ':');
    crate::text::lemma_find_is(w, ':', n);
    assert(forall|i: int| 0 <= i < value.len() ==> w[n + 1 + i] == #[trigger] value[i]);
    if n + 2 < w.len() {
        assert(w[n + 1] == value[0]);
        assert(w[n + 2] == value[1]);
    }
}

/// Texts with the same words but for metadata have the same plain words.
proof fn lemma_plain_words(
    s: Seq<char>,
    t: Seq<char>,
    a: Option<Seq<char>>,
    b: Option<Seq<char>>,
)
    requires
        other_words(s, a, b) == other_words(t, a, b),
        a matches Some(w) ==> is_meta(w),
        b matches Some(w) ==> is_meta(w),
    ensures
        plain_words(s) == plain_words(t),
{
    let wide = |w: Seq<char>| a != Some(w) && b != Some(w);
    let narrow = |w: Seq<char>| !is_meta(w);
    lemma_sift_twice(words(s), wide, narrow);
    lemma_sift_twice(words(t), wide, narrow);
}

/// The subject that todo_lib makes of `subject` when the tag `tag` is set to
/// `value`, or removed where `value` is empty.
pub uninterp spec fn retagged(
    subject: Seq<char>,
    tags: Map<Seq<char>, Seq<char>>,
    tag: Seq<char>,
    value: Seq<char>,
) -> Seq<char>;

/// The tags of a task whose tag `tag` was set to `value`, or removed where
/// `value` is empty. A present tag does not take a value that makes it an
/// address.
pub open spec fn retagged_map(
    tags: Map<Seq<char>, Seq<char>>,
    tag: Seq<char>,
    value: Seq<char>,
) -> Map<Seq<char>, Seq<char>> {
    if value.len() == 0 {
        tags.remove(tag)
    } else if tags.dom().contains(tag) && tags[tag] != value && value.len() >= 2 && value[0] == '/'
        && value[1] == '/' {
        tags
    } else {
        tags.insert(tag, value)
    }
}

/// Calls `todo_lib::todotxt::Task::update_tag_with_value`, on the subject and the
/// tags of a task. What becomes of the subject depends on the arguments alone
/// and is given a name; where neither the tag nor its old or new value holds white
/// space, the other words of the subject stay as they were.
#[verifier::external_body]
fn update_tag(subject: &str, tags: &TextMap<String>, tag: &str, value: &str) -> (r: (
    String,
    TextMap<String>,
))
    requires
        tag@.len() > 0,
        !tag@.contains(':'),
    ensures
        r.0@ == retagged(subject@, tags@, tag@, value@),
        r.1@ == retagged_map(tags@, tag@, value@),
        one_word(tag@) && one_word(value@) && (tags@.dom().contains(tag@) ==> one_word(
            tags@[tag@],
        )) ==> other_words(r.0@, present_tag(tags@, tag@), new_tag(tag@, value@)) == other_words(
            subject@,
            present_tag(tags@, tag@),
            new_tag(tag@, value@),
        ),
{
    let mut t = todo_lib::todotxt::Task {
        subject: subject.to_string(),
        tags: tags.entries.iter().cloned().collect(),
        ..Default::default()
    };
    t.update_tag_with_value(tag, value);
    (t.subject, TextMap { entries: t.tags.into_iter().collect() })
}

/// A name without the sign `@` that may stand before it.
pub open spec fn without_at(s: Seq<char>) -> Seq<char> {
    if s.len() > 0 && s[0] == '@' {
        s.skip(1)
    } else {
        s
    }
}

/// The subject that todo_lib makes of `subject` when the context `old` is
/// replaced by `new`, or removed where `new` is empty.
pub uninterp spec fn recontexted(subject: Seq<char>, old: Seq<char>, new: Seq<char>) -> Seq<char>;

/// The subject and the contexts of a task whose context `old` was replaced by
/// `new`. An empty `old` adds `new`; an empty `new` removes `old`.
pub open spec fn with_context_replaced(
    subject: Seq<char>,
    contexts: Seq<Seq<char>>,
    old: Seq<char>,
    new: Seq<char>,
) -> (Seq<char>, Seq<Seq<char>>) {
    let gone = without_at(old);
    let come = without_at(new);
    if gone.len() == 0 {
        if new.len() > 0 && !contexts.contains(new) {
            (subject + " @"@ + new, contexts.push(new))
        } else {
            (subject, contexts)
        }
    } else {
        let left = contexts.filter(|c: Seq<char>| c != gone);
        (recontexted(subject, gone, come), if come.len() > 0 {
            left.push(come)
        } else {
            left
        })
    }
}

/// Calls `todo_lib::todotxt::Task::replace_context`, on the subject and the
/// contexts of a task. What becomes of the subject when a context is taken away
/// depends on the arguments alone and is given a name; where neither context holds
/// white space, the other words of the subject stay as they were.
#[verifier::external_body]
fn replace_context(subject: &str, contexts: &Vec<String>, old: &str, new: &str) -> (r: (
    String,
    Vec<String>,
))
    ensures
        texts(r.1@) == with_context_replaced(subject@, texts(contexts@), old@, new@).1,
        r.0@ == (if without_at(old@).len() == 0 {
            with_context_replaced(subject@, texts(contexts@), old@, new@).0
        } else {
            recontexted(subject@, without_at(old@), without_at(new@))
        }),
        without_at(old@).len() > 0 && one_word(old@) && one_word(new@) ==> other_words(
            r.0@,
            Some("@"@ + without_at(old@)),
            Some("@"@ + without_at(new@)),
        ) == other_words(
            subject@,
            Some("@"@ + without_at(old@)),
            Some("@"@ + without_at(new@)),
        ),
{
    let mut t = todo_lib::todotxt::Task {
        subject: subject.to_string(),
        contexts: contexts.clone(),
        ..Default::default()
    };
    t.replace_context(old, new);
    (t.subject, t.contexts)
}

/// Calls `todo_lib::todotxt::Task::complete_with_config` in the mode that keeps
/// the priority and always sets the date. An unfinished task becomes finished on
/// `date`; a finished one is left alone.
#[verifier::external_body]
fn complete_on(finished: bool, finish_date: Option<Date>, date: Date) -> (r: (bool, Option<Date>))
    ensures
        r.0,
        opt_day(r.1) == (if finished {
            opt_day(finish_date)
        } else {
            Some(date@)
        }),
{
    let day = |d: Date| chrono::NaiveDate::from_num_days_from_ce_opt(d.days).unwrap();
    let finish_date = finish_date.map(day);
    let mut t = todo_lib::todotxt::Task { finished, finish_date, ..Default::default() };
    let how = todo_lib::todotxt::CompletionConfig {
        completion_mode: todo_lib::todotxt::CompletionMode::JustMark,
        completion_date_mode: todo_lib::todotxt::CompletionDateMode::AlwaysSet,
    };
    t.complete_with_config(day(date), how);
    (t.finished, t.finish_date.map(|d| Date { days: d.num_days_from_ce() }))
}

/// Calls `todo_lib::todotxt::Task::uncomplete` in the mode that keeps the
/// priority. A finished task becomes unfinished and loses its completion date;
/// an unfinished one is left alone.
#[verifier::external_body]
fn uncomplete(finished: bool, finish_date: Option<Date>) -> (r: (bool, Option<Date>))
    ensures
        !r.0,
        opt_day(r.1) == (if finished {
            None
        } else {
            opt_day(finish_date)
        }),
{
    let day = |d: Date| chrono::NaiveDate::from_num_days_from_ce_opt(d.days).unwrap();
    let finish_date = finish_date.map(day);
    let mut t = todo_lib::todotxt::Task { finished, finish_date, ..Default::default() };
    t.uncomplete(todo_lib::todotxt::CompletionMode::JustMark);
    (t.finished, t.finish_date.map(|d| Date { days: d.num_days_from_ce() }))
}

/// The value of a task's `eid:` tag.
pub open spec fn eid_of(t: TaskView) -> Option<Seq<char>> {
    if t.tags.dom().contains("eid"@) {
        Some(t.tags["eid"@])
    } else {
        None
    }
}

/// A task whose `eid:` tag was set to `value`, or removed where it is empty.
pub open spec fn with_eid(t: TaskView, value: Seq<char>) -> TaskView {
    TaskView {
        subject: retagged(t.subject, t.tags, "eid"@, value),
        tags: retagged_map(t.tags, "eid"@, value),
        ..t
    }
}

/// A task whose `due:` tag was set to `value`, or removed where it is empty. The
/// due date follows the tag where the tag changes.
pub open spec fn with_due(t: TaskView, value: Seq<char>, today: int) -> TaskView {
    let changes = if value.len() == 0 {
        t.tags.dom().contains("due"@)
    } else {
        !t.tags.dom().contains("due"@) || t.tags["due"@] != value
    };
    TaskView {
        subject: retagged(t.subject, t.tags, "due"@, value),
        tags: retagged_map(t.tags, "due"@, value),
        due_date: if !changes {
            t.due_date
        } else if value.len() == 0 {
            None
        } else {
            tag_day(value, today)
        },
        ..t
    }
}

/// A task to which the context `ctx` was added.
pub open spec fn with_context(t: TaskView, ctx: Seq<char>) -> TaskView {
    let r = with_context_replaced(t.subject, t.contexts, Seq::empty(), ctx);
    TaskView { subject: r.0, contexts: r.1, ..t }
}

/// A task from which the context `ctx` was taken.
pub open spec fn without_context(t: TaskView, ctx: Seq<char>) -> TaskView {
    let r = with_context_replaced(t.subject, t.contexts, ctx, Seq::empty());
    TaskView { subject: r.0, contexts: r.1, ..t }
}

/// A new context is no word of the title.
pub proof fn lemma_context_added(t: TaskView, ctx: Seq<char>)
    requires
        one_word(ctx),
    ensures
        plain_words(with_context(t, ctx).subject) == plain_words(t.subject),
{
    reveal_strlit(" @");
    let subject = with_context(t, ctx).subject;
    if subject != t.subject {
        let w = seq!['@'] + ctx;
        assert(subject =~= t.subject.push(' ') + w);
        lemma_words_split(t.subject, ' ', w);
        lemma_words_single(w);
        reveal(Seq::filter);
        let all = words(t.subject).push(w);
        assert(words(subject) =~= all);
        assert(all.drop_last() =~= words(t.subject));
        assert(is_meta(w));
    }
}

/// What stands before the subject in a line is nothing, or ends with a space.
proof fn lemma_line_prefix(t: TaskView)
    ensures
        line_prefix(t).len() > 0 ==> line_prefix(t).last() == ' ',
{
    reveal_strlit("x ");
}

/// Tasks that differ in their `eid:` tags alone have lines with the same words but
/// for those tags.
proof fn lemma_content_words(a: TaskView, b: TaskView)
    requires
        line_prefix(a) == line_prefix(b),
        content_words(a.subject) == content_words(b.subject),
    ensures
        content_words(line_of(a)) == content_words(line_of(b)),
{
    let p = line_prefix(a);
    if p.len() == 0 {
        assert(line_of(a) =~= a.subject);
        assert(line_of(b) =~= b.subject);
    } else {
        lemma_line_prefix(a);
        let q = p.drop_last();
        let keep = |w: Seq<char>| !is_eid_word(w);
        assert(q.push(' ') =~= p);
        lemma_words_split(q, ' ', a.subject);
        lemma_words_split(q, ' ', b.subject);
        Seq::filter_distributes_over_add(words(q), words(a.subject), keep);
        Seq::filter_distributes_over_add(words(q), words(b.subject), keep);
    }
}

impl Task {
    /// Reads a line; relative dates are counted from `base`.
    pub fn parse(line: &str, base: Date) -> (r: Task)
        requires
            base.has_room(),
        ensures
            r@ == parsed_task(line@, base@),
            keeps_tags(split(line@, ' '), r@.tags),
            is_read(line@, base@, r@),
    {
        parse_line(line, base)
    }

    /// The line of the task.
    pub fn to_line(&self) -> (r: String)
        ensures
            r@ == line_of(self@),
    {
        display(self)
    }

    /// The value of the `eid:` tag.
    pub fn eid(&self) -> (r: Option<&String>)
        ensures
            (match r {
                Some(e) => Some(e@),
                None => None,
            }) == eid_of(self@),
    {
        self.tags.get("eid")
    }

    /// Sets the `eid:` tag to `value`, or removes it where `value` is empty. That is
    /// no change of the task: the hash of its line stays.
    pub fn set_eid(&mut self, value: &str)
        ensures
            final(self)@ == with_eid(old(self)@, value@),
            one_word(value@) && (eid_of(old(self)@) matches Some(e) ==> one_word(e))
                ==> content_words(final(self)@.subject) == content_words(old(self)@.subject)
                && line_hash(final(self)@) == line_hash(old(self)@),
    {
        proof {
            reveal_strlit("eid");
            assert("eid"@ =~= seq!['e', 'i', 'd']);
        }
        let (subject, tags) = update_tag(&self.subject, &self.tags, "eid", value);
        proof {
            reveal_strlit("eid:");
            reveal_strlit(":");
            if one_word(value@) && (eid_of(self@) matches Some(e) ==> one_word(e)) {
                let a = present_tag(self.tags@, "eid"@);
                let b = new_tag("eid"@, value@);
                let wide = |w: Seq<char>| a != Some(w) && b != Some(w);
                let narrow = |w: Seq<char>| !is_eid_word(w);
                assert forall|v: Seq<char>| is_eid_word(#[trigger] tag_word("eid"@, v)) by {
                    assert("eid:"@ =~= tag_word("eid"@, v).take(4));
                }
                lemma_sift_twice(words(subject@), wide, narrow);
                lemma_sift_twice(words(self.subject@), wide, narrow);
                lemma_content_words(self@, with_eid(self@, value@));
            }
        }
        self.subject = subject;
        self.tags = tags;
    }

    /// Sets the `due:` tag to `value`, or removes it where `value` is empty.
    pub fn set_due(&mut self, value: &str, today: Date)
        requires
            today.has_room(),
        ensures
            final(self)@ == with_due(old(self)@, value@, today@),
            (value@.len() > 0 ==> is_tag_value(value@)) && (old(self)@.tags.dom().contains("due"@)
                ==> is_tag_value(old(self)@.tags["due"@])) ==> plain_words(final(self)@.subject)
                == plain_words(old(self)@.subject),
            value@.len() > 0 && !(old(self)@.tags.dom().contains("due"@)
                && old(self)@.tags["due"@] == value@) ==> reads_back(
                value@,
                final(self)@.due_date,
            ),
    {
        proof {
            reveal_strlit("due");
            assert("due"@ =~= seq!['d', 'u', 'e']);
        }
        let wanted = value.to_owned();
        let (subject, tags) = update_tag(&self.subject, &self.tags, "due", value);
        proof {
            if (value@.len() > 0 ==> is_tag_value(value@)) && (self.tags@.dom().contains("due"@)
                ==> is_tag_value(self.tags@["due"@])) {
                if value@.len() > 0 {
                    lemma_tag_is_meta("due"@, value@);
                }
                if self.tags@.dom().contains("due"@) {
                    lemma_tag_is_meta("due"@, self.tags@["due"@]);
                }
                lemma_plain_words(
                    subject@,
                    self.subject@,
                    present_tag(self.tags@, "due"@),
                    new_tag("due"@, value@),
                );
            }
        }
        if value.is_empty() {
            if self.tags.contains_key("due") {
                self.due_date = None;
            }
        } else {
            let same: bool = match self.tags.get("due") {
                Some(v) => *v == wanted,
                None => false,
            };
            if !same {
                self.due_date = Date::parse_tag(value, today);
            }
        }
        self.subject = subject;
        self.tags = tags;
    }

    /// Adds a context.
    pub fn add_context(&mut self, ctx: &str)
        ensures
            final(self)@ == with_context(old(self)@, ctx@),
            one_word(ctx@) ==> plain_words(final(self)@.subject) == plain_words(
                old(self)@.subject,
            ),
    {
        proof {
            reveal_strlit("");
            assert(""@ =~= Seq::<char>::empty());
        }
        let (subject, contexts) = replace_context(&self.subject, &self.contexts, "", ctx);
        proof {
            if one_word(ctx@) {
                lemma_context_added(self@, ctx@);
            }
        }
        self.subject = subject;
        self.contexts = contexts;
    }

    /// Takes a context away.
    pub fn remove_context(&mut self, ctx: &str)
        ensures
            final(self)@ == without_context(old(self)@, ctx@),
            one_word(ctx@) && without_at(ctx@).len() > 0 ==> plain_words(final(self)@.subject)
                == plain_words(old(self)@.subject),
    {
        proof {
            reveal_strlit("");
            assert(""@ =~= Seq::<char>::empty());
        }
        let (subject, contexts) = replace_context(&self.subject, &self.contexts, ctx, "");
        proof {
            reveal_strlit("@");
            if one_word(ctx@) && without_at(ctx@).len() > 0 {
                lemma_plain_words(
                    subject@,
                    self.subject@,
                    Some("@"@ + without_at(ctx@)),
                    Some("@"@ + without_at(""@)),
                );
            }
        }
        self.subject = subject;
        self.contexts = contexts;
    }

    /// Marks an unfinished task as finished on `date`.
    pub fn complete(&mut self, date: Date)
        ensures
            final(self)@ == (if old(self)@.finished {
                old(self)@
            } else {
                (TaskView { finished: true, finish_date: Some(date@), ..old(self)@ })
            }),
    {
        let (finished, finish_date) = complete_on(self.finished, self.finish_date, date);
        self.finished = finished;
        self.finish_date = finish_date;
    }

    /// Marks a finished task as unfinished.
    pub fn reopen(&mut self)
        ensures
            final(self)@ == (if old(self)@.finished {
                (TaskView { finished: false, finish_date: None, ..old(self)@ })
            } else {
                old(self)@
            }),
    {
        let (finished, finish_date) = uncomplete(self.finished, self.finish_date);
        self.finished = finished;
        self.finish_date = finish_date;
    }
}

/// Contexts, projects and tags are metadata, and a word without a sign before it and
/// without a colon is none. An address is no tag.
pub proof fn metadata_is_this(name: Seq<char>, value: Seq<char>, w: Seq<char>)
    requires
        name.len() > 0,
        !name.contains(':'),
        value.len() > 0,
        w.len() > 0,
    ensures
        is_meta(seq!['@'] + w),
        is_meta(seq!['+'] + w),
        !(value.len() >= 2 && value[0] == '/' && value[1] == '/') ==> is_meta(
            name.push(':') + value,
        ) && tag_colon(name.push(':') + value) == Some(name.len() as int),
        name[0] != '@' && name[0] != '+' && value.len() >= 2 && value[0] == '/' && value[1] == '/'
            ==> !is_meta(name.push(':') + value),
        w[0] != '@' && w[0] != '+' && !w.contains(':') ==> !is_meta(w),
{
    let tag = name.push(':') + value;
    let n = name.len() as int;
    assert((seq!['@'] + w)[0] == '@');
    assert((seq!['+'] + w)[0] == '+');
    assert forall|i: int| 0 <= i < n implies #[trigger] tag[i] != ':' by {
        assert(tag[i] == name[i]);
        assert(name.contains(name[i]));
    }
    assert(tag[n] == ':');
    crate::text::lemma_find_is(tag, ':', n);
    assert(tag[n + 1] == value[0]);
    if value.len() >= 2 {
        assert(tag[n + 2] == value[1]);
    }
    assert(tag[0] == name[0]);
    crate::text::lemma_find(w, ':');
    if !w.contains(':') && crate::text::find(w, ':') < w.len() {
        assert(w[crate::text::find(w, ':') as int] == ':');
    }
}

proof fn lemma_tags_last(ws: Seq<Seq<char>>, w: Seq<char>, n: Seq<char>)
    ensures
        tags_of(ws.push(w)).dom().contains(n) <==> tags_of(ws).dom().contains(n) || (tag_colon(
            w,
        ) matches Some(p) && w.take(p) == n),
        tag_colon(w) matches Some(p) ==> (w.take(p) == n ==> tags_of(ws.push(w))[n] == w.skip(p + 1)),
        !(tag_colon(w) matches Some(p) && w.take(p) == n) && tags_of(ws).dom().contains(n)
            ==> tags_of(ws.push(w))[n] == tags_of(ws)[n],
{
    assert(ws.push(w).drop_last() =~= ws);
    assert(ws.push(w).last() == w);
}

/// Of two tags with one name the later counts; other words change nothing.
pub proof fn later_tag_counts(
    ws: Seq<Seq<char>>,
    w: Seq<char>,
    name: Seq<char>,
    value: Seq<char>,
    other: Seq<char>,
)
    requires
        name.len() > 0,
        !name.contains(':'),
        value.len() > 0,
        !(value.len() >= 2 && value[0] == '/' && value[1] == '/'),
        other != name,
        tag_colon(w) is None,
    ensures
        tags_of(Seq::empty()) == Map::<Seq<char>, Seq<char>>::empty(),
        tags_of(ws.push(w)) == tags_of(ws),
        tags_of(ws.push(name.push(':') + value)).dom().contains(name),
        tags_of(ws.push(name.push(':') + value))[name] == value,
        tags_of(ws.push(name.push(':') + value)).dom().contains(other) <==> tags_of(
            ws,
        ).dom().contains(other),
        tags_of(ws).dom().contains(other) ==> tags_of(ws.push(name.push(':') + value))[other]
            == tags_of(ws)[other],
{
    let tag = name.push(':') + value;
    metadata_is_this(name, value, name);
    assert(tag.take(name.len() as int) =~= name);
    assert(tag.skip(name.len() as int + 1) =~= value);
    lemma_tags_last(ws, tag, name);
    lemma_tags_last(ws, tag, other);
    assert(ws.push(w).drop_last() =~= ws);
    assert(ws.push(w).last() == w);
}

} // verus!
