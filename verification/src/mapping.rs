//! Turning reminders into tasks.

use crate::dates::Date;
use crate::reminder::{Reminder, ReminderView};
use crate::sync::config::{target_for, MappingTarget, PriorityMap, TargetView};
use crate::sync::imports::{imported_task_agrees, is_plain_reminder, says_the_same};
use crate::sync::laws::has_clear_targets;
use crate::task::{eid_of, is_read, parsed_task, priority_letter, tag_colon, tags_of, Task};
use crate::text::{join, join_texts, lemma_find_is, lemma_split_push, split, texts};
use vstd::prelude::*;

verus! {

/// A list with the text, where there is one.
pub open spec fn opt_part(o: Option<Seq<char>>) -> Seq<Seq<char>> {
    match o {
        Some(s) => seq![s],
        None => Seq::empty(),
    }
}

/// What a reminder's priority looks like in the file. A completed one has none.
pub open spec fn reminder_target(r: ReminderView, mapping: Seq<(i32, TargetView)>) -> TargetView {
    if r.is_completed {
        TargetView::Nothing
    } else {
        target_for(mapping, r.priority)
    }
}

/// The parts of a reminder's line: completion mark and completion date or letter
/// priority, creation date, title, context, due date and external identifier.
pub open spec fn line_parts(r: ReminderView, mapping: Seq<(i32, TargetView)>) -> Seq<Seq<char>> {
    (if r.is_completed {
        seq!["x"@] + opt_part(r.completion_date)
    } else {
        match reminder_target(r, mapping) {
            TargetView::Priority(p) => seq![seq!['(', priority_letter(p), ')']],
            _ => Seq::empty(),
        }
    }) + opt_part(r.creation_date) + seq![r.title] + (match reminder_target(r, mapping) {
        TargetView::Context(c) => seq!["@"@ + c],
        _ => Seq::empty(),
    }) + (match r.due_date {
        Some(d) => seq!["due:"@ + d],
        None => Seq::empty(),
    }) + seq!["eid:"@ + r.external_id]
}

/// The line of a reminder. Notes have no place in it.
pub open spec fn reminder_line(r: ReminderView, mapping: Seq<(i32, TargetView)>) -> Seq<char> {
    join(line_parts(r, mapping), " "@)
}

/// Whether an external identifier can stand in a tag: it is not empty, holds no
/// space and does not make the tag an address.
pub open spec fn fits_tag(eid: Seq<char>) -> bool {
    eid.len() > 0 && !eid.contains(' ') && !(eid.len() >= 2 && eid[0] == '/' && eid[1] == '/')
}

/// A line that ends in an `eid:` tag has that tag.
proof fn lemma_last_tag(parts: Seq<Seq<char>>, eid: Seq<char>)
    requires
        parts.len() >= 2,
        parts.last() == "eid:"@ + eid,
        fits_tag(eid),
    ensures
        tags_of(split(join(parts, " "@), ' ')).dom().contains("eid"@),
        tags_of(split(join(parts, " "@), ' '))["eid"@] == eid,
{
    reveal_strlit("eid:");
    reveal_strlit("eid");
    reveal_strlit(" ");
    let w = parts.last();
    let head = join(parts.drop_last(), " "@);
    assert(join(parts, " "@) =~= head.push(' ') + w);
    assert(!w.contains(' ')) by {
        if w.contains(' ') {
            let i = w.index_of(' ');
            assert(i >= 4);
            assert(eid[i - 4] == ' ');
        }
    }
    lemma_split_push(head, ' ', w);
    let ws = split(join(parts, " "@), ' ');
    assert(ws.last() == w);
    lemma_find_is(w, ':', 3);
    assert(w[4] == eid[0]);
    assert(eid.len() >= 2 ==> w[5] == eid[1]);
    assert(tag_colon(w) == Some(3int));
    assert(w.take(3) =~= "eid"@);
    assert(w.skip(4) =~= eid);
}

/// The text `prefix` with `s` behind it.
fn prefixed(prefix: &str, s: &String) -> (r: String)
    ensures
        r@ == prefix@ + s@,
{
    prefix.to_owned().concat(s.as_str())
}

/// Appends a part.
fn add_part(parts: &mut Vec<String>, s: String)
    ensures
        texts(final(parts)@) == texts(old(parts)@) + seq![s@],
{
    let ghost before = texts(parts@);
    parts.push(s);
    assert(texts(parts@) =~= before + seq![s@]);
}

/// The task of a reminder, on the day `today`: its line, read as a task. The
/// task carries the external identifier, where that can stand in a tag, and says what
/// a plain reminder says.
pub fn reminder_to_task_on(r: &Reminder, map: &PriorityMap, today: Date) -> (t: Task)
    requires
        today.has_room(),
    ensures
        t@ == parsed_task(reminder_line(r@, map@), today@),
        is_read(reminder_line(r@, map@), today@, t@),
        fits_tag(r@.external_id) ==> eid_of(t@) == Some(r@.external_id),
        is_plain_reminder(r@, map@) && has_clear_targets(map@) ==> says_the_same(r@, t@, map@),
{
    let mut parts: Vec<String> = Vec::new();
    let ghost target = reminder_target(r@, map@);
    assert(texts(parts@) =~= Seq::<Seq<char>>::empty());
    if r.is_completed {
        add_part(&mut parts, "x".to_owned());
        if let Some(date) = &r.completion_date {
            add_part(&mut parts, date.clone());
        }
        assert(texts(parts@) =~= seq!["x"@] + opt_part(r@.completion_date));
    } else if let MappingTarget::Priority(p) = map.reminders_to_task(r.priority) {
        let mut letter = String::new();
        letter.push('(');
        letter.push((65u8 + *p) as char);
        letter.push(')');
        assert(letter@ =~= seq!['(', priority_letter(*p), ')']);
        add_part(&mut parts, letter);
        assert(texts(parts@) =~= seq![seq!['(', priority_letter(*p), ')']]);
    }
    let ghost part1 = texts(parts@);
    if let Some(date) = &r.creation_date {
        add_part(&mut parts, date.clone());
    }
    assert(texts(parts@) =~= part1 + opt_part(r@.creation_date));
    add_part(&mut parts, r.title.clone());
    let ghost part2 = texts(parts@);
    let mut ctx_part: Option<String> = None;
    if !r.is_completed {
        if let MappingTarget::Context(ctx) = map.reminders_to_task(r.priority) {
            ctx_part = Some(prefixed("@", ctx));
        }
    }
    if let Some(c) = ctx_part {
        add_part(&mut parts, c);
    }
    let ghost part3 = texts(parts@);
    assert(part3 =~= part2 + (match target {
        TargetView::Context(c) => seq!["@"@ + c],
        _ => Seq::empty(),
    }));
    if let Some(date) = &r.due_date {
        add_part(&mut parts, prefixed("due:", date));
    }
    assert(texts(parts@) =~= part3 + (match r@.due_date {
        Some(d) => seq!["due:"@ + d],
        None => Seq::empty(),
    }));
    add_part(&mut parts, prefixed("eid:", &r.external_id));
    assert(texts(parts@) =~= line_parts(r@, map@));
    let line = join_texts(&parts, " ");
    let t = Task::parse(line.as_str(), today);
    proof {
        if fits_tag(r@.external_id) {
            lemma_last_tag(line_parts(r@, map@), r@.external_id);
            reveal_strlit("eid");
            reveal_strlit("t");
            reveal_strlit("due");
            reveal_strlit("until");
            assert("eid"@.len() != "t"@.len());
            assert("eid"@[0] != "due"@[0]);
            assert("eid"@.len() != "until"@.len());
            assert(t@.tags.dom().contains("eid"@));
        }
        if is_plain_reminder(r@, map@) && has_clear_targets(map@) {
            imported_task_agrees(r@, map@, t@, today@);
        }
    }
    t
}

/// The task of a reminder, with relative dates counted from today in the local
/// time zone.
pub fn reminder_to_task(r: &Reminder, map: &PriorityMap) -> (t: Task)
    ensures
        exists|today: int|
            t@ == #[trigger] parsed_task(reminder_line(r@, map@), today) && is_read(
                reminder_line(r@, map@),
                today,
                t@,
            ),
        fits_tag(r@.external_id) ==> eid_of(t@) == Some(r@.external_id),
        is_plain_reminder(r@, map@) && has_clear_targets(map@) ==> says_the_same(r@, t@, map@),
{
    let today = Date::today().within_reach();
    reminder_to_task_on(r, map, today)
}

} // verus!
