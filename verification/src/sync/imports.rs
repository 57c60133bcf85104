//! What a reminder becomes in the file says what the reminder says.

use crate::dates::{has_plain_year, iso_text, tag_day, Timestamp};
use crate::mapping::{line_parts, opt_part, reminder_line, reminder_target};
use crate::reminder::ReminderView;
use crate::sync::config::{carries, priority_of, target_for, TargetView, WritebackConfig};
use crate::sync::diff::diff;
use crate::sync::fields::{day_text, title_of};
use crate::sync::laws::{
    agree, agreement_is_quiet, has_clear_targets, has_distinct_targets, has_plain_due,
    is_clear_target, lemma_priority_of_none, lemma_priority_of_only, lemma_target_for,
    lemma_target_is_clear,
};
use crate::sync::state::FieldsView;
use crate::task::{
    empty_task, first_word, is_datelike, is_meta, is_priority_like, is_read, is_tag_value,
    is_writable, lemma_tag_is_meta, line_of, one_word, plain_words, priority_letter, same_start,
    tag_colon, tag_word, tags_of, TaskView, NO_PRIORITY,
};
use crate::text::{
    all_pieces, all_words, find, is_digit, is_white, join, lemma_all_pieces, lemma_all_pieces_add,
    lemma_all_words_add, lemma_find, lemma_find_is, lemma_join_front, lemma_join_spaces,
    lemma_pieces_join, lemma_words_clean, lemma_words_join, lemma_words_single, only_spaces, split,
    words,
};
use vstd::prelude::*;

verus! {

/// Whether a text is a date as Reminders writes it.
pub open spec fn is_date_text(s: Seq<char>) -> bool {
    &&& s.len() == 10
    &&& forall|i: int|
        0 <= i < 10 ==> if i == 4 || i == 7 {
            #[trigger] s[i] == '-'
        } else {
            is_digit(s[i])
        }
    &&& exists|d: int| has_plain_year(d) && s == #[trigger] iso_text(d)
}

/// Whether a title is words without metadata, one space apart.
pub open spec fn is_plain_title(s: Seq<char>) -> bool {
    s.len() > 0 && s == join(plain_words(s), " "@)
}

/// Whether a title can be told from what stands before it in a line: where there is no
/// creation date, it does not start like one; where there is no priority and no other date
/// either, it does not start like a priority; and where it starts the line, it does not
/// start like a completion mark.
pub open spec fn starts_clearly(r: ReminderView, mapping: Seq<(i32, TargetView)>) -> bool {
    let has_letter = !r.is_completed && target_for(mapping, r.priority) is Priority;
    &&& r.creation_date is None ==> !is_datelike(first_word(r.title))
    &&& r.creation_date is None && r.completion_date is None && !has_letter
        ==> !is_priority_like(r.title)
    &&& r.creation_date is None && !r.is_completed && !has_letter
        ==> !"x "@.is_prefix_of(r.title.push(' '))
}

/// Whether a reminder can be written to a line and read back: its title starts with a
/// word that starts clearly and has no white space but spaces, its dates are plain, its
/// external identifier can stand in a tag, and only a completed one has a completion
/// date, without which it has no creation date either.
pub open spec fn is_tidy_reminder(r: ReminderView, mapping: Seq<(i32, TargetView)>) -> bool {
    &&& r.title.len() > 0
    &&& r.title[0] != ' '
    &&& only_spaces(r.title)
    &&& starts_clearly(r, mapping)
    &&& is_tag_value(r.external_id)
    &&& r.due_date matches Some(d) ==> is_date_text(d)
    &&& r.creation_date matches Some(d) ==> is_date_text(d)
    &&& r.completion_date matches Some(d) ==> is_date_text(d) && r.is_completed
    &&& r.is_completed && r.creation_date is Some ==> r.completion_date is Some
}

/// Whether a reminder is an ordinary one: tidy, with a title of plain words.
pub open spec fn is_plain_reminder(r: ReminderView, mapping: Seq<(i32, TargetView)>) -> bool {
    is_tidy_reminder(r, mapping) && is_plain_title(r.title)
}

/// The day of a date text.
spec fn day_in(s: Seq<char>) -> int {
    choose|d: int| has_plain_year(d) && s == #[trigger] iso_text(d)
}

/// The day of an optional date text.
spec fn opt_day_in(o: Option<Seq<char>>) -> Option<int> {
    match o {
        Some(s) => Some(day_in(s)),
        None => None,
    }
}

/// The words behind the title of a reminder's line.
spec fn end_parts(r: ReminderView, mapping: Seq<(i32, TargetView)>) -> Seq<Seq<char>> {
    (match reminder_target(r, mapping) {
        TargetView::Context(c) => seq!["@"@ + c],
        _ => Seq::empty(),
    }) + (match r.due_date {
        Some(d) => seq!["due:"@ + d],
        None => Seq::empty(),
    }) + seq!["eid:"@ + r.external_id]
}

/// The words before the title of a reminder's line.
spec fn start_parts(r: ReminderView, mapping: Seq<(i32, TargetView)>) -> Seq<Seq<char>> {
    (if r.is_completed {
        seq!["x"@] + opt_part(r.completion_date)
    } else {
        match reminder_target(r, mapping) {
            TargetView::Priority(p) => seq![seq!['(', priority_letter(p), ')']],
            _ => Seq::empty(),
        }
    }) + opt_part(r.creation_date)
}

/// The task that the line of a reminder is that of.
spec fn written_task(r: ReminderView, mapping: Seq<(i32, TargetView)>) -> TaskView {
    TaskView {
        finished: r.is_completed,
        priority: match reminder_target(r, mapping) {
            TargetView::Priority(p) => p,
            _ => NO_PRIORITY,
        },
        finish_date: opt_day_in(r.completion_date),
        create_date: opt_day_in(r.creation_date),
        subject: join(seq![r.title] + end_parts(r, mapping), " "@),
        ..empty_task()
    }
}

proof fn lemma_tag_parts(name: Seq<char>, prefix: Seq<char>, value: Seq<char>)
    requires
        name.len() > 0,
        !name.contains(':'),
        one_word(name),
        prefix == name.push(':'),
        is_tag_value(value),
    ensures
        is_meta(prefix + value),
        one_word(prefix + value),
        tag_colon(prefix + value) == Some(name.len() as int),
        (prefix + value).take(name.len() as int) == name,
        (prefix + value).skip(name.len() as int + 1) == value,
{
    reveal_strlit(":");
    let w = prefix + value;
    let n = name.len() as int;
    assert(tag_word(name, value) =~= w);
    lemma_tag_is_meta(name, value);
    assert forall|i: int| 0 <= i < w.len() implies !is_white(#[trigger] w[i]) by {
        if i < n {
            assert(w[i] == name[i]);
        } else if i > n {
            assert(w[i] == value[i - n - 1]);
        }
    }
    assert forall|i: int| 0 <= i < n implies #[trigger] w[i] != ':' by {
        assert(w[i] == name[i]);
    }
    assert(w[n] == ':');
    lemma_find_is(w, ':', n);
    assert(w[n + 1] == value[0]);
    if value.len() > 1 {
        assert(w[n + 2] == value[1]);
    }
    assert(w.take(n) =~= name);
    assert(w.skip(n + 1) =~= value);
}

proof fn lemma_date_text(s: Seq<char>)
    requires
        is_date_text(s),
    ensures
        one_word(s),
        is_tag_value(s),
        s[0] != '@',
        tag_colon(s) is None,
        has_plain_year(day_in(s)),
        s == iso_text(day_in(s)),
{
    assert forall|i: int| 0 <= i < s.len() implies !is_white(#[trigger] s[i]) && s[i] != ':' by {}
    assert(is_digit(s[0]));
    lemma_find(s, ':');
    if s.contains(':') {
        let i = s.index_of(':');
        assert(s[i] == ':');
    }
}

proof fn lemma_no_space(s: Seq<char>)
    requires
        one_word(s),
    ensures
        !s.contains(' '),
        only_spaces(s),
{
    if s.contains(' ') {
        let i = s.index_of(' ');
        assert(is_white(s[i]));
    }
}

/// The words of a plain title are no metadata, and its only pieces.
proof fn lemma_plain_title(s: Seq<char>)
    requires
        is_plain_title(s),
    ensures
        words(s).len() > 0,
        plain_words(s).len() > 0,
        split(s, ' ') == plain_words(s),
        forall|k: int|
            0 <= k < plain_words(s).len() ==> (#[trigger] plain_words(s)[k]).len() > 0 && one_word(
                plain_words(s)[k],
            ) && !is_meta(plain_words(s)[k]),
        only_spaces(s),
        !is_white(s[0]),
{
    let ws = plain_words(s);
    let keep = |w: Seq<char>| !is_meta(w);
    assert forall|k: int| 0 <= k < ws.len() implies (#[trigger] ws[k]).len() > 0 && one_word(ws[k])
        && !is_meta(ws[k]) by {
        words(s).lemma_filter_pred(keep, k);
        lemma_in_filter(words(s), keep, k);
        let j = words(s).index_of(ws[k]);
        lemma_words_clean(s, j);
    }
    assert forall|k: int| 0 <= k < ws.len() implies !(#[trigger] ws[k]).contains(' ') && only_spaces(
        ws[k],
    ) by {
        assert(one_word(ws[k]));
        lemma_no_space(ws[k]);
    }
    lemma_join_spaces(ws);
    lemma_pieces_join(ws);
    lemma_all_pieces(ws);
    assert(ws[0].len() > 0);
    if ws.len() > 1 {
        lemma_join_front(ws[0], ws.skip(1));
        assert(seq![ws[0]] + ws.skip(1) =~= ws);
    }
    assert(s[0] == ws[0][0]);
    assert(!is_white(ws[0][0]));
    if words(s).len() == 0 {
        reveal(Seq::filter);
    }
}

proof fn lemma_in_filter(s: Seq<Seq<char>>, keep: spec_fn(Seq<char>) -> bool, k: int)
    requires
        0 <= k < s.filter(keep).len(),
    ensures
        s.contains(s.filter(keep)[k]),
{
    assert(s.filter(keep).contains(s.filter(keep)[k]));
    crate::sync::laws::lemma_filtered(s, keep, s.filter(keep)[k]);
}

/// What stands behind the title of a plain reminder's line is words of metadata.
proof fn lemma_end_parts(r: ReminderView, mapping: Seq<(i32, TargetView)>)
    requires
        is_tidy_reminder(r, mapping),
        has_clear_targets(mapping),
    ensures
        end_parts(r, mapping).len() > 0,
        forall|k: int|
            0 <= k < end_parts(r, mapping).len() ==> (#[trigger] end_parts(r, mapping)[k]).len() > 0
                && one_word(end_parts(r, mapping)[k]) && is_meta(end_parts(r, mapping)[k]),
        forall|c: Seq<char>|
            end_parts(r, mapping).contains(#[trigger] ("@"@ + c)) <==> reminder_target(r, mapping)
                == TargetView::Context(c),
        ({
            let tags = tags_of(end_parts(r, mapping));
            &&& tags.dom().contains("due"@) <==> r.due_date is Some
            &&& r.due_date matches Some(d) ==> tags["due"@] == d
        }),
{
    reveal_strlit("due");
    reveal_strlit("due:");
    reveal_strlit("eid");
    reveal_strlit("eid:");
    reveal_strlit("@");
    reveal_with_fuel(tags_of, 4);
    let end = end_parts(r, mapping);
    let eid = "eid:"@ + r.external_id;
    assert("eid:"@ =~= "eid"@.push(':'));
    assert("due:"@ =~= "due"@.push(':'));
    lemma_tag_parts("eid"@, "eid:"@, r.external_id);
    if let Some(d) = r.due_date {
        lemma_date_text(d);
        lemma_tag_parts("due"@, "due:"@, d);
    }
    assert("due"@[0] != "eid"@[0]);
    lemma_target_is_clear(mapping, r.priority);
    let ctx = match reminder_target(r, mapping) {
        TargetView::Context(c) => seq!["@"@ + c],
        _ => Seq::empty(),
    };
    let due = match r.due_date {
        Some(d) => seq!["due:"@ + d],
        None => Seq::empty(),
    };
    assert(end =~= ctx + due + seq![eid]);
    assert(eid[0] == 'e');
    assert(end.last() == eid);
    assert(end.drop_last() =~= ctx + due);
    if r.due_date is Some {
        assert((ctx + due).last() == due[0]);
        assert((ctx + due).drop_last() =~= ctx);
        assert(due[0][0] == 'd');
    } else {
        assert(ctx + due =~= ctx);
    }
    if ctx.len() > 0 {
        let w = ctx[0];
        assert(ctx.last() == w);
        assert(ctx.drop_last() =~= Seq::<Seq<char>>::empty());
        assert(w[0] == '@');
        let c = w.skip(1);
        assert(w =~= "@"@ + c);
        assert forall|i: int| 0 <= i < w.len() implies !is_white(#[trigger] w[i]) by {
            if i > 0 {
                assert(w[i] == reminder_target(r, mapping)->Context_0[i - 1]);
            }
        }
        if let Some(p) = tag_colon(w) {
            assert(w.take(p)[0] == '@');
        }
    }
    assert(!tags_of(ctx).dom().contains("due"@));
    assert forall|k: int| 0 <= k < end.len() implies (#[trigger] end[k]).len() > 0 && one_word(
        end[k],
    ) && is_meta(end[k]) by {
        if k < ctx.len() {
            assert(end[k] == ctx[k]);
        } else if k < ctx.len() + due.len() {
            assert(end[k] == due[k - ctx.len()]);
        } else {
            assert(end[k] == eid);
        }
    }
    assert forall|c: Seq<char>|
        end.contains(#[trigger] ("@"@ + c)) <==> reminder_target(r, mapping) == TargetView::Context(
            c,
        ) by {
        let w = "@"@ + c;
        assert(w[0] == '@');
        if end.contains(w) {
            let k = end.index_of(w);
            if k < ctx.len() {
                assert(end[k] == ctx[k]);
                let x = reminder_target(r, mapping)->Context_0;
                assert(w == "@"@ + x);
                assert(w.skip(1) =~= c);
                assert(("@"@ + x).skip(1) =~= x);
            } else if k < ctx.len() + due.len() {
                assert(end[k] == due[k - ctx.len()]);
            } else {
                assert(end[k] == eid);
            }
        }
        if reminder_target(r, mapping) == TargetView::Context(c) {
            assert(end[0] == w);
        }
    }
}

/// What stands before the title of a plain reminder's line is words that are neither
/// contexts nor tags.
proof fn lemma_start_parts(r: ReminderView, mapping: Seq<(i32, TargetView)>)
    requires
        is_tidy_reminder(r, mapping),
        has_clear_targets(mapping),
    ensures
        forall|k: int|
            0 <= k < start_parts(r, mapping).len() ==> (#[trigger] start_parts(
                r,
                mapping,
            )[k]).len() > 0 && start_parts(r, mapping)[k][0] != '@' && one_word(
                start_parts(r, mapping)[k],
            ) && tag_colon(start_parts(r, mapping)[k]) is None,
{
    reveal_strlit("x");
    let start = start_parts(r, mapping);
    lemma_target_is_clear(mapping, r.priority);
    if let Some(d) = r.completion_date {
        lemma_date_text(d);
    }
    if let Some(d) = r.creation_date {
        lemma_date_text(d);
    }
    lemma_find("x"@, ':');
    assert forall|k: int| 0 <= k < start.len() implies (#[trigger] start[k]).len() > 0
        && start[k][0] != '@' && one_word(start[k]) && tag_colon(start[k]) is None by {
        let w = start[k];
        if !r.is_completed {
            if let TargetView::Priority(p) = reminder_target(r, mapping) {
                if k == 0 {
                    assert(w == seq!['(', priority_letter(p), ')']);
                    assert('A' <= priority_letter(p) <= 'Z');
                    lemma_find(w, ':');
                    if w.contains(':') {
                        let i = w.index_of(':');
                        assert(w[i] == ':');
                    }
                }
            }
        }
    }
}

/// The line of a plain reminder is that of a plain task.
proof fn lemma_written(r: ReminderView, mapping: Seq<(i32, TargetView)>)
    requires
        is_tidy_reminder(r, mapping),
        has_clear_targets(mapping),
    ensures
        reminder_line(r, mapping) == line_of(written_task(r, mapping)),
        is_writable(written_task(r, mapping)),
        plain_words(written_task(r, mapping).subject) == plain_words(r.title),
{
    reveal_strlit(" ");
    reveal_strlit("x");
    reveal_strlit("x ");
    let v = written_task(r, mapping);
    let end = end_parts(r, mapping);
    let tail = seq![r.title] + end;
    let created = opt_part(r.creation_date) + tail;
    lemma_end_parts(r, mapping);
    lemma_target_is_clear(mapping, r.priority);
    if let Some(d) = r.completion_date {
        lemma_date_text(d);
        lemma_join_front(d, created);
    }
    if let Some(d) = r.creation_date {
        lemma_date_text(d);
        lemma_join_front(d, tail);
        assert(created =~= seq![d] + tail);
    } else {
        assert(created =~= tail);
    }
    let parts = line_parts(r, mapping);
    if r.is_completed {
        let rest = opt_part(r.completion_date) + created;
        assert(parts =~= seq!["x"@] + rest);
        lemma_join_front("x"@, rest);
        if r.completion_date is Some {
            assert(rest =~= seq![r.completion_date->0] + created);
        } else {
            assert(rest =~= created);
        }
        assert("x"@.push(' ') =~= "x "@);
    } else {
        match reminder_target(r, mapping) {
            TargetView::Priority(p) => {
                let w = seq!['(', priority_letter(p), ')'];
                lemma_join_front(w, created);
                assert(parts =~= seq![w] + created);
                assert(w.push(' ') =~= seq!['(', priority_letter(p), ')', ' ']);
            },
            _ => {
                assert(parts =~= created);
            },
        }
    }
    assert(reminder_line(r, mapping) =~= line_of(v));
    // The subject is plain.
    lemma_join_front(r.title, end);
    let s = v.subject;
    assert(s[0] == r.title[0]);
    assert(s[0] != ' ');
    let k = find(r.title, ' ') as int;
    lemma_find(r.title, ' ');
    assert forall|i: int| 0 <= i < k implies #[trigger] s[i] != ' ' by {
        assert(s[i] == r.title[i]);
    }
    assert(s[k] == ' ');
    lemma_find_is(s, ' ', k);
    assert(first_word(s) =~= first_word(r.title));
    if "x "@.is_prefix_of(s) {
        assert(s[0] == "x "@[0]);
        assert(s[1] == "x "@[1]);
        let t = r.title.push(' ');
        assert(t[0] == s[0] && t[1] == s[1]);
        assert("x "@ =~= t.take(2));
        assert("x "@.is_prefix_of(t));
    }
    assert forall|k: int| 0 <= k < tail.len() implies only_spaces(#[trigger] tail[k]) by {
        if k > 0 {
            assert(tail[k] == end[k - 1]);
            lemma_no_space(end[k - 1]);
        }
    }
    lemma_join_spaces(tail);
    assert(tail.last() == end[end.len() - 1]);
    assert(s.last() == tail.last().last());
    assert(!is_white(tail.last()[tail.last().len() - 1]));
    // Metadata is no plain word.
    lemma_words_join(tail);
    lemma_all_words_add(seq![r.title], end);
    assert(seq![r.title].drop_last() =~= Seq::<Seq<char>>::empty());
    assert(all_words(seq![r.title].drop_last()) == Seq::<Seq<char>>::empty());
    assert(all_words(seq![r.title]) =~= words(r.title));
    assert forall|k: int| 0 <= k < end.len() implies words(#[trigger] end[k]) == seq![end[k]] by {
        lemma_words_single(end[k]);
    }
    crate::text::lemma_all_words(end);
    let keep = |w: Seq<char>| !is_meta(w);
    Seq::filter_distributes_over_add(words(r.title), end, keep);
    lemma_none_kept(end, keep);
    assert(plain_words(s) =~= plain_words(r.title));
}

proof fn lemma_none_kept(s: Seq<Seq<char>>, keep: spec_fn(Seq<char>) -> bool)
    requires
        forall|k: int| 0 <= k < s.len() ==> !keep(#[trigger] s[k]),
    ensures
        s.filter(keep) == Seq::<Seq<char>>::empty(),
    decreases s.len(),
{
    reveal(Seq::filter);
    if s.len() > 0 {
        let front = s.drop_last();
        assert forall|k: int| 0 <= k < front.len() implies !keep(#[trigger] front[k]) by {
            assert(front[k] == s[k]);
        }
        lemma_none_kept(front, keep);
        assert(!keep(s[s.len() - 1]));
    }
}

/// Words without a tag add no tag.
proof fn lemma_tags_behind(a: Seq<Seq<char>>, b: Seq<Seq<char>>)
    requires
        forall|k: int| 0 <= k < a.len() ==> tag_colon(#[trigger] a[k]) is None,
    ensures
        tags_of(a + b) == tags_of(b),
    decreases a.len() + b.len(),
{
    if b.len() > 0 {
        assert((a + b).drop_last() =~= a + b.drop_last());
        lemma_tags_behind(a, b.drop_last());
    } else if a.len() > 0 {
        let front = a.drop_last();
        assert forall|k: int| 0 <= k < front.len() implies tag_colon(#[trigger] front[k]) is None by {
            assert(front[k] == a[k]);
        }
        lemma_tags_behind(front, b);
        assert(a + b =~= a);
        assert(front + b =~= front);
        assert(tag_colon(a[a.len() - 1]) is None);
    } else {
        assert(a + b =~= b);
    }
}

/// Of two lists of words the tags of the second count before those of the first.
proof fn lemma_tags_add(a: Seq<Seq<char>>, b: Seq<Seq<char>>, n: Seq<char>)
    ensures
        tags_of(a + b).dom().contains(n) <==> tags_of(a).dom().contains(n) || tags_of(
            b,
        ).dom().contains(n),
        tags_of(b).dom().contains(n) ==> tags_of(a + b)[n] == tags_of(b)[n],
        !tags_of(b).dom().contains(n) && tags_of(a).dom().contains(n) ==> tags_of(a + b)[n]
            == tags_of(a)[n],
    decreases b.len(),
{
    if b.len() == 0 {
        assert(a + b =~= a);
    } else {
        assert((a + b).drop_last() =~= a + b.drop_last());
        assert((a + b).last() == b.last());
        lemma_tags_add(a, b.drop_last(), n);
    }
}

/// The pieces of a reminder's line.
proof fn lemma_line_words(r: ReminderView, mapping: Seq<(i32, TargetView)>)
    requires
        is_tidy_reminder(r, mapping),
        has_clear_targets(mapping),
    ensures
        split(reminder_line(r, mapping), ' ') == start_parts(r, mapping) + split(r.title, ' ')
            + end_parts(r, mapping),
{
    let start = start_parts(r, mapping);
    let end = end_parts(r, mapping);
    let parts = line_parts(r, mapping);
    lemma_start_parts(r, mapping);
    lemma_end_parts(r, mapping);
    assert(parts =~= start + seq![r.title] + end);
    lemma_pieces_join(parts);
    lemma_all_pieces_add(start + seq![r.title], end);
    lemma_all_pieces_add(start, seq![r.title]);
    assert(seq![r.title].drop_last() =~= Seq::<Seq<char>>::empty());
    assert(all_pieces(seq![r.title].drop_last()) == Seq::<Seq<char>>::empty());
    assert(all_pieces(seq![r.title]) =~= split(r.title, ' '));
    assert forall|k: int| 0 <= k < start.len() implies !(#[trigger] start[k]).contains(' ') by {
        lemma_no_space(start[k]);
    }
    lemma_all_pieces(start);
    assert forall|k: int| 0 <= k < end.len() implies !(#[trigger] end[k]).contains(' ') by {
        lemma_no_space(end[k]);
    }
    lemma_all_pieces(end);
}

/// Whether a task says what a reminder says: title, due date, completion and dates are
/// the same, and the task carries what the priority of an open reminder stands for, and
/// no other letter or context.
pub open spec fn says_the_same(
    r: ReminderView,
    t: TaskView,
    mapping: Seq<(i32, TargetView)>,
) -> bool {
    &&& title_of(t) == r.title
    &&& day_text(t.due_date) == r.due_date
    &&& t.finished == r.is_completed
    &&& day_text(t.finish_date) == r.completion_date
    &&& day_text(t.create_date) == r.creation_date
    &&& forall|c: Seq<char>| #[trigger]
        t.contexts.contains(c) <==> !r.is_completed && target_for(mapping, r.priority)
            == TargetView::Context(c)
    &&& t.priority < NO_PRIORITY ==> !r.is_completed && target_for(mapping, r.priority)
        == TargetView::Priority(t.priority)
    &&& !r.is_completed ==> (target_for(mapping, r.priority) matches TargetView::Priority(p)
        ==> t.priority == p)
    &&& has_distinct_targets(mapping) && !r.is_completed && target_for(mapping, r.priority)
        != TargetView::Nothing ==> priority_of(mapping, t) == r.priority
}

/// Whatever metadata is in its title, the task that a reminder becomes has the plain words
/// of the title, the completion and the dates of the reminder, and the letter that its
/// priority stands for, if any. Its contexts are those in the title and the one that the
/// priority stands for. A due date of the reminder counts before one in the title.
pub proof fn imported_task_keeps_metadata(
    r: ReminderView,
    mapping: Seq<(i32, TargetView)>,
    t: TaskView,
    today: int,
)
    requires
        is_tidy_reminder(r, mapping),
        has_clear_targets(mapping),
        is_read(reminder_line(r, mapping), today, t),
    ensures
        title_of(t) == join(plain_words(r.title), " "@),
        t.finished == r.is_completed,
        day_text(t.finish_date) == r.completion_date,
        day_text(t.create_date) == r.creation_date,
        t.priority == (match target_for(mapping, r.priority) {
            TargetView::Priority(p) => if r.is_completed {
                NO_PRIORITY
            } else {
                p
            },
            _ => NO_PRIORITY,
        }),
        forall|c: Seq<char>| #[trigger]
            t.contexts.contains(c) <==> c.len() > 0 && (split(r.title, ' ').contains("@"@ + c) || (
            !r.is_completed && target_for(mapping, r.priority) == TargetView::Context(c))),
        r.due_date is Some ==> day_text(t.due_date) == r.due_date,
        r.due_date is None ==> t.due_date == (if tags_of(split(r.title, ' ')).dom().contains(
            "due"@,
        ) {
            tag_day(tags_of(split(r.title, ' '))["due"@], today)
        } else {
            None
        }),
        r.due_date is Some || !tags_of(split(r.title, ' ')).dom().contains("due"@)
            ==> has_plain_due(t),
{
    let line = reminder_line(r, mapping);
    let v = written_task(r, mapping);
    let start = start_parts(r, mapping);
    let end = end_parts(r, mapping);
    let mid = split(r.title, ' ');
    let ws = split(line, ' ');
    lemma_written(r, mapping);
    lemma_line_words(r, mapping);
    lemma_start_parts(r, mapping);
    lemma_end_parts(r, mapping);
    lemma_target_is_clear(mapping, r.priority);
    assert(same_start(t, v));
    if let Some(d) = r.completion_date {
        lemma_date_text(d);
    }
    if let Some(d) = r.creation_date {
        lemma_date_text(d);
    }
    assert(title_of(t) == join(plain_words(t.subject), " "@));
    reveal_strlit("@");
    assert forall|c: Seq<char>| #[trigger]
        t.contexts.contains(c) <==> c.len() > 0 && (mid.contains("@"@ + c) || (!r.is_completed
            && target_for(mapping, r.priority) == TargetView::Context(c))) by {
        let w = "@"@ + c;
        assert(w[0] == '@');
        assert(end.contains("@"@ + c) <==> reminder_target(r, mapping) == TargetView::Context(c));
        if ws.contains(w) {
            let k = ws.index_of(w);
            if k < start.len() {
                assert(ws[k] == start[k]);
            } else if k < start.len() + mid.len() {
                assert(ws[k] == mid[k - start.len()]);
                assert(mid.contains(w));
            } else {
                assert(ws[k] == end[k - start.len() - mid.len()]);
                assert(end.contains(w));
            }
        }
        if mid.contains(w) {
            let k = mid.index_of(w);
            assert(ws[start.len() + k] == w);
        }
        if end.contains(w) {
            let k = end.index_of(w);
            assert(ws[start.len() + mid.len() + k] == w);
        }
    }
    assert(ws =~= start + (mid + end));
    lemma_tags_behind(start, mid + end);
    lemma_tags_add(mid, end, "due"@);
    if let Some(d) = r.due_date {
        lemma_date_text(d);
        assert(t.due_date == Some(day_in(d)));
    }
}

/// The task that a reminder becomes says what the reminder says: title, due date,
/// completion and both dates are those of the reminder. An open one carries what its
/// priority stands for, and nothing else of that kind; so that it has the priority, and a
/// comparison of the two asks for nothing. Of a priority that stands for nothing, and of
/// that of a completed reminder, nothing is written.
pub proof fn imported_task_agrees(
    r: ReminderView,
    mapping: Seq<(i32, TargetView)>,
    t: TaskView,
    today: int,
)
    requires
        is_plain_reminder(r, mapping),
        has_clear_targets(mapping),
        is_read(reminder_line(r, mapping), today, t),
    ensures
        says_the_same(r, t, mapping),
        has_plain_due(t),
        r.is_completed || target_for(mapping, r.priority) is Nothing ==> priority_of(mapping, t) == 0,
        has_distinct_targets(mapping) && !r.is_completed && !(target_for(mapping, r.priority)
            is Nothing) ==> agree(r, t, mapping),
        r.priority == 0 && (r.is_completed || target_for(mapping, 0) is Nothing) ==> agree(
            r,
            t,
            mapping,
        ),
{
    let pw = plain_words(r.title);
    imported_task_keeps_metadata(r, mapping, t, today);
    lemma_plain_title(r.title);
    lemma_target_is_clear(mapping, r.priority);
    reveal_strlit("@");
    assert forall|c: Seq<char>| #[trigger]
        t.contexts.contains(c) <==> !r.is_completed && target_for(mapping, r.priority)
            == TargetView::Context(c) by {
        let w = "@"@ + c;
        assert(w[0] == '@');
        if pw.contains(w) {
            let k = pw.index_of(w);
            assert(!is_meta(pw[k]));
        }
    }
    assert forall|k: int| 0 <= k < pw.len() implies tag_colon(#[trigger] pw[k]) is None by {
        assert(!is_meta(pw[k]));
    }
    lemma_tags_behind(pw, Seq::empty());
    assert(pw + Seq::<Seq<char>>::empty() =~= pw);
    assert(tags_of(pw) == tags_of(Seq::<Seq<char>>::empty()));
    let target = target_for(mapping, r.priority);
    if r.is_completed || target is Nothing {
        assert forall|i: int| 0 <= i < mapping.len() implies !carries(
            t,
            (#[trigger] mapping[i]).1,
        ) by {
            assert(is_clear_target(mapping[i].1));
        }
        lemma_priority_of_none(mapping, t);
    } else if has_distinct_targets(mapping) {
        let k = lemma_target_for(mapping, r.priority);
        assert(carries(t, mapping[k].1));
        assert forall|i: int| 0 <= i < k implies !carries(t, (#[trigger] mapping[i]).1) by {
            assert(mapping[i].1 != mapping[k].1 || mapping[i].1 is Nothing);
            assert(is_clear_target(mapping[i].1));
        }
        lemma_priority_of_only(mapping, t, k);
    }
}


/// A comparison right after the import asks for nothing of either side, whatever was known
/// before: of an open reminder where its priority stands for something or is 0, and of a
/// completed one without a priority.
pub proof fn import_is_quiet(
    r: ReminderView,
    mapping: Seq<(i32, TargetView)>,
    t: TaskView,
    today: int,
    base: FieldsView,
    file: Option<Timestamp>,
    tolerance: u64,
    wb: WritebackConfig,
)
    requires
        is_plain_reminder(r, mapping),
        has_clear_targets(mapping),
        has_distinct_targets(mapping),
        is_read(reminder_line(r, mapping), today, t),
        r.priority == 0 || (!r.is_completed && target_for(mapping, r.priority)
            != TargetView::Nothing),
    ensures
        diff(r, t, base, file, mapping, tolerance, wb).0.is_nothing(),
        diff(r, t, base, file, mapping, tolerance, wb).1.is_nothing(),
{
    imported_task_agrees(r, mapping, t, today);
    agreement_is_quiet(r, t, base, file, mapping, tolerance, wb);
}

} // verus!
