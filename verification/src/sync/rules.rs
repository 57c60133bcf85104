//! What the configured priorities, the guards, the hashes and the recurrences come to.

use crate::dates::{is_inner_day, MAX_DAYS};
use crate::filter::{are_safe_rules, filter_rules};
use crate::sync::actions::ActionView;
use crate::sync::apply::first_with;
use crate::sync::config::{
    carries, default_config, default_mapping, is_mapping, lemma_placed, mapping_of, placed,
    priority_of, sticky_named, target_for, target_named, ConfigView, StickyTracking, TargetView,
};
use crate::sync::effects::is_first_with;
use crate::sync::faithful::lemma_first_at;
use crate::sync::fields::{line_hash, text_hash, title_of};
use crate::sync::laws::lemma_filtered;
use crate::sync::plan::{admits, can_admit, is_filtered};
use crate::sync::recurrence::{
    are_moved, are_next, completed_by, fits_next, instance_of, is_next, is_past_end, is_rule,
    moves_on, must_have_next, next_day, recurs_safely, same_tag, NextDates,
};
use crate::sync::safety::{is_bulk_deletion, reminder_deletions, task_deletions};
use crate::task::{content_words, eid_of, is_meta, line_of, plain_words, TaskView, NO_PRIORITY};
use crate::text::{
    ascii_lowercase, decimal, decimal_reads_back, integer, is_digit, join, lemma_all_words,
    lemma_words_clean, lemma_words_join, lemma_words_single, signs_are_read, words,
};
use vstd::prelude::*;

verus! {

// ---------------------------------------------------------------------------
// Priorities
// ---------------------------------------------------------------------------

/// `context:NAME` names the context `NAME`, `priority:A` to `priority:Z` name the letters,
/// and `none` in any case, like no text at all, names nothing.
pub proof fn targets_are_named(name: Seq<char>, letter: char, s: Seq<char>)
    ensures
        name.len() > 0 ==> target_named("context:"@ + name) == Ok::<TargetView, Seq<char>>(
            TargetView::Context(name),
        ),
        'A' <= letter <= 'Z' ==> target_named("priority:"@ + seq![letter]) == Ok::<
            TargetView,
            Seq<char>,
        >(TargetView::Priority(((letter as int) - ('A' as int)) as u8)),
        ascii_lowercase(s) == "none"@ || s.len() == 0 ==> target_named(s) == Ok::<
            TargetView,
            Seq<char>,
        >(TargetView::Nothing),
        target_named(s) matches Ok(t) ==> match t {
            TargetView::Context(c) => c.len() > 0 && s == "context:"@ + c,
            TargetView::Priority(p) => p < NO_PRIORITY && s == "priority:"@ + seq![
                ((p as int) + ('A' as int)) as char,
            ],
            TargetView::Nothing => s.len() == 0 || ascii_lowercase(s) == "none"@,
        },
{
    reveal_strlit("none");
    reveal_strlit("context:");
    reveal_strlit("priority:");
    let a = "context:"@ + name;
    let b = "priority:"@ + seq![letter];
    assert(a.take(8) =~= "context:"@);
    assert(a.skip(8) =~= name);
    assert(b.take(9) =~= "priority:"@);
    assert(b[9] == letter);
    assert(ascii_lowercase(a).len() == a.len());
    assert(ascii_lowercase(b).len() == b.len());
    if "context:"@.is_prefix_of(b) {
        assert(b[0] == "context:"@[0]);
    }
    if "context:"@.is_prefix_of(s) {
        assert(s =~= "context:"@ + s.skip(8));
    }
    if "priority:"@.is_prefix_of(s) && s.len() == 10 && 'A' <= s[9] <= 'Z' {
        let p = ((s[9] as int) - ('A' as int)) as u8;
        assert(((p as int) + ('A' as int)) as char == s[9]);
        assert(s =~= "priority:"@ + seq![s[9]]);
    }
}

/// A configured table becomes a map with an entry for each pair whose key is an integer
/// of 32 bits and whose value names a target, and no other entry. The entries stand in
/// the order of the priorities.
pub proof fn table_becomes_map(pairs: Seq<(Seq<char>, Seq<char>)>)
    ensures
        is_mapping(mapping_of(pairs)),
        mapping_of(pairs).len() <= pairs.len(),
        forall|p: i32, t: TargetView| #[trigger]
            mapping_of(pairs).contains((p, t)) <==> exists|k: int|
                0 <= k < pairs.len() && integer((#[trigger] pairs[k]).0) == Some(p as int)
                    && target_named(pairs[k].1) == Ok::<TargetView, Seq<char>>(t),
    decreases pairs.len(),
{
    let all = mapping_of(pairs);
    if pairs.len() > 0 {
        let front = pairs.drop_last();
        let last = pairs[pairs.len() - 1];
        table_becomes_map(front);
        let less = mapping_of(front);
        let read = integer(last.0);
        let named = target_named(last.1);
        let fits = match read {
            Some(n) => i32::MIN <= n <= i32::MAX && named is Ok,
            None => false,
        };
        if fits {
            let e = (read->0 as i32, named->Ok_0);
            targets_are_named(Seq::empty(), 'A', last.1);
            lemma_placed(less, e);
            assert(all == placed(less, e));
        }
        assert forall|p: i32, t: TargetView| #[trigger]
            all.contains((p, t)) <==> exists|k: int|
                0 <= k < pairs.len() && integer((#[trigger] pairs[k]).0) == Some(p as int)
                    && target_named(pairs[k].1) == Ok::<TargetView, Seq<char>>(t) by {
            assert(less.contains((p, t)) <==> exists|k: int|
                0 <= k < front.len() && integer((#[trigger] front[k]).0) == Some(p as int)
                    && target_named(front[k].1) == Ok::<TargetView, Seq<char>>(t));
            if less.contains((p, t)) {
                let k = choose|k: int|
                    0 <= k < front.len() && integer((#[trigger] front[k]).0) == Some(p as int)
                        && target_named(front[k].1) == Ok::<TargetView, Seq<char>>(t);
                assert(pairs[k] == front[k]);
            }
            if exists|k: int|
                0 <= k < pairs.len() && integer((#[trigger] pairs[k]).0) == Some(p as int)
                    && target_named(pairs[k].1) == Ok::<TargetView, Seq<char>>(t) {
                let k = choose|k: int|
                    0 <= k < pairs.len() && integer((#[trigger] pairs[k]).0) == Some(p as int)
                        && target_named(pairs[k].1) == Ok::<TargetView, Seq<char>>(t);
                if k < front.len() {
                    assert(front[k] == pairs[k]);
                }
            }
        }
    }
}

proof fn lemma_target_push(v: Seq<(i32, TargetView)>, e: (i32, TargetView), p: i32)
    ensures
        target_for(v.push(e), p) == (if exists|k: int| 0 <= k < v.len() && (#[trigger] v[k]).0 == p {
            target_for(v, p)
        } else if e.0 == p {
            e.1
        } else {
            TargetView::Nothing
        }),
    decreases v.len(),
{
    let w = v.push(e);
    if v.len() == 0 {
        assert(w[0] == e);
        assert(w.skip(1) =~= Seq::<(i32, TargetView)>::empty());
        assert(target_for(w.skip(1), p) == TargetView::Nothing);
    } else {
        let rest = v.skip(1);
        assert(w[0] == v[0]);
        assert(w.skip(1) =~= rest.push(e));
        lemma_target_push(rest, e, p);
        if v[0].0 != p {
            if exists|k: int| 0 <= k < v.len() && (#[trigger] v[k]).0 == p {
                let k = choose|k: int| 0 <= k < v.len() && (#[trigger] v[k]).0 == p;
                assert(rest[k - 1] == v[k]);
            }
            if exists|k: int| 0 <= k < rest.len() && (#[trigger] rest[k]).0 == p {
                let k = choose|k: int| 0 <= k < rest.len() && (#[trigger] rest[k]).0 == p;
                assert(v[k + 1] == rest[k]);
            }
        }
    }
}

proof fn lemma_target_placed(v: Seq<(i32, TargetView)>, e: (i32, TargetView), p: i32)
    ensures
        target_for(placed(v, e), p) == (if exists|k: int|
            0 <= k < v.len() && (#[trigger] v[k]).0 == p {
            target_for(v, p)
        } else if e.0 == p {
            e.1
        } else {
            TargetView::Nothing
        }),
        (exists|k: int| 0 <= k < placed(v, e).len() && (#[trigger] placed(v, e)[k]).0 == p) <==> e.0
            == p || exists|k: int| 0 <= k < v.len() && (#[trigger] v[k]).0 == p,
    decreases v.len(),
{
    let w = placed(v, e);
    if v.len() == 0 || v.last().0 <= e.0 {
        lemma_target_push(v, e, p);
        assert(w[v.len() as int] == e);
        if exists|k: int| 0 <= k < v.len() && (#[trigger] v[k]).0 == p {
            let k = choose|k: int| 0 <= k < v.len() && (#[trigger] v[k]).0 == p;
            assert(w[k] == v[k]);
        }
    } else {
        let front = v.drop_last();
        let last = v[v.len() - 1];
        let less = placed(front, e);
        lemma_target_placed(front, e, p);
        lemma_target_push(less, last, p);
        assert(v =~= front.push(last));
        lemma_target_push(front, last, p);
        assert(w[less.len() as int] == last);
        if exists|k: int| 0 <= k < front.len() && (#[trigger] front[k]).0 == p {
            let k = choose|k: int| 0 <= k < front.len() && (#[trigger] front[k]).0 == p;
            assert(v[k] == front[k]);
        }
        if exists|k: int| 0 <= k < v.len() && (#[trigger] v[k]).0 == p {
            let k = choose|k: int| 0 <= k < v.len() && (#[trigger] v[k]).0 == p;
            if k < front.len() {
                assert(front[k] == v[k]);
            }
        }
        if exists|k: int| 0 <= k < less.len() && (#[trigger] less[k]).0 == p {
            let k = choose|k: int| 0 <= k < less.len() && (#[trigger] less[k]).0 == p;
            assert(w[k] == less[k]);
        }
        if exists|k: int| 0 <= k < w.len() && (#[trigger] w[k]).0 == p {
            let k = choose|k: int| 0 <= k < w.len() && (#[trigger] w[k]).0 == p;
            if k < less.len() {
                assert(less[k] == w[k]);
            }
        }
    }
}

/// Whether a pair of a configured table gives a priority a target.
pub open spec fn gives_target(pair: (Seq<char>, Seq<char>), p: i32) -> bool {
    integer(pair.0) == Some(p as int) && target_named(pair.1) is Ok
}

/// Of several pairs of a table for one priority the first counts.
pub proof fn first_pair_counts(pairs: Seq<(Seq<char>, Seq<char>)>, p: i32, k: int)
    ensures
        0 <= k < pairs.len() && gives_target(pairs[k], p) && (forall|m: int|
            0 <= m < k ==> !gives_target(#[trigger] pairs[m], p)) ==> Ok::<TargetView, Seq<char>>(
            target_for(mapping_of(pairs), p),
        ) == target_named(pairs[k].1),
        (forall|m: int| 0 <= m < pairs.len() ==> !gives_target(#[trigger] pairs[m], p))
            ==> target_for(mapping_of(pairs), p) == TargetView::Nothing,
        (exists|m: int| 0 <= m < mapping_of(pairs).len() && (#[trigger] mapping_of(pairs)[m]).0 == p)
            <==> exists|m: int| 0 <= m < pairs.len() && gives_target(#[trigger] pairs[m], p),
    decreases pairs.len(),
{
    let all = mapping_of(pairs);
    if pairs.len() > 0 {
        let front = pairs.drop_last();
        let n = pairs.len() - 1;
        let last = pairs[n];
        let less = mapping_of(front);
        first_pair_counts(front, p, k);
        let read = integer(last.0);
        let fits = match read {
            Some(x) => i32::MIN <= x <= i32::MAX && target_named(last.1) is Ok,
            None => false,
        };
        if fits {
            let e = (read->0 as i32, target_named(last.1)->Ok_0);
            assert(all == placed(less, e));
            lemma_target_placed(less, e, p);
            assert((e.0 == p) == gives_target(last, p));
        } else {
            assert(all == less);
            assert(!gives_target(last, p));
        }
        assert forall|m: int| 0 <= m < front.len() implies #[trigger] front[m] == pairs[m] by {}
        if exists|m: int| 0 <= m < front.len() && gives_target(#[trigger] front[m], p) {
            let m = choose|m: int| 0 <= m < front.len() && gives_target(#[trigger] front[m], p);
            assert(gives_target(pairs[m], p));
        }
        if exists|m: int| 0 <= m < pairs.len() && gives_target(#[trigger] pairs[m], p) {
            let m = choose|m: int| 0 <= m < pairs.len() && gives_target(#[trigger] pairs[m], p);
            if m < n {
                assert(gives_target(front[m], p));
            }
        }
        if (0 <= k < n && gives_target(pairs[k], p) && (forall|m: int|
            0 <= m < k ==> !gives_target(#[trigger] pairs[m], p))) {
            assert(gives_target(front[k], p));
            assert forall|m: int| 0 <= m < k implies !gives_target(#[trigger] front[m], p) by {
                assert(!gives_target(pairs[m], p));
            }
        }
        if k == n && gives_target(pairs[k], p) && (forall|m: int|
            0 <= m < k ==> !gives_target(#[trigger] pairs[m], p)) {
            assert forall|m: int| 0 <= m < front.len() implies !gives_target(
                #[trigger] front[m],
                p,
            ) by {
                assert(!gives_target(pairs[m], p));
            }
        }
        if forall|m: int| 0 <= m < pairs.len() ==> !gives_target(#[trigger] pairs[m], p) {
            assert forall|m: int| 0 <= m < front.len() implies !gives_target(
                #[trigger] front[m],
                p,
            ) by {
                assert(!gives_target(pairs[m], p));
            }
            assert(!gives_target(pairs[n], p));
        }
    }
}

/// A priority of Reminders stands for the target of its first entry, and for nothing
/// where it has none.
pub proof fn first_entry_is_target(v: Seq<(i32, TargetView)>, p: i32, k: int)
    ensures
        0 <= k < v.len() && v[k].0 == p && (forall|m: int|
            0 <= m < k ==> (#[trigger] v[m]).0 != p) ==> target_for(v, p) == v[k].1,
        (forall|m: int| 0 <= m < v.len() ==> (#[trigger] v[m]).0 != p) ==> target_for(v, p)
            == TargetView::Nothing,
    decreases v.len(),
{
    if v.len() > 0 {
        let rest = v.skip(1);
        first_entry_is_target(rest, p, k - 1);
        if (0 < k < v.len() && v[k].0 == p && (forall|m: int|
            0 <= m < k ==> (#[trigger] v[m]).0 != p)) {
            assert(v[0].0 != p);
            assert(rest[k - 1] == v[k]);
            assert forall|m: int| 0 <= m < k - 1 implies (#[trigger] rest[m]).0 != p by {
                assert(rest[m] == v[m + 1]);
            }
        }
        if forall|m: int| 0 <= m < v.len() ==> (#[trigger] v[m]).0 != p {
            assert(v[0].0 != p);
            assert forall|m: int| 0 <= m < rest.len() implies (#[trigger] rest[m]).0 != p by {
                assert(rest[m] == v[m + 1]);
            }
        }
    }
}

/// Whether a task has what an entry stands for: its context, or its letter.
pub open spec fn has_mark(t: TaskView, target: TargetView) -> bool {
    ||| target matches TargetView::Context(c) && t.contexts.contains(c)
    ||| target matches TargetView::Priority(p) && t.priority == p
}

/// A task has the priority of the first entry that it has the context or the letter of,
/// and 0 where it has none of them.
pub proof fn first_mark_is_priority(v: Seq<(i32, TargetView)>, t: TaskView, k: int)
    ensures
        0 <= k < v.len() && has_mark(t, v[k].1) && (forall|m: int|
            0 <= m < k ==> !has_mark(t, (#[trigger] v[m]).1)) ==> priority_of(v, t) == v[k].0,
        (forall|m: int| 0 <= m < v.len() ==> !has_mark(t, (#[trigger] v[m]).1)) ==> priority_of(
            v,
            t,
        ) == 0,
    decreases v.len(),
{
    if v.len() > 0 {
        let rest = v.skip(1);
        assert(carries(t, v[0].1) == has_mark(t, v[0].1));
        first_mark_is_priority(rest, t, k - 1);
        if (0 < k < v.len() && has_mark(t, v[k].1) && (forall|m: int|
            0 <= m < k ==> !has_mark(t, (#[trigger] v[m]).1))) {
            assert(!has_mark(t, v[0].1));
            assert(rest[k - 1] == v[k]);
            assert forall|m: int| 0 <= m < k - 1 implies !has_mark(t, (#[trigger] rest[m]).1) by {
                assert(rest[m] == v[m + 1]);
            }
        }
        if forall|m: int| 0 <= m < v.len() ==> !has_mark(t, (#[trigger] v[m]).1) {
            assert(!has_mark(t, v[0].1));
            assert forall|m: int| 0 <= m < rest.len() implies !has_mark(
                t,
                (#[trigger] rest[m]).1,
            ) by {
                assert(rest[m] == v[m + 1]);
            }
        }
    }
}

// ---------------------------------------------------------------------------
// Guards
// ---------------------------------------------------------------------------

/// Deletions are counted one by one: those of two lists add up, and one action counts
/// once where it deletes, and not where it does not.
pub proof fn deletions_add_up(a: Seq<ActionView>, b: Seq<ActionView>, x: ActionView)
    ensures
        reminder_deletions(a + b) == reminder_deletions(a) + reminder_deletions(b),
        task_deletions(a + b) == task_deletions(a) + task_deletions(b),
        reminder_deletions(seq![x]) == (if x is DeleteReminder {
            1nat
        } else {
            0
        }),
        task_deletions(seq![x]) == (if x is DeleteTask {
            1nat
        } else {
            0
        }),
    decreases b.len(),
{
    assert(seq![x].drop_last() =~= Seq::<ActionView>::empty());
    assert(reminder_deletions(seq![x].drop_last()) == 0);
    assert(task_deletions(seq![x].drop_last()) == 0);
    if b.len() == 0 {
        assert(a + b =~= a);
    } else {
        deletions_add_up(a, b.drop_last(), x);
        assert((a + b).drop_last() =~= a + b.drop_last());
    }
}

/// The guard stops a run that deletes more than three reminders and more than the given
/// percentage of the tracked ones; and no other run. It does nothing where none is
/// tracked, or where the percentage is one hundred.
pub proof fn guard_goes_by_percentage(actions: Seq<ActionView>, total: nat, percent: nat)
    ensures
        is_bulk_deletion(actions, total, percent) <==> {
            &&& total > 0
            &&& percent < 100
            &&& reminder_deletions(actions) > 3
            &&& reminder_deletions(actions) * 100 > total * percent
        },
{
}

// ---------------------------------------------------------------------------
// Hashes
// ---------------------------------------------------------------------------

/// The hash of a task takes in every word of its line but `eid:` tags, so that a change
/// of any other word is seen.
pub proof fn hash_takes_in_every_word(t: TaskView, w: Seq<char>)
    ensures
        line_hash(t) == text_hash(join(content_words(line_of(t)), " "@)),
        content_words(line_of(t)).contains(w) <==> words(line_of(t)).contains(w) && !(
        "eid:"@.is_prefix_of(w)),
        (forall|k: int|
            0 <= k < words(line_of(t)).len() ==> !("eid:"@.is_prefix_of(
                #[trigger] words(line_of(t))[k],
            ))) ==> content_words(line_of(t)) == words(line_of(t)),
{
    let keep = |x: Seq<char>| !crate::task::is_eid_word(x);
    let all = words(line_of(t));
    if all.filter(keep).contains(w) {
        lemma_filtered(all, keep, w);
    }
    if all.contains(w) && keep(w) {
        crate::sync::faithful::lemma_kept(all, keep, w);
    }
    if forall|k: int| 0 <= k < all.len() ==> !("eid:"@.is_prefix_of(#[trigger] all[k])) {
        assert forall|k: int| 0 <= k < all.len() implies keep(#[trigger] all[k]) by {}
        lemma_all_kept(all, keep);
    }
}

/// The title of a task has the words of its subject that are no metadata, in their order,
/// one space apart.
pub proof fn title_has_plain_words(t: TaskView)
    ensures
        words(title_of(t)) == plain_words(t.subject),
        title_of(t) == join(words(title_of(t)), " "@),
{
    let ws = plain_words(t.subject);
    let keep = |w: Seq<char>| !is_meta(w);
    assert forall|k: int| 0 <= k < ws.len() implies words(#[trigger] ws[k]) == seq![ws[k]] by {
        assert(ws.contains(ws[k]));
        lemma_filtered(words(t.subject), keep, ws[k]);
        let j = words(t.subject).index_of(ws[k]);
        lemma_words_clean(t.subject, j);
        lemma_words_single(ws[k]);
    }
    lemma_all_words(ws);
    lemma_words_join(ws);
}

proof fn lemma_all_kept(s: Seq<Seq<char>>, keep: spec_fn(Seq<char>) -> bool)
    requires
        forall|k: int| 0 <= k < s.len() ==> keep(#[trigger] s[k]),
    ensures
        s.filter(keep) == s,
    decreases s.len(),
{
    reveal(Seq::filter);
    if s.len() > 0 {
        let front = s.drop_last();
        assert forall|k: int| 0 <= k < front.len() implies keep(#[trigger] front[k]) by {
            assert(front[k] == s[k]);
        }
        lemma_all_kept(front, keep);
        assert(keep(s[s.len() - 1]));
        assert(front.push(s.last()) =~= s);
    } else {
        assert(s.filter(keep) =~= s);
    }
}

// ---------------------------------------------------------------------------
// Recurrences
// ---------------------------------------------------------------------------

/// Whether the dates of a next instance are those that the rule gives on a day: the due
/// date and the threshold date are moved, and a creation date is that day.
pub open spec fn has_next_dates(old: TaskView, s: TaskView, today: int) -> bool {
    &&& old.recurrence matches Some(rule) && {
        &&& old.due_date matches Some(d) ==> s.due_date == Some(next_day(rule, d, today))
        &&& old.threshold_date matches Some(d) ==> s.threshold_date == Some(
            next_day(rule, d, today),
        )
    }
    &&& old.create_date is Some ==> s.create_date == Some(today)
}

/// A next instance is the same open or finished task with other dates: it carries no
/// external identifier, its timer is reset, and everything else stays. Its dates are those
/// that its rule gives on one and the same day.
pub proof fn next_instance_keeps_rest(old: TaskView, s: TaskView)
    requires
        is_next(old, s),
    ensures
        eid_of(s) is None,
        s.priority == old.priority,
        s.finished == old.finished,
        s.finish_date == old.finish_date,
        s.contexts == old.contexts,
        s.projects == old.projects,
        s.hashtags == old.hashtags,
        s.recurrence == old.recurrence,
        s.due_date is Some <==> old.due_date is Some,
        s.threshold_date is Some <==> old.threshold_date is Some,
        s.create_date is Some <==> old.create_date is Some,
        exists|today: int| #[trigger] has_next_dates(old, s, today),
        forall|n: Seq<char>|
            n != "due"@ && n != "t"@ && n != "tmr"@ && n != "spent"@ && n != "eid"@
                ==> #[trigger] same_tag(old.tags, s.tags, n),
        !s.tags.dom().contains("tmr"@),
        !s.tags.dom().contains("spent"@),
        s.due_date matches Some(d) ==> s.tags.dom().contains("due"@) && s.tags["due"@]
            == crate::dates::iso_text(d),
{
    reveal_strlit("due");
    reveal_strlit("eid");
    reveal_strlit("tmr");
    reveal_strlit("spent");
    assert("due"@[0] != "eid"@[0]);
    let n = choose|n: NextDates| #[trigger]
        fits_next(old, n) && s == instance_of(old, n);
    assert(fits_next(old, n));
    let rule = old.recurrence->0;
    let today = choose|today: int| #[trigger]
        are_moved(
            n,
            rule,
            old.create_date,
            old.due_date,
            old.threshold_date,
            today,
        );
    assert(are_moved(
        n,
        rule,
        old.create_date,
        old.due_date,
        old.threshold_date,
        today,
    ));
    assert(has_next_dates(old, s, today));
    assert forall|x: Seq<char>|
        x != "due"@ && x != "t"@ && x != "tmr"@ && x != "spent"@ && x
            != "eid"@ implies #[trigger] same_tag(old.tags, s.tags, x) by {
        assert(same_tag(old.tags, n.tags@, x));
    }
}

/// An update that finishes a task which recurs calls for a next instance, where the task
/// in the file is not finished yet. Nothing else does.
pub proof fn completion_calls_for_next(
    ts: Seq<TaskView>,
    eid: Seq<char>,
    u: TaskView,
    a: ActionView,
    i: int,
)
    requires
        is_first_with(ts, eid, i),
    ensures
        completed_by(ActionView::UpdateTask { eid, updated_task: u }, ts) == (if u.finished
            && u.recurrence is Some && !ts[i].finished {
            Some(ts[i])
        } else {
            None
        }),
        !(a is UpdateTask) && !(a is MergeConflict) ==> completed_by(a, ts) is None,
        completed_by(a, ts) matches Some(old) ==> ts.contains(old) && !old.finished,
{
    lemma_first_at(ts, eid, i);
    if let Some(old) = completed_by(a, ts) {
        let e = match a {
            ActionView::UpdateTask { eid, updated_task } => eid,
            ActionView::MergeConflict { eid, updated_task, updated_reminder } => eid,
            _ => Seq::empty(),
        };
        assert(ts[first_with(ts, e) as int] == old);
    }
}

/// Every completed task that recurs by a rule which can be read, with a date to count from
/// and without an end, gets a next instance.
pub proof fn completed_task_recurs(
    actions: Seq<ActionView>,
    ts: Seq<TaskView>,
    out: Seq<TaskView>,
    k: int,
)
    requires
        are_next(actions, ts, out),
        0 <= k < actions.len(),
        completed_by(actions[k], ts) matches Some(old) && (old.recurrence matches Some(rule)
            && is_rule(rule)) && (old.due_date is Some || old.threshold_date is Some)
            && !old.tags.dom().contains("until"@),
    ensures
        exists|m: int|
            0 <= m < out.len() && is_next(completed_by(actions[k], ts)->0, #[trigger] out[m]),
    decreases actions.len(),
{
    let front = actions.drop_last();
    let old = completed_by(actions[k], ts)->0;
    if k == actions.len() - 1 {
        assert forall|d: int, today: int| !(#[trigger] is_past_end(old.tags, d, today)) by {}
        assert(must_have_next(old));
        assert(is_next(old, out[out.len() - 1]));
    } else {
        assert(front[k] == actions[k]);
        if are_next(front, ts, out) {
            completed_task_recurs(front, ts, out, k);
        } else {
            let less = out.drop_last();
            completed_task_recurs(front, ts, less, k);
            let m = choose|m: int| 0 <= m < less.len() && is_next(old, #[trigger] less[m]);
            assert(out[m] == less[m]);
        }
    }
}

/// There are no other next instances than those of completed tasks, and at most one for
/// each completion.
pub proof fn only_completed_tasks_recur(
    actions: Seq<ActionView>,
    ts: Seq<TaskView>,
    out: Seq<TaskView>,
    m: int,
)
    requires
        are_next(actions, ts, out),
    ensures
        out.len() <= actions.len(),
        0 <= m < out.len() ==> exists|k: int|
            0 <= k < actions.len() && (completed_by(#[trigger] actions[k], ts) matches Some(old)
                && is_next(old, out[m])),
    decreases actions.len(),
{
    if actions.len() > 0 {
        let front = actions.drop_last();
        let n = actions.len() - 1;
        if are_next(front, ts, out) {
            only_completed_tasks_recur(front, ts, out, m);
            if 0 <= m < out.len() {
                let k = choose|k: int|
                    0 <= k < front.len() && (completed_by(#[trigger] front[k], ts) matches Some(old)
                        && is_next(old, out[m]));
                assert(actions[k] == front[k]);
            }
        } else {
            let less = out.drop_last();
            only_completed_tasks_recur(front, ts, less, m);
            if 0 <= m < less.len() {
                let k = choose|k: int|
                    0 <= k < front.len() && (completed_by(#[trigger] front[k], ts) matches Some(old)
                        && is_next(old, less[m]));
                assert(actions[k] == front[k]);
            } else if m == less.len() {
                assert(actions[n] == actions.last());
                assert(completed_by(actions[n], ts) is Some);
            }
        }
    }
}

// ---------------------------------------------------------------------------
// Names
// ---------------------------------------------------------------------------

/// The modes of letting go have these names, in upper or lower case, and no others.
pub proof fn modes_are_named(s: Seq<char>, t: Seq<char>)
    ensures
        sticky_named(s) == Some(StickyTracking::Always) <==> ascii_lowercase(s) == "always"@,
        sticky_named(s) == Some(StickyTracking::Triage) <==> ascii_lowercase(s) == "triage"@,
        sticky_named(s) == Some(StickyTracking::Never) <==> ascii_lowercase(s) == "never"@,
        ascii_lowercase(s) == ascii_lowercase(t) ==> sticky_named(s) == sticky_named(t),
{
    reveal_strlit("always");
    reveal_strlit("triage");
    reveal_strlit("never");
    assert("always"@[0] != "triage"@[0]);
    assert("always"@[0] != "never"@[0]);
    assert("triage"@[0] != "never"@[0]);
}

/// A strict rule moves dates forward where its number is not zero; a rule that counts from
/// the day of completion, or names days of the week, always does.
pub proof fn rules_move_on(number: Seq<char>, unit: char, rule: Seq<char>)
    requires
        number.len() > 0,
        rule.len() > 0,
        rule[0] != '+',
        rule[0] != 'r',
    ensures
        moves_on(seq!['+'] + number.push(unit)) <==> exists|i: int|
            0 <= i < number.len() && #[trigger] number[i] != '0',
        moves_on("rec:+"@ + number.push(unit)) <==> exists|i: int|
            0 <= i < number.len() && #[trigger] number[i] != '0',
        moves_on(rule),
{
    reveal_strlit("rec:");
    reveal_strlit("rec:+");
    let s = seq!['+'] + number.push(unit);
    let r = "rec:+"@ + number.push(unit);
    if "rec:"@.is_prefix_of(s) {
        assert(s[0] == "rec:"@[0]);
    }
    if "rec:"@.is_prefix_of(rule) {
        assert(rule[0] == "rec:"@[0]);
    }
    assert(r.take(4) =~= "rec:"@);
    assert(r.skip(4) =~= s);
    assert(s[0] == '+');
    if exists|i: int| 0 <= i < number.len() && #[trigger] number[i] != '0' {
        let i = choose|i: int| 0 <= i < number.len() && #[trigger] number[i] != '0';
        assert(s[i + 1] == number[i]);
    }
    if exists|i: int| 0 < i < s.len() - 1 && #[trigger] s[i] != '0' {
        let i = choose|i: int| 0 < i < s.len() - 1 && #[trigger] s[i] != '0';
        assert(number[i - 1] == s[i]);
    }
}

/// A task recurs safely where it has no rule and no timer. With a rule that counts days
/// from the old dates it does where neither date leaves the calendar by that number.
pub proof fn days_stay_in_calendar(t: TaskView, n: nat)
    requires
        !t.tags.dom().contains("tmr"@),
    ensures
        t.recurrence is None ==> recurs_safely(t),
        0 < n <= 255 && t.recurrence == Some(seq!['+'] + decimal(n).push('d')) ==> (recurs_safely(t)
            <==> (t.due_date matches Some(d) ==> d + n <= MAX_DAYS) && (t.threshold_date matches Some(
            d,
        ) ==> d + n <= MAX_DAYS)),
        t.recurrence == Some(decimal(n).push('d')) ==> (recurs_safely(t) <==> (
        t.due_date matches Some(d) ==> d <= MAX_DAYS) && (t.threshold_date matches Some(d) ==> d
            <= MAX_DAYS)),
{
    reveal_strlit("rec:");
    let ds = decimal(n);
    let s = seq!['+'] + ds.push('d');
    let loose = ds.push('d');
    decimal_reads_back(n);
    signs_are_read(n);
    assert(is_digit(ds[0]));
    assert(loose[0] == ds[0]);
    assert(s[0] == '+');
    if "rec:"@.is_prefix_of(s) {
        assert(s[0] == "rec:"@[0]);
    }
    if "rec:"@.is_prefix_of(loose) {
        assert(loose[0] == "rec:"@[0]);
    }
    assert(s.drop_last() =~= seq!['+'] + ds);
    assert(s.last() == 'd');
    rules_move_on(ds, 'd', loose);
    if 0 < n {
        lemma_some_digit(n);
    }
}

proof fn lemma_some_digit(n: nat)
    requires
        n > 0,
    ensures
        exists|i: int| 0 <= i < decimal(n).len() && #[trigger] decimal(n)[i] != '0',
    decreases n,
{
    let s = decimal(n);
    if n < 10 {
        assert(s[0] != '0');
    } else {
        lemma_some_digit(n / 10);
        let i = choose|i: int| 0 <= i < decimal(n / 10).len() && #[trigger] decimal(n / 10)[i] != '0';
        assert(s[i] == decimal(n / 10)[i]);
    }
}

/// A list of which nothing but the name is set takes every task, goes by edits, leaves
/// completed reminders alone at first and may write every field back. Its priority 9 is
/// the context `today`, and no other priority stands for anything.
pub proof fn plain_list_takes_all(list: Seq<char>, t: TaskView, p: i32, today: int)
    ensures
        ({
            let c = default_config(list);
            &&& c.reminders_list == list
            &&& admits(c, t, today)
            &&& c.sticky_tracking == StickyTracking::Triage
            &&& !c.sync_initial_completed
            &&& c.writeback.title && c.writeback.due_date && c.writeback.priority
                && c.writeback.is_completed
            &&& target_for(c.mapping, p) == (if p == 9 {
                TargetView::Context("today"@)
            } else {
                TargetView::Nothing
            })
            &&& priority_of(c.mapping, t) == (if t.contexts.contains("today"@) {
                9i32
            } else {
                0
            })
        }),
{
    let v = default_mapping();
    assert(v.skip(1) =~= Seq::<(i32, TargetView)>::empty());
    assert(target_for(v.skip(1), p) == TargetView::Nothing);
    assert(priority_of(v.skip(1), t) == 0);
}

/// A list without a push filter can always be gone through; with one, where the day is in
/// the calendar and the filter can be worked out for every task that is open or belongs to
/// a reminder.
pub proof fn filters_can_be_worked_out(c: ConfigView, ts: Seq<TaskView>, today: int)
    ensures
        c.push_filter is None ==> can_admit(c, ts, today),
        c.push_filter matches Some(text) ==> (can_admit(c, ts, today) <==> is_inner_day(today)
            && forall|i: int|
            0 <= i < ts.len() && (!(#[trigger] ts[i]).finished || eid_of(ts[i]) is Some)
                ==> are_safe_rules(filter_rules(text), ts[i], today)),
{
    reveal(can_admit);
    if let Some(text) = c.push_filter {
        let rules = filter_rules(text);
        if can_admit(c, ts, today) {
            assert forall|i: int|
                0 <= i < ts.len() && (!(#[trigger] ts[i]).finished || eid_of(ts[i])
                    is Some) implies are_safe_rules(rules, ts[i], today) by {
                assert(is_filtered(ts[i]));
            }
        }
        if is_inner_day(today) && forall|i: int|
            0 <= i < ts.len() && (!(#[trigger] ts[i]).finished || eid_of(ts[i]) is Some)
                ==> are_safe_rules(rules, ts[i], today) {
            assert forall|i: int|
                0 <= i < ts.len() && is_filtered(#[trigger] ts[i]) implies are_safe_rules(
                rules,
                ts[i],
                today,
            ) by {}
        }
    }
}

} // verus!
