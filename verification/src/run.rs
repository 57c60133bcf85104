//! One sync run over all lists: its arguments, its steps and its end.

use crate::config::AppConfig;
use crate::dates::{Date, Timestamp};
use crate::error::{ErrorView, SyncError};
use crate::keyed::{distinct_keys, lemma_map_of, map_of, TextSet};
use crate::reminder::{Reminder, ReminderView};
use crate::sync::actions::{actions_view, ActionView, SyncAction};
use crate::sync::apply::{apply_task_actions_on, Board};
use crate::sync::bootstrap::{
    build_initial_state, initial_items, initial_partners, joined_view,
};
use crate::sync::config::ListSyncConfig;
use crate::sync::effects::same_but_eid;
use crate::sync::fields::{line_hash, task_line_hash};
use crate::sync::first_run::lemma_joined_is_open;
use crate::sync::laws::first_run_joins_once;
use crate::sync::plan::{
    can_admit, compute_sync_actions_on, reminders_view, scene, tasks_view,
};
use crate::sync::safety::{
    bulk_message, check_bulk_deletion, check_first_sync_no_deletions, check_task_count_coherence,
    coherence_message, count_task_deletions, delete_limit, deletions, first_sync_message,
    is_bulk_deletion, reminder_deletions, task_deletions,
};
use crate::sync::state::{ItemView, StateView, SyncState};
use crate::task::{eid_of, with_eid, Task, TaskView};
use crate::text::{decimal, decimal_text, is_within, lemma_within, opt_text, texts};
use std::collections::HashSet;
use vstd::prelude::*;

verus! {

// ---------------------------------------------------------------------------
// Arguments
// ---------------------------------------------------------------------------

/// What the program can be asked to do.
#[derive(Debug, Clone, Copy, PartialEq, Eq, Structural)]
pub enum Subcommand {
    Sync,
    Install,
    Uninstall,
    Status,
    Restore,
    Version,
}

/// What a word on the command line asks for.
pub open spec fn subcommand_named(s: Seq<char>) -> Option<Subcommand> {
    if s == "--version"@ || s == "-V"@ || s == "version"@ {
        Some(Subcommand::Version)
    } else if s == "sync"@ {
        Some(Subcommand::Sync)
    } else if s == "install"@ {
        Some(Subcommand::Install)
    } else if s == "uninstall"@ {
        Some(Subcommand::Uninstall)
    } else if s == "status"@ {
        Some(Subcommand::Status)
    } else if s == "restore"@ {
        Some(Subcommand::Restore)
    } else {
        None
    }
}

/// What a word on the command line asks for; the message otherwise.
pub fn parse_subcommand(word: &String) -> (r: Result<Subcommand, String>)
    ensures
        match subcommand_named(word@) {
            Some(c) => r == Ok::<Subcommand, String>(c),
            None => r matches Err(m) && m@ == "Unknown subcommand: "@ + word@
                + ". Use sync|install|uninstall|status|restore."@,
        },
{
    if *word == "--version".to_owned() || *word == "-V".to_owned() || *word
        == "version".to_owned() {
        Ok(Subcommand::Version)
    } else if *word == "sync".to_owned() {
        Ok(Subcommand::Sync)
    } else if *word == "install".to_owned() {
        Ok(Subcommand::Install)
    } else if *word == "uninstall".to_owned() {
        Ok(Subcommand::Uninstall)
    } else if *word == "status".to_owned() {
        Ok(Subcommand::Status)
    } else if *word == "restore".to_owned() {
        Ok(Subcommand::Restore)
    } else {
        Err(
            "Unknown subcommand: ".to_owned().concat(word.as_str()).concat(
                ". Use sync|install|uninstall|status|restore.",
            ),
        )
    }
}

/// The options of the command line.
#[derive(Debug)]
pub struct SyncArgs {
    /// The path of the configuration file, where one is given.
    pub config_path: Option<String>,
    /// Whether nothing is to be changed.
    pub dry_run: bool,
    /// Whether runs follow one another until the program is stopped.
    pub daemon: bool,
}

/// What [`SyncArgs`] hold.
#[verifier::ext_equal]
pub struct ArgsView {
    pub config_path: Option<Seq<char>>,
    pub dry_run: bool,
    pub daemon: bool,
}

impl View for SyncArgs {
    type V = ArgsView;

    open spec fn view(&self) -> ArgsView {
        ArgsView {
            config_path: opt_text(self.config_path),
            dry_run: self.dry_run,
            daemon: self.daemon,
        }
    }
}

/// The options that the words from position `i` on add to `seen`, or the message
/// of the first word that is no option or lacks its value.
pub open spec fn options_from(args: Seq<Seq<char>>, i: int, seen: ArgsView) -> Result<
    ArgsView,
    Seq<char>,
>
    decreases args.len() - i,
{
    if i < 0 || i >= args.len() {
        Ok(seen)
    } else if args[i] == "--dry-run"@ {
        options_from(args, i + 1, ArgsView { dry_run: true, ..seen })
    } else if args[i] == "--daemon"@ {
        options_from(args, i + 1, ArgsView { daemon: true, ..seen })
    } else if args[i] == "--config"@ {
        if i + 1 < args.len() {
            options_from(args, i + 2, ArgsView { config_path: Some(args[i + 1]), ..seen })
        } else {
            Err("--config requires a value"@)
        }
    } else {
        Err("Unknown option: "@ + args[i])
    }
}

/// The options of a command line, or the message of what is wrong with it.
pub open spec fn options(args: Seq<Seq<char>>) -> Result<ArgsView, Seq<char>> {
    options_from(args, 0, ArgsView { config_path: None, dry_run: false, daemon: false })
}

/// Reads the options of a command line: `--dry-run`, `--daemon` and `--config`
/// with a path, of which the last counts. An unknown option, or a missing path, is
/// answered with a message.
pub fn parse_sync_args(args: &[String]) -> (r: Result<SyncArgs, String>)
    ensures
        match r {
            Ok(a) => options(texts(args@)) == Ok::<ArgsView, Seq<char>>(a@),
            Err(m) => options(texts(args@)) == Err::<ArgsView, Seq<char>>(m@),
        },
{
    let ghost words = texts(args@);
    let n: usize = args.len();
    let mut out = SyncArgs { config_path: None, dry_run: false, daemon: false };
    let mut i: usize = 0;
    while i < n
        invariant
            n == args@.len(),
            words == texts(args@),
            i <= n,
            options_from(words, i as int, out@) == options(words),
        decreases n - i,
    {
        assert(words[i as int] == args@[i as int]@);
        if args[i] == "--dry-run".to_owned() {
            out.dry_run = true;
        } else if args[i] == "--daemon".to_owned() {
            out.daemon = true;
        } else if args[i] == "--config".to_owned() {
            if n - i < 2 {
                return Err("--config requires a value".to_owned());
            }
            i = i + 1;
            assert(words[i as int] == args@[i as int]@);
            out.config_path = Some(args[i].clone());
        } else {
            return Err("Unknown option: ".to_owned().concat(args[i].as_str()));
        }
        i = i + 1;
    }
    Ok(out)
}

/// No options.
pub open spec fn no_options() -> ArgsView {
    ArgsView { config_path: None, dry_run: false, daemon: false }
}

/// Options with later ones: a switch stays on, and the last path counts.
pub open spec fn with_later(first: ArgsView, later: Result<ArgsView, Seq<char>>) -> Result<
    ArgsView,
    Seq<char>,
> {
    match later {
        Ok(a) => Ok(
            ArgsView {
                config_path: if a.config_path is Some {
                    a.config_path
                } else {
                    first.config_path
                },
                dry_run: first.dry_run || a.dry_run,
                daemon: first.daemon || a.daemon,
            },
        ),
        Err(m) => Err(m),
    }
}

proof fn lemma_options_skip(args: Seq<Seq<char>>, i: int, seen: ArgsView)
    requires
        0 <= i <= args.len(),
    ensures
        options_from(args, i, seen) == options_from(args.skip(i), 0, seen),
    decreases args.len() - i,
{
    let rest = args.skip(i);
    if i < args.len() {
        assert(rest[0] == args[i]);
        let dry = ArgsView { dry_run: true, ..seen };
        let daemon = ArgsView { daemon: true, ..seen };
        assert(rest.skip(1) =~= args.skip(i + 1));
        lemma_options_skip(args, i + 1, dry);
        lemma_options_skip(args, i + 1, daemon);
        lemma_options_skip(rest, 1, dry);
        lemma_options_skip(rest, 1, daemon);
        if i + 1 < args.len() {
            let config = ArgsView { config_path: Some(args[i + 1]), ..seen };
            assert(rest[1] == args[i + 1]);
            assert(rest.skip(2) =~= args.skip(i + 2));
            lemma_options_skip(args, i + 2, config);
            lemma_options_skip(rest, 2, config);
        }
    }
}

proof fn lemma_options_seen(args: Seq<Seq<char>>, i: int, seen: ArgsView)
    requires
        0 <= i <= args.len(),
    ensures
        options_from(args, i, seen) == with_later(seen, options_from(args, i, no_options())),
    decreases args.len() - i,
{
    if i < args.len() {
        lemma_options_seen(args, i + 1, ArgsView { dry_run: true, ..seen });
        lemma_options_seen(args, i + 1, ArgsView { dry_run: true, ..no_options() });
        lemma_options_seen(args, i + 1, ArgsView { daemon: true, ..seen });
        lemma_options_seen(args, i + 1, ArgsView { daemon: true, ..no_options() });
        if i + 1 < args.len() {
            let path = Some(args[i + 1]);
            lemma_options_seen(args, i + 2, ArgsView { config_path: path, ..seen });
            lemma_options_seen(args, i + 2, ArgsView { config_path: path, ..no_options() });
        }
    }
}

/// A command line is read word by word. `--dry-run` and `--daemon` switch on what they
/// say, wherever they stand; `--config` takes the next word as its path, and gives way to
/// a later one; without words nothing is asked for. Whatever is wrong behind an option is
/// wrong with the whole line, and so is every other word, and a `--config` at the end.
pub proof fn options_are_read_in_turn(rest: Seq<Seq<char>>, word: Seq<char>, path: Seq<char>)
    ensures
        options(Seq::empty()) == Ok::<ArgsView, Seq<char>>(no_options()),
        options(seq!["--dry-run"@] + rest) == with_later(
            (ArgsView { dry_run: true, ..no_options() }),
            options(rest),
        ),
        options(seq!["--daemon"@] + rest) == with_later(
            (ArgsView { daemon: true, ..no_options() }),
            options(rest),
        ),
        options(seq!["--config"@, path] + rest) == with_later(
            (ArgsView { config_path: Some(path), ..no_options() }),
            options(rest),
        ),
        options(seq!["--config"@]) is Err,
        word != "--dry-run"@ && word != "--daemon"@ && word != "--config"@ ==> options(
            seq![word] + rest,
        ) == Err::<ArgsView, Seq<char>>("Unknown option: "@ + word),
{
    reveal_strlit("--dry-run");
    reveal_strlit("--daemon");
    reveal_strlit("--config");
    assert("--dry-run"@.len() != "--daemon"@.len());
    assert("--dry-run"@.len() != "--config"@.len());
    assert("--daemon"@[2] != "--config"@[2]);
    let a = seq!["--dry-run"@] + rest;
    let b = seq!["--daemon"@] + rest;
    let c = seq!["--config"@, path] + rest;
    assert(a.skip(1) =~= rest);
    assert(b.skip(1) =~= rest);
    assert(c.skip(2) =~= rest);
    assert(c[1] == path);
    let dry = ArgsView { dry_run: true, ..no_options() };
    let daemon = ArgsView { daemon: true, ..no_options() };
    let config = ArgsView { config_path: Some(path), ..no_options() };
    lemma_options_skip(a, 1, dry);
    lemma_options_seen(rest, 0, dry);
    lemma_options_skip(b, 1, daemon);
    lemma_options_seen(rest, 0, daemon);
    lemma_options_skip(c, 2, config);
    lemma_options_seen(rest, 0, config);
    assert((seq![word] + rest)[0] == word);
}

// ---------------------------------------------------------------------------
// The start of a run
// ---------------------------------------------------------------------------

/// Tasks on which the external identifiers of joined reminders were put.
pub open spec fn stamped(ts: Seq<TaskView>, joined: Seq<(Seq<char>, int)>) -> Seq<TaskView>
    decreases joined.len(),
{
    if joined.len() == 0 {
        ts
    } else {
        let front = stamped(ts, joined.drop_last());
        let (eid, j) = joined.last();
        front.update(j, with_eid(front[j], eid))
    }
}

/// What a run starts from: the state of the last run and the tasks as they are. On
/// the first run the state is built from the reminders and tasks that belong
/// together, and those tasks get their external identifiers.
pub fn begin_run(
    tasks: Vec<Task>,
    saved: Option<SyncState>,
    reminders: &[Reminder],
    now: Timestamp,
) -> (r: (Vec<Task>, SyncState))
    ensures
        match saved {
            Some(s) => r.0@ == tasks@ && r.1 == s,
            None => ({
                let rs = reminders_view(reminders@);
                let ts = tasks_view(tasks@);
                tasks_view(r.0@) == stamped(ts, initial_partners(rs, ts)) && r.1@ == (StateView {
                    items: initial_items(rs, ts, now),
                    last_sync_time: Some(now),
                })
            }),
        },
{
    if let Some(s) = saved {
        return (tasks, s);
    }
    let ghost ts = tasks_view(tasks@);
    let (state, joined) = build_initial_state(reminders, tasks.as_slice(), now);
    let ghost jv = joined_view(joined@);
    let mut tasks = tasks;
    assert(jv.take(0) =~= Seq::<(Seq<char>, int)>::empty());
    for k in 0..joined.len()
        invariant
            jv == joined_view(joined@),
            tasks@.len() == ts.len(),
            forall|k: int| 0 <= k < joined@.len() ==> (#[trigger] joined@[k]).1 < ts.len(),
            tasks_view(tasks@) == stamped(ts, jv.take(k as int)),
    {
        let ghost before = tasks_view(tasks@);
        let ghost more = jv.take(k + 1);
        assert(more.drop_last() =~= jv.take(k as int));
        assert(more.last() == (joined@[k as int].0@, joined@[k as int].1 as int));
        let j: usize = joined[k].1;
        let mut t = tasks[j].clone();
        t.set_eid(joined[k].0.as_str());
        tasks.set(j, t);
        assert(tasks_view(tasks@) =~= before.update(j as int, t@));
    }
    assert(jv.take(jv.len() as int) =~= jv);
    (tasks, state)
}

proof fn lemma_stamped(ts: Seq<TaskView>, joined: Seq<(Seq<char>, int)>)
    requires
        forall|k: int| 0 <= k < joined.len() ==> 0 <= (#[trigger] joined[k]).1 < ts.len(),
        forall|a: int, b: int|
            0 <= a < b < joined.len() ==> (#[trigger] joined[a]).1 != (#[trigger] joined[b]).1,
    ensures
        stamped(ts, joined).len() == ts.len(),
        forall|k: int|
            0 <= k < joined.len() ==> stamped(ts, joined)[(#[trigger] joined[k]).1] == with_eid(
                ts[joined[k].1],
                joined[k].0,
            ),
        forall|j: int|
            0 <= j < ts.len() && (forall|k: int|
                0 <= k < joined.len() ==> (#[trigger] joined[k]).1 != j) ==> #[trigger] stamped(
                ts,
                joined,
            )[j] == ts[j],
    decreases joined.len(),
{
    if joined.len() > 0 {
        let front = joined.drop_last();
        let n = joined.len() - 1;
        assert forall|k: int| 0 <= k < front.len() implies 0 <= (#[trigger] front[k]).1
            < ts.len() by {
            assert(front[k] == joined[k]);
        }
        assert forall|a: int, b: int| 0 <= a < b < front.len() implies (#[trigger] front[a]).1 != (
        #[trigger] front[b]).1 by {
            assert(front[a] == joined[a] && front[b] == joined[b]);
        }
        lemma_stamped(ts, front);
        let less = stamped(ts, front);
        let all = stamped(ts, joined);
        assert(joined.last() == joined[n]);
        assert(less[joined[n].1] == ts[joined[n].1]) by {
            assert forall|k: int| 0 <= k < front.len() implies (#[trigger] front[k]).1
                != joined[n].1 by {
                assert(front[k] == joined[k]);
            }
        }
        assert forall|k: int| 0 <= k < joined.len() implies all[(#[trigger] joined[k]).1]
            == with_eid(ts[joined[k].1], joined[k].0) by {
            if k < n {
                assert(front[k] == joined[k]);
                assert(joined[k].1 != joined[n].1);
            }
        }
        assert forall|j: int|
            0 <= j < ts.len() && (forall|k: int|
                0 <= k < joined.len() ==> (#[trigger] joined[k]).1 != j) implies #[trigger] all[j]
            == ts[j] by {
            assert(joined[n].1 != j);
            assert forall|k: int| 0 <= k < front.len() implies (#[trigger] front[k]).1 != j by {
                assert(front[k] == joined[k]);
            }
            assert(less[j] == ts[j]);
        }
    }
}

/// On the first run a task that was joined with a reminder gets its external identifier
/// and stays the same otherwise; every other task stays as it is.
pub proof fn joined_tasks_are_stamped(
    rs: Seq<ReminderView>,
    ts: Seq<TaskView>,
    k: int,
    j: int,
)
    requires
        0 <= j < ts.len(),
    ensures
        ({
            let joined = initial_partners(rs, ts);
            let after = stamped(ts, joined);
            &&& after.len() == ts.len()
            &&& 0 <= k < joined.len() && joined[k].1 == j ==> same_but_eid(after[j], ts[j]) && (
            joined[k].0.len() > 0 && !(joined[k].0.len() >= 2 && joined[k].0[0] == '/'
                && joined[k].0[1] == '/') ==> eid_of(after[j]) == Some(joined[k].0))
            &&& (forall|m: int| 0 <= m < joined.len() ==> (#[trigger] joined[m]).1 != j)
                ==> after[j] == ts[j]
        }),
{
    let joined = initial_partners(rs, ts);
    assert forall|a: int, b: int| 0 <= a < b < joined.len() implies (#[trigger] joined[a]).1 != (
    #[trigger] joined[b]).1 by {
        first_run_joins_once(rs, ts, a, b);
    }
    assert forall|m: int| 0 <= m < joined.len() implies 0 <= (#[trigger] joined[m]).1
        < ts.len() by {
        let i = lemma_joined_is_open(rs, ts, m);
    }
    lemma_stamped(ts, joined);
    if 0 <= k < joined.len() && joined[k].1 == j {
        assert(stamped(ts, joined)[joined[k].1] == with_eid(ts[j], joined[k].0));
    }
}

// ---------------------------------------------------------------------------
// Claims
// ---------------------------------------------------------------------------

/// Whether an action creates a reminder for a task that another list has claimed.
pub open spec fn is_claimed(a: ActionView, claimed: Set<u64>) -> bool {
    a matches ActionView::CreateReminder { task, target_list } && claimed.contains(line_hash(task))
}

/// The actions without those that create a reminder for a claimed task.
pub open spec fn unclaimed(actions: Seq<ActionView>, claimed: Set<u64>) -> Seq<ActionView>
    decreases actions.len(),
{
    if actions.len() == 0 {
        Seq::empty()
    } else {
        let front = unclaimed(actions.drop_last(), claimed);
        if is_claimed(actions.last(), claimed) {
            front
        } else {
            front.push(actions.last())
        }
    }
}

/// What is claimed once the reminders of the actions are created.
pub open spec fn with_claims(claimed: Set<u64>, actions: Seq<ActionView>) -> Set<u64>
    decreases actions.len(),
{
    if actions.len() == 0 {
        claimed
    } else {
        let front = with_claims(claimed, actions.drop_last());
        match actions.last() {
            ActionView::CreateReminder { task, target_list } => front.insert(line_hash(task)),
            _ => front,
        }
    }
}

/// Leaves out the actions that create a reminder for a task that another list has
/// claimed in this pass, and claims the tasks of the others: of overlapping push
/// filters the first list wins.
pub fn drop_claimed(actions: Vec<SyncAction>, claimed: &mut HashSet<u64>) -> (r: Vec<SyncAction>)
    ensures
        actions_view(r@) == unclaimed(actions_view(actions@), old(claimed)@),
        final(claimed)@ == with_claims(old(claimed)@, actions_view(r@)),
{
    broadcast use vstd::std_specs::hash::group_hash_axioms;

    let ghost all = actions_view(actions@);
    let ghost before = claimed@;
    let ghost mut seen: int = 0;
    let mut out = actions;
    let mut i: usize = 0;
    assert(actions_view(out@).take(0) =~= unclaimed(all.take(0), before));
    while i < out.len()
        invariant
            claimed@ == before,
            0 <= seen <= all.len(),
            i <= out@.len(),
            out@.len() - i == all.len() - seen,
            actions_view(out@).take(i as int) == unclaimed(all.take(seen), before),
            forall|k: int|
                0 <= k < all.len() - seen ==> all[#[trigger] (seen + k)] == out@[i + k]@,
        decreases out@.len() - i,
    {
        let ghost more = all.take(seen + 1);
        let ghost head = actions_view(out@).take(i as int);
        assert(more.drop_last() =~= all.take(seen));
        assert(more.last() == all[seen + 0]);
        assert(more.last() == out@[i as int]@);
        let taken: bool = match &out[i] {
            SyncAction::CreateReminder { task, target_list: _ } => {
                let h: u64 = task_line_hash(task);
                claimed.contains(&h)
            },
            _ => false,
        };
        assert(taken == is_claimed(more.last(), before));
        let ghost rest = out@;
        if taken {
            out.remove(i);
            assert(actions_view(out@).take(i as int) =~= head);
            assert forall|k: int| 0 <= k < all.len() - (seen + 1) implies all[#[trigger] (seen + 1
                + k)] == out@[i + k]@ by {
                assert(all[seen + (k + 1)] == rest[i + (k + 1)]@);
            }
        } else {
            i = i + 1;
            assert(actions_view(out@).take(i as int) =~= head.push(more.last()));
            assert forall|k: int| 0 <= k < all.len() - (seen + 1) implies all[#[trigger] (seen + 1
                + k)] == out@[i + k]@ by {
                assert(all[seen + (k + 1)] == rest[(i - 1) + (k + 1)]@);
            }
        }
        proof {
            seen = seen + 1;
        }
    }
    assert(all.take(all.len() as int) =~= all);
    assert(actions_view(out@).take(out@.len() as int) =~= actions_view(out@));
    let ghost kept = actions_view(out@);
    assert(kept.take(0) =~= Seq::<ActionView>::empty());
    for i in 0..out.len()
        invariant
            kept == actions_view(out@),
            claimed@ == with_claims(before, kept.take(i as int)),
    {
        let ghost more = kept.take(i + 1);
        assert(more.drop_last() =~= kept.take(i as int));
        assert(more.last() == out@[i as int]@);
        if let SyncAction::CreateReminder { task, target_list: _ } = &out[i] {
            let h: u64 = task_line_hash(task);
            claimed.insert(h);
        }
    }
    assert(kept.take(kept.len() as int) =~= kept);
    out
}

proof fn lemma_claims(claimed: Set<u64>, actions: Seq<ActionView>, i: int)
    requires
        0 <= i < actions.len(),
    ensures
        actions[i] matches ActionView::CreateReminder { task, target_list } ==> with_claims(
            claimed,
            actions,
        ).contains(line_hash(task)),
    decreases actions.len(),
{
    let front = actions.drop_last();
    if i < front.len() {
        lemma_claims(claimed, front, i);
        assert(front[i] == actions[i]);
    }
}

proof fn lemma_unclaimed(actions: Seq<ActionView>, claimed: Set<u64>, j: int)
    requires
        0 <= j < unclaimed(actions, claimed).len(),
    ensures
        !is_claimed(unclaimed(actions, claimed)[j], claimed),
        actions.contains(unclaimed(actions, claimed)[j]),
    decreases actions.len(),
{
    let front = actions.drop_last();
    let kept = unclaimed(front, claimed);
    if j < kept.len() {
        lemma_unclaimed(front, claimed, j);
        let k = front.index_of(kept[j]);
        assert(actions[k] == kept[j]);
    } else {
        assert(actions[actions.len() - 1] == actions.last());
    }
}

/// In a pass no task gets reminders in two lists: what the first list creates a
/// reminder for, the second one leaves alone.
pub proof fn task_is_claimed_once(
    first: Seq<ActionView>,
    second: Seq<ActionView>,
    claimed: Set<u64>,
    i: int,
    j: int,
)
    requires
        0 <= i < first.len(),
        0 <= j < unclaimed(second, with_claims(claimed, first)).len(),
    ensures
        (first[i], unclaimed(second, with_claims(claimed, first))[j]) matches (
            ActionView::CreateReminder { task: a, target_list: _ },
            ActionView::CreateReminder { task: b, target_list: _ },
        ) ==> line_hash(a) != line_hash(b),
{
    lemma_claims(claimed, first, i);
    lemma_unclaimed(second, with_claims(claimed, first), j);
}

proof fn lemma_claims_only(claimed: Set<u64>, actions: Seq<ActionView>, h: u64)
    requires
        with_claims(claimed, actions).contains(h),
        !claimed.contains(h),
    ensures
        exists|i: int|
            0 <= i < actions.len() && (#[trigger] actions[i] matches ActionView::CreateReminder {
                task,
                target_list,
            } && line_hash(task) == h),
    decreases actions.len(),
{
    if actions.len() > 0 {
        let front = actions.drop_last();
        if with_claims(claimed, front).contains(h) {
            lemma_claims_only(claimed, front, h);
            let i = choose|i: int|
                0 <= i < front.len() && (#[trigger] front[i] matches ActionView::CreateReminder {
                    task,
                    target_list,
                } && line_hash(task) == h);
            assert(actions[i] == front[i]);
        } else {
            assert(actions[actions.len() - 1] == actions.last());
        }
    }
}

proof fn lemma_claims_grow(claimed: Set<u64>, actions: Seq<ActionView>, h: u64)
    requires
        claimed.contains(h),
    ensures
        with_claims(claimed, actions).contains(h),
    decreases actions.len(),
{
    if actions.len() > 0 {
        lemma_claims_grow(claimed, actions.drop_last(), h);
    }
}

/// A claim takes away nothing but reminders of claimed tasks: an action is left out where
/// it creates a reminder for a task with a claimed line, and else stays, in its order.
/// What is claimed afterwards is what was, and the tasks that get reminders.
pub proof fn claims_take_reminders_only(
    a: Seq<ActionView>,
    b: Seq<ActionView>,
    x: ActionView,
    claimed: Set<u64>,
    h: u64,
)
    ensures
        unclaimed(a + b, claimed) == unclaimed(a, claimed) + unclaimed(b, claimed),
        unclaimed(seq![x], claimed) == (match x {
            ActionView::CreateReminder { task, target_list } => if claimed.contains(
                line_hash(task),
            ) {
                Seq::empty()
            } else {
                seq![x]
            },
            _ => seq![x],
        }),
        with_claims(claimed, a).contains(h) <==> claimed.contains(h) || exists|i: int|
            0 <= i < a.len() && (#[trigger] a[i] matches ActionView::CreateReminder {
                task,
                target_list,
            } && line_hash(task) == h),
    decreases b.len(),
{
    assert(seq![x].drop_last() =~= Seq::<ActionView>::empty());
    assert(unclaimed(seq![x].drop_last(), claimed) =~= Seq::<ActionView>::empty());
    assert(seq![x].last() == x);
    if b.len() == 0 {
        assert(a + b =~= a);
        assert(unclaimed(a, claimed) + unclaimed(b, claimed) =~= unclaimed(a, claimed));
    } else {
        claims_take_reminders_only(a, b.drop_last(), x, claimed, h);
        assert((a + b).drop_last() =~= a + b.drop_last());
        assert(unclaimed(a + b, claimed) =~= unclaimed(a, claimed) + unclaimed(b, claimed));
    }
    if claimed.contains(h) {
        lemma_claims_grow(claimed, a, h);
    } else if with_claims(claimed, a).contains(h) {
        lemma_claims_only(claimed, a, h);
    }
    if exists|i: int|
        0 <= i < a.len() && (#[trigger] a[i] matches ActionView::CreateReminder {
            task,
            target_list,
        } && line_hash(task) == h) {
        let i = choose|i: int|
            0 <= i < a.len() && (#[trigger] a[i] matches ActionView::CreateReminder {
                task,
                target_list,
            } && line_hash(task) == h);
        lemma_claims(claimed, a, i);
    }
}

proof fn lemma_some_deletion(actions: Seq<ActionView>)
    ensures
        deletions(actions) > 0 <==> exists|i: int|
            0 <= i < actions.len() && ((#[trigger] actions[i]) is DeleteTask || actions[i]
                is DeleteReminder),
    decreases actions.len(),
{
    if actions.len() > 0 {
        let front = actions.drop_last();
        let n = actions.len() - 1;
        lemma_some_deletion(front);
        assert(actions[n] == actions.last());
        if deletions(front) > 0 {
            let i = choose|i: int|
                0 <= i < front.len() && ((#[trigger] front[i]) is DeleteTask || front[i]
                    is DeleteReminder);
            assert(actions[i] == front[i]);
        }
        if exists|i: int|
            0 <= i < actions.len() && ((#[trigger] actions[i]) is DeleteTask || actions[i]
                is DeleteReminder) {
            let i = choose|i: int|
                0 <= i < actions.len() && ((#[trigger] actions[i]) is DeleteTask || actions[i]
                    is DeleteReminder);
            if i < n {
                assert(front[i] == actions[i]);
            }
        }
    }
}

/// A plan is refused on a first run where it deletes anything, and on any run where it
/// deletes more than three reminders and more than the given percentage of the tracked
/// ones; one hundred percent allows any number. No other plan is refused, and a refusal
/// is a matter of safety.
pub proof fn harmful_plan_is_refused(
    actions: Seq<ActionView>,
    is_first: bool,
    total: nat,
    list: Seq<char>,
    state_path: Seq<char>,
    max_percent: nat,
)
    ensures
        ({
            let error = plan_error(actions, is_first, total, list, state_path, max_percent);
            &&& error is Some <==> {
                ||| is_first && exists|i: int|
                    0 <= i < actions.len() && ((#[trigger] actions[i]) is DeleteTask || actions[i]
                        is DeleteReminder)
                ||| total > 0 && max_percent < 100 && reminder_deletions(actions) > 3
                    && reminder_deletions(actions) * 100 > total * max_percent
            }
            &&& error matches Some(e) ==> e is SafetyAbort
        }),
{
    lemma_some_deletion(actions);
}

// ---------------------------------------------------------------------------
// One list
// ---------------------------------------------------------------------------

/// The external identifiers of the pairs of a list.
pub open spec fn pairs_of_list(items: Map<Seq<char>, ItemView>, list: Seq<char>) -> Set<Seq<char>> {
    Set::new(|e: Seq<char>| items.dom().contains(e) && items[e].fields.list == list)
}

/// The number of known pairs of a list.
pub fn tracked_for_list(state: &SyncState, list: &String) -> (n: usize)
    ensures
        pairs_of_list(state@.items, list@).finite(),
        n == pairs_of_list(state@.items, list@).len(),
{
    let total: usize = state.items.len();
    let ghost pairs = state.items.pairs();
    let mut n: usize = 0;
    let ghost mut found: Set<Seq<char>> = Set::empty();
    for i in 0..total
        invariant
            total == pairs.len(),
            pairs == state.items.pairs(),
            distinct_keys(pairs),
            n <= i,
            found.finite(),
            n == found.len(),
            forall|e: Seq<char>| #[trigger]
                found.contains(e) <==> exists|k: int|
                    0 <= k < i && (#[trigger] pairs[k]).0 == e && pairs[k].1.fields.list == list@,
    {
        let item = state.items.value_at(i);
        let ghost before = found;
        if item.fields.list == *list {
            n = n + 1;
            proof {
                let key = pairs[i as int].0;
                if found.contains(key) {
                    let k = choose|k: int|
                        0 <= k < i && (#[trigger] pairs[k]).0 == key && pairs[k].1.fields.list
                            == list@;
                    assert(pairs[k].0 != pairs[i as int].0);
                }
                found = found.insert(key);
            }
        }
        proof {
            assert forall|e: Seq<char>| #[trigger]
                found.contains(e) <==> exists|k: int|
                    0 <= k < i + 1 && (#[trigger] pairs[k]).0 == e && pairs[k].1.fields.list
                        == list@ by {
                if before.contains(e) {
                    let k = choose|k: int|
                        0 <= k < i && (#[trigger] pairs[k]).0 == e && pairs[k].1.fields.list
                            == list@;
                    assert(pairs[k].0 == e);
                }
                if found.contains(e) && !before.contains(e) {
                    assert(pairs[i as int].0 == e);
                }
            }
        }
    }
    proof {
        lemma_map_of(pairs);
        let goal = pairs_of_list(state@.items, list@);
        assert forall|e: Seq<char>| goal.contains(e) <==> found.contains(e) by {
            if goal.contains(e) {
                let k = choose|k: int| 0 <= k < pairs.len() && (#[trigger] pairs[k]).0 == e;
                assert(map_of(pairs)[pairs[k].0] == pairs[k].1);
            }
            if found.contains(e) {
                let k = choose|k: int|
                    0 <= k < total && (#[trigger] pairs[k]).0 == e && pairs[k].1.fields.list
                        == list@;
                assert(map_of(pairs)[pairs[k].0] == pairs[k].1);
            }
        }
        assert(goal =~= found);
    }
    n
}

/// Why actions for a list may not be carried out.
pub open spec fn plan_error(
    actions: Seq<ActionView>,
    is_first: bool,
    total: nat,
    list: Seq<char>,
    state_path: Seq<char>,
    max_percent: nat,
) -> Option<ErrorView> {
    if is_first && deletions(actions) > 0 {
        Some(
            ErrorView::SafetyAbort(first_sync_message(deletions(actions), list, state_path)),
        )
    } else if is_bulk_deletion(actions, total, max_percent) {
        Some(
            ErrorView::SafetyAbort(
                bulk_message(
                    reminder_deletions(actions),
                    total,
                    list,
                    delete_limit(total, max_percent),
                    max_percent,
                    state_path,
                ),
            ),
        )
    } else {
        None
    }
}

/// Decides what a run does for one list on the day `today`, and refuses it where
/// it deletes too much. Tasks that another list has claimed in this pass are left
/// alone.
pub fn plan_list_on(
    reminders: &[Reminder],
    tasks: &[Task],
    state: &SyncState,
    list: &ListSyncConfig,
    app_config: &AppConfig,
    task_mtime: Option<Timestamp>,
    release_eids: &TextSet,
    is_first: bool,
    state_path: &str,
    claimed: &mut HashSet<u64>,
    today: Date,
) -> (r: Result<Vec<SyncAction>, SyncError>)
    requires
        today.has_room(),
        can_admit(list@, tasks_view(tasks@), today@),
    ensures
        ({
            let actions = unclaimed(
                scene(
                    reminders@,
                    tasks@,
                    *state,
                    *list,
                    task_mtime,
                    release_eids@,
                    app_config.timestamp_tolerance_secs,
                    today@,
                ).plan(),
                old(claimed)@,
            );
            let error = plan_error(
                actions,
                is_first,
                pairs_of_list(state@.items, list@.reminders_list).len(),
                list@.reminders_list,
                state_path@,
                app_config.max_delete_percent as nat,
            );
            final(claimed)@ == with_claims(old(claimed)@, actions) && match r {
                Ok(out) => error is None && actions_view(out@) == actions,
                Err(e) => error == Some(e@),
            }
        }),
{
    let raw = compute_sync_actions_on(
        reminders,
        tasks,
        state,
        list,
        task_mtime,
        release_eids,
        app_config.timestamp_tolerance_secs,
        today,
    );
    let actions = drop_claimed(raw, claimed);
    if is_first {
        let first = check_first_sync_no_deletions(
            actions.as_slice(),
            list.reminders_list.as_str(),
            state_path,
        );
        if let Err(e) = first {
            return Err(e);
        }
    }
    let total: usize = tracked_for_list(state, &list.reminders_list);
    let bulk = check_bulk_deletion(
        actions.as_slice(),
        total,
        list.reminders_list.as_str(),
        state_path,
        app_config.max_delete_percent,
    );
    if let Err(e) = bulk {
        return Err(e);
    }
    Ok(actions)
}

/// Carries out the file's side of a list's actions on the day `today`, and refuses
/// the outcome where tasks are missing in it that no action deletes.
pub fn carry_out_on(
    actions: &[SyncAction],
    tasks: Vec<Task>,
    state: &SyncState,
    list: &ListSyncConfig,
    now: Timestamp,
    today: Date,
) -> (r: Result<(Vec<Task>, SyncState), SyncError>)
    requires
        today.has_room(),
    ensures
        ({
            let start = Board { tasks: tasks_view(tasks@), items: state@.items };
            let end = start.after_run(actions_view(actions@), list@, now, today@);
            let deleted = task_deletions(actions_view(actions@));
            match r {
                Ok(out) => {
                    &&& end.tasks.len() + deleted >= start.tasks.len()
                    &&& (Board { tasks: tasks_view(out.0@), items: out.1@.items }) == end
                    &&& out.1@.last_sync_time == Some(now)
                },
                Err(e) => end.tasks.len() + deleted < start.tasks.len() && e@
                    == ErrorView::SafetyAbort(
                    coherence_message(
                        start.tasks.len(),
                        end.tasks.len(),
                        deleted,
                        list@.reminders_list,
                    ),
                ),
            }
        }),
{
    let before: usize = tasks.len();
    let deleted: usize = count_task_deletions(actions);
    let (tasks, state) = apply_task_actions_on(actions, tasks, state, list, now, today);
    assert(tasks_view(tasks@).len() == tasks@.len());
    let fits = check_task_count_coherence(
        before,
        tasks.len(),
        deleted,
        list.reminders_list.as_str(),
    );
    match fits {
        Ok(_) => Ok((tasks, state)),
        Err(e) => Err(e),
    }
}

/// What a dry run says of an action.
pub open spec fn action_text(a: ActionView) -> Seq<char> {
    match a {
        ActionView::CreateTask { eid, reminder } => "CreateTask eid:"@ + eid,
        ActionView::CreateReminder { task, target_list } => "CreateReminder '"@ + task.subject
            + "' → "@ + target_list,
        ActionView::UpdateTask { eid, updated_task } => "UpdateTask eid:"@ + eid,
        ActionView::UpdateReminder { eid, updated_reminder } => "UpdateReminder eid:"@ + eid,
        ActionView::DeleteTask { eid } => "DeleteTask eid:"@ + eid,
        ActionView::DeleteReminder { eid } => "DeleteReminder eid:"@ + eid,
        ActionView::MergeConflict { eid, updated_task, updated_reminder } => "MergeConflict eid:"@
            + eid,
        ActionView::ResurrectTask { eid, task } => "ResurrectTask eid:"@ + eid,
        ActionView::ResurrectReminder { eid, reminder_update, target_list } =>
            "ResurrectReminder eid:"@ + eid,
        ActionView::CleanSentinelTag { sentinel_eid } => "CleanSentinelTag "@ + sentinel_eid
            + " → na"@,
        ActionView::RelinkEid { old_eid, new_eid } => "RelinkEid "@ + old_eid + " → "@ + new_eid,
    }
}

/// What a dry run says of an action.
pub fn describe_action(action: &SyncAction) -> (r: String)
    ensures
        r@ == action_text(action@),
{
    match action {
        SyncAction::CreateTask { eid, reminder: _ } => "CreateTask eid:".to_owned().concat(
            eid.as_str(),
        ),
        SyncAction::CreateReminder { task, target_list } => "CreateReminder '".to_owned().concat(
            task.subject.as_str(),
        ).concat("' → ").concat(target_list.as_str()),
        SyncAction::UpdateTask { eid, updated_task: _ } => "UpdateTask eid:".to_owned().concat(
            eid.as_str(),
        ),
        SyncAction::UpdateReminder { eid, updated_reminder: _ } => {
            "UpdateReminder eid:".to_owned().concat(eid.as_str())
        },
        SyncAction::DeleteTask { eid } => "DeleteTask eid:".to_owned().concat(eid.as_str()),
        SyncAction::DeleteReminder { eid } => "DeleteReminder eid:".to_owned().concat(
            eid.as_str(),
        ),
        SyncAction::MergeConflict { eid, updated_task: _, updated_reminder: _ } => {
            "MergeConflict eid:".to_owned().concat(eid.as_str())
        },
        SyncAction::ResurrectTask { eid, task: _ } => "ResurrectTask eid:".to_owned().concat(
            eid.as_str(),
        ),
        SyncAction::ResurrectReminder { eid, reminder_update: _, target_list: _ } => {
            "ResurrectReminder eid:".to_owned().concat(eid.as_str())
        },
        SyncAction::CleanSentinelTag { sentinel_eid } => "CleanSentinelTag ".to_owned().concat(
            sentinel_eid.as_str(),
        ).concat(" → na"),
        SyncAction::RelinkEid { old_eid, new_eid } => "RelinkEid ".to_owned().concat(
            old_eid.as_str(),
        ).concat(" → ").concat(new_eid.as_str()),
    }
}

// ---------------------------------------------------------------------------
// The end of a pass and of a run
// ---------------------------------------------------------------------------

/// The number of passes that a run makes at most: completing recurring tasks calls
/// for another pass.
pub const MAX_RECURRENCE_PASSES: usize = 3;

/// Ends a pass: the next instances of recurring tasks join the tasks, except on a
/// dry run. Whether another pass follows: there were such instances, and the limit
/// is not reached.
pub fn end_pass(pass: usize, dry_run: bool, tasks: &mut Vec<Task>, spawns: Vec<Task>) -> (again:
    bool)
    ensures
        final(tasks)@ == (if dry_run {
            old(tasks)@
        } else {
            old(tasks)@ + spawns@
        }),
        again == (spawns@.len() > 0 && !dry_run && pass < MAX_RECURRENCE_PASSES),
{
    if spawns.len() == 0 || dry_run {
        assert(spawns@.len() == 0 ==> tasks@ =~= old(tasks)@ + spawns@);
        return false;
    }
    let mut spawns = spawns;
    tasks.append(&mut spawns);
    pass < MAX_RECURRENCE_PASSES
}

/// The message of a file that was changed during the run.
pub open spec fn modified_message(
    path: Seq<char>,
    before: Seq<char>,
    after: Seq<char>,
) -> Seq<char> {
    path + " was modified externally during sync (mtime changed from "@ + before + " to "@ + after
        + "). Re-run sync to pick up the latest version."@
}

/// Makes sure that the todo.txt file was not changed during the run: what would be
/// written is based on what it was before. The texts show the two times.
pub fn check_unmodified(
    path: &str,
    before: Option<Timestamp>,
    after: Option<Timestamp>,
    before_text: &str,
    after_text: &str,
) -> (r: Result<(), SyncError>)
    ensures
        match r {
            Ok(_) => before == after,
            Err(e) => before != after && e@ == ErrorView::SafetyAbort(
                modified_message(path@, before_text@, after_text@),
            ),
        },
{
    let same: bool = match (before, after) {
        (Some(a), Some(b)) => a.secs == b.secs && a.nanos == b.nanos,
        (None, None) => true,
        _ => false,
    };
    if !same {
        return Err(
            SyncError::SafetyAbort(
                path.to_owned().concat(
                    " was modified externally during sync (mtime changed from ",
                ).concat(before_text).concat(" to ").concat(after_text).concat(
                    "). Re-run sync to pick up the latest version.",
                ),
            ),
        );
    }
    Ok(())
}

/// The message of changes to reminders that failed.
pub open spec fn failures_message(failures: nat) -> Seq<char> {
    decimal(failures)
        + " reminder action(s) failed — nothing was written. Run 'remtodo restore' to undo the rest."@
}

/// Makes sure that every change to a reminder succeeded before the files are
/// written: a state that took a failed change for done would let the next run undo
/// it on the other side.
pub fn check_failures(failures: usize) -> (r: Result<(), SyncError>)
    ensures
        match r {
            Ok(_) => failures == 0,
            Err(e) => failures > 0 && e@ == ErrorView::SafetyAbort(
                failures_message(failures as nat),
            ),
        },
{
    if failures > 0 {
        let n = decimal_text(failures as u64);
        return Err(
            SyncError::SafetyAbort(
                n.concat(
                    " reminder action(s) failed — nothing was written. Run 'remtodo restore' to undo the rest.",
                ),
            ),
        );
    }
    Ok(())
}

/// Ends a run: an interrupted one says for how many lists its outcome was saved.
pub fn end_run(interrupted: bool, completed_lists: usize) -> (r: Result<(), SyncError>)
    ensures
        match r {
            Ok(_) => !interrupted,
            Err(e) => interrupted && e@ == ErrorView::Interrupted(completed_lists),
        },
{
    if interrupted {
        return Err(SyncError::Interrupted(completed_lists));
    }
    Ok(())
}

/// What a dry run says of an action tells which pair or which task it is about.
pub proof fn descriptions_tell_which(a: ActionView)
    ensures
        a matches ActionView::CreateTask { eid, .. } ==> is_within(eid, action_text(a)),
        a matches ActionView::CreateReminder { task, target_list } ==> is_within(
            task.subject,
            action_text(a),
        ) && is_within(target_list, action_text(a)),
        a matches ActionView::UpdateTask { eid, .. } ==> is_within(eid, action_text(a)),
        a matches ActionView::UpdateReminder { eid, .. } ==> is_within(eid, action_text(a)),
        a matches ActionView::DeleteTask { eid } ==> is_within(eid, action_text(a)),
        a matches ActionView::DeleteReminder { eid } ==> is_within(eid, action_text(a)),
        a matches ActionView::MergeConflict { eid, .. } ==> is_within(eid, action_text(a)),
        a matches ActionView::ResurrectTask { eid, .. } ==> is_within(eid, action_text(a)),
        a matches ActionView::ResurrectReminder { eid, .. } ==> is_within(eid, action_text(a)),
        a matches ActionView::CleanSentinelTag { sentinel_eid } ==> is_within(
            sentinel_eid,
            action_text(a),
        ),
        a matches ActionView::RelinkEid { old_eid, new_eid } ==> is_within(old_eid, action_text(a))
            && is_within(new_eid, action_text(a)),
{
    match a {
        ActionView::CreateTask { eid, reminder } => {
            lemma_within("CreateTask eid:"@, eid, eid);
        },
        ActionView::CreateReminder { task, target_list } => {
            let s = "CreateReminder '"@;
            let arrow = "' → "@;
            lemma_within(s, task.subject, arrow + target_list);
            assert(action_text(a) =~= s + task.subject + (arrow + target_list));
            lemma_within(s + task.subject + arrow, target_list, target_list);
        },
        ActionView::UpdateTask { eid, updated_task } => {
            lemma_within("UpdateTask eid:"@, eid, eid);
        },
        ActionView::UpdateReminder { eid, updated_reminder } => {
            lemma_within("UpdateReminder eid:"@, eid, eid);
        },
        ActionView::DeleteTask { eid } => {
            lemma_within("DeleteTask eid:"@, eid, eid);
        },
        ActionView::DeleteReminder { eid } => {
            lemma_within("DeleteReminder eid:"@, eid, eid);
        },
        ActionView::MergeConflict { eid, updated_task, updated_reminder } => {
            lemma_within("MergeConflict eid:"@, eid, eid);
        },
        ActionView::ResurrectTask { eid, task } => {
            lemma_within("ResurrectTask eid:"@, eid, eid);
        },
        ActionView::ResurrectReminder { eid, reminder_update, target_list } => {
            lemma_within("ResurrectReminder eid:"@, eid, eid);
        },
        ActionView::CleanSentinelTag { sentinel_eid } => {
            lemma_within("CleanSentinelTag "@, sentinel_eid, " → na"@);
        },
        ActionView::RelinkEid { old_eid, new_eid } => {
            let s = "RelinkEid "@;
            let arrow = " → "@;
            lemma_within(s, old_eid, arrow + new_eid);
            assert(action_text(a) =~= s + old_eid + (arrow + new_eid));
            lemma_within(s + old_eid + arrow, new_eid, new_eid);
        },
    }
}

/// Each thing that the program can be asked to do has one word, the version three.
pub proof fn subcommands_have_words(s: Seq<char>)
    ensures
        subcommand_named(s) == Some(Subcommand::Sync) <==> s == "sync"@,
        subcommand_named(s) == Some(Subcommand::Install) <==> s == "install"@,
        subcommand_named(s) == Some(Subcommand::Uninstall) <==> s == "uninstall"@,
        subcommand_named(s) == Some(Subcommand::Status) <==> s == "status"@,
        subcommand_named(s) == Some(Subcommand::Restore) <==> s == "restore"@,
        subcommand_named(s) == Some(Subcommand::Version) <==> s == "--version"@ || s == "-V"@ || s
            == "version"@,
{
    reveal_strlit("sync");
    reveal_strlit("install");
    reveal_strlit("uninstall");
    reveal_strlit("status");
    reveal_strlit("restore");
    reveal_strlit("--version");
    reveal_strlit("-V");
    reveal_strlit("version");
    assert("install"@[0] != "restore"@[0] && "install"@[0] != "version"@[0] && "restore"@[0]
        != "version"@[0]);
    assert("uninstall"@[0] != "--version"@[0]);
    assert("sync"@.len() == 4 && "status"@.len() == 6 && "-V"@.len() == 2);
    assert("install"@.len() == 7 && "restore"@.len() == 7 && "version"@.len() == 7);
    assert("uninstall"@.len() == 9 && "--version"@.len() == 9);
}

} // verus!
