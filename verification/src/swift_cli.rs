//! The helper program that talks to Reminders: what it is asked and what it
//! answers.

use crate::error::{ErrorView, SyncError};
use crate::reminder::{Reminder, ReminderView};
use crate::sync::actions::{ReminderUpdate, UpdateView};
use crate::text::{copy_opt, decimal, decimal_text, opt_text, trim, trim_text};
use vstd::prelude::*;

verus! {

/// A reminder to be created.
#[derive(Debug)]
pub struct CreateReminderInput {
    pub title: String,
    pub list_name: String,
    pub priority: i32,
    pub due_date: Option<String>,
    pub notes: Option<String>,
    pub is_completed: bool,
    pub completion_date: Option<String>,
}

/// What a [`CreateReminderInput`] holds.
#[verifier::ext_equal]
pub struct CreateView {
    pub title: Seq<char>,
    pub list_name: Seq<char>,
    pub priority: i32,
    pub due_date: Option<Seq<char>>,
    pub notes: Option<Seq<char>>,
    pub is_completed: bool,
    pub completion_date: Option<Seq<char>>,
}

impl View for CreateReminderInput {
    type V = CreateView;

    open spec fn view(&self) -> CreateView {
        CreateView {
            title: self.title@,
            list_name: self.list_name@,
            priority: self.priority,
            due_date: opt_text(self.due_date),
            notes: opt_text(self.notes),
            is_completed: self.is_completed,
            completion_date: opt_text(self.completion_date),
        }
    }
}

impl Clone for CreateReminderInput {
    fn clone(&self) -> (r: Self)
        ensures
            r@ == self@,
    {
        CreateReminderInput {
            title: self.title.clone(),
            list_name: self.list_name.clone(),
            priority: self.priority,
            due_date: copy_opt(&self.due_date),
            notes: copy_opt(&self.notes),
            is_completed: self.is_completed,
            completion_date: copy_opt(&self.completion_date),
        }
    }
}

/// One change to Reminders.
#[derive(Debug)]
pub enum BatchOp {
    CreateReminder(CreateReminderInput),
    UpdateReminder(ReminderUpdate),
    DeleteReminder { eid: String, list_name: String },
}

/// What a [`BatchOp`] says.
#[verifier::ext_equal]
pub enum OpView {
    CreateReminder(CreateView),
    UpdateReminder(UpdateView),
    DeleteReminder { eid: Seq<char>, list_name: Seq<char> },
}

impl View for BatchOp {
    type V = OpView;

    open spec fn view(&self) -> OpView {
        match *self {
            BatchOp::CreateReminder(c) => OpView::CreateReminder(c@),
            BatchOp::UpdateReminder(u) => OpView::UpdateReminder(u@),
            BatchOp::DeleteReminder { eid, list_name } => OpView::DeleteReminder {
                eid: eid@,
                list_name: list_name@,
            },
        }
    }
}

impl Clone for BatchOp {
    fn clone(&self) -> (r: Self)
        ensures
            r@ == self@,
    {
        match self {
            BatchOp::CreateReminder(c) => BatchOp::CreateReminder(c.clone()),
            BatchOp::UpdateReminder(u) => BatchOp::UpdateReminder(u.clone()),
            BatchOp::DeleteReminder { eid, list_name } => BatchOp::DeleteReminder {
                eid: eid.clone(),
                list_name: list_name.clone(),
            },
        }
    }
}

/// The answer to one change.
#[derive(Debug)]
pub struct BatchItemResult {
    pub ok: bool,
    /// The reminder that was created or updated.
    pub reminder: Option<Reminder>,
    pub deleted: Option<bool>,
    pub error: Option<String>,
}

/// The part of a [`BatchItemResult`] that a run goes by.
#[verifier::ext_equal]
pub struct ResultView {
    pub ok: bool,
    pub reminder: Option<ReminderView>,
}

impl View for BatchItemResult {
    type V = ResultView;

    open spec fn view(&self) -> ResultView {
        ResultView {
            ok: self.ok,
            reminder: match self.reminder {
                Some(r) => Some(r@),
                None => None,
            },
        }
    }
}

/// The message of a number of answers that does not fit.
pub open spec fn batch_message(asked: nat, answered: nat) -> Seq<char> {
    "batch: expected "@ + decimal(asked) + " result(s), got "@ + decimal(answered)
}

/// Makes sure that every change of a batch was answered.
pub fn check_batch_len(asked: usize, answered: usize) -> (r: Result<(), SyncError>)
    ensures
        match r {
            Ok(_) => asked == answered,
            Err(e) => asked != answered && e@ == ErrorView::SwiftCli(
                batch_message(asked as nat, answered as nat),
            ),
        },
{
    if answered != asked {
        let a = decimal_text(asked as u64);
        let b = decimal_text(answered as u64);
        return Err(
            SyncError::SwiftCli(
                "batch: expected ".to_owned().concat(a.as_str()).concat(
                    " result(s), got ",
                ).concat(b.as_str()),
            ),
        );
    }
    Ok(())
}

/// Where the helper program was looked for, and what was found there.
#[derive(Debug)]
pub struct HelperSearch {
    /// The path that the environment names, and whether it exists.
    pub env: Option<(String, bool)>,
    /// The path beside this program, and whether it exists.
    pub sibling: Option<(String, bool)>,
    /// The path of the release build, and whether it exists.
    pub release: Option<(String, bool)>,
    /// The path of the debug build, and whether it exists.
    pub debug: Option<(String, bool)>,
    /// What a successful search of the program path printed.
    pub which: Option<String>,
}

/// A path that exists.
pub open spec fn existing(p: Option<(String, bool)>) -> Option<Seq<char>> {
    match p {
        Some(x) => if x.1 {
            Some(x.0@)
        } else {
            None
        },
        None => None,
    }
}

/// The first of some paths that exists.
pub open spec fn first_of(paths: Seq<Option<Seq<char>>>) -> Option<Seq<char>>
    decreases paths.len(),
{
    if paths.len() == 0 {
        None
    } else if paths[0] is Some {
        paths[0]
    } else {
        first_of(paths.skip(1))
    }
}

/// What a search of the program path found.
pub open spec fn printed_path(out: Option<String>) -> Option<Seq<char>> {
    match out {
        Some(s) => if trim(s@).len() > 0 {
            Some(trim(s@))
        } else {
            None
        },
        None => None,
    }
}

/// The helper program: the first that exists of those that the
/// environment names, that stands beside this program, that was built for release
/// or for debugging, and that is on the program path.
pub open spec fn helper_path(s: HelperSearch) -> Option<Seq<char>> {
    first_of(
        seq![
            existing(s.env),
            existing(s.sibling),
            existing(s.release),
            existing(s.debug),
            printed_path(s.which),
        ],
    )
}

fn copy_existing(p: &Option<(String, bool)>) -> (r: Option<String>)
    ensures
        opt_text(r) == existing(*p),
{
    match p {
        Some(x) => if x.1 {
            Some(x.0.clone())
        } else {
            None
        },
        None => None,
    }
}

fn copy_printed(out: &Option<String>) -> (r: Option<String>)
    ensures
        opt_text(r) == printed_path(*out),
{
    match out {
        Some(s) => {
            let path = trim_text(s.as_str());
            if path.as_str().is_empty() {
                None
            } else {
                Some(path)
            }
        },
        None => None,
    }
}

/// Chooses the helper program among those that were found.
pub fn find_reminders_helper(search: &HelperSearch) -> (r: Option<String>)
    ensures
        opt_text(r) == helper_path(*search),
{
    let a = copy_existing(&search.env);
    let b = copy_existing(&search.sibling);
    let c = copy_existing(&search.release);
    let d = copy_existing(&search.debug);
    let e = copy_printed(&search.which);
    proof {
        reveal_with_fuel(first_of, 6);
        let all = seq![opt_text(a), opt_text(b), opt_text(c), opt_text(d), opt_text(e)];
        assert(all.skip(1).skip(1) =~= all.skip(2));
        assert(all.skip(2).skip(1) =~= all.skip(3));
        assert(all.skip(3).skip(1) =~= all.skip(4));
        assert(all.skip(4).skip(1) =~= all.skip(5));
    }
    if a.is_some() {
        a
    } else if b.is_some() {
        b
    } else if c.is_some() {
        c
    } else if d.is_some() {
        d
    } else {
        e
    }
}

/// The helper program.
#[derive(Debug)]
pub struct SwiftCli {
    pub binary: String,
}

impl SwiftCli {
    /// Chooses the helper program among those that were found.
    pub fn new(search: &HelperSearch) -> (r: Result<Self, SyncError>)
        ensures
            match helper_path(*search) {
                Some(p) => r matches Ok(cli) && cli.binary@ == p,
                None => r matches Err(e) && e@ == ErrorView::SwiftCli(
                    "reminders-helper not found. Install with: make install"@,
                ),
            },
    {
        match find_reminders_helper(search) {
            Some(binary) => Ok(SwiftCli { binary }),
            None => Err(
                SyncError::SwiftCli(
                    "reminders-helper not found. Install with: make install".to_owned(),
                ),
            ),
        }
    }
}

/// The arguments that ask the helper for the reminders of a list.
pub open spec fn get_reminders_words(list: Seq<char>, include_completed: bool) -> Seq<Seq<char>> {
    let base = seq!["get-reminders"@, "--list"@, list];
    if include_completed {
        base.push("--include-completed"@)
    } else {
        base
    }
}

/// The arguments that ask the helper for the reminders of a list.
pub fn get_reminders_args(list_name: &str, include_completed: bool) -> (r: Vec<String>)
    ensures
        crate::text::texts(r@) == get_reminders_words(list_name@, include_completed),
{
    let mut args: Vec<String> = Vec::new();
    args.push("get-reminders".to_owned());
    args.push("--list".to_owned());
    args.push(list_name.to_owned());
    if include_completed {
        args.push("--include-completed".to_owned());
    }
    assert(crate::text::texts(args@) =~= get_reminders_words(list_name@, include_completed));
    args
}

/// The helper that the environment names comes first, then the one beside this program,
/// then the release build, then the debug build, as far as they exist; and last the one on
/// the program path, without white space around it.
pub proof fn helper_is_chosen_in_order(s: HelperSearch)
    ensures
        ({
            let env = s.env matches Some(x) && x.1;
            let sibling = s.sibling matches Some(x) && x.1;
            let release = s.release matches Some(x) && x.1;
            let debug = s.debug matches Some(x) && x.1;
            &&& s.env matches Some(x) ==> (x.1 ==> helper_path(s) == Some(x.0@))
            &&& s.sibling matches Some(x) ==> (x.1 && !env ==> helper_path(s) == Some(x.0@))
            &&& s.release matches Some(x) ==> (x.1 && !env && !sibling ==> helper_path(s) == Some(
                x.0@,
            ))
            &&& s.debug matches Some(x) ==> (x.1 && !env && !sibling && !release ==> helper_path(s)
                == Some(x.0@))
            &&& !env && !sibling && !release && !debug ==> match s.which {
                Some(out) => helper_path(s) == (if trim(out@).len() > 0 {
                    Some(trim(out@))
                } else {
                    None
                }),
                None => helper_path(s) is None,
            }
        }),
{
    reveal_with_fuel(first_of, 6);
    let all = seq![
        existing(s.env),
        existing(s.sibling),
        existing(s.release),
        existing(s.debug),
        printed_path(s.which),
    ];
    assert(all.skip(1).skip(1) =~= all.skip(2));
    assert(all.skip(2).skip(1) =~= all.skip(3));
    assert(all.skip(3).skip(1) =~= all.skip(4));
    assert(all.skip(4).skip(1) =~= all.skip(5));
}

/// The reminders of a list are asked for by its name, the completed ones only where they
/// are wanted.
pub proof fn completed_are_asked_for(list: Seq<char>, include_completed: bool)
    ensures
        get_reminders_words(list, include_completed).len() == if include_completed {
            4int
        } else {
            3
        },
        get_reminders_words(list, include_completed)[1] == "--list"@,
        get_reminders_words(list, include_completed)[2] == list,
        include_completed ==> get_reminders_words(list, true)[3] == "--include-completed"@,
{
}

} // verus!
