//! What can go wrong in a sync run.

use crate::text::{decimal, decimal_text, is_within, lemma_within};
use vstd::prelude::*;

verus! {

/// Why a run was given up.
#[derive(Debug)]
pub enum SyncError {
    /// The helper program for Reminders failed.
    SwiftCli(String),
    /// Data was not the JSON that was expected.
    JsonParse(String),
    /// A file could not be read or written.
    Io(String),
    /// The todo.txt file could not be read or written.
    Todo(String),
    /// The configuration cannot be used.
    Config(String),
    /// Going on could have lost data.
    SafetyAbort(String),
    /// Another sync process, with the given process number, is running.
    LockConflict(u32),
    /// The run was interrupted after the given number of lists.
    Interrupted(usize),
}

/// What a [`SyncError`] says.
#[verifier::ext_equal]
pub enum ErrorView {
    SwiftCli(Seq<char>),
    JsonParse(Seq<char>),
    Io(Seq<char>),
    Todo(Seq<char>),
    Config(Seq<char>),
    SafetyAbort(Seq<char>),
    LockConflict(u32),
    Interrupted(usize),
}

impl View for SyncError {
    type V = ErrorView;

    open spec fn view(&self) -> ErrorView {
        match *self {
            SyncError::SwiftCli(s) => ErrorView::SwiftCli(s@),
            SyncError::JsonParse(s) => ErrorView::JsonParse(s@),
            SyncError::Io(s) => ErrorView::Io(s@),
            SyncError::Todo(s) => ErrorView::Todo(s@),
            SyncError::Config(s) => ErrorView::Config(s@),
            SyncError::SafetyAbort(s) => ErrorView::SafetyAbort(s@),
            SyncError::LockConflict(pid) => ErrorView::LockConflict(pid),
            SyncError::Interrupted(n) => ErrorView::Interrupted(n),
        }
    }
}

/// The message of an error.
pub open spec fn error_message(e: ErrorView) -> Seq<char> {
    match e {
        ErrorView::SwiftCli(s) => "Swift CLI error: "@ + s,
        ErrorView::JsonParse(s) => "JSON parse error: "@ + s,
        ErrorView::Io(s) => "IO error: "@ + s,
        ErrorView::Todo(s) => "Todo file error: "@ + s,
        ErrorView::Config(s) => "Config error: "@ + s,
        ErrorView::SafetyAbort(s) => "Safety check failed — aborting to prevent data loss: "@ + s,
        ErrorView::LockConflict(pid) => "Another sync process (PID "@ + decimal(pid as nat)
            + ") is already running. If that process is stuck, remove the lock file manually."@,
        ErrorView::Interrupted(n) => "Sync interrupted — state saved for "@ + decimal(n as nat)
            + " completed list(s). Re-run to finish."@,
    }
}

impl SyncError {
    /// The message of this error.
    pub fn message(&self) -> (r: String)
        ensures
            r@ == error_message(self@),
    {
        match self {
            SyncError::SwiftCli(s) => "Swift CLI error: ".to_owned().concat(s.as_str()),
            SyncError::JsonParse(s) => "JSON parse error: ".to_owned().concat(s.as_str()),
            SyncError::Io(s) => "IO error: ".to_owned().concat(s.as_str()),
            SyncError::Todo(s) => "Todo file error: ".to_owned().concat(s.as_str()),
            SyncError::Config(s) => "Config error: ".to_owned().concat(s.as_str()),
            SyncError::SafetyAbort(s) => {
                "Safety check failed — aborting to prevent data loss: ".to_owned().concat(
                    s.as_str(),
                )
            },
            SyncError::LockConflict(pid) => {
                let n = decimal_text(*pid as u64);
                "Another sync process (PID ".to_owned().concat(n.as_str()).concat(
                    ") is already running. If that process is stuck, remove the lock file manually.",
                )
            },
            SyncError::Interrupted(lists) => {
                let n = decimal_text(*lists as u64);
                "Sync interrupted — state saved for ".to_owned().concat(n.as_str()).concat(
                    " completed list(s). Re-run to finish.",
                )
            },
        }
    }
}

/// A message tells what the error says.
pub proof fn messages_tell_all(s: Seq<char>, pid: u32, n: usize)
    ensures
        is_within(s, error_message(ErrorView::SwiftCli(s))),
        is_within(s, error_message(ErrorView::JsonParse(s))),
        is_within(s, error_message(ErrorView::Io(s))),
        is_within(s, error_message(ErrorView::Todo(s))),
        is_within(s, error_message(ErrorView::Config(s))),
        is_within(s, error_message(ErrorView::SafetyAbort(s))),
        is_within(decimal(pid as nat), error_message(ErrorView::LockConflict(pid))),
        is_within(decimal(n as nat), error_message(ErrorView::Interrupted(n))),
{
    lemma_within("Swift CLI error: "@, s, s);
    lemma_within("JSON parse error: "@, s, s);
    lemma_within("IO error: "@, s, s);
    lemma_within("Todo file error: "@, s, s);
    lemma_within("Config error: "@, s, s);
    lemma_within("Safety check failed — aborting to prevent data loss: "@, s, s);
    lemma_within(
        "Another sync process (PID "@,
        decimal(pid as nat),
        ") is already running. If that process is stuck, remove the lock file manually."@,
    );
    lemma_within(
        "Sync interrupted — state saved for "@,
        decimal(n as nat),
        " completed list(s). Re-run to finish."@,
    );
}

} // verus!
