//! The lock that keeps two sync runs apart.

use crate::error::{ErrorView, SyncError};
use crate::text::{
    decimal, decimal_reads_back, is_digit, is_white, natural, parse_u32, trim, trim_text,
    trimming_takes_outer_white,
};
use crate::undo::{below, path_below};
use vstd::prelude::*;

verus! {

/// The process number that a lock file gives, or zero where it gives none.
pub open spec fn owner_in(content: Seq<char>) -> u32 {
    match natural(trim(content)) {
        Some(n) => if n <= u32::MAX {
            n as u32
        } else {
            0
        },
        None => 0,
    }
}

/// The process number that a lock file gives, or zero where it gives none.
pub fn lock_owner(content: &str) -> (pid: u32)
    ensures
        pid == owner_in(content@),
{
    let text = trim_text(content);
    match parse_u32(text.as_str()) {
        Some(n) => n,
        None => 0,
    }
}

/// The path of the lock file.
pub fn lock_path(state_dir: &str) -> (r: String)
    ensures
        r@ == below(state_dir@, "sync.lock"@),
{
    path_below(state_dir, "sync.lock")
}

/// A lock that may be taken.
#[derive(Debug)]
pub struct SyncLock {
    /// The path of the lock file.
    pub path: String,
    /// Whether a lock file of a process that is gone has to be removed first.
    pub is_stale: bool,
}

/// Whether a lock file belongs to a process that is running.
pub open spec fn is_held(content: Option<Seq<char>>, owner_alive: bool) -> bool {
    content matches Some(c) && owner_in(c) > 0 && owner_alive
}

impl SyncLock {
    /// Decides whether the lock may be taken, given what the lock file holds, where
    /// there is one, and whether the process that it names is running.
    pub fn acquire(state_dir: &str, content: Option<&str>, owner_alive: bool) -> (r: Result<
        Self,
        SyncError,
    >)
        ensures
            ({
                let held = match content {
                    Some(c) => Some(c@),
                    None => None,
                };
                match r {
                    Ok(lock) => !is_held(held, owner_alive) && lock.path@ == below(
                        state_dir@,
                        "sync.lock"@,
                    ) && lock.is_stale == (held is Some),
                    Err(e) => is_held(held, owner_alive) && e@ == ErrorView::LockConflict(
                        owner_in(held->0),
                    ),
                }
            }),
    {
        let mut is_stale: bool = false;
        if let Some(c) = content {
            let pid: u32 = lock_owner(c);
            if pid > 0 && owner_alive {
                return Err(SyncError::LockConflict(pid));
            }
            is_stale = true;
        }
        Ok(SyncLock { path: lock_path(state_dir), is_stale })
    }
}

/// The process number that was written to a lock file is read back, whatever white space
/// is around it. Whoever holds a lock file without a number does not hold the lock.
pub proof fn owner_reads_back(pid: u32, before: Seq<char>, after: Seq<char>)
    requires
        forall|i: int| 0 <= i < before.len() ==> is_white(#[trigger] before[i]),
        forall|i: int| 0 <= i < after.len() ==> is_white(#[trigger] after[i]),
    ensures
        owner_in(before + decimal(pid as nat) + after) == pid,
        owner_in(before + after) == 0,
        is_held(Some(before + decimal(pid as nat) + after), true) <==> pid > 0,
        !is_held(Some(before + decimal(pid as nat) + after), false),
        !is_held(Some(before + after), true),
        !is_held(None, true),
{
    let text = decimal(pid as nat);
    decimal_reads_back(pid as nat);
    assert(is_digit(text[0]));
    assert(is_digit(text[text.len() - 1]));
    trimming_takes_outer_white(before, text, after);
    trimming_takes_outer_white(before, Seq::empty(), after);
    assert(before + Seq::<char>::empty() + after =~= before + after);
}

} // verus!
