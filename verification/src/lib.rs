//! Two-way synchronisation between Apple Reminders lists and a todo.txt file.

pub mod config;
pub mod dates;
pub mod error;
pub mod execute;
pub mod filter;
pub mod keyed;
pub mod launchd;
pub mod lock;
pub mod mapping;
pub mod reminder;
pub mod run;
pub mod session;
pub mod swift_cli;
pub mod sync;
pub mod task;
pub mod text;
pub mod undo;
