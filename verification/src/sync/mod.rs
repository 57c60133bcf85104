//! The sync engine and its data.

pub mod actions;
pub mod apply;
pub mod bootstrap;
pub mod check;
pub mod complete;
pub mod config;
pub mod diff;
pub mod effects;
pub mod engine;
pub mod faithful;
pub mod fields;
pub mod first_run;
pub mod imports;
pub mod laws;
pub mod persistence;
pub mod plan;
pub mod recurrence;
pub mod release;
pub mod reports;
pub mod rules;
pub mod safety;
pub mod state;
