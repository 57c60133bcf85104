//! The sync engine: what is public of it, in one place.

pub use crate::sync::apply::{apply_task_actions, apply_task_actions_on};
pub use crate::sync::bootstrap::{
    build_initial_state, make_reconciliation_key, reconcile_unmatched_by_title,
};
pub use crate::sync::check::verify_post_sync;
pub use crate::sync::diff::{
    apply_task_updates, build_reminder_update, replace_title_in_subject, task_to_reminder_update,
    three_way_diff,
};
pub use crate::sync::fields::{
    build_field_state_from_reminder, extract_title, is_sentinel_eid, parse_reminder_modified,
    sentinel_original_eid, synced_field_hash, task_completion_date, task_due_date, task_line_hash,
    task_notes, task_priority,
};
pub use crate::sync::plan::{
    compute_sync_actions, compute_sync_actions_ext, compute_sync_actions_on,
};
pub use crate::sync::release::compute_release_set;
