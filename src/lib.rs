//! A job-application tracker: a collection of applications kept in insertion
//! order with distinct ids, and the operations that add, update, delete,
//! filter, remind and list them.

pub mod jobs;
pub mod query;
pub mod render;

pub use jobs::{
    add_job, delete_job, ids_distinct, ids_of, max_id, next_id, update_status, without_id, Job,
    Timestamp,
};
pub use query::{
    age_days, contains_str, filter_jobs, job_matches, matches_folded, needs_reminder, remind_jobs,
    DEFAULT_REMIND_DAYS,
};
pub use render::{job_line, time_is_ok};
