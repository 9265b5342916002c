//! Price-probe core: a refresh-filter-reconcile-publish pipeline over an
//! abstract key-value store, with allow-list / skip-list / threshold
//! filtering, a tracked exchange ratio between the two in-game currencies,
//! and a plain-text digest of the stored snapshots.
#![verifier::loop_isolation(false)]

pub mod strutil;
pub mod numbers;
pub mod models;
pub mod record;
pub mod redis;
pub mod classify;
pub mod keys;
pub mod filter;
pub mod ratio;
pub mod pipeline;
pub mod digest;
pub mod job_handler;
pub mod init;
pub mod clock;
