//! Scheduling, execution and synchronisation engine of a self-updating cron runner.

mod text;
pub mod backoff;
pub mod concurrency;
pub mod executor;
pub mod zone;
pub mod scheduler;
pub mod paths;
pub mod workdir;
pub mod materialize;
pub mod env;
pub mod source;
