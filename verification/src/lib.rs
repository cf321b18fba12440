//! A local photo-sync engine: content-addressed scanning, a FIFO work queue
//! with a delta-sync index, a drain worker, a change-watcher model, and a
//! trash store with day-based retention.

pub mod db;
pub mod hash;
pub mod meta;
pub mod queue;
pub mod scanner;
pub mod sync;
pub mod text;
pub mod timefmt;
pub mod trash;
pub mod watcher;
pub mod worker;
