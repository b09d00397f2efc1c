//! Core of a disk-usage analyzer: a filesystem scanner that aggregates
//! allocated block usage per directory, with a persistent incremental-scan
//! cache keyed on directory metadata, a work-stealing strategy for skewed
//! trees, and a cooperative memory monitor.
//!
//! The scanner itself is pure: it consumes a snapshot of walked filesystem
//! entries (paths, sizes, metadata) produced by a host program and computes
//! sizes, child counts, cache decisions and the sorted result list.

pub mod cache;
pub mod cli;
pub mod clock;
pub mod codec;
pub mod data;
pub mod globs;
pub mod hash;
pub mod memory;
pub mod metrics;
pub mod owner;
pub mod paths;
pub mod scan;
pub mod store;
pub mod thread_pool;
pub mod utils;

pub use cli::Args;
pub use data::{EntryType, FileEntry};
