//! Scan configuration and the CSV output record.
//!
//! `Args` mirrors the command-line surface of the tool. Parsing the actual
//! command line is the host program's affair; the library consumes the
//! resulting plain values.

use vstd::prelude::*;

verus! {

use crate::thread_pool::ThreadPoolStrategy;
use vstd::string::StringExecFns;

/// How scan results are sorted.
#[derive(Debug, Clone, Copy, PartialEq, Eq, Structural)]
pub enum SortKey {
    /// Ascending by path.
    Name,
    /// Descending by size.
    Size,
}

/// Configuration of one scan.
#[derive(Debug, Clone)]
pub struct Args {
    /// Root path to scan.
    pub path: String,
    /// Emit directories up to this depth; files only at exactly this depth.
    pub depth: Option<usize>,
    /// Sort order of the result list.
    pub sort: SortKey,
    /// Whether files appear in the output at all.
    pub show_files: bool,
    /// Raw user-supplied exclude patterns.
    pub exclude: Vec<String>,
    /// Resolve and show the owner of each entry.
    pub show_owner: bool,
    /// CSV destination; absent means terminal output.
    pub output: Option<String>,
    /// Explicit worker thread count, when given.
    pub threads: Option<usize>,
    /// Count and show immediate children of each directory.
    pub show_inodes: bool,
    /// Which thread pool strategy drives the scan.
    pub threads_strategy: ThreadPoolStrategy,
    /// Disable the scan cache entirely.
    pub no_cache: bool,
    /// Cache time-to-live in seconds.
    pub cache_ttl: u64,
    /// Collect and report phase timings.
    pub profile: bool,
    /// Memory limit in megabytes, when given.
    pub memory_limit: Option<u64>,
    /// Interval between memory samples, in milliseconds.
    pub memory_check_interval_ms: u64,
}

/// The default cache time-to-live: seven days, in seconds.
pub const DEFAULT_CACHE_TTL: u64 = 604800;

/// The default interval between memory samples, in milliseconds.
pub const DEFAULT_MEMORY_CHECK_INTERVAL_MS: u64 = 200;

impl Default for Args {
    /// The configuration that holds when no flag is given.
    fn default() -> (r: Args)
        ensures
            r.path@ == "."@,
            r.depth is None,
            r.sort == SortKey::Name,
            r.show_files,
            r.exclude@ =~= Seq::<String>::empty(),
            !r.show_owner,
            r.output is None,
            r.threads is None,
            !r.show_inodes,
            r.threads_strategy == ThreadPoolStrategy::Default,
            !r.no_cache,
            r.cache_ttl == DEFAULT_CACHE_TTL,
            !r.profile,
            r.memory_limit is None,
            r.memory_check_interval_ms == DEFAULT_MEMORY_CHECK_INTERVAL_MS,
    {
        Args {
            path: String::from_str("."),
            depth: None,
            sort: SortKey::Name,
            show_files: true,
            exclude: Vec::new(),
            show_owner: false,
            output: None,
            threads: None,
            show_inodes: false,
            threads_strategy: ThreadPoolStrategy::Default,
            no_cache: false,
            cache_ttl: DEFAULT_CACHE_TTL,
            profile: false,
            memory_limit: None,
            memory_check_interval_ms: DEFAULT_MEMORY_CHECK_INTERVAL_MS,
        }
    }
}

/// A single record of CSV output.
#[derive(Debug, Clone)]
pub struct CsvEntry {
    pub entry_type: String,
    pub size_bytes: u64,
    pub size_human: String,
    pub owner: Option<String>,
    pub path: String,
    pub inodes: Option<u64>,
}

} // verus!
