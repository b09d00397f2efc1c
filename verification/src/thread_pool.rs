//! Thread pool strategies for the scanner.
//!
//! The strategy only decides how many worker threads a host program should
//! run the scan under; building the pool itself is the host's affair. The
//! `WorkStealingUneven` strategy additionally selects the work-stealing scan
//! driver instead of the default pipeline.

use vstd::prelude::*;

verus! {

/// Thread pool configuration strategies.
#[derive(Debug, Clone, Copy, PartialEq, Eq, Structural)]
pub enum ThreadPoolStrategy {
    /// The process-global worker pool with its default size.
    Default,
    /// A fixed number of threads, given explicitly.
    Fixed,
    /// One less than the number of CPUs, leaving room for the OS.
    NumCpusMinus1,
    /// Twice the number of CPUs, oversubscribing for blocking I/O.
    IOHeavy,
    /// Work-stealing driver for uneven directory trees.
    WorkStealingUneven,
}

impl ThreadPoolStrategy {
    /// String form of the strategy for display purposes.
    pub fn as_str(&self) -> (r: &'static str)
        ensures
            *self == ThreadPoolStrategy::Default ==> r@ == "Default"@,
            *self == ThreadPoolStrategy::Fixed ==> r@ == "Fixed"@,
            *self == ThreadPoolStrategy::NumCpusMinus1 ==> r@ == "NumCpusMinus1"@,
            *self == ThreadPoolStrategy::IOHeavy ==> r@ == "IOHeavy"@,
            *self == ThreadPoolStrategy::WorkStealingUneven ==> r@ == "WorkStealingUneven"@,
    {
        match self {
            ThreadPoolStrategy::Default => "Default",
            ThreadPoolStrategy::Fixed => "Fixed",
            ThreadPoolStrategy::NumCpusMinus1 => "NumCpusMinus1",
            ThreadPoolStrategy::IOHeavy => "IOHeavy",
            ThreadPoolStrategy::WorkStealingUneven => "WorkStealingUneven",
        }
    }
}

/// How many worker threads a strategy asks for, given the machine's CPU
/// count and the explicitly requested thread count.
///
/// Returns `None` only for the `Fixed` strategy with a requested count of
/// zero, which is a configuration error.
pub fn strategy_thread_count(strategy: ThreadPoolStrategy, n_threads: usize, cpus: usize) -> (r:
    Option<usize>)
    requires
        cpus <= usize::MAX / 2,
    ensures
        strategy == ThreadPoolStrategy::Default ==> r == Some(cpus),
        strategy == ThreadPoolStrategy::Fixed ==> (if n_threads == 0 {
            r is None
        } else {
            r == Some(n_threads)
        }),
        strategy == ThreadPoolStrategy::NumCpusMinus1 ==> r == Some(
            if cpus <= 1 {
                1usize
            } else {
                (cpus - 1) as usize
            },
        ),
        strategy == ThreadPoolStrategy::IOHeavy ==> r == Some((cpus * 2) as usize),
        strategy == ThreadPoolStrategy::WorkStealingUneven ==> r == Some(cpus),
{
    match strategy {
        ThreadPoolStrategy::Default => Some(cpus),
        ThreadPoolStrategy::Fixed => {
            if n_threads == 0 {
                None
            } else {
                Some(n_threads)
            }
        },
        ThreadPoolStrategy::NumCpusMinus1 => {
            if cpus <= 1 {
                Some(1)
            } else {
                Some(cpus - 1)
            }
        },
        ThreadPoolStrategy::IOHeavy => Some(cpus * 2),
        ThreadPoolStrategy::WorkStealingUneven => Some(cpus),
    }
}

} // verus!
