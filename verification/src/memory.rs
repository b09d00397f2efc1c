//! The cooperative memory monitor.
//!
//! The monitor samples the process's resident set size, throttled to one
//! refresh per check interval, and judges it against a configured limit:
//! at or above the limit the scan must stop; at or above 95% of the limit
//! the scan sheds memory-hungry features. A platform that cannot report
//! the resident set never triggers either judgment.

use vstd::prelude::*;

verus! {

use crate::clock::unix_now_millis;
use crate::metrics::rss_after_phase;

/// Bytes per megabyte.
pub const BYTES_PER_MB: u64 = 1048576;

/// The warning threshold: 95 percent of the limit, rounded down.
pub open spec fn nearing_threshold(limit_bytes: u64) -> int {
    (limit_bytes * 95) / 100
}

/// Whether a sampled resident set size is at or over the limit. An absent
/// sample never exceeds: memory monitoring is bypassed where the platform
/// cannot report it.
pub open spec fn sample_exceeds(sample: Option<u64>, limit_bytes: u64) -> bool {
    match sample {
        Some(u) => u >= limit_bytes,
        None => false,
    }
}

/// Whether a sampled resident set size is at or over 95% of the limit.
pub open spec fn sample_nearing(sample: Option<u64>, limit_bytes: u64) -> bool {
    match sample {
        Some(u) => u >= nearing_threshold(limit_bytes),
        None => false,
    }
}

/// Watches the process's memory use against a limit.
#[derive(Debug)]
pub struct MemoryMonitor {
    /// The configured limit in bytes.
    pub limit_bytes: u64,
    /// Minimum time between sample refreshes, in milliseconds.
    pub check_interval_ms: u64,
    /// Clock reading at the last refresh, in milliseconds.
    pub last_check_ms: u64,
    /// The most recent resident-set sample, if any refresh has succeeded.
    pub last_sample: Option<u64>,
}

impl MemoryMonitor {
    /// A monitor for `limit_mb` megabytes with the default check interval.
    pub fn new(limit_mb: u64) -> (r: Self)
        requires
            limit_mb * BYTES_PER_MB <= u64::MAX,
        ensures
            r.limit_bytes == limit_mb * BYTES_PER_MB,
            r.check_interval_ms == 200,
            r.last_sample is None,
    {
        Self::new_with_interval(limit_mb, 200)
    }

    /// A monitor for `limit_mb` megabytes that refreshes its sample at most
    /// once per `check_interval_ms` milliseconds. The first check is never
    /// throttled.
    pub fn new_with_interval(limit_mb: u64, check_interval_ms: u64) -> (r: Self)
        requires
            limit_mb * BYTES_PER_MB <= u64::MAX,
        ensures
            r.limit_bytes == limit_mb * BYTES_PER_MB,
            r.check_interval_ms == check_interval_ms,
            r.last_sample is None,
    {
        MemoryMonitor {
            limit_bytes: limit_mb * BYTES_PER_MB,
            check_interval_ms,
            last_check_ms: 0,
            last_sample: None,
        }
    }

    /// Refresh the resident-set sample if the check interval has elapsed,
    /// else keep the cached one; returns the sample now in effect. A host
    /// that drives the scan feeds these samples to the scanner's cadence.
    pub fn get_current_memory_usage(&mut self) -> (r: Option<u64>)
        ensures
            final(self).limit_bytes == old(self).limit_bytes,
            final(self).check_interval_ms == old(self).check_interval_ms,
            r == final(self).last_sample,
    {
        let now = unix_now_millis();
        if now.saturating_sub(self.last_check_ms) < self.check_interval_ms {
            return self.last_sample;
        }
        self.last_check_ms = now;
        self.last_sample = rss_after_phase();
        self.last_sample
    }

    /// Whether memory use is at or over the limit, judged on the sample in
    /// effect after this call.
    pub fn exceeds_limit(&mut self) -> (r: bool)
        ensures
            final(self).limit_bytes == old(self).limit_bytes,
            final(self).check_interval_ms == old(self).check_interval_ms,
            r == sample_exceeds(final(self).last_sample, final(self).limit_bytes),
    {
        let sample = self.get_current_memory_usage();
        self.exceeds_limit_with_mock(sample)
    }

    /// Whether memory use is at or over 95% of the limit, judged on the
    /// sample in effect after this call.
    pub fn nearing_limit(&mut self) -> (r: bool)
        ensures
            final(self).limit_bytes == old(self).limit_bytes,
            final(self).check_interval_ms == old(self).check_interval_ms,
            r == sample_nearing(final(self).last_sample, final(self).limit_bytes),
    {
        let sample = self.get_current_memory_usage();
        self.nearing_limit_with_mock(sample)
    }

    /// The limit judgment on a caller-supplied sample.
    pub fn exceeds_limit_with_mock(&self, usage: Option<u64>) -> (r: bool)
        ensures
            r == sample_exceeds(usage, self.limit_bytes),
    {
        match usage {
            Some(u) => u >= self.limit_bytes,
            None => false,
        }
    }

    /// The warning judgment on a caller-supplied sample.
    pub fn nearing_limit_with_mock(&self, usage: Option<u64>) -> (r: bool)
        ensures
            r == sample_nearing(usage, self.limit_bytes),
    {
        match usage {
            Some(u) => {
                let threshold = ((self.limit_bytes as u128 * 95) / 100) as u64;
                assert(threshold == nearing_threshold(self.limit_bytes));
                u >= threshold
            },
            None => false,
        }
    }
}

} // verus!
