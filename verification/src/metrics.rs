//! Phase timing and profiling data for a scan.

use vstd::prelude::*;

verus! {

use crate::clock::unix_now_millis;
use vstd::string::StringExecFns;

/// A running timer for one named phase.
#[derive(Debug)]
pub struct PhaseTimer {
    /// Name of the phase being timed.
    pub name: String,
    /// Clock reading at the start, in milliseconds.
    pub start: u64,
}

/// The recorded duration of one finished phase.
#[derive(Debug)]
pub struct PhaseResult {
    /// Name of the phase.
    pub name: String,
    /// How long it took, in milliseconds.
    pub duration_ms: u64,
}

impl Clone for PhaseResult {
    fn clone(&self) -> (r: Self)
        ensures
            r == *self,
    {
        PhaseResult { name: self.name.clone(), duration_ms: self.duration_ms }
    }
}

impl PhaseTimer {
    /// Start timing a phase with the given name.
    pub fn new(name: &str) -> (r: Self)
        ensures
            r.name@ == name@,
    {
        PhaseTimer { name: name.to_owned(), start: unix_now_millis() }
    }

    /// Stop the timer and record the elapsed time under the phase's name.
    pub fn finish(self) -> (r: PhaseResult)
        ensures
            r.name == self.name,
    {
        let duration_ms = self.elapsed();
        PhaseResult { name: self.name, duration_ms }
    }

    /// Milliseconds elapsed since the timer started; zero if the clock
    /// stepped backwards.
    pub fn elapsed(&self) -> u64 {
        unix_now_millis().saturating_sub(self.start)
    }
}

/// Sum of the recorded phase durations, as an unbounded integer.
pub open spec fn sum_durations(s: Seq<PhaseResult>) -> int
    decreases s.len(),
{
    if s.len() == 0 {
        0
    } else {
        sum_durations(s.drop_last()) + s.last().duration_ms
    }
}

/// Profiling data for one whole scan: per-phase timings, peak memory,
/// cache statistics and free-form metadata.
#[derive(Debug)]
pub struct ProfileData {
    /// Timing of each finished phase, in order.
    pub phases: Vec<PhaseResult>,
    /// Peak resident set size in bytes, when it could be read.
    pub memory_peak: Option<u64>,
    /// Number of cache hits.
    pub cache_hits: u64,
    /// Total number of cache lookups.
    pub cache_total: u64,
    /// Additional key/value notes about the scan, in insertion order;
    /// a later value for the same key supersedes the earlier one.
    pub metadata: Vec<(String, String)>,
}

impl ProfileData {
    /// An empty profile.
    pub fn new() -> (r: Self)
        ensures
            r.phases@.len() == 0,
            r.memory_peak is None,
            r.cache_hits == 0,
            r.cache_total == 0,
            r.metadata@.len() == 0,
    {
        ProfileData {
            phases: Vec::new(),
            memory_peak: None,
            cache_hits: 0,
            cache_total: 0,
            metadata: Vec::new(),
        }
    }

    /// Record one finished phase.
    pub fn add_phase(&mut self, phase: PhaseResult)
        ensures
            final(self).phases@ == old(self).phases@.push(phase),
            final(self).memory_peak == old(self).memory_peak,
            final(self).cache_hits == old(self).cache_hits,
            final(self).cache_total == old(self).cache_total,
            final(self).metadata == old(self).metadata,
    {
        self.phases.push(phase);
    }

    /// Record the cache statistics of the scan.
    pub fn set_cache_stats(&mut self, hits: u64, total: u64)
        ensures
            final(self).cache_hits == hits,
            final(self).cache_total == total,
            final(self).phases == old(self).phases,
            final(self).memory_peak == old(self).memory_peak,
            final(self).metadata == old(self).metadata,
    {
        self.cache_hits = hits;
        self.cache_total = total;
    }

    /// Record one metadata note.
    pub fn add_metadata(&mut self, key: &str, value: &str)
        ensures
            final(self).metadata@.len() == old(self).metadata@.len() + 1,
            final(self).metadata@.last().0@ == key@,
            final(self).metadata@.last().1@ == value@,
            final(self).metadata@.take(old(self).metadata@.len() as int) == old(self).metadata@,
            final(self).phases == old(self).phases,
            final(self).memory_peak == old(self).memory_peak,
            final(self).cache_hits == old(self).cache_hits,
            final(self).cache_total == old(self).cache_total,
    {
        self.metadata.push((key.to_owned(), value.to_owned()));
        proof {
            assert(self.metadata@.take(self.metadata@.len() - 1) =~= old(self).metadata@);
        }
    }

    /// Total of all phase durations in milliseconds, saturating at the
    /// largest representable value.
    pub fn total_duration(&self) -> (r: u64)
        ensures
            r == if sum_durations(self.phases@) <= u64::MAX {
                sum_durations(self.phases@)
            } else {
                u64::MAX as int
            },
    {
        let n = self.phases.len();
        let mut acc: u64 = 0;
        let mut i: usize = 0;
        proof {
            assert(self.phases@.take(0) =~= Seq::<PhaseResult>::empty());
        }
        while i < n
            invariant
                i <= n,
                n == self.phases@.len(),
                acc == if sum_durations(self.phases@.take(i as int)) <= u64::MAX {
                    sum_durations(self.phases@.take(i as int))
                } else {
                    u64::MAX as int
                },
            decreases n - i,
        {
            proof {
                let cur = self.phases@.take(i + 1);
                assert(cur.drop_last() =~= self.phases@.take(i as int));
                assert(cur.last() == self.phases@[i as int]);
            }
            acc = acc.saturating_add(self.phases[i].duration_ms);
            i += 1;
        }
        proof {
            assert(self.phases@.take(n as int) =~= self.phases@);
        }
        acc
    }
}

impl Default for ProfileData {
    /// Same as an empty profile.
    fn default() -> (r: Self)
        ensures
            r.phases@.len() == 0,
            r.memory_peak is None,
            r.cache_hits == 0,
            r.cache_total == 0,
            r.metadata@.len() == 0,
    {
        ProfileData::new()
    }
}

/// Relies on the sysinfo crate: reads the current process's resident set
/// size in bytes. The value depends on the machine at the moment of the
/// call, so nothing is promised of it; absence means the platform could
/// not report it.
#[verifier::external_body]
pub fn rss_after_phase() -> Option<u64> {
    let mut system = sysinfo::System::new_all();
    system.refresh_processes(sysinfo::ProcessesToUpdate::All, true);
    match sysinfo::get_current_pid() {
        Ok(pid) => match system.process(pid) {
            Some(p) => Some(p.memory()),
            None => None,
        },
        Err(_) => None,
    }
}

} // verus!
