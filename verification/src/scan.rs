//! The scanner core.
//!
//! The scanner consumes a snapshot of walked filesystem entries - each a
//! path with its observed kind, allocated size and directory metadata -
//! together with the previous scan's cache, and computes the scan result:
//! which entries are excluded, which directories are served from cache,
//! the aggregated directory sizes and child counts, the entries restored
//! from the cache for pruned subtrees, the new cache to persist, and the
//! sorted output list. Reading the filesystem itself is the host's affair;
//! everything the scanner decides is a function of the snapshot.

use vstd::prelude::*;

verus! {

use crate::cache::CacheEntry;
use crate::data::{EntryType, FileEntry};
use crate::globs::{glob_match, glob_set_is_match, globset_patterns};
use crate::metrics::PhaseResult;
use crate::paths::{has_component, has_component_exec, strictly_under, strictly_under_exec};

/// How the memory monitor left a scan.
#[derive(Debug, Clone, Copy, PartialEq, Eq, Structural)]
pub enum MemoryLimitStatus {
    /// The scan ran to completion without memory pressure.
    Normal,
    /// The scan completed but shed features on the way.
    NearingLimit,
    /// The scan was cut short by the memory limit.
    MemoryLimitHit,
}

/// What a scan returns: the sorted entries and the bookkeeping around them.
#[derive(Debug)]
pub struct ScanResult {
    /// The surviving entries, sorted by the requested key.
    pub entries: Vec<FileEntry>,
    /// Number of directories served from the cache.
    pub cache_hits: u64,
    /// Number of cache lookups: hits plus misses.
    pub cache_total: u64,
    /// Whether the memory limit cut the scan short.
    pub memory_limit_hit: bool,
    /// Timings of the scan phases, as the host recorded them.
    pub phase_timings: Vec<PhaseResult>,
    /// How the memory monitor left the scan.
    pub memory_status: MemoryLimitStatus,
}

impl Default for ScanResult {
    /// An empty result with clean statistics.
    fn default() -> (r: Self)
        ensures
            r.entries@.len() == 0,
            r.cache_hits == 0,
            r.cache_total == 0,
            !r.memory_limit_hit,
            r.phase_timings@.len() == 0,
            r.memory_status == MemoryLimitStatus::Normal,
    {
        ScanResult {
            entries: Vec::new(),
            cache_hits: 0,
            cache_total: 0,
            memory_limit_hit: false,
            phase_timings: Vec::new(),
            memory_status: MemoryLimitStatus::Normal,
        }
    }
}

/// One filesystem object as the walk observed it: its path, kind,
/// allocated size (files; directories carry 0) and directory metadata.
#[derive(Debug)]
pub struct SnapshotEntry {
    /// Full path of the object.
    pub path: String,
    /// Whether it is a file or a directory.
    pub entry_type: EntryType,
    /// Allocated size in bytes, for files.
    pub size: u64,
    /// Modification time, Unix seconds.
    pub mtime: u64,
    /// Hard-link count.
    pub nlink: u64,
    /// Owning user id, when known.
    pub owner_id: Option<u32>,
    /// Owner name as the host resolved it, when it did.
    pub owner_name: Option<String>,
}

impl Clone for SnapshotEntry {
    fn clone(&self) -> (r: Self)
        ensures
            r == *self,
    {
        SnapshotEntry {
            path: self.path.clone(),
            entry_type: self.entry_type,
            size: self.size,
            mtime: self.mtime,
            nlink: self.nlink,
            owner_id: self.owner_id,
            owner_name: match &self.owner_name {
                Some(o) => Some(o.clone()),
                None => None,
            },
        }
    }
}

// ------------------------------------------------------------------
// Per-entry judgments
// ------------------------------------------------------------------
/// Whether the exclude rules reject this path: the glob set matches it, or
/// some path component equals one of the raw user-supplied names.
pub open spec fn excluded_path(
    pats: Seq<Seq<char>>,
    names: Seq<Seq<char>>,
    path: Seq<char>,
) -> bool {
    glob_match(pats, path) || exists|k: int|
        0 <= k < names.len() && has_component(path, #[trigger] names[k])
}

/// First snapshot entry with the given path.
pub open spec fn find_snap(snap: Seq<SnapshotEntry>, path: Seq<char>) -> Option<SnapshotEntry>
    decreases snap.len(),
{
    if snap.len() == 0 {
        None
    } else if snap[0].path@ == path {
        Some(snap[0])
    } else {
        find_snap(snap.skip(1), path)
    }
}

/// First cache entry with the given path.
pub open spec fn find_cache_by_path(cache: Seq<CacheEntry>, path: Seq<char>) -> Option<CacheEntry>
    decreases cache.len(),
{
    if cache.len() == 0 {
        None
    } else if cache[0].path@ == path {
        Some(cache[0])
    } else {
        find_cache_by_path(cache.skip(1), path)
    }
}

/// Whether the cache serves the directory at `path`: caching is on, the
/// path is a directory of the snapshot other than the root, and its cached
/// entry is itself a directory entry - only those drive skip decisions -
/// and valid (same mtime and hard-link count). The root itself always
/// anchors the walk and is never pruned.
pub open spec fn cache_hit_at(
    snap: Seq<SnapshotEntry>,
    cache: Seq<CacheEntry>,
    root: Seq<char>,
    no_cache: bool,
    path: Seq<char>,
) -> bool {
    &&& !no_cache
    &&& path != root
    &&& match find_snap(snap, path) {
        Some(e) => e.entry_type == EntryType::Dir && match find_cache_by_path(cache, path) {
            Some(c) => c.entry_type == EntryType::Dir && c.mtime == e.mtime && c.nlink == e.nlink,
            None => false,
        },
        None => false,
    }
}

/// Whether some proper ancestor of `path`, at or inside the root, is
/// excluded or served from cache - in either case the walk never reaches
/// `path`.
pub open spec fn pruned_under(
    snap: Seq<SnapshotEntry>,
    cache: Seq<CacheEntry>,
    root: Seq<char>,
    pats: Seq<Seq<char>>,
    names: Seq<Seq<char>>,
    no_cache: bool,
    path: Seq<char>,
) -> bool {
    exists|i: int|
        0 <= i < path.len() && #[trigger] path[i] == '/' && {
            let p = path.take(i);
            &&& (p == root || strictly_under(root, p))
            &&& (excluded_path(pats, names, p) || cache_hit_at(snap, cache, root, no_cache, p))
        }
}

/// Whether the walk reaches this path at all: it is not itself excluded
/// and no ancestor prunes it.
pub open spec fn visible(
    snap: Seq<SnapshotEntry>,
    cache: Seq<CacheEntry>,
    root: Seq<char>,
    pats: Seq<Seq<char>>,
    names: Seq<Seq<char>>,
    no_cache: bool,
    path: Seq<char>,
) -> bool {
    !excluded_path(pats, names, path) && !pruned_under(snap, cache, root, pats, names, no_cache, path)
}

/// Whether the exclude rules reject `path`.
pub fn is_excluded(matcher: &globset::GlobSet, names: &Vec<String>, path: &String) -> (r: bool)
    ensures
        r == excluded_path(globset_patterns(*matcher), names.deep_view(), path@),
{
    if glob_set_is_match(matcher, path) {
        return true;
    }
    let n = names.len();
    let mut k: usize = 0;
    while k < n
        invariant
            k <= n,
            n == names@.len(),
            forall|j: int| 0 <= j < k ==> !has_component(path@, #[trigger] names.deep_view()[j]),
        decreases n - k,
    {
        if has_component_exec(path.as_str(), names[k].as_str()) {
            assert(has_component(path@, names.deep_view()[k as int]));
            return true;
        }
        k += 1;
    }
    false
}

/// Index of the first snapshot entry with the given path.
fn find_snap_exec(snap: &Vec<SnapshotEntry>, path: &String) -> (r: Option<usize>)
    ensures
        match find_snap(snap@, path@) {
            Some(e) => r matches Some(i) && i < snap@.len() && snap@[i as int] == e,
            None => r is None,
        },
{
    let n = snap.len();
    let mut i: usize = 0;
    proof {
        assert(snap@.skip(0) =~= snap@);
    }
    while i < n
        invariant
            i <= n,
            n == snap@.len(),
            find_snap(snap@, path@) == find_snap(snap@.skip(i as int), path@),
        decreases n - i,
    {
        proof {
            assert(snap@.skip(i as int)[0] == snap@[i as int]);
            assert(snap@.skip(i as int).skip(1) =~= snap@.skip(i + 1));
        }
        if crate::paths::str_equals(snap[i].path.as_str(), path.as_str()) {
            assert(snap@[i as int].path@ == path@);
            return Some(i);
        }
        i += 1;
    }
    proof {
        assert(snap@.skip(n as int).len() == 0);
    }
    None
}

/// Index of the first cache entry with the given path.
fn find_cache_exec(cache: &Vec<CacheEntry>, path: &String) -> (r: Option<usize>)
    ensures
        match find_cache_by_path(cache@, path@) {
            Some(c) => r matches Some(i) && i < cache@.len() && cache@[i as int] == c,
            None => r is None,
        },
{
    let n = cache.len();
    let mut i: usize = 0;
    proof {
        assert(cache@.skip(0) =~= cache@);
    }
    while i < n
        invariant
            i <= n,
            n == cache@.len(),
            find_cache_by_path(cache@, path@) == find_cache_by_path(cache@.skip(i as int), path@),
        decreases n - i,
    {
        proof {
            assert(cache@.skip(i as int)[0] == cache@[i as int]);
            assert(cache@.skip(i as int).skip(1) =~= cache@.skip(i + 1));
        }
        if crate::paths::str_equals(cache[i].path.as_str(), path.as_str()) {
            assert(cache@[i as int].path@ == path@);
            return Some(i);
        }
        i += 1;
    }
    proof {
        assert(cache@.skip(n as int).len() == 0);
    }
    None
}

/// Whether the cache serves the directory at `path`.
fn is_cache_hit(
    snap: &Vec<SnapshotEntry>,
    cache: &Vec<CacheEntry>,
    root: &String,
    no_cache: bool,
    path: &String,
) -> (r: bool)
    ensures
        r == cache_hit_at(snap@, cache@, root@, no_cache, path@),
{
    if no_cache {
        return false;
    }
    if crate::paths::str_equals(path.as_str(), root.as_str()) {
        return false;
    }
    assert(path@ != root@);
    let si = match find_snap_exec(snap, path) {
        Some(i) => i,
        None => {
            return false;
        },
    };
    if !matches!(snap[si].entry_type, EntryType::Dir) {
        assert(find_snap(snap@, path@).unwrap().entry_type != EntryType::Dir);
        return false;
    }
    let ci = match find_cache_exec(cache, path) {
        Some(i) => i,
        None => {
            return false;
        },
    };
    matches!(cache[ci].entry_type, EntryType::Dir) && cache[ci].mtime == snap[si].mtime
        && cache[ci].nlink == snap[si].nlink
}

} // verus!

verus! {

use crate::memory::{sample_exceeds, sample_nearing};
use crate::paths::str_equals;
use vstd::string::StrSliceExecFns;
use vstd::string::StringExecFns;

/// Whether some ancestor prunes `path`.
fn is_pruned_under(
    snap: &Vec<SnapshotEntry>,
    cache: &Vec<CacheEntry>,
    root: &String,
    matcher: &globset::GlobSet,
    names: &Vec<String>,
    no_cache: bool,
    path: &String,
) -> (r: bool)
    ensures
        r == pruned_under(
            snap@,
            cache@,
            root@,
            globset_patterns(*matcher),
            names.deep_view(),
            no_cache,
            path@,
        ),
{
    let n = path.as_str().unicode_len();
    let mut i: usize = 0;
    while i < n
        invariant
            i <= n,
            n == path@.len(),
            forall|j: int|
                0 <= j < i && #[trigger] path@[j] == '/' ==> {
                    let p = path@.take(j);
                    !((p == root@ || strictly_under(root@, p)) && (excluded_path(
                        globset_patterns(*matcher),
                        names.deep_view(),
                        p,
                    ) || cache_hit_at(snap@, cache@, root@, no_cache, p)))
                },
        decreases n - i,
    {
        if path.as_str().get_char(i) == '/' {
            let p = path.as_str().substring_char(0, i).to_owned();
            proof {
                assert(p@ =~= path@.take(i as int));
            }
            let in_root = str_equals(p.as_str(), root.as_str()) || strictly_under_exec(
                root.as_str(),
                p.as_str(),
            );
            if in_root {
                if is_excluded(matcher, names, &p) || is_cache_hit(snap, cache, root, no_cache, &p) {
                    return true;
                }
            }
        }
        i += 1;
    }
    false
}

/// Whether the walk reaches `path`.
fn is_visible(
    snap: &Vec<SnapshotEntry>,
    cache: &Vec<CacheEntry>,
    root: &String,
    matcher: &globset::GlobSet,
    names: &Vec<String>,
    no_cache: bool,
    path: &String,
) -> (r: bool)
    ensures
        r == visible(
            snap@,
            cache@,
            root@,
            globset_patterns(*matcher),
            names.deep_view(),
            no_cache,
            path@,
        ),
{
    if is_excluded(matcher, names, path) {
        return false;
    }
    !is_pruned_under(snap, cache, root, matcher, names, no_cache, path)
}

// ------------------------------------------------------------------
// The walk: one pass over the snapshot in order, pruning, counting
// hits and misses, and consulting the memory monitor every `k`-th
// surviving entry.
// ------------------------------------------------------------------
/// Ghost state of the walk after some prefix of the snapshot.
pub struct WalkModel {
    /// Entries the walk visits and keeps for aggregation.
    pub walked: Seq<SnapshotEntry>,
    /// Cache entries of the directories served from cache, in walk order.
    pub hit_entries: Seq<CacheEntry>,
    /// Number of cache hits.
    pub hits: int,
    /// Number of cache misses.
    pub misses: int,
    /// Number of surviving entries seen, for the check cadence.
    pub counter: int,
    /// Number of memory samples consumed.
    pub samples_used: int,
    /// Whether some sample reached the warning threshold.
    pub nearing: bool,
    /// Whether some sample reached the limit and cut the walk short.
    pub exceeded: bool,
}

pub open spec fn walk_init() -> WalkModel {
    WalkModel {
        walked: Seq::empty(),
        hit_entries: Seq::empty(),
        hits: 0,
        misses: 0,
        counter: 0,
        samples_used: 0,
        nearing: false,
        exceeded: false,
    }
}

/// The memory sample a check consumes: the next unused one, or nothing
/// once the supply is exhausted.
pub open spec fn next_sample(samples: Seq<Option<u64>>, used: int) -> Option<u64> {
    if 0 <= used < samples.len() {
        samples[used]
    } else {
        None
    }
}

/// One walk step: how the state changes on the next snapshot entry.
pub open spec fn walk_step(
    m: WalkModel,
    snap: Seq<SnapshotEntry>,
    cache: Seq<CacheEntry>,
    root: Seq<char>,
    pats: Seq<Seq<char>>,
    names: Seq<Seq<char>>,
    no_cache: bool,
    e: SnapshotEntry,
    k: int,
    samples: Seq<Option<u64>>,
    limit: Option<u64>,
) -> WalkModel {
    if m.exceeded {
        m
    } else if !visible(snap, cache, root, pats, names, no_cache, e.path@) {
        m
    } else if cache_hit_at(snap, cache, root, no_cache, e.path@) {
        WalkModel {
            hit_entries: m.hit_entries.push(find_cache_by_path(cache, e.path@).unwrap()),
            hits: m.hits + 1,
            ..m
        }
    } else {
        let misses = if e.entry_type == EntryType::Dir && !no_cache {
            m.misses + 1
        } else {
            m.misses
        };
        let counter = m.counter + 1;
        if limit is Some && counter % k == 0 {
            let sample = next_sample(samples, m.samples_used);
            if sample_exceeds(sample, limit.unwrap()) {
                WalkModel {
                    misses,
                    counter,
                    samples_used: m.samples_used + 1,
                    exceeded: true,
                    ..m
                }
            } else {
                WalkModel {
                    walked: m.walked.push(e),
                    misses,
                    counter,
                    samples_used: m.samples_used + 1,
                    nearing: m.nearing || sample_nearing(sample, limit.unwrap()),
                    ..m
                }
            }
        } else {
            WalkModel { walked: m.walked.push(e), misses, counter, ..m }
        }
    }
}

/// The walk state after the first `n` snapshot entries.
pub open spec fn walk_upto(
    snap: Seq<SnapshotEntry>,
    cache: Seq<CacheEntry>,
    root: Seq<char>,
    pats: Seq<Seq<char>>,
    names: Seq<Seq<char>>,
    no_cache: bool,
    k: int,
    samples: Seq<Option<u64>>,
    limit: Option<u64>,
    n: int,
) -> WalkModel
    decreases n,
{
    if n <= 0 {
        walk_init()
    } else {
        walk_step(
            walk_upto(snap, cache, root, pats, names, no_cache, k, samples, limit, n - 1),
            snap,
            cache,
            root,
            pats,
            names,
            no_cache,
            snap[n - 1],
            k,
            samples,
            limit,
        )
    }
}

/// What the walk hands to aggregation.
pub struct WalkOutcome {
    /// Entries the walk visited and kept.
    pub walked: Vec<SnapshotEntry>,
    /// Cache entries of the directories served from cache, in walk order.
    pub hit_entries: Vec<CacheEntry>,
    /// Number of cache hits.
    pub hits: u64,
    /// Number of cache misses.
    pub misses: u64,
    /// Whether memory neared the limit during the walk.
    pub nearing: bool,
    /// Whether memory exceeded the limit and cut the walk short.
    pub exceeded: bool,
}

/// The walk itself, in snapshot order.
#[verifier::loop_isolation(false)]
fn walk_snapshot(
    snap: &Vec<SnapshotEntry>,
    cache: &Vec<CacheEntry>,
    root: &String,
    matcher: &globset::GlobSet,
    names: &Vec<String>,
    no_cache: bool,
    k: u64,
    samples: &Vec<Option<u64>>,
    limit: Option<u64>,
) -> (r: WalkOutcome)
    requires
        k > 0,
        snap@.len() <= u64::MAX,
    ensures
        ({
            let m = walk_upto(
                snap@,
                cache@,
                root@,
                globset_patterns(*matcher),
                names.deep_view(),
                no_cache,
                k as int,
                samples@,
                limit,
                snap@.len() as int,
            );
            &&& r.walked@ == m.walked
            &&& r.hit_entries@ == m.hit_entries
            &&& r.hits == m.hits
            &&& r.misses == m.misses
            &&& r.nearing == m.nearing
            &&& r.exceeded == m.exceeded
            &&& m.hits + m.misses <= snap@.len()
        }),
{
    let ghost pats = globset_patterns(*matcher);
    let ghost names_v = names.deep_view();
    let mut walked: Vec<SnapshotEntry> = Vec::new();
    let mut hit_entries: Vec<CacheEntry> = Vec::new();
    let mut hits: u64 = 0;
    let mut misses: u64 = 0;
    let mut counter: u64 = 0;
    let mut samples_used: usize = 0;
    let mut nearing = false;
    let mut exceeded = false;
    let n = snap.len();
    let mut i: usize = 0;
    while i < n
        invariant
            i <= n,
            ({
                let m = walk_upto(
                    snap@,
                    cache@,
                    root@,
                    pats,
                    names_v,
                    no_cache,
                    k as int,
                    samples@,
                    limit,
                    i as int,
                );
                &&& walked@ == m.walked
                &&& hit_entries@ == m.hit_entries
                &&& hits == m.hits
                &&& misses == m.misses
                &&& counter == m.counter
                &&& samples_used == m.samples_used
                &&& nearing == m.nearing
                &&& exceeded == m.exceeded
                &&& m.hits <= i
                &&& m.misses <= i
                &&& m.hits + m.misses <= i
                &&& m.counter <= i
                &&& m.samples_used <= i
            }),
        decreases n - i,
    {
        let ghost m_pre = walk_upto(
            snap@,
            cache@,
            root@,
            pats,
            names_v,
            no_cache,
            k as int,
            samples@,
            limit,
            i as int,
        );
        if !exceeded {
            let e = &snap[i];
            if is_visible(snap, cache, root, matcher, names, no_cache, &e.path) {
                if is_cache_hit(snap, cache, root, no_cache, &e.path) {
                    let ci = match find_cache_exec(cache, &e.path) {
                        Some(ci) => ci,
                        None => {
                            proof {
                                assert(false);
                            }
                            0
                        },
                    };
                    hit_entries.push(cache[ci].clone());
                    hits = hits + 1;
                } else {
                    if matches!(e.entry_type, EntryType::Dir) && !no_cache {
                        misses = misses + 1;
                    }
                    counter = counter + 1;
                    let checking = match limit {
                        Some(_) => counter % k == 0,
                        None => false,
                    };
                    if checking {
                        let sample: Option<u64> = if samples_used < samples.len() {
                            samples[samples_used]
                        } else {
                            None
                        };
                        samples_used = samples_used + 1;
                        let lim = match limit {
                            Some(l) => l,
                            None => {
                                proof {
                                    assert(false);
                                }
                                0
                            },
                        };
                        let is_exceeds = match sample {
                            Some(u) => u >= lim,
                            None => false,
                        };
                        if is_exceeds {
                            exceeded = true;
                        } else {
                            let is_nearing = match sample {
                                Some(u) => u >= (((lim as u128) * 95 / 100) as u64),
                                None => false,
                            };
                            proof {
                                assert(is_nearing == sample_nearing(sample, lim));
                            }
                            nearing = nearing || is_nearing;
                            walked.push(e.clone());
                        }
                    } else {
                        walked.push(e.clone());
                    }
                }
            }
        }
        i += 1;
    }
    WalkOutcome { walked, hit_entries, hits, misses, nearing, exceeded }
}

} // verus!

verus! {

use crate::hash::path_hash_spec;
use crate::paths::{immediate_child_exec, immediate_child_of, rel_depth};
use crate::utils::path_depth;

/// A value clamped to what a 64-bit counter can hold.
pub open spec fn sat64(x: int) -> int {
    if x > u64::MAX {
        u64::MAX as int
    } else {
        x
    }
}

/// Sum of the sizes of the walked files strictly under `dir`.
pub open spec fn files_sum_under(w: Seq<SnapshotEntry>, dir: Seq<char>) -> int
    decreases w.len(),
{
    if w.len() == 0 {
        0
    } else {
        files_sum_under(w.drop_last(), dir) + if w.last().entry_type == EntryType::File
            && strictly_under(dir, w.last().path@) {
            w.last().size as int
        } else {
            0
        }
    }
}

/// Sum of the cached sizes of the hit directories strictly under `dir`.
pub open spec fn hits_sum_under(h: Seq<CacheEntry>, dir: Seq<char>) -> int
    decreases h.len(),
{
    if h.len() == 0 {
        0
    } else {
        hits_sum_under(h.drop_last(), dir) + if strictly_under(dir, h.last().path@) {
            h.last().size as int
        } else {
            0
        }
    }
}

/// The aggregated size of directory `dir`: every walked file strictly under
/// it plus every cache-served subtree strictly under it.
pub open spec fn dir_total(w: Seq<SnapshotEntry>, h: Seq<CacheEntry>, dir: Seq<char>) -> int {
    files_sum_under(w, dir) + hits_sum_under(h, dir)
}

/// Number of walked entries that are immediate children of `dir`.
pub open spec fn walked_children(w: Seq<SnapshotEntry>, dir: Seq<char>) -> int
    decreases w.len(),
{
    if w.len() == 0 {
        0
    } else {
        walked_children(w.drop_last(), dir) + if immediate_child_of(dir, w.last().path@) {
            1int
        } else {
            0
        }
    }
}

/// Number of cache-served directories that are immediate children of `dir`.
pub open spec fn hit_children(h: Seq<CacheEntry>, dir: Seq<char>) -> int
    decreases h.len(),
{
    if h.len() == 0 {
        0
    } else {
        hit_children(h.drop_last(), dir) + if immediate_child_of(dir, h.last().path@) {
            1int
        } else {
            0
        }
    }
}

/// Number of immediate children of `dir` the scan observed: walked entries
/// plus cache-served directories.
pub open spec fn child_count(w: Seq<SnapshotEntry>, h: Seq<CacheEntry>, dir: Seq<char>) -> int {
    walked_children(w, dir) + hit_children(h, dir)
}

proof fn lemma_files_sum_nonneg(w: Seq<SnapshotEntry>, dir: Seq<char>)
    ensures
        files_sum_under(w, dir) >= 0,
    decreases w.len(),
{
    if w.len() > 0 {
        lemma_files_sum_nonneg(w.drop_last(), dir);
    }
}

proof fn lemma_hits_sum_nonneg(h: Seq<CacheEntry>, dir: Seq<char>)
    ensures
        hits_sum_under(h, dir) >= 0,
    decreases h.len(),
{
    if h.len() > 0 {
        lemma_hits_sum_nonneg(h.drop_last(), dir);
    }
}

proof fn lemma_walked_children_nonneg(w: Seq<SnapshotEntry>, dir: Seq<char>)
    ensures
        walked_children(w, dir) >= 0,
    decreases w.len(),
{
    if w.len() > 0 {
        lemma_walked_children_nonneg(w.drop_last(), dir);
    }
}

proof fn lemma_hit_children_nonneg(h: Seq<CacheEntry>, dir: Seq<char>)
    ensures
        hit_children(h, dir) >= 0,
    decreases h.len(),
{
    if h.len() > 0 {
        lemma_hit_children_nonneg(h.drop_last(), dir);
    }
}

/// The aggregated size of directory `dir`, clamped to 64 bits.
#[verifier::loop_isolation(false)]
fn dir_total_exec(w: &Vec<SnapshotEntry>, h: &Vec<CacheEntry>, dir: &String) -> (r: u64)
    ensures
        r == sat64(dir_total(w@, h@, dir@)),
{
    let mut acc: u64 = 0;
    let n = w.len();
    let mut i: usize = 0;
    proof {
        assert(w@.take(0) =~= Seq::<SnapshotEntry>::empty());
    }
    while i < n
        invariant
            i <= n,
            acc == sat64(files_sum_under(w@.take(i as int), dir@)),
        decreases n - i,
    {
        proof {
            lemma_files_sum_nonneg(w@.take(i as int), dir@);
            let cur = w@.take(i + 1);
            assert(cur.drop_last() =~= w@.take(i as int));
            assert(cur.last() == w@[i as int]);
        }
        let qualifies = matches!(w[i].entry_type, EntryType::File) && strictly_under_exec(
            dir.as_str(),
            w[i].path.as_str(),
        );
        if qualifies {
            acc = acc.saturating_add(w[i].size);
        }
        i += 1;
    }
    proof {
        assert(w@.take(n as int) =~= w@);
    }
    let m = h.len();
    let mut j: usize = 0;
    proof {
        assert(h@.take(0) =~= Seq::<CacheEntry>::empty());
        lemma_files_sum_nonneg(w@, dir@);
    }
    while j < m
        invariant
            j <= m,
            acc == sat64(files_sum_under(w@, dir@) + hits_sum_under(h@.take(j as int), dir@)),
        decreases m - j,
    {
        proof {
            lemma_files_sum_nonneg(w@, dir@);
            lemma_hits_sum_nonneg(h@.take(j as int), dir@);
            let cur = h@.take(j + 1);
            assert(cur.drop_last() =~= h@.take(j as int));
            assert(cur.last() == h@[j as int]);
        }
        if strictly_under_exec(dir.as_str(), h[j].path.as_str()) {
            acc = acc.saturating_add(h[j].size);
        }
        j += 1;
    }
    proof {
        assert(h@.take(m as int) =~= h@);
    }
    acc
}

/// The observed immediate-child count of directory `dir`, clamped to 64
/// bits.
#[verifier::loop_isolation(false)]
fn child_count_exec(w: &Vec<SnapshotEntry>, h: &Vec<CacheEntry>, dir: &String) -> (r: u64)
    ensures
        r == sat64(child_count(w@, h@, dir@)),
{
    let mut acc: u64 = 0;
    let n = w.len();
    let mut i: usize = 0;
    proof {
        assert(w@.take(0) =~= Seq::<SnapshotEntry>::empty());
    }
    while i < n
        invariant
            i <= n,
            acc == sat64(walked_children(w@.take(i as int), dir@)),
        decreases n - i,
    {
        proof {
            lemma_walked_children_nonneg(w@.take(i as int), dir@);
            let cur = w@.take(i + 1);
            assert(cur.drop_last() =~= w@.take(i as int));
            assert(cur.last() == w@[i as int]);
        }
        if immediate_child_exec(dir.as_str(), w[i].path.as_str()) {
            acc = acc.saturating_add(1);
        }
        i += 1;
    }
    proof {
        assert(w@.take(n as int) =~= w@);
    }
    let m = h.len();
    let mut j: usize = 0;
    proof {
        assert(h@.take(0) =~= Seq::<CacheEntry>::empty());
        lemma_walked_children_nonneg(w@, dir@);
    }
    while j < m
        invariant
            j <= m,
            acc == sat64(walked_children(w@, dir@) + hit_children(h@.take(j as int), dir@)),
        decreases m - j,
    {
        proof {
            lemma_walked_children_nonneg(w@, dir@);
            lemma_hit_children_nonneg(h@.take(j as int), dir@);
            let cur = h@.take(j + 1);
            assert(cur.drop_last() =~= h@.take(j as int));
            assert(cur.last() == h@[j as int]);
        }
        if immediate_child_exec(dir.as_str(), h[j].path.as_str()) {
            acc = acc.saturating_add(1);
        }
        j += 1;
    }
    proof {
        assert(h@.take(m as int) =~= h@);
    }
    acc
}

} // verus!

verus! {

use crate::hash::path_hash;

/// The output record composed for one walked entry: a file carries its own
/// size; a directory carries its aggregated total and, when child counting
/// is on, its observed child count (zero when memory neared the limit, as
/// counting was shed).
pub open spec fn fe_of_walked(
    e: SnapshotEntry,
    w: Seq<SnapshotEntry>,
    h: Seq<CacheEntry>,
    show_owner: bool,
    show_inodes: bool,
    nearing: bool,
) -> FileEntry {
    FileEntry {
        path: e.path,
        size: if e.entry_type == EntryType::File {
            e.size
        } else {
            sat64(dir_total(w, h, e.path@)) as u64
        },
        owner: if show_owner {
            e.owner_name
        } else {
            None
        },
        inodes: if e.entry_type == EntryType::Dir && show_inodes {
            Some(
                if nearing {
                    0u64
                } else {
                    sat64(child_count(w, h, e.path@)) as u64
                },
            )
        } else {
            None
        },
        entry_type: e.entry_type,
    }
}

/// The cache entry recorded for one walked entry.
pub open spec fn ce_of_walked(
    e: SnapshotEntry,
    w: Seq<SnapshotEntry>,
    h: Seq<CacheEntry>,
    show_inodes: bool,
    nearing: bool,
) -> CacheEntry {
    CacheEntry {
        path_hash: path_hash_spec(e.path@),
        path: e.path,
        size: if e.entry_type == EntryType::File {
            e.size
        } else {
            sat64(dir_total(w, h, e.path@)) as u64
        },
        mtime: e.mtime,
        nlink: e.nlink,
        inode_cnt: if e.entry_type == EntryType::Dir && show_inodes {
            Some(
                if nearing {
                    0u64
                } else {
                    sat64(child_count(w, h, e.path@)) as u64
                },
            )
        } else {
            None
        },
        owner: e.owner_id,
        entry_type: e.entry_type,
    }
}

/// The output record composed from a cached entry: size, child count and
/// kind as the previous scan recorded them. The owner name, when owners
/// are shown, comes from the snapshot entry at the cached path - the walk
/// observed and resolved it like any other - and is absent for a path the
/// snapshot no longer holds.
pub open spec fn fe_of_cached(c: CacheEntry, snap: Seq<SnapshotEntry>, show_owner: bool) -> FileEntry {
    FileEntry {
        path: c.path,
        size: c.size,
        owner: if show_owner {
            match find_snap(snap, c.path@) {
                Some(e) => e.owner_name,
                None => None,
            }
        } else {
            None
        },
        inodes: c.inode_cnt,
        entry_type: c.entry_type,
    }
}

/// Whether a cached entry strictly under a hit directory is emitted: the
/// depth filter (when given) admits it and the current exclude rules do
/// not reject it.
pub open spec fn restore_pred(
    root: Seq<char>,
    pats: Seq<Seq<char>>,
    names: Seq<Seq<char>>,
    depth: Option<usize>,
    c: CacheEntry,
    u: CacheEntry,
) -> bool {
    &&& strictly_under(c.path@, u.path@)
    &&& (match depth {
        Some(d) => rel_depth(root, u.path@) <= d,
        None => true,
    })
    &&& !excluded_path(pats, names, u.path@)
}

/// The entries emitted for the walked part, in walk order.
pub open spec fn walked_entries_model(
    w: Seq<SnapshotEntry>,
    h: Seq<CacheEntry>,
    show_owner: bool,
    show_inodes: bool,
    nearing: bool,
) -> Seq<FileEntry> {
    Seq::new(w.len(), |i: int| fe_of_walked(w[i], w, h, show_owner, show_inodes, nearing))
}

/// The cache entries recorded for the walked part, in walk order.
pub open spec fn walked_cache_model(
    w: Seq<SnapshotEntry>,
    h: Seq<CacheEntry>,
    show_inodes: bool,
    nearing: bool,
) -> Seq<CacheEntry> {
    Seq::new(w.len(), |i: int| ce_of_walked(w[i], w, h, show_inodes, nearing))
}

/// The entries emitted for one cache-served directory: the directory
/// itself, then every cached entry strictly under it that survives the
/// current filters, in cache order.
pub open spec fn hit_block_entries(
    c: CacheEntry,
    cache: Seq<CacheEntry>,
    snap: Seq<SnapshotEntry>,
    root: Seq<char>,
    pats: Seq<Seq<char>>,
    names: Seq<Seq<char>>,
    depth: Option<usize>,
    show_owner: bool,
) -> Seq<FileEntry> {
    seq![fe_of_cached(c, snap, show_owner)] + cache.filter(
        |u: CacheEntry| restore_pred(root, pats, names, depth, c, u),
    ).map_values(|u: CacheEntry| fe_of_cached(u, snap, show_owner))
}

/// The cache entries carried forward for one cache-served directory: the
/// directory itself and everything strictly under it, unfiltered.
pub open spec fn hit_block_cache(c: CacheEntry, cache: Seq<CacheEntry>) -> Seq<CacheEntry> {
    seq![c] + cache.filter(|u: CacheEntry| strictly_under(c.path@, u.path@))
}

/// The entries emitted for all cache-served directories, in walk order.
pub open spec fn hits_entries_model(
    hs: Seq<CacheEntry>,
    cache: Seq<CacheEntry>,
    snap: Seq<SnapshotEntry>,
    root: Seq<char>,
    pats: Seq<Seq<char>>,
    names: Seq<Seq<char>>,
    depth: Option<usize>,
    show_owner: bool,
) -> Seq<FileEntry>
    decreases hs.len(),
{
    if hs.len() == 0 {
        Seq::empty()
    } else {
        hit_block_entries(hs[0], cache, snap, root, pats, names, depth, show_owner)
            + hits_entries_model(
            hs.skip(1),
            cache,
            snap,
            root,
            pats,
            names,
            depth,
            show_owner,
        )
    }
}

/// The cache entries carried forward for all cache-served directories.
pub open spec fn hits_cache_model(hs: Seq<CacheEntry>, cache: Seq<CacheEntry>) -> Seq<CacheEntry>
    decreases hs.len(),
{
    if hs.len() == 0 {
        Seq::empty()
    } else {
        hit_block_cache(hs[0], cache) + hits_cache_model(hs.skip(1), cache)
    }
}

} // verus!

verus! {

use crate::cli::{Args, SortKey};
use crate::thread_pool::ThreadPoolStrategy;
use crate::utils::{sort_entries, sorted_by};

proof fn lemma_hits_entries_app(
    a: Seq<CacheEntry>,
    b: Seq<CacheEntry>,
    cache: Seq<CacheEntry>,
    snap: Seq<SnapshotEntry>,
    root: Seq<char>,
    pats: Seq<Seq<char>>,
    names: Seq<Seq<char>>,
    depth: Option<usize>,
    show_owner: bool,
)
    ensures
        hits_entries_model(a + b, cache, snap, root, pats, names, depth, show_owner)
            == hits_entries_model(a, cache, snap, root, pats, names, depth, show_owner)
            + hits_entries_model(b, cache, snap, root, pats, names, depth, show_owner),
    decreases a.len(),
{
    let me = |hs: Seq<CacheEntry>| hits_entries_model(
        hs,
        cache,
        snap,
        root,
        pats,
        names,
        depth,
        show_owner,
    );
    if a.len() == 0 {
        assert(a + b =~= b);
        assert(me(a) + me(b) =~= me(b));
    } else {
        assert((a + b).skip(1) =~= a.skip(1) + b);
        assert((a + b)[0] == a[0]);
        lemma_hits_entries_app(a.skip(1), b, cache, snap, root, pats, names, depth, show_owner);
        let block = hit_block_entries(a[0], cache, snap, root, pats, names, depth, show_owner);
        assert(block + (me(a.skip(1)) + me(b)) =~= (block + me(a.skip(1))) + me(b));
    }
}

proof fn lemma_hits_cache_app(a: Seq<CacheEntry>, b: Seq<CacheEntry>, cache: Seq<CacheEntry>)
    ensures
        hits_cache_model(a + b, cache) == hits_cache_model(a, cache) + hits_cache_model(b, cache),
    decreases a.len(),
{
    if a.len() == 0 {
        assert(a + b =~= b);
        assert(hits_cache_model(a, cache) + hits_cache_model(b, cache) =~= hits_cache_model(
            b,
            cache,
        ));
    } else {
        assert((a + b).skip(1) =~= a.skip(1) + b);
        assert((a + b)[0] == a[0]);
        lemma_hits_cache_app(a.skip(1), b, cache);
        assert(hit_block_cache(a[0], cache) + (hits_cache_model(a.skip(1), cache)
            + hits_cache_model(b, cache)) =~= (hit_block_cache(a[0], cache) + hits_cache_model(
            a.skip(1),
            cache,
        )) + hits_cache_model(b, cache));
    }
}

/// The owner shown for a cache-served path: the name the walk resolved
/// for the snapshot entry at that path, when owners are shown at all.
fn owner_from_snapshot(snap: &Vec<SnapshotEntry>, path: &String, show_owner: bool) -> (r: Option<
    String,
>)
    ensures
        r == (if show_owner {
            match find_snap(snap@, path@) {
                Some(e) => e.owner_name,
                None => None::<String>,
            }
        } else {
            None::<String>
        }),
{
    if !show_owner {
        return None;
    }
    match find_snap_exec(snap, path) {
        Some(si) => match &snap[si].owner_name {
            Some(o) => Some(o.clone()),
            None => None,
        },
        None => None,
    }
}

/// Compose the output list and the new cache from the walked entries, the
/// cache-served directories, the previous cache and the snapshot the walk
/// observed.
#[verifier::loop_isolation(false)]
fn compose(
    walked: &Vec<SnapshotEntry>,
    hit_entries: &Vec<CacheEntry>,
    cache: &Vec<CacheEntry>,
    snap: &Vec<SnapshotEntry>,
    root: &String,
    matcher: &globset::GlobSet,
    names: &Vec<String>,
    depth: Option<usize>,
    show_owner: bool,
    show_inodes: bool,
    nearing: bool,
) -> (r: (Vec<FileEntry>, Vec<CacheEntry>))
    ensures
        r.0@ == walked_entries_model(walked@, hit_entries@, show_owner, show_inodes, nearing)
            + hits_entries_model(
            hit_entries@,
            cache@,
            snap@,
            root@,
            globset_patterns(*matcher),
            names.deep_view(),
            depth,
            show_owner,
        ),
        r.1@ == walked_cache_model(walked@, hit_entries@, show_inodes, nearing) + hits_cache_model(
            hit_entries@,
            cache@,
        ),
{
    let ghost pats = globset_patterns(*matcher);
    let ghost names_v = names.deep_view();
    let ghost w_model = walked_entries_model(walked@, hit_entries@, show_owner, show_inodes, nearing);
    let ghost wc_model = walked_cache_model(walked@, hit_entries@, show_inodes, nearing);
    let mut entries: Vec<FileEntry> = Vec::new();
    let mut new_cache: Vec<CacheEntry> = Vec::new();
    let n = walked.len();
    let mut i: usize = 0;
    proof {
        assert(entries@ =~= w_model.take(0));
        assert(new_cache@ =~= wc_model.take(0));
    }
    while i < n
        invariant
            i <= n,
            entries@ == w_model.take(i as int),
            new_cache@ == wc_model.take(i as int),
        decreases n - i,
    {
        let e = &walked[i];
        let is_file = matches!(e.entry_type, EntryType::File);
        let size: u64 = if is_file {
            e.size
        } else {
            dir_total_exec(walked, hit_entries, &e.path)
        };
        let inodes: Option<u64> = if !is_file && show_inodes {
            if nearing {
                Some(0)
            } else {
                Some(child_count_exec(walked, hit_entries, &e.path))
            }
        } else {
            None
        };
        let owner: Option<String> = if show_owner {
            match &e.owner_name {
                Some(o) => Some(o.clone()),
                None => None,
            }
        } else {
            None
        };
        proof {
            lemma_files_sum_nonneg(walked@, e.path@);
            lemma_hits_sum_nonneg(hit_entries@, e.path@);
            lemma_walked_children_nonneg(walked@, e.path@);
            lemma_hit_children_nonneg(hit_entries@, e.path@);
        }
        let fe = FileEntry {
            path: e.path.clone(),
            size,
            owner,
            inodes,
            entry_type: e.entry_type,
        };
        let ce = CacheEntry {
            path_hash: path_hash(e.path.as_str()),
            path: e.path.clone(),
            size,
            mtime: e.mtime,
            nlink: e.nlink,
            inode_cnt: inodes,
            owner: e.owner_id,
            entry_type: e.entry_type,
        };
        proof {
            assert(fe == fe_of_walked(
                walked@[i as int],
                walked@,
                hit_entries@,
                show_owner,
                show_inodes,
                nearing,
            ));
            assert(ce == ce_of_walked(
                walked@[i as int],
                walked@,
                hit_entries@,
                show_inodes,
                nearing,
            ));
        }
        entries.push(fe);
        new_cache.push(ce);
        proof {
            assert(entries@ =~= w_model.take(i + 1));
            assert(new_cache@ =~= wc_model.take(i + 1));
        }
        i += 1;
    }
    proof {
        assert(w_model.take(n as int) =~= w_model);
        assert(wc_model.take(n as int) =~= wc_model);
    }
    let m = hit_entries.len();
    let mut j: usize = 0;
    proof {
        assert(hit_entries@.take(0) =~= Seq::<CacheEntry>::empty());
        assert(hits_entries_model(
            hit_entries@.take(0),
            cache@,
            snap@,
            root@,
            pats,
            names_v,
            depth,
            show_owner,
        ) =~= Seq::<FileEntry>::empty());
        assert(hits_cache_model(hit_entries@.take(0), cache@) =~= Seq::<CacheEntry>::empty());
        assert(entries@ =~= w_model + hits_entries_model(
            hit_entries@.take(0),
            cache@,
            snap@,
            root@,
            pats,
            names_v,
            depth,
            show_owner,
        ));
        assert(new_cache@ =~= wc_model + hits_cache_model(hit_entries@.take(0), cache@));
    }
    while j < m
        invariant
            j <= m,
            entries@ == w_model + hits_entries_model(
                hit_entries@.take(j as int),
                cache@,
                snap@,
                root@,
                pats,
                names_v,
                depth,
                show_owner,
            ),
            new_cache@ == wc_model + hits_cache_model(hit_entries@.take(j as int), cache@),
        decreases m - j,
    {
        let c = &hit_entries[j];
        let ghost c_v = hit_entries@[j as int];
        let ghost restore = |u: CacheEntry| restore_pred(root@, pats, names_v, depth, c_v, u);
        let ghost under = |u: CacheEntry| strictly_under(c_v.path@, u.path@);
        let ghost fe_map = |u: CacheEntry| fe_of_cached(u, snap@, show_owner);
        let ghost base_e = entries@;
        let ghost base_c = new_cache@;
        let hit_owner = owner_from_snapshot(snap, &c.path, show_owner);
        entries.push(
            FileEntry {
                path: c.path.clone(),
                size: c.size,
                owner: hit_owner,
                inodes: c.inode_cnt,
                entry_type: c.entry_type,
            },
        );
        new_cache.push(c.clone());
        let cn = cache.len();
        let mut k: usize = 0;
        proof {
            reveal(Seq::filter);
            assert(cache@.take(0) =~= Seq::<CacheEntry>::empty());
            assert(entries@ =~= base_e + (seq![fe_of_cached(c_v, snap@, show_owner)] + cache@.take(
                0,
            ).filter(restore).map_values(fe_map)));
            assert(new_cache@ =~= base_c + (seq![c_v] + cache@.take(0).filter(under)));
        }
        while k < cn
            invariant
                k <= cn,
                entries@ == base_e + (seq![fe_of_cached(c_v, snap@, show_owner)] + cache@.take(
                    k as int,
                ).filter(restore).map_values(fe_map)),
                new_cache@ == base_c + (seq![c_v] + cache@.take(k as int).filter(under)),
            decreases cn - k,
        {
            let u = &cache[k];
            let is_under = strictly_under_exec(c.path.as_str(), u.path.as_str());
            if is_under {
                new_cache.push(u.clone());
            }
            let depth_ok = match depth {
                Some(d) => path_depth(root, &u.path) <= d,
                None => true,
            };
            let admitted = is_under && depth_ok && !is_excluded(matcher, names, &u.path);
            assert(admitted == restore(cache@[k as int]));
            if admitted {
                let restored_owner = owner_from_snapshot(snap, &u.path, show_owner);
                entries.push(
                    FileEntry {
                        path: u.path.clone(),
                        size: u.size,
                        owner: restored_owner,
                        inodes: u.inode_cnt,
                        entry_type: u.entry_type,
                    },
                );
            }
            proof {
                reveal(Seq::filter);
                let prefix = cache@.take(k as int);
                let cur = cache@.take(k + 1);
                assert(cur =~= prefix.push(cache@[k as int]));
                assert(cur.drop_last() =~= prefix);
                assert(cur.last() == cache@[k as int]);
                assert(cur.filter(under) == if under(cur.last()) {
                    prefix.filter(under).push(cur.last())
                } else {
                    prefix.filter(under)
                });
                assert(cur.filter(restore) == if restore(cur.last()) {
                    prefix.filter(restore).push(cur.last())
                } else {
                    prefix.filter(restore)
                });
                if restore(cur.last()) {
                    assert(cur.filter(restore).map_values(fe_map) =~= prefix.filter(
                        restore,
                    ).map_values(fe_map).push(fe_map(cur.last())));
                }
                assert(entries@ =~= base_e + (seq![fe_of_cached(c_v, snap@, show_owner)]
                    + cur.filter(restore).map_values(fe_map)));
                assert(new_cache@ =~= base_c + (seq![c_v] + cur.filter(under)));
            }
            k += 1;
        }
        proof {
            assert(cache@.take(cn as int) =~= cache@);
            let hs_pre = hit_entries@.take(j as int);
            let hs_cur = hit_entries@.take(j + 1);
            assert(hs_cur =~= hs_pre + seq![c_v]);
            lemma_hits_entries_app(
                hs_pre,
                seq![c_v],
                cache@,
                snap@,
                root@,
                pats,
                names_v,
                depth,
                show_owner,
            );
            lemma_hits_cache_app(hs_pre, seq![c_v], cache@);
            assert(seq![c_v].skip(1) =~= Seq::<CacheEntry>::empty());
            assert(hits_entries_model(
                seq![c_v],
                cache@,
                snap@,
                root@,
                pats,
                names_v,
                depth,
                show_owner,
            ) =~= hit_block_entries(c_v, cache@, snap@, root@, pats, names_v, depth, show_owner));
            assert(hits_cache_model(seq![c_v], cache@) =~= hit_block_cache(c_v, cache@));
            assert(entries@ =~= w_model + hits_entries_model(
                hs_cur,
                cache@,
                snap@,
                root@,
                pats,
                names_v,
                depth,
                show_owner,
            ));
            assert(new_cache@ =~= wc_model + hits_cache_model(hs_cur, cache@));
        }
        j += 1;
    }
    proof {
        assert(hit_entries@.take(m as int) =~= hit_entries@);
    }
    (entries, new_cache)
}

} // verus!

verus! {

/// How many surviving entries pass between memory checks, by the
/// configured sample interval: short intervals check often, long ones
/// rarely.
pub open spec fn spec_memory_check_interval(interval_ms: u64) -> int {
    if interval_ms <= 100 {
        500
    } else if interval_ms <= 200 {
        1000
    } else {
        2000
    }
}

/// The check cadence for a configured sample interval.
pub fn memory_check_interval(interval_ms: u64) -> (r: u64)
    ensures
        r == spec_memory_check_interval(interval_ms),
{
    if interval_ms <= 100 {
        500
    } else if interval_ms <= 200 {
        1000
    } else {
        2000
    }
}

/// The memory status a finished walk reports.
pub open spec fn status_of(nearing: bool, exceeded: bool) -> MemoryLimitStatus {
    if exceeded {
        MemoryLimitStatus::MemoryLimitHit
    } else if nearing {
        MemoryLimitStatus::NearingLimit
    } else {
        MemoryLimitStatus::Normal
    }
}

/// Whether the snapshot holds nothing besides the root itself - an empty
/// root. Such a scan yields an empty listing with clean statistics.
pub open spec fn only_root(snap: Seq<SnapshotEntry>, root: Seq<char>) -> bool {
    forall|i: int| 0 <= i < snap.len() ==> (#[trigger] snap[i]).path@ == root
}

/// The snapshot the scan effectively works on: nothing for an empty root,
/// else the snapshot as given.
pub open spec fn effective_snapshot(
    snap: Seq<SnapshotEntry>,
    root: Seq<char>,
) -> Seq<SnapshotEntry> {
    if only_root(snap, root) {
        Seq::empty()
    } else {
        snap
    }
}

/// Whether the snapshot holds nothing besides the root itself.
pub fn is_only_root(snap: &Vec<SnapshotEntry>, root: &String) -> (r: bool)
    ensures
        r == only_root(snap@, root@),
{
    let n = snap.len();
    let mut i: usize = 0;
    while i < n
        invariant
            i <= n,
            n == snap@.len(),
            forall|j: int| 0 <= j < i ==> (#[trigger] snap@[j]).path@ == root@,
        decreases n - i,
    {
        if !str_equals(snap[i].path.as_str(), root.as_str()) {
            return false;
        }
        i += 1;
    }
    true
}

/// Everything a scan promises, stated over the ghost walk state `m` that
/// the snapshot induces.
pub open spec fn scan_spec(
    root: Seq<char>,
    args: Args,
    pats: Seq<Seq<char>>,
    sort_key: SortKey,
    snapshot: Seq<SnapshotEntry>,
    cache: Seq<CacheEntry>,
    samples: Seq<Option<u64>>,
    limit: Option<u64>,
    result: ScanResult,
    save: Option<Vec<CacheEntry>>,
) -> bool {
    let eff = effective_snapshot(snapshot, root);
    let m = walk_upto(
        eff,
        cache,
        root,
        pats,
        args.exclude.deep_view(),
        args.no_cache,
        spec_memory_check_interval(args.memory_check_interval_ms),
        samples,
        limit,
        eff.len() as int,
    );
    &&& result.cache_hits == m.hits
    &&& result.cache_total == m.hits + m.misses
    &&& result.memory_limit_hit == m.exceeded
    &&& result.memory_status == status_of(m.nearing, m.exceeded)
    &&& result.phase_timings.len() == 0
    &&& sorted_by(sort_key, result.entries@)
    &&& result.entries@.to_multiset() == (walked_entries_model(
        m.walked,
        m.hit_entries,
        args.show_owner,
        args.show_inodes,
        m.nearing,
    ) + hits_entries_model(
        m.hit_entries,
        cache,
        eff,
        root,
        pats,
        args.exclude.deep_view(),
        args.depth,
        args.show_owner,
    )).to_multiset()
    &&& (if !args.no_cache && !m.nearing && !m.exceeded {
        save matches Some(nc) && nc@ == walked_cache_model(
            m.walked,
            m.hit_entries,
            args.show_inodes,
            m.nearing,
        ) + hits_cache_model(m.hit_entries, cache)
    } else {
        save is None
    })
}

/// Scan under an optional memory watch: walk the snapshot with pruning and
/// cache reuse, consuming one memory sample per check and stopping early
/// when a sample reaches the limit; aggregate, compose, and sort.
///
/// Returns the scan result and, when a cache may be written, the entries
/// to persist; the cache is withheld when caching is off, when memory
/// neared the limit, or when the limit cut the scan short.
pub fn scan_files_and_dirs_with_memory_monitor(
    root: &String,
    args: &Args,
    exclude_matcher: &globset::GlobSet,
    sort_key: SortKey,
    snapshot: &Vec<SnapshotEntry>,
    cache: &Vec<CacheEntry>,
    rss_samples: &Vec<Option<u64>>,
    memory_limit_bytes: Option<u64>,
) -> (r: (ScanResult, Option<Vec<CacheEntry>>))
    ensures
        scan_spec(
            root@,
            *args,
            globset_patterns(*exclude_matcher),
            sort_key,
            snapshot@,
            cache@,
            rss_samples@,
            memory_limit_bytes,
            r.0,
            r.1,
        ),
        args.no_cache ==> r.0.cache_hits == 0 && r.0.cache_total == 0,
        only_root(snapshot@, root@) ==> r.0.entries@.len() == 0 && r.0.cache_hits == 0
            && r.0.cache_total == 0,
{
    let ghost pats = globset_patterns(*exclude_matcher);
    let ghost names_v = args.exclude.deep_view();
    let k = memory_check_interval(args.memory_check_interval_ms);
    let empty_snap: Vec<SnapshotEntry> = Vec::new();
    let eff: &Vec<SnapshotEntry> = if is_only_root(snapshot, root) {
        &empty_snap
    } else {
        snapshot
    };
    proof {
        if only_root(snapshot@, root@) {
            assert(eff@ =~= effective_snapshot(snapshot@, root@));
        }
        assert(eff@ == effective_snapshot(snapshot@, root@));
    }
    let snap_len = eff.len();
    proof {
        assert(eff@.len() == snap_len);
        assert(eff@.len() <= u64::MAX);
    }
    let outcome = walk_snapshot(
        eff,
        cache,
        root,
        exclude_matcher,
        &args.exclude,
        args.no_cache,
        k,
        rss_samples,
        memory_limit_bytes,
    );
    let (mut entries, new_cache) = compose(
        &outcome.walked,
        &outcome.hit_entries,
        cache,
        eff,
        root,
        exclude_matcher,
        &args.exclude,
        args.depth,
        args.show_owner,
        args.show_inodes,
        outcome.nearing,
    );
    sort_entries(&mut entries, sort_key);
    let ghost m = walk_upto(
        eff@,
        cache@,
        root@,
        pats,
        names_v,
        args.no_cache,
        k as int,
        rss_samples@,
        memory_limit_bytes,
        eff@.len() as int,
    );
    proof {
        lemma_walk_no_cache(
            eff@,
            cache@,
            root@,
            pats,
            names_v,
            args.no_cache,
            k as int,
            rss_samples@,
            memory_limit_bytes,
            eff@.len() as int,
        );
        if eff@.len() == 0 {
            assert(m == walk_init());
            let we = walked_entries_model(
                m.walked,
                m.hit_entries,
                args.show_owner,
                args.show_inodes,
                m.nearing,
            );
            let he = hits_entries_model(
                m.hit_entries,
                cache@,
                eff@,
                root@,
                pats,
                names_v,
                args.depth,
                args.show_owner,
            );
            assert(we =~= Seq::<FileEntry>::empty());
            assert(he =~= Seq::<FileEntry>::empty());
            assert(we + he =~= Seq::<FileEntry>::empty());
            (we + he).to_multiset_ensures();
            entries@.to_multiset_ensures();
        }
    }
    let status = if outcome.exceeded {
        MemoryLimitStatus::MemoryLimitHit
    } else if outcome.nearing {
        MemoryLimitStatus::NearingLimit
    } else {
        MemoryLimitStatus::Normal
    };
    let save: Option<Vec<CacheEntry>> = if !args.no_cache && !outcome.nearing && !outcome.exceeded {
        Some(new_cache)
    } else {
        None
    };
    let result = ScanResult {
        entries,
        cache_hits: outcome.hits,
        cache_total: outcome.hits + outcome.misses,
        memory_limit_hit: outcome.exceeded,
        phase_timings: Vec::new(),
        memory_status: status,
    };
    (result, save)
}

/// With caching off, the walk never hits and never counts a lookup.
pub proof fn lemma_walk_no_cache(
    snap: Seq<SnapshotEntry>,
    cache: Seq<CacheEntry>,
    root: Seq<char>,
    pats: Seq<Seq<char>>,
    names: Seq<Seq<char>>,
    no_cache: bool,
    k: int,
    samples: Seq<Option<u64>>,
    limit: Option<u64>,
    n: int,
)
    ensures
        no_cache ==> {
            let m = walk_upto(snap, cache, root, pats, names, no_cache, k, samples, limit, n);
            m.hits == 0 && m.misses == 0 && m.hit_entries.len() == 0
        },
    decreases n,
{
    if n > 0 {
        lemma_walk_no_cache(snap, cache, root, pats, names, no_cache, k, samples, limit, n - 1);
    }
}

/// The incremental scan: same as scanning under a memory watch that is
/// never consulted.
pub fn scan_files_and_dirs_incremental(
    root: &String,
    args: &Args,
    exclude_matcher: &globset::GlobSet,
    sort_key: SortKey,
    snapshot: &Vec<SnapshotEntry>,
    cache: &Vec<CacheEntry>,
) -> (r: (ScanResult, Option<Vec<CacheEntry>>))
    ensures
        scan_spec(
            root@,
            *args,
            globset_patterns(*exclude_matcher),
            sort_key,
            snapshot@,
            cache@,
            Seq::<Option<u64>>::empty(),
            None,
            r.0,
            r.1,
        ),
        args.no_cache ==> r.0.cache_hits == 0 && r.0.cache_total == 0,
        only_root(snapshot@, root@) ==> r.0.entries@.len() == 0 && r.0.cache_hits == 0
            && r.0.cache_total == 0,
{
    let samples: Vec<Option<u64>> = Vec::new();
    let r = scan_files_and_dirs_with_memory_monitor(
        root,
        args,
        exclude_matcher,
        sort_key,
        snapshot,
        cache,
        &samples,
        None,
    );
    proof {
        assert(samples@ =~= Seq::<Option<u64>>::empty());
    }
    r
}

} // verus!

verus! {

/// Directories with more immediate children than this are fanned out as
/// independent tasks by a host that runs the work-stealing strategy; the
/// value is a tuning constant for skewed trees and carries no semantic
/// weight.
pub const LARGE_DIR_THRESHOLD: u64 = 10000;

/// The work-stealing split criterion: whether a directory has enough
/// immediate children to be processed as its own task.
pub fn is_large_directory(children: u64) -> (r: bool)
    ensures
        r == (children > LARGE_DIR_THRESHOLD),
{
    children > LARGE_DIR_THRESHOLD
}

/// Without a limit, the walk never consumes a sample and never triggers.
pub proof fn lemma_walk_no_limit(
    snap: Seq<SnapshotEntry>,
    cache: Seq<CacheEntry>,
    root: Seq<char>,
    pats: Seq<Seq<char>>,
    names: Seq<Seq<char>>,
    no_cache: bool,
    k: int,
    samples: Seq<Option<u64>>,
    n: int,
)
    ensures
        ({
            let m = walk_upto(snap, cache, root, pats, names, no_cache, k, samples, None, n);
            !m.nearing && !m.exceeded && m.samples_used == 0
        }),
    decreases n,
{
    if n > 0 {
        lemma_walk_no_limit(snap, cache, root, pats, names, no_cache, k, samples, n - 1);
    }
}

/// The work-stealing scan: the same exclusion, aggregation and sorting,
/// with the cache never consulted and never written; a host fans the
/// actual disk reads for large directories out as independent tasks, which
/// cannot change the aggregated result, since per-directory addition is
/// commutative.
pub fn scan_with_work_stealing(
    root: &String,
    args: &Args,
    exclude_matcher: &globset::GlobSet,
    sort_key: SortKey,
    snapshot: &Vec<SnapshotEntry>,
) -> (r: ScanResult)
    ensures
        ({
            let eff = effective_snapshot(snapshot@, root@);
            let m = walk_upto(
                eff,
                Seq::<CacheEntry>::empty(),
                root@,
                globset_patterns(*exclude_matcher),
                args.exclude.deep_view(),
                true,
                spec_memory_check_interval(args.memory_check_interval_ms),
                Seq::<Option<u64>>::empty(),
                None,
                eff.len() as int,
            );
            &&& r.cache_hits == 0
            &&& r.cache_total == 0
            &&& !r.memory_limit_hit
            &&& r.memory_status == MemoryLimitStatus::Normal
            &&& r.phase_timings@.len() == 0
            &&& sorted_by(sort_key, r.entries@)
            &&& r.entries@.to_multiset() == walked_entries_model(
                m.walked,
                Seq::<CacheEntry>::empty(),
                args.show_owner,
                args.show_inodes,
                false,
            ).to_multiset()
        }),
        only_root(snapshot@, root@) ==> r.entries@.len() == 0,
{
    let ghost pats = globset_patterns(*exclude_matcher);
    let ghost names_v = args.exclude.deep_view();
    let cache_empty: Vec<CacheEntry> = Vec::new();
    let samples: Vec<Option<u64>> = Vec::new();
    let k = memory_check_interval(args.memory_check_interval_ms);
    let empty_snap: Vec<SnapshotEntry> = Vec::new();
    let eff: &Vec<SnapshotEntry> = if is_only_root(snapshot, root) {
        &empty_snap
    } else {
        snapshot
    };
    proof {
        if only_root(snapshot@, root@) {
            assert(eff@ =~= effective_snapshot(snapshot@, root@));
        }
        assert(eff@ == effective_snapshot(snapshot@, root@));
    }
    let snap_len = eff.len();
    proof {
        assert(eff@.len() == snap_len);
        assert(cache_empty@ =~= Seq::<CacheEntry>::empty());
        assert(samples@ =~= Seq::<Option<u64>>::empty());
    }
    let outcome = walk_snapshot(
        eff,
        &cache_empty,
        root,
        exclude_matcher,
        &args.exclude,
        true,
        k,
        &samples,
        None,
    );
    proof {
        lemma_walk_no_cache(
            eff@,
            cache_empty@,
            root@,
            pats,
            names_v,
            true,
            k as int,
            samples@,
            None,
            eff@.len() as int,
        );
        lemma_walk_no_limit(
            eff@,
            cache_empty@,
            root@,
            pats,
            names_v,
            true,
            k as int,
            samples@,
            eff@.len() as int,
        );
    }
    let (mut entries, _discarded_cache) = compose(
        &outcome.walked,
        &outcome.hit_entries,
        &cache_empty,
        eff,
        root,
        exclude_matcher,
        &args.exclude,
        args.depth,
        args.show_owner,
        args.show_inodes,
        false,
    );
    proof {
        let ghost m = walk_upto(
            eff@,
            cache_empty@,
            root@,
            pats,
            names_v,
            true,
            k as int,
            samples@,
            None,
            eff@.len() as int,
        );
        assert(m.hit_entries =~= Seq::<CacheEntry>::empty());
        let he = hits_entries_model(
            m.hit_entries,
            cache_empty@,
            eff@,
            root@,
            pats,
            names_v,
            args.depth,
            args.show_owner,
        );
        let we = walked_entries_model(m.walked, m.hit_entries, args.show_owner, args.show_inodes, false);
        assert(he =~= Seq::<FileEntry>::empty());
        assert(we + he =~= we);
        if only_root(snapshot@, root@) {
            assert(m == walk_init());
            assert(we =~= Seq::<FileEntry>::empty());
            we.to_multiset_ensures();
        }
    }
    sort_entries(&mut entries, sort_key);
    proof {
        if only_root(snapshot@, root@) {
            entries@.to_multiset_ensures();
        }
    }
    ScanResult {
        entries,
        cache_hits: 0,
        cache_total: 0,
        memory_limit_hit: false,
        phase_timings: Vec::new(),
        memory_status: MemoryLimitStatus::Normal,
    }
}

/// Scan the snapshot under the configured strategy: the work-stealing
/// driver when selected (which neither reads nor writes the cache), else
/// the incremental scan with cache reuse.
pub fn scan_files_and_dirs(
    root: &String,
    args: &Args,
    exclude_matcher: &globset::GlobSet,
    sort_key: SortKey,
    snapshot: &Vec<SnapshotEntry>,
    cache: &Vec<CacheEntry>,
) -> (r: (ScanResult, Option<Vec<CacheEntry>>))
    ensures
        args.threads_strategy == ThreadPoolStrategy::WorkStealingUneven ==> ({
            let eff = effective_snapshot(snapshot@, root@);
            let m = walk_upto(
                eff,
                Seq::<CacheEntry>::empty(),
                root@,
                globset_patterns(*exclude_matcher),
                args.exclude.deep_view(),
                true,
                spec_memory_check_interval(args.memory_check_interval_ms),
                Seq::<Option<u64>>::empty(),
                None,
                eff.len() as int,
            );
            &&& r.0.cache_hits == 0
            &&& r.0.cache_total == 0
            &&& !r.0.memory_limit_hit
            &&& r.0.memory_status == MemoryLimitStatus::Normal
            &&& r.0.phase_timings@.len() == 0
            &&& sorted_by(sort_key, r.0.entries@)
            &&& r.0.entries@.to_multiset() == walked_entries_model(
                m.walked,
                Seq::<CacheEntry>::empty(),
                args.show_owner,
                args.show_inodes,
                false,
            ).to_multiset()
            &&& r.1 is None
        }),
        args.threads_strategy != ThreadPoolStrategy::WorkStealingUneven ==> scan_spec(
            root@,
            *args,
            globset_patterns(*exclude_matcher),
            sort_key,
            snapshot@,
            cache@,
            Seq::<Option<u64>>::empty(),
            None,
            r.0,
            r.1,
        ),
{
    if matches!(args.threads_strategy, ThreadPoolStrategy::WorkStealingUneven) {
        let result = scan_with_work_stealing(root, args, exclude_matcher, sort_key, snapshot);
        (result, None)
    } else {
        scan_files_and_dirs_incremental(root, args, exclude_matcher, sort_key, snapshot, cache)
    }
}

} // verus!

verus! {

// ------------------------------------------------------------------
// Laws of the scanner
// ------------------------------------------------------------------
/// A found cache entry carries the path it was found under.
proof fn lemma_find_cache_path(cache: Seq<CacheEntry>, path: Seq<char>)
    ensures
        find_cache_by_path(cache, path) matches Some(c) ==> c.path@ == path,
    decreases cache.len(),
{
    if cache.len() > 0 && cache[0].path@ != path {
        lemma_find_cache_path(cache.skip(1), path);
    }
}

/// Everything the walk keeps is visible: not excluded and not under an
/// excluded or cache-served ancestor. This holds of the walked entries and
/// of the cache-served directories alike.
pub proof fn lemma_walk_classified(
    snap: Seq<SnapshotEntry>,
    cache: Seq<CacheEntry>,
    root: Seq<char>,
    pats: Seq<Seq<char>>,
    names: Seq<Seq<char>>,
    no_cache: bool,
    k: int,
    samples: Seq<Option<u64>>,
    limit: Option<u64>,
    n: int,
)
    ensures
        ({
            let m = walk_upto(snap, cache, root, pats, names, no_cache, k, samples, limit, n);
            &&& forall|j: int|
                0 <= j < m.walked.len() ==> visible(
                    snap,
                    cache,
                    root,
                    pats,
                    names,
                    no_cache,
                    (#[trigger] m.walked[j]).path@,
                )
            &&& forall|j: int|
                0 <= j < m.hit_entries.len() ==> visible(
                    snap,
                    cache,
                    root,
                    pats,
                    names,
                    no_cache,
                    (#[trigger] m.hit_entries[j]).path@,
                )
        }),
    decreases n,
{
    if n > 0 {
        lemma_walk_classified(snap, cache, root, pats, names, no_cache, k, samples, limit, n - 1);
        let m0 = walk_upto(snap, cache, root, pats, names, no_cache, k, samples, limit, n - 1);
        let e = snap[n - 1];
        if !m0.exceeded && visible(snap, cache, root, pats, names, no_cache, e.path@)
            && cache_hit_at(snap, cache, root, no_cache, e.path@) {
            lemma_find_cache_path(cache, e.path@);
        }
    }
}

/// Every entry emitted for the cache-served part survives the exclude
/// rules: the hit directories themselves are visible, and the restored
/// descendants pass the restore filter, which rejects excluded paths.
proof fn lemma_hits_entries_elem(
    hs: Seq<CacheEntry>,
    cache: Seq<CacheEntry>,
    snap: Seq<SnapshotEntry>,
    root: Seq<char>,
    pats: Seq<Seq<char>>,
    names: Seq<Seq<char>>,
    depth: Option<usize>,
    show_owner: bool,
    idx: int,
)
    requires
        forall|j: int| 0 <= j < hs.len() ==> !excluded_path(pats, names, (#[trigger] hs[j]).path@),
        0 <= idx < hits_entries_model(hs, cache, snap, root, pats, names, depth, show_owner).len(),
    ensures
        !excluded_path(
            pats,
            names,
            hits_entries_model(hs, cache, snap, root, pats, names, depth, show_owner)[idx].path@,
        ),
    decreases hs.len(),
{
    broadcast use vstd::seq_lib::group_filter_ensures;

    let model = hits_entries_model(hs, cache, snap, root, pats, names, depth, show_owner);
    let block = hit_block_entries(hs[0], cache, snap, root, pats, names, depth, show_owner);
    if idx < block.len() {
        if idx == 0 {
            assert(block[0] == fe_of_cached(hs[0], snap, show_owner));
        } else {
            let filtered = cache.filter(
                |u: CacheEntry| restore_pred(root, pats, names, depth, hs[0], u),
            );
            let mapped = filtered.map_values(|u: CacheEntry| fe_of_cached(u, snap, show_owner));
            assert(block[idx] == mapped[idx - 1]);
            assert(mapped[idx - 1] == fe_of_cached(filtered[idx - 1], snap, show_owner));
            assert(restore_pred(root, pats, names, depth, hs[0], filtered[idx - 1]));
        }
        assert(model[idx] == block[idx]);
    } else {
        lemma_hits_entries_elem(
            hs.skip(1),
            cache,
            snap,
            root,
            pats,
            names,
            depth,
            show_owner,
            idx - block.len(),
        );
        assert(model[idx] == hits_entries_model(
            hs.skip(1),
            cache,
            snap,
            root,
            pats,
            names,
            depth,
            show_owner,
        )[idx - block.len()]);
    }
}

/// No entry a scan emits is excluded: neither the walked part nor the
/// cache-served part carries a path the exclude rules reject.
pub proof fn lemma_emitted_not_excluded(
    w: Seq<SnapshotEntry>,
    hs: Seq<CacheEntry>,
    cache: Seq<CacheEntry>,
    snap: Seq<SnapshotEntry>,
    root: Seq<char>,
    pats: Seq<Seq<char>>,
    names: Seq<Seq<char>>,
    depth: Option<usize>,
    show_owner: bool,
    show_inodes: bool,
    nearing: bool,
    idx: int,
)
    requires
        forall|j: int| 0 <= j < w.len() ==> !excluded_path(pats, names, (#[trigger] w[j]).path@),
        forall|j: int| 0 <= j < hs.len() ==> !excluded_path(pats, names, (#[trigger] hs[j]).path@),
        0 <= idx < (walked_entries_model(w, hs, show_owner, show_inodes, nearing)
            + hits_entries_model(hs, cache, snap, root, pats, names, depth, show_owner)).len(),
    ensures
        !excluded_path(
            pats,
            names,
            (walked_entries_model(w, hs, show_owner, show_inodes, nearing) + hits_entries_model(
                hs,
                cache,
                snap,
                root,
                pats,
                names,
                depth,
                show_owner,
            ))[idx].path@,
        ),
{
    let we = walked_entries_model(w, hs, show_owner, show_inodes, nearing);
    let he = hits_entries_model(hs, cache, snap, root, pats, names, depth, show_owner);
    if idx < we.len() {
        assert(we[idx] == fe_of_walked(w[idx], w, hs, show_owner, show_inodes, nearing));
    } else {
        lemma_hits_entries_elem(
            hs,
            cache,
            snap,
            root,
            pats,
            names,
            depth,
            show_owner,
            idx - we.len(),
        );
    }
}

/// For a scan with nothing served from cache, the size of every emitted
/// directory is exactly the sum of the sizes of the walked files strictly
/// under it - allocated block usage aggregated over the subtree.
pub proof fn lemma_dir_size_is_subtree_sum(
    w: Seq<SnapshotEntry>,
    show_owner: bool,
    show_inodes: bool,
    nearing: bool,
    i: int,
)
    requires
        0 <= i < w.len(),
        w[i].entry_type == EntryType::Dir,
        files_sum_under(w, w[i].path@) <= u64::MAX,
    ensures
        walked_entries_model(w, Seq::<CacheEntry>::empty(), show_owner, show_inodes, nearing)[i].size
            == files_sum_under(w, w[i].path@),
{
    lemma_files_sum_nonneg(w, w[i].path@);
    assert(hits_sum_under(Seq::<CacheEntry>::empty(), w[i].path@) == 0);
}

/// For a full scan with child counting on and memory untroubled, the
/// child count of every emitted directory is exactly the number of walked
/// entries that are its immediate children.
pub proof fn lemma_dir_inodes_are_child_count(
    w: Seq<SnapshotEntry>,
    show_owner: bool,
    i: int,
)
    requires
        0 <= i < w.len(),
        w[i].entry_type == EntryType::Dir,
        walked_children(w, w[i].path@) <= u64::MAX,
    ensures
        walked_entries_model(w, Seq::<CacheEntry>::empty(), show_owner, true, false)[i].inodes
            == Some(walked_children(w, w[i].path@) as u64),
{
    lemma_walked_children_nonneg(w, w[i].path@);
    assert(hit_children(Seq::<CacheEntry>::empty(), w[i].path@) == 0);
}

/// Every entry of the new cache a scan builds is keyed by the hash of its
/// path, provided the cache it carried entries forward from was so keyed -
/// as every cache this library loads is.
pub proof fn lemma_new_cache_hashes(
    w: Seq<SnapshotEntry>,
    hs: Seq<CacheEntry>,
    cache: Seq<CacheEntry>,
    show_inodes: bool,
    nearing: bool,
    idx: int,
)
    requires
        forall|j: int|
            0 <= j < cache.len() ==> (#[trigger] cache[j]).path_hash == path_hash_spec(
                cache[j].path@,
            ),
        forall|j: int|
            0 <= j < hs.len() ==> (#[trigger] hs[j]).path_hash == path_hash_spec(hs[j].path@),
        0 <= idx < (walked_cache_model(w, hs, show_inodes, nearing) + hits_cache_model(
            hs,
            cache,
        )).len(),
    ensures
        ({
            let nc = walked_cache_model(w, hs, show_inodes, nearing) + hits_cache_model(hs, cache);
            nc[idx].path_hash == path_hash_spec(nc[idx].path@)
        }),
{
    let wc = walked_cache_model(w, hs, show_inodes, nearing);
    if idx < wc.len() {
        assert(wc[idx] == ce_of_walked(w[idx], w, hs, show_inodes, nearing));
    } else {
        lemma_hits_cache_elem(hs, cache, idx - wc.len());
    }
}

proof fn lemma_hits_cache_elem(hs: Seq<CacheEntry>, cache: Seq<CacheEntry>, idx: int)
    requires
        forall|j: int|
            0 <= j < cache.len() ==> (#[trigger] cache[j]).path_hash == path_hash_spec(
                cache[j].path@,
            ),
        forall|j: int|
            0 <= j < hs.len() ==> (#[trigger] hs[j]).path_hash == path_hash_spec(hs[j].path@),
        0 <= idx < hits_cache_model(hs, cache).len(),
    ensures
        ({
            let m = hits_cache_model(hs, cache);
            m[idx].path_hash == path_hash_spec(m[idx].path@)
        }),
    decreases hs.len(),
{
    broadcast use vstd::seq_lib::group_filter_ensures;

    let m = hits_cache_model(hs, cache);
    let block = hit_block_cache(hs[0], cache);
    if idx < block.len() {
        if idx > 0 {
            let pred = |u: CacheEntry| strictly_under(hs[0].path@, u.path@);
            let filtered = cache.filter(pred);
            assert(block[idx] == filtered[idx - 1]);
            assert(filtered.contains(filtered[idx - 1]));
            cache.lemma_filter_contains_rev(pred, filtered[idx - 1]);
            let ghost j = choose|j: int| 0 <= j < cache.len() && cache[j] == filtered[idx - 1];
            assert(cache[j].path_hash == path_hash_spec(cache[j].path@));
        }
        assert(m[idx] == block[idx]);
    } else {
        lemma_hits_cache_elem(hs.skip(1), cache, idx - block.len());
        assert(m[idx] == hits_cache_model(hs.skip(1), cache)[idx - block.len()]);
    }
}

} // verus!

verus! {

/// No entry of a finished scan's result is excluded: whatever the exclude
/// rules reject - directly or anywhere above it - never reaches the
/// output, whether walked fresh or restored from the cache.
pub proof fn lemma_scan_emits_no_excluded(
    root: Seq<char>,
    args: Args,
    pats: Seq<Seq<char>>,
    sort_key: SortKey,
    snapshot: Seq<SnapshotEntry>,
    cache: Seq<CacheEntry>,
    samples: Seq<Option<u64>>,
    limit: Option<u64>,
    result: ScanResult,
    save: Option<Vec<CacheEntry>>,
    idx: int,
)
    requires
        scan_spec(root, args, pats, sort_key, snapshot, cache, samples, limit, result, save),
        0 <= idx < result.entries@.len(),
    ensures
        !excluded_path(pats, args.exclude.deep_view(), result.entries@[idx].path@),
{
    broadcast use vstd::seq_lib::group_to_multiset_ensures;

    let names = args.exclude.deep_view();
    let eff = effective_snapshot(snapshot, root);
    let n = eff.len() as int;
    let k = spec_memory_check_interval(args.memory_check_interval_ms);
    let m = walk_upto(eff, cache, root, pats, names, args.no_cache, k, samples, limit, n);
    let we = walked_entries_model(m.walked, m.hit_entries, args.show_owner, args.show_inodes, m.nearing);
    let he = hits_entries_model(
        m.hit_entries,
        cache,
        eff,
        root,
        pats,
        names,
        args.depth,
        args.show_owner,
    );
    let model = we + he;
    let x = result.entries@[idx];
    assert(result.entries@.contains(x));
    assert(result.entries@.to_multiset().count(x) > 0);
    assert(model.to_multiset().count(x) > 0);
    assert(model.contains(x));
    let midx = choose|j: int| 0 <= j < model.len() && model[j] == x;
    lemma_walk_classified(eff, cache, root, pats, names, args.no_cache, k, samples, limit, n);
    lemma_emitted_not_excluded(
        m.walked,
        m.hit_entries,
        cache,
        eff,
        root,
        pats,
        names,
        args.depth,
        args.show_owner,
        args.show_inodes,
        m.nearing,
        midx,
    );
}

} // verus!

verus! {

/// The walk's hit count never goes negative.
proof fn lemma_walk_hits_nonneg(
    snap: Seq<SnapshotEntry>,
    cache: Seq<CacheEntry>,
    root: Seq<char>,
    pats: Seq<Seq<char>>,
    names: Seq<Seq<char>>,
    no_cache: bool,
    k: int,
    samples: Seq<Option<u64>>,
    limit: Option<u64>,
    n: int,
)
    ensures
        walk_upto(snap, cache, root, pats, names, no_cache, k, samples, limit, n).hits >= 0,
    decreases n,
{
    if n > 0 {
        lemma_walk_hits_nonneg(snap, cache, root, pats, names, no_cache, k, samples, limit, n - 1);
    }
}

/// A scan immediately after a previous scan of an unchanged tree is served
/// from the cache: when the snapshot still holds a non-root directory
/// whose cached entry is valid and which no exclusion or ancestor prunes,
/// and no memory limit interferes, the walk counts at least one hit.
pub proof fn lemma_unchanged_dir_is_served(
    snap: Seq<SnapshotEntry>,
    cache: Seq<CacheEntry>,
    root: Seq<char>,
    pats: Seq<Seq<char>>,
    names: Seq<Seq<char>>,
    no_cache: bool,
    k: int,
    samples: Seq<Option<u64>>,
    i: int,
    n: int,
)
    requires
        0 <= i < n <= snap.len(),
        visible(snap, cache, root, pats, names, no_cache, snap[i].path@),
        cache_hit_at(snap, cache, root, no_cache, snap[i].path@),
    ensures
        walk_upto(snap, cache, root, pats, names, no_cache, k, samples, None, n).hits >= 1,
    decreases n,
{
    lemma_walk_no_limit(snap, cache, root, pats, names, no_cache, k, samples, n - 1);
    lemma_walk_hits_nonneg(snap, cache, root, pats, names, no_cache, k, samples, None, n - 1);
    let m0 = walk_upto(snap, cache, root, pats, names, no_cache, k, samples, None, n - 1);
    assert(walk_upto(snap, cache, root, pats, names, no_cache, k, samples, None, n) == walk_step(
        m0,
        snap,
        cache,
        root,
        pats,
        names,
        no_cache,
        snap[n - 1],
        k,
        samples,
        None,
    ));
    if n - 1 == i {
        assert(!m0.exceeded);
    } else {
        lemma_unchanged_dir_is_served(
            snap,
            cache,
            root,
            pats,
            names,
            no_cache,
            k,
            samples,
            i,
            n - 1,
        );
    }
}

} // verus!

verus! {

/// With no cache to serve from, the walk never collects a hit entry.
proof fn lemma_walk_empty_cache_no_hits(
    snap: Seq<SnapshotEntry>,
    cache: Seq<CacheEntry>,
    root: Seq<char>,
    pats: Seq<Seq<char>>,
    names: Seq<Seq<char>>,
    no_cache: bool,
    k: int,
    samples: Seq<Option<u64>>,
    limit: Option<u64>,
    n: int,
)
    requires
        cache.len() == 0,
    ensures
        walk_upto(
            snap,
            cache,
            root,
            pats,
            names,
            no_cache,
            k,
            samples,
            limit,
            n,
        ).hit_entries.len() == 0,
    decreases n,
{
    if n > 0 {
        lemma_walk_empty_cache_no_hits(
            snap,
            cache,
            root,
            pats,
            names,
            no_cache,
            k,
            samples,
            limit,
            n - 1,
        );
    }
}

/// Sizes in a full scan's result are subtree sums: when nothing is served
/// from cache, every directory entry the scan emits carries exactly the
/// clamped sum of the sizes of the walked files strictly under its path;
/// and with child counting on and memory untroubled, its child count is
/// exactly the number of walked entries that are its immediate children.
pub proof fn lemma_scan_result_dir_totals(
    root: Seq<char>,
    args: Args,
    pats: Seq<Seq<char>>,
    sort_key: SortKey,
    snapshot: Seq<SnapshotEntry>,
    samples: Seq<Option<u64>>,
    limit: Option<u64>,
    result: ScanResult,
    save: Option<Vec<CacheEntry>>,
    idx: int,
)
    requires
        scan_spec(
            root,
            args,
            pats,
            sort_key,
            snapshot,
            Seq::<CacheEntry>::empty(),
            samples,
            limit,
            result,
            save,
        ),
        0 <= idx < result.entries@.len(),
        result.entries@[idx].entry_type == EntryType::Dir,
    ensures
        ({
            let eff = effective_snapshot(snapshot, root);
            let m = walk_upto(
                eff,
                Seq::<CacheEntry>::empty(),
                root,
                pats,
                args.exclude.deep_view(),
                args.no_cache,
                spec_memory_check_interval(args.memory_check_interval_ms),
                samples,
                limit,
                eff.len() as int,
            );
            let e = result.entries@[idx];
            &&& e.size == sat64(files_sum_under(m.walked, e.path@))
            &&& (args.show_inodes && !m.nearing ==> e.inodes == Some(
                sat64(walked_children(m.walked, e.path@)) as u64,
            ))
            &&& (!args.show_inodes ==> e.inodes is None)
        }),
{
    broadcast use vstd::seq_lib::group_to_multiset_ensures;

    let names = args.exclude.deep_view();
    let eff = effective_snapshot(snapshot, root);
    let n = eff.len() as int;
    let k = spec_memory_check_interval(args.memory_check_interval_ms);
    let cache = Seq::<CacheEntry>::empty();
    let m = walk_upto(eff, cache, root, pats, names, args.no_cache, k, samples, limit, n);
    lemma_walk_empty_cache_no_hits(
        eff,
        cache,
        root,
        pats,
        names,
        args.no_cache,
        k,
        samples,
        limit,
        n,
    );
    assert(m.hit_entries =~= Seq::<CacheEntry>::empty());
    let we = walked_entries_model(m.walked, m.hit_entries, args.show_owner, args.show_inodes, m.nearing);
    let he = hits_entries_model(
        m.hit_entries,
        cache,
        eff,
        root,
        pats,
        names,
        args.depth,
        args.show_owner,
    );
    assert(he =~= Seq::<FileEntry>::empty());
    let model = we + he;
    assert(model =~= we);
    let x = result.entries@[idx];
    assert(result.entries@.contains(x));
    assert(result.entries@.to_multiset().count(x) > 0);
    assert(model.to_multiset().count(x) > 0);
    assert(model.contains(x));
    let midx = choose|j: int| 0 <= j < model.len() && model[j] == x;
    assert(we[midx] == fe_of_walked(
        m.walked[midx],
        m.walked,
        m.hit_entries,
        args.show_owner,
        args.show_inodes,
        m.nearing,
    ));
    assert(m.walked[midx].entry_type == EntryType::Dir);
    assert(hits_sum_under(m.hit_entries, x.path@) == 0);
    assert(hit_children(m.hit_entries, x.path@) == 0);
    lemma_files_sum_nonneg(m.walked, x.path@);
    lemma_hits_sum_nonneg(m.hit_entries, x.path@);
    if args.show_inodes && !m.nearing {
        lemma_walked_children_nonneg(m.walked, x.path@);
        lemma_hit_children_nonneg(m.hit_entries, x.path@);
    }
}

} // verus!

verus! {

/// The emitted entries of the cache-served part contain each hit
/// directory's rendering, and each restored descendant's.
proof fn lemma_hits_entries_contain(
    hs: Seq<CacheEntry>,
    cache: Seq<CacheEntry>,
    snap: Seq<SnapshotEntry>,
    root: Seq<char>,
    pats: Seq<Seq<char>>,
    names: Seq<Seq<char>>,
    depth: Option<usize>,
    show_owner: bool,
    j: int,
)
    requires
        0 <= j < hs.len(),
    ensures
        hits_entries_model(hs, cache, snap, root, pats, names, depth, show_owner).contains(
            fe_of_cached(hs[j], snap, show_owner),
        ),
        forall|u: int|
            0 <= u < cache.len() && restore_pred(root, pats, names, depth, hs[j], #[trigger] cache[u])
                ==> hits_entries_model(hs, cache, snap, root, pats, names, depth, show_owner).contains(
                fe_of_cached(cache[u], snap, show_owner),
            ),
    decreases hs.len(),
{
    broadcast use vstd::seq_lib::group_filter_ensures;

    let model = hits_entries_model(hs, cache, snap, root, pats, names, depth, show_owner);
    let block = hit_block_entries(hs[0], cache, snap, root, pats, names, depth, show_owner);
    let rest = hits_entries_model(hs.skip(1), cache, snap, root, pats, names, depth, show_owner);
    assert(model == block + rest);
    if j == 0 {
        assert(block[0] == fe_of_cached(hs[0], snap, show_owner));
        assert(model[0] == fe_of_cached(hs[0], snap, show_owner));
        let pred = |u: CacheEntry| restore_pred(root, pats, names, depth, hs[0], u);
        let filtered = cache.filter(pred);
        let mapped = filtered.map_values(|u: CacheEntry| fe_of_cached(u, snap, show_owner));
        assert forall|u: int|
            0 <= u < cache.len() && restore_pred(
                root,
                pats,
                names,
                depth,
                hs[0],
                #[trigger] cache[u],
            ) implies model.contains(fe_of_cached(cache[u], snap, show_owner)) by {
            cache.lemma_filter_contains(pred, u);
            assert(filtered.contains(cache[u]));
            let fi = choose|fi: int| 0 <= fi < filtered.len() && filtered[fi] == cache[u];
            assert(mapped[fi] == fe_of_cached(cache[u], snap, show_owner));
            assert(block[1 + fi] == mapped[fi]);
            assert(model[1 + fi] == block[1 + fi]);
        }
    } else {
        lemma_hits_entries_contain(
            hs.skip(1),
            cache,
            snap,
            root,
            pats,
            names,
            depth,
            show_owner,
            j - 1,
        );
        assert(hs.skip(1)[j - 1] == hs[j]);
        assert forall|x: FileEntry| rest.contains(x) implies model.contains(x) by {
            let ri = choose|ri: int| 0 <= ri < rest.len() && rest[ri] == x;
            assert(model[block.len() + ri] == x);
        }
    }
}

/// Cache reuse reproduces cached values: every directory a scan serves
/// from the cache appears in the result exactly as the cache recorded it -
/// same path, size, child count and kind, with the owner name the walk
/// resolved for that path - and so does every cached entry restored from
/// under it that survives the current filters. This is what makes a
/// re-scan of an unchanged tree reproduce the previous scan's entries.
pub proof fn lemma_hit_dirs_reproduced(
    root: Seq<char>,
    args: Args,
    pats: Seq<Seq<char>>,
    sort_key: SortKey,
    snapshot: Seq<SnapshotEntry>,
    cache: Seq<CacheEntry>,
    samples: Seq<Option<u64>>,
    limit: Option<u64>,
    result: ScanResult,
    save: Option<Vec<CacheEntry>>,
    j: int,
)
    requires
        scan_spec(root, args, pats, sort_key, snapshot, cache, samples, limit, result, save),
        ({
            let eff = effective_snapshot(snapshot, root);
            let m = walk_upto(
                eff,
                cache,
                root,
                pats,
                args.exclude.deep_view(),
                args.no_cache,
                spec_memory_check_interval(args.memory_check_interval_ms),
                samples,
                limit,
                eff.len() as int,
            );
            0 <= j < m.hit_entries.len()
        }),
    ensures
        ({
            let eff = effective_snapshot(snapshot, root);
            let m = walk_upto(
                eff,
                cache,
                root,
                pats,
                args.exclude.deep_view(),
                args.no_cache,
                spec_memory_check_interval(args.memory_check_interval_ms),
                samples,
                limit,
                eff.len() as int,
            );
            result.entries@.contains(fe_of_cached(m.hit_entries[j], eff, args.show_owner))
        }),
{
    broadcast use vstd::seq_lib::group_to_multiset_ensures;

    let names = args.exclude.deep_view();
    let eff = effective_snapshot(snapshot, root);
    let n = eff.len() as int;
    let k = spec_memory_check_interval(args.memory_check_interval_ms);
    let m = walk_upto(eff, cache, root, pats, names, args.no_cache, k, samples, limit, n);
    let we = walked_entries_model(m.walked, m.hit_entries, args.show_owner, args.show_inodes, m.nearing);
    let he = hits_entries_model(
        m.hit_entries,
        cache,
        eff,
        root,
        pats,
        names,
        args.depth,
        args.show_owner,
    );
    let model = we + he;
    lemma_hits_entries_contain(
        m.hit_entries,
        cache,
        eff,
        root,
        pats,
        names,
        args.depth,
        args.show_owner,
        j,
    );
    let x = fe_of_cached(m.hit_entries[j], eff, args.show_owner);
    let hi = choose|hi: int| 0 <= hi < he.len() && he[hi] == x;
    assert(model[we.len() + hi] == x);
    assert(model.contains(x));
    assert(model.to_multiset().count(x) > 0);
    assert(result.entries@.to_multiset().count(x) > 0);
}

} // verus!

verus! {

/// Everything the walk visits reaches the result: for every walked entry
/// the result holds its composed record, with the aggregated size and
/// child count its path determines.
pub proof fn lemma_walked_entries_reproduced(
    root: Seq<char>,
    args: Args,
    pats: Seq<Seq<char>>,
    sort_key: SortKey,
    snapshot: Seq<SnapshotEntry>,
    cache: Seq<CacheEntry>,
    samples: Seq<Option<u64>>,
    limit: Option<u64>,
    result: ScanResult,
    save: Option<Vec<CacheEntry>>,
    j: int,
)
    requires
        scan_spec(root, args, pats, sort_key, snapshot, cache, samples, limit, result, save),
        ({
            let eff = effective_snapshot(snapshot, root);
            let m = walk_upto(
                eff,
                cache,
                root,
                pats,
                args.exclude.deep_view(),
                args.no_cache,
                spec_memory_check_interval(args.memory_check_interval_ms),
                samples,
                limit,
                eff.len() as int,
            );
            0 <= j < m.walked.len()
        }),
    ensures
        ({
            let eff = effective_snapshot(snapshot, root);
            let m = walk_upto(
                eff,
                cache,
                root,
                pats,
                args.exclude.deep_view(),
                args.no_cache,
                spec_memory_check_interval(args.memory_check_interval_ms),
                samples,
                limit,
                eff.len() as int,
            );
            result.entries@.contains(
                fe_of_walked(
                    m.walked[j],
                    m.walked,
                    m.hit_entries,
                    args.show_owner,
                    args.show_inodes,
                    m.nearing,
                ),
            )
        }),
{
    broadcast use vstd::seq_lib::group_to_multiset_ensures;

    let names = args.exclude.deep_view();
    let eff = effective_snapshot(snapshot, root);
    let n = eff.len() as int;
    let k = spec_memory_check_interval(args.memory_check_interval_ms);
    let m = walk_upto(eff, cache, root, pats, names, args.no_cache, k, samples, limit, n);
    let we = walked_entries_model(m.walked, m.hit_entries, args.show_owner, args.show_inodes, m.nearing);
    let he = hits_entries_model(
        m.hit_entries,
        cache,
        eff,
        root,
        pats,
        names,
        args.depth,
        args.show_owner,
    );
    let model = we + he;
    let x = fe_of_walked(m.walked[j], m.walked, m.hit_entries, args.show_owner, args.show_inodes, m.nearing);
    assert(we[j] == x);
    assert(model[j] == x);
    assert(model.contains(x));
    assert(model.to_multiset().count(x) > 0);
    assert(result.entries@.to_multiset().count(x) > 0);
}

} // verus!

verus! {

/// Restoration is faithful: every cached entry lying strictly under a
/// cache-served directory that the depth filter admits and the exclude
/// rules accept appears in the result exactly as the cache recorded it.
/// Together with the laws on served directories and walked entries, this
/// is why an incremental re-scan preserves the previous scan's listing.
pub proof fn lemma_restored_entries_reproduced(
    root: Seq<char>,
    args: Args,
    pats: Seq<Seq<char>>,
    sort_key: SortKey,
    snapshot: Seq<SnapshotEntry>,
    cache: Seq<CacheEntry>,
    samples: Seq<Option<u64>>,
    limit: Option<u64>,
    result: ScanResult,
    save: Option<Vec<CacheEntry>>,
    j: int,
    u: int,
)
    requires
        scan_spec(root, args, pats, sort_key, snapshot, cache, samples, limit, result, save),
        ({
            let eff = effective_snapshot(snapshot, root);
            let m = walk_upto(
                eff,
                cache,
                root,
                pats,
                args.exclude.deep_view(),
                args.no_cache,
                spec_memory_check_interval(args.memory_check_interval_ms),
                samples,
                limit,
                eff.len() as int,
            );
            &&& 0 <= j < m.hit_entries.len()
            &&& 0 <= u < cache.len()
            &&& restore_pred(
                root,
                pats,
                args.exclude.deep_view(),
                args.depth,
                m.hit_entries[j],
                cache[u],
            )
        }),
    ensures
        result.entries@.contains(
            fe_of_cached(cache[u], effective_snapshot(snapshot, root), args.show_owner),
        ),
{
    broadcast use vstd::seq_lib::group_to_multiset_ensures;

    let names = args.exclude.deep_view();
    let eff = effective_snapshot(snapshot, root);
    let n = eff.len() as int;
    let k = spec_memory_check_interval(args.memory_check_interval_ms);
    let m = walk_upto(eff, cache, root, pats, names, args.no_cache, k, samples, limit, n);
    let we = walked_entries_model(m.walked, m.hit_entries, args.show_owner, args.show_inodes, m.nearing);
    let he = hits_entries_model(
        m.hit_entries,
        cache,
        eff,
        root,
        pats,
        names,
        args.depth,
        args.show_owner,
    );
    let model = we + he;
    lemma_hits_entries_contain(
        m.hit_entries,
        cache,
        eff,
        root,
        pats,
        names,
        args.depth,
        args.show_owner,
        j,
    );
    let x = fe_of_cached(cache[u], eff, args.show_owner);
    assert(he.contains(x));
    let hi = choose|hi: int| 0 <= hi < he.len() && he[hi] == x;
    assert(model[we.len() + hi] == x);
    assert(model.contains(x));
    assert(model.to_multiset().count(x) > 0);
    assert(result.entries@.to_multiset().count(x) > 0);
}

} // verus!

verus! {

/// A found cache entry is one of the cache's elements.
proof fn lemma_find_cache_membership(cache: Seq<CacheEntry>, path: Seq<char>)
    ensures
        find_cache_by_path(cache, path) matches Some(c) ==> cache.contains(c),
    decreases cache.len(),
{
    if cache.len() > 0 {
        if cache[0].path@ == path {
            assert(cache[0] == find_cache_by_path(cache, path).unwrap());
        } else {
            lemma_find_cache_membership(cache.skip(1), path);
            match find_cache_by_path(cache.skip(1), path) {
                Some(c) => {
                    let i = choose|i: int|
                        0 <= i < cache.skip(1).len() && cache.skip(1)[i] == c;
                    assert(cache[i + 1] == c);
                },
                None => {},
            }
        }
    }
}

/// Every cache entry the walk collects for a served directory comes from
/// the cache itself, so its key is correct whenever the cache's keys are.
proof fn lemma_walk_hit_entries_from_cache(
    snap: Seq<SnapshotEntry>,
    cache: Seq<CacheEntry>,
    root: Seq<char>,
    pats: Seq<Seq<char>>,
    names: Seq<Seq<char>>,
    no_cache: bool,
    k: int,
    samples: Seq<Option<u64>>,
    limit: Option<u64>,
    n: int,
)
    ensures
        ({
            let m = walk_upto(snap, cache, root, pats, names, no_cache, k, samples, limit, n);
            forall|j: int| 0 <= j < m.hit_entries.len() ==> cache.contains(#[trigger] m.hit_entries[j])
        }),
    decreases n,
{
    if n > 0 {
        lemma_walk_hit_entries_from_cache(
            snap,
            cache,
            root,
            pats,
            names,
            no_cache,
            k,
            samples,
            limit,
            n - 1,
        );
        let m0 = walk_upto(snap, cache, root, pats, names, no_cache, k, samples, limit, n - 1);
        let e = snap[n - 1];
        if !m0.exceeded && visible(snap, cache, root, pats, names, no_cache, e.path@)
            && cache_hit_at(snap, cache, root, no_cache, e.path@) {
            lemma_find_cache_membership(cache, e.path@);
        }
    }
}

/// Every cache this scanner saves is keyed by the hash of each entry's
/// path, provided the cache it loaded was - and the load always rekeys.
pub proof fn lemma_saved_cache_is_keyed_by_path_hash(
    root: Seq<char>,
    args: Args,
    pats: Seq<Seq<char>>,
    sort_key: SortKey,
    snapshot: Seq<SnapshotEntry>,
    cache: Seq<CacheEntry>,
    samples: Seq<Option<u64>>,
    limit: Option<u64>,
    result: ScanResult,
    save: Option<Vec<CacheEntry>>,
    idx: int,
)
    requires
        scan_spec(root, args, pats, sort_key, snapshot, cache, samples, limit, result, save),
        forall|j: int|
            0 <= j < cache.len() ==> (#[trigger] cache[j]).path_hash == path_hash_spec(
                cache[j].path@,
            ),
        save matches Some(nc) && 0 <= idx < nc@.len(),
    ensures
        save matches Some(nc) && nc@[idx].path_hash == path_hash_spec(nc@[idx].path@),
{
    let names = args.exclude.deep_view();
    let eff = effective_snapshot(snapshot, root);
    let n = eff.len() as int;
    let k = spec_memory_check_interval(args.memory_check_interval_ms);
    let m = walk_upto(eff, cache, root, pats, names, args.no_cache, k, samples, limit, n);
    lemma_walk_hit_entries_from_cache(
        eff,
        cache,
        root,
        pats,
        names,
        args.no_cache,
        k,
        samples,
        limit,
        n,
    );
    assert forall|j: int|
        0 <= j < m.hit_entries.len() implies (#[trigger] m.hit_entries[j]).path_hash
        == path_hash_spec(m.hit_entries[j].path@) by {
        assert(cache.contains(m.hit_entries[j]));
        let ci = choose|ci: int| 0 <= ci < cache.len() && cache[ci] == m.hit_entries[j];
        assert(cache[ci].path_hash == path_hash_spec(cache[ci].path@));
    }
    lemma_new_cache_hashes(m.walked, m.hit_entries, cache, args.show_inodes, m.nearing, idx);
}

} // verus!

verus! {

/// Every entry of a scan's result has one of two shapes: the composed
/// record of some walked entry - a directory then carries the clamped
/// total of the walked files and cache-served subtrees strictly under its
/// path, and its observed child count when counting is on - or a record
/// of the cache-served part, emitted from cached values. This is the
/// subtree-sum and child-count judgment in its general form, cache reuse
/// included.
pub proof fn lemma_scan_result_entry_forms(
    root: Seq<char>,
    args: Args,
    pats: Seq<Seq<char>>,
    sort_key: SortKey,
    snapshot: Seq<SnapshotEntry>,
    cache: Seq<CacheEntry>,
    samples: Seq<Option<u64>>,
    limit: Option<u64>,
    result: ScanResult,
    save: Option<Vec<CacheEntry>>,
    idx: int,
)
    requires
        scan_spec(root, args, pats, sort_key, snapshot, cache, samples, limit, result, save),
        0 <= idx < result.entries@.len(),
    ensures
        ({
            let eff = effective_snapshot(snapshot, root);
            let m = walk_upto(
                eff,
                cache,
                root,
                pats,
                args.exclude.deep_view(),
                args.no_cache,
                spec_memory_check_interval(args.memory_check_interval_ms),
                samples,
                limit,
                eff.len() as int,
            );
            ||| exists|j: int|
                0 <= j < m.walked.len() && result.entries@[idx] == fe_of_walked(
                    #[trigger] m.walked[j],
                    m.walked,
                    m.hit_entries,
                    args.show_owner,
                    args.show_inodes,
                    m.nearing,
                )
            ||| hits_entries_model(
                m.hit_entries,
                cache,
                eff,
                root,
                pats,
                args.exclude.deep_view(),
                args.depth,
                args.show_owner,
            ).contains(result.entries@[idx])
        }),
{
    broadcast use vstd::seq_lib::group_to_multiset_ensures;

    let names = args.exclude.deep_view();
    let eff = effective_snapshot(snapshot, root);
    let n = eff.len() as int;
    let k = spec_memory_check_interval(args.memory_check_interval_ms);
    let m = walk_upto(eff, cache, root, pats, names, args.no_cache, k, samples, limit, n);
    let we = walked_entries_model(m.walked, m.hit_entries, args.show_owner, args.show_inodes, m.nearing);
    let he = hits_entries_model(
        m.hit_entries,
        cache,
        eff,
        root,
        pats,
        names,
        args.depth,
        args.show_owner,
    );
    let model = we + he;
    let x = result.entries@[idx];
    assert(result.entries@.contains(x));
    assert(result.entries@.to_multiset().count(x) > 0);
    assert(model.to_multiset().count(x) > 0);
    assert(model.contains(x));
    let midx = choose|j: int| 0 <= j < model.len() && model[j] == x;
    if midx < we.len() {
        assert(we[midx] == fe_of_walked(
            m.walked[midx],
            m.walked,
            m.hit_entries,
            args.show_owner,
            args.show_inodes,
            m.nearing,
        ));
    } else {
        assert(he[midx - we.len()] == x);
        assert(he.contains(x));
    }
}

} // verus!
