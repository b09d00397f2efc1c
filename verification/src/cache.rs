//! The scan cache: per-directory metadata remembered between scans.
//!
//! A cache maps path hashes to entries recording what a previous scan saw
//! for each path: allocated size, modification time and hard-link count.
//! An entry is valid against a currently observed directory exactly when
//! both `mtime` and `nlink` are unchanged. The whole cache is gated by a
//! header carrying the tool version, creation time, root path and the
//! root's own modification time.

use vstd::prelude::*;

verus! {

use crate::data::EntryType;
use crate::paths::str_equals;
use vstd::string::StringExecFns;

/// Version tag embedded in cache headers; caches written by another
/// version are invalid.
pub const TOOL_VERSION: &'static str = "1.4.0";

/// The version tag as a character sequence.
pub open spec fn spec_tool_version() -> Seq<char> {
    TOOL_VERSION@
}

/// The version tag as an owned string.
pub fn tool_version() -> (r: String)
    ensures
        r@ == spec_tool_version(),
{
    String::from_str(TOOL_VERSION)
}

/// Metadata about one cache file as a whole.
#[derive(Debug)]
pub struct CacheHeader {
    /// The root path the cache was built under.
    pub root_path: String,
    /// Unix seconds at which the cache was written.
    pub creation_time: u64,
    /// Version of the tool that wrote the cache.
    pub rudu_version: String,
    /// Modification time of the root when the cache was written.
    pub root_mtime: Option<u64>,
}

impl Clone for CacheHeader {
    fn clone(&self) -> (r: Self)
        ensures
            r == *self,
    {
        CacheHeader {
            root_path: self.root_path.clone(),
            creation_time: self.creation_time,
            rudu_version: self.rudu_version.clone(),
            root_mtime: self.root_mtime,
        }
    }
}

/// What a previous scan recorded for one path.
#[derive(Debug)]
pub struct CacheEntry {
    /// Hash of `path`, the on-disk primary key.
    pub path_hash: u64,
    /// The full path.
    pub path: String,
    /// Allocated size in bytes; for directories, the recursive sum.
    pub size: u64,
    /// Modification time at the previous scan.
    pub mtime: u64,
    /// Hard-link count at the previous scan.
    pub nlink: u64,
    /// Immediate child count, when it was computed.
    pub inode_cnt: Option<u64>,
    /// Owning user id, when it was known.
    pub owner: Option<u32>,
    /// Whether the path was a file or a directory.
    pub entry_type: EntryType,
}

impl Clone for CacheEntry {
    fn clone(&self) -> (r: Self)
        ensures
            r == *self,
    {
        CacheEntry {
            path_hash: self.path_hash,
            path: self.path.clone(),
            size: self.size,
            mtime: self.mtime,
            nlink: self.nlink,
            inode_cnt: self.inode_cnt,
            owner: self.owner,
            entry_type: self.entry_type,
        }
    }
}

impl CacheHeader {
    /// A fresh header for `root_path`, stamped with the caller's clock
    /// reading. The root's own modification time is left empty; a caller
    /// that knows it uses `new_with_mtime`.
    pub fn new(root_path: String, now: u64) -> (r: Self)
        ensures
            r.root_path == root_path,
            r.creation_time == now,
            r.rudu_version@ == spec_tool_version(),
            r.root_mtime is None,
    {
        CacheHeader {
            root_path,
            creation_time: now,
            rudu_version: tool_version(),
            root_mtime: None,
        }
    }

    /// A fresh header for `root_path` carrying the given root modification
    /// time, stamped with the caller's clock reading.
    pub fn new_with_mtime(root_path: String, root_mtime: Option<u64>, now: u64) -> (r: Self)
        ensures
            r.root_path == root_path,
            r.creation_time == now,
            r.rudu_version@ == spec_tool_version(),
            r.root_mtime == root_mtime,
    {
        CacheHeader {
            root_path,
            creation_time: now,
            rudu_version: tool_version(),
            root_mtime,
        }
    }

    /// Whether a cache under this header must be discarded, judged at time
    /// `now` against the requested root and its currently observed
    /// modification time. The time-to-live bound is inclusive: a cache
    /// exactly `ttl_seconds` old is already invalid.
    pub fn should_invalidate(
        &self,
        root_path: &String,
        ttl_seconds: u64,
        now: u64,
        current_root_mtime: Option<u64>,
    ) -> (r: bool)
        ensures
            r == spec_should_invalidate(*self, root_path@, ttl_seconds, now, current_root_mtime),
    {
        if !str_equals(self.rudu_version.as_str(), TOOL_VERSION) {
            return true;
        }
        if now.saturating_sub(self.creation_time) >= ttl_seconds {
            return true;
        }
        if !str_equals(self.root_path.as_str(), root_path.as_str()) {
            return true;
        }
        match current_root_mtime {
            Some(current) => match self.root_mtime {
                Some(cached) => current != cached,
                None => true,
            },
            None => false,
        }
    }
}

/// The invalidation judgment: version mismatch, age at or beyond the
/// time-to-live, a different root, or a root modification time that differs
/// from (or is missing in) the header.
pub open spec fn spec_should_invalidate(
    h: CacheHeader,
    root_path: Seq<char>,
    ttl_seconds: u64,
    now: u64,
    current_root_mtime: Option<u64>,
) -> bool {
    ||| h.rudu_version@ != spec_tool_version()
    ||| (if now >= h.creation_time {
        now - h.creation_time >= ttl_seconds
    } else {
        ttl_seconds == 0
    })
    ||| h.root_path@ != root_path
    ||| (match current_root_mtime {
        Some(current) => match h.root_mtime {
            Some(cached) => current != cached,
            None => true,
        },
        None => false,
    })
}

impl CacheEntry {
    /// An entry assembled from observed metadata.
    pub fn new(
        path_hash: u64,
        path: String,
        size: u64,
        mtime: u64,
        nlink: u64,
        inode_cnt: Option<u64>,
        owner: Option<u32>,
        entry_type: EntryType,
    ) -> (r: Self)
        ensures
            r == (CacheEntry { path_hash, path, size, mtime, nlink, inode_cnt, owner, entry_type }),
    {
        CacheEntry { path_hash, path, size, mtime, nlink, inode_cnt, owner, entry_type }
    }

    /// Whether the entry still describes a path whose observed modification
    /// time and hard-link count are as recorded.
    pub fn is_valid(&self, current_mtime: u64, current_nlink: u64) -> (r: bool)
        ensures
            r == (self.mtime == current_mtime && self.nlink == current_nlink),
    {
        self.mtime == current_mtime && self.nlink == current_nlink
    }
}

/// First position in `s` holding an entry keyed by `path_hash`.
pub open spec fn find_hash_index(s: Seq<CacheEntry>, path_hash: u64) -> Option<int>
    decreases s.len(),
{
    if s.len() == 0 {
        None
    } else if s[0].path_hash == path_hash {
        Some(0)
    } else {
        match find_hash_index(s.skip(1), path_hash) {
            Some(i) => Some(i + 1),
            None => None,
        }
    }
}

/// A whole cache: its header and the entries, keyed by path hash.
#[derive(Debug)]
pub struct Cache {
    /// Cache-wide metadata.
    pub header: CacheHeader,
    /// The recorded entries; path hashes are mutually distinct.
    pub entries: Vec<CacheEntry>,
}

impl Clone for Cache {
    fn clone(&self) -> (r: Self)
        ensures
            r.header == self.header,
            r.entries@ == self.entries@,
    {
        let mut entries: Vec<CacheEntry> = Vec::new();
        let mut i: usize = 0;
        while i < self.entries.len()
            invariant
                i <= self.entries@.len(),
                entries@ =~= self.entries@.take(i as int),
            decreases self.entries@.len() - i,
        {
            entries.push(self.entries[i].clone());
            i += 1;
        }
        proof {
            assert(self.entries@.take(self.entries@.len() as int) =~= self.entries@);
        }
        Cache { header: self.header.clone(), entries }
    }
}

impl Cache {
    /// An empty cache for `root_path` under a fresh header stamped with the
    /// caller's clock reading.
    pub fn new(root_path: String, now: u64) -> (r: Self)
        ensures
            r.header.root_path == root_path,
            r.header.creation_time == now,
            r.header.rudu_version@ == spec_tool_version(),
            r.entries@.len() == 0,
    {
        Cache { header: CacheHeader::new(root_path, now), entries: Vec::new() }
    }

    /// Record `entry` under its path hash, replacing any entry already
    /// keyed by the same hash.
    #[verifier::loop_isolation(false)]
    pub fn add_entry(&mut self, entry: CacheEntry)
        ensures
            match find_hash_index(old(self).entries@, entry.path_hash) {
                Some(i) => final(self).entries@ == old(self).entries@.update(i, entry),
                None => final(self).entries@ == old(self).entries@.push(entry),
            },
            final(self).header == old(self).header,
    {
        let ghost orig = *self;
        let n = self.entries.len();
        let mut i: usize = 0;
        proof {
            assert(self.entries@.skip(0) =~= self.entries@);
        }
        while i < n
            invariant
                i <= n,
                *self == orig,
                n == self.entries@.len(),
                forall|j: int| 0 <= j < i ==> self.entries@[j].path_hash != entry.path_hash,
                match find_hash_index(self.entries@.skip(i as int), entry.path_hash) {
                    Some(idx) => find_hash_index(self.entries@, entry.path_hash) == Some(idx + i),
                    None => find_hash_index(self.entries@, entry.path_hash) is None,
                },
            decreases n - i,
        {
            proof {
                assert(self.entries@.skip(i as int)[0] == self.entries@[i as int]);
                assert(self.entries@.skip(i as int).skip(1) =~= self.entries@.skip(i + 1));
            }
            if self.entries[i].path_hash == entry.path_hash {
                self.entries.set(i, entry);
                return ;
            }
            i += 1;
        }
        proof {
            assert(self.entries@.skip(n as int).len() == 0);
        }
        self.entries.push(entry);
    }

    /// The entry keyed by `path_hash`, if one is recorded.
    pub fn get_entry(&self, path_hash: u64) -> (r: Option<&CacheEntry>)
        ensures
            match find_hash_index(self.entries@, path_hash) {
                Some(i) => r matches Some(e) && *e == self.entries@[i],
                None => r is None,
            },
    {
        let n = self.entries.len();
        let mut i: usize = 0;
        proof {
            assert(self.entries@.skip(0) =~= self.entries@);
        }
        while i < n
            invariant
                i <= n,
                n == self.entries@.len(),
                forall|j: int| 0 <= j < i ==> self.entries@[j].path_hash != path_hash,
                match find_hash_index(self.entries@.skip(i as int), path_hash) {
                    Some(idx) => find_hash_index(self.entries@, path_hash) == Some(idx + i),
                    None => find_hash_index(self.entries@, path_hash) is None,
                },
            decreases n - i,
        {
            proof {
                assert(self.entries@.skip(i as int)[0] == self.entries@[i as int]);
                assert(self.entries@.skip(i as int).skip(1) =~= self.entries@.skip(i + 1));
            }
            if self.entries[i].path_hash == path_hash {
                return Some(&self.entries[i]);
            }
            i += 1;
        }
        proof {
            assert(self.entries@.skip(n as int).len() == 0);
        }
        None
    }

    /// Number of recorded entries.
    pub fn len(&self) -> (r: usize)
        ensures
            r == self.entries@.len(),
    {
        self.entries.len()
    }

    /// Whether no entry is recorded.
    pub fn is_empty(&self) -> (r: bool)
        ensures
            r == (self.entries@.len() == 0),
    {
        self.entries.len() == 0
    }
}

/// The process-wide cache on/off switch, carried as an explicit value so
/// that a host can thread it through a scan and tests can reset it.
#[derive(Debug, Clone, Copy, PartialEq, Eq, Structural)]
pub struct CacheSwitch {
    pub enabled: bool,
}

impl CacheSwitch {
    /// A switch in its initial, enabled state.
    pub fn new() -> (r: Self)
        ensures
            r.enabled,
    {
        CacheSwitch { enabled: true }
    }

    /// Turn caching on or off.
    pub fn set_enabled(&mut self, enabled: bool)
        ensures
            final(self).enabled == enabled,
    {
        self.enabled = enabled;
    }

    /// Whether caching is currently on.
    pub fn is_enabled(&self) -> (r: bool)
        ensures
            r == self.enabled,
    {
        self.enabled
    }
}

} // verus!
