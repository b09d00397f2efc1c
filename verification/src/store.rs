//! Loading and saving the cache, as pure functions over file bytes.
//!
//! The host reads and writes the actual file (atomically, under its lock);
//! the library decides everything else: how the bytes are laid out, when a
//! loaded cache is invalid, how a legacy file is lifted, and how entries
//! are rekeyed by their path hash on the way in.

use vstd::prelude::*;

verus! {

use crate::cache::{Cache, CacheEntry, CacheHeader, spec_tool_version, tool_version};
use crate::codec::{
    cache_model,
    dec_file,
    decode_cache_file,
    enc_cache,
    encode_cache,
    entry_model,
    entry_models,
    header_model,
    lemma_cache_file_round_trip,
    CacheModel,
    EntryModel,
    HeaderModel,
    LoadModel,
    LoadedCache,
    wf_cache_model,
    wf_entries,
};
use crate::hash::{path_hash, path_hash_spec};

/// The invalidation judgment over a ghost header.
pub open spec fn model_should_invalidate(
    h: HeaderModel,
    root_path: Seq<char>,
    ttl_seconds: u64,
    now: u64,
    current_root_mtime: Option<u64>,
) -> bool {
    ||| h.rudu_version != spec_tool_version()
    ||| (if now >= h.creation_time {
        now - h.creation_time >= ttl_seconds
    } else {
        ttl_seconds == 0
    })
    ||| h.root_path != root_path
    ||| (match current_root_mtime {
        Some(current) => match h.root_mtime {
            Some(cached) => current != cached,
            None => true,
        },
        None => false,
    })
}

/// Entries with their key recomputed from their path.
pub open spec fn rekeyed(ms: Seq<EntryModel>) -> Seq<EntryModel> {
    Seq::new(
        ms.len(),
        |i: int|
            EntryModel {
                path_hash: path_hash_spec(ms[i].path),
                path: ms[i].path,
                size: ms[i].size,
                mtime: ms[i].mtime,
                nlink: ms[i].nlink,
                inode_cnt: ms[i].inode_cnt,
                owner: ms[i].owner,
                entry_type: ms[i].entry_type,
            },
    )
}

/// Entries with duplicates by path collapsed, keeping the last record for
/// each path - the cache is a map keyed by path, and a later record
/// supersedes an earlier one.
pub open spec fn dedup_keep_last(ms: Seq<EntryModel>) -> Seq<EntryModel>
    decreases ms.len(),
{
    if ms.len() == 0 {
        Seq::empty()
    } else if exists|j: int| 1 <= j < ms.len() && (#[trigger] ms[j]).path == ms[0].path {
        dedup_keep_last(ms.skip(1))
    } else {
        seq![ms[0]] + dedup_keep_last(ms.skip(1))
    }
}

/// What loading a cache file yields: nothing when caching is off, when the
/// bytes do not decode, when a current-format header fails a validity
/// check, or when a legacy file meets a zero time-to-live (a lifted legacy
/// file is otherwise fresh by construction); else the stored entries,
/// rekeyed by their path hash, one per path with the last record winning.
pub open spec fn load_model(
    bytes: Seq<u8>,
    root: Seq<char>,
    ttl_seconds: u64,
    now: u64,
    current_root_mtime: Option<u64>,
    enabled: bool,
) -> Seq<EntryModel> {
    if !enabled {
        Seq::empty()
    } else {
        match dec_file(bytes) {
            None => Seq::empty(),
            Some(LoadModel::Current(m)) => if model_should_invalidate(
                m.header,
                root,
                ttl_seconds,
                now,
                current_root_mtime,
            ) {
                Seq::empty()
            } else {
                dedup_keep_last(rekeyed(m.entries))
            },
            Some(LoadModel::Legacy(es)) => if ttl_seconds == 0 {
                Seq::empty()
            } else {
                dedup_keep_last(rekeyed(es))
            },
        }
    }
}

/// Recompute each entry's key from its path.
fn rekey_entries(entries: Vec<CacheEntry>) -> (r: Vec<CacheEntry>)
    ensures
        entry_models(r@) == rekeyed(entry_models(entries@)),
{
    let mut r: Vec<CacheEntry> = Vec::new();
    let n = entries.len();
    let mut i: usize = 0;
    proof {
        assert(entry_models(r@) =~= rekeyed(entry_models(entries@)).take(0));
    }
    while i < n
        invariant
            i <= n,
            n == entries@.len(),
            entry_models(r@) == rekeyed(entry_models(entries@)).take(i as int),
        decreases n - i,
    {
        let e = &entries[i];
        let ne = CacheEntry {
            path_hash: path_hash(e.path.as_str()),
            path: e.path.clone(),
            size: e.size,
            mtime: e.mtime,
            nlink: e.nlink,
            inode_cnt: e.inode_cnt,
            owner: e.owner,
            entry_type: e.entry_type,
        };
        proof {
            assert(entry_model(ne) == rekeyed(entry_models(entries@))[i as int]);
        }
        let ghost prev = r@;
        r.push(ne);
        proof {
            let target = rekeyed(entry_models(entries@));
            assert(entry_models(prev).len() == prev.len());
            assert(prev.len() == i);
            assert(r@ == prev.push(ne));
            assert forall|j: int| 0 <= j < i + 1 implies entry_models(r@)[j] == target.take(i + 1)[j]
            by {
                if j < i {
                    assert(r@[j] == prev[j]);
                    assert(entry_models(r@)[j] == entry_model(prev[j]));
                    assert(entry_models(prev)[j] == entry_model(prev[j]));
                    assert(entry_models(prev)[j] == target.take(i as int)[j]);
                } else {
                    assert(r@[j] == ne);
                }
            }
            assert(entry_models(r@) =~= target.take(i + 1));
        }
        i += 1;
    }
    proof {
        assert(rekeyed(entry_models(entries@)).take(n as int) =~= rekeyed(entry_models(entries@)));
    }
    r
}

/// Drop every entry that a later entry with the same path supersedes.
#[verifier::loop_isolation(false)]
fn dedup_entries(entries: Vec<CacheEntry>) -> (r: Vec<CacheEntry>)
    ensures
        entry_models(r@) == dedup_keep_last(entry_models(entries@)),
{
    let ghost ms = entry_models(entries@);
    let mut r: Vec<CacheEntry> = Vec::new();
    let n = entries.len();
    let mut i: usize = 0;
    proof {
        assert(ms.skip(0) =~= ms);
        assert(entry_models(r@) + dedup_keep_last(ms) =~= dedup_keep_last(ms));
    }
    while i < n
        invariant
            i <= n,
            n == entries@.len(),
            entry_models(r@) + dedup_keep_last(ms.skip(i as int)) == dedup_keep_last(ms),
        decreases n - i,
    {
        let mut superseded = false;
        let mut j: usize = i + 1;
        while j < n
            invariant
                i < j <= n,
                n == entries@.len(),
                superseded == exists|x: int|
                    i < x < j && (#[trigger] entries@[x]).path@ == entries@[i as int].path@,
            decreases n - j,
        {
            if crate::paths::str_equals(entries[j].path.as_str(), entries[i].path.as_str()) {
                superseded = true;
            }
            j += 1;
        }
        proof {
            let tail = ms.skip(i as int);
            assert forall|x: int| 1 <= x < tail.len() implies tail[x] == ms[i + x] by {}
            assert(tail[0] == ms[i as int]);
            assert(superseded == exists|x: int|
                1 <= x < tail.len() && (#[trigger] tail[x]).path == tail[0].path) by {
                if superseded {
                    let w = choose|w: int|
                        i < w < n && (#[trigger] entries@[w]).path@ == entries@[i as int].path@;
                    assert(tail[w - i].path == tail[0].path);
                } else {
                    if exists|x: int| 1 <= x < tail.len() && (#[trigger] tail[x]).path
                        == tail[0].path {
                        let x = choose|x: int|
                            1 <= x < tail.len() && (#[trigger] tail[x]).path == tail[0].path;
                        assert(entries@[i + x].path@ == entries@[i as int].path@);
                    }
                }
            }
            assert(tail.skip(1) =~= ms.skip(i + 1));
        }
        if !superseded {
            let ghost prev = r@;
            r.push(entries[i].clone());
            proof {
                assert(entry_models(r@) =~= entry_models(prev) + seq![ms[i as int]]);
                assert(entry_models(prev) + (seq![ms[i as int]] + dedup_keep_last(ms.skip(i + 1)))
                    =~= (entry_models(prev) + seq![ms[i as int]]) + dedup_keep_last(ms.skip(i + 1)));
            }
        }
        i += 1;
    }
    proof {
        assert(ms.skip(n as int).len() == 0);
        assert(dedup_keep_last(ms.skip(n as int)) =~= Seq::<EntryModel>::empty());
        assert(entry_models(r@) + Seq::<EntryModel>::empty() =~= entry_models(r@));
    }
    r
}

/// Load a cache from file bytes: decode, validate, lift a legacy file,
/// rekey every entry by its path hash and keep one record per path.
/// Anything invalid or undecodable yields an empty cache; corruption is
/// never an error.
pub fn load_cache_from_bytes(
    bytes: &Vec<u8>,
    root: &String,
    ttl_seconds: u64,
    now: u64,
    current_root_mtime: Option<u64>,
    enabled: bool,
) -> (r: Vec<CacheEntry>)
    ensures
        entry_models(r@) == load_model(
            bytes@,
            root@,
            ttl_seconds,
            now,
            current_root_mtime,
            enabled,
        ),
{
    if !enabled {
        let r: Vec<CacheEntry> = Vec::new();
        proof {
            assert(entry_models(r@) =~= Seq::<EntryModel>::empty());
        }
        return r;
    }
    match decode_cache_file(bytes) {
        None => {
            let r: Vec<CacheEntry> = Vec::new();
            proof {
                assert(entry_models(r@) =~= Seq::<EntryModel>::empty());
            }
            r
        },
        Some(LoadedCache::Current(c)) => {
            if c.header.should_invalidate(root, ttl_seconds, now, current_root_mtime) {
                let r: Vec<CacheEntry> = Vec::new();
                proof {
                    assert(entry_models(r@) =~= Seq::<EntryModel>::empty());
                }
                r
            } else {
                dedup_entries(rekey_entries(c.entries))
            }
        },
        Some(LoadedCache::Legacy(es)) => {
            if ttl_seconds == 0 {
                let r: Vec<CacheEntry> = Vec::new();
                proof {
                    assert(entry_models(r@) =~= Seq::<EntryModel>::empty());
                }
                r
            } else {
                dedup_entries(rekey_entries(es))
            }
        },
    }
}

/// Whether these bytes hold a cache file that is corrupt or fails the
/// validity checks, so that the host may discard the file. A decodable,
/// valid file that merely holds no entries is not invalid.
pub open spec fn spec_cache_bytes_invalid(
    bytes: Seq<u8>,
    root: Seq<char>,
    ttl_seconds: u64,
    now: u64,
    current_root_mtime: Option<u64>,
) -> bool {
    match dec_file(bytes) {
        None => true,
        Some(LoadModel::Current(m)) => model_should_invalidate(
            m.header,
            root,
            ttl_seconds,
            now,
            current_root_mtime,
        ),
        Some(LoadModel::Legacy(es)) => ttl_seconds == 0,
    }
}

/// Judge whether a cache file's bytes are corrupt or stale.
pub fn cache_bytes_invalid(
    bytes: &Vec<u8>,
    root: &String,
    ttl_seconds: u64,
    now: u64,
    current_root_mtime: Option<u64>,
) -> (r: bool)
    ensures
        r == spec_cache_bytes_invalid(bytes@, root@, ttl_seconds, now, current_root_mtime),
{
    match decode_cache_file(bytes) {
        None => true,
        Some(LoadedCache::Current(c)) => c.header.should_invalidate(
            root,
            ttl_seconds,
            now,
            current_root_mtime,
        ),
        Some(LoadedCache::Legacy(_)) => ttl_seconds == 0,
    }
}

/// Serialize a new cache for `root`: a fresh header stamped `now` carrying
/// the root's modification time, and the given entries.
pub fn save_cache_to_bytes(
    root: &String,
    entries: Vec<CacheEntry>,
    root_mtime: Option<u64>,
    now: u64,
) -> (r: Vec<u8>)
    ensures
        r@ == enc_cache(
            CacheModel {
                header: HeaderModel {
                    root_path: root@,
                    creation_time: now,
                    rudu_version: spec_tool_version(),
                    root_mtime,
                },
                entries: entry_models(entries@),
            },
        ),
{
    let header = CacheHeader {
        root_path: root.clone(),
        creation_time: now,
        rudu_version: tool_version(),
        root_mtime,
    };
    let cache = Cache { header, entries };
    encode_cache(&cache)
}

/// Collapsing duplicates does nothing to a list whose paths are already
/// mutually distinct.
proof fn lemma_dedup_distinct(ms: Seq<EntryModel>)
    requires
        forall|i: int, j: int|
            0 <= i < j < ms.len() ==> (#[trigger] ms[i]).path != (#[trigger] ms[j]).path,
    ensures
        dedup_keep_last(ms) == ms,
    decreases ms.len(),
{
    if ms.len() > 0 {
        assert(!(exists|j: int| 1 <= j < ms.len() && (#[trigger] ms[j]).path == ms[0].path));
        lemma_dedup_distinct(ms.skip(1));
        assert(seq![ms[0]] + ms.skip(1) =~= ms);
    }
}

/// The save/load round trip: a cache saved for `root` and loaded back
/// under checks it passes yields exactly the entries that were saved,
/// provided their keys were correct - as every cache this library writes
/// is keyed - and their paths mutually distinct - as a scan's entries are.
pub proof fn lemma_save_load_round_trip(
    root: Seq<char>,
    entries: Seq<EntryModel>,
    root_mtime: Option<u64>,
    save_now: u64,
    ttl_seconds: u64,
    load_now: u64,
    current_root_mtime: Option<u64>,
)
    requires
        root.len() <= u64::MAX,
        wf_entries(entries),
        forall|i: int|
            0 <= i < entries.len() ==> (#[trigger] entries[i]).path_hash == path_hash_spec(
                entries[i].path,
            ),
        forall|i: int, j: int|
            0 <= i < j < entries.len() ==> (#[trigger] entries[i]).path != (#[trigger] entries[j]).path,
        !model_should_invalidate(
            HeaderModel {
                root_path: root,
                creation_time: save_now,
                rudu_version: spec_tool_version(),
                root_mtime,
            },
            root,
            ttl_seconds,
            load_now,
            current_root_mtime,
        ),
    ensures
        load_model(
            enc_cache(
                CacheModel {
                    header: HeaderModel {
                        root_path: root,
                        creation_time: save_now,
                        rudu_version: spec_tool_version(),
                        root_mtime,
                    },
                    entries,
                },
            ),
            root,
            ttl_seconds,
            load_now,
            current_root_mtime,
            true,
        ) == entries,
{
    let m = CacheModel {
        header: HeaderModel {
            root_path: root,
            creation_time: save_now,
            rudu_version: spec_tool_version(),
            root_mtime,
        },
        entries,
    };
    assert(wf_cache_model(m)) by {
        reveal_strlit("1.4.0");
    }
    lemma_cache_file_round_trip(m);
    assert(rekeyed(entries) =~= entries);
    lemma_dedup_distinct(rekeyed(entries));
}

} // verus!
