use rudu::cache::CacheEntry;
use rudu::codec::{decode_cache_file, encode_legacy};
use rudu::data::EntryType;
use rudu::hash::calculate_path_hash;
use rudu::store::{load_cache_from_bytes, save_cache_to_bytes};

fn entry(path: &str, size: u64) -> CacheEntry {
    let p = path.to_string();
    CacheEntry {
        path_hash: calculate_path_hash(&p),
        path: p,
        size,
        mtime: 1234567890,
        nlink: 2,
        inode_cnt: Some(3),
        owner: Some(1000),
        entry_type: EntryType::Dir,
    }
}

fn same_entry(a: &CacheEntry, b: &CacheEntry) -> bool {
    a.path_hash == b.path_hash && a.path == b.path && a.size == b.size && a.mtime == b.mtime
        && a.nlink == b.nlink && a.inode_cnt == b.inode_cnt && a.owner == b.owner
        && a.entry_type == b.entry_type
}

#[test]
fn save_then_load_reproduces_every_entry() {
    let root = "root".to_string();
    let entries = vec![entry("root", 350), entry("root/a", 300), entry("root/b", 50)];
    let bytes = save_cache_to_bytes(&root, entries.clone(), Some(77), 1_000_000);
    let loaded = load_cache_from_bytes(&bytes, &root, 604800, 1_000_000, Some(77), true);
    assert_eq!(loaded.len(), entries.len());
    for (a, b) in entries.iter().zip(loaded.iter()) {
        assert!(same_entry(a, b));
    }
}

#[test]
fn unicode_and_odd_paths_round_trip_unchanged() {
    let root = "root".to_string();
    let paths = vec![
        "root/\u{0444}\u{0430}\u{0439}\u{043b}.txt",
        "root/\u{6587}\u{4ef6}.txt",
        "root/file with spaces.txt",
        "root/file\twith\tcontrol",
        "root/special!@#$%^&*().txt",
    ];
    let entries: Vec<CacheEntry> = paths.iter().map(|p| entry(p, 5)).collect();
    let bytes = save_cache_to_bytes(&root, entries.clone(), None, 50);
    let loaded = load_cache_from_bytes(&bytes, &root, 100, 50, None, true);
    assert_eq!(loaded.len(), paths.len());
    for (a, b) in entries.iter().zip(loaded.iter()) {
        assert!(same_entry(a, b));
        assert_eq!(b.path_hash, calculate_path_hash(&b.path));
    }
}

#[test]
fn every_truncation_of_a_cache_file_loads_to_empty() {
    let root = "root".to_string();
    let entries = vec![entry("root", 350), entry("root/a", 300)];
    let bytes = save_cache_to_bytes(&root, entries, None, 50);
    for cut in 0..bytes.len() {
        let truncated: Vec<u8> = bytes[..cut].to_vec();
        let loaded = load_cache_from_bytes(&truncated, &root, 100, 50, None, true);
        assert!(loaded.is_empty(), "truncation at {} must load to empty", cut);
    }
}

#[test]
fn corrupted_bytes_load_to_empty() {
    let root = "root".to_string();
    let garbage = b"corrupted data".to_vec();
    let loaded = load_cache_from_bytes(&garbage, &root, 604800, 50, None, true);
    assert!(loaded.is_empty());
    assert!(decode_cache_file(&garbage).is_none());
}

#[test]
fn ttl_boundary_is_inclusive() {
    let root = "root".to_string();
    let entries = vec![entry("root", 350)];
    let bytes = save_cache_to_bytes(&root, entries, None, 1000);

    // exactly ttl seconds old: invalid
    let at_boundary = load_cache_from_bytes(&bytes, &root, 600, 1600, None, true);
    assert!(at_boundary.is_empty());

    // one second younger: still valid
    let just_inside = load_cache_from_bytes(&bytes, &root, 600, 1599, None, true);
    assert_eq!(just_inside.len(), 1);
}

#[test]
fn wrong_root_or_changed_root_mtime_invalidates() {
    let root = "root".to_string();
    let other = "other".to_string();
    let entries = vec![entry("root", 350)];
    let bytes = save_cache_to_bytes(&root, entries, Some(5), 1000);

    assert!(load_cache_from_bytes(&bytes, &other, 600, 1000, Some(5), true).is_empty());
    assert!(load_cache_from_bytes(&bytes, &root, 600, 1000, Some(6), true).is_empty());
    assert_eq!(load_cache_from_bytes(&bytes, &root, 600, 1000, None, true).len(), 1);
}

#[test]
fn disabled_cache_loads_to_empty() {
    let root = "root".to_string();
    let entries = vec![entry("root", 350)];
    let bytes = save_cache_to_bytes(&root, entries, None, 1000);
    assert!(load_cache_from_bytes(&bytes, &root, 600, 1000, None, false).is_empty());
}

#[test]
fn legacy_bare_entry_list_is_accepted_and_rekeyed() {
    let root = "root".to_string();
    let mut legacy_entries = vec![entry("root/x", 10), entry("root/y", 20)];
    // a legacy file may carry stale keys; the load recomputes them
    legacy_entries[0].path_hash = 999;
    let bytes = encode_legacy(&legacy_entries);

    let loaded = load_cache_from_bytes(&bytes, &root, 604800, 1000, None, true);
    assert_eq!(loaded.len(), 2);
    assert_eq!(loaded[0].path, "root/x");
    assert_eq!(loaded[0].path_hash, calculate_path_hash(&loaded[0].path));
    assert_eq!(loaded[1].size, 20);

    // saved again, the entries live under a regular header
    let resaved = save_cache_to_bytes(&root, loaded, None, 2000);
    let reloaded = load_cache_from_bytes(&resaved, &root, 604800, 2000, None, true);
    assert_eq!(reloaded.len(), 2);
}

#[test]
fn duplicate_paths_collapse_to_the_last_record() {
    let root = "root".to_string();
    let mut first = entry("root/p", 1);
    first.mtime = 11;
    let mut second = entry("root/p", 2);
    second.mtime = 22;
    let entries = vec![first, entry("root/q", 9), second];
    let bytes = save_cache_to_bytes(&root, entries, None, 50);
    let loaded = load_cache_from_bytes(&bytes, &root, 100, 50, None, true);
    assert_eq!(loaded.len(), 2);
    let p = loaded.iter().find(|e| e.path == "root/p").unwrap();
    assert_eq!(p.size, 2);
    assert_eq!(p.mtime, 22);
    assert!(loaded.iter().any(|e| e.path == "root/q"));
}
