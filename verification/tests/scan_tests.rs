use rudu::cache::CacheEntry;
use rudu::cli::{Args, SortKey};
use rudu::data::EntryType;
use rudu::globs::build_exclude_matcher;
use rudu::scan::{
    is_large_directory, scan_files_and_dirs, scan_files_and_dirs_incremental,
    scan_files_and_dirs_with_memory_monitor, scan_with_work_stealing, MemoryLimitStatus,
    ScanResult, SnapshotEntry,
};
use rudu::thread_pool::ThreadPoolStrategy;
use rudu::utils::expand_exclude_patterns;

fn file(path: &str, size: u64) -> SnapshotEntry {
    SnapshotEntry {
        path: path.to_string(),
        entry_type: EntryType::File,
        size,
        mtime: 1000,
        nlink: 1,
        owner_id: Some(1000),
        owner_name: Some("user".to_string()),
    }
}

fn dir(path: &str, mtime: u64, nlink: u64) -> SnapshotEntry {
    SnapshotEntry {
        path: path.to_string(),
        entry_type: EntryType::Dir,
        size: 0,
        mtime,
        nlink,
        owner_id: Some(1000),
        owner_name: Some("user".to_string()),
    }
}

fn small_tree() -> Vec<SnapshotEntry> {
    vec![
        dir("root", 1, 4),
        dir("root/a", 2, 2),
        file("root/a/f1", 100),
        file("root/a/f2", 200),
        dir("root/b", 3, 2),
        file("root/b/f3", 50),
    ]
}

fn scan_tree(
    snapshot: &Vec<SnapshotEntry>,
    cache: &Vec<CacheEntry>,
    args: &Args,
) -> (ScanResult, Option<Vec<CacheEntry>>) {
    let root = "root".to_string();
    let patterns = expand_exclude_patterns(&args.exclude);
    let matcher = build_exclude_matcher(&patterns).unwrap();
    scan_files_and_dirs_incremental(&root, args, &matcher, args.sort, snapshot, cache)
}

#[test]
fn small_tree_sorted_by_name_with_child_counts() {
    let snapshot = small_tree();
    let mut args = Args::default();
    args.show_inodes = true;
    let (res, save) = scan_tree(&snapshot, &Vec::new(), &args);

    let paths: Vec<&str> = res.entries.iter().map(|e| e.path.as_str()).collect();
    assert_eq!(
        paths,
        vec!["root", "root/a", "root/a/f1", "root/a/f2", "root/b", "root/b/f3"]
    );
    assert_eq!(res.entries[0].size, 350);
    assert_eq!(res.entries[1].size, 300);
    assert_eq!(res.entries[2].size, 100);
    assert_eq!(res.entries[3].size, 200);
    assert_eq!(res.entries[4].size, 50);
    assert_eq!(res.entries[5].size, 50);
    assert_eq!(res.entries[0].inodes, Some(2));
    assert_eq!(res.entries[1].inodes, Some(2));
    assert_eq!(res.entries[4].inodes, Some(1));
    assert_eq!(res.entries[2].inodes, None);
    assert_eq!(res.cache_hits, 0);
    assert!(save.is_some());
    assert_eq!(save.unwrap().len(), 6);
}

#[test]
fn rescan_of_unchanged_tree_hits_cache_and_reproduces_entries() {
    let snapshot = small_tree();
    let mut args = Args::default();
    args.show_inodes = true;
    let (first, save) = scan_tree(&snapshot, &Vec::new(), &args);
    let cache = save.unwrap();

    let (second, resave) = scan_tree(&snapshot, &cache, &args);

    // at least root/a and root/b are served from cache
    assert!(second.cache_hits >= 2);
    assert!(second.cache_total >= second.cache_hits);

    // the resulting entries equal those of the first scan
    assert_eq!(first.entries.len(), second.entries.len());
    for (a, b) in first.entries.iter().zip(second.entries.iter()) {
        assert_eq!(a.path, b.path);
        assert_eq!(a.size, b.size);
        assert_eq!(a.inodes, b.inodes);
        assert_eq!(a.entry_type, b.entry_type);
    }

    // and the carried-forward cache still covers the tree
    assert!(resave.is_some());

    // scanning twice in a row is deterministic
    let (third, _) = scan_tree(&snapshot, &cache, &args);
    assert_eq!(second.entries.len(), third.entries.len());
    for (a, b) in second.entries.iter().zip(third.entries.iter()) {
        assert_eq!(a.path, b.path);
        assert_eq!(a.size, b.size);
    }
}

#[test]
fn changed_directory_is_a_cache_miss_with_fresh_size() {
    let snapshot = small_tree();
    let mut args = Args::default();
    args.show_inodes = true;
    let (_, save) = scan_tree(&snapshot, &Vec::new(), &args);
    let cache = save.unwrap();

    // a byte lands in root/a/f1: the file grows and root/a's metadata moves
    let mut changed = small_tree();
    changed[1].mtime = 20; // root/a
    changed[2].size = 101; // root/a/f1

    let (res, _) = scan_tree(&changed, &cache, &args);

    // root/b still hits; root/a does not
    assert_eq!(res.cache_hits, 1);
    let a = res.entries.iter().find(|e| e.path == "root/a").unwrap();
    assert_eq!(a.size, 301);
    let root_entry = res.entries.iter().find(|e| e.path == "root").unwrap();
    assert_eq!(root_entry.size, 351);
    let f1 = res.entries.iter().find(|e| e.path == "root/a/f1").unwrap();
    assert_eq!(f1.size, 101);
}

#[test]
fn excluded_name_prunes_whole_subtree() {
    let snapshot = vec![
        dir("root", 1, 4),
        dir("root/node_modules", 2, 2),
        file("root/node_modules/junk", 77),
        dir("root/src", 3, 2),
        file("root/src/main", 10),
    ];
    let mut args = Args::default();
    args.exclude = vec!["node_modules".to_string()];
    let (res, _) = scan_tree(&snapshot, &Vec::new(), &args);

    let paths: Vec<&str> = res.entries.iter().map(|e| e.path.as_str()).collect();
    assert!(paths.contains(&"root"));
    assert!(paths.contains(&"root/src"));
    assert!(paths.contains(&"root/src/main"));
    assert!(!paths.contains(&"root/node_modules"));
    assert!(!paths.contains(&"root/node_modules/junk"));

    // the excluded subtree contributes nothing to the root's size
    let root_entry = res.entries.iter().find(|e| e.path == "root").unwrap();
    assert_eq!(root_entry.size, 10);
}

fn large_flat_tree(files: usize) -> Vec<SnapshotEntry> {
    let mut snap = vec![dir("root", 1, 2)];
    for i in 0..files {
        snap.push(file(&format!("root/f{:04}", i), 10));
    }
    snap
}

#[test]
fn memory_limit_hit_cuts_the_scan_short_and_writes_no_cache() {
    let snapshot = large_flat_tree(499); // root + 499 files = 500 survivors
    let root = "root".to_string();
    let mut args = Args::default();
    args.memory_check_interval_ms = 50; // check every 500 surviving entries
    args.memory_limit = Some(1);
    let matcher = build_exclude_matcher(&Vec::new()).unwrap();
    let samples = vec![Some(1_000_000u64)];
    let (res, save) = scan_files_and_dirs_with_memory_monitor(
        &root,
        &args,
        &matcher,
        args.sort,
        &snapshot,
        &Vec::new(),
        &samples,
        Some(1_000_000), // limit below the sampled resident set
    );

    assert!(res.memory_limit_hit);
    assert_eq!(res.memory_status, MemoryLimitStatus::MemoryLimitHit);
    assert!(save.is_none());
    // the 500th surviving entry was dropped when the limit tripped
    assert_eq!(res.entries.len(), 499);
}

#[test]
fn memory_nearing_sheds_child_counts_and_cache_write() {
    let snapshot = large_flat_tree(499);
    let root = "root".to_string();
    let mut args = Args::default();
    args.memory_check_interval_ms = 50;
    args.show_inodes = true;
    let matcher = build_exclude_matcher(&Vec::new()).unwrap();
    // at 96% of the limit: nearing, not exceeded
    let samples = vec![Some(960_000u64)];
    let (res, save) = scan_files_and_dirs_with_memory_monitor(
        &root,
        &args,
        &matcher,
        args.sort,
        &snapshot,
        &Vec::new(),
        &samples,
        Some(1_000_000),
    );

    assert!(!res.memory_limit_hit);
    assert_eq!(res.memory_status, MemoryLimitStatus::NearingLimit);
    assert!(save.is_none());
    assert_eq!(res.entries.len(), 500);
    let root_entry = res.entries.iter().find(|e| e.path == "root").unwrap();
    // child counting was shed: the count reads zero
    assert_eq!(root_entry.inodes, Some(0));
}

#[test]
fn no_cache_scan_reports_zero_cache_statistics() {
    let snapshot = small_tree();
    let mut args = Args::default();
    args.no_cache = true;
    let (_, save_first) = scan_tree(&snapshot, &Vec::new(), &Args::default());
    let cache = save_first.unwrap();
    let (res, save) = scan_tree(&snapshot, &cache, &args);

    assert_eq!(res.cache_hits, 0);
    assert_eq!(res.cache_total, 0);
    assert!(save.is_none());
    assert_eq!(res.entries.len(), 6);
}

#[test]
fn empty_snapshot_yields_empty_result() {
    let (res, _) = scan_tree(&Vec::new(), &Vec::new(), &Args::default());
    assert!(res.entries.is_empty());
    assert_eq!(res.cache_hits, 0);
    assert_eq!(res.cache_total, 0);
    assert!(!res.memory_limit_hit);
}

#[test]
fn zero_size_file_is_present_with_zero_size() {
    let snapshot = vec![dir("root", 1, 2), file("root/empty", 0)];
    let (res, _) = scan_tree(&snapshot, &Vec::new(), &Args::default());
    let e = res.entries.iter().find(|e| e.path == "root/empty").unwrap();
    assert_eq!(e.size, 0);
    assert_eq!(e.entry_type, EntryType::File);
}

#[test]
fn work_stealing_strategy_skips_the_cache() {
    let snapshot = small_tree();
    let root = "root".to_string();
    let mut args = Args::default();
    args.threads_strategy = ThreadPoolStrategy::WorkStealingUneven;
    args.show_inodes = true;
    let (_, save_first) = scan_tree(&snapshot, &Vec::new(), &Args::default());
    let cache = save_first.unwrap();
    let matcher = build_exclude_matcher(&Vec::new()).unwrap();

    let (res, save) =
        scan_files_and_dirs(&root, &args, &matcher, args.sort, &snapshot, &cache);
    assert_eq!(res.cache_hits, 0);
    assert_eq!(res.cache_total, 0);
    assert!(save.is_none());
    assert_eq!(res.entries.len(), 6);
    let a = res.entries.iter().find(|e| e.path == "root/a").unwrap();
    assert_eq!(a.size, 300);

    let direct = scan_with_work_stealing(&root, &args, &matcher, args.sort, &snapshot);
    assert_eq!(direct.entries.len(), 6);
    assert!(!is_large_directory(3));
    assert!(is_large_directory(10_001));
}

#[test]
fn sort_by_size_puts_largest_first() {
    let snapshot = small_tree();
    let mut args = Args::default();
    args.sort = SortKey::Size;
    let (res, _) = scan_tree(&snapshot, &Vec::new(), &args);
    for w in res.entries.windows(2) {
        assert!(w[0].size >= w[1].size);
    }
    assert_eq!(res.entries[0].path, "root");
}

#[test]
fn depth_filtered_listing_survives_a_cache_hit() {
    let snapshot = small_tree();
    let mut args = Args::default();
    args.show_inodes = true;
    let (_, save) = scan_tree(&snapshot, &Vec::new(), &args);
    let cache = save.unwrap();

    // re-scan with a depth limit: restored entries beyond it are dropped
    let mut deep_args = Args::default();
    deep_args.show_inodes = true;
    deep_args.depth = Some(1);
    let (res, _) = scan_tree(&snapshot, &cache, &deep_args);
    let paths: Vec<&str> = res.entries.iter().map(|e| e.path.as_str()).collect();
    assert!(paths.contains(&"root"));
    assert!(paths.contains(&"root/a"));
    assert!(paths.contains(&"root/b"));
    assert!(!paths.contains(&"root/a/f1"));
}

#[test]
fn verbatim_glob_on_a_directory_prunes_its_descendants() {
    // the pattern matches only the directory itself; its descendants are
    // pruned because an excluded ancestor cuts the walk, not because the
    // glob matches them
    let snapshot = vec![
        dir("root", 1, 3),
        dir("root/x.tmp", 2, 2),
        file("root/x.tmp/inner", 99),
        file("root/keep", 5),
    ];
    let mut args = Args::default();
    args.exclude = vec!["root/x.tmp".to_string()];
    let (res, _) = scan_tree(&snapshot, &Vec::new(), &args);

    let paths: Vec<&str> = res.entries.iter().map(|e| e.path.as_str()).collect();
    assert!(paths.contains(&"root"));
    assert!(paths.contains(&"root/keep"));
    assert!(!paths.contains(&"root/x.tmp"));
    assert!(!paths.contains(&"root/x.tmp/inner"));
    let root_entry = res.entries.iter().find(|e| e.path == "root").unwrap();
    assert_eq!(root_entry.size, 5);
}

#[test]
fn exhausted_memory_samples_never_trigger_the_monitor() {
    let snapshot = large_flat_tree(1200);
    let root = "root".to_string();
    let mut args = Args::default();
    args.memory_check_interval_ms = 50; // check every 500 surviving entries
    let matcher = build_exclude_matcher(&Vec::new()).unwrap();
    // one harmless sample; the second and later checks find none and pass
    let samples = vec![Some(10u64)];
    let (res, save) = scan_files_and_dirs_with_memory_monitor(
        &root,
        &args,
        &matcher,
        args.sort,
        &snapshot,
        &Vec::new(),
        &samples,
        Some(1_000_000),
    );
    assert!(!res.memory_limit_hit);
    assert_eq!(res.memory_status, MemoryLimitStatus::Normal);
    assert_eq!(res.entries.len(), 1201);
    assert!(save.is_some());
}

#[test]
fn rescan_with_owners_shown_reproduces_owner_names() {
    let snapshot = small_tree();
    let mut args = Args::default();
    args.show_owner = true;
    args.show_inodes = true;
    let (first, save) = scan_tree(&snapshot, &Vec::new(), &args);
    let cache = save.unwrap();

    let (second, _) = scan_tree(&snapshot, &cache, &args);
    assert!(second.cache_hits >= 2);
    assert_eq!(first.entries.len(), second.entries.len());
    for (a, b) in first.entries.iter().zip(second.entries.iter()) {
        assert_eq!(a.path, b.path);
        assert_eq!(a.size, b.size);
        assert_eq!(a.owner, b.owner);
        assert_eq!(a.inodes, b.inodes);
        assert_eq!(a.entry_type, b.entry_type);
    }
    // the owner really is carried, not merely equal-by-absence
    assert_eq!(second.entries[0].owner, Some("user".to_string()));
}

#[test]
fn childless_root_scans_to_an_empty_result() {
    let snapshot = vec![dir("root", 1, 2)];
    let (res, _) = scan_tree(&snapshot, &Vec::new(), &Args::default());
    assert!(res.entries.is_empty());
    assert_eq!(res.cache_hits, 0);
    assert_eq!(res.cache_total, 0);
}

#[test]
fn cached_file_entry_never_drives_a_skip() {
    // a cached FILE record at a directory's path, even with matching
    // metadata, is not a hit: only directory entries drive skip decisions
    let snapshot = small_tree();
    let mut args = Args::default();
    let (_, save) = scan_tree(&snapshot, &Vec::new(), &args);
    let mut cache = save.unwrap();
    for e in cache.iter_mut() {
        if e.path == "root/a" {
            e.entry_type = EntryType::File;
        }
    }
    let (res, _) = scan_tree(&snapshot, &cache, &args);
    // root/b still hits; root/a does not, and is recomputed
    assert_eq!(res.cache_hits, 1);
    let a = res.entries.iter().find(|e| e.path == "root/a").unwrap();
    assert_eq!(a.size, 300);
}
