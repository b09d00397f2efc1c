use rudu::cache::{Cache, CacheEntry, CacheHeader};
use rudu::cli::{Args, SortKey};
use rudu::data::EntryType;
use rudu::hash::calculate_path_hash;
use rudu::thread_pool::ThreadPoolStrategy;

fn now_secs() -> u64 {
    std::time::SystemTime::now()
        .duration_since(std::time::SystemTime::UNIX_EPOCH)
        .unwrap()
        .as_secs()
}

#[test]
fn test_cache_header_creation() {
    let root = String::from("/test/root");
    let header = CacheHeader::new(root.clone(), now_secs());

    assert_eq!(header.root_path, root);
    assert_eq!(header.rudu_version, "1.4.0");
    assert!(header.creation_time > 0);
}

#[test]
fn test_cache_entry_creation() {
    let path = String::from("/test/file");
    let entry = CacheEntry::new(
        12345,
        path.clone(),
        1024,
        1234567890,
        2,
        Some(42),
        Some(1000),
        EntryType::File,
    );

    assert_eq!(entry.path_hash, 12345);
    assert_eq!(entry.path, path);
    assert_eq!(entry.size, 1024);
    assert_eq!(entry.mtime, 1234567890);
    assert_eq!(entry.nlink, 2);
    assert_eq!(entry.inode_cnt, Some(42));
    assert_eq!(entry.owner, Some(1000));
    assert_eq!(entry.entry_type, EntryType::File);
}

#[test]
fn test_cache_entry_validity() {
    let entry = CacheEntry::new(
        12345,
        String::from("/test/file"),
        1024,
        1234567890,
        2,
        Some(42),
        Some(1000),
        EntryType::File,
    );

    // Valid case
    assert!(entry.is_valid(1234567890, 2));

    // Invalid cases
    assert!(!entry.is_valid(1234567891, 2)); // Different mtime
    assert!(!entry.is_valid(1234567890, 3)); // Different nlink
}

#[test]
fn test_cache_operations() {
    let root = String::from("/test/root");
    let mut cache = Cache::new(root.clone(), now_secs());

    assert!(cache.is_empty());
    assert_eq!(cache.len(), 0);

    let entry = CacheEntry::new(
        12345,
        String::from("/test/file"),
        1024,
        1234567890,
        2,
        Some(42),
        Some(1000),
        EntryType::File,
    );

    cache.add_entry(entry.clone());

    assert!(!cache.is_empty());
    assert_eq!(cache.len(), 1);

    let retrieved = cache.get_entry(12345);
    assert!(retrieved.is_some());
    assert_eq!(retrieved.unwrap().size, 1024);

    let missing = cache.get_entry(54321);
    assert!(missing.is_none());
}

#[test]
fn test_path_hash_calculation() {
    let path1 = String::from("/test/path1");
    let path2 = String::from("/test/path2");
    let path1_dup = String::from("/test/path1");

    let hash1 = calculate_path_hash(&path1);
    let hash2 = calculate_path_hash(&path2);
    let hash1_dup = calculate_path_hash(&path1_dup);

    assert_eq!(hash1, hash1_dup);
    assert_ne!(hash1, hash2);
}

#[test]
fn test_cache_invalidation_version_mismatch() {
    let root = String::from("/test/root");
    let mut header = CacheHeader::new(root.clone(), now_secs());

    // Test version mismatch
    header.rudu_version = "0.0.0".to_string();
    assert!(header.should_invalidate(&root, 604800, now_secs(), None));
}

#[test]
fn test_cache_invalidation_ttl_expired() {
    let root = String::from("/test/root");
    let mut header = CacheHeader::new(root.clone(), now_secs());

    // Set creation time to 8 days ago (TTL is 7 days = 604800 seconds)
    header.creation_time = now_secs() - 8 * 24 * 60 * 60; // 8 days ago

    assert!(header.should_invalidate(&root, 604800, now_secs(), None));

    // Test exact TTL boundary (cache created exactly TTL seconds ago)
    header.creation_time = now_secs() - 604800; // Exactly 7 days ago

    assert!(header.should_invalidate(&root, 604800, now_secs(), None)); // Should invalidate at TTL boundary
}

#[test]
fn test_cache_invalidation_path_mismatch() {
    let root = String::from("/test/root");
    let header = CacheHeader::new(root.clone(), now_secs());
    let different_root = String::from("/different/root");

    assert!(header.should_invalidate(&different_root, 604800, now_secs(), None));
}

#[test]
fn test_cache_invalidation_valid_cache() {
    let root = String::from("/test/root");
    let header = CacheHeader::new(root.clone(), now_secs());

    // Should be valid (same version, recent, same path)
    assert!(!header.should_invalidate(&root, 604800, now_secs(), None));
}

#[test]
fn test_default_values() {
    let args = Args::default();

    assert_eq!(args.path, String::from("."));
    assert_eq!(args.depth, None);
    assert_eq!(args.sort, SortKey::Name);
    assert_eq!(args.show_files, true);
    assert_eq!(args.exclude, Vec::<String>::new());
    assert_eq!(args.show_owner, false);
    assert_eq!(args.output, None);
    assert_eq!(args.threads, None);
    assert_eq!(args.show_inodes, false);
    assert_eq!(args.threads_strategy, ThreadPoolStrategy::Default);
    assert_eq!(args.no_cache, false);
    assert_eq!(args.cache_ttl, 604800);
    assert_eq!(args.profile, false);
    assert_eq!(args.memory_limit, None);
    assert_eq!(args.memory_check_interval_ms, 200);
}
