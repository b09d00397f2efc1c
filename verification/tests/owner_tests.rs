use rudu::owner::{passwd_entry_name, uid_fallback_name, OwnerCache};
use rudu::thread_pool::strategy_thread_count;
use rudu::thread_pool::ThreadPoolStrategy;

#[test]
fn uid_fallback_is_the_decimal_form() {
    assert_eq!(uid_fallback_name(0), "0");
    assert_eq!(uid_fallback_name(7), "7");
    assert_eq!(uid_fallback_name(1000), "1000");
    assert_eq!(uid_fallback_name(4294967295), "4294967295");
}

#[test]
fn passwd_line_yields_the_name_field() {
    assert_eq!(
        passwd_entry_name(&"root:x:0:0:root:/root:/bin/bash".to_string()),
        "root"
    );
    assert_eq!(passwd_entry_name(&"plainname".to_string()), "plainname");
    assert_eq!(passwd_entry_name(&":starts:with:colon".to_string()), "");
}

#[test]
fn owner_cache_memoizes_and_survives_a_crash() {
    let mut cache = OwnerCache::new();
    assert!(cache.probe(1000).is_none());

    let name = cache.record_resolved(1000, "user".to_string());
    assert_eq!(name, "user");
    assert_eq!(cache.probe(1000), Some("user".to_string()));

    // an unresolvable id memoizes its decimal form
    let fallback = cache.record_failed(1001);
    assert_eq!(fallback, "1001");
    assert_eq!(cache.probe(1001), Some("1001".to_string()));

    // a crash of the primary lookup flips every later probe to decimal
    let crashed = cache.record_crash(1002);
    assert_eq!(crashed, "1002");
    assert_eq!(cache.probe(1000), Some("1000".to_string()));
}

#[test]
fn strategy_thread_counts() {
    assert_eq!(
        strategy_thread_count(ThreadPoolStrategy::Default, 0, 8),
        Some(8)
    );
    assert_eq!(
        strategy_thread_count(ThreadPoolStrategy::Fixed, 4, 8),
        Some(4)
    );
    assert_eq!(strategy_thread_count(ThreadPoolStrategy::Fixed, 0, 8), None);
    assert_eq!(
        strategy_thread_count(ThreadPoolStrategy::NumCpusMinus1, 0, 8),
        Some(7)
    );
    assert_eq!(
        strategy_thread_count(ThreadPoolStrategy::NumCpusMinus1, 0, 1),
        Some(1)
    );
    assert_eq!(
        strategy_thread_count(ThreadPoolStrategy::IOHeavy, 0, 8),
        Some(16)
    );
    assert_eq!(
        strategy_thread_count(ThreadPoolStrategy::WorkStealingUneven, 0, 8),
        Some(8)
    );
}
