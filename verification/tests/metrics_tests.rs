use rudu::memory::MemoryMonitor;
use rudu::metrics::{rss_after_phase, PhaseResult, ProfileData};
use rudu::thread_pool::ThreadPoolStrategy;

#[test]
fn test_memory_tracking() {
    let memory = rss_after_phase();
    // We can't assert exact values, but we can check that it returns some data
    // on most platforms
    match memory {
        Some(bytes) => assert!(bytes > 0),
        None => {
            // Memory tracking might not be available on all platforms
            println!("Memory tracking not available on this platform");
        }
    }
}

#[test]
fn test_unix_rss_should_return_some() {
    // On Unix-like systems, RSS should generally be available
    let memory = rss_after_phase();
    // We expect Some(bytes) on Unix systems, but allow None for edge cases
    // (like very restricted environments or system API failures)
    match memory {
        Some(bytes) => {
            assert!(bytes > 0, "RSS should be positive on Unix systems");
            println!("Unix RSS tracking working: {} bytes", bytes);
        }
        None => {
            println!("Unix RSS returned None - this may indicate a system issue");
            // Don't fail the test as some containerized environments might restrict access
        }
    }
}

#[test]
fn test_windows_rss_best_effort() {
    // RSS reporting is best-effort and may return None
    let memory = rss_after_phase();
    match memory {
        Some(bytes) => {
            assert!(bytes > 0, "RSS should be positive when available");
            println!("RSS tracking working: {} bytes (best-effort)", bytes);
        }
        None => {
            println!("RSS returned None - this is expected on some platforms");
        }
    }
}

#[test]
fn test_memory_monitor_handles_none_rss() {
    // Test that the system handles None RSS values gracefully
    // This simulates what happens on unsupported platforms or when RSS fails
    let mut profile = ProfileData::new();
    profile.memory_peak = None; // Simulates RSS returning None

    // Should not panic and should handle None gracefully
    let summary = format!("{:?}", profile);
    assert!(summary.contains("memory_peak: None"));

    println!("ProfileData handles None memory_peak gracefully");
}

#[test]
fn test_thread_pool_strategy_as_str() {
    assert_eq!(ThreadPoolStrategy::Default.as_str(), "Default");
    assert_eq!(ThreadPoolStrategy::Fixed.as_str(), "Fixed");
    assert_eq!(ThreadPoolStrategy::NumCpusMinus1.as_str(), "NumCpusMinus1");
    assert_eq!(ThreadPoolStrategy::IOHeavy.as_str(), "IOHeavy");
    assert_eq!(
        ThreadPoolStrategy::WorkStealingUneven.as_str(),
        "WorkStealingUneven"
    );
}

#[test]
fn test_memory_monitor_creation() {
    let monitor = MemoryMonitor::new(100); // 100MB limit
    assert_eq!(monitor.limit_bytes, 100 * 1024 * 1024);
    assert_eq!(monitor.check_interval_ms, 200); // Default interval
}

#[test]
fn test_memory_monitor_with_custom_interval() {
    let monitor = MemoryMonitor::new_with_interval(50, 500); // 50MB limit, 500ms interval
    assert_eq!(monitor.limit_bytes, 50 * 1024 * 1024);
    assert_eq!(monitor.check_interval_ms, 500);
}

#[test]
fn test_memory_monitor_with_mock_usage() {
    let monitor = MemoryMonitor::new(1); // 1 MB limit

    // Mocking the memory reading with controlled values
    let two_mb = 2 * 1024 * 1024;
    let slightly_less_than_one_mb = (0.98 * 1024.0 * 1024.0) as u64;
    let half_a_mb = 512 * 1024;

    // Simulate exceeding the limit
    assert!(monitor.exceeds_limit_with_mock(Some(two_mb)));

    // Simulate nearing the limit
    assert!(monitor.nearing_limit_with_mock(Some(slightly_less_than_one_mb)));

    // Simulate well below the limit
    assert!(!monitor.exceeds_limit_with_mock(Some(half_a_mb)));
    assert!(!monitor.nearing_limit_with_mock(Some(half_a_mb)));
}

#[test]
fn test_memory_monitor_basic_functionality() {
    let mut monitor = MemoryMonitor::new(1); // 1MB limit (very small for testing)

    // These should not panic and return boolean values
    let exceeds = monitor.exceeds_limit();
    let nearing = monitor.nearing_limit();

    assert!(exceeds || !exceeds); // Just ensure it returns a boolean
    assert!(nearing || !nearing); // Just ensure it returns a boolean
}

#[test]
fn test_memory_monitor_bypass_behavior() {
    // Test that None RSS values are handled correctly across all platforms
    let mut monitor = MemoryMonitor::new(10); // Very small limit

    // Even with a tiny limit, if RSS returns None, we should bypass checks
    let exceeds = monitor.exceeds_limit();
    let nearing = monitor.nearing_limit();

    // Results depend on platform, but should never panic
    assert!(!exceeds || exceeds); // Boolean check
    assert!(!nearing || nearing); // Boolean check

    println!("MemoryMonitor handles platform differences gracefully");
}

#[test]
fn test_total_duration_sums_phases() {
    let mut profile = ProfileData::new();
    profile.add_phase(PhaseResult {
        name: String::from("first"),
        duration_ms: 100,
    });
    profile.add_phase(PhaseResult {
        name: String::from("second"),
        duration_ms: 200,
    });
    profile.set_cache_stats(80, 100);

    assert_eq!(profile.phases.len(), 2);
    assert_eq!(profile.cache_hits, 80);
    assert_eq!(profile.cache_total, 100);
    assert_eq!(profile.total_duration(), 300);
}
