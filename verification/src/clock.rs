//! Wall-clock access for cache timestamps and phase timing.

use vstd::prelude::*;

verus! {

/// Relies on std::time::SystemTime::now, read as whole milliseconds since
/// the Unix epoch; a clock before the epoch reads as zero. Nothing is
/// promised of the value: it depends on the machine's clock.
#[verifier::external_body]
pub fn unix_now_millis() -> u64 {
    std::time::SystemTime::now()
        .duration_since(std::time::SystemTime::UNIX_EPOCH)
        .unwrap_or_default()
        .as_millis() as u64
}

/// The clock in whole seconds since the Unix epoch.
pub fn unix_now_secs() -> u64 {
    unix_now_millis() / 1000
}

} // verus!
