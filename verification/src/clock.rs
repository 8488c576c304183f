//! Wall-clock time in milliseconds since the Unix epoch.
use vstd::prelude::*;

verus! {

/// Calls `std::time::SystemTime::now` and `duration_since(UNIX_EPOCH)`:
/// milliseconds since the epoch, 0 for a clock set before it. Nothing is
/// claimed of the value: it depends on the machine's clock.
#[verifier::external_body]
pub(crate) fn now_ms() -> u64 {
    std::time::SystemTime::now()
        .duration_since(std::time::UNIX_EPOCH)
        .map(|d| d.as_millis() as u64)
        .unwrap_or(0)
}

} // verus!
