//! The system clock.
use vstd::prelude::*;

verus! {

/// Whole seconds since the Unix epoch, as `SystemTime::now()` and
/// `SystemTime::duration_since(UNIX_EPOCH)` give them; `None` when the clock
/// reads a time before the epoch (the `Err` of `duration_since`). The value
/// depends on the time of the call, so nothing is promised of it.
#[verifier::external_body]
pub(crate) fn seconds_since_epoch() -> Option<u64> {
    std::time::SystemTime::now().duration_since(std::time::UNIX_EPOCH).ok().map(|d| d.as_secs())
}

} // verus!
