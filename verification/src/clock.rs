//! The system clock, read in one place.

use vstd::prelude::*;

verus! {

/// Current time in seconds since the Unix epoch, as the system clock reports
/// it (`SystemTime::now().duration_since(UNIX_EPOCH)`); `None` when the clock
/// is set before the epoch.
#[verifier::external_body]
fn system_clock_secs() -> (r: Option<u64>) {
    match std::time::SystemTime::now().duration_since(std::time::UNIX_EPOCH) {
        Ok(d) => Some(d.as_secs()),
        Err(_) => None,
    }
}

/// Seconds since the epoch, 0 when the clock is before the epoch. Two
/// readings may differ: nothing is claimed of the value.
pub fn now_secs() -> u64 {
    match system_clock_secs() {
        Some(s) => s,
        None => 0,
    }
}

} // verus!
