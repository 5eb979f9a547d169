//! The clock, as the one place the core touches the environment.

use vstd::prelude::*;

verus! {

/// Relies on SystemTime::now and duration_since: the seconds elapsed since
/// the Unix epoch by the system clock, or zero if the clock reads earlier
/// than the epoch. Nothing is promised of the value: every caller states
/// what holds whatever the clock returned.
#[verifier::external_body]
pub fn now() -> u64 {
    match std::time::SystemTime::now().duration_since(std::time::UNIX_EPOCH) {
        Ok(d) => d.as_secs(),
        Err(_) => 0,
    }
}

} // verus!
