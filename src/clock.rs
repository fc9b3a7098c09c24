//! The wall clock, in milliseconds since the Unix epoch.
use vstd::prelude::*;

verus! {

/// Relies on `SystemTime::now().duration_since(UNIX_EPOCH)` and
/// `Duration::as_millis`: the milliseconds elapsed since the epoch, or none
/// where the clock reads earlier than the epoch. Nothing is known of the
/// value.
#[verifier::external_body]
fn read_clock_millis() -> (r: Option<u128>) {
    std::time::SystemTime::now().duration_since(std::time::UNIX_EPOCH).ok().map(|d| d.as_millis())
}

/// A clock reading as a timestamp: a clock set before the epoch reads as 0.
pub fn timestamp_from_reading(reading: Option<u128>) -> (r: u128)
    ensures
        r == match reading {
            Some(m) => m,
            None => 0,
        },
{
    match reading {
        Some(m) => m,
        None => 0,
    }
}

/// The current time in milliseconds since the Unix epoch, or 0 where the
/// clock reads earlier than the epoch.
pub fn current_timestamp_millis() -> u128 {
    timestamp_from_reading(read_clock_millis())
}

} // verus!
