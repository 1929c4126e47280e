use std::time::{Duration, SystemTime, SystemTimeError};
use vstd::prelude::*;

verus! {

#[verifier::external_type_specification]
#[verifier::external_body]
pub struct ExSystemTime(SystemTime);

#[verifier::external_type_specification]
#[verifier::external_body]
pub struct ExSystemTimeError(SystemTimeError);

/// Relies on std's `SystemTime::now`: a reading of the system clock, of which
/// nothing is known in advance.
pub assume_specification[ SystemTime::now ]() -> SystemTime;

/// Relies on std's `Duration::subsec_nanos`: the fractional part of a second,
/// always less than one billion.
pub assume_specification[ Duration::subsec_nanos ](d: &Duration) -> (r: u32)
    ensures
        r < 1_000_000_000,
;

/// Relies on std's `SystemTime::duration_since` against the Unix epoch: an error
/// where the clock reads earlier than the epoch.
#[verifier::external_body]
fn since_unix_epoch(t: &SystemTime) -> (r: Result<Duration, SystemTimeError>) {
    t.duration_since(std::time::UNIX_EPOCH)
}

/// The whole microseconds in `nanos` nanoseconds.
pub fn micros_of(nanos: u32) -> (r: u32)
    requires
        nanos < 1_000_000_000,
    ensures
        r == nanos / 1000,
        r < 1_000_000,
{
    nanos / 1000
}

/// A number taken from the clock: the microseconds within the current second,
/// so always below one million. A clock set before the Unix epoch gives 0.
pub fn random_number() -> (r: u32)
    ensures
        r < 1_000_000,
{
    let now = SystemTime::now();
    match since_unix_epoch(&now) {
        Ok(d) => micros_of(d.subsec_nanos()),
        Err(_) => 0,
    }
}

} // verus!
