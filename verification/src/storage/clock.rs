//! The wall clock, read in nanoseconds since the Unix epoch; a reading
//! before the epoch is negative.

use vstd::prelude::*;

verus! {

/// `std::time::SystemTime`, a reading of the wall clock, held opaque.
#[verifier::external_type_specification]
#[verifier::external_body]
pub struct ExSystemTime(std::time::SystemTime);

/// `std::time::SystemTimeError`, held opaque: how far a reading lies before
/// the time it was measured from.
#[verifier::external_type_specification]
#[verifier::external_body]
pub struct ExSystemTimeError(std::time::SystemTimeError);

/// The most nanoseconds a `Duration` holds: `u64::MAX` seconds and
/// 999_999_999 nanoseconds (`Duration::MAX`).
pub open spec fn max_duration_nanos() -> int {
    18_446_744_073_709_551_615int * 1_000_000_000 + 999_999_999
}

/// Calls `std::time::SystemTime::now()`. Nothing is promised of the reading:
/// the clock is outside the program.
#[verifier::external_body]
fn system_now() -> (t: std::time::SystemTime) {
    std::time::SystemTime::now()
}

/// Calls `SystemTime::duration_since(UNIX_EPOCH)`: the time elapsed since
/// the epoch, or an error for a reading before it. Nothing more is promised.
#[verifier::external_body]
fn since_epoch(t: std::time::SystemTime) -> (r: Result<
    std::time::Duration,
    std::time::SystemTimeError,
>) {
    t.duration_since(std::time::UNIX_EPOCH)
}

/// Calls `SystemTimeError::duration`: how far the reading lay before the
/// epoch. The duration is opaque here, so nothing is promised.
#[verifier::external_body]
fn shortfall(e: std::time::SystemTimeError) -> (d: std::time::Duration) {
    e.duration()
}

/// Calls `Duration::as_nanos`: the total nanoseconds of a duration, which
/// no duration takes past `Duration::MAX`. Which number it is, is not
/// stated: the duration is opaque here.
#[verifier::external_body]
fn whole_nanos(d: std::time::Duration) -> (n: u128)
    ensures
        n <= max_duration_nanos(),
{
    d.as_nanos()
}

/// The clock's reading in nanoseconds since the Unix epoch, negative when
/// the clock stands before the epoch.
pub fn now_nanos() -> (t: i128)
    ensures
        -max_duration_nanos() <= t <= max_duration_nanos(),
{
    match since_epoch(system_now()) {
        Ok(d) => {
            let n = whole_nanos(d);
            n as i128
        },
        Err(e) => {
            let n = whole_nanos(shortfall(e));
            -(n as i128)
        },
    }
}

} // verus!
