//! The wall clock, read as whole milliseconds and seconds since the Unix
//! epoch.

use std::time::Duration;
use std::time::SystemTime;
use vstd::prelude::*;

verus! {

/// std's `SystemTime`: a reading of the system clock. Nothing is known of
/// what a value holds.
#[verifier::external_type_specification]
#[verifier::external_body]
pub struct ExSystemTime(SystemTime);

/// `SystemTime::now`: the reading of the system clock. Nothing is claimed of
/// it: two readings may differ in either direction.
#[verifier::external_body]
fn system_now() -> (t: SystemTime) {
    SystemTime::now()
}

/// `SystemTime::duration_since`, measured from `UNIX_EPOCH`: the time elapsed
/// from the epoch to `t`, or `None` where `t` lies before the epoch. Nothing
/// is claimed of the value.
#[verifier::external_body]
fn since_unix_epoch(t: &SystemTime) -> (d: Option<Duration>) {
    t.duration_since(std::time::UNIX_EPOCH).ok()
}

/// `Duration::as_millis`: the whole milliseconds in `d`. Nothing is claimed of
/// the value.
#[verifier::external_body]
fn whole_millis(d: &Duration) -> (ms: u128) {
    d.as_millis()
}

/// `Duration::as_secs`: the whole seconds in `d`. Nothing is claimed of the
/// value.
#[verifier::external_body]
fn whole_secs(d: &Duration) -> (s: u64) {
    d.as_secs()
}

/// Milliseconds since the Unix epoch, by the system clock. A clock set before
/// the epoch reads as 0, one beyond the range of `u64` as `u64::MAX`.
pub fn current_timestamp() -> (now: u64) {
    let t = system_now();
    let reading = match since_unix_epoch(&t) {
        Some(d) => {
            let ms = whole_millis(&d);
            Some(ms)
        },
        None => None,
    };
    // Nothing can be promised of a clock: what is made of its reading is
    // stated by `timestamp_from`.
    let now = timestamp_from(reading);
    now
}

/// Seconds since the Unix epoch, by the system clock. A clock set before the
/// epoch reads as 0.
pub fn current_seconds() -> (now: u64) {
    let t = system_now();
    match since_unix_epoch(&t) {
        Some(d) => seconds_from(Some(whole_secs(&d))),
        None => seconds_from(None),
    }
}

/// The timestamp that a reading of the clock gives: the milliseconds elapsed
/// since the epoch, held to the range of `u64`, and 0 for a clock set before
/// the epoch, which has no such reading.
pub open spec fn timestamp_of(elapsed_ms: Option<u128>) -> u64 {
    match elapsed_ms {
        Some(ms) => if ms > u64::MAX {
            u64::MAX
        } else {
            ms as u64
        },
        None => 0,
    }
}

/// The seconds that a reading of the clock gives: those elapsed since the
/// epoch, and 0 for a clock set before the epoch.
pub open spec fn seconds_of(elapsed: Option<u64>) -> u64 {
    match elapsed {
        Some(secs) => secs,
        None => 0,
    }
}

/// Makes a timestamp of a reading of the clock, given as the milliseconds
/// elapsed since the epoch, or `None` for a clock set before it.
pub fn timestamp_from(elapsed_ms: Option<u128>) -> (now: u64)
    ensures
        now == timestamp_of(elapsed_ms),
        elapsed_ms matches Some(ms) ==> (ms <= u64::MAX ==> now == ms),
{
    match elapsed_ms {
        Some(ms) => {
            if ms > 0xffff_ffff_ffff_ffffu128 {
                u64::MAX
            } else {
                ms as u64
            }
        },
        None => 0,
    }
}

/// Makes a count of seconds of a reading of the clock, given as the seconds
/// elapsed since the epoch, or `None` for a clock set before it.
pub fn seconds_from(elapsed: Option<u64>) -> (now: u64)
    ensures
        now == seconds_of(elapsed),
{
    match elapsed {
        Some(secs) => secs,
        None => 0,
    }
}

} // verus!
