//! The system clock, read by the parts of the library that measure time
//! against dates.

use vstd::prelude::*;
use std::time::{Duration, SystemTime};

verus! {

#[verifier::external_type_specification]
#[verifier::external_body]
pub struct ExSystemTime(SystemTime);

/// `std::time::SystemTime::now`. Nothing is stated of the result: it is the
/// clock.
#[verifier::external_body]
fn system_now() -> SystemTime {
    SystemTime::now()
}

/// `SystemTime::duration_since(UNIX_EPOCH)`: the time since the Unix epoch,
/// or `None` where `t` lies before it. Times are opaque here, so nothing is
/// stated of the result.
#[verifier::external_body]
fn since_unix_epoch(t: &SystemTime) -> Option<Duration> {
    match t.duration_since(std::time::UNIX_EPOCH) {
        Ok(d) => Some(d),
        Err(_) => None,
    }
}

/// `std::time::Duration::as_nanos`. A `Duration` holds its whole seconds in
/// a `u64`, so the nanoseconds divided by 10^9 fit in a `u64`; nothing more
/// is stated, durations being opaque here.
#[verifier::external_body]
pub(crate) fn duration_nanos(d: &Duration) -> (r: u128)
    ensures
        r / 1_000_000_000 <= u64::MAX,
{
    d.as_nanos()
}

/// The system clock as nanoseconds since the Unix epoch (`None` for a clock
/// set before it).
pub(crate) fn now_unix_nanos() -> (r: Option<u128>)
    ensures
        r matches Some(n) ==> n / 1_000_000_000 <= u64::MAX,
{
    let now = system_now();
    match since_unix_epoch(&now) {
        Some(d) => Some(duration_nanos(&d)),
        None => None,
    }
}

} // verus!
