//! Reading the system clock.
use std::time::{Duration, SystemTime};
use vstd::prelude::*;

verus! {

#[verifier::external_type_specification]
#[verifier::external_body]
pub struct ExSystemTime(SystemTime);

/// Relies on `SystemTime::now`: the system clock's reading; nothing is known of it.
#[verifier::external_body]
pub(crate) fn system_time_now() -> SystemTime {
    SystemTime::now()
}

/// Relies on `SystemTime::duration_since`: the span from `earlier` to `t`, or
/// nothing when `earlier` is the later of the two.
#[verifier::external_body]
pub(crate) fn duration_since(t: &SystemTime, earlier: &SystemTime) -> Option<Duration> {
    t.duration_since(*earlier).ok()
}

/// Relies on `SystemTime::UNIX_EPOCH`: the time of the Unix epoch.
#[verifier::external_body]
fn unix_epoch() -> SystemTime {
    SystemTime::UNIX_EPOCH
}

/// Relies on `Duration::as_secs`: the whole seconds of a span, which is opaque here.
pub assume_specification[ Duration::as_secs ](d: &Duration) -> u64;

/// Relies on `Duration::as_millis`: the whole milliseconds of a span, which is
/// opaque here.
pub assume_specification[ Duration::as_millis ](d: &Duration) -> u128;

/// Relies on `Duration::from_millis`: a span of `millis` milliseconds, which is
/// opaque here.
pub assume_specification[ Duration::from_millis ](millis: u64) -> Duration;

/// Whole seconds from the Unix epoch to `system_time`; 0 for a time before the epoch.
pub fn get_secs(system_time: &SystemTime) -> u64 {
    match duration_since(system_time, &unix_epoch()) {
        Some(d) => d.as_secs(),
        None => 0,
    }
}

/// Whole milliseconds from the Unix epoch to `system_time`; 0 for a time before
/// the epoch.
pub fn get_millis(system_time: &SystemTime) -> u128 {
    match duration_since(system_time, &unix_epoch()) {
        Some(d) => d.as_millis(),
        None => 0,
    }
}

/// Whole seconds from the Unix epoch to now.
pub fn get_current_secs() -> u64 {
    get_secs(&system_time_now())
}

/// Whole milliseconds from the Unix epoch to now.
pub fn get_current_millis() -> u128 {
    get_millis(&system_time_now())
}

} // verus!
