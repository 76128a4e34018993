//! Deciding when a progress line is due while data is copied.
use std::time::{Duration, SystemTime};
use vstd::prelude::*;
use crate::util_time::{duration_since, system_time_now};

verus! {

/// A progress line is due: the copy is within one interval of bytes of its end,
/// more than an interval of bytes was written since the last line, or more than
/// the interval of time passed since it.
pub open spec fn status_due(
    total: i64,
    written: i64,
    last_written: i64,
    interval_bytes: i64,
    since_last_ms: u128,
    interval_ms: u128,
) -> bool {
    ||| total > written && total - written < interval_bytes
    ||| written > last_written && written - last_written > interval_bytes
    ||| since_last_ms > interval_ms
}

/// Whether a progress line is due, given the milliseconds since the last line
/// and the interval of time in milliseconds.
pub fn is_status_due(
    total: i64,
    written: i64,
    last_written: i64,
    interval_bytes: i64,
    since_last_ms: u128,
    interval_ms: u128,
) -> (r: bool)
    ensures
        r == status_due(total, written, last_written, interval_bytes, since_last_ms, interval_ms),
{
    if total > written && (total as i128 - written as i128) < interval_bytes as i128 {
        return true;
    }
    if written > last_written && (written as i128 - last_written as i128) > interval_bytes as i128 {
        return true;
    }
    since_last_ms > interval_ms
}

/// When the last progress line was printed, and how often one is due.
pub struct PrintStatusContext {
    pub print_interval_time: Duration,
    pub print_interval_bytes: i64,
    pub init_print_time: SystemTime,
    pub last_print_time: SystemTime,
    pub total_written_bytes: i64,
}

impl Default for PrintStatusContext {
    fn default() -> (r: Self)
        ensures
            r.print_interval_bytes == 512 * 1024,
            r.total_written_bytes == 0,
    {
        Self::new()
    }
}

impl PrintStatusContext {
    /// A context that prints at most every 100 ms, or every 512 KiB.
    pub fn new() -> (r: Self)
        ensures
            r.print_interval_bytes == 512 * 1024,
            r.total_written_bytes == 0,
    {
        Self::new_with(Duration::from_millis(100), 512 * 1024)
    }

    /// A context with the given intervals of time and bytes, started now.
    pub fn new_with(print_interval_time: Duration, print_interval_bytes: i64) -> (r: Self)
        ensures
            r.print_interval_time == print_interval_time,
            r.print_interval_bytes == print_interval_bytes,
            r.total_written_bytes == 0,
    {
        PrintStatusContext {
            print_interval_time,
            print_interval_bytes,
            init_print_time: system_time_now(),
            last_print_time: system_time_now(),
            total_written_bytes: 0,
        }
    }

    /// Whether a progress line is due now for `written` of `total` bytes, and the
    /// time since the context started. When one is due, the context records now
    /// and `written` as the last line; otherwise it is left as it was.
    pub fn check_print(&mut self, total: i64, written: i64) -> (r: (bool, Duration))
        ensures
            final(self).print_interval_time == old(self).print_interval_time,
            final(self).print_interval_bytes == old(self).print_interval_bytes,
            final(self).init_print_time == old(self).init_print_time,
            r.0 ==> final(self).total_written_bytes == written,
            !r.0 ==> *final(self) == *old(self),
            (total > written && total - written < old(self).print_interval_bytes) ==> r.0,
            (written > old(self).total_written_bytes && written - old(self).total_written_bytes
                > old(self).print_interval_bytes) ==> r.0,
    {
        let now = system_time_now();
        let total_cost = match duration_since(&now, &self.init_print_time) {
            Some(d) => d,
            None => Duration::from_millis(0),
        };
        let last_print_cost = match duration_since(&now, &self.last_print_time) {
            Some(d) => d,
            None => Duration::from_millis(0),
        };
        let due = is_status_due(
            total,
            written,
            self.total_written_bytes,
            self.print_interval_bytes,
            last_print_cost.as_millis(),
            self.print_interval_time.as_millis(),
        );
        if due {
            self.last_print_time = now;
            self.total_written_bytes = written;
            (true, total_cost)
        } else {
            (false, total_cost)
        }
    }
}

} // verus!
