//! The current time, read from the system clock through std, which reports
//! a clock set before the Unix epoch instead of failing.

use vstd::prelude::*;
use core::time::Duration;
use std::time::{SystemTime, SystemTimeError};
use crate::domain::Timestamp;

verus! {

#[verifier::external_type_specification]
#[verifier::external_body]
pub struct ExSystemTime(SystemTime);

#[verifier::external_type_specification]
#[verifier::external_body]
pub struct ExSystemTimeError(SystemTimeError);

/// Calls std `SystemTime::now`. The reading depends on the system clock;
/// nothing is claimed of it.
#[verifier::external_body]
fn system_now() -> (r: SystemTime) {
    SystemTime::now()
}

/// Calls std `SystemTime::duration_since` with `UNIX_EPOCH`: `Ok` with the
/// time elapsed since the epoch, or `Err` when `t` lies before it. What the
/// duration is depends on the reading; nothing is claimed of it.
#[verifier::external_body]
fn since_epoch(t: &SystemTime) -> (r: Result<Duration, SystemTimeError>) {
    t.duration_since(std::time::UNIX_EPOCH)
}

/// Calls std `SystemTimeError::duration`: how far before the epoch the
/// reading lay. Nothing is claimed of the value.
#[verifier::external_body]
fn before_epoch(e: &SystemTimeError) -> (r: Duration) {
    e.duration()
}

/// Calls std `Duration::as_secs`: the whole seconds of `d`. Nothing is
/// claimed of the value.
#[verifier::external_body]
fn whole_secs(d: &Duration) -> (r: u64) {
    d.as_secs()
}

/// Calls std `Duration::subsec_nanos`, which std documents as always less
/// than one billion. Claimed: that bound.
#[verifier::external_body]
fn sub_nanos(d: &Duration) -> (r: u32)
    ensures
        r < 1_000_000_000,
{
    d.subsec_nanos()
}

/// The time `secs` seconds and `nanos` nanoseconds after the epoch
/// (`after`) or before it; seconds beyond the range of `i64` are clamped to
/// its ends.
pub open spec fn offset_time(after: bool, secs: u64, nanos: u32) -> Timestamp {
    if after {
        Timestamp { secs: if secs <= i64::MAX { secs as i64 } else { i64::MAX }, nanos }
    } else if nanos == 0 {
        Timestamp { secs: if secs <= i64::MAX { -(secs as int) as i64 } else { -i64::MAX as i64 }, nanos: 0 }
    } else {
        Timestamp {
            secs: if secs < i64::MAX { (-(secs as int) - 1) as i64 } else { i64::MIN },
            nanos: (1_000_000_000 - nanos) as u32,
        }
    }
}

/// The timestamp for a reading `secs` and `nanos` (below one billion) away
/// from the epoch, after it or before it.
pub fn timestamp_from_offset(after: bool, secs: u64, nanos: u32) -> (r: Timestamp)
    requires
        nanos < 1_000_000_000,
    ensures
        r == offset_time(after, secs, nanos),
        r.nanos < 1_000_000_000,
{
    if after {
        let s: i64 = if secs <= 9_223_372_036_854_775_807u64 { secs as i64 } else { 9_223_372_036_854_775_807i64 };
        Timestamp { secs: s, nanos }
    } else if nanos == 0 {
        let s: i64 = if secs <= 9_223_372_036_854_775_807u64 { -(secs as i64) } else { -9_223_372_036_854_775_807i64 };
        Timestamp { secs: s, nanos: 0 }
    } else {
        let s: i64 = if secs < 9_223_372_036_854_775_807u64 { -(secs as i64) - 1 } else { -9_223_372_036_854_775_807i64 - 1 };
        Timestamp { secs: s, nanos: 1_000_000_000 - nanos }
    }
}

/// The current time (UTC) from the system clock, also when the clock is set
/// before the epoch. Which time it is depends on the clock; the nanoseconds
/// stay below one second.
pub fn now() -> (r: Timestamp)
    ensures
        r.nanos < 1_000_000_000,
{
    let t = system_now();
    match since_epoch(&t) {
        Ok(d) => {
            let n = sub_nanos(&d);
            timestamp_from_offset(true, whole_secs(&d), n)
        },
        Err(e) => {
            let d = before_epoch(&e);
            let n = sub_nanos(&d);
            timestamp_from_offset(false, whole_secs(&d), n)
        },
    }
}

} // verus!
