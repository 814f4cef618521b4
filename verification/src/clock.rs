//! Points in time and waiting periods.
//!
//! A point in time is a number of nanoseconds on a clock that never goes back.
//! A deadline is a point in time that may lie beyond any that the clock reaches.
use vstd::prelude::*;

verus! {

/// A point in time that the clock has shown.
pub type Instant = u64;

/// A point in time to come.
pub type Deadline = u128;

pub const NANOS_PER_SEC: u128 = 1_000_000_000;

pub const NANOS_PER_MILLI: u128 = 1_000_000;

/// The time from `then` to `now`, none where `then` is the later.
pub open spec fn elapsed(now: Instant, then: Instant) -> int {
    if now > then {
        now - then
    } else {
        0
    }
}

/// Whether at least `secs` seconds have gone by since `then`.
pub open spec fn secs_passed(now: Instant, then: Instant, secs: u64) -> bool {
    elapsed(now, then) >= secs * NANOS_PER_SEC
}

/// Whether at least `ms` milliseconds have gone by since `then`.
pub open spec fn millis_passed(now: Instant, then: Instant, ms: u64) -> bool {
    elapsed(now, then) >= ms * NANOS_PER_MILLI
}

/// The point in time `secs` seconds after `now`.
pub open spec fn in_secs(now: Instant, secs: u64) -> Deadline {
    (now + secs * NANOS_PER_SEC) as Deadline
}

/// Whether at least `secs` seconds have gone by since `then`.
pub fn have_secs_passed(now: Instant, then: Instant, secs: u64) -> (r: bool)
    ensures
        r == secs_passed(now, then, secs),
{
    let gone: u64 = if now > then {
        now - then
    } else {
        0
    };
    gone as u128 >= secs as u128 * NANOS_PER_SEC
}

/// Whether at least `ms` milliseconds have gone by since `then`.
pub fn have_millis_passed(now: Instant, then: Instant, ms: u64) -> (r: bool)
    ensures
        r == millis_passed(now, then, ms),
{
    let gone: u64 = if now > then {
        now - then
    } else {
        0
    };
    gone as u128 >= ms as u128 * NANOS_PER_MILLI
}

/// The point in time `secs` seconds after `now`.
pub fn deadline_in(now: Instant, secs: u64) -> (r: Deadline)
    ensures
        r == in_secs(now, secs),
        r == now + secs * NANOS_PER_SEC,
{
    now as u128 + secs as u128 * NANOS_PER_SEC
}

/// What the periods and the deadlines are in nanoseconds: a period is over once
/// that many have gone by, and not before.
pub proof fn periods_in_nanoseconds(now: Instant, then: Instant, n: u64)
    ensures
        n > 0 ==> (secs_passed(now, then, n) <==> now >= then + n * 1_000_000_000),
        n > 0 ==> (millis_passed(now, then, n) <==> now >= then + n * 1_000_000),
        secs_passed(now, then, 0),
        millis_passed(now, then, 0),
        in_secs(now, n) == now + n * 1_000_000_000,
{
}

} // verus!
