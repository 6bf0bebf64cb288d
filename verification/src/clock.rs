//! Time as the simulation sees it.
//!
//! A point in time is a number of nanoseconds since the server started, and a
//! span of time a number of nanoseconds. Who reads the clock hands the reading
//! in, so every rule that depends on time is a function of it.
use vstd::prelude::*;

verus! {

pub const MILLISECOND: u64 = 1_000_000;

pub const SECOND: u64 = 1_000_000_000;

/// The point in time `span` after `now`; the last representable one where the
/// sum is past it.
pub open spec fn later_spec(now: u64, span: u64) -> u64 {
    if now + span > u64::MAX {
        u64::MAX
    } else {
        (now + span) as u64
    }
}

pub fn later(now: u64, span: u64) -> (r: u64)
    ensures
        r == later_spec(now, span),
{
    if span > u64::MAX - now {
        u64::MAX
    } else {
        now + span
    }
}

/// The span from `then` to `now`, nothing if `then` is still to come.
pub open spec fn since_spec(now: u64, then: u64) -> u64 {
    if now >= then {
        (now - then) as u64
    } else {
        0
    }
}

pub fn since(now: u64, then: u64) -> (r: u64)
    ensures
        r == since_spec(now, then),
{
    if now >= then {
        now - then
    } else {
        0
    }
}

/// What comes a span later is that many nanoseconds later, or at the end of time where
/// that is past it.
pub proof fn later_is_later_by_the_span(now: u64, span: u64, r: u64)
    requires
        call_ensures(later, (now, span), r),
    ensures
        now + span <= u64::MAX ==> r == now + span,
        now + span > u64::MAX ==> r == u64::MAX,
{
}

/// What was a span ago was that many nanoseconds ago, and what is still to come was not.
pub proof fn since_then_is_the_difference(now: u64, then: u64, r: u64)
    requires
        call_ensures(since, (now, then), r),
    ensures
        then <= now ==> then + r == now,
        now < then ==> r == 0,
{
}

/// A second is a thousand milliseconds, and a millisecond a million nanoseconds.
pub proof fn units_of_time()
    ensures
        MILLISECOND == 1_000_000,
        SECOND == 1000 * MILLISECOND,
{
}

} // verus!
