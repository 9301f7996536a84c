//! Moments and spans of time, both in nanoseconds, on a clock that the caller reads.

use vstd::prelude::*;

verus! {

/// One millisecond.
pub const MILLISECOND: u64 = 1_000_000;

/// One second.
pub const SECOND: u64 = 1_000_000_000;

/// How long ago a moment was; nothing at all if it is yet to come.
pub open spec fn elapsed(since: u64, now: u64) -> u64 {
    if since <= now {
        (now - since) as u64
    } else {
        0
    }
}

/// How long it is until a moment; nothing at all if it has passed.
pub open spec fn until(at: u64, now: u64) -> u64 {
    if now <= at {
        (at - now) as u64
    } else {
        0
    }
}

/// The moment a span after another, or the end of time.
pub open spec fn after(since: u64, span: u64) -> u64 {
    if since + span <= u64::MAX {
        (since + span) as u64
    } else {
        u64::MAX
    }
}

/// The earlier of two moments, or the shorter of two spans, either of which may
/// not be there.
pub open spec fn sooner(a: Option<u64>, b: Option<u64>) -> Option<u64> {
    match (a, b) {
        (Some(x), Some(y)) => Some(
            if x <= y {
                x
            } else {
                y
            },
        ),
        (Some(x), None) => Some(x),
        (None, _) => b,
    }
}

/// The sooner of two spans, either of which may not be there.
pub fn soonest(a: Option<u64>, b: Option<u64>) -> (first: Option<u64>)
    ensures
        first == sooner(a, b),
{
    match (a, b) {
        (Some(x), Some(y)) => Some(
            if x <= y {
                x
            } else {
                y
            },
        ),
        (Some(x), None) => Some(x),
        (None, _) => b,
    }
}

/// The span that a socket may block for: what is wanted, but at least a
/// millisecond, because a socket takes a span of nothing to mean for ever.
pub open spec fn blocking(wait: u64) -> u64 {
    if wait < MILLISECOND {
        MILLISECOND
    } else {
        wait
    }
}

/// How long a socket may block, if it may not block for ever.
pub fn socket_timeout(wait: Option<u64>) -> (timeout: Option<u64>)
    ensures
        timeout == (match wait {
            Some(w) => Some(blocking(w)),
            None => None,
        }),
{
    match wait {
        Some(w) => if w < MILLISECOND {
            Some(MILLISECOND)
        } else {
            Some(w)
        },
        None => None,
    }
}

/// Moments and spans are counted as numbers are: what has passed and what is left
/// is a difference, nothing where that would be negative; a moment a span later is
/// a sum, or the end of time.
pub proof fn spans_are_differences_of_moments(a: u64, b: u64)
    ensures
        a <= b ==> elapsed(a, b) == b - a && until(b, a) == b - a,
        a >= b ==> elapsed(a, b) == 0 && until(b, a) == 0,
        a + b <= u64::MAX ==> after(a, b) == a + b,
        a + b > u64::MAX ==> after(a, b) == u64::MAX,
        after(a, b) >= a,
{
}

/// The sooner of two is one of the two, and no later than either; it is missing
/// only where both are.
pub proof fn the_sooner_is_the_least(a: Option<u64>, b: Option<u64>)
    ensures
        sooner(a, b) == a || sooner(a, b) == b,
        sooner(a, b) is None <==> a is None && b is None,
        a matches Some(x) ==> sooner(a, b)->0 <= x,
        b matches Some(y) ==> sooner(a, b)->0 <= y,
{
}

/// A socket is told to block for what is wanted, and for a millisecond where that
/// is less than one: never for nothing, which it would take to mean for ever.
pub proof fn a_socket_blocks_for_what_is_wanted_or_a_millisecond(wait: u64)
    ensures
        blocking(wait) >= 1_000_000,
        blocking(wait) >= wait,
        blocking(wait) == wait || blocking(wait) == 1_000_000,
        wait >= 1_000_000 ==> blocking(wait) == wait,
{
}

} // verus!
