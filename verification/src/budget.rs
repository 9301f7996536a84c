//! A budget that refills over time, for work that strangers can ask for.
//!
//! A bucket of tokens rather than a count per interval, so that a burst is
//! absorbed and a sustained flood is not.

use vstd::prelude::*;

use crate::clock::{elapsed, SECOND};

verus! {

/// A token bucket. It holds at most one second's worth.
#[derive(Debug, Clone, Copy, PartialEq, Eq, Structural)]
pub struct Budget {
    /// What is in the bucket, in billionths of a token.
    pub tokens: u64,
    /// When it was last refilled, in nanoseconds.
    pub refilled: u64,
    /// Tokens a second.
    pub rate: u32,
}

/// A full bucket, in billionths of a token.
pub open spec fn full(rate: u32) -> int {
    rate * SECOND
}

impl Budget {
    /// The bucket never overflows.
    pub open spec fn wf(self) -> bool {
        self.tokens <= full(self.rate)
    }

    /// What is in the bucket at a moment, once it has been refilled.
    pub open spec fn available(self, now: u64) -> int {
        let refill = self.tokens + elapsed(self.refilled, now) * self.rate;
        if refill < full(self.rate) {
            refill
        } else {
            full(self.rate)
        }
    }

    /// Whether there is a token to spend at a moment.
    pub open spec fn grants(self, now: u64) -> bool {
        self.available(now) >= SECOND
    }

    /// The bucket once a token has been asked for.
    pub open spec fn asked(self, now: u64) -> Self {
        Budget {
            tokens: if self.grants(now) {
                (self.available(now) - SECOND) as u64
            } else {
                self.available(now) as u64
            },
            refilled: now,
            rate: self.rate,
        }
    }

    /// The bucket at another rate.
    pub open spec fn at_rate(self, rate: u32) -> Self {
        Budget {
            tokens: if self.tokens <= full(rate) {
                self.tokens
            } else {
                full(rate) as u64
            },
            rate,
            ..self
        }
    }

    /// A full bucket.
    pub fn new(rate: u32, now: u64) -> (budget: Self)
        ensures
            budget.wf(),
            budget == (Budget { tokens: full(rate) as u64, refilled: now, rate }),
    {
        Budget { tokens: rate as u64 * SECOND, refilled: now, rate }
    }

    /// Sets the rate. What is in the bucket beyond a second's worth is lost.
    pub fn set_rate(&mut self, rate: u32)
        requires
            old(self).wf(),
        ensures
            final(self).wf(),
            *final(self) == old(self).at_rate(rate),
    {
        let cap: u64 = rate as u64 * SECOND;
        self.rate = rate;
        if self.tokens > cap {
            self.tokens = cap;
        }
    }

    /// Refills the bucket and spends a token if there is one.
    pub fn spend(&mut self, now: u64) -> (granted: bool)
        requires
            old(self).wf(),
        ensures
            final(self).wf(),
            granted == old(self).grants(now),
            *final(self) == old(self).asked(now),
    {
        let since: u64 = now.saturating_sub(self.refilled);
        let cap: u64 = self.rate as u64 * SECOND;
        proof {
            assert(0 <= since * self.rate <= u64::MAX * u32::MAX) by (nonlinear_arith)
                requires
                    0 <= since <= u64::MAX,
                    0 <= self.rate <= u32::MAX,
            ;
        }
        let refill: u128 = self.tokens as u128 + since as u128 * self.rate as u128;
        let available: u64 = if refill < cap as u128 {
            refill as u64
        } else {
            cap
        };
        self.refilled = now;
        if available < SECOND {
            self.tokens = available;
            return false;
        }
        self.tokens = available - SECOND;
        true
    }
}

/// The bucket after a token has been asked for at each of these moments.
pub open spec fn asked_at(budget: Budget, moments: Seq<u64>) -> Budget
    decreases moments.len(),
{
    if moments.len() == 0 {
        budget
    } else {
        asked_at(budget, moments.drop_last()).asked(moments.last())
    }
}

/// How many of those were granted.
pub open spec fn granted_at(budget: Budget, moments: Seq<u64>) -> nat
    decreases moments.len(),
{
    if moments.len() == 0 {
        0
    } else {
        granted_at(budget, moments.drop_last()) + if asked_at(budget, moments.drop_last()).grants(
            moments.last(),
        ) {
            1nat
        } else {
            0nat
        }
    }
}

/// However often a budget is asked, what it grants over a stretch of time is no
/// more than one burst and what the rate refills in that time.
pub proof fn a_flood_gets_no_more_than_a_burst_and_the_rate(budget: Budget, moments: Seq<u64>)
    requires
        budget.wf(),
        forall|i: int| 0 <= i < moments.len() ==> #[trigger] moments[i] >= budget.refilled,
        forall|i: int, j: int| 0 <= i < j < moments.len() ==> moments[i] <= moments[j],
    ensures
        asked_at(budget, moments).wf(),
        asked_at(budget, moments).rate == budget.rate,
        moments.len() > 0 ==> asked_at(budget, moments).refilled == moments.last(),
        moments.len() == 0 ==> asked_at(budget, moments) == budget,
        granted_at(budget, moments) * SECOND + asked_at(budget, moments).tokens <= budget.tokens + (
        asked_at(budget, moments).refilled - budget.refilled) * budget.rate,
        granted_at(budget, moments) * SECOND <= full(budget.rate) + (asked_at(
            budget,
            moments,
        ).refilled - budget.refilled) * budget.rate,
    decreases moments.len(),
{
    if moments.len() > 0 {
        let rest = moments.drop_last();
        let now = moments.last();
        assert forall|i: int| 0 <= i < rest.len() implies #[trigger] rest[i] >= budget.refilled by {
            assert(rest[i] == moments[i]);
        }
        a_flood_gets_no_more_than_a_burst_and_the_rate(budget, rest);
        let before = asked_at(budget, rest);
        let rate = budget.rate as int;
        if rest.len() > 0 {
            assert(rest.last() == moments[moments.len() - 2]);
            assert(moments[moments.len() - 2] <= moments[moments.len() - 1]);
        } else {
            assert(moments[0] >= budget.refilled);
        }
        assert(before.refilled <= now);
        assert((now - budget.refilled) * rate == (now - before.refilled) * rate + (before.refilled
            - budget.refilled) * rate) by (nonlinear_arith);
        assert(0 <= elapsed(before.refilled, now) * rate) by (nonlinear_arith)
            requires
                0 <= elapsed(before.refilled, now),
                0 <= rate,
        ;
    } else {
        assert((budget.refilled - budget.refilled) * budget.rate == 0) by (nonlinear_arith);
    }
}

/// A budget set to nothing grants nothing, ever.
pub proof fn a_rate_of_zero_grants_nothing(budget: Budget, now: u64)
    requires
        budget.wf(),
    ensures
        !budget.at_rate(0).grants(now),
        budget.at_rate(0).asked(now).at_rate(0).tokens == 0,
{
    assert(elapsed(budget.refilled, now) * 0 == 0) by (nonlinear_arith);
}

/// Nothing is gained or lost in the bucket but by time and by what is granted: what
/// is there after asking, with what was granted, is what was there before and what
/// the rate refilled since, as far as a second's worth. A token is granted exactly
/// where that amounts to one.
pub proof fn a_token_is_granted_exactly_where_there_is_one(budget: Budget, now: u64)
    requires
        budget.wf(),
    ensures
        ({
            let since = if now >= budget.refilled {
                now - budget.refilled
            } else {
                0
            };
            let refilled = budget.tokens + since * budget.rate;
            let cap = budget.rate * 1_000_000_000;
            let there = if refilled < cap {
                refilled
            } else {
                cap
            };
            &&& budget.grants(now) <==> there >= 1_000_000_000
            &&& budget.asked(now).tokens + (if budget.grants(now) {
                1_000_000_000int
            } else {
                0int
            }) == there
            &&& budget.asked(now).refilled == now
            &&& budget.asked(now).rate == budget.rate
        }),
{
    let since: int = elapsed(budget.refilled, now) as int;
    assert(0 <= since * budget.rate) by (nonlinear_arith)
        requires
            0 <= since,
            0 <= budget.rate,
    ;
}

/// A burst as large as the rate is absorbed at once: a full bucket grants every one
/// of that many asked for at the same moment, and not one more.
pub proof fn a_full_budget_absorbs_a_burst(rate: u32, now: u64, n: nat)
    requires
        n <= rate,
    ensures
        ({
            let budget = Budget { tokens: (rate * 1_000_000_000) as u64, refilled: now, rate };
            let moments = Seq::new(n, |i: int| now);
            &&& granted_at(budget, moments) == n
            &&& asked_at(budget, moments) == (Budget {
                tokens: ((rate - n) * 1_000_000_000) as u64,
                refilled: now,
                rate,
            })
            &&& n == rate ==> !asked_at(budget, moments).grants(now)
        }),
    decreases n,
{
    let budget = Budget { tokens: (rate * 1_000_000_000) as u64, refilled: now, rate };
    let moments = Seq::new(n, |i: int| now);
    if n > 0 {
        let earlier = (n - 1) as nat;
        a_full_budget_absorbs_a_burst(rate, now, earlier);
        assert(moments.drop_last() =~= Seq::new(earlier, |i: int| now));
        assert(0 * rate == 0) by (nonlinear_arith);
        a_token_is_granted_exactly_where_there_is_one(asked_at(budget, moments.drop_last()), now);
    } else {
        assert(0 * rate == 0) by (nonlinear_arith);
    }
}

/// Changing the rate neither fills the bucket nor empties it, but for what is more
/// than a second's worth at the new rate.
pub proof fn changing_the_rate_fills_nothing(budget: Budget, rate: u32)
    requires
        budget.wf(),
    ensures
        budget.at_rate(rate).rate == rate,
        budget.at_rate(rate).refilled == budget.refilled,
        budget.at_rate(rate).tokens <= budget.tokens,
        budget.at_rate(rate).tokens <= rate * 1_000_000_000,
        budget.tokens <= rate * 1_000_000_000 ==> budget.at_rate(rate).tokens == budget.tokens,
        budget.tokens > rate * 1_000_000_000 ==> budget.at_rate(rate).tokens == rate
            * 1_000_000_000,
{
}

} // verus!
