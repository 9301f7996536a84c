//! Remembering whether coding pays for a stream, so that a stream which has
//! shown it cannot be shrunk is not charged for the attempt on every send.

use vstd::prelude::*;

use crate::compress::PayloadType;

verus! {

/// Misses in a row before coding is taken not to pay for this stream.
pub const CODING_MISS_LIMIT: u8 = 4;

/// Sends skipped after that, before trying once more: what a stream carries can
/// change.
pub const CODING_PROBE_INTERVAL: u8 = 32;

/// What is remembered of a stream.
#[derive(Debug, Clone, Copy, PartialEq, Eq, Structural)]
pub struct Coding {
    /// Consecutive attempts that did not shrink the payload.
    pub misses: u8,
    /// Sends still to be skipped before coding is attempted again.
    pub skips: u8,
    /// The shape that the misses were counted for.
    pub shape: PayloadType,
}

impl Coding {
    /// The misses stay below the limit: reaching it starts the skipping instead.
    pub open spec fn wf(self) -> bool {
        self.misses < CODING_MISS_LIMIT && self.skips <= CODING_PROBE_INTERVAL
    }

    /// Whether a send of this shape is to be attempted.
    pub open spec fn attempts(self, payload_type: PayloadType) -> bool {
        payload_type != self.shape || self.skips == 0
    }

    /// What is remembered once a send of this shape has asked.
    pub open spec fn asked(self, payload_type: PayloadType) -> Self {
        if payload_type != self.shape {
            Coding { misses: 0, skips: 0, shape: payload_type }
        } else if self.skips > 0 {
            Coding { skips: (self.skips - 1) as u8, ..self }
        } else {
            self
        }
    }

    /// What is remembered once an attempt has been made. The misses stay one
    /// short of the limit while sends are skipped, so that the one attempt after
    /// them, if it misses too, starts the skipping anew.
    pub open spec fn recorded(self, paid: bool) -> Self {
        if paid {
            Coding { misses: 0, skips: 0, ..self }
        } else if self.misses + 1 >= CODING_MISS_LIMIT {
            Coding { misses: (CODING_MISS_LIMIT - 1) as u8, skips: CODING_PROBE_INTERVAL, ..self }
        } else {
            Coding { misses: (self.misses + 1) as u8, ..self }
        }
    }

    /// Nothing remembered yet.
    pub fn new() -> (coding: Self)
        ensures
            coding.wf(),
            coding == (Coding { misses: 0, skips: 0, shape: PayloadType::Opaque }),
    {
        Coding { misses: 0, skips: 0, shape: PayloadType::Opaque }
    }

    /// Whether coding is worth attempting for this send.
    ///
    /// A caller that changes shape is describing different data, which deserves
    /// a fresh attempt.
    pub fn should_code(&mut self, payload_type: PayloadType) -> (attempt: bool)
        requires
            old(self).wf(),
        ensures
            final(self).wf(),
            attempt == old(self).attempts(payload_type),
            *final(self) == old(self).asked(payload_type),
    {
        if payload_type != self.shape {
            self.shape = payload_type;
            self.misses = 0;
            self.skips = 0;
            return true;
        }
        if self.skips > 0 {
            self.skips = self.skips - 1;
            return false;
        }
        true
    }

    /// Folds one coding outcome into the decision for the next send.
    ///
    /// Enough misses in a row, or one miss after an interval of skipping, and the
    /// next sends are skipped.
    pub fn record_coding(&mut self, paid: bool)
        requires
            old(self).wf(),
        ensures
            final(self).wf(),
            *final(self) == old(self).recorded(paid),
    {
        if paid {
            self.misses = 0;
            self.skips = 0;
        } else if self.misses + 1 >= CODING_MISS_LIMIT {
            self.misses = CODING_MISS_LIMIT - 1;
            self.skips = CODING_PROBE_INTERVAL;
        } else {
            self.misses = self.misses + 1;
        }
    }
}

/// What is remembered after `n` more sends of one shape, none of which attempts
/// anything or each of which fails to shrink its payload.
pub open spec fn after_misses(coding: Coding, payload_type: PayloadType, n: nat) -> Coding
    decreases n,
{
    if n == 0 {
        coding
    } else {
        let before = after_misses(coding, payload_type, (n - 1) as nat);
        if before.attempts(payload_type) {
            before.asked(payload_type).recorded(false)
        } else {
            before.asked(payload_type)
        }
    }
}

proof fn while_skipping(coding: Coding, n: nat)
    requires
        n <= coding.skips,
    ensures
        after_misses(coding, coding.shape, n) == (Coding { skips: (coding.skips - n) as u8, ..coding }),
    decreases n,
{
    if n > 0 {
        while_skipping(coding, (n - 1) as nat);
    }
}

/// A stream that has missed the limit is left alone for the whole interval, and
/// then tried.
pub proof fn a_stream_that_does_not_pay_is_tried_again_after_the_interval(coding: Coding, n: nat)
    requires
        coding.skips == CODING_PROBE_INTERVAL,
        n <= CODING_PROBE_INTERVAL,
    ensures
        after_misses(coding, coding.shape, n).attempts(coding.shape) == (n == CODING_PROBE_INTERVAL),
{
    while_skipping(coding, n);
}

/// What is remembered after some sends and then some more.
proof fn after_more_misses(coding: Coding, payload_type: PayloadType, m: nat, n: nat)
    ensures
        after_misses(coding, payload_type, m + n) == after_misses(
            after_misses(coding, payload_type, m),
            payload_type,
            n,
        ),
    decreases n,
{
    if n > 0 {
        after_more_misses(coding, payload_type, m, (n - 1) as nat);
        assert(m + n - 1 == m + (n - 1) as nat);
    }
}

/// A stream that goes on not paying costs one attempt in an interval and one
/// sends: the attempt that misses again starts the skipping anew, and for the
/// whole of the next interval nothing is attempted.
pub proof fn a_missed_probe_switches_coding_off_again(coding: Coding, n: nat)
    requires
        coding.misses == CODING_MISS_LIMIT - 1,
        coding.skips == CODING_PROBE_INTERVAL,
    ensures
        after_misses(coding, coding.shape, (CODING_PROBE_INTERVAL + 1) as nat) == coding,
        n < CODING_PROBE_INTERVAL ==> !after_misses(
            coding,
            coding.shape,
            (CODING_PROBE_INTERVAL + 1 + n) as nat,
        ).attempts(coding.shape),
{
    while_skipping(coding, CODING_PROBE_INTERVAL as nat);
    if n < CODING_PROBE_INTERVAL {
        after_more_misses(coding, coding.shape, (CODING_PROBE_INTERVAL + 1) as nat, n);
        while_skipping(coding, n);
    }
}

/// Missing the limit of attempts in a row is what starts the skipping.
pub proof fn enough_misses_in_a_row_switch_coding_off(shape: PayloadType)
    ensures
        after_misses(Coding { misses: 0, skips: 0, shape }, shape, CODING_MISS_LIMIT as nat)
            == (Coding {
            misses: (CODING_MISS_LIMIT - 1) as u8,
            skips: CODING_PROBE_INTERVAL,
            shape,
        }),
{
    reveal_with_fuel(after_misses, 5);
}

/// A send of another shape is always attempted, whatever the stream has done.
pub proof fn a_new_shape_is_always_attempted(coding: Coding, payload_type: PayloadType)
    requires
        payload_type != coding.shape,
    ensures
        coding.attempts(payload_type),
        coding.asked(payload_type) == (Coding { misses: 0, skips: 0, shape: payload_type }),
{
}

/// A send is held back only where its shape is the one that did not pay and the
/// interval is not over; and each one held back brings the next attempt nearer.
pub proof fn a_send_is_held_back_only_within_the_interval(coding: Coding, payload_type: PayloadType)
    ensures
        !coding.attempts(payload_type) <==> payload_type == coding.shape && coding.skips > 0,
        !coding.attempts(payload_type) ==> coding.asked(payload_type) == (Coding {
            skips: (coding.skips - 1) as u8,
            ..coding
        }),
        coding.attempts(payload_type) && payload_type == coding.shape ==> coding.asked(payload_type)
            == coding,
        payload_type != coding.shape ==> coding.asked(payload_type).misses == 0 && coding.asked(
            payload_type,
        ).skips == 0,
        coding.asked(payload_type).shape == payload_type,
{
}

/// One payload that shrinks clears the record: sends go on being attempted, and it
/// takes a whole row of misses to stop that.
pub proof fn a_payload_that_pays_clears_the_record(coding: Coding, n: nat)
    requires
        n < 4,
    ensures
        ({
            let clear = coding.recorded(true);
            &&& clear.shape == coding.shape
            &&& clear.attempts(coding.shape)
            &&& after_misses(clear, coding.shape, n).attempts(coding.shape)
            &&& !after_misses(clear, coding.shape, 4).attempts(coding.shape)
        }),
{
    reveal_with_fuel(after_misses, 5);
}

/// Once a row of misses has been seen, the next thirty-two sends are held back and
/// the one after them is attempted.
pub proof fn after_a_row_of_misses_one_send_in_thirty_three_is_attempted(
    shape: PayloadType,
    n: nat,
)
    ensures
        ({
            let coding = Coding { misses: 0, skips: 0, shape };
            &&& n < 32 ==> !after_misses(coding, shape, 4 + n).attempts(shape)
            &&& after_misses(coding, shape, 36).attempts(shape)
            &&& n < 32 ==> !after_misses(coding, shape, 37 + n).attempts(shape)
            &&& after_misses(coding, shape, 69).attempts(shape)
        }),
{
    let coding = Coding { misses: 0, skips: 0, shape };
    enough_misses_in_a_row_switch_coding_off(shape);
    let off = after_misses(coding, shape, 4);
    while_skipping(off, 32);
    after_more_misses(coding, shape, 4, 32);
    a_missed_probe_switches_coding_off_again(off, n);
    after_more_misses(coding, shape, 4, 33);
    after_more_misses(coding, shape, 37, 32);
    if n < 32 {
        while_skipping(off, n);
        after_more_misses(coding, shape, 4, n);
        after_more_misses(coding, shape, 37, n);
    }
}

} // verus!
