//! When an opening frame is sent again, and when nobody is taken to be there.
//!
//! An opening frame is one datagram and nothing acknowledges it, so it is
//! repeated on a schedule: a fixed one for a path nobody has measured, and one
//! that follows the path's own round trip where earlier handshakes measured it.

use vstd::prelude::*;

use crate::clock::{after, elapsed, until};
use crate::table::Address;

verus! {

/// How long a blocking handshake waits for a reply in all.
pub const HANDSHAKE_TIMEOUT: u64 = 5_000_000_000;

/// How long to wait for a reply before sending the opening frame again, on a
/// path that has not been measured.
pub const HANDSHAKE_RETRY: u64 = 250_000_000;

/// How many times an opening frame is sent before giving up.
pub const HANDSHAKE_ATTEMPTS: u8 = 4;

/// What the waits after that many attempts add up to on an unmeasured path.
/// Nothing is given up on sooner, however fast its path once was.
pub const HANDSHAKE_BUDGET: u64 = 2_500_000_000;

/// The shortest wait before an opening frame is repeated.
pub const MIN_RETRY: u64 = 10_000_000;

/// Paths whose round trip is remembered.
pub const MAX_PATHS: usize = 256;

/// The wait after an attempt: a step for each attempt made.
pub open spec fn backoff(step: u64, attempts: int) -> u64 {
    if step * attempts <= u64::MAX {
        (step * attempts) as u64
    } else {
        u64::MAX
    }
}

/// How long a blocking handshake waits after an attempt: a step more each time,
/// but never past the deadline. `None` once the deadline has come.
pub open spec fn exchange_wait_for(attempt: u64, deadline: u64, now: u64) -> Option<u64> {
    let remaining = until(deadline, now);
    if remaining == 0 {
        None
    } else if backoff(HANDSHAKE_RETRY, attempt as int) < remaining {
        Some(backoff(HANDSHAKE_RETRY, attempt as int))
    } else {
        Some(remaining)
    }
}

/// A step for each attempt made, or the end of time.
fn back_off(step: u64, attempts: u64) -> (wait: u64)
    ensures
        wait == backoff(step, attempts as int),
{
    match step.checked_mul(attempts) {
        Some(wait) => wait,
        None => u64::MAX,
    }
}

/// How long a blocking handshake waits for the reply to its `attempt`th opening
/// frame, or `None` where it is to stop and report that nobody answered.
pub fn exchange_wait(attempt: u64, deadline: u64, now: u64) -> (wait: Option<u64>)
    ensures
        wait == exchange_wait_for(attempt, deadline, now),
{
    let remaining: u64 = deadline.saturating_sub(now);
    if remaining == 0 {
        return None;
    }
    let step: u64 = back_off(HANDSHAKE_RETRY, attempt);
    if step < remaining {
        Some(step)
    } else {
        Some(remaining)
    }
}

/// No wait runs past the deadline, so an absent peer is reported when the
/// deadline comes and not later.
pub proof fn a_silent_peer_is_given_up_on_by_the_deadline(attempt: u64, deadline: u64, now: u64)
    ensures
        exchange_wait_for(attempt, deadline, now) is None == (now >= deadline),
        exchange_wait_for(attempt, deadline, now) matches Some(wait) ==> now + wait <= deadline,
{
}

/// When attempt `n` of a blocking handshake goes out, if every wait before it
/// runs its course.
pub open spec fn attempt_time(start: u64, deadline: u64, n: nat) -> u64
    decreases n,
{
    if n <= 1 {
        start
    } else {
        let before = attempt_time(start, deadline, (n - 1) as nat);
        match exchange_wait_for((n - 1) as u64, deadline, before) {
            Some(wait) => after(before, wait),
            None => before,
        }
    }
}

/// Retrying is bounded: six opening frames at most before the timeout has run,
/// so the seventh is the one after which nobody waits.
pub proof fn a_handful_of_opening_frames_is_all_a_silent_peer_costs(start: u64)
    requires
        start + HANDSHAKE_TIMEOUT <= u64::MAX,
    ensures
        ({
            let deadline = (start + HANDSHAKE_TIMEOUT) as u64;
            &&& attempt_time(start, deadline, 6) < deadline
            &&& attempt_time(start, deadline, 7) == deadline
            &&& exchange_wait_for(7, deadline, attempt_time(start, deadline, 7)) is None
        }),
{
    let deadline = (start + HANDSHAKE_TIMEOUT) as u64;
    reveal_with_fuel(attempt_time, 8);
    assert(attempt_time(start, deadline, 2) == start + 250_000_000);
    assert(attempt_time(start, deadline, 3) == start + 750_000_000);
    assert(attempt_time(start, deadline, 4) == start + 1_500_000_000);
    assert(attempt_time(start, deadline, 5) == start + 2_500_000_000);
    assert(attempt_time(start, deadline, 6) == start + 3_750_000_000);
    assert(attempt_time(start, deadline, 7) == start + 5_000_000_000);
}

/// A path's round trip, smoothed over the handshakes that measured it.
#[derive(Debug, Clone, Copy, PartialEq, Eq, Structural)]
pub struct Estimate {
    /// The smoothed round trip.
    pub smoothed: u64,
    /// How much it varies.
    pub variation: u64,
}

/// A sum that stops at the end of time.
pub open spec fn capped(n: int) -> u64 {
    if n <= u64::MAX {
        n as u64
    } else {
        u64::MAX
    }
}

/// How far apart two spans are.
pub open spec fn apart(a: u64, b: u64) -> u64 {
    if a <= b {
        (b - a) as u64
    } else {
        (a - b) as u64
    }
}

impl Estimate {
    /// The estimate that one measurement gives.
    pub open spec fn first(sample: u64) -> Self {
        Estimate { smoothed: sample, variation: (sample / 2) as u64 }
    }

    /// The estimate with one more measurement folded in.
    pub open spec fn folded(self, sample: u64) -> Self {
        Estimate {
            smoothed: (self.smoothed - self.smoothed / 8 + sample / 8) as u64,
            variation: (self.variation - self.variation / 4 + apart(self.smoothed, sample) / 4) as u64,
        }
    }

    /// How long a reply can reasonably take.
    pub open spec fn patience(self) -> u64 {
        capped(self.smoothed + 4 * self.variation)
    }

    /// The estimate that one measurement gives.
    pub fn new(sample: u64) -> (estimate: Self)
        ensures
            estimate == Estimate::first(sample),
    {
        Estimate { smoothed: sample, variation: sample / 2 }
    }

    /// Folds one more measurement in.
    pub fn fold(&mut self, sample: u64)
        ensures
            *final(self) == old(self).folded(sample),
    {
        let gap: u64 = if self.smoothed <= sample {
            sample - self.smoothed
        } else {
            self.smoothed - sample
        };
        self.variation = self.variation - self.variation / 4 + gap / 4;
        self.smoothed = self.smoothed - self.smoothed / 8 + sample / 8;
    }

    /// How long a reply can reasonably take.
    pub fn timeout(&self) -> (span: u64)
        ensures
            span == self.patience(),
    {
        if self.variation > u64::MAX / 4 {
            return u64::MAX;
        }
        self.smoothed.saturating_add(4 * self.variation)
    }
}

/// The step of a path's schedule: the usual one where nothing is known, and no
/// more than that, nor absurdly little, where something is.
pub open spec fn step_for(estimate: Option<Estimate>) -> u64 {
    match estimate {
        None => HANDSHAKE_RETRY,
        Some(e) => if e.patience() < MIN_RETRY {
            MIN_RETRY
        } else if e.patience() < HANDSHAKE_RETRY {
            e.patience()
        } else {
            HANDSHAKE_RETRY
        },
    }
}

/// The step of a path's schedule.
pub fn retry_step(estimate: Option<Estimate>) -> (step: u64)
    ensures
        step == step_for(estimate),
{
    match estimate {
        None => HANDSHAKE_RETRY,
        Some(e) => {
            let span: u64 = e.timeout();
            if span < MIN_RETRY {
                MIN_RETRY
            } else if span < HANDSHAKE_RETRY {
                span
            } else {
                HANDSHAKE_RETRY
            }
        },
    }
}

/// A lost opening frame costs the path and not a fixed wait: where the path has
/// been measured, the first repeat comes no later than it would have cold, and
/// sooner wherever the round trip is shorter than that.
pub proof fn a_measured_path_is_never_retried_later(estimate: Estimate)
    ensures
        MIN_RETRY <= step_for(Some(estimate)) <= step_for(None),
        estimate.patience() < HANDSHAKE_RETRY ==> step_for(Some(estimate)) < step_for(None),
{
}

/// A measured path.
#[derive(Debug, Clone, Copy, PartialEq, Eq, Structural)]
pub struct Path {
    /// Where it leads.
    pub addr: Address,
    /// Its round trip.
    pub estimate: Estimate,
}

/// The measured paths, longest known first. What a path measured belongs to that
/// path alone, and outlives the sessions that measured it.
pub struct Paths {
    /// The paths.
    pub known: Vec<Path>,
}

/// Whether a path has been measured.
pub open spec fn is_known(known: Seq<Path>, addr: Address) -> bool {
    exists|k: int| 0 <= k < known.len() && (#[trigger] known[k]).addr == addr
}

/// Where it stands.
pub open spec fn known_at(known: Seq<Path>, addr: Address) -> int {
    choose|k: int| 0 <= k < known.len() && (#[trigger] known[k]).addr == addr
}

/// What is known of a path.
pub open spec fn estimate_of(known: Seq<Path>, addr: Address) -> Option<Estimate> {
    if is_known(known, addr) {
        Some(known[known_at(known, addr)].estimate)
    } else {
        None
    }
}

/// The paths known once one has been measured again.
pub open spec fn measured(known: Seq<Path>, addr: Address, sample: u64) -> Seq<Path> {
    match estimate_of(known, addr) {
        Some(e) => known.update(known_at(known, addr), Path { addr, estimate: e.folded(sample) }),
        None => {
            let path = Path { addr, estimate: Estimate::first(sample) };
            if known.len() >= MAX_PATHS {
                known.remove(0).push(path)
            } else {
                known.push(path)
            }
        },
    }
}

impl Paths {
    /// No path is held twice, and no more are held than may be.
    pub open spec fn wf(&self) -> bool {
        &&& self.known@.len() <= MAX_PATHS
        &&& forall|i: int, j: int|
            0 <= i < self.known@.len() && 0 <= j < self.known@.len() && i != j ==> (
            #[trigger] self.known@[i]).addr != (#[trigger] self.known@[j]).addr
    }

    /// Nothing measured yet.
    pub fn new() -> (paths: Self)
        ensures
            paths.wf(),
            paths.known@.len() == 0,
    {
        Paths { known: Vec::new() }
    }

    fn find(&self, addr: Address) -> (place: Option<usize>)
        requires
            self.wf(),
        ensures
            place is Some == is_known(self.known@, addr),
            place matches Some(k) ==> k < self.known@.len() && k == known_at(self.known@, addr),
    {
        let mut k: usize = 0;
        while k < self.known.len()
            invariant
                self.wf(),
                k <= self.known@.len(),
                forall|j: int| 0 <= j < k ==> (#[trigger] self.known@[j]).addr != addr,
            decreases self.known@.len() - k,
        {
            if self.known[k].addr == addr {
                proof {
                    assert(self.known@[k as int].addr == addr);
                }
                return Some(k);
            }
            k += 1;
        }
        None
    }

    /// What is known of a path.
    pub fn estimate(&self, addr: Address) -> (estimate: Option<Estimate>)
        requires
            self.wf(),
        ensures
            estimate == estimate_of(self.known@, addr),
    {
        match self.find(addr) {
            Some(k) => Some(self.known[k].estimate),
            None => None,
        }
    }

    /// Records a round trip measured on a path.
    pub fn observe(&mut self, addr: Address, sample: u64)
        requires
            old(self).wf(),
        ensures
            final(self).wf(),
            final(self).known@ == measured(old(self).known@, addr, sample),
    {
        let ghost before = self.known@;
        match self.find(addr) {
            Some(k) => {
                let mut estimate = self.known[k].estimate;
                estimate.fold(sample);
                self.known.set(k, Path { addr, estimate });
            },
            None => {
                proof {
                    assert forall|j: int| 0 <= j < before.len() implies (
                    #[trigger] before[j]).addr != addr by {}
                }
                if self.known.len() >= MAX_PATHS {
                    let _ = self.known.remove(0);
                }
                self.known.push(Path { addr, estimate: Estimate::new(sample) });
            },
        }
    }
}

/// What one path measured is never applied to another: measuring a path leaves
/// what is known of every other as it was, or forgets it.
pub proof fn an_estimate_belongs_to_its_path(
    known: Seq<Path>,
    addr: Address,
    sample: u64,
    other: Address,
)
    requires
        forall|i: int, j: int|
            0 <= i < known.len() && 0 <= j < known.len() && i != j ==> (#[trigger] known[i]).addr
                != (#[trigger] known[j]).addr,
        other != addr,
    ensures
        estimate_of(measured(known, addr, sample), other) == estimate_of(known, other)
            || estimate_of(measured(known, addr, sample), other) is None,
        known.len() < MAX_PATHS ==> estimate_of(measured(known, addr, sample), other)
            == estimate_of(known, other),
{
    let now = measured(known, addr, sample);
    let shift = if !is_known(known, addr) && known.len() >= MAX_PATHS {
        1int
    } else {
        0
    };
    if is_known(now, other) {
        let k = known_at(now, other);
        assert(now[k] == known[k + shift]);
        assert(known[k + shift].addr == other);
        assert(known_at(known, other) == k + shift);
    }
    if is_known(known, other) && shift == 0 {
        let k = known_at(known, other);
        assert(known[k].addr == other);
        assert(now[k] == known[k]);
        assert(now[k].addr == other);
    }
}

/// A handshake this side started, waiting for its reply.
pub struct Outbound {
    /// Where the opening frame goes.
    pub addr: Address,
    /// The identifier that the reply has to carry.
    pub session_id: u32,
    /// The opening frame, kept so that it can be sent again.
    pub frame: Vec<u8>,
    /// When it was first sent.
    pub started: u64,
    /// When it is to be sent again, or given up on.
    pub next_attempt: u64,
    /// How many times it has been sent.
    pub attempts: u8,
    /// The step of its path's schedule.
    pub step: u64,
}

/// Whether a handshake that is due is to be given up on: it has been sent as
/// often as it is going to be, and the time that takes cold has passed too.
pub open spec fn hopeless(o: Outbound, now: u64) -> bool {
    o.attempts >= HANDSHAKE_ATTEMPTS && elapsed(o.started, now) >= HANDSHAKE_BUDGET
}

/// The attempts counted after one more.
pub open spec fn one_more(attempts: u8) -> u8 {
    if attempts < u8::MAX {
        (attempts + 1) as u8
    } else {
        u8::MAX
    }
}

impl Outbound {
    /// A handshake whose opening frame has just been sent for the first time.
    pub fn start(addr: Address, session_id: u32, frame: Vec<u8>, step: u64, now: u64) -> (outbound:
        Self)
        ensures
            outbound == (Outbound {
                addr,
                session_id,
                frame,
                started: now,
                next_attempt: after(now, step),
                attempts: 1,
                step,
            }),
    {
        Outbound {
            addr,
            session_id,
            frame,
            started: now,
            next_attempt: now.saturating_add(step),
            attempts: 1,
            step,
        }
    }

    /// Whether a handshake that is due is to be given up on.
    pub fn is_hopeless(&self, now: u64) -> (give_up: bool)
        ensures
            give_up == hopeless(*self, now),
    {
        self.attempts >= HANDSHAKE_ATTEMPTS && now.saturating_sub(self.started) >= HANDSHAKE_BUDGET
    }

    /// Counts one more attempt, and backs off so that an unreachable peer is not
    /// hammered.
    pub fn send_again(&mut self, now: u64)
        ensures
            *final(self) == (Outbound {
                attempts: one_more(old(self).attempts),
                next_attempt: after(
                    now,
                    backoff(old(self).step, one_more(old(self).attempts) as int),
                ),
                ..*old(self)
            }),
    {
        self.attempts = self.attempts.saturating_add(1);
        let wait: u64 = back_off(self.step, self.attempts as u64);
        self.next_attempt = now.saturating_add(wait);
    }
}

/// On an unmeasured path the budget is exactly what the attempts take: when the
/// last of them has gone unanswered for its whole wait, and each earlier one
/// had, there is nothing more to wait for.
pub proof fn an_unmeasured_path_is_given_up_on_after_its_last_attempt(
    started: u64,
    second: u64,
    third: u64,
    fourth: u64,
    now: u64,
)
    requires
        started + backoff(HANDSHAKE_RETRY, 1) <= second,
        second + backoff(HANDSHAKE_RETRY, 2) <= third,
        third + backoff(HANDSHAKE_RETRY, 3) <= fourth,
        fourth + backoff(HANDSHAKE_RETRY, 4) <= now,
    ensures
        elapsed(started, now) >= HANDSHAKE_BUDGET,
{
}

/// A path that was fast and has gone silent is still given the whole time that
/// an unmeasured one gets.
pub proof fn nothing_is_given_up_on_early(o: Outbound, now: u64)
    requires
        elapsed(o.started, now) < HANDSHAKE_BUDGET,
    ensures
        !hopeless(o, now),
{
}

/// Each wait of a blocking handshake is a quarter of a second longer than the one
/// before it, unless the deadline comes first: then it is what is left until then.
pub proof fn each_wait_is_a_step_longer(attempt: u64, deadline: u64, now: u64)
    requires
        now < deadline,
    ensures
        attempt * 250_000_000 < deadline - now ==> exchange_wait_for(attempt, deadline, now)
            == Some((attempt * 250_000_000) as u64),
        attempt * 250_000_000 >= deadline - now ==> exchange_wait_for(attempt, deadline, now)
            == Some((deadline - now) as u64),
{
    assert(HANDSHAKE_RETRY * attempt == attempt * 250_000_000);
}

/// The wait after an attempt grows with the attempts made, one step for each, as far
/// as it can be counted.
pub proof fn the_wait_grows_with_the_attempts(step: u64, attempts: u8)
    ensures
        step * attempts <= u64::MAX ==> backoff(step, attempts as int) == step * attempts,
        step * attempts > u64::MAX ==> backoff(step, attempts as int) == u64::MAX,
        attempts < 255 ==> one_more(attempts) == attempts + 1,
        one_more(255) == 255,
        attempts < 255 ==> backoff(step, attempts as int) <= backoff(
            step,
            one_more(attempts) as int,
        ),
{
    if attempts < 255 {
        assert(step * attempts <= step * (attempts + 1)) by (nonlinear_arith)
            requires
                step >= 0,
        ;
    }
}

/// A first measurement is the estimate, give or take half of it. Each one after that
/// moves the estimate an eighth of the way towards itself, and what it is off by a
/// quarter of the way, but for what is lost to whole numbers.
pub proof fn each_measurement_moves_the_estimate_towards_itself(estimate: Estimate, sample: u64)
    ensures
        Estimate::first(sample).smoothed == sample,
        Estimate::first(sample).variation == sample / 2,
        8 * estimate.folded(sample).smoothed == 7 * estimate.smoothed + sample + estimate.smoothed
            % 8 - sample % 8,
        ({
            let gap = if sample >= estimate.smoothed {
                sample - estimate.smoothed
            } else {
                estimate.smoothed - sample
            };
            4 * estimate.folded(sample).variation == 3 * estimate.variation + gap
                + estimate.variation % 4 - gap % 4
        }),
        estimate.smoothed + 4 * estimate.variation <= u64::MAX ==> estimate.patience()
            == estimate.smoothed + 4 * estimate.variation,
        estimate.smoothed + 4 * estimate.variation > u64::MAX ==> estimate.patience() == u64::MAX,
{
}

/// The first repeat on a measured path comes when a reply is overdue there: within a
/// quarter of a second whatever was measured, and not within a hundredth.
pub proof fn the_first_repeat_follows_the_path(estimate: Estimate)
    ensures
        step_for(None) == 250_000_000,
        10_000_000 <= step_for(Some(estimate)) <= 250_000_000,
        10_000_000 <= estimate.patience() <= 250_000_000 ==> step_for(Some(estimate))
            == estimate.patience(),
        estimate.patience() < 10_000_000 ==> step_for(Some(estimate)) == 10_000_000,
        estimate.patience() > 250_000_000 ==> step_for(Some(estimate)) == 250_000_000,
{
}

/// What is measured on a path is remembered for it: folded into what was known, or
/// as the first that is known. No more paths are remembered than may be.
pub proof fn a_measurement_is_remembered_for_its_path(
    known: Seq<Path>,
    addr: Address,
    sample: u64,
)
    requires
        known.len() <= 256,
        forall|i: int, j: int|
            0 <= i < known.len() && 0 <= j < known.len() && i != j ==> (#[trigger] known[i]).addr
                != (#[trigger] known[j]).addr,
    ensures
        estimate_of(measured(known, addr, sample), addr) == Some(
            match estimate_of(known, addr) {
                Some(e) => e.folded(sample),
                None => Estimate::first(sample),
            },
        ),
        measured(known, addr, sample).len() <= 256,
        estimate_of(known, addr) is Some <==> exists|k: int|
            0 <= k < known.len() && (#[trigger] known[k]).addr == addr,
        forall|k: int|
            0 <= k < known.len() && (#[trigger] known[k]).addr == addr ==> estimate_of(known, addr)
                == Some(known[k].estimate),
{
    let now = measured(known, addr, sample);
    let p = if is_known(known, addr) {
        known_at(known, addr)
    } else {
        now.len() - 1
    };
    assert(now[p].addr == addr);
    assert forall|k: int| 0 <= k < now.len() && k != p implies (#[trigger] now[k]).addr != addr by {
        if is_known(known, addr) {
            assert(now[k] == known[k]);
            assert(known[k].addr != known[p].addr);
        } else if known.len() >= MAX_PATHS {
            assert(now[k] == known[k + 1]);
            assert(known[k + 1].addr != addr);
        } else {
            assert(now[k] == known[k]);
            assert(known[k].addr != addr);
        }
    }
    assert(known_at(now, addr) == p);
}

/// A handshake is given up on exactly where its opening frame has been sent four
/// times and two and a half seconds have passed since the first.
pub proof fn when_a_handshake_is_given_up_on(o: Outbound, now: u64)
    ensures
        hopeless(o, now) <==> o.attempts >= 4 && now - o.started >= 2_500_000_000,
{
}

/// Only the path known the longest is forgotten for a new one, and only where as many
/// are known as may be: every other stays known, with what was measured on it.
pub proof fn the_path_known_longest_is_forgotten_first(
    known: Seq<Path>,
    addr: Address,
    sample: u64,
    k: int,
)
    requires
        known.len() <= 256,
        0 <= k < known.len(),
        known[k].addr != addr,
    ensures
        measured(known, addr, sample).contains(known[k]) || (k == 0 && known.len() == 256),
{
    let now = measured(known, addr, sample);
    if is_known(known, addr) {
        assert(known[known_at(known, addr)].addr == addr);
        assert(now[k] == known[k]);
    } else if known.len() >= MAX_PATHS {
        if k > 0 {
            assert(now[k - 1] == known[k]);
        }
    } else {
        assert(now[k] == known[k]);
    }
}

} // verus!
