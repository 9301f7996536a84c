//! One wait for something to happen: what a pass does and in which order, and
//! when the wait is over.
//!
//! What is done by the clock is done for every peer, so it is done only once
//! something is due. A datagram that comes before then costs the same however
//! many peers there are: it is dispatched, at most the queue of the one peer it
//! came from is fed, and the socket is read again.

use vstd::prelude::*;

use crate::clock::{blocking, socket_timeout, sooner, soonest, until};
use crate::error::{is_stale_unreachable, is_timeout, IoKind};
use crate::table::PeerId;

verus! {

/// Whether the caller's time is up.
pub open spec fn expired(deadline: Option<u64>, now: u64) -> bool {
    deadline matches Some(d) && now >= d
}

/// Whether the caller's time is up.
///
/// Asked after every datagram, whatever came of it: the timeout belongs to the
/// caller, and a datagram coming in is no reason to extend it.
pub fn time_is_up(deadline: Option<u64>, now: u64) -> (up: bool)
    ensures
        up == expired(deadline, now),
{
    match deadline {
        Some(d) => now >= d,
        None => false,
    }
}

/// What a pass has just done, and what came of it.
#[derive(Debug, Clone, Copy)]
pub enum Polled {
    /// It has begun.
    Begun,
    /// It has sent again what was overdue.
    RetransmitsDriven {
        /// Whether that succeeded.
        ok: bool,
    },
    /// It has done what was due about the handshakes under way.
    HandshakesDriven {
        /// Whether that succeeded.
        ok: bool,
        /// Whether one was given up on.
        failed: bool,
    },
    /// It has fed the queues into the free part of the send windows.
    QueuesDriven {
        /// Whether that succeeded.
        ok: bool,
    },
    /// It has released the peers that were not heard from.
    LivenessDriven,
    /// It has sent the keep-alives that were due.
    KeepalivesDriven {
        /// Whether that succeeded.
        ok: bool,
    },
    /// It has looked for something that happened and was not reported.
    Looked {
        /// Whether there was something.
        found: bool,
    },
    /// It has worked out what to wait for.
    Planned {
        /// How long the socket may block, if not for ever.
        timeout: Option<u64>,
        /// When something next falls due by the clock, if anything does.
        due: Option<u64>,
    },
    /// It could not set how long the socket may block.
    TimeoutRefused,
    /// It has read from the socket.
    Read(Result<usize, IoKind>),
    /// It has dispatched a datagram.
    Dispatched {
        /// Whether that succeeded.
        ok: bool,
        /// Whether something happened.
        happened: bool,
        /// The peer that the datagram was credited to, if it was to one.
        heard: Option<PeerId>,
    },
    /// It has fed the queue of one peer into the free part of its send window.
    QueueDriven {
        /// Whether that succeeded.
        ok: bool,
        /// When something about that peer next falls due by the clock, if
        /// anything does.
        due: Option<u64>,
    },
}

/// What a pass does next.
#[derive(Debug, Clone, Copy, PartialEq, Eq, Structural)]
pub enum Poll {
    /// Begin another pass.
    Again,
    /// Send again what is overdue.
    DriveRetransmits,
    /// Do what is due about the handshakes under way.
    DriveHandshakes,
    /// Feed the queues into the free part of the send windows.
    DriveQueues,
    /// Release the peers that have not been heard from.
    DriveLiveness,
    /// Send the keep-alives that are due.
    DriveKeepalives,
    /// Look for something that happened and was not reported.
    Look,
    /// Work out what to wait for.
    Plan,
    /// Read from the socket, which may block for no longer than this.
    Read(Option<u64>),
    /// Dispatch the datagram of this length.
    Dispatch(usize),
    /// Feed the queue of this peer, whose window may have opened.
    DriveQueue(PeerId),
    /// Report what happened.
    Report,
    /// Report that nothing did.
    Idle,
    /// Report the failure at hand.
    Fail,
}

/// A wait for something to happen.
#[derive(Debug, Clone, Copy, PartialEq, Eq, Structural)]
pub struct Wait {
    /// When the caller's time is up, if ever.
    pub deadline: Option<u64>,
    /// Whether this pass has worked out what to wait for.
    pub planned: bool,
    /// When something next falls due by the clock, if anything does.
    pub due: Option<u64>,
}

impl Wait {
    /// Whether something is due by the clock, or nobody has looked yet.
    pub open spec fn is_due(self, now: u64) -> bool {
        !self.planned || expired(self.due, now)
    }

    /// How long the socket may block: until something is due or the time is up.
    pub open spec fn patience(self, now: u64) -> Option<u64> {
        match sooner(self.due, self.deadline) {
            Some(at) => Some(blocking(until(at, now))),
            None => None,
        }
    }

    /// What follows when nothing has happened: the end, if the time is up;
    /// another pass, if something is due; and otherwise the next datagram.
    pub open spec fn onward(self, now: u64) -> Poll {
        if expired(self.deadline, now) {
            Poll::Idle
        } else if self.is_due(now) {
            Poll::Again
        } else {
            Poll::Read(self.patience(now))
        }
    }

    /// A wait that is about to begin.
    pub fn new(deadline: Option<u64>) -> (wait: Self)
        ensures
            wait == (Wait { deadline, planned: false, due: None }),
    {
        Wait { deadline, planned: false, due: None }
    }

    /// What follows when nothing has happened.
    fn go_on(&self, now: u64) -> (next: Poll)
        ensures
            next == self.onward(now),
    {
        if time_is_up(self.deadline, now) {
            return Poll::Idle;
        }
        if !self.planned || time_is_up(self.due, now) {
            return Poll::Again;
        }
        let left: Option<u64> = match soonest(self.due, self.deadline) {
            Some(at) => Some(at.saturating_sub(now)),
            None => None,
        };
        Poll::Read(socket_timeout(left))
    }
}

/// The end of a read that timed out: another pass, unless the time is up.
pub open spec fn round(deadline: Option<u64>, now: u64) -> Poll {
    if expired(deadline, now) {
        Poll::Idle
    } else {
        Poll::Again
    }
}

/// One thing if something went well, and the end of the wait otherwise.
pub open spec fn provided(ok: bool, next: Poll) -> Poll {
    if ok {
        next
    } else {
        Poll::Fail
    }
}

/// What is known of a wait once something has been done.
pub open spec fn waiting(wait: Wait, done: Polled) -> Wait {
    match done {
        Polled::Begun => Wait { planned: false, due: None, ..wait },
        Polled::Planned { due, .. } => Wait { planned: true, due, ..wait },
        Polled::QueueDriven { due, .. } => Wait { due: sooner(wait.due, due), ..wait },
        _ => wait,
    }
}

/// What a pass does next, given what it has just done.
///
/// Peers are released before keep-alives are sent, so that none is sent one on
/// the pass that gives up on it. That somebody written to is not listening is
/// news about one peer, and no failure of the socket. A read that times out ends
/// a wait that has no deadline; otherwise only the deadline does, and a datagram
/// coming in is no reason to extend it. A frame credited to a peer may have opened
/// that peer's send window, so its queue is fed before the next datagram is read.
pub open spec fn polling(wait: Wait, done: Polled, now: u64) -> Poll {
    match done {
        Polled::Begun => Poll::DriveRetransmits,
        Polled::RetransmitsDriven { ok } => provided(ok, Poll::DriveHandshakes),
        Polled::HandshakesDriven { ok, failed } => if failed {
            Poll::Report
        } else {
            provided(ok, Poll::DriveQueues)
        },
        Polled::QueuesDriven { ok } => provided(ok, Poll::DriveLiveness),
        Polled::LivenessDriven => Poll::DriveKeepalives,
        Polled::KeepalivesDriven { ok } => provided(ok, Poll::Look),
        Polled::Looked { found } => if found {
            Poll::Report
        } else if !wait.planned {
            Poll::Plan
        } else {
            wait.onward(now)
        },
        Polled::Planned { timeout, .. } => Poll::Read(timeout),
        Polled::TimeoutRefused => Poll::Fail,
        Polled::Read(Ok(n)) => Poll::Dispatch(n),
        Polled::Read(Err(kind)) => if kind == IoKind::ConnectionRefused || kind
            == IoKind::ConnectionReset {
            wait.onward(now)
        } else if kind == IoKind::WouldBlock || kind == IoKind::TimedOut {
            if wait.deadline is None {
                Poll::Idle
            } else {
                round(wait.deadline, now)
            }
        } else {
            Poll::Fail
        },
        Polled::Dispatched { ok, happened, heard } => if !ok {
            Poll::Fail
        } else if happened {
            Poll::Report
        } else if let Some(peer) = heard {
            Poll::DriveQueue(peer)
        } else {
            wait.onward(now)
        },
        Polled::QueueDriven { ok, .. } => provided(ok, Poll::Look),
    }
}

/// One thing if something went well, and the end of the wait otherwise.
fn if_well(ok: bool, next: Poll) -> (then_next: Poll)
    ensures
        then_next == provided(ok, next),
{
    if ok {
        next
    } else {
        Poll::Fail
    }
}

/// Decides what a pass does next.
pub fn poll(wait: &mut Wait, done: Polled, now: u64) -> (next: Poll)
    ensures
        *final(wait) == waiting(*old(wait), done),
        next == polling(*old(wait), done, now),
{
    match done {
        Polled::Begun => {
            wait.planned = false;
            wait.due = None;
            Poll::DriveRetransmits
        },
        Polled::RetransmitsDriven { ok } => if_well(ok, Poll::DriveHandshakes),
        Polled::HandshakesDriven { ok, failed } => if failed {
            Poll::Report
        } else {
            if_well(ok, Poll::DriveQueues)
        },
        Polled::QueuesDriven { ok } => if_well(ok, Poll::DriveLiveness),
        Polled::LivenessDriven => Poll::DriveKeepalives,
        Polled::KeepalivesDriven { ok } => if_well(ok, Poll::Look),
        Polled::Looked { found } => if found {
            Poll::Report
        } else if !wait.planned {
            Poll::Plan
        } else {
            wait.go_on(now)
        },
        Polled::Planned { timeout, due } => {
            wait.planned = true;
            wait.due = due;
            Poll::Read(timeout)
        },
        Polled::TimeoutRefused => Poll::Fail,
        Polled::Read(Ok(n)) => Poll::Dispatch(n),
        Polled::Read(Err(kind)) => {
            if is_stale_unreachable(kind) {
                wait.go_on(now)
            } else if is_timeout(kind) {
                if wait.deadline.is_none() || time_is_up(wait.deadline, now) {
                    Poll::Idle
                } else {
                    Poll::Again
                }
            } else {
                Poll::Fail
            }
        },
        Polled::Dispatched { ok, happened, heard } => {
            if !ok {
                return Poll::Fail;
            }
            if happened {
                return Poll::Report;
            }
            match heard {
                Some(peer) => Poll::DriveQueue(peer),
                None => wait.go_on(now),
            }
        },
        Polled::QueueDriven { ok, due } => {
            wait.due = soonest(wait.due, due);
            if_well(ok, Poll::Look)
        },
    }
}

/// A wait comes back when it said it would: once the time is up no further pass
/// begins, whether or not datagrams keep coming, and a datagram that brought
/// nothing is the last.
pub proof fn a_wait_ends_at_its_deadline(wait: Wait, done: Polled, now: u64)
    requires
        expired(wait.deadline, now),
    ensures
        polling(wait, done, now) != Poll::Again,
        polling(wait, Polled::Dispatched { ok: true, happened: false, heard: None }, now)
            == Poll::Idle,
        wait.planned ==> polling(wait, Polled::Looked { found: false }, now) == Poll::Idle,
{
}

/// What a datagram costs does not grow with the number of peers: while nothing is
/// due by the clock and the time is not up, a datagram that brought nothing is
/// followed by reading the next. One that was credited to a peer is followed by
/// feeding that one peer's queue, by looking for what came of it, and then by
/// reading the next. No pass over all the peers begins.
pub proof fn a_datagram_costs_no_pass(
    wait: Wait,
    peer: PeerId,
    due: Option<u64>,
    now: u64,
    fed: u64,
    looked: u64,
)
    requires
        wait.planned,
        !expired(wait.due, now),
        !expired(wait.deadline, now),
        !expired(sooner(wait.due, due), looked),
        !expired(wait.deadline, looked),
    ensures
        polling(wait, Polled::Dispatched { ok: true, happened: false, heard: None }, now)
            == Poll::Read(wait.patience(now)),
        polling(wait, Polled::Dispatched { ok: true, happened: false, heard: Some(peer) }, now)
            == Poll::DriveQueue(peer),
        polling(wait, Polled::QueueDriven { ok: true, due }, fed) == Poll::Look,
        ({
            let then_wait = waiting(wait, Polled::QueueDriven { ok: true, due });
            polling(then_wait, Polled::Looked { found: false }, looked) == Poll::Read(
                then_wait.patience(looked),
            )
        }),
{
}

/// A pass over all the peers begins only where something is due by the clock, or
/// where the socket has been quiet for as long as it was to be read; and each of
/// its parts follows only from the one before it.
pub proof fn a_pass_begins_only_when_something_is_due(wait: Wait, done: Polled, now: u64)
    ensures
        polling(wait, done, now) == Poll::Again ==> {
            ||| wait.is_due(now)
            ||| done matches Polled::Read(Err(kind)) && (kind == IoKind::WouldBlock || kind
                == IoKind::TimedOut)
        },
        polling(wait, done, now) == Poll::DriveRetransmits ==> done is Begun,
        polling(wait, done, now) == Poll::DriveHandshakes ==> done is RetransmitsDriven,
        polling(wait, done, now) == Poll::DriveQueues ==> done is HandshakesDriven,
        polling(wait, done, now) == Poll::DriveLiveness ==> done is QueuesDriven,
        polling(wait, done, now) == Poll::DriveKeepalives ==> done is LivenessDriven,
        polling(wait, done, now) == Poll::Plan ==> done is Looked && !wait.planned,
{
}

/// The socket never blocks past what it is waited for: read after a datagram, it
/// wakes by the moment that something falls due and by the caller's deadline,
/// but for the millisecond that is the least a socket can be told.
pub proof fn no_read_sleeps_past_what_is_due(wait: Wait, now: u64)
    ensures
        wait.onward(now) matches Poll::Read(timeout) ==> {
            &&& wait.due matches Some(at) ==> timeout matches Some(t) && t <= blocking(
                until(at, now),
            )
            &&& wait.deadline matches Some(at) ==> timeout matches Some(t) && t <= blocking(
                until(at, now),
            )
        },
{
}

/// What follows each step of a pass, where it went well and where it did not: a
/// failure ends the wait with that failure, something that happened ends it with
/// that, and everything else leads on.
pub proof fn what_follows_each_step_of_a_pass(
    wait: Wait,
    now: u64,
    n: usize,
    peer: PeerId,
    timeout: Option<u64>,
    due: Option<u64>,
    kind: IoKind,
    ok: bool,
)
    ensures
        polling(wait, Polled::Begun, now) == Poll::DriveRetransmits,
        polling(wait, Polled::RetransmitsDriven { ok: true }, now) == Poll::DriveHandshakes,
        polling(wait, Polled::HandshakesDriven { ok: true, failed: false }, now)
            == Poll::DriveQueues,
        polling(wait, Polled::QueuesDriven { ok: true }, now) == Poll::DriveLiveness,
        polling(wait, Polled::LivenessDriven, now) == Poll::DriveKeepalives,
        polling(wait, Polled::KeepalivesDriven { ok: true }, now) == Poll::Look,
        polling(wait, Polled::Planned { timeout, due }, now) == Poll::Read(timeout),
        polling(wait, Polled::Read(Ok(n)), now) == Poll::Dispatch(n),
        !wait.planned ==> polling(wait, Polled::Looked { found: false }, now) == Poll::Plan,
        polling(wait, Polled::HandshakesDriven { ok, failed: true }, now) == Poll::Report,
        polling(wait, Polled::Looked { found: true }, now) == Poll::Report,
        polling(wait, Polled::Dispatched { ok: true, happened: true, heard: Some(peer) }, now)
            == Poll::Report,
        polling(wait, Polled::Dispatched { ok: true, happened: true, heard: None }, now)
            == Poll::Report,
        polling(wait, Polled::RetransmitsDriven { ok: false }, now) == Poll::Fail,
        polling(wait, Polled::HandshakesDriven { ok: false, failed: false }, now) == Poll::Fail,
        polling(wait, Polled::QueuesDriven { ok: false }, now) == Poll::Fail,
        polling(wait, Polled::KeepalivesDriven { ok: false }, now) == Poll::Fail,
        polling(wait, Polled::TimeoutRefused, now) == Poll::Fail,
        polling(wait, Polled::QueueDriven { ok: false, due }, now) == Poll::Fail,
        polling(wait, Polled::Dispatched { ok: false, happened: ok, heard: None }, now)
            == Poll::Fail,
        kind == IoKind::InvalidInput || kind == IoKind::Other ==> polling(
            wait,
            Polled::Read(Err(kind)),
            now,
        ) == Poll::Fail,
        polling(wait, Polled::Read(Err(IoKind::TimedOut)), now) == polling(
            wait,
            Polled::Read(Err(IoKind::WouldBlock)),
            now,
        ),
        polling(wait, Polled::Read(Err(IoKind::TimedOut)), now) == Poll::Idle <==> (
        wait.deadline matches Some(d) ==> now >= d),
        polling(wait, Polled::Read(Err(IoKind::TimedOut)), now) == Poll::Again <==> (
        wait.deadline matches Some(d) && now < d),
        polling(wait, Polled::Read(Err(IoKind::ConnectionRefused)), now) == polling(
            wait,
            Polled::Dispatched { ok: true, happened: false, heard: None },
            now,
        ),
        polling(wait, Polled::Read(Err(IoKind::ConnectionReset)), now) == polling(
            wait,
            Polled::Dispatched { ok: true, happened: false, heard: None },
            now,
        ),
{
}

/// What comes after a datagram that brought nothing, in terms of the clock alone: the
/// end where the deadline has come; a pass where it has not and something is due; and
/// otherwise the next datagram, waited for no longer than until the first of the two.
pub proof fn what_comes_after_a_datagram(wait: Wait, now: u64)
    requires
        wait.planned,
    ensures
        ({
            let next = polling(
                wait,
                Polled::Dispatched { ok: true, happened: false, heard: None },
                now,
            );
            let over = wait.deadline matches Some(d) && now >= d;
            let due = wait.due matches Some(d) && now >= d;
            &&& next == Poll::Idle <==> over
            &&& next == Poll::Again <==> !over && due
            &&& next is Read <==> !over && !due
            &&& next matches Poll::Read(timeout) ==> {
                &&& timeout is None <==> wait.deadline is None && wait.due is None
                &&& timeout matches Some(t) ==> t >= 1_000_000 && (t == 1_000_000 || (
                wait.deadline matches Some(d) && t == d - now) || (wait.due matches Some(d) && t == d
                    - now))
                &&& wait.deadline matches Some(d) ==> timeout->0 <= d - now || timeout->0
                    <= 1_000_000
                &&& wait.due matches Some(d) ==> timeout->0 <= d - now || timeout->0 <= 1_000_000
            }
        }),
{
}

/// What is remembered between the steps: a pass that begins has planned nothing; one
/// that has planned knows when something is next due; and what feeding one peer's
/// queue makes due can only bring that nearer. The deadline is never put off.
pub proof fn what_a_wait_remembers(
    wait: Wait,
    done: Polled,
    timeout: Option<u64>,
    due: Option<u64>,
    ok: bool,
)
    ensures
        waiting(wait, done).deadline == wait.deadline,
        !waiting(wait, Polled::Begun).planned,
        waiting(wait, Polled::Planned { timeout, due }) == (Wait {
            deadline: wait.deadline,
            planned: true,
            due,
        }),
        waiting(wait, Polled::QueueDriven { ok, due }).planned == wait.planned,
        wait.due matches Some(d) ==> (waiting(
            wait,
            Polled::QueueDriven { ok, due },
        ).due matches Some(e) && e <= d),
        due matches Some(d) ==> (waiting(
            wait,
            Polled::QueueDriven { ok, due },
        ).due matches Some(e) && e <= d),
        waiting(wait, Polled::QueueDriven { ok, due }).due == wait.due || waiting(
            wait,
            Polled::QueueDriven { ok, due },
        ).due == due,
        !(done is Begun) && !(done is Planned) && !(done is QueueDriven) ==> waiting(wait, done)
            == wait,
{
}

} // verus!
