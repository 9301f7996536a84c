//! A session with one peer: what is held for the application, how long to wait,
//! and when a wait for delivery is over.

use std::collections::VecDeque;

use vstd::prelude::*;

use crate::clock::{after, blocking, elapsed, socket_timeout, sooner, soonest, until};
use crate::compress::{planned, PayloadType, Plan};
use crate::drive::{takes_reliable, Route};
use crate::duplex::Carried;
use crate::endpoint::{at_least, honoured, MIN_KEEPALIVE};
use crate::error::{is_timeout, Error, IoKind};
use crate::link::{Link, PublicKey};
use crate::peer::{bare_room, room, Attempt, Finished, Peer};
use crate::poll::{expired, time_is_up};

verus! {

/// A session with one peer.
pub struct Connection {
    /// Its protocol state.
    pub peer: Peer,
    /// Messages that came while nobody was reading, oldest first.
    pub inbox: VecDeque<Vec<u8>>,
    /// How long a read waits, if not for ever.
    pub read_timeout: Option<u64>,
    /// Largest datagram to send.
    pub datagram_limit: usize,
    /// How long the peer may go without being sent anything, if that matters.
    pub keepalive: Option<u64>,
    /// When something was last sent.
    pub last_sent: u64,
}

/// What a wait for a message leads to.
#[derive(Debug, Clone, Copy, PartialEq, Eq, Structural)]
pub enum Recv {
    /// A message of this length has been handed over.
    Message(usize),
    /// Nothing yet.
    Again,
    /// Nothing, and the time is up.
    TimedOut,
}

/// What a wait for delivery leads to.
#[derive(Debug, Clone, Copy, PartialEq, Eq, Structural)]
pub enum Flush {
    /// Everything was acknowledged.
    Done,
    /// This many messages were given up on, or are outstanding at the deadline.
    Unacknowledged(usize),
    /// Not yet.
    Wait,
}

/// The sum of two counts, as far as it can be counted.
pub open spec fn counted(a: usize, b: usize) -> usize {
    if a + b <= usize::MAX {
        (a + b) as usize
    } else {
        usize::MAX
    }
}

/// What a wait for delivery leads to.
pub open spec fn flushed(connection: Connection, in_flight: usize, deadline: u64, now: u64) -> Flush {
    let given_up = connection.peer.given_up;
    if in_flight == 0 && connection.peer.queue@.len() == 0 {
        if given_up == 0 {
            Flush::Done
        } else {
            Flush::Unacknowledged(given_up)
        }
    } else if now >= deadline {
        Flush::Unacknowledged(counted(in_flight, given_up))
    } else {
        Flush::Wait
    }
}

/// Copies a message out, or refuses where there is no room for it.
pub fn copy_out(message: &Vec<u8>, out: &mut [u8]) -> (length: Result<usize, Error>)
    ensures
        final(out)@.len() == old(out)@.len(),
        if old(out)@.len() < message@.len() {
            &&& length == Err::<usize, Error>(
                Error::PayloadTooLarge {
                    len: message@.len() as usize,
                    limit: old(out)@.len() as usize,
                },
            )
            &&& final(out)@ == old(out)@
        } else {
            &&& length == Ok::<usize, Error>(message@.len() as usize)
            &&& final(out)@ == message@ + old(out)@.skip(message@.len() as int)
        },
{
    if out.len() < message.len() {
        return Err(Error::PayloadTooLarge { len: message.len(), limit: out.len() });
    }
    let ghost before = out@;
    let mut i: usize = 0;
    while i < message.len()
        invariant
            i <= message@.len() <= out@.len(),
            out@.len() == before.len(),
            out@ == message@.take(i as int) + before.skip(i as int),
        decreases message@.len() - i,
    {
        out[i] = message[i];
        i += 1;
        proof {
            assert(out@ =~= message@.take(i as int) + before.skip(i as int));
        }
    }
    proof {
        assert(message@.take(i as int) =~= message@);
    }
    Ok(message.len())
}

impl Connection {
    /// What every operation keeps.
    pub open spec fn wf(&self) -> bool {
        self.peer.wf()
    }

    /// A session just established.
    pub fn new(link: Link, datagram_limit: usize, now: u64) -> (connection: Self)
        ensures
            connection.wf(),
            connection.peer.is_new(link, datagram_limit as nat),
            connection.inbox@.len() == 0,
            connection.read_timeout is None,
            connection.datagram_limit == datagram_limit,
            connection.keepalive is None,
            connection.last_sent == now,
    {
        Connection {
            peer: Peer::new(link, datagram_limit),
            inbox: VecDeque::new(),
            read_timeout: None,
            datagram_limit,
            keepalive: None,
            last_sent: now,
        }
    }

    /// Puts what the peer sent with its handshake reply where a read will find
    /// it, unless there is nothing.
    pub fn queue_first(&mut self, first: Vec<u8>)
        requires
            old(self).wf(),
        ensures
            final(self).wf(),
            *final(self) == (Connection { inbox: final(self).inbox, ..*old(self) }),
            final(self).inbox@ == (if first@.len() == 0 {
                old(self).inbox@
            } else {
                old(self).inbox@.push(first)
            }),
    {
        if !first.is_empty() {
            self.inbox.push_back(first);
        }
    }

    /// Whether this session encrypts.
    pub fn is_encrypted(&self) -> (encrypted: bool)
        ensures
            encrypted == self.peer.link.encrypted,
    {
        self.peer.link.is_encrypted()
    }

    /// The peer's authenticated static public key.
    pub fn peer_public_key(&self) -> (key: PublicKey)
        ensures
            key == self.peer.link.remote(),
    {
        self.peer.link.remote_static()
    }

    /// Largest uncompressed payload of an unreliable message.
    pub fn max_payload(&self) -> (limit: usize)
        ensures
            limit == bare_room(self.peer.link, self.datagram_limit as nat),
    {
        self.peer.max_payload(self.datagram_limit)
    }

    /// Largest uncompressed payload of a reliable message in one frame.
    pub fn max_reliable_payload(&self) -> (limit: usize)
        ensures
            limit == room(self.peer.link, self.datagram_limit as nat, true, false),
    {
        self.peer.payload_room(self.datagram_limit, true, false)
    }

    /// Largest slice of a split message that one frame carries.
    pub fn max_fragment_payload(&self) -> (limit: usize)
        ensures
            limit == room(self.peer.link, self.datagram_limit as nat, true, true),
    {
        self.peer.max_fragment_payload(self.datagram_limit)
    }

    /// Split messages that this side has begun receiving and not completed.
    pub fn reassembling(&self) -> (count: usize)
        ensures
            count == self.peer.reassembly@.len(),
    {
        self.peer.reassembling()
    }

    /// Messages split across frames and not yet fully sent.
    pub fn queued(&self) -> (count: usize)
        ensures
            count == self.peer.queue@.len(),
    {
        self.peer.queued()
    }

    /// Masks payload lengths, where that means anything.
    pub fn set_padding(&mut self, enabled: bool)
        requires
            old(self).wf(),
        ensures
            final(self).wf(),
            *final(self) == (Connection {
                peer: Peer {
                    link: Link {
                        padding: if old(self).peer.link.encrypted {
                            enabled
                        } else {
                            old(self).peer.link.padding
                        },
                        ..old(self).peer.link
                    },
                    ..old(self).peer
                },
                ..*old(self)
            }),
    {
        self.peer.link.set_padding(enabled);
    }

    /// Sets how long a read waits before it reports a timeout.
    pub fn set_read_timeout(&mut self, timeout: Option<u64>)
        requires
            old(self).wf(),
        ensures
            final(self).wf(),
            *final(self) == (Connection { read_timeout: timeout, ..*old(self) }),
    {
        self.read_timeout = timeout;
    }

    /// Sends something small whenever nothing has been sent for `every`; `None`
    /// sends nothing. Anything shorter than the shortest that means something is
    /// raised to it.
    pub fn set_keepalive(&mut self, every: Option<u64>)
        requires
            old(self).wf(),
        ensures
            final(self).wf(),
            *final(self) == (Connection { keepalive: at_least(every, MIN_KEEPALIVE), ..*old(self) }),
    {
        self.keepalive = honoured(every, MIN_KEEPALIVE);
    }

    /// Whether a keep-alive is due.
    pub fn keepalive_due(&self, now: u64) -> (due: bool)
        ensures
            due == (self.keepalive matches Some(every) && elapsed(self.last_sent, now) >= every),
            self.keepalive matches Some(every) ==> (every > 0 ==> (due <==> now - self.last_sent
                >= every)),
    {
        match self.keepalive {
            Some(every) => now.saturating_sub(self.last_sent) >= every,
            None => false,
        }
    }

    /// Records that something was sent.
    pub fn sent(&mut self, now: u64)
        requires
            old(self).wf(),
        ensures
            final(self).wf(),
            *final(self) == (Connection { last_sent: now, ..*old(self) }),
    {
        self.last_sent = now;
    }

    /// Decides whether and how an unreliable message is coded before it is
    /// sealed.
    pub fn send(&mut self, data: &[u8], payload_type: PayloadType) -> (attempt: Attempt)
        requires
            old(self).wf(),
        ensures
            final(self).wf(),
            *final(self) == (Connection {
                peer: Peer {
                    coding: old(self).peer.coding.asked(payload_type),
                    ..old(self).peer
                },
                ..*old(self)
            }),
            attempt.limit == bare_room(old(self).peer.link, old(self).datagram_limit as nat),
            attempt.must_try == (data@.len() > attempt.limit),
            attempt.attempted == (old(self).peer.coding.attempts(payload_type) || attempt.must_try),
            attempt.plan == (if attempt.attempted {
                planned(data@, payload_type, old(self).peer.link.capabilities)
            } else {
                Plan::Skip
            }),
    {
        let limit: usize = self.datagram_limit;
        self.peer.begin_seal(data, payload_type, false, false, limit)
    }

    /// Decides how a reliable message goes out, and queues it where it takes
    /// more than one frame.
    pub fn send_reliable(&mut self, data: &[u8], payload_type: PayloadType) -> (route: Result<
        Route,
        Error,
    >)
        requires
            old(self).wf(),
        ensures
            final(self).wf(),
            *final(self) == (Connection { peer: final(self).peer, ..*old(self) }),
            takes_reliable(
                &old(self).peer,
                &final(self).peer,
                data@,
                payload_type,
                old(self).datagram_limit as nat,
                route,
            ),
    {
        let limit: usize = self.datagram_limit;
        self.peer.send_reliable(data, payload_type, limit)
    }

    /// Takes out every message that came while nobody was reading, oldest first,
    /// for a receiver that is to see them before anything that comes later.
    pub fn take_kept(&mut self) -> (kept: Vec<Vec<u8>>)
        requires
            old(self).wf(),
        ensures
            final(self).wf(),
            *final(self) == (Connection { inbox: final(self).inbox, ..*old(self) }),
            kept@ == old(self).inbox@,
            final(self).inbox@.len() == 0,
    {
        let ghost before = self.inbox@;
        let mut kept: Vec<Vec<u8>> = Vec::new();
        while self.inbox.len() > 0
            invariant
                self.wf(),
                *self == (Connection { inbox: self.inbox, ..*old(self) }),
                before == old(self).inbox@,
                kept@ + self.inbox@ == before,
            decreases self.inbox@.len(),
        {
            if let Some(message) = self.inbox.pop_front() {
                kept.push(message);
            }
            proof {
                assert(kept@ + self.inbox@ =~= before);
            }
        }
        proof {
            assert(kept@ =~= before);
        }
        kept
    }

    /// Hands over the oldest message that came while nobody was reading, if
    /// there is one. One that there is no room for is lost.
    pub fn recv_kept(&mut self, out: &mut [u8]) -> (handed: Option<Result<usize, Error>>)
        requires
            old(self).wf(),
        ensures
            final(self).wf(),
            *final(self) == (Connection { inbox: final(self).inbox, ..*old(self) }),
            final(out)@.len() == old(out)@.len(),
            if old(self).inbox@.len() == 0 {
                &&& handed is None
                &&& final(self).inbox@ == old(self).inbox@
                &&& final(out)@ == old(out)@
            } else {
                let message = old(self).inbox@[0]@;
                &&& final(self).inbox@ == old(self).inbox@.skip(1)
                &&& if old(out)@.len() < message.len() {
                    &&& handed == Some(
                        Err::<usize, Error>(
                            Error::PayloadTooLarge {
                                len: message.len() as usize,
                                limit: old(out)@.len() as usize,
                            },
                        ),
                    )
                    &&& final(out)@ == old(out)@
                } else {
                    &&& handed == Some(Ok::<usize, Error>(message.len() as usize))
                    &&& final(out)@ == message + old(out)@.skip(message.len() as int)
                }
            },
    {
        match self.inbox.pop_front() {
            None => None,
            Some(message) => Some(copy_out(&message, out)),
        }
    }

    /// Keeps a message for a later read.
    pub fn keep(&mut self, message: Vec<u8>)
        requires
            old(self).wf(),
        ensures
            final(self).wf(),
            *final(self) == (Connection { inbox: final(self).inbox, ..*old(self) }),
            final(self).inbox@ == old(self).inbox@.push(message),
    {
        self.inbox.push_back(message);
    }

    /// When a read that begins now gives up, if it does.
    pub fn read_deadline(&self, now: u64) -> (deadline: Option<u64>)
        ensures
            deadline == (match self.read_timeout {
                Some(t) => Some(after(now, t)),
                None => None,
            }),
    {
        match self.read_timeout {
            Some(t) => Some(now.saturating_add(t)),
            None => None,
        }
    }

    /// Decides whether a wait for a message goes on, given what the last turn
    /// handed over.
    pub fn recv(&self, handed: Option<usize>, deadline: Option<u64>, now: u64) -> (next: Recv)
        ensures
            next == (match handed {
                Some(n) => Recv::Message(n),
                None => if expired(deadline, now) {
                    Recv::TimedOut
                } else {
                    Recv::Again
                },
            }),
    {
        match handed {
            Some(n) => Recv::Message(n),
            None => if time_is_up(deadline, now) {
                Recv::TimedOut
            } else {
                Recv::Again
            },
        }
    }

    /// How long the socket may block: until whichever comes first of the next
    /// retransmission, the deadline and the next keep-alive. `None` where there
    /// is nothing to wake for.
    pub fn pump_wait(&self, retransmit: Option<u64>, deadline: Option<u64>, now: u64) -> (timeout:
        Option<u64>)
        ensures
            timeout == ({
                let left = match deadline {
                    Some(d) => Some(until(d, now)),
                    None => None,
                };
                let kept = match self.keepalive {
                    Some(every) => Some(until(after(self.last_sent, every), now)),
                    None => None,
                };
                match sooner(sooner(retransmit, left), kept) {
                    Some(w) => Some(blocking(w)),
                    None => None,
                }
            }),
            timeout is None <==> retransmit is None && deadline is None && self.keepalive is None,
            timeout matches Some(t) ==> t >= 1_000_000,
            retransmit matches Some(w) ==> timeout->0 <= w || timeout->0 <= 1_000_000,
            deadline matches Some(d) ==> timeout->0 <= d - now || timeout->0 <= 1_000_000,
            self.keepalive matches Some(every) ==> timeout->0 <= self.last_sent + every - now
                || timeout->0 <= 1_000_000,
    {
        let left: Option<u64> = match deadline {
            Some(d) => Some(d.saturating_sub(now)),
            None => None,
        };
        let kept: Option<u64> = match self.keepalive {
            Some(every) => {
                let due: u64 = self.last_sent.saturating_add(every);
                Some(due.saturating_sub(now))
            },
            None => None,
        };
        socket_timeout(soonest(soonest(retransmit, left), kept))
    }

    /// Begins a wait for delivery: only what is given up on from here on counts.
    pub fn begin_flush(&mut self)
        requires
            old(self).wf(),
        ensures
            final(self).wf(),
            *final(self) == (Connection {
                peer: Peer { given_up: 0, ..old(self).peer },
                ..*old(self)
            }),
    {
        self.peer.given_up = 0;
    }

    /// Takes in that a split message finished: one that was lost counts as given
    /// up on, if none of its fragments has been counted already.
    pub fn note_finished(&mut self, finished: Option<Finished>)
        requires
            old(self).wf(),
        ensures
            final(self).wf(),
            *final(self) == (Connection {
                peer: Peer {
                    given_up: if finished == Some(Finished { delivered: false })
                        && old(self).peer.given_up == 0 {
                        1
                    } else {
                        old(self).peer.given_up
                    },
                    ..old(self).peer
                },
                ..*old(self)
            }),
    {
        match finished {
            Some(f) => {
                if !f.delivered && self.peer.given_up == 0 {
                    self.peer.given_up = 1;
                }
            },
            None => {},
        }
    }

    /// Decides whether a wait for delivery is over, given how many frames are in
    /// flight.
    ///
    /// Messages still queued are part of what is waited for.
    pub fn flush(&self, in_flight: usize, deadline: u64, now: u64) -> (next: Flush)
        ensures
            next == flushed(*self, in_flight, deadline, now),
    {
        if in_flight == 0 && self.peer.queued() == 0 {
            if self.peer.given_up == 0 {
                Flush::Done
            } else {
                Flush::Unacknowledged(self.peer.given_up)
            }
        } else if now >= deadline {
            Flush::Unacknowledged(in_flight.saturating_add(self.peer.given_up))
        } else {
            Flush::Wait
        }
    }
}

/// What a turn of the receive path has just done, and what came of it.
#[derive(Debug, Clone, Copy)]
pub enum Pumped {
    /// It has begun.
    Begun,
    /// It has fed the queue into the free part of the send window.
    QueueDriven {
        /// Whether that succeeded.
        ok: bool,
    },
    /// It has sent again what was overdue.
    Driven {
        /// Whether that succeeded.
        ok: bool,
    },
    /// It has set how long the socket may block.
    TimeoutSet {
        /// Whether that succeeded.
        ok: bool,
    },
    /// It has read from the socket.
    Read(Result<usize, IoKind>),
    /// It has worked out what a frame means.
    Ingested {
        /// Whether it could.
        ok: bool,
        /// Whether something is owed for it.
        reply: bool,
        /// What it carries.
        carried: Carried,
    },
    /// It has sent what was owed.
    Replied {
        /// Whether that succeeded.
        ok: bool,
    },
}

/// What a turn of the receive path does next.
#[derive(Debug, Clone, Copy, PartialEq, Eq, Structural)]
pub enum Pump {
    /// Feed the queue into the free part of the send window.
    DriveQueue,
    /// Send again what is overdue.
    Drive,
    /// Set how long the socket may block.
    SetTimeout,
    /// Read from the socket.
    Read,
    /// Work out what the frame of this length means.
    Ingest(usize),
    /// Send what is owed.
    Reply,
    /// Copy the message out to the reader.
    HandOver,
    /// Keep the message for a later read.
    Keep,
    /// Decode the body into the reader's buffer.
    DecodeOut,
    /// Decode the body, and keep it for a later read.
    DecodeAndKeep,
    /// End the turn with nothing.
    Nothing,
    /// End the turn with the failure at hand.
    Fail,
}

/// What follows once nothing more is owed for a frame: what it carries goes to
/// the reader if there is one, and is kept otherwise.
pub open spec fn pump_for(carried: Carried, reading: bool) -> Pump {
    match carried {
        Carried::Nothing => Pump::Nothing,
        Carried::Message => if reading {
            Pump::HandOver
        } else {
            Pump::Keep
        },
        Carried::Body => if reading {
            Pump::DecodeOut
        } else {
            Pump::DecodeAndKeep
        },
    }
}

/// What a turn of the receive path does next, given what it has just done, what
/// the frame in hand carries and whether there is a reader.
pub open spec fn pumping(carried: Carried, reading: bool, done: Pumped) -> Pump {
    match done {
        Pumped::Begun => Pump::DriveQueue,
        Pumped::QueueDriven { ok } => if ok {
            Pump::Drive
        } else {
            Pump::Fail
        },
        Pumped::Driven { ok } => if ok {
            Pump::SetTimeout
        } else {
            Pump::Fail
        },
        Pumped::TimeoutSet { ok } => if ok {
            Pump::Read
        } else {
            Pump::Fail
        },
        Pumped::Read(Ok(n)) => Pump::Ingest(n),
        Pumped::Read(Err(kind)) => if kind == IoKind::WouldBlock || kind == IoKind::TimedOut {
            Pump::Nothing
        } else {
            Pump::Fail
        },
        Pumped::Ingested { ok, reply, carried } => if !ok {
            Pump::Fail
        } else if reply {
            Pump::Reply
        } else {
            pump_for(carried, reading)
        },
        Pumped::Replied { ok } => if ok {
            pump_for(carried, reading)
        } else {
            Pump::Fail
        },
    }
}

/// One turn of the receive path.
///
/// Whose deadline expired, where nothing came, is the business of whoever asked
/// for the turn: a read reports a timeout, a wait for delivery reports what is
/// outstanding.
#[derive(Debug, Clone, Copy, PartialEq, Eq, Structural)]
pub struct Turn {
    /// Whether there is a reader.
    pub reading: bool,
    /// What the frame in hand carries.
    pub carried: Carried,
}

impl Turn {
    /// A turn that has not begun.
    pub fn new(reading: bool) -> (turn: Self)
        ensures
            turn == (Turn { reading, carried: Carried::Nothing }),
    {
        Turn { reading, carried: Carried::Nothing }
    }

    fn carry_on(&self) -> (next: Pump)
        ensures
            next == pump_for(self.carried, self.reading),
    {
        match self.carried {
            Carried::Nothing => Pump::Nothing,
            Carried::Message => if self.reading {
                Pump::HandOver
            } else {
                Pump::Keep
            },
            Carried::Body => if self.reading {
                Pump::DecodeOut
            } else {
                Pump::DecodeAndKeep
            },
        }
    }

    /// Decides what the turn does next.
    pub fn pump(&mut self, done: Pumped) -> (next: Pump)
        ensures
            next == pumping(old(self).carried, old(self).reading, done),
            *final(self) == (Turn {
                carried: match done {
                    Pumped::Ingested { ok: true, carried, .. } => carried,
                    _ => old(self).carried,
                },
                ..*old(self)
            }),
    {
        match done {
            Pumped::Begun => Pump::DriveQueue,
            Pumped::QueueDriven { ok } => if ok {
                Pump::Drive
            } else {
                Pump::Fail
            },
            Pumped::Driven { ok } => if ok {
                Pump::SetTimeout
            } else {
                Pump::Fail
            },
            Pumped::TimeoutSet { ok } => if ok {
                Pump::Read
            } else {
                Pump::Fail
            },
            Pumped::Read(Ok(n)) => Pump::Ingest(n),
            Pumped::Read(Err(kind)) => if is_timeout(kind) {
                Pump::Nothing
            } else {
                Pump::Fail
            },
            Pumped::Ingested { ok, reply, carried } => {
                if !ok {
                    return Pump::Fail;
                }
                self.carried = carried;
                if reply {
                    Pump::Reply
                } else {
                    self.carry_on()
                }
            },
            Pumped::Replied { ok } => if ok {
                self.carry_on()
            } else {
                Pump::Fail
            },
        }
    }
}

/// A wait for delivery discards nothing: what comes while nobody reads is kept,
/// not dropped.
pub proof fn nothing_that_comes_is_discarded(carried: Carried, reading: bool)
    requires
        carried != Carried::Nothing,
    ensures
        pump_for(carried, reading) != Pump::Nothing,
        !reading ==> pump_for(carried, reading) == Pump::Keep || pump_for(carried, reading)
            == Pump::DecodeAndKeep,
{
}

/// A wait for delivery ends well only when nothing is in flight, nothing is
/// queued and nothing has been given up on.
pub proof fn a_flush_succeeds_only_when_everything_arrived(
    connection: Connection,
    in_flight: usize,
    deadline: u64,
    now: u64,
)
    ensures
        flushed(connection, in_flight, deadline, now) == Flush::Done <==> in_flight == 0
            && connection.peer.queue@.len() == 0 && connection.peer.given_up == 0,
        now >= deadline ==> flushed(connection, in_flight, deadline, now) != Flush::Wait,
{
}

/// A wait for delivery goes on as long as something is in flight or queued and its
/// time is not up. When its time is up it counts what is in flight and what was
/// given up on; when nothing is left it counts what was given up on alone.
pub proof fn what_a_wait_for_delivery_reports(
    connection: Connection,
    in_flight: usize,
    deadline: u64,
    now: u64,
)
    ensures
        ({
            let next = flushed(connection, in_flight, deadline, now);
            let left = in_flight > 0 || connection.peer.queue@.len() > 0;
            let given_up = connection.peer.given_up;
            &&& next == Flush::Wait <==> left && now < deadline
            &&& left && now >= deadline && in_flight + given_up <= usize::MAX ==> next
                == Flush::Unacknowledged((in_flight + given_up) as usize)
            &&& left && now >= deadline && in_flight + given_up > usize::MAX ==> next
                == Flush::Unacknowledged(usize::MAX)
            &&& !left && given_up > 0 ==> next == Flush::Unacknowledged(given_up)
            &&& !left && given_up == 0 ==> next == Flush::Done
        }),
{
}

/// A turn of the receive path feeds the queue, sends again what is overdue, sets how
/// long to wait and reads, in that order; and whatever fails ends it. What is owed
/// for a frame is sent before what it carries goes anywhere, and what it carries goes
/// to whoever reads, and is kept where nobody does.
pub proof fn what_a_turn_does(
    carried: Carried,
    other: Carried,
    reading: bool,
    n: usize,
    kind: IoKind,
    reply: bool,
)
    ensures
        pumping(carried, reading, Pumped::Begun) == Pump::DriveQueue,
        pumping(carried, reading, Pumped::QueueDriven { ok: true }) == Pump::Drive,
        pumping(carried, reading, Pumped::Driven { ok: true }) == Pump::SetTimeout,
        pumping(carried, reading, Pumped::TimeoutSet { ok: true }) == Pump::Read,
        pumping(carried, reading, Pumped::Read(Ok(n))) == Pump::Ingest(n),
        pumping(carried, reading, Pumped::Read(Err(IoKind::WouldBlock))) == Pump::Nothing,
        pumping(carried, reading, Pumped::Read(Err(IoKind::TimedOut))) == Pump::Nothing,
        kind != IoKind::WouldBlock && kind != IoKind::TimedOut ==> pumping(
            carried,
            reading,
            Pumped::Read(Err(kind)),
        ) == Pump::Fail,
        pumping(carried, reading, Pumped::Ingested { ok: true, reply: true, carried: other })
            == Pump::Reply,
        pumping(carried, reading, Pumped::Ingested { ok: true, reply: false, carried: other })
            == pumping(other, reading, Pumped::Replied { ok: true }),
        pumping(carried, reading, Pumped::Replied { ok: true }) == (match (carried, reading) {
            (Carried::Nothing, _) => Pump::Nothing,
            (Carried::Message, true) => Pump::HandOver,
            (Carried::Message, false) => Pump::Keep,
            (Carried::Body, true) => Pump::DecodeOut,
            (Carried::Body, false) => Pump::DecodeAndKeep,
        }),
        pumping(carried, reading, Pumped::QueueDriven { ok: false }) == Pump::Fail,
        pumping(carried, reading, Pumped::Driven { ok: false }) == Pump::Fail,
        pumping(carried, reading, Pumped::TimeoutSet { ok: false }) == Pump::Fail,
        pumping(carried, reading, Pumped::Replied { ok: false }) == Pump::Fail,
        pumping(carried, reading, Pumped::Ingested { ok: false, reply, carried: other })
            == Pump::Fail,
{
}

} // verus!
