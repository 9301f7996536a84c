//! The protocol on a thread of its own, so that acknowledgements go out and lost
//! messages are sent again whether or not anyone is asking.

use vstd::prelude::*;

use crate::clock::{blocking, MILLISECOND};
use crate::error::{is_timeout, Error, IoKind};

verus! {

/// How long the thread waits on the socket when nothing is due, which bounds how
/// quickly a shutdown is noticed.
pub const IDLE_POLL: u64 = 20_000_000;

/// What a frame carries for the application.
#[derive(Debug, Clone, Copy, PartialEq, Eq, Structural)]
pub enum Carried {
    /// Nothing.
    Nothing,
    /// A message that is whole and decoded already.
    Message,
    /// A body still to be decoded.
    Body,
}

/// What the thread has just done, and what came of it.
#[derive(Debug, Clone, Copy)]
pub enum Done {
    /// It has begun a turn; whether it has been told to stop.
    Turn {
        /// Whether either half has been dropped.
        stopping: bool,
    },
    /// It has sent again what was overdue, or failed to; how long it is until
    /// the next is due.
    Driven {
        /// Whether that succeeded.
        ok: bool,
        /// How long it is until the next retransmission.
        next: Option<u64>,
    },
    /// It has set how long the socket may block.
    TimeoutSet {
        /// Whether that succeeded.
        ok: bool,
    },
    /// It has read from the socket.
    Read(Result<usize, IoKind>),
    /// It has worked out what a frame means.
    Ingested {
        /// Whether it means anything.
        ok: bool,
        /// Whether something is owed for it.
        reply: bool,
        /// What it carries.
        carried: Carried,
    },
    /// It has sent what was owed.
    Replied {
        /// Whether that succeeded.
        ok: bool,
    },
    /// It has decoded a body.
    Decoded {
        /// Whether that succeeded.
        ok: bool,
    },
    /// It has handed a message to the receiving half.
    HandedOver {
        /// Whether the receiving half is still there.
        ok: bool,
    },
}

/// What the thread does next.
#[derive(Debug, Clone, Copy, PartialEq, Eq, Structural)]
pub enum Next {
    /// Begin another turn.
    Turn,
    /// Send again what is overdue.
    Drive,
    /// Set how long the socket may block.
    SetTimeout(u64),
    /// Read from the socket.
    Read,
    /// Work out what the frame of this length means.
    Ingest(usize),
    /// Send what is owed.
    Reply,
    /// Decode the body.
    Decode,
    /// Hand the message to the receiving half.
    HandOver,
    /// Stop. The connection is over.
    Stop,
}

/// How long the socket may block: until the next retransmission, but never
/// longer than the idle interval.
pub open spec fn idle_wait(next: Option<u64>) -> u64 {
    match next {
        Some(w) if w < IDLE_POLL => blocking(w),
        _ => IDLE_POLL,
    }
}

/// What follows once nothing more is owed for a frame.
pub open spec fn next_for(carried: Carried) -> Next {
    match carried {
        Carried::Nothing => Next::Turn,
        Carried::Message => Next::HandOver,
        Carried::Body => Next::Decode,
    }
}

/// What the thread does next, given what it has just done and what the frame in
/// hand carries.
pub open spec fn following(carried: Carried, done: Done) -> Next {
    match done {
        Done::Turn { stopping } => if stopping {
            Next::Stop
        } else {
            Next::Drive
        },
        Done::Driven { ok, next } => if ok {
            Next::SetTimeout(idle_wait(next))
        } else {
            Next::Stop
        },
        Done::TimeoutSet { ok } => if ok {
            Next::Read
        } else {
            Next::Stop
        },
        Done::Read(Ok(n)) => Next::Ingest(n),
        Done::Read(Err(kind)) => if kind == IoKind::WouldBlock || kind == IoKind::TimedOut {
            Next::Turn
        } else {
            Next::Stop
        },
        Done::Ingested { ok, reply, carried } => if !ok {
            Next::Turn
        } else if reply {
            Next::Reply
        } else {
            next_for(carried)
        },
        Done::Replied { ok } => if ok {
            next_for(carried)
        } else {
            Next::Stop
        },
        Done::Decoded { ok } => if ok {
            Next::HandOver
        } else {
            Next::Turn
        },
        Done::HandedOver { ok } => if ok {
            Next::Turn
        } else {
            Next::Stop
        },
    }
}

/// The thread's own state: what the frame in hand carries.
#[derive(Debug, Clone, Copy, PartialEq, Eq, Structural)]
pub struct Worker {
    /// What the frame in hand carries.
    pub carried: Carried,
}

impl Worker {
    /// A thread with no frame in hand.
    pub fn new() -> (worker: Self)
        ensures
            worker == (Worker { carried: Carried::Nothing }),
    {
        Worker { carried: Carried::Nothing }
    }

    fn carry_on(&self) -> (next: Next)
        ensures
            next == next_for(self.carried),
    {
        match self.carried {
            Carried::Nothing => Next::Turn,
            Carried::Message => Next::HandOver,
            Carried::Body => Next::Decode,
        }
    }

    /// Decides what the thread does next.
    pub fn advance(&mut self, done: Done) -> (next: Next)
        ensures
            next == following(old(self).carried, done),
            final(self).carried == (match done {
                Done::Ingested { ok: true, carried, .. } => carried,
                _ => old(self).carried,
            }),
    {
        match done {
            Done::Turn { stopping } => if stopping {
                Next::Stop
            } else {
                Next::Drive
            },
            Done::Driven { ok, next } => {
                if !ok {
                    return Next::Stop;
                }
                let wait: u64 = match next {
                    Some(w) => if w < MILLISECOND {
                        MILLISECOND
                    } else if w < IDLE_POLL {
                        w
                    } else {
                        IDLE_POLL
                    },
                    None => IDLE_POLL,
                };
                Next::SetTimeout(wait)
            },
            Done::TimeoutSet { ok } => if ok {
                Next::Read
            } else {
                Next::Stop
            },
            Done::Read(Ok(n)) => Next::Ingest(n),
            Done::Read(Err(kind)) => if is_timeout(kind) {
                Next::Turn
            } else {
                Next::Stop
            },
            Done::Ingested { ok, reply, carried } => {
                if !ok {
                    return Next::Turn;
                }
                self.carried = carried;
                if reply {
                    Next::Reply
                } else {
                    self.carry_on()
                }
            },
            Done::Replied { ok } => if ok {
                self.carry_on()
            } else {
                Next::Stop
            },
            Done::Decoded { ok } => if ok {
                Next::HandOver
            } else {
                Next::Turn
            },
            Done::HandedOver { ok } => if ok {
                Next::Turn
            } else {
                Next::Stop
            },
        }
    }
}

/// Nothing that a peer sends stops the thread: not a frame that means nothing,
/// not one that carries nothing, not one that cannot be decoded.
pub proof fn no_frame_stops_the_thread(carried: Carried, done: Done)
    requires
        done is Ingested || done is Decoded,
    ensures
        following(carried, done) != Next::Stop,
{
}

/// Lost messages are sent again on every turn, whether or not anyone is reading.
pub proof fn every_turn_sends_again_what_is_overdue(carried: Carried)
    ensures
        following(carried, Done::Turn { stopping: false }) == Next::Drive,
{
}

/// The socket never blocks for longer than the idle interval, nor for ever.
pub proof fn a_shutdown_is_noticed_within_the_idle_interval(next: Option<u64>)
    ensures
        0 < idle_wait(next) <= IDLE_POLL,
        next matches Some(w) ==> (w >= MILLISECOND ==> idle_wait(next) <= w),
{
}

/// How far into a turn the thread is once it has done something.
pub open spec fn stage_done(done: Done) -> nat {
    match done {
        Done::Turn { .. } => 0,
        Done::Driven { .. } => 1,
        Done::TimeoutSet { .. } => 2,
        Done::Read(_) => 3,
        Done::Ingested { .. } => 4,
        Done::Replied { .. } => 5,
        Done::Decoded { .. } => 6,
        Done::HandedOver { .. } => 7,
    }
}

/// How far into a turn the thread is once it has done what is next. A turn is
/// over before another begins, and when the thread stops.
pub open spec fn stage_next(next: Next) -> nat {
    match next {
        Next::Drive => 1,
        Next::SetTimeout(_) => 2,
        Next::Read => 3,
        Next::Ingest(_) => 4,
        Next::Reply => 5,
        Next::Decode => 6,
        Next::HandOver => 7,
        Next::Turn => 8,
        Next::Stop => 8,
    }
}

/// A dropped half ends the thread: whatever the thread does takes it further into
/// its turn, so every turn ends, and a turn begun after a half was dropped is
/// where it stops.
pub proof fn a_dropped_half_ends_the_thread(carried: Carried, done: Done)
    ensures
        stage_done(done) < stage_next(following(carried, done)) <= 8,
        following(carried, Done::Turn { stopping: true }) == Next::Stop,
{
}

/// What came of waiting for a message.
pub enum Waited {
    /// A message.
    Message(Vec<u8>),
    /// None came in time, or none was there.
    Nothing,
    /// The thread has stopped.
    Closed,
}

/// What a receiver that waits reports.
pub open spec fn reported(waited: Waited) -> Result<Vec<u8>, Error> {
    match waited {
        Waited::Message(message) => Ok(message),
        Waited::Nothing => Err(Error::Io(IoKind::TimedOut)),
        Waited::Closed => Err(Error::Closed),
    }
}

/// What a receiver that waits reports: a message, that none came in time, or
/// that the connection is over.
pub fn received(waited: Waited) -> (outcome: Result<Vec<u8>, Error>)
    ensures
        outcome == reported(waited),
{
    match waited {
        Waited::Message(message) => Ok(message),
        Waited::Nothing => Err(Error::Io(IoKind::TimedOut)),
        Waited::Closed => Err(Error::Closed),
    }
}

/// What a receiver that does not wait reports: a message if one was there.
pub fn tried(waited: Waited) -> (outcome: Result<Option<Vec<u8>>, Error>)
    ensures
        outcome == (match waited {
            Waited::Message(message) => Ok::<Option<Vec<u8>>, Error>(Some(message)),
            Waited::Nothing => Ok(None),
            Waited::Closed => Err(Error::Closed),
        }),
{
    match waited {
        Waited::Message(message) => Ok(Some(message)),
        Waited::Nothing => Ok(None),
        Waited::Closed => Err(Error::Closed),
    }
}

/// What stands between the thread and the receiving half: messages in the order
/// in which they were put there, and whether the thread still runs.
#[verifier::ext_equal]
pub struct Passage {
    /// What has not been received yet.
    pub waiting: Seq<Vec<u8>>,
    /// Whether more can come.
    pub running: bool,
}

/// Something that happens between the two.
pub enum Passing {
    /// The thread hands over a message.
    HandedOver(Vec<u8>),
    /// The receiving half takes the one that has waited longest.
    Taken,
    /// The thread stops.
    Stopped,
}

impl Passage {
    /// What comes of waiting for a message.
    pub open spec fn waited(self) -> Waited {
        if self.waiting.len() > 0 {
            Waited::Message(self.waiting[0])
        } else if self.running {
            Waited::Nothing
        } else {
            Waited::Closed
        }
    }

    /// What is there after something has happened. A thread that has stopped
    /// hands nothing over.
    pub open spec fn after(self, passing: Passing) -> Passage {
        match passing {
            Passing::HandedOver(message) if self.running => Passage {
                waiting: self.waiting.push(message),
                ..self
            },
            Passing::Taken if self.waiting.len() > 0 => Passage {
                waiting: self.waiting.skip(1),
                ..self
            },
            Passing::Stopped => Passage { running: false, ..self },
            _ => self,
        }
    }
}

/// What is between the thread and the receiving half after some happenings, where
/// `kept` was put there before the thread began.
pub open spec fn passage(kept: Seq<Vec<u8>>, passings: Seq<Passing>) -> Passage
    decreases passings.len(),
{
    if passings.len() == 0 {
        Passage { waiting: kept, running: true }
    } else {
        passage(kept, passings.drop_last()).after(passings.last())
    }
}

/// What the thread has handed over, in order.
pub open spec fn handed_over(kept: Seq<Vec<u8>>, passings: Seq<Passing>) -> Seq<Vec<u8>>
    decreases passings.len(),
{
    if passings.len() == 0 {
        Seq::empty()
    } else {
        let before = handed_over(kept, passings.drop_last());
        match passings.last() {
            Passing::HandedOver(message) if passage(kept, passings.drop_last()).running =>
                before.push(message),
            _ => before,
        }
    }
}

/// What the receiving half has received, in order.
pub open spec fn taken(kept: Seq<Vec<u8>>, passings: Seq<Passing>) -> Seq<Vec<u8>>
    decreases passings.len(),
{
    if passings.len() == 0 {
        Seq::empty()
    } else {
        let before = taken(kept, passings.drop_last());
        match passings.last() {
            Passing::Taken => match reported(passage(kept, passings.drop_last()).waited()) {
                Ok(message) => before.push(message),
                Err(_) => before,
            },
            _ => before,
        }
    }
}

/// What was kept before the halves were split is received first, in order, and
/// then what the thread hands over, in order. Nothing is lost between the two.
/// Once the thread has stopped and all of it has been received, a receiver is
/// told that the connection is over, however often it asks.
pub proof fn what_was_kept_is_received_first(kept: Seq<Vec<u8>>, passings: Seq<Passing>)
    ensures
        ({
            let got = taken(kept, passings);
            let handed = handed_over(kept, passings);
            let left = passage(kept, passings);
            &&& got + left.waiting == kept + handed
            &&& got.len() <= kept.len() ==> got == kept.take(got.len() as int)
            &&& got.len() > kept.len() ==> got == kept + handed.take(
                (got.len() - kept.len()) as int,
            )
            &&& got.len() == kept.len() + handed.len() && !left.running ==> {
                &&& reported(left.waited()) == Err::<Vec<u8>, Error>(Error::Closed)
                &&& left.after(Passing::Taken) == left
            }
        }),
    decreases passings.len(),
{
    let got = taken(kept, passings);
    let handed = handed_over(kept, passings);
    let left = passage(kept, passings);
    if passings.len() > 0 {
        let earlier = passings.drop_last();
        what_was_kept_is_received_first(kept, earlier);
        let before = passage(kept, earlier);
        let all = kept + handed_over(kept, earlier);
        assert(taken(kept, earlier) + before.waiting == all);
        match passings.last() {
            Passing::HandedOver(message) => {
                if before.running {
                    assert(got + left.waiting =~= all.push(message));
                    assert(kept + handed =~= all.push(message));
                }
            },
            Passing::Taken => {
                if before.waiting.len() > 0 {
                    assert(got + left.waiting =~= all);
                }
            },
            Passing::Stopped => {},
        }
    }
    let all = kept + handed;
    assert(got + left.waiting =~= all);
    assert(got =~= all.take(got.len() as int)) by {
        assert((got + left.waiting).take(got.len() as int) =~= got);
    }
    if got.len() <= kept.len() {
        assert(all.take(got.len() as int) =~= kept.take(got.len() as int));
    } else {
        assert(all.take(got.len() as int) =~= kept + handed.take((got.len() - kept.len()) as int));
    }
}

/// What the thread does after each thing it has done. A turn sends again what is
/// overdue, sets how long to wait and reads; a frame is worked out, what is owed for
/// it is sent, what it carries is decoded where it has to be and handed over, and
/// another turn begins. A failure of the socket stops the thread, and so does nobody
/// being left to hand anything to; a frame that means nothing does not.
pub proof fn what_the_thread_does(
    carried: Carried,
    other: Carried,
    n: usize,
    kind: IoKind,
    next: Option<u64>,
    reply: bool,
)
    ensures
        following(carried, Done::Turn { stopping: false }) == Next::Drive,
        following(carried, Done::Turn { stopping: true }) == Next::Stop,
        following(carried, Done::Driven { ok: true, next }) == Next::SetTimeout(idle_wait(next)),
        following(carried, Done::TimeoutSet { ok: true }) == Next::Read,
        following(carried, Done::Read(Ok(n))) == Next::Ingest(n),
        following(carried, Done::Read(Err(IoKind::WouldBlock))) == Next::Turn,
        following(carried, Done::Read(Err(IoKind::TimedOut))) == Next::Turn,
        kind != IoKind::WouldBlock && kind != IoKind::TimedOut ==> following(
            carried,
            Done::Read(Err(kind)),
        ) == Next::Stop,
        following(carried, Done::Ingested { ok: true, reply: true, carried: other }) == Next::Reply,
        following(carried, Done::Ingested { ok: true, reply: false, carried: other }) == following(
            other,
            Done::Replied { ok: true },
        ),
        following(carried, Done::Ingested { ok: false, reply, carried: other }) == Next::Turn,
        following(carried, Done::Replied { ok: true }) == (match carried {
            Carried::Nothing => Next::Turn,
            Carried::Message => Next::HandOver,
            Carried::Body => Next::Decode,
        }),
        following(carried, Done::Decoded { ok: true }) == Next::HandOver,
        following(carried, Done::Decoded { ok: false }) == Next::Turn,
        following(carried, Done::HandedOver { ok: true }) == Next::Turn,
        following(carried, Done::HandedOver { ok: false }) == Next::Stop,
        following(carried, Done::Driven { ok: false, next }) == Next::Stop,
        following(carried, Done::TimeoutSet { ok: false }) == Next::Stop,
        following(carried, Done::Replied { ok: false }) == Next::Stop,
{
}

/// The thread waits on the socket until the next retransmission, for at least a
/// millisecond and at most twenty.
pub proof fn how_long_the_thread_waits(next: Option<u64>)
    ensures
        next is None ==> idle_wait(next) == 20_000_000,
        next matches Some(w) ==> {
            &&& 1_000_000 <= w <= 20_000_000 ==> idle_wait(next) == w
            &&& w < 1_000_000 ==> idle_wait(next) == 1_000_000
            &&& w > 20_000_000 ==> idle_wait(next) == 20_000_000
        },
{
}

/// What a receiver that waits is told: the message, that none came in time, or that
/// the connection is over.
pub proof fn what_a_receiver_is_told(message: Vec<u8>)
    ensures
        reported(Waited::Message(message)) == Ok::<Vec<u8>, Error>(message),
        reported(Waited::Nothing) == Err::<Vec<u8>, Error>(Error::Io(IoKind::TimedOut)),
        reported(Waited::Closed) == Err::<Vec<u8>, Error>(Error::Closed),
{
}

} // verus!
