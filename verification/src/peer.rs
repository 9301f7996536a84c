//! One peer's protocol state, independent of how bytes reach it.
//!
//! A connection and one peer of an endpoint code, queue and retransmit in the
//! same way; only the transport around them differs. What the session layer
//! does in between (sealing, opening, handing out identifiers) is done by the
//! caller, which brings back what came of it.

use vstd::prelude::*;

use crate::buffer::{copy_of, copy_range, zeros};
use crate::codec::{CodecHeader, CODEC_HEADER_LEN};
use crate::coding::Coding;
use crate::compress::{
    applied_bytes, codes, encode_payload, encoded, plan_coding, planned, squeeze_room,
    transformed_by, PayloadType, Plan,
};
use crate::error::{Error, ProtocolError};
use crate::feed::{begun, ended, fed, front_done, outcome, up_next, Outgoing};
use crate::fragment::{
    divisible, fragments_needed, piece, piece_end, piece_lengths, pieces_needed, Fragment,
    MAX_MESSAGE_LEN,
};
use crate::link::Link;
use crate::reassembly::Reassembly;

verus! {

/// Messages a peer may have part-sent at once.
pub const MAX_QUEUED: usize = 4;

/// Reliable frames that may be in flight at once, whatever the congestion
/// window says.
pub const MAX_UNACKED: usize = 32;

/// Frames that the congestion window opens at.
pub const INITIAL_CWND: usize = 4;

/// Frames that the congestion window never closes below.
pub const MIN_CWND: usize = 2;

/// How often a reliable frame is sent again before it is given up on.
pub const MAX_RETRIES: u8 = 5;

/// What a reliable frame is known by until it is acknowledged.
pub type MessageId = u64;

/// A message being fed out one fragment at a time.
pub struct Queued {
    /// The identifier that its fragments carry.
    pub message: u32,
    /// The shape of its bytes.
    pub payload_type: PayloadType,
    /// The whole of it.
    pub data: Vec<u8>,
    /// Length of every fragment but the last.
    pub per_fragment: usize,
    /// How many fragments there are.
    pub count: u16,
    /// Next fragment to hand to the window.
    pub next: u16,
    /// Fragments sent but not yet acknowledged.
    pub outstanding: Vec<MessageId>,
    /// Set when a fragment was given up on, which loses the whole message.
    pub lost: bool,
}

impl Queued {
    /// The cut is one that a sender may make, and no fragment is past the last.
    pub open spec fn wf(&self) -> bool {
        &&& divisible(self.data@.len(), self.per_fragment as nat)
        &&& self.count == pieces_needed(self.data@.len(), self.per_fragment as nat)
        &&& self.next <= self.count
    }

    /// The descriptor of one of its fragments.
    pub open spec fn descriptor(&self, index: u16) -> Fragment {
        Fragment { message: self.message, index, count: self.count }
    }
}

/// A reliable frame awaiting acknowledgement, kept so that it can be sent again.
pub struct Pending {
    /// What it is known by.
    pub id: MessageId,
    /// The shape of its bytes.
    pub payload_type: PayloadType,
    /// Its bytes.
    pub data: Vec<u8>,
    /// Present when this is one piece of a larger message. Without it a resent
    /// piece would go out looking like a whole message and be delivered as one.
    pub fragment: Option<Fragment>,
}

/// What a pass over the outgoing queue finished.
#[derive(Debug, Clone, Copy, PartialEq, Eq, Structural)]
pub struct Finished {
    /// Whether the peer acknowledged every fragment.
    pub delivered: bool,
}

/// One peer's protocol state.
pub struct Peer {
    /// What is known about the session.
    pub link: Link,
    /// Reliable frames awaiting acknowledgement.
    pub pending: Vec<Pending>,
    /// Reliable frames given up on since the queue last looked.
    pub abandoned: Vec<MessageId>,
    /// How many were given up on since a caller last began to wait for delivery.
    pub given_up: usize,
    /// How many of those given up on were whole messages of one frame, and have
    /// not been reported yet.
    pub unreported: usize,
    /// Partly-arrived messages.
    pub reassembly: Reassembly,
    /// Identifier for the next message that has to be cut.
    pub next_message: u32,
    /// Messages being fed out fragment by fragment, oldest first.
    pub queue: Vec<Queued>,
    /// Working space for coding; what is sent is at its front.
    pub primary: Vec<u8>,
    /// More working space.
    pub secondary: Vec<u8>,
    /// Whether coding has been paying.
    pub coding: Coding,
}

/// The smaller of two lengths.
pub open spec fn smaller(a: nat, b: nat) -> nat {
    if a < b {
        a
    } else {
        b
    }
}

/// What is left of a length once `part` is taken off, and nothing below zero.
pub open spec fn less(len: nat, part: nat) -> nat {
    if part <= len {
        (len - part) as nat
    } else {
        0
    }
}

/// What is left of some identifiers once others are taken out.
pub open spec fn without(ids: Seq<MessageId>, gone: Seq<MessageId>) -> Seq<MessageId> {
    ids.filter(|id: MessageId| !gone.contains(id))
}

/// Whether any identifier is in both.
pub open spec fn meet(ids: Seq<MessageId>, others: Seq<MessageId>) -> bool {
    exists|k: int| 0 <= k < ids.len() && others.contains(#[trigger] ids[k])
}

/// What is left of the frames in flight once some are taken out.
pub open spec fn still_pending(pending: Seq<Pending>, gone: Seq<MessageId>) -> Seq<Pending> {
    pending.filter(|p: Pending| !gone.contains(p.id))
}

/// Whether a frame is still in flight.
pub open spec fn in_flight(pending: Seq<Pending>, id: MessageId) -> bool {
    exists|k: int| 0 <= k < pending.len() && (#[trigger] pending[k]).id == id
}

/// Whether an identifier is among some others.
fn among(id: MessageId, ids: &[MessageId]) -> (found: bool)
    ensures
        found == ids@.contains(id),
{
    let mut i: usize = 0;
    while i < ids.len()
        invariant
            i <= ids@.len(),
            forall|k: int| 0 <= k < i ==> ids@[k] != id,
        decreases ids@.len() - i,
    {
        if ids[i] == id {
            return true;
        }
        i += 1;
    }
    false
}

/// Takes some identifiers out of others.
fn take_out(ids: &Vec<MessageId>, gone: &[MessageId]) -> (left: Vec<MessageId>)
    ensures
        left@ == without(ids@, gone@),
{
    let mut left: Vec<MessageId> = Vec::new();
    let mut i: usize = 0;
    proof {
        reveal(Seq::filter);
        assert(ids@.take(0) =~= Seq::<MessageId>::empty());
    }
    while i < ids.len()
        invariant
            i <= ids@.len(),
            left@ == without(ids@.take(i as int), gone@),
        decreases ids@.len() - i,
    {
        let id: MessageId = ids[i];
        proof {
            reveal(Seq::filter);
            assert(ids@.take(i + 1).drop_last() =~= ids@.take(i as int));
        }
        if !among(id, gone) {
            left.push(id);
        }
        i += 1;
    }
    proof {
        assert(ids@.take(i as int) =~= ids@);
    }
    left
}

/// Takes the frames with some identifiers out of those in flight.
fn drop_pending(pending: &mut Vec<Pending>, gone: &[MessageId])
    ensures
        final(pending)@ == still_pending(old(pending)@, gone@),
{
    let ghost start = pending@;
    let ghost mut seen: int = 0;
    let mut i: usize = 0;
    proof {
        reveal(Seq::filter);
        assert(start.take(0) =~= Seq::<Pending>::empty());
        assert(pending@ =~= still_pending(start.take(0), gone@) + start.skip(0));
    }
    while i < pending.len()
        invariant
            0 <= seen <= start.len(),
            i == still_pending(start.take(seen), gone@).len(),
            pending@ == still_pending(start.take(seen), gone@) + start.skip(seen),
        decreases start.len() - seen,
    {
        proof {
            reveal(Seq::filter);
            assert(pending@[i as int] == start.skip(seen)[0]);
            assert(start.take(seen + 1).drop_last() =~= start.take(seen));
        }
        let ghost kept = still_pending(start.take(seen), gone@);
        if among(pending[i].id, gone) {
            let _ = pending.remove(i);
            proof {
                assert(pending@ =~= kept + start.skip(seen + 1));
            }
        } else {
            i += 1;
            proof {
                assert(pending@ =~= kept.push(start[seen]) + start.skip(seen + 1));
            }
        }
        proof {
            seen = seen + 1;
        }
    }
    proof {
        assert(seen == start.len());
        assert(start.take(seen) =~= start);
        assert(pending@ =~= still_pending(start, gone@));
    }
}

/// What is decided about a payload before it is coded and sealed.
#[derive(Debug, Clone, Copy, PartialEq, Eq, Structural)]
pub struct Attempt {
    /// Largest body that fits the frame.
    pub limit: usize,
    /// Whether the payload does not fit as it is, so that coding is the only
    /// thing that can get it under the limit.
    pub must_try: bool,
    /// Whether coding is attempted at all.
    pub attempted: bool,
    /// How, if it is.
    pub plan: Plan,
}

/// How a frame is sealed.
#[derive(Debug, Clone, Copy, PartialEq, Eq, Structural)]
pub enum Envelope {
    /// As a message that nobody acknowledges.
    Bare,
    /// As a whole message that is acknowledged.
    Reliable(MessageId),
    /// As one piece of a message, which is acknowledged.
    Fragment(MessageId, Fragment),
}

/// Decides how a frame is sealed: a piece of a message is always acknowledged,
/// so one with no identifier is sealed as a message of its own.
pub fn envelope(message_id: Option<MessageId>, fragment: Option<Fragment>) -> (sealed: Envelope)
    ensures
        sealed == (match (message_id, fragment) {
            (Some(id), Some(f)) => Envelope::Fragment(id, f),
            (Some(id), None) => Envelope::Reliable(id),
            (None, _) => Envelope::Bare,
        }),
{
    match (message_id, fragment) {
        (Some(id), Some(f)) => Envelope::Fragment(id, f),
        (Some(id), None) => Envelope::Reliable(id),
        (None, _) => Envelope::Bare,
    }
}

/// What the session layer reports about a reliable frame whose acknowledgement
/// is overdue.
#[derive(Debug, Clone, Copy, PartialEq, Eq, Structural)]
pub enum Due {
    /// It is to be sent again.
    Retransmit(MessageId),
    /// It has exhausted its retries.
    GaveUp(MessageId),
}

/// What a frame is to carry.
#[derive(Debug, Clone, Copy, PartialEq, Eq, Structural)]
pub enum Body {
    /// The payload as it is.
    Raw,
    /// This codec header, then this many bytes from the front of the working space.
    Coded {
        /// The header.
        header: CodecHeader,
        /// How many bytes follow it.
        len: usize,
    },
}

/// What is put in the frame: the coded form where it fits, else the payload
/// where that fits, else nothing.
pub open spec fn chosen(
    coded: Option<(CodecHeader, nat)>,
    data_len: nat,
    limit: nat,
) -> Result<Body, Error> {
    match coded {
        Some((header, len)) if CODEC_HEADER_LEN + len <= limit => Ok(
            Body::Coded { header, len: len as usize },
        ),
        _ => if data_len > limit {
            Err(Error::PayloadTooLarge { len: data_len as usize, limit: limit as usize })
        } else {
            Ok(Body::Raw)
        },
    }
}

/// Chooses what to put in a frame that has room for `limit` bytes.
///
/// The limit applies to what actually goes on the wire, so a payload too large
/// as it is may still be sent if it codes down far enough.
pub fn choose_body(coded: Option<(CodecHeader, usize)>, data_len: usize, limit: usize) -> (body:
    Result<Body, Error>)
    ensures
        body == chosen(
            match coded {
                Some((header, len)) => Some((header, len as nat)),
                None => None,
            },
            data_len as nat,
            limit as nat,
        ),
{
    match coded {
        Some((header, len)) if limit >= CODEC_HEADER_LEN && len <= limit - CODEC_HEADER_LEN => Ok(
            Body::Coded { header, len },
        ),
        _ => if data_len > limit {
            Err(Error::PayloadTooLarge { len: data_len, limit })
        } else {
            Ok(Body::Raw)
        },
    }
}

/// Largest payload that fits one frame, bare.
pub open spec fn bare_room(link: Link, datagram_limit: nat) -> nat {
    smaller(link.session_limit as nat, less(datagram_limit, link.overhead()))
}

/// Largest payload that fits one frame once the optional parts are paid for.
pub open spec fn room(link: Link, datagram_limit: nat, reliable: bool, fragmented: bool) -> nat {
    let bare = bare_room(link, datagram_limit);
    let numbered = if reliable {
        less(bare, link.message_id_len as nat)
    } else {
        bare
    };
    if fragmented {
        less(numbered, link.fragment_len as nat)
    } else {
        numbered
    }
}

/// Each optional part costs room: a fragment carries no more than a whole
/// reliable message, and that no more than a bare one; and strictly less wherever
/// a frame has room for both parts. A bare payload and its overhead never pass
/// the datagram limit.
pub proof fn the_payload_limits_are_ordered(link: Link, datagram_limit: nat)
    requires
        link.wf(),
    ensures
        room(link, datagram_limit, true, true) <= room(link, datagram_limit, true, false),
        room(link, datagram_limit, true, false) <= room(link, datagram_limit, false, false),
        room(link, datagram_limit, false, false) == bare_room(link, datagram_limit),
        bare_room(link, datagram_limit) >= link.message_id_len + link.fragment_len ==> {
            &&& room(link, datagram_limit, true, true) < room(link, datagram_limit, true, false)
            &&& room(link, datagram_limit, true, false) < room(link, datagram_limit, false, false)
        },
        bare_room(link, datagram_limit) <= less(datagram_limit, link.overhead()),
        bare_room(link, datagram_limit) <= link.session_limit,
        datagram_limit >= link.overhead() ==> bare_room(link, datagram_limit) + link.overhead()
            <= datagram_limit,
{
}

/// A plaintext frame carries exactly one authentication tag more than an
/// encrypted one, where the datagram is what limits both.
pub proof fn plaintext_frames_are_smaller(encrypted: Link, plain: Link, datagram_limit: nat)
    requires
        encrypted.encrypted,
        !plain.encrypted,
        datagram_limit >= 30,
        encrypted.session_limit >= datagram_limit,
        plain.session_limit >= datagram_limit,
    ensures
        bare_room(plain, datagram_limit) - bare_room(encrypted, datagram_limit) == 16,
{
}

impl Peer {
    /// What every operation keeps: a bounded queue of well-cut messages, and
    /// bounded reassembly.
    pub open spec fn wf(&self) -> bool {
        &&& self.queue@.len() <= MAX_QUEUED
        &&& forall|j: int| 0 <= j < self.queue@.len() ==> (#[trigger] self.queue@[j]).wf()
        &&& self.reassembly.wf()
        &&& self.coding.wf()
    }

    /// What coding makes of a payload, given what its transform made of it.
    pub open spec fn coded(
        &self,
        data: Seq<u8>,
        payload_type: PayloadType,
        applied: Result<usize, ProtocolError>,
    ) -> Option<(CodecHeader, Seq<u8>)> {
        let caps = self.link.capabilities;
        let front = applied_bytes(self.primary@, applied);
        match transformed_by(planned(data, payload_type, caps), data, front) {
            Some(transformed) => encoded(
                data,
                payload_type,
                caps,
                front,
                squeeze_room(self.secondary@.len(), transformed.len()),
            ),
            None => None,
        }
    }

    /// Whether this is a session with nothing sent or received on it yet, and
    /// with this much working space, cleared.
    pub open spec fn is_new(&self, link: Link, buffer_hint: nat) -> bool {
        &&& self.link == link
        &&& self.pending@.len() == 0
        &&& self.abandoned@.len() == 0
        &&& self.given_up == 0
        &&& self.unreported == 0
        &&& self.reassembly@.len() == 0
        &&& self.next_message == 0
        &&& self.queue@.len() == 0
        &&& self.primary@ == zeros(buffer_hint)
        &&& self.secondary@ == zeros(buffer_hint)
        &&& self.coding == (Coding { misses: 0, skips: 0, shape: PayloadType::Opaque })
    }

    /// A session just established, with nothing sent or received on it.
    pub fn new(link: Link, buffer_hint: usize) -> (peer: Self)
        ensures
            peer.wf(),
            peer.is_new(link, buffer_hint as nat),
    {
        let primary = vec![0u8; buffer_hint];
        let secondary = vec![0u8; buffer_hint];
        proof {
            assert(primary@ =~= zeros(buffer_hint as nat));
            assert(secondary@ =~= zeros(buffer_hint as nat));
        }
        Peer {
            link,
            pending: Vec::new(),
            abandoned: Vec::new(),
            given_up: 0,
            unreported: 0,
            reassembly: Reassembly::new(),
            next_message: 0,
            queue: Vec::new(),
            primary,
            secondary,
            coding: Coding::new(),
        }
    }

    /// Largest uncompressed payload that fits in one frame.
    pub fn max_payload(&self, datagram_limit: usize) -> (limit: usize)
        ensures
            limit == bare_room(self.link, datagram_limit as nat),
    {
        let by_session: usize = self.link.max_payload();
        let by_datagram: usize = datagram_limit.saturating_sub(self.link.data_overhead());
        if by_session < by_datagram {
            by_session
        } else {
            by_datagram
        }
    }

    /// Largest payload that fits once the optional parts are paid for.
    ///
    /// A reliable frame also carries a message identifier, and a fragment a
    /// descriptor; both take room from the payload.
    pub fn payload_room(&self, datagram_limit: usize, reliable: bool, fragmented: bool) -> (limit:
        usize)
        ensures
            limit == room(self.link, datagram_limit as nat, reliable, fragmented),
    {
        let mut left: usize = self.max_payload(datagram_limit);
        if reliable {
            left = left.saturating_sub(self.link.message_id_len);
        }
        if fragmented {
            left = left.saturating_sub(self.link.fragment_len);
        }
        left
    }

    /// Largest slice of a message in pieces that fits in one frame.
    pub fn max_fragment_payload(&self, datagram_limit: usize) -> (limit: usize)
        ensures
            limit == room(self.link, datagram_limit as nat, true, true),
    {
        self.payload_room(datagram_limit, true, true)
    }

    /// Decides whether and how a payload is to be coded before it is sealed.
    ///
    /// Coding is skipped on a stream it has not been paying for, except where
    /// the payload does not fit otherwise: then it is always attempted.
    pub fn begin_seal(
        &mut self,
        data: &[u8],
        payload_type: PayloadType,
        reliable: bool,
        fragmented: bool,
        datagram_limit: usize,
    ) -> (attempt: Attempt)
        requires
            old(self).wf(),
        ensures
            final(self).wf(),
            *final(self) == (Peer { coding: old(self).coding.asked(payload_type), ..*old(self) }),
            attempt.limit == room(old(self).link, datagram_limit as nat, reliable, fragmented),
            attempt.must_try == (data@.len() > attempt.limit),
            attempt.attempted == (old(self).coding.attempts(payload_type) || attempt.must_try),
            attempt.plan == (if attempt.attempted {
                planned(data@, payload_type, old(self).link.capabilities)
            } else {
                Plan::Skip
            }),
            begins_seal(
                old(self),
                final(self),
                data@,
                payload_type,
                room(old(self).link, datagram_limit as nat, reliable, fragmented),
                attempt,
            ),
    {
        let limit: usize = self.payload_room(datagram_limit, reliable, fragmented);
        let must_try = data.len() > limit;
        let worth_it = self.coding.should_code(payload_type);
        let attempted = worth_it || must_try;
        let plan = if attempted {
            plan_coding(data, payload_type, self.link.peer_capabilities())
        } else {
            Plan::Skip
        };
        Attempt { limit, must_try, attempted, plan }
    }

    /// What a frame is to carry of a payload, and what choosing that leaves of the
    /// session's state. Coded bytes are at the front of the working space, and can
    /// be undone up to the transform.
    pub open spec fn seals(
        &self,
        after: &Peer,
        attempt: Attempt,
        data: Seq<u8>,
        payload_type: PayloadType,
        applied: Result<usize, ProtocolError>,
        body: Result<Body, Error>,
    ) -> bool {
        let coded = if attempt.attempted {
            self.coded(data, payload_type, applied)
        } else {
            None
        };
        let coded_len = match coded {
            Some((header, bytes)) => Some((header, bytes.len())),
            None => None,
        };
        &&& body == chosen(coded_len, data.len(), attempt.limit as nat)
        &&& body matches Ok(Body::Coded { header, len }) ==> {
            let bytes = after.primary@.take(len as int);
            &&& len <= after.primary@.len()
            &&& coded == Some((header, bytes))
            &&& codes(
                data,
                payload_type,
                self.link.capabilities,
                applied_bytes(self.primary@, applied),
                self.secondary@.len(),
                Some((header, bytes)),
            )
        }
        &&& *after == (Peer {
            coding: if attempt.attempted && !attempt.must_try {
                self.coding.recorded(coded is Some)
            } else {
                self.coding
            },
            primary: after.primary,
            secondary: after.secondary,
            ..*self
        })
    }

    /// The bytes that a frame is to carry: the payload as it is, or the encoded
    /// codec header and then the coded bytes.
    pub open spec fn assembled(&self, body: Body, header: Seq<u8>, data: Seq<u8>) -> Seq<u8> {
        match body {
            Body::Raw => data,
            Body::Coded { len, .. } => header + self.primary@.take(len as int),
        }
    }

    /// Codes a payload if that was decided on and pays, and chooses what the
    /// frame is to carry.
    ///
    /// Where the attempt's plan asks for a transform, `applied` is how many
    /// bytes it left at the front of the working space, or why it failed.
    pub fn seal(
        &mut self,
        attempt: Attempt,
        data: &[u8],
        payload_type: PayloadType,
        applied: Result<usize, ProtocolError>,
    ) -> (body: Result<Body, Error>)
        requires
            old(self).wf(),
            attempt.attempted && planned(data@, payload_type, old(self).link.capabilities) is Apply
                ==> (applied matches Ok(len) ==> len <= old(self).primary@.len() && len + 64
                <= usize::MAX),
        ensures
            final(self).wf(),
            old(self).seals(final(self), attempt, data@, payload_type, applied, body),
    {
        let coded = if attempt.attempted {
            let caps = self.link.peer_capabilities();
            let tried = encode_payload(
                data,
                payload_type,
                caps,
                applied,
                &mut self.primary,
                &mut self.secondary,
            );
            if !attempt.must_try {
                self.coding.record_coding(tried.is_some());
            }
            tried
        } else {
            None
        };
        choose_body(coded, data.len(), attempt.limit)
    }

    /// The bytes that a frame is to carry: the payload as it is, or the encoded
    /// codec header and then the coded bytes.
    pub fn assemble(&self, body: Body, header: &[u8], data: &[u8]) -> (bytes: Vec<u8>)
        requires
            body matches Body::Coded { len, .. } ==> len <= self.primary@.len(),
        ensures
            bytes@ == self.assembled(body, header@, data@),
    {
        match body {
            Body::Raw => copy_of(data),
            Body::Coded { len, .. } => {
                let mut bytes = copy_of(header);
                let mut coded = copy_range(self.primary.as_slice(), 0, len);
                proof {
                    assert(coded@ =~= self.primary@.take(len as int));
                }
                bytes.append(&mut coded);
                bytes
            },
        }
    }

    /// Whether the one thing that has happened since is that a message was put at
    /// the back of the queue, under the next identifier and with none of it sent.
    pub open spec fn queues(
        &self,
        after: &Peer,
        data: Seq<u8>,
        payload_type: PayloadType,
        per_fragment: nat,
    ) -> bool {
        let job = after.queue@.last();
        &&& *after == (Peer {
            queue: after.queue,
            next_message: after.next_message,
            ..*self
        })
        &&& after.queue@ == self.queue@.push(job)
        &&& after.jobs() == self.jobs().push(job.job())
        &&& after.next_message == if self.next_message == u32::MAX {
            0int
        } else {
            self.next_message + 1
        }
        &&& job.wf()
        &&& job.message == self.next_message
        &&& job.payload_type == payload_type
        &&& job.data@ == data
        &&& job.per_fragment == per_fragment
        &&& job.next == 0
        &&& job.outstanding@.len() == 0
        &&& !job.lost
    }

    /// Cuts `data` into frames and queues it.
    ///
    /// Nothing is sent: feeding the pieces out is for whoever drives the queue,
    /// as the congestion window allows.
    pub fn queue_message(
        &mut self,
        data: &[u8],
        payload_type: PayloadType,
        datagram_limit: usize,
    ) -> (outcome: Result<(), Error>)
        requires
            old(self).wf(),
        ensures
            final(self).wf(),
            ({
                let per_fragment = room(old(self).link, datagram_limit as nat, true, true);
                if !old(self).link.capabilities.reliable {
                    &&& outcome == Err::<(), Error>(Error::ReliabilityUnsupported)
                    &&& *final(self) == *old(self)
                } else if old(self).queue@.len() >= MAX_QUEUED {
                    &&& outcome == Err::<(), Error>(Error::Protocol(ProtocolError::WindowFull))
                    &&& *final(self) == *old(self)
                } else if !divisible(data@.len(), per_fragment) {
                    &&& outcome == Err::<(), Error>(
                        Error::PayloadTooLarge { len: data@.len() as usize, limit: MAX_MESSAGE_LEN },
                    )
                    &&& *final(self) == *old(self)
                } else {
                    &&& outcome == Ok::<(), Error>(())
                    &&& old(self).queues(final(self), data@, payload_type, per_fragment)
                }
            }),
    {
        if !self.link.peer_capabilities().supports_reliable() {
            return Err(Error::ReliabilityUnsupported);
        }
        if self.queue.len() >= MAX_QUEUED {
            return Err(Error::Protocol(ProtocolError::WindowFull));
        }
        let per_fragment: usize = self.max_fragment_payload(datagram_limit);
        let count: u16 = match fragments_needed(data.len(), per_fragment) {
            Some(count) => count,
            None => {
                return Err(Error::PayloadTooLarge { len: data.len(), limit: MAX_MESSAGE_LEN });
            },
        };
        let message: u32 = self.next_message;
        self.next_message = self.next_message.wrapping_add(1);
        let job = Queued {
            message,
            payload_type,
            data: copy_of(data),
            per_fragment,
            count,
            next: 0,
            outstanding: Vec::new(),
            lost: false,
        };
        self.queue.push(job);
        proof {
            assert(self.jobs() =~= old(self).jobs().push(job.job()));
        }
        Ok(())
    }

    /// Starts a pass over the queue, taking in what has been given up on since
    /// the last one. Returns whether anything is queued.
    ///
    /// A fragment that was given up on takes the whole message with it: the
    /// receiver cannot use the ones that did arrive.
    pub fn begin_drive(&mut self) -> (waiting: bool)
        requires
            old(self).wf(),
        ensures
            final(self).wf(),
            waiting == (old(self).queue@.len() > 0),
            *final(self) == (Peer {
                queue: final(self).queue,
                abandoned: final(self).abandoned,
                ..*old(self)
            }),
            final(self).abandoned@.len() == 0,
            !waiting ==> final(self).queue@ == old(self).queue@,
            waiting ==> {
                let gone = old(self).abandoned@;
                let before = old(self).queue@[0];
                let after = final(self).queue@[0];
                &&& final(self).queue@ == old(self).queue@.update(0, after)
                &&& after == (Queued {
                    lost: before.lost || meet(before.outstanding@, gone),
                    outstanding: after.outstanding,
                    ..before
                })
                &&& after.outstanding@ == without(before.outstanding@, gone)
            },
            final(self).jobs() == begun(old(self).jobs(), old(self).abandoned@),
    {
        let mut gone: Vec<MessageId> = Vec::new();
        core::mem::swap(&mut gone, &mut self.abandoned);
        if self.queue.is_empty() {
            return false;
        }
        let ghost before = self.queue@;
        if any_among(&self.queue[0].outstanding, gone.as_slice()) {
            self.queue[0].lost = true;
        }
        let left = take_out(&self.queue[0].outstanding, gone.as_slice());
        self.queue[0].outstanding = left;
        proof {
            assert(self.queue@ =~= before.update(0, self.queue@[0]));
            assert(self.jobs() =~= begun(old(self).jobs(), old(self).abandoned@));
        }
        true
    }

    /// Whether the front message has a fragment to hand out.
    pub open spec fn has_next(&self) -> bool {
        self.queue@.len() > 0 && !self.queue@[0].lost && self.queue@[0].next < self.queue@[0].count
    }

    /// The next fragment of the front message, with its bytes, if one is left
    /// to send.
    ///
    /// Only the front message is fed, so a stalled one is not overtaken by a
    /// later one.
    pub fn next_fragment(&self) -> (next: Option<Piece>)
        requires
            self.wf(),
        ensures
            next is Some == self.has_next(),
            next matches Some(p) ==> {
                let job = self.queue@[0];
                &&& p.fragment == job.descriptor(job.next)
                &&& p.fragment.in_range()
                &&& p.payload_type == job.payload_type
                &&& p.data@ == piece(job.data@, job.per_fragment as nat, job.next as int)
            },
            up_next(self.jobs()) == (match next {
                Some(p) => Some(Outgoing { fragment: p.fragment, data: p.data@ }),
                None => None,
            }),
    {
        if self.queue.is_empty() {
            return None;
        }
        let job = &self.queue[0];
        if job.lost || job.next >= job.count {
            return None;
        }
        proof {
            piece_lengths(job.data@, job.per_fragment as nat, job.next as int);
            assert((job.next + 1) * job.per_fragment == job.next * job.per_fragment
                + job.per_fragment) by (nonlinear_arith);
        }
        let start: usize = job.next as usize * job.per_fragment;
        let end: usize = if job.data.len() - start < job.per_fragment {
            job.data.len()
        } else {
            start + job.per_fragment
        };
        proof {
            assert(end == piece_end(job.data@.len(), job.per_fragment as nat, job.next as int));
        }
        let fragment = Fragment { message: job.message, index: job.next, count: job.count };
        let data = copy_range(job.data.as_slice(), start, end);
        Some(Piece { fragment, payload_type: job.payload_type, data })
    }

    /// Records that the next fragment went out under `id`.
    pub fn fragment_sent(&mut self, id: MessageId)
        requires
            old(self).wf(),
        ensures
            final(self).wf(),
            !old(self).has_next() ==> *final(self) == *old(self),
            old(self).has_next() ==> {
                let before = old(self).queue@[0];
                let after = final(self).queue@[0];
                let sent = final(self).pending@.last();
                &&& *final(self) == (Peer {
                    queue: final(self).queue,
                    pending: final(self).pending,
                    ..*old(self)
                })
                &&& final(self).queue@ == old(self).queue@.update(0, after)
                &&& after == (Queued {
                    next: (before.next + 1) as u16,
                    outstanding: after.outstanding,
                    ..before
                })
                &&& after.outstanding@ == before.outstanding@.push(id)
                &&& final(self).pending@ == old(self).pending@.push(sent)
                &&& sent.id == id
                &&& sent.payload_type == before.payload_type
                &&& sent.data@ == piece(
                    before.data@,
                    before.per_fragment as nat,
                    before.next as int,
                )
                &&& sent.fragment == Some(before.descriptor(before.next))
            },
            final(self).jobs() == fed(old(self).jobs(), id),
    {
        match self.next_fragment() {
            None => {},
            Some(sent) => {
                let ghost before = self.queue@;
                self.pending.push(
                    Pending {
                        id,
                        payload_type: sent.payload_type,
                        data: sent.data,
                        fragment: Some(sent.fragment),
                    },
                );
                self.queue[0].outstanding.push(id);
                self.queue[0].next = self.queue[0].next + 1;
                proof {
                    assert(self.queue@ =~= before.update(0, self.queue@[0]));
                    assert(self.jobs() =~= fed(old(self).jobs(), id));
                }
            },
        }
    }

    /// Ends a pass over the queue, taking in what has been acknowledged.
    /// Returns the outcome of the front message, if it is finished with.
    pub fn finish_drive(&mut self) -> (finished: Option<Finished>)
        requires
            old(self).wf(),
        ensures
            final(self).wf(),
            *final(self) == (Peer { queue: final(self).queue, ..*old(self) }),
            old(self).queue@.len() == 0 ==> finished is None && final(self).queue@
                == old(self).queue@,
            old(self).queue@.len() > 0 ==> {
                let before = old(self).queue@[0];
                let left = unacknowledged(before.outstanding@, old(self).pending@);
                let done = before.lost || (before.next == before.count && left.len() == 0);
                if done {
                    &&& finished == Some(Finished { delivered: !before.lost })
                    &&& final(self).queue@ == old(self).queue@.remove(0)
                } else {
                    let after = final(self).queue@[0];
                    &&& finished is None
                    &&& final(self).queue@ == old(self).queue@.update(0, after)
                    &&& after == (Queued { outstanding: after.outstanding, ..before })
                    &&& after.outstanding@ == left
                }
            },
            finished is Some == front_done(old(self).jobs(), old(self).pending@),
            finished == outcome(old(self).jobs(), old(self).pending@),
            final(self).jobs() == ended(old(self).jobs(), old(self).pending@),
    {
        if self.queue.is_empty() {
            return None;
        }
        let ghost before = self.queue@;
        let left = keep_in_flight(&self.queue[0].outstanding, &self.pending);
        self.queue[0].outstanding = left;
        proof {
            assert(self.queue@ =~= before.update(0, self.queue@[0]));
        }
        let job = &self.queue[0];
        let done = job.lost || (job.next == job.count && job.outstanding.is_empty());
        if !done {
            proof {
                assert(self.jobs() =~= ended(old(self).jobs(), old(self).pending@));
            }
            return None;
        }
        let delivered = !job.lost;
        let _ = self.queue.remove(0);
        proof {
            assert(self.queue@ =~= before.remove(0));
            assert(self.jobs() =~= ended(old(self).jobs(), old(self).pending@));
            assert forall|j: int| 0 <= j < self.queue@.len() implies (
            #[trigger] self.queue@[j]).wf() by {
                assert(before[j + 1].wf());
            }
        }
        Some(Finished { delivered })
    }

    /// How many messages are still being fed out.
    pub fn queued(&self) -> (count: usize)
        ensures
            count == self.queue@.len(),
    {
        self.queue.len()
    }

    /// Keeps a reliable message of one frame until it is acknowledged.
    pub fn sent_whole(&mut self, id: MessageId, payload_type: PayloadType, data: &[u8])
        requires
            old(self).wf(),
        ensures
            final(self).wf(),
            *final(self) == (Peer { pending: final(self).pending, ..*old(self) }),
            ({
                let sent = final(self).pending@.last();
                &&& final(self).pending@ == old(self).pending@.push(sent)
                &&& sent.id == id
                &&& sent.payload_type == payload_type
                &&& sent.data@ == data@
                &&& sent.fragment is None
            }),
    {
        self.pending.push(Pending { id, payload_type, data: copy_of(data), fragment: None });
    }

    /// Applies an acknowledgement, dropping the frames that it covers.
    pub fn apply_ack(&mut self, acked: &[MessageId])
        requires
            old(self).wf(),
        ensures
            final(self).wf(),
            *final(self) == (Peer { pending: final(self).pending, ..*old(self) }),
            final(self).pending@ == still_pending(old(self).pending@, acked@),
            final(self).pending@ == old(self).pending@.filter(
                |frame: Pending| !acked@.contains(frame.id),
            ),
            forall|k: int|
                0 <= k < final(self).pending@.len() ==> !acked@.contains(
                    (#[trigger] final(self).pending@[k]).id,
                ),
            forall|k: int|
                0 <= k < old(self).pending@.len() && !acked@.contains(
                    (#[trigger] old(self).pending@[k]).id,
                ) ==> final(self).pending@.contains(old(self).pending@[k]),
    {
        drop_pending(&mut self.pending, acked);
        proof {
            an_acknowledged_frame_is_no_longer_in_flight(old(self).pending@, acked@);
            assert(old(self).pending@.filter(|frame: Pending| !acked@.contains(frame.id))
                =~= still_pending(old(self).pending@, acked@));
        }
    }

    /// What to send again for a frame whose acknowledgement is overdue, or
    /// `None` where it is no longer in flight.
    ///
    /// The frame is sealed afresh, under the same identifier and with the same
    /// descriptor, which is how the peer recognises the duplicate.
    pub fn resend(&self, id: MessageId) -> (again: Option<Resend>)
        ensures
            again is Some == in_flight(self.pending@, id),
            again matches Some(r) ==> exists|k: int|
                0 <= k < self.pending@.len() && (#[trigger] self.pending@[k]).id == id
                    && r.payload_type == self.pending@[k].payload_type && r.fragment
                    == self.pending@[k].fragment && r.data@ == self.pending@[k].data@ && forall|
                    j: int,
                |
                    0 <= j < k ==> (#[trigger] self.pending@[j]).id != id,
    {
        let mut k: usize = 0;
        while k < self.pending.len()
            invariant
                k <= self.pending@.len(),
                forall|j: int| 0 <= j < k ==> (#[trigger] self.pending@[j]).id != id,
            decreases self.pending@.len() - k,
        {
            let sent = &self.pending[k];
            if sent.id == id {
                let data = copy_of(sent.data.as_slice());
                proof {
                    assert(self.pending@[k as int].id == id);
                }
                return Some(Resend { payload_type: sent.payload_type, fragment: sent.fragment, data });
            }
            k += 1;
        }
        None
    }

    /// Whether a frame in flight is a whole message.
    pub open spec fn whole_in_flight(&self, id: MessageId) -> bool {
        exists|k: int|
            0 <= k < self.pending@.len() && (#[trigger] self.pending@[k]).id == id
                && self.pending@[k].fragment is None
    }

    /// What giving up on a frame leaves: it is no longer in flight, is to be taken
    /// in by the queue, and is counted; and where it was a whole message, that one
    /// is still to be reported.
    pub open spec fn gives_up(&self, after: &Peer, id: MessageId) -> bool {
        &&& *after == (Peer {
            pending: after.pending,
            abandoned: after.abandoned,
            given_up: after.given_up,
            unreported: after.unreported,
            ..*self
        })
        &&& after.pending@ == still_pending(self.pending@, seq![id])
        &&& after.abandoned@ == self.abandoned@.push(id)
        &&& after.given_up == if self.given_up < usize::MAX {
            self.given_up + 1
        } else {
            usize::MAX as int
        }
        &&& after.unreported == if self.whole_in_flight(id) && self.unreported < usize::MAX {
            self.unreported + 1
        } else {
            self.unreported as int
        }
    }

    /// Gives up on a frame that has exhausted its retries.
    ///
    /// A fragment is accounted for when its message finishes; a whole message
    /// is accounted for here, so that each lost message is reported once.
    pub fn give_up(&mut self, id: MessageId)
        requires
            old(self).wf(),
        ensures
            final(self).wf(),
            old(self).gives_up(final(self), id),
            *final(self) == (Peer {
                pending: final(self).pending,
                abandoned: final(self).abandoned,
                given_up: final(self).given_up,
                unreported: final(self).unreported,
                ..*old(self)
            }),
            final(self).pending@ == still_pending(old(self).pending@, seq![id]),
            final(self).abandoned@ == old(self).abandoned@.push(id),
            final(self).given_up == if old(self).given_up < usize::MAX {
                old(self).given_up + 1
            } else {
                usize::MAX as int
            },
            final(self).unreported == if old(self).whole_in_flight(id) && old(self).unreported
                < usize::MAX {
                old(self).unreported + 1
            } else {
                old(self).unreported as int
            },
    {
        let mut k: usize = 0;
        let mut whole = false;
        while k < self.pending.len()
            invariant
                k <= self.pending@.len(),
                whole == exists|j: int|
                    0 <= j < k && (#[trigger] self.pending@[j]).id == id
                        && self.pending@[j].fragment is None,
            decreases self.pending@.len() - k,
        {
            if self.pending[k].id == id && self.pending[k].fragment.is_none() {
                proof {
                    assert(self.pending@[k as int].fragment is None);
                }
                whole = true;
            }
            k += 1;
        }
        if whole {
            self.unreported = self.unreported.saturating_add(1);
        }
        drop_pending(&mut self.pending, &[id]);
        proof {
            assert([id]@ =~= seq![id]);
        }
        self.abandoned.push(id);
        self.given_up = self.given_up.saturating_add(1);
    }

    /// Does what an overdue frame calls for: gives up on it, or says what to
    /// send again.
    pub fn drive_retransmits(&mut self, due: Due) -> (again: Option<Resend>)
        requires
            old(self).wf(),
        ensures
            final(self).wf(),
            match due {
                Due::Retransmit(id) => {
                    &&& *final(self) == *old(self)
                    &&& again is Some == in_flight(old(self).pending@, id)
                    &&& again matches Some(r) ==> exists|k: int|
                        0 <= k < old(self).pending@.len() && (#[trigger] old(self).pending@[k]).id
                            == id && r.payload_type == old(self).pending@[k].payload_type
                            && r.fragment == old(self).pending@[k].fragment && r.data@
                            == old(self).pending@[k].data@ && forall|j: int|
                            0 <= j < k ==> (#[trigger] old(self).pending@[j]).id != id
                },
                Due::GaveUp(id) => {
                    &&& again is None
                    &&& old(self).gives_up(final(self), id)
                    &&& final(self).pending@ == still_pending(old(self).pending@, seq![id])
                    &&& final(self).abandoned@ == old(self).abandoned@.push(id)
                    &&& final(self).given_up == if old(self).given_up < usize::MAX {
                        old(self).given_up + 1
                    } else {
                        usize::MAX as int
                    }
                    &&& final(self).unreported == if old(self).whole_in_flight(id)
                        && old(self).unreported < usize::MAX {
                        old(self).unreported + 1
                    } else {
                        old(self).unreported as int
                    }
                    &&& *final(self) == (Peer {
                        pending: final(self).pending,
                        abandoned: final(self).abandoned,
                        given_up: final(self).given_up,
                        unreported: final(self).unreported,
                        ..*old(self)
                    })
                },
            },
    {
        match due {
            Due::Retransmit(id) => self.resend(id),
            Due::GaveUp(id) => {
                self.give_up(id);
                None
            },
        }
    }
}

/// Giving up on one fragment loses its whole message: the pass over the queue
/// that follows marks it lost, and a lost message is never reported delivered.
pub proof fn a_fragment_given_up_on_loses_its_message(
    outstanding: Seq<MessageId>,
    abandoned: Seq<MessageId>,
    id: MessageId,
)
    requires
        outstanding.contains(id),
    ensures
        meet(outstanding, abandoned.push(id)),
{
    let k = choose|k: int| 0 <= k < outstanding.len() && outstanding[k] == id;
    assert(abandoned.push(id)[abandoned.len() as int] == id);
    assert(abandoned.push(id).contains(outstanding[k]));
}

/// A fragment on its way out.
pub struct Piece {
    /// Where it belongs.
    pub fragment: Fragment,
    /// The shape of its bytes.
    pub payload_type: PayloadType,
    /// Its bytes.
    pub data: Vec<u8>,
}

/// A frame on its way out once more.
pub struct Resend {
    /// The shape of its bytes.
    pub payload_type: PayloadType,
    /// Where it belongs, if it is a piece of something larger.
    pub fragment: Option<Fragment>,
    /// Its bytes.
    pub data: Vec<u8>,
}

/// The identifiers of the frames that are still in flight.
pub open spec fn unacknowledged(ids: Seq<MessageId>, pending: Seq<Pending>) -> Seq<MessageId> {
    ids.filter(|id: MessageId| in_flight(pending, id))
}

/// Whether any identifier is among some others.
fn any_among(ids: &Vec<MessageId>, others: &[MessageId]) -> (found: bool)
    ensures
        found == meet(ids@, others@),
{
    let mut i: usize = 0;
    while i < ids.len()
        invariant
            i <= ids@.len(),
            forall|k: int| 0 <= k < i ==> !others@.contains(#[trigger] ids@[k]),
        decreases ids@.len() - i,
    {
        if among(ids[i], others) {
            proof {
                assert(others@.contains(ids@[i as int]));
            }
            return true;
        }
        i += 1;
    }
    false
}

/// Keeps the identifiers of frames that are still in flight.
fn keep_in_flight(ids: &Vec<MessageId>, pending: &Vec<Pending>) -> (left: Vec<MessageId>)
    ensures
        left@ == unacknowledged(ids@, pending@),
{
    let mut left: Vec<MessageId> = Vec::new();
    let mut i: usize = 0;
    proof {
        reveal(Seq::filter);
        assert(ids@.take(0) =~= Seq::<MessageId>::empty());
    }
    while i < ids.len()
        invariant
            i <= ids@.len(),
            left@ == unacknowledged(ids@.take(i as int), pending@),
        decreases ids@.len() - i,
    {
        let id: MessageId = ids[i];
        proof {
            reveal(Seq::filter);
            assert(ids@.take(i + 1).drop_last() =~= ids@.take(i as int));
        }
        let mut k: usize = 0;
        let mut found = false;
        while k < pending.len()
            invariant
                k <= pending@.len(),
                found == exists|j: int| 0 <= j < k && (#[trigger] pending@[j]).id == id,
            decreases pending@.len() - k,
        {
            if pending[k].id == id {
                found = true;
            }
            k += 1;
        }
        if found {
            left.push(id);
        }
        i += 1;
    }
    proof {
        assert(ids@.take(i as int) =~= ids@);
    }
    left
}

/// The frames in flight after an acknowledgement do not depend on what they carry
/// but on what they are known by alone: one that is acknowledged is gone, whatever
/// its shape and whether or not it is a fragment, and one that is not is still
/// there, as it was.
pub proof fn an_acknowledged_frame_is_no_longer_in_flight(
    pending: Seq<Pending>,
    acked: Seq<MessageId>,
)
    ensures
        forall|k: int|
            0 <= k < still_pending(pending, acked).len() ==> !acked.contains(
                (#[trigger] still_pending(pending, acked)[k]).id,
            ) && pending.contains(still_pending(pending, acked)[k]),
        forall|k: int|
            0 <= k < pending.len() && !acked.contains((#[trigger] pending[k]).id) ==> still_pending(
                pending,
                acked,
            ).contains(pending[k]),
        forall|id: MessageId|
            acked.contains(id) ==> !#[trigger] in_flight(still_pending(pending, acked), id),
        forall|id: MessageId|
            !acked.contains(id) ==> #[trigger] in_flight(still_pending(pending, acked), id)
                == in_flight(pending, id),
        still_pending(pending, acked).len() <= pending.len(),
    decreases pending.len(),
{
    reveal(Seq::filter);
    let left = still_pending(pending, acked);
    if pending.len() > 0 {
        let earlier = pending.drop_last();
        let last = pending.last();
        an_acknowledged_frame_is_no_longer_in_flight(earlier, acked);
        let before = still_pending(earlier, acked);
        assert(left == if acked.contains(last.id) {
            before
        } else {
            before.push(last)
        });
        assert forall|k: int| 0 <= k < left.len() implies !acked.contains((#[trigger] left[k]).id)
            && pending.contains(left[k]) by {
            if k < before.len() {
                assert(left[k] == before[k]);
                assert(earlier.contains(before[k]));
                let j = choose|j: int| 0 <= j < earlier.len() && earlier[j] == before[k];
                assert(pending[j] == before[k]);
            } else {
                assert(pending[pending.len() - 1] == left[k]);
            }
        }
        assert forall|k: int|
            0 <= k < pending.len() && !acked.contains((#[trigger] pending[k]).id) implies left.contains(
            pending[k],
        ) by {
            if k < earlier.len() {
                assert(earlier[k] == pending[k]);
                assert(before.contains(pending[k]));
                let j = choose|j: int| 0 <= j < before.len() && before[j] == pending[k];
                assert(left[j] == pending[k]);
            } else {
                assert(left[before.len() as int] == pending[k]);
            }
        }
    }
    assert forall|id: MessageId| acked.contains(id) implies !#[trigger] in_flight(left, id) by {
        if in_flight(left, id) {
            let k = choose|k: int| 0 <= k < left.len() && (#[trigger] left[k]).id == id;
            assert(!acked.contains(left[k].id));
        }
    }
    assert forall|id: MessageId| !acked.contains(id) implies #[trigger] in_flight(left, id)
        == in_flight(pending, id) by {
        if in_flight(left, id) {
            let k = choose|k: int| 0 <= k < left.len() && (#[trigger] left[k]).id == id;
            let j = choose|j: int| 0 <= j < pending.len() && pending[j] == left[k];
            assert(pending[j].id == id);
        }
        if in_flight(pending, id) {
            let k = choose|k: int| 0 <= k < pending.len() && (#[trigger] pending[k]).id == id;
            assert(left.contains(pending[k]));
            let j = choose|j: int| 0 <= j < left.len() && left[j] == pending[k];
            assert(left[j].id == id);
        }
    }
}

/// Frames stay in the order in which they went out: one more sent is one more at
/// the end, unless it is acknowledged.
pub proof fn frames_in_flight_stay_in_order(
    pending: Seq<Pending>,
    last: Pending,
    acked: Seq<MessageId>,
)
    ensures
        acked.contains(last.id) ==> still_pending(pending.push(last), acked) == still_pending(
            pending,
            acked,
        ),
        !acked.contains(last.id) ==> still_pending(pending.push(last), acked) == still_pending(
            pending,
            acked,
        ).push(last),
        still_pending(Seq::empty(), acked) == Seq::<Pending>::empty(),
{
    reveal(Seq::filter);
    assert(pending.push(last).drop_last() =~= pending);
}

/// What is left of some identifiers once others are taken out, which of them are
/// still in flight, and whether two lots meet, is a matter of membership alone.
pub proof fn identifiers_are_kept_by_membership(
    ids: Seq<MessageId>,
    others: Seq<MessageId>,
    pending: Seq<Pending>,
    id: MessageId,
)
    ensures
        without(ids, others).contains(id) <==> ids.contains(id) && !others.contains(id),
        unacknowledged(ids, pending).contains(id) <==> ids.contains(id) && exists|k: int|
            0 <= k < pending.len() && (#[trigger] pending[k]).id == id,
        unacknowledged(ids, pending).len() == 0 <==> forall|k: int|
            0 <= k < ids.len() ==> !in_flight(pending, #[trigger] ids[k]),
        ids.contains(id) && others.contains(id) ==> meet(ids, others),
        meet(ids, others) ==> exists|k: int, j: int|
            #![trigger ids[k], others[j]]
            0 <= k < ids.len() && 0 <= j < others.len() && ids[k] == others[j],
    decreases ids.len(),
{
    reveal(Seq::filter);
    let kept = without(ids, others);
    let flying = unacknowledged(ids, pending);
    if ids.len() > 0 {
        let earlier = ids.drop_last();
        let last = ids.last();
        identifiers_are_kept_by_membership(earlier, others, pending, id);
        assert(ids.contains(id) == (earlier.contains(id) || id == last)) by {
            if ids.contains(id) {
                let k = choose|k: int| 0 <= k < ids.len() && ids[k] == id;
                if k < earlier.len() {
                    assert(earlier[k] == id);
                }
            }
            if earlier.contains(id) {
                let k = choose|k: int| 0 <= k < earlier.len() && earlier[k] == id;
                assert(ids[k] == id);
            }
            assert(ids[ids.len() - 1] == last);
        }
        contains_pushed(without(earlier, others), last, id);
        contains_pushed(unacknowledged(earlier, pending), last, id);
        if flying.len() == 0 {
            assert forall|k: int| 0 <= k < ids.len() implies !in_flight(pending, #[trigger] ids[k]) by {
                if k < earlier.len() {
                    assert(earlier[k] == ids[k]);
                }
            }
        } else if unacknowledged(earlier, pending).len() > 0 {
            let k = choose|k: int| 0 <= k < earlier.len() && in_flight(pending, earlier[k]);
            assert(ids[k] == earlier[k]);
        } else {
            assert(in_flight(pending, ids[ids.len() - 1]));
        }
    }
    if ids.contains(id) && others.contains(id) {
        let k = choose|k: int| 0 <= k < ids.len() && ids[k] == id;
        assert(others.contains(ids[k]));
    }
    if meet(ids, others) {
        let k = choose|k: int| 0 <= k < ids.len() && others.contains(#[trigger] ids[k]);
        let j = choose|j: int| 0 <= j < others.len() && others[j] == ids[k];
        assert(ids[k] == others[j]);
    }
}

proof fn contains_pushed(ids: Seq<MessageId>, last: MessageId, id: MessageId)
    ensures
        ids.push(last).contains(id) == (ids.contains(id) || id == last),
{
    let all = ids.push(last);
    if all.contains(id) {
        let k = choose|k: int| 0 <= k < all.len() && all[k] == id;
        if k < ids.len() {
            assert(ids[k] == id);
        }
    }
    if ids.contains(id) {
        let k = choose|k: int| 0 <= k < ids.len() && ids[k] == id;
        assert(all[k] == id);
    }
    assert(all[ids.len() as int] == last);
}

/// A frame carries what fits it: the coded form where that fits with its header,
/// the payload as it is where only that fits; and a payload is refused exactly
/// where neither does, with its length and the limit that it passes.
pub proof fn a_payload_is_refused_only_where_no_form_of_it_fits(
    coded: Option<(CodecHeader, nat)>,
    data_len: nat,
    limit: nat,
)
    requires
        data_len <= usize::MAX,
        limit <= usize::MAX,
    ensures
        chosen(coded, data_len, limit) is Ok <==> data_len <= limit || (coded matches Some((_, len))
            && 4 + len <= limit),
        chosen(coded, data_len, limit) == Ok::<Body, Error>(Body::Raw) ==> data_len <= limit && !(
        coded matches Some((_, len)) && 4 + len <= limit),
        chosen(coded, data_len, limit) matches Ok(Body::Coded { header, len }) ==> 4 + len <= limit
            && coded == Some((header, len as nat)),
        coded matches Some((header, len)) ==> (4 + len <= limit ==> chosen(coded, data_len, limit)
            == Ok::<Body, Error>(Body::Coded { header, len: len as usize })),
        chosen(coded, data_len, limit) matches Err(e) ==> e == (Error::PayloadTooLarge {
            len: data_len as usize,
            limit: limit as usize,
        }),
{
}

/// A frame filled to its room, with all that goes with it, is exactly as large as
/// a datagram may be, unless the session itself allows less.
pub proof fn a_full_frame_fills_the_datagram(link: Link, datagram_limit: nat)
    requires
        datagram_limit >= 30 + link.message_id_len + link.fragment_len,
        link.session_limit >= datagram_limit,
    ensures
        room(link, datagram_limit, false, false) + (if link.encrypted {
            30int
        } else {
            14int
        }) == datagram_limit,
        room(link, datagram_limit, true, false) + link.message_id_len == room(
            link,
            datagram_limit,
            false,
            false,
        ),
        room(link, datagram_limit, false, true) + link.fragment_len == room(
            link,
            datagram_limit,
            false,
            false,
        ),
        room(link, datagram_limit, true, true) + link.message_id_len + link.fragment_len == room(
            link,
            datagram_limit,
            false,
            false,
        ),
{
}

/// However small a datagram may be, and whatever the session allows, the room for
/// a payload is what both leave of it: never more, and nothing where they leave
/// nothing.
pub proof fn the_room_is_what_datagram_and_session_leave(
    link: Link,
    datagram_limit: nat,
    reliable: bool,
    fragmented: bool,
)
    ensures
        ({
            let extra = (if reliable {
                link.message_id_len as int
            } else {
                0
            }) + (if fragmented {
                link.fragment_len as int
            } else {
                0
            });
            let frame = (if link.encrypted {
                30int
            } else {
                14int
            });
            let by_datagram = datagram_limit - frame - extra;
            let by_session = link.session_limit - extra;
            let least = if by_datagram < by_session {
                by_datagram
            } else {
                by_session
            };
            room(link, datagram_limit, reliable, fragmented) == if least < 0 {
                0
            } else {
                least
            }
        }),
{
}

/// What is queued is what was given, whole and with none of it sent, at the back of
/// the queue; and each message that is queued takes the next identifier, counting
/// round.
pub proof fn what_is_queued_is_what_was_given(
    before: Peer,
    after: Peer,
    data: Seq<u8>,
    payload_type: PayloadType,
    per_fragment: nat,
)
    requires
        before.queues(&after, data, payload_type, per_fragment),
    ensures
        after.queue@.len() == before.queue@.len() + 1,
        after.queue@.last().data@ == data,
        after.queue@.last().payload_type == payload_type,
        after.queue@.last().per_fragment == per_fragment,
        after.queue@.last().next == 0,
        after.queue@.last().outstanding@.len() == 0,
        !after.queue@.last().lost,
        after.queue@.last().message == before.next_message,
        after.next_message as int == (before.next_message + 1) % 0x1_0000_0000,
        forall|j: int| 0 <= j < before.queue@.len() ==> #[trigger] after.queue@[j] == before.queue@[j],
        after.pending@ == before.pending@,
        after.reassembly == before.reassembly,
        after.given_up == before.given_up,
        after.unreported == before.unreported,
        after.abandoned@ == before.abandoned@,
{
}

/// What a frame is to carry of a payload. One that was not attempted goes out as it
/// is or not at all. One that goes out coded is shorter for it, header and all, fits
/// the frame, and says how long it was; and a payload is refused only where neither
/// form of it fits. Beside the working space only the record of whether coding pays
/// may change, and only by an attempt that was not forced.
pub proof fn what_a_frame_is_to_carry(
    before: Peer,
    after: Peer,
    attempt: Attempt,
    data: Seq<u8>,
    payload_type: PayloadType,
    applied: Result<usize, ProtocolError>,
    body: Result<Body, Error>,
)
    requires
        data.len() <= usize::MAX,
        before.seals(&after, attempt, data, payload_type, applied, body),
    ensures
        ({
            let coded = before.coded(data, payload_type, applied);
            &&& !attempt.attempted && data.len() <= attempt.limit ==> body == Ok::<Body, Error>(
                Body::Raw,
            )
            &&& body == Ok::<Body, Error>(Body::Raw) ==> data.len() <= attempt.limit
            &&& body matches Ok(Body::Coded { header, len }) ==> {
                &&& attempt.attempted
                &&& 4 + len <= attempt.limit
                &&& 4 + len < data.len()
                &&& header.original_len == data.len()
                &&& coded == Some((header, after.primary@.take(len as int)))
            }
            &&& body is Err <==> data.len() > attempt.limit && !(attempt.attempted && (
            coded matches Some((_, bytes)) && 4 + bytes.len() <= attempt.limit))
            &&& attempt.attempted && (coded matches Some((_, bytes)) && 4 + bytes.len()
                <= attempt.limit) ==> (body matches Ok(Body::Coded { .. }))
            &&& !attempt.attempted || attempt.must_try ==> after.coding == before.coding
            &&& attempt.attempted && !attempt.must_try && coded is Some ==> after.coding.misses == 0
                && after.coding.skips == 0
            &&& attempt.attempted && !attempt.must_try && coded is None ==> after.coding
                == before.coding.recorded(false)
            &&& after.coding.shape == before.coding.shape
            &&& after.link == before.link && after.pending == before.pending && after.queue
                == before.queue && after.abandoned == before.abandoned
            &&& after.given_up == before.given_up && after.unreported == before.unreported
                && after.reassembly == before.reassembly && after.next_message
                == before.next_message
        }),
{
    let caps = before.link.capabilities;
    let front = applied_bytes(before.primary@, applied);
    if let Some(transformed) = transformed_by(planned(data, payload_type, caps), data, front) {
        crate::compress::coding_never_costs_bytes(
            data,
            payload_type,
            caps,
            front,
            squeeze_room(before.secondary@.len(), transformed.len()),
        );
    }
}

/// What coding makes of a payload is made of what the transform left at the front
/// of the working space, and for what this peer can undo.
pub proof fn coding_works_on_what_the_transform_left(
    peer: Peer,
    data: Seq<u8>,
    payload_type: PayloadType,
    applied: Result<usize, ProtocolError>,
)
    ensures
        ({
            let caps = peer.link.capabilities;
            let plan = planned(data, payload_type, caps);
            &&& plan == Plan::Skip ==> peer.coded(data, payload_type, applied) is None
            &&& plan is Apply && applied is Err ==> peer.coded(data, payload_type, applied) is None
            &&& plan is Apply ==> (applied matches Ok(len) ==> peer.coded(
                data,
                payload_type,
                applied,
            ) == encoded(
                data,
                payload_type,
                caps,
                Some(peer.primary@.take(len as int)),
                squeeze_room(peer.secondary@.len(), peer.primary@.take(len as int).len()),
            ))
            &&& plan == Plan::AsIs ==> peer.coded(data, payload_type, applied) == encoded(
                data,
                payload_type,
                caps,
                applied_bytes(peer.primary@, applied),
                squeeze_room(peer.secondary@.len(), data.len()),
            )
        }),
{
}

/// What is assembled for a frame begins with the codec header where the payload is
/// coded, and is the payload itself where it is not.
pub proof fn what_is_assembled_for_a_frame(peer: Peer, body: Body, header: Seq<u8>, data: Seq<u8>)
    requires
        body matches Body::Coded { len, .. } ==> len <= peer.primary@.len(),
    ensures
        body == Body::Raw ==> peer.assembled(body, header, data) == data,
        body matches Body::Coded { len, .. } ==> {
            let bytes = peer.assembled(body, header, data);
            &&& bytes.len() == header.len() + len
            &&& bytes.take(header.len() as int) == header
            &&& forall|i: int|
                0 <= i < len ==> bytes[header.len() + i] == #[trigger] peer.primary@[i]
        },
{
    if let Body::Coded { len, .. } = body {
        let bytes = peer.assembled(body, header, data);
        assert(bytes.take(header.len() as int) =~= header);
        assert forall|i: int| 0 <= i < len implies bytes[header.len() + i]
            == #[trigger] peer.primary@[i] by {
            assert(bytes[header.len() + i] == peer.primary@.take(len as int)[i]);
        }
    }
}

/// What is decided about a payload before it is coded, for a frame with this much
/// room, and what deciding it leaves of the session's state.
pub open spec fn begins_seal(
    before: &Peer,
    after: &Peer,
    data: Seq<u8>,
    payload_type: PayloadType,
    limit: nat,
    attempt: Attempt,
) -> bool {
    &&& *after == (Peer { coding: before.coding.asked(payload_type), ..*before })
    &&& attempt.limit == limit
    &&& attempt.must_try == (data.len() > limit)
    &&& attempt.attempted == (before.coding.attempts(payload_type) || attempt.must_try)
    &&& attempt.plan == (if attempt.attempted {
        planned(data, payload_type, before.link.capabilities)
    } else {
        Plan::Skip
    })
}

/// A payload that does not fit as it is gets its attempt whatever the record says,
/// and so does one of another shape than the record is about; any other is attempted
/// exactly where the record does not hold it back.
pub proof fn when_coding_is_attempted(
    before: Peer,
    after: Peer,
    data: Seq<u8>,
    payload_type: PayloadType,
    limit: nat,
    attempt: Attempt,
)
    requires
        begins_seal(&before, &after, data, payload_type, limit, attempt),
    ensures
        attempt.limit == limit,
        data.len() > limit ==> attempt.attempted && attempt.must_try,
        data.len() <= limit ==> !attempt.must_try,
        payload_type != before.coding.shape ==> attempt.attempted,
        data.len() <= limit && payload_type == before.coding.shape ==> (attempt.attempted
            <==> before.coding.skips == 0),
        !attempt.attempted ==> attempt.plan == Plan::Skip,
        attempt.attempted ==> attempt.plan == planned(
            data,
            payload_type,
            before.link.capabilities,
        ),
        after.coding.shape == payload_type,
        after.link == before.link && after.pending == before.pending && after.queue == before.queue
            && after.primary == before.primary && after.secondary == before.secondary,
{
}

/// A frame given up on is out of flight and counted, whatever it carries, and every
/// other frame stays. It is still to be reported exactly where it was a whole
/// message: what a fragment belongs to is reported when that finishes.
pub proof fn a_frame_given_up_on_is_counted_once(before: Peer, after: Peer, id: MessageId)
    requires
        before.gives_up(&after, id),
        before.given_up < usize::MAX,
        before.unreported < usize::MAX,
    ensures
        !in_flight(after.pending@, id),
        forall|k: int|
            0 <= k < before.pending@.len() && (#[trigger] before.pending@[k]).id != id
                ==> after.pending@.contains(before.pending@[k]),
        after.abandoned@.contains(id),
        after.given_up == before.given_up + 1,
        (exists|k: int|
            0 <= k < before.pending@.len() && (#[trigger] before.pending@[k]).id == id
                && before.pending@[k].fragment is None) ==> after.unreported == before.unreported
            + 1,
        (forall|k: int|
            0 <= k < before.pending@.len() && (#[trigger] before.pending@[k]).id == id
                ==> before.pending@[k].fragment is Some) ==> after.unreported == before.unreported,
        after.queue == before.queue,
{
    an_acknowledged_frame_is_no_longer_in_flight(before.pending@, seq![id]);
    assert(seq![id][0] == id);
    assert(seq![id].contains(id));
    assert(after.abandoned@[before.abandoned@.len() as int] == id);
    assert forall|k: int|
        0 <= k < before.pending@.len() && (#[trigger] before.pending@[k]).id
            != id implies after.pending@.contains(before.pending@[k]) by {
        assert(!seq![id].contains(before.pending@[k].id));
    }
    if before.whole_in_flight(id) {
        let k = choose|k: int|
            0 <= k < before.pending@.len() && (#[trigger] before.pending@[k]).id == id
                && before.pending@[k].fragment is None;
        assert(before.pending@[k].fragment is None);
    }
}

/// A session that has just been established has nothing in flight, nothing queued,
/// nothing half-built and nothing to report; it counts its messages from zero, holds
/// nothing against coding, and its working space is cleared.
pub proof fn a_new_session_has_nothing_on_it(peer: Peer, link: Link, space: nat)
    requires
        peer.is_new(link, space),
    ensures
        peer.link == link,
        peer.pending@.len() == 0 && peer.queue@.len() == 0 && peer.abandoned@.len() == 0,
        peer.reassembly@.len() == 0,
        peer.given_up == 0 && peer.unreported == 0 && peer.next_message == 0,
        peer.coding.attempts(PayloadType::Opaque) && peer.coding.misses == 0,
        peer.primary@.len() == space && peer.secondary@.len() == space,
        forall|i: int| 0 <= i < space ==> peer.primary@[i] == 0,
        forall|i: int| 0 <= i < space ==> peer.secondary@[i] == 0,
{
}

/// A message is queued as the fewest fragments that carry it, each as large as a frame
/// allows.
pub proof fn a_message_is_queued_as_the_fewest_fragments(
    before: Peer,
    after: Peer,
    data: Seq<u8>,
    payload_type: PayloadType,
    per_fragment: nat,
)
    requires
        before.queues(&after, data, payload_type, per_fragment),
    ensures
        ({
            let job = after.queue@.last();
            &&& per_fragment > 0
            &&& 1 <= job.count <= 4096
            &&& data.len() <= job.count * per_fragment
            &&& data.len() > 0 ==> (job.count - 1) * per_fragment < data.len()
            &&& data.len() == 0 ==> job.count == 1
            &&& data.len() <= 1_048_576
        }),
{
    crate::fragment::pieces_needed_bounds(data.len(), per_fragment);
}

} // verus!
