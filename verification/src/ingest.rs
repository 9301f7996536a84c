//! What an inbound frame turns out to be, and what is owed for it.

use vstd::prelude::*;

use crate::codec::{CodecHeader, CODEC_HEADER_LEN};
use crate::compress::{
    applied_bytes, decode_payload, decoded, restored, reverses, what_is_coded_comes_back, Layer, PayloadType,
    Reversal, Unpacked,
};
use crate::error::{Error, ProtocolError};
use crate::fragment::Fragment;
use crate::peer::{Attempt, Body, MessageId, Peer};
use crate::reassembly::accepted;

verus! {

/// What an opened frame says it is.
#[derive(Debug, Clone, Copy, PartialEq, Eq, Structural)]
pub enum Purpose {
    /// An acknowledgement.
    Ack,
    /// Application data.
    Data,
    /// A question whether this address can receive, to be answered with its token.
    PathChallenge(u64),
    /// The answer to such a question.
    PathResponse(u64),
}

/// A frame that authenticated.
#[derive(Debug, Clone, Copy, PartialEq, Eq, Structural)]
pub struct Opened {
    /// What it is.
    pub purpose: Purpose,
    /// Length of what it carries.
    pub len: usize,
    /// What it is known by, if it asks to be acknowledged.
    pub message_id: Option<MessageId>,
    /// Where it belongs, if it is a piece of something larger.
    pub fragment: Option<Fragment>,
    /// Whether a codec header precedes what it carries.
    pub compressed: bool,
}

/// What is to be done with an inbound frame.
#[derive(Debug, Clone, Copy, PartialEq, Eq, Structural)]
pub enum Step {
    /// It did not authenticate. Nothing about the session may change.
    Rejected,
    /// It acknowledges frames of ours.
    Acknowledge,
    /// It asks whether this address receives: answer with the token.
    AnswerChallenge(u64),
    /// It answers such a question of ours.
    PathValidated(u64),
    /// It has been delivered before. Acknowledge it again, and no more.
    Duplicate,
    /// It is one piece of a message: acknowledge, decode, and fold it in.
    Piece {
        /// Where it belongs.
        fragment: Fragment,
        /// Length of what it carries.
        len: usize,
        /// Whether a codec header precedes it.
        compressed: bool,
        /// Whether an acknowledgement is owed.
        ack: bool,
    },
    /// It is a whole message.
    Whole {
        /// Length of what it carries.
        len: usize,
        /// Whether a codec header precedes it.
        compressed: bool,
        /// Whether an acknowledgement is owed.
        ack: bool,
    },
}

/// What is to be done with a frame, given whether opening it succeeded and
/// whether its identifier is one not seen before.
pub open spec fn step_for(opened: Option<Opened>, is_new: bool) -> Step {
    match opened {
        None => Step::Rejected,
        Some(o) => match o.purpose {
            Purpose::Ack => Step::Acknowledge,
            Purpose::PathChallenge(token) => Step::AnswerChallenge(token),
            Purpose::PathResponse(token) => Step::PathValidated(token),
            Purpose::Data => if o.message_id is Some && !is_new {
                Step::Duplicate
            } else if let Some(fragment) = o.fragment {
                Step::Piece {
                    fragment,
                    len: o.len,
                    compressed: o.compressed,
                    ack: o.message_id is Some,
                }
            } else {
                Step::Whole { len: o.len, compressed: o.compressed, ack: o.message_id is Some }
            },
        },
    }
}

/// Works out what an inbound frame means.
///
/// `opened` is what opening it gave, if it authenticated, and `is_new` whether
/// its message identifier was one not delivered before. A reliable frame is
/// acknowledged whether or not it is new: the peer is sending it again
/// precisely because it has not heard from us.
pub fn ingest(opened: Option<Opened>, is_new: bool) -> (step: Step)
    ensures
        step == step_for(opened, is_new),
{
    match opened {
        None => Step::Rejected,
        Some(o) => match o.purpose {
            Purpose::Ack => Step::Acknowledge,
            Purpose::PathChallenge(token) => Step::AnswerChallenge(token),
            Purpose::PathResponse(token) => Step::PathValidated(token),
            Purpose::Data => {
                let ack = o.message_id.is_some();
                if ack && !is_new {
                    return Step::Duplicate;
                }
                match o.fragment {
                    Some(fragment) => Step::Piece {
                        fragment,
                        len: o.len,
                        compressed: o.compressed,
                        ack,
                    },
                    None => Step::Whole { len: o.len, compressed: o.compressed, ack },
                }
            },
        },
    }
}

/// Whether a step owes the peer an acknowledgement.
pub open spec fn owes_ack(step: Step) -> bool {
    match step {
        Step::Duplicate => true,
        Step::Piece { ack, .. } => ack,
        Step::Whole { ack, .. } => ack,
        _ => false,
    }
}

/// Every reliable frame that authenticates is acknowledged, duplicates included,
/// and nothing else is.
pub proof fn every_reliable_frame_is_acknowledged(opened: Option<Opened>, is_new: bool)
    ensures
        owes_ack(step_for(opened, is_new)) == (opened matches Some(o) && o.purpose == Purpose::Data
            && o.message_id is Some),
{
}

/// A frame seen before is never delivered again.
pub proof fn a_duplicate_is_never_delivered(opened: Opened)
    requires
        opened.message_id is Some,
    ensures
        !(step_for(Some(opened), false) is Piece),
        !(step_for(Some(opened), false) is Whole),
{
}

impl Peer {
    /// Folds a decoded piece into the message it belongs to, returning the
    /// message once it is whole.
    ///
    /// A descriptor that cannot be reconciled with what has already come drops
    /// the half-built message and nothing more: one bad frame must not end a
    /// session.
    pub fn take_piece(&mut self, fragment: Fragment, piece: &[u8]) -> (whole: Option<Vec<u8>>)
        requires
            old(self).wf(),
            fragment.in_range(),
        ensures
            final(self).wf(),
            *final(self) == (Peer { reassembly: final(self).reassembly, ..*old(self) }),
            ({
                let (held, outcome) = accepted(old(self).reassembly@, fragment, piece@);
                &&& final(self).reassembly@ == held
                &&& whole is Some == (outcome matches Ok(Some(_)))
                &&& whole matches Some(w) ==> outcome == Ok::<Option<Seq<u8>>, Error>(Some(w@))
            }),
    {
        match self.reassembly.accept(fragment, piece) {
            Ok(whole) => whole,
            Err(_) => None,
        }
    }

    /// How many messages are being put back together.
    pub fn reassembling(&self) -> (count: usize)
        ensures
            count == self.reassembly@.len(),
    {
        self.reassembly.in_progress()
    }
}

/// How large a buffer a frame's body needs once decoded.
pub open spec fn capacity_for(
    body: Seq<u8>,
    compressed: bool,
    header: Result<CodecHeader, ProtocolError>,
) -> nat {
    match header {
        Ok(h) if compressed => h.original_len as nat,
        _ => body.len(),
    }
}

/// How large a buffer a frame's body needs once decoded.
///
/// A coded body states its decoded length, so this is exact; `header` is what
/// decoding that header gave. A malformed one is refused later, for which a
/// small buffer is enough.
pub fn decoded_capacity(
    body: &[u8],
    compressed: bool,
    header: Result<CodecHeader, ProtocolError>,
) -> (capacity: usize)
    ensures
        capacity == capacity_for(body@, compressed, header),
{
    if !compressed {
        return body.len();
    }
    match header {
        Ok(h) => h.original_len as usize,
        Err(_) => body.len(),
    }
}

/// How far a body got on its way to the application.
pub enum Delivery {
    /// It was copied out: this many bytes.
    Copied(usize),
    /// Its transform remains to be reversed.
    Reverse(Unpacked),
}

/// How far a body gets on its way to the application, as values.
#[verifier::ext_equal]
pub enum Handed {
    /// All the way, with these bytes.
    Copied(Seq<u8>),
    /// Up to its transform.
    Reverse(Layer),
}

impl Delivery {
    /// The same as values, for a given body.
    pub open spec fn handed(&self, body: Seq<u8>) -> Handed {
        match *self {
            Delivery::Copied(len) => Handed::Copied(body.take(len as int)),
            Delivery::Reverse(unpacked) => Handed::Reverse(unpacked.layer()),
        }
    }
}

/// How far a body gets on its way into `room` bytes: one that is not coded goes
/// all the way, and a coded one up to its transform.
pub open spec fn delivered(
    body: Seq<u8>,
    compressed: bool,
    header: Result<CodecHeader, ProtocolError>,
    scratch: nat,
    room: nat,
) -> Result<Handed, Error> {
    if compressed {
        match decoded(header, body, scratch, room) {
            Ok(layer) => Ok(Handed::Reverse(layer)),
            Err(e) => Err(e),
        }
    } else if room < body.len() {
        Err(Error::PayloadTooLarge { len: body.len() as usize, limit: room as usize })
    } else {
        Ok(Handed::Copied(body))
    }
}

/// What the application's buffer holds after a delivery.
pub open spec fn out_after(out: Seq<u8>, delivered: Result<Handed, Error>) -> Seq<u8> {
    match delivered {
        Ok(Handed::Copied(bytes)) => bytes + out.skip(bytes.len() as int),
        _ => out,
    }
}

/// What a delivery ends with once a transform is reversed: the payload's length,
/// or why there is none, and what the application's buffer holds.
pub open spec fn payload_of(delivered: Result<Handed, Error>, out: Seq<u8>, reverse: Reversal) -> (
    Result<usize, Error>,
    Seq<u8>,
) {
    match delivered {
        Ok(Handed::Copied(bytes)) => (Ok(bytes.len() as usize), out_after(out, delivered)),
        Ok(Handed::Reverse(layer)) => restored(Ok(layer), out, reverse),
        Err(e) => (Err(e), out),
    }
}

/// Copies a body out, undoing its coding up to the transform if it was coded.
///
/// `header` is what decoding the codec header of a coded body gave.
pub fn deliver(
    body: &[u8],
    compressed: bool,
    header: Result<CodecHeader, ProtocolError>,
    scratch: &mut Vec<u8>,
    out: &mut [u8],
) -> (delivery: Result<Delivery, Error>)
    requires
        compressed && header is Ok ==> body@.len() >= CODEC_HEADER_LEN,
    ensures
        final(out)@.len() == old(out)@.len(),
        !compressed ==> final(scratch)@ == old(scratch)@,
        ({
            let expected = delivered(
                body@,
                compressed,
                header,
                old(scratch)@.len(),
                old(out)@.len(),
            );
            &&& expected == (match delivery {
                Ok(d) => Ok::<Handed, Error>(d.handed(body@)),
                Err(e) => Err(e),
            })
            &&& delivery matches Ok(Delivery::Copied(len)) ==> len == body@.len()
            &&& final(out)@ == out_after(old(out)@, expected)
        }),
{
    if compressed {
        return match decode_payload(header, body, scratch, out.len()) {
            Ok(unpacked) => Ok(Delivery::Reverse(unpacked)),
            Err(e) => Err(e),
        };
    }
    if out.len() < body.len() {
        return Err(Error::PayloadTooLarge { len: body.len(), limit: out.len() });
    }
    let ghost before = out@;
    let mut i: usize = 0;
    while i < body.len()
        invariant
            i <= body@.len() <= out@.len(),
            out@ == body@.take(i as int) + before.skip(i as int),
            out@.len() == before.len(),
        decreases body@.len() - i,
    {
        out[i] = body[i];
        i += 1;
        proof {
            assert(out@ =~= body@.take(i as int) + before.skip(i as int));
        }
    }
    proof {
        assert(body@.take(body@.len() as int) =~= body@);
    }
    Ok(Delivery::Copied(body.len()))
}

/// A buffer of the decoded capacity is always large enough: delivering into it
/// is never refused for want of room. A body that is not coded comes out whole
/// and fills it, and a coded one fills it once its transform is reversed.
pub proof fn the_decoded_capacity_is_enough(
    body: Seq<u8>,
    compressed: bool,
    header: Result<CodecHeader, ProtocolError>,
    scratch: nat,
    out: Seq<u8>,
)
    requires
        out.len() == capacity_for(body, compressed, header),
    ensures
        ({
            let outcome = delivered(body, compressed, header, scratch, out.len());
            &&& !(outcome matches Err(Error::PayloadTooLarge { .. }))
            &&& !compressed ==> outcome == Ok::<Handed, Error>(Handed::Copied(body)) && out_after(
                out,
                outcome,
            ) == body
            &&& compressed ==> (header matches Ok(h) ==> {
                &&& out.len() == h.original_len
                &&& outcome matches Ok(handed) ==> {
                    &&& handed matches Handed::Reverse(layer)
                    &&& layer.original_len == out.len()
                }
            })
        }),
{
    assert(!compressed ==> body + out.skip(body.len() as int) =~= body);
}

/// What is sealed and sent is what is delivered: a frame that carries what was
/// assembled of a payload, and authenticates, is handed on as the whole message
/// or the piece that it is, and delivering its body into a buffer with enough room
/// gives the payload's length and leaves the payload at the front of the buffer,
/// byte for byte. The frame's codec header is one that decodes to what was
/// encoded, and the transform one whose reversal gives back what it was run on.
pub proof fn what_is_sealed_is_delivered(
    before: Peer,
    after: Peer,
    attempt: Attempt,
    data: Seq<u8>,
    payload_type: PayloadType,
    applied: Result<usize, ProtocolError>,
    body: Body,
    encoded_header: Seq<u8>,
    opened: Opened,
    is_new: bool,
    header: Result<CodecHeader, ProtocolError>,
    scratch: nat,
    out: Seq<u8>,
    reverse: Reversal,
)
    requires
        before.seals(&after, attempt, data, payload_type, applied, Ok(body)),
        encoded_header.len() == CODEC_HEADER_LEN,
        opened.purpose == Purpose::Data,
        opened.compressed == (body is Coded),
        opened.len == after.assembled(body, encoded_header, data).len(),
        opened.message_id is Some ==> is_new,
        body matches Body::Coded { header: sent, .. } ==> header == Ok::<
            CodecHeader,
            ProtocolError,
        >(sent),
        reverses(
            reverse,
            data,
            payload_type,
            before.link.capabilities,
            applied_bytes(before.primary@, applied),
        ),
        out.len() >= data.len(),
    ensures
        step_for(Some(opened), is_new) == (match opened.fragment {
            Some(fragment) => Step::Piece {
                fragment,
                len: opened.len,
                compressed: opened.compressed,
                ack: opened.message_id is Some,
            },
            None => Step::Whole {
                len: opened.len,
                compressed: opened.compressed,
                ack: opened.message_id is Some,
            },
        }),
        ({
            let frame = after.assembled(body, encoded_header, data);
            let (length, out_then) = payload_of(
                delivered(frame, opened.compressed, header, scratch, out.len()),
                out,
                reverse,
            );
            &&& length == Ok::<usize, Error>(data.len() as usize)
            &&& out_then.take(data.len() as int) == data
        }),
{
    assert((data + out.skip(data.len() as int)).take(data.len() as int) =~= data);
    if let Body::Coded { header: sent, len } = body {
        what_is_coded_comes_back(
            data,
            payload_type,
            before.link.capabilities,
            applied_bytes(before.primary@, applied),
            before.secondary@.len(),
            sent,
            after.primary@.take(len as int),
            encoded_header,
            scratch,
            out,
            reverse,
        );
    }
}

/// What every frame turns out to be. One that does not open means nothing. An
/// acknowledgement, a challenge and its answer mean what they say, whatever else
/// they carry. Data that was delivered before is a duplicate; data that was not is
/// handed on, as the piece it says it is or else as a whole message, at its full
/// length.
pub proof fn every_frame_means_what_it_says(o: Opened, is_new: bool, token: u64)
    ensures
        step_for(None, is_new) == Step::Rejected,
        step_for(Some(o), is_new) != Step::Rejected,
        o.purpose == Purpose::Ack <==> step_for(Some(o), is_new) == Step::Acknowledge,
        o.purpose == Purpose::PathChallenge(token) <==> step_for(Some(o), is_new)
            == Step::AnswerChallenge(token),
        o.purpose == Purpose::PathResponse(token) <==> step_for(Some(o), is_new)
            == Step::PathValidated(token),
        o.purpose == Purpose::Data && o.message_id is Some && !is_new <==> step_for(Some(o), is_new)
            == Step::Duplicate,
        o.purpose == Purpose::Data && (is_new || o.message_id is None) ==> match step_for(
            Some(o),
            is_new,
        ) {
            Step::Piece { fragment, len, compressed, ack } => o.fragment == Some(fragment) && len
                == o.len && compressed == o.compressed && ack == (o.message_id is Some),
            Step::Whole { len, compressed, ack } => o.fragment is None && len == o.len && compressed
                == o.compressed && ack == (o.message_id is Some),
            _ => false,
        },
{
}

/// How a body reaches the application: one that is not coded as it is, where there is
/// room for all of it, and refused with its length and the room otherwise; a coded one
/// as far as decoding it gets. A buffer as large as the body, or as the length that a
/// coded body states, is what it needs.
pub proof fn how_a_body_reaches_the_application(
    body: Seq<u8>,
    header: Result<CodecHeader, ProtocolError>,
    scratch: nat,
    room: nat,
    out: Seq<u8>,
)
    requires
        body.len() <= usize::MAX,
        room <= usize::MAX,
        out.len() == room,
    ensures
        body.len() <= room ==> delivered(body, false, header, scratch, room) == Ok::<Handed, Error>(
            Handed::Copied(body),
        ) && out_after(out, delivered(body, false, header, scratch, room)).take(body.len() as int)
            == body && out_after(out, delivered(body, false, header, scratch, room)).skip(
            body.len() as int,
        ) == out.skip(body.len() as int),
        body.len() > room ==> delivered(body, false, header, scratch, room) == Err::<Handed, Error>(
            Error::PayloadTooLarge { len: body.len() as usize, limit: room as usize },
        ) && out_after(out, delivered(body, false, header, scratch, room)) == out,
        match decoded(header, body, scratch, room) {
            Ok(layer) => delivered(body, true, header, scratch, room) == Ok::<Handed, Error>(
                Handed::Reverse(layer),
            ),
            Err(e) => delivered(body, true, header, scratch, room) == Err::<Handed, Error>(e),
        },
        out_after(out, delivered(body, true, header, scratch, room)) == out,
        capacity_for(body, false, header) == body.len(),
        capacity_for(body, true, header) == (match header {
            Ok(h) => h.original_len as nat,
            Err(_) => body.len(),
        }),
{
    if body.len() <= room {
        let after = body + out.skip(body.len() as int);
        assert(after.take(body.len() as int) =~= body);
        assert(after.skip(body.len() as int) =~= out.skip(body.len() as int));
    }
}

} // verus!
