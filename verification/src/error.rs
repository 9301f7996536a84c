//! What can go wrong, as values that compare and copy.

use vstd::prelude::*;
use vstd::string::StringExecFns;

verus! {

/// The kind of a socket failure, as far as anything here acts on it.
#[derive(Debug, Clone, Copy, PartialEq, Eq, Structural)]
pub enum IoKind {
    /// A read found nothing and the socket says so at once.
    WouldBlock,
    /// A read or a wait ran out of time.
    TimedOut,
    /// The other end reports that nobody is listening.
    ConnectionRefused,
    /// The other end reports that nobody is listening any more.
    ConnectionReset,
    /// An argument was unusable, such as an address that names nothing.
    InvalidInput,
    /// Anything else.
    Other,
}

/// A failure reported by the session layer.
#[derive(Debug, Clone, Copy, PartialEq, Eq, Structural)]
pub enum ProtocolError {
    /// A header, or a fragment descriptor, contradicts itself or what came before.
    BadHeader,
    /// A payload is larger than the protocol lets anyone send.
    PayloadTooLarge,
    /// Too much is already in flight, or already queued.
    WindowFull,
    /// The buffer offered for the result is too small.
    BufferTooSmall,
    /// The long-term key could not be used.
    KeyUnavailable,
    /// Any other refusal, such as a frame that did not authenticate.
    Rejected,
}

/// Everything a caller of this library can be told went wrong.
#[derive(Debug, Clone, Copy, PartialEq, Eq, Structural)]
pub enum Error {
    /// The connection is over.
    Closed,
    /// The underlying socket failed.
    Io(IoKind),
    /// The session layer refused.
    Protocol(ProtocolError),
    /// A compressed payload could not be decoded.
    Decompress,
    /// The payload exceeds what one frame can carry to this peer.
    PayloadTooLarge {
        /// Bytes offered.
        len: usize,
        /// Largest payload accepted.
        limit: usize,
    },
    /// The handshake did not complete.
    Handshake,
    /// Reliable messages were given up on, or are still outstanding.
    Unacknowledged {
        /// How many.
        count: usize,
    },
    /// The peer does not implement the reliability layer.
    ReliabilityUnsupported,
    /// A resumption named a ticket that is not held.
    UnknownTicket,
    /// The handle does not name a connected peer.
    UnknownPeer,
    /// Public-key mode needs the peer's public key, and none was given.
    MissingPeerKey,
}

/// Whether a socket failure is a receive timeout rather than a real failure.
///
/// Platforms disagree on which of two kinds they report.
pub fn is_timeout(kind: IoKind) -> (timeout: bool)
    ensures
        timeout == (kind == IoKind::WouldBlock || kind == IoKind::TimedOut),
{
    match kind {
        IoKind::WouldBlock => true,
        IoKind::TimedOut => true,
        _ => false,
    }
}

/// Whether a socket failure only says that somebody written to earlier is not
/// listening.
pub fn is_stale_unreachable(kind: IoKind) -> (stale: bool)
    ensures
        stale == (kind == IoKind::ConnectionRefused || kind == IoKind::ConnectionReset),
{
    match kind {
        IoKind::ConnectionRefused => true,
        IoKind::ConnectionReset => true,
        _ => false,
    }
}

/// The digit of a number below ten.
pub open spec fn digit(d: nat) -> char {
    if d == 0 {
        '0'
    } else if d == 1 {
        '1'
    } else if d == 2 {
        '2'
    } else if d == 3 {
        '3'
    } else if d == 4 {
        '4'
    } else if d == 5 {
        '5'
    } else if d == 6 {
        '6'
    } else if d == 7 {
        '7'
    } else if d == 8 {
        '8'
    } else {
        '9'
    }
}

/// A number in decimal.
pub open spec fn in_decimal(n: nat) -> Seq<char>
    decreases n,
{
    if n < 10 {
        seq![digit(n)]
    } else {
        in_decimal(n / 10).push(digit(n % 10))
    }
}

/// Appends one digit.
fn push_digit(text: &mut String, d: usize)
    requires
        d < 10,
    ensures
        final(text)@ == old(text)@.push(digit(d as nat)),
{
    let ghost before = text@;
    proof {
        reveal_strlit("0");
        reveal_strlit("1");
        reveal_strlit("2");
        reveal_strlit("3");
        reveal_strlit("4");
        reveal_strlit("5");
        reveal_strlit("6");
        reveal_strlit("7");
        reveal_strlit("8");
        reveal_strlit("9");
    }
    if d == 0 {
        text.append("0");
    } else if d == 1 {
        text.append("1");
    } else if d == 2 {
        text.append("2");
    } else if d == 3 {
        text.append("3");
    } else if d == 4 {
        text.append("4");
    } else if d == 5 {
        text.append("5");
    } else if d == 6 {
        text.append("6");
    } else if d == 7 {
        text.append("7");
    } else if d == 8 {
        text.append("8");
    } else {
        text.append("9");
    }
    proof {
        assert(text@ =~= before.push(digit(d as nat)));
    }
}

/// Appends a number in decimal.
pub fn push_decimal(text: &mut String, n: usize)
    ensures
        final(text)@ == old(text)@ + in_decimal(n as nat),
    decreases n,
{
    let ghost before = text@;
    if n >= 10 {
        push_decimal(text, n / 10);
    }
    push_digit(text, n % 10);
    proof {
        assert(text@ =~= before + in_decimal(n as nat));
    }
}

impl Error {
    /// What the error says, where `detail` says what the layer below reported.
    pub open spec fn says(self, detail: Seq<char>) -> Seq<char> {
        match self {
            Error::Io(_) => "transport error: "@ + detail,
            Error::Protocol(_) => "protocol error: "@ + detail,
            Error::Decompress => "could not decompress payload"@,
            Error::PayloadTooLarge { len, limit } => "payload of "@ + in_decimal(len as nat)
                + " bytes exceeds the "@ + in_decimal(limit as nat) + "-byte frame limit"@,
            Error::Handshake => "handshake failed"@,
            Error::Unacknowledged { count } => in_decimal(count as nat)
                + " reliable message(s) were never acknowledged"@,
            Error::ReliabilityUnsupported => "the peer does not implement the reliability layer"@,
            Error::UnknownTicket => "unknown or already-used resumption ticket"@,
            Error::UnknownPeer => "no such connected peer"@,
            Error::MissingPeerKey => "public-key mode requires the peer's public key"@,
            Error::Closed => "the connection is closed"@,
        }
    }

    /// The error as a sentence for people, where `detail` says what the layer
    /// below reported, if the error came from there.
    pub fn message(&self, detail: &str) -> (text: String)
        ensures
            text@ == self.says(detail@),
    {
        let mut text = String::new();
        match self {
            Error::Io(_) => {
                text.append("transport error: ");
                text.append(detail);
            },
            Error::Protocol(_) => {
                text.append("protocol error: ");
                text.append(detail);
            },
            Error::Decompress => {
                text.append("could not decompress payload");
            },
            Error::PayloadTooLarge { len, limit } => {
                text.append("payload of ");
                push_decimal(&mut text, *len);
                text.append(" bytes exceeds the ");
                push_decimal(&mut text, *limit);
                text.append("-byte frame limit");
            },
            Error::Handshake => {
                text.append("handshake failed");
            },
            Error::Unacknowledged { count } => {
                push_decimal(&mut text, *count);
                text.append(" reliable message(s) were never acknowledged");
            },
            Error::ReliabilityUnsupported => {
                text.append("the peer does not implement the reliability layer");
            },
            Error::UnknownTicket => {
                text.append("unknown or already-used resumption ticket");
            },
            Error::UnknownPeer => {
                text.append("no such connected peer");
            },
            Error::MissingPeerKey => {
                text.append("public-key mode requires the peer's public key");
            },
            Error::Closed => {
                text.append("the connection is closed");
            },
        }
        proof {
            assert(text@ =~= self.says(detail@));
        }
        text
    }
}

/// The number that a text spells in decimal.
pub open spec fn read_decimal(text: Seq<char>) -> int
    decreases text.len(),
{
    if text.len() == 0 {
        0
    } else {
        10 * read_decimal(text.drop_last()) + (text.last() as int - '0' as int)
    }
}

/// A number written in decimal reads back as itself, in digits alone and with no
/// zero in front of it but where it is zero.
pub proof fn a_number_in_decimal_reads_back(n: nat)
    ensures
        read_decimal(in_decimal(n)) == n,
        in_decimal(n).len() >= 1,
        forall|k: int| 0 <= k < in_decimal(n).len() ==> '0' <= #[trigger] in_decimal(n)[k] <= '9',
        n > 0 ==> in_decimal(n)[0] != '0',
    decreases n,
{
    reveal_with_fuel(read_decimal, 3);
    if n < 10 {
        assert(in_decimal(n).drop_last() =~= Seq::<char>::empty());
    } else {
        a_number_in_decimal_reads_back(n / 10);
        assert(in_decimal(n).drop_last() =~= in_decimal(n / 10));
        assert(in_decimal(n)[0] == in_decimal(n / 10)[0]);
    }
}

/// An error that came from below ends in what was reported there, and one that did
/// not says nothing of it. A refusal for length says both the length and the limit.
pub proof fn an_error_says_what_it_is_about(error: Error, detail: Seq<char>, other: Seq<char>)
    ensures
        error is Io || error is Protocol ==> error.says(detail).len() >= detail.len()
            && error.says(detail).skip(error.says(detail).len() - detail.len()) == detail,
        !(error is Io) && !(error is Protocol) ==> error.says(detail) == error.says(other),
        error matches Error::PayloadTooLarge { len, limit } ==> error.says(detail) == "payload of "@
            + in_decimal(len as nat) + " bytes exceeds the "@ + in_decimal(limit as nat)
            + "-byte frame limit"@,
        error matches Error::Unacknowledged { count } ==> error.says(detail).take(
            in_decimal(count as nat).len() as int,
        ) == in_decimal(count as nat),
{
    if error is Io || error is Protocol {
        assert(error.says(detail).skip(error.says(detail).len() - detail.len()) =~= detail);
    }
    if let Error::Unacknowledged { count } = error {
        assert(error.says(detail).take(in_decimal(count as nat).len() as int) =~= in_decimal(
            count as nat,
        ));
    }
}

} // verus!
