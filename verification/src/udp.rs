//! How large a datagram may be, and whose datagrams count.

use vstd::prelude::*;

use crate::error::{Error, IoKind};
use crate::table::Address;

verus! {

/// Largest datagram sent by default.
pub const DEFAULT_MAX_DATAGRAM: usize = 1200;

/// The smallest ceiling that still carries a handshake.
pub const MIN_MAX_DATAGRAM: usize = 128;

/// The largest ceiling that a peer can be told of.
pub const LARGEST_DATAGRAM: usize = 65535;

/// The ceiling on datagrams.
///
/// It is a property of the network that a process sits on, not of a connection,
/// and it is told to peers during the handshake, so it is set before anything
/// connects.
#[derive(Debug, Clone, Copy, PartialEq, Eq, Structural)]
pub struct Ceiling {
    /// Largest datagram, in bytes.
    pub bytes: usize,
}

impl Ceiling {
    /// The ceiling carries a handshake, and peers can be told of it.
    pub open spec fn wf(self) -> bool {
        MIN_MAX_DATAGRAM <= self.bytes <= LARGEST_DATAGRAM
    }

    /// The ceiling in force until another is set.
    pub fn new() -> (ceiling: Self)
        ensures
            ceiling.wf(),
            ceiling.bytes == DEFAULT_MAX_DATAGRAM,
    {
        Ceiling { bytes: DEFAULT_MAX_DATAGRAM }
    }
}

/// A size brought into the range that a ceiling can have.
pub open spec fn clamped(size: usize) -> usize {
    if size < MIN_MAX_DATAGRAM {
        MIN_MAX_DATAGRAM
    } else if size > LARGEST_DATAGRAM {
        LARGEST_DATAGRAM
    } else {
        size
    }
}

/// The largest datagram to send, or to tell a peer can be received.
pub fn max_datagram(ceiling: &Ceiling) -> (bytes: usize)
    ensures
        bytes == ceiling.bytes,
{
    ceiling.bytes
}

/// Raises or lowers the ceiling, within the range that it can have.
pub fn set_max_datagram(ceiling: &mut Ceiling, size: usize)
    ensures
        final(ceiling).wf(),
        final(ceiling).bytes == clamped(size),
{
    ceiling.bytes = if size < MIN_MAX_DATAGRAM {
        MIN_MAX_DATAGRAM
    } else if size > LARGEST_DATAGRAM {
        LARGEST_DATAGRAM
    } else {
        size
    };
}

/// A socket carrying one peer's datagrams.
///
/// A connected socket is bound to its peer by the operating system; otherwise
/// the peer is named here, and datagrams from anyone else are discarded.
#[derive(Debug, Clone, Copy, PartialEq, Eq, Structural)]
pub struct UdpTransport {
    /// The peer, unless the socket is connected to it.
    pub peer: Option<Address>,
    /// Largest datagram to send.
    pub max_datagram: usize,
}

impl UdpTransport {
    /// A socket that is connected to its peer.
    pub fn new(ceiling: &Ceiling) -> (transport: Self)
        ensures
            transport == (UdpTransport { peer: None, max_datagram: ceiling.bytes }),
    {
        UdpTransport { peer: None, max_datagram: max_datagram(ceiling) }
    }

    /// A socket that exchanges datagrams with `peer`.
    pub fn with_peer(peer: Address, ceiling: &Ceiling) -> (transport: Self)
        ensures
            transport == (UdpTransport { peer: Some(peer), max_datagram: ceiling.bytes }),
    {
        UdpTransport { peer: Some(peer), max_datagram: max_datagram(ceiling) }
    }

    /// Overrides the largest datagram to send.
    pub fn set_max_datagram_size(&mut self, size: usize)
        ensures
            *final(self) == (UdpTransport { max_datagram: size, ..*old(self) }),
    {
        self.max_datagram = size;
    }

    /// The largest datagram to send.
    pub fn max_datagram_size(&self) -> (size: usize)
        ensures
            size == self.max_datagram,
    {
        self.max_datagram
    }

    /// Whether a datagram from an address is this peer's.
    pub fn accepts(&self, from: Address) -> (accepts: bool)
        ensures
            accepts == (self.peer is None || self.peer == Some(from)),
    {
        match self.peer {
            None => true,
            Some(peer) => peer == from,
        }
    }

    /// Whether a datagram of `len` bytes went out whole when the socket took `n`.
    pub fn sent(&self, n: usize, len: usize) -> (whole: Result<(), Error>)
        ensures
            whole == (if n == len {
                Ok::<(), Error>(())
            } else {
                Err(Error::Io(IoKind::Other))
            }),
    {
        if n != len {
            return Err(Error::Io(IoKind::Other));
        }
        Ok(())
    }
}

/// A ceiling is what it is set to, but for what no handshake fits and what no peer
/// can be told of.
pub proof fn a_ceiling_is_what_it_is_set_to(size: usize)
    ensures
        128 <= clamped(size) <= 65535,
        128 <= size <= 65535 ==> clamped(size) == size,
        size < 128 ==> clamped(size) == 128,
        size > 65535 ==> clamped(size) == 65535,
{
}

} // verus!
