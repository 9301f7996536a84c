//! The decisions of a fast encrypted datagram transport, with no socket, no
//! clock and no cipher in them.
//!
//! A caller owns those. It reads datagrams, opens and seals frames, and brings
//! what came of it here; what is here says what happens next: whether coding a
//! payload pays, how a message is cut and put back together, what is sent again
//! and what is given up on, whose frame a datagram is, whom to answer, whom to
//! follow to another address and whom to let go. Moments and spans of time are
//! in nanoseconds, on a clock that the caller reads.

pub mod abi;
pub mod arrival;
pub mod budget;
pub mod buffer;
pub mod clock;
pub mod codec;
pub mod coding;
pub mod compress;
pub mod connection;
pub mod dispatch;
pub mod drive;
pub mod duplex;
pub mod endpoint;
pub mod error;
pub mod feed;
pub mod footprint;
pub mod fragment;
pub mod identity;
pub mod ingest;
pub mod keys;
pub mod link;
pub mod peer;
pub mod poll;
pub mod random;
pub mod reassembly;
pub mod schedule;
pub mod table;
pub mod ticket;
pub mod udp;

pub use codec::{Capabilities, CODEC_HEADER_LEN as CODEC_OVERHEAD};
pub use compress::PayloadType;
pub use connection::Connection;
pub use endpoint::{
    Endpoint, Event, MAX_HANDSHAKES_PER_SECOND, MAX_MIGRATIONS_PER_SECOND, MAX_PEERS,
};
pub use error::Error;
pub use fragment::{MAX_FRAGMENTS, MAX_MESSAGE_LEN};
pub use identity::Identity;
pub use link::PublicKey as PeerKey;
pub use peer::{INITIAL_CWND, MAX_QUEUED, MAX_RETRIES, MAX_UNACKED, MIN_CWND};
pub use schedule::HANDSHAKE_TIMEOUT;
pub use table::PeerId;
pub use ticket::{Ticket, MAX_TICKETS, TICKET_LIFETIME};
pub use udp::{
    max_datagram, set_max_datagram, UdpTransport, DEFAULT_MAX_DATAGRAM, MIN_MAX_DATAGRAM,
};
