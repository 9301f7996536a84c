//! A node that talks to many peers over one socket, in either direction.
//!
//! Everything a node decides is here; the socket, the clock and the ciphers are
//! its caller's. Moments and spans are in nanoseconds.

use std::collections::{BTreeMap, VecDeque};

use vstd::prelude::*;

use crate::buffer::{copy_of, same};
use crate::budget::{full, Budget};
use crate::clock::after;
use crate::error::{Error, IoKind, ProtocolError};
use crate::link::{Link, PublicKey};
use crate::peer::Peer;
use crate::random::random_session_id;
use crate::schedule::{estimate_of, retry_step, step_for, Outbound, Paths};
use crate::table::{
    filing_disturbs_nobody_else, the_silent_are_evicted_first,
    victim, where_all_have_spoken_the_oldest_goes, whom_room_is_made_at_the_expense_of, Address, PeerEntry,
    PeerId, Reply, Table,
};
use crate::ticket::{
    a_held_ticket_is_redeemed_within_its_lifetime, a_ticket_expires,
    issuing_a_ticket_keeps_the_others, place_of, redeems, with_issued, with_taken, IssuedState,
    Ticket, TicketStore,
};

verus! {

broadcast use vstd::laws_cmp::group_laws_cmp;

/// The most sessions one endpoint will hold at once, unless told otherwise.
pub const MAX_PEERS: usize = 1024;

/// How many times one session's handshake response may be sent again.
pub const HANDSHAKE_REPLIES: u8 = 8;

/// New handshakes answered per second before the rest are dropped unanswered,
/// unless told otherwise.
pub const MAX_HANDSHAKES_PER_SECOND: u32 = 512;

/// Attempts per second to match a frame from an unknown address with a session,
/// unless told otherwise.
pub const MAX_MIGRATIONS_PER_SECOND: u32 = 256;

/// The shortest keep-alive interval that will be honoured.
pub const MIN_KEEPALIVE: u64 = 100_000_000;

/// The shortest peer timeout that will be honoured.
pub const MIN_PEER_TIMEOUT: u64 = 1_000_000_000;

/// Sessions tried against one frame from an unknown address.
pub const MAX_CANDIDATES: usize = 4;

/// Challenges sent to one unproved address before the attempt is abandoned.
pub const PATH_PROBES: u8 = 3;

/// How long an unanswered probe is kept before the address is forgotten.
pub const PROBE_TIMEOUT: u64 = 3_000_000_000;

/// Shortest gap between challenges to the same unproved address.
pub const PROBE_INTERVAL: u64 = 250_000_000;

/// Something that happened.
pub enum Event {
    /// A handshake completed, in either direction.
    Connected {
        /// Handle for addressing this peer.
        peer: PeerId,
        /// What the peer's handshake message carried.
        zero_rtt: Vec<u8>,
        /// Whether the handshake resumed rather than running in full.
        resumed: bool,
        /// Whether this endpoint started the connection.
        initiated: bool,
    },
    /// Application data came from a peer.
    Message {
        /// Which peer sent it.
        peer: PeerId,
        /// The payload.
        data: Vec<u8>,
    },
    /// A connection this endpoint started was never answered, or not by anyone
    /// who could. The handle is dead.
    ConnectFailed {
        /// The handle.
        peer: PeerId,
    },
    /// A message that had to be split finished, or one that did not was given
    /// up on.
    Sent {
        /// Which peer it was going to.
        peer: PeerId,
        /// Whether the peer acknowledged all of it.
        delivered: bool,
    },
    /// A peer proved that it had moved, and the session followed it.
    PeerMoved {
        /// The peer, whose handle is unchanged.
        peer: PeerId,
        /// Where it used to be.
        from: Address,
        /// Where it is now.
        to: Address,
    },
    /// A session was released. The handle is dead.
    PeerLost {
        /// The handle.
        peer: PeerId,
    },
    /// Nothing came before the timeout elapsed.
    Idle,
}

/// How an endpoint authenticates the peers that connect to it.
///
/// An endpoint speaks exactly one of these. It is not negotiated: a peer using
/// the other sends frames that this endpoint does not accept.
pub enum Mode {
    /// Peers must know this public key.
    PublicKey(PublicKey),
    /// Peers must hold the same secret.
    Psk(Ticket),
}

/// What is sent to open a connection.
pub enum Opening {
    /// A full handshake with this peer.
    Full {
        /// The identifier that the session's frames will carry.
        session_id: u32,
        /// Whom it is with.
        peer: PublicKey,
    },
    /// A handshake authenticated by this endpoint's own secret.
    Psk {
        /// The identifier that the session's frames will carry.
        session_id: u32,
    },
}

/// What a completed handshake leaves to be filed.
pub struct Established {
    /// What is known about the session.
    pub link: Link,
    /// The ticket for the next one.
    pub ticket: Ticket,
    /// What the peer's handshake message carried.
    pub zero_rtt: Vec<u8>,
    /// Whether the handshake resumed rather than running in full.
    pub resumed: bool,
}

/// What authenticates a resumption.
pub enum Redeemed {
    /// The endpoint's own secret, which is not spent.
    Configured,
    /// A ticket, now spent, and whom it was issued to.
    Spent(Ticket, PublicKey),
}

/// Serves many peers.
pub struct Endpoint {
    /// How peers are authenticated.
    pub mode: Mode,
    /// Tickets that will be honoured.
    pub tickets: TicketStore,
    /// Sessions on file.
    pub table: Table,
    /// Handshakes started here and still awaiting a reply.
    pub outbound: BTreeMap<u64, Outbound>,
    /// What has happened and has not been reported, oldest first.
    pub events: VecDeque<Event>,
    /// What may be spent on answering new handshakes.
    pub handshakes: Budget,
    /// What may be spent on frames from unknown addresses.
    pub migrations: Budget,
    /// The most sessions to hold.
    pub max_peers: usize,
    /// Sent in the payload of every handshake response.
    pub handshake_reply: Vec<u8>,
    /// How long a peer may go without being sent anything, if that matters.
    pub keepalive: Option<u64>,
    /// How long a peer may go unheard from, if that matters.
    pub peer_timeout: Option<u64>,
    /// The next handle.
    pub next_id: u64,
    /// What has been measured of the paths dialled.
    pub paths: Paths,
}

/// What holds of every session on file: no address has been challenged more
/// often than it may be, and no response is kept that may not be sent.
pub open spec fn restrained(entry: PeerEntry) -> bool {
    &&& entry.probe matches Some(probe) ==> probe.sent <= PATH_PROBES
    &&& entry.handshake_reply matches Some(reply) ==> 1 <= reply.left <= HANDSHAKE_REPLIES
}

/// A session just filed, of which nothing is known but its handshake.
pub open spec fn just_filed(
    entry: PeerEntry,
    link: Link,
    addr: Address,
    ceiling: usize,
    now: u64,
) -> bool {
    &&& entry.peer.wf()
    &&& entry.peer.is_new(link, ceiling as nat)
    &&& entry.addr == addr
    &&& entry.session_id == link.session_id
    &&& entry.datagram_limit == if link.capabilities.max_frame_size < ceiling {
        link.capabilities.max_frame_size as int
    } else {
        ceiling as int
    }
    &&& entry.filed == now
    &&& entry.handshake_reply is None
    &&& entry.last_heard == now
    &&& entry.last_sent == now
    &&& entry.probe is None
    &&& !entry.spoke
}

/// The larger of an interval and the shortest that will be honoured.
pub open spec fn at_least(interval: Option<u64>, shortest: u64) -> Option<u64> {
    match interval {
        Some(t) => Some(
            if t < shortest {
                shortest
            } else {
                t
            },
        ),
        None => None,
    }
}

/// The larger of an interval and the shortest that will be honoured.
pub fn honoured(interval: Option<u64>, shortest: u64) -> (clamped: Option<u64>)
    ensures
        clamped == at_least(interval, shortest),
{
    match interval {
        Some(t) => if t < shortest {
            Some(shortest)
        } else {
            Some(t)
        },
        None => None,
    }
}

impl Endpoint {
    /// What every operation keeps.
    pub open spec fn wf(&self) -> bool {
        &&& self.table.wf()
        &&& self.tickets.wf()
        &&& self.handshakes.wf()
        &&& self.migrations.wf()
        &&& self.paths.wf()
        &&& self.max_peers >= 1
        &&& self.handshakes.rate >= 1
        &&& self.keepalive matches Some(every) ==> every >= MIN_KEEPALIVE
        &&& self.peer_timeout matches Some(limit) ==> limit >= MIN_PEER_TIMEOUT
        &&& forall|id: u64| #[trigger]
            self.table.peers@.contains_key(id) ==> id < self.next_id && restrained(
                self.table.peers@[id],
            )
        &&& forall|id: u64| #[trigger]
            self.outbound@.contains_key(id) ==> id < self.next_id
                && !self.table.peers@.contains_key(id)
    }

    /// Whether a handle is free to be given to a session.
    pub open spec fn is_free(&self, id: u64) -> bool {
        &&& id < self.next_id
        &&& !self.table.peers@.contains_key(id)
        &&& !self.outbound@.contains_key(id)
    }

    /// An endpoint with nobody on file.
    pub fn new(mode: Mode, now: u64) -> (endpoint: Self)
        ensures
            endpoint.wf(),
            endpoint.mode == mode,
            endpoint.tickets@.len() == 0,
            endpoint.table@.peers == Map::<u64, PeerEntry>::empty(),
            endpoint.table@.index == Map::<u32, Seq<u64>>::empty(),
            endpoint.outbound@ == Map::<u64, Outbound>::empty(),
            endpoint.events@.len() == 0,
            endpoint.handshakes == (Budget {
                tokens: full(MAX_HANDSHAKES_PER_SECOND) as u64,
                refilled: now,
                rate: MAX_HANDSHAKES_PER_SECOND,
            }),
            endpoint.migrations == (Budget {
                tokens: full(MAX_MIGRATIONS_PER_SECOND) as u64,
                refilled: now,
                rate: MAX_MIGRATIONS_PER_SECOND,
            }),
            endpoint.max_peers == MAX_PEERS,
            endpoint.handshake_reply@.len() == 0,
            endpoint.keepalive is None,
            endpoint.peer_timeout is None,
            endpoint.next_id == 0,
            endpoint.paths.known@.len() == 0,
    {
        Endpoint {
            mode,
            tickets: TicketStore::new(),
            table: Table::new(),
            outbound: BTreeMap::new(),
            events: VecDeque::new(),
            handshakes: Budget::new(MAX_HANDSHAKES_PER_SECOND, now),
            migrations: Budget::new(MAX_MIGRATIONS_PER_SECOND, now),
            max_peers: MAX_PEERS,
            handshake_reply: Vec::new(),
            keepalive: None,
            peer_timeout: None,
            next_id: 0,
            paths: Paths::new(),
        }
    }

    /// The public key that peers must know in order to connect, where the
    /// endpoint presents an identity at all.
    pub fn public_key(&self) -> (key: Option<PublicKey>)
        ensures
            key == (match self.mode {
                Mode::PublicKey(key) => Some(key),
                Mode::Psk(_) => None,
            }),
    {
        match &self.mode {
            Mode::PublicKey(key) => Some(*key),
            Mode::Psk(_) => None,
        }
    }

    /// How many resumption tickets are outstanding.
    pub fn outstanding_tickets(&self) -> (count: usize)
        ensures
            count == self.tickets@.len(),
    {
        self.tickets.len()
    }

    /// How many peers are connected.
    pub fn peer_count(&self) -> (count: usize)
        ensures
            count == self.table.peers@.len(),
    {
        self.table.len()
    }

    /// Handles for every connected peer, in a stable order.
    pub fn peers(&self) -> (peers: Vec<PeerId>)
        ensures
            peers@.len() == self.table.peers@.len(),
            forall|i: int, j: int| 0 <= i < j < peers@.len() ==> peers@[i].0 < peers@[j].0,
            forall|id: u64| #[trigger]
                self.table.peers@.contains_key(id) == peers@.contains(PeerId(id)),
    {
        let ids = self.table.ids();
        let mut peers: Vec<PeerId> = Vec::new();
        let mut k: usize = 0;
        while k < ids.len()
            invariant
                k <= ids@.len(),
                peers@.len() == k,
                forall|i: int| 0 <= i < k ==> #[trigger] peers@[i] == PeerId(ids@[i]),
            decreases ids@.len() - k,
        {
            peers.push(PeerId(ids[k]));
            k += 1;
        }
        proof {
            assert forall|id: u64| #[trigger]
                self.table.peers@.contains_key(id) == peers@.contains(PeerId(id)) by {
                assert(ids@.contains(id) == self.table.peers@.contains_key(id));
                if ids@.contains(id) {
                    let i = choose|i: int| 0 <= i < ids@.len() && ids@[i] == id;
                    assert(peers@[i] == PeerId(id));
                }
                if peers@.contains(PeerId(id)) {
                    let i = choose|i: int| 0 <= i < peers@.len() && peers@[i] == PeerId(id);
                    assert(ids@[i] == id);
                }
            }
        }
        peers
    }

    /// A peer's authenticated static public key.
    pub fn peer_public_key(&self, peer: PeerId) -> (key: Option<PublicKey>)
        ensures
            key is Some == self.table.peers@.contains_key(peer.0),
            key matches Some(k) ==> k == self.table.peers@[peer.0].peer.link.remote(),
    {
        match self.table.get(peer.0) {
            Some(entry) => Some(entry.peer.link.remote_static()),
            None => None,
        }
    }

    /// A peer's address.
    pub fn peer_addr(&self, peer: PeerId) -> (addr: Option<Address>)
        ensures
            addr == (if self.table.peers@.contains_key(peer.0) {
                Some(self.table.peers@[peer.0].addr)
            } else {
                None
            }),
    {
        match self.table.get(peer.0) {
            Some(entry) => Some(entry.addr),
            None => None,
        }
    }

    /// Handshakes that this endpoint started and that still await a reply.
    pub fn connecting(&self) -> (count: usize)
        ensures
            count == self.outbound@.len(),
    {
        self.outbound.len()
    }

    /// A peer's protocol state, to be worked on.
    pub fn peer_mut(&mut self, peer: PeerId) -> (slot: Option<&mut Peer>)
        requires
            old(self).wf(),
        ensures
            match slot {
                Some(state) => {
                    let before = old(self).table.peers@[peer.0];
                    &&& old(self).table.peers@.contains_key(peer.0)
                    &&& *state == before.peer
                    &&& final(self).table@ == old(self).table@.changed(
                        peer.0,
                        (PeerEntry { peer: *final(state), ..before }),
                    )
                    &&& *final(self) == (Endpoint { table: final(self).table, ..*old(self) })
                    &&& final(state).wf() ==> final(self).wf()
                },
                None => {
                    &&& !old(self).table.peers@.contains_key(peer.0)
                    &&& final(self).table@ == old(self).table@
                    &&& *final(self) == (Endpoint { table: final(self).table, ..*old(self) })
                    &&& final(self).wf()
                },
            },
    {
        match self.table.entry(peer.0) {
            Some(entry) => Some(&mut entry.peer),
            None => None,
        }
    }

    /// Releases a peer that nothing has been heard from for `within`, once that
    /// long has passed; `None` releases nobody.
    ///
    /// Anything shorter than the shortest that means something is raised to it.
    pub fn set_peer_timeout(&mut self, within: Option<u64>)
        requires
            old(self).wf(),
        ensures
            final(self).wf(),
            *final(self) == (Endpoint {
                peer_timeout: at_least(within, MIN_PEER_TIMEOUT),
                ..*old(self)
            }),
    {
        self.peer_timeout = honoured(within, MIN_PEER_TIMEOUT);
    }

    /// Sends something small to any peer that nothing has been sent to for
    /// `every`; `None` sends nothing.
    ///
    /// Anything shorter than the shortest that means something is raised to it.
    pub fn set_keepalive(&mut self, every: Option<u64>)
        requires
            old(self).wf(),
        ensures
            final(self).wf(),
            *final(self) == (Endpoint { keepalive: at_least(every, MIN_KEEPALIVE), ..*old(self) }),
    {
        self.keepalive = honoured(every, MIN_KEEPALIVE);
    }

    /// Sets how many sessions this endpoint will hold. Zero is taken as one.
    ///
    /// Sessions already held are not dropped by lowering it.
    pub fn set_max_peers(&mut self, limit: usize)
        requires
            old(self).wf(),
        ensures
            final(self).wf(),
            *final(self) == (Endpoint {
                max_peers: if limit == 0 {
                    1
                } else {
                    limit
                },
                ..*old(self)
            }),
    {
        self.max_peers = if limit == 0 {
            1
        } else {
            limit
        };
    }

    /// Sets how many attempts a second to match a frame from an unknown address
    /// with a session. At zero no session ever follows a peer that moves.
    pub fn set_max_migrations_per_second(&mut self, rate: u32)
        requires
            old(self).wf(),
        ensures
            final(self).wf(),
            *final(self) == (Endpoint {
                migrations: old(self).migrations.at_rate(rate),
                ..*old(self)
            }),
    {
        self.migrations.set_rate(rate);
    }

    /// Sets how many new handshakes a second this endpoint will answer. Zero is
    /// taken as one: an endpoint that answers none can never acquire a peer.
    pub fn set_max_handshakes_per_second(&mut self, per_second: u32)
        requires
            old(self).wf(),
        ensures
            final(self).wf(),
            *final(self) == (Endpoint {
                handshakes: old(self).handshakes.at_rate(
                    if per_second == 0 {
                        1
                    } else {
                        per_second
                    },
                ),
                ..*old(self)
            }),
    {
        let rate: u32 = if per_second == 0 {
            1
        } else {
            per_second
        };
        self.handshakes.set_rate(rate);
    }

    /// Sets how long a ticket that this endpoint issued stays redeemable.
    pub fn set_ticket_lifetime(&mut self, lifetime: u64)
        requires
            old(self).wf(),
        ensures
            final(self).wf(),
            *final(self) == (Endpoint { tickets: final(self).tickets, ..*old(self) }),
            final(self).tickets@ == old(self).tickets@,
            final(self).tickets.lifetime() == lifetime,
    {
        self.tickets.set_lifetime(lifetime);
    }

    /// Sets a payload to carry in the response to every handshake.
    ///
    /// `overhead` is what the larger of the handshake responses takes besides
    /// its payload, and `ceiling` the largest datagram. A payload that would
    /// not fit is refused, and what was set before stays.
    pub fn set_handshake_reply(&mut self, payload: &[u8], overhead: usize, ceiling: usize) -> (set:
        Result<(), Error>)
        requires
            old(self).wf(),
        ensures
            final(self).wf(),
            *final(self) == (Endpoint {
                handshake_reply: final(self).handshake_reply,
                ..*old(self)
            }),
            if payload@.len() + overhead > ceiling {
                &&& set == Err::<(), Error>(Error::Protocol(ProtocolError::PayloadTooLarge))
                &&& final(self).handshake_reply@ == old(self).handshake_reply@
            } else {
                &&& set == Ok::<(), Error>(())
                &&& final(self).handshake_reply@ == payload@
            },
    {
        if overhead > ceiling || payload.len() > ceiling - overhead {
            return Err(Error::Protocol(ProtocolError::PayloadTooLarge));
        }
        self.handshake_reply = copy_of(payload);
        Ok(())
    }

    /// Decides how a connection is opened.
    ///
    /// In public-key mode the peer's key is needed; otherwise it is ignored.
    pub fn open(&self, peer_public: Option<PublicKey>, session_id: u32) -> (opening: Result<
        Opening,
        Error,
    >)
        ensures
            opening == (match (self.mode, peer_public) {
                (Mode::PublicKey(_), Some(peer)) => Ok::<Opening, Error>(
                    Opening::Full { session_id, peer },
                ),
                (Mode::PublicKey(_), None) => Err(Error::MissingPeerKey),
                (Mode::Psk(_), _) => Ok(Opening::Psk { session_id }),
            }),
    {
        match (&self.mode, peer_public) {
            (Mode::PublicKey(_), Some(peer)) => Ok(Opening::Full { session_id, peer }),
            (Mode::PublicKey(_), None) => Err(Error::MissingPeerKey),
            (Mode::Psk(_), _) => Ok(Opening::Psk { session_id }),
        }
    }

    /// [`open`](Self::open) with an identifier that nobody can guess.
    ///
    /// Which identifier is chance. The operating system may fail to give one.
    pub fn connect(&self, peer_public: Option<PublicKey>) -> (opening: Result<Opening, Error>)
        ensures
            match opening {
                Ok(Opening::Full { peer, .. }) => self.mode is PublicKey && peer_public == Some(
                    peer,
                ),
                Ok(Opening::Psk { .. }) => self.mode is Psk,
                Err(e) => e == Error::Io(IoKind::Other) || (e == Error::MissingPeerKey
                    && self.mode is PublicKey && peer_public is None),
            },
    {
        match random_session_id() {
            Ok(session_id) => self.open(peer_public, session_id),
            Err(e) => Err(e),
        }
    }

    /// Records that an opening frame went out, and hands out the handle that
    /// the connection will have.
    pub fn connect_and_send(&mut self, addr: Address, session_id: u32, frame: Vec<u8>, now: u64) -> (
    peer: PeerId)
        requires
            old(self).wf(),
            old(self).next_id < u64::MAX,
        ensures
            final(self).wf(),
            peer == PeerId(old(self).next_id),
            ({
                let step = step_for(estimate_of(old(self).paths.known@, addr));
                let started = Outbound {
                    addr,
                    session_id,
                    frame,
                    started: now,
                    next_attempt: after(now, step),
                    attempts: 1,
                    step,
                };
                &&& *final(self) == (Endpoint {
                    outbound: final(self).outbound,
                    next_id: (old(self).next_id + 1) as u64,
                    ..*old(self)
                })
                &&& final(self).outbound@ == old(self).outbound@.insert(peer.0, started)
            }),
    {
        let step: u64 = retry_step(self.paths.estimate(addr));
        let id: u64 = self.next_id;
        self.next_id = self.next_id + 1;
        let _ = self.outbound.insert(id, Outbound::start(addr, session_id, frame, step, now));
        PeerId(id)
    }

    /// Forgets a peer, or a handshake still under way. Returns whether the
    /// handle named either.
    pub fn disconnect(&mut self, peer: PeerId) -> (known: bool)
        requires
            old(self).wf(),
        ensures
            final(self).wf(),
            known == (old(self).outbound@.contains_key(peer.0)
                || old(self).table.peers@.contains_key(peer.0)),
            *final(self) == (Endpoint {
                outbound: final(self).outbound,
                table: final(self).table,
                ..*old(self)
            }),
            final(self).outbound@ == old(self).outbound@.remove(peer.0),
            final(self).table@ == old(self).table@.removed(peer.0),
    {
        let ghost before = self.outbound@;
        match self.outbound.remove(&peer.0) {
            Some(_) => {
                proof {
                    assert(self.table@.peers =~= self.table@.removed(peer.0).peers);
                }
                true
            },
            None => {
                proof {
                    assert(self.outbound@ =~= before.remove(peer.0));
                }
                let removed = self.table.remove(peer.0);
                removed.is_some()
            },
        }
    }

    /// Puts a session on file under a handle that is free.
    fn file(&mut self, id: u64, link: Link, addr: Address, ceiling: usize, now: u64)
        requires
            old(self).wf(),
            old(self).is_free(id),
        ensures
            final(self).wf(),
            *final(self) == (Endpoint { table: final(self).table, ..*old(self) }),
            final(self).table@.peers.contains_key(id),
            just_filed(final(self).table@.peers[id], link, addr, ceiling, now),
            final(self).table@ == old(self).table@.with_room(old(self).max_peers).cleared(
                addr,
                link.session_id,
            ).inserted(id, final(self).table@.peers[id]),
            final(self).table.peers@.len() <= old(self).max_peers || final(self).table.peers@.len()
                <= old(self).table.peers@.len(),
    {
        let frame_limit: usize = link.peer_capabilities().max_frame_size as usize;
        let datagram_limit: usize = if frame_limit < ceiling {
            frame_limit
        } else {
            ceiling
        };
        let entry = PeerEntry {
            peer: Peer::new(link, ceiling),
            addr,
            session_id: link.session_id(),
            datagram_limit,
            filed: now,
            handshake_reply: None,
            last_heard: now,
            last_sent: now,
            probe: None,
            spoke: false,
        };
        let ghost before = self.table@;
        self.table.file(id, entry, self.max_peers);
        proof {
            assert forall|other: u64| #[trigger]
                self.table.peers@.contains_key(other) implies other < self.next_id && restrained(
                self.table.peers@[other],
            ) by {
                if other != id {
                    assert(before.peers.contains_key(other));
                    assert(self.table.peers@[other] == before.peers[other]);
                }
            }
            assert forall|other: u64| #[trigger]
                self.outbound@.contains_key(other) implies !self.table.peers@.contains_key(other) by {
                assert(!before.peers.contains_key(other));
            }
        }
    }

    /// Whether `after` is this endpoint with a session filed under a handle, with
    /// the response kept that its peer may ask for again, if there is one, and
    /// with the ticket for the next session issued.
    pub open spec fn registers(
        &self,
        after: &Endpoint,
        id: u64,
        established: Established,
        addr: Address,
        reply: Option<Reply>,
        ceiling: usize,
        now: u64,
    ) -> bool {
        let link = established.link;
        let entry = after.table@.peers[id];
        &&& after.tickets@ == with_issued(
            self.tickets@,
            IssuedState {
                id: established.ticket.id@,
                key: established.ticket.key,
                peer: link.remote(),
                at: now,
            },
        )
        &&& after.tickets.lifetime() == self.tickets.lifetime()
        &&& after.table@.peers.contains_key(id)
        &&& just_filed(PeerEntry { handshake_reply: None, ..entry }, link, addr, ceiling, now)
        &&& entry.handshake_reply == reply
        &&& after.table@ == self.table@.with_room(self.max_peers).cleared(
            addr,
            link.session_id,
        ).inserted(id, entry)
        &&& after.table.peers@.len() <= self.max_peers || after.table.peers@.len()
            <= self.table.peers@.len()
    }

    /// Files a session under a handle that is free, as an outbound handshake's
    /// is, and issues the ticket for the next one.
    pub fn register_as(
        &mut self,
        peer: PeerId,
        established: Established,
        addr: Address,
        initiated: bool,
        ceiling: usize,
        now: u64,
    ) -> (event: Event)
        requires
            old(self).wf(),
            old(self).is_free(peer.0),
        ensures
            final(self).wf(),
            *final(self) == (Endpoint {
                tickets: final(self).tickets,
                table: final(self).table,
                ..*old(self)
            }),
            old(self).registers(final(self), peer.0, established, addr, None, ceiling, now),
            event == (Event::Connected {
                peer,
                zero_rtt: established.zero_rtt,
                resumed: established.resumed,
                initiated,
            }),
    {
        let link = established.link;
        self.tickets.insert(established.ticket, link.remote_static(), now);
        self.file(peer.0, link, addr, ceiling, now);
        Event::Connected {
            peer,
            zero_rtt: established.zero_rtt,
            resumed: established.resumed,
            initiated,
        }
    }

    /// Files a session that was just accepted, under a new handle, and issues
    /// the ticket for the next one. The response that was sent is kept for the
    /// peer to ask for again.
    pub fn register(
        &mut self,
        established: Established,
        addr: Address,
        reply: Vec<u8>,
        ceiling: usize,
        now: u64,
    ) -> (event: Event)
        requires
            old(self).wf(),
            old(self).next_id < u64::MAX,
        ensures
            final(self).wf(),
            *final(self) == (Endpoint {
                tickets: final(self).tickets,
                table: final(self).table,
                next_id: (old(self).next_id + 1) as u64,
                ..*old(self)
            }),
            event == (Event::Connected {
                peer: PeerId(old(self).next_id),
                zero_rtt: established.zero_rtt,
                resumed: established.resumed,
                initiated: false,
            }),
            old(self).registers(
                final(self),
                old(self).next_id,
                established,
                addr,
                Some(Reply { bytes: reply, left: HANDSHAKE_REPLIES }),
                ceiling,
                now,
            ),
    {
        let id: u64 = self.next_id;
        self.next_id = self.next_id + 1;
        let event = self.register_as(PeerId(id), established, addr, false, ceiling, now);
        let ghost middle = self.table@;
        self.remember_reply(PeerId(id), reply);
        proof {
            let roomy = old(self).table@.with_room(old(self).max_peers).cleared(
                addr,
                established.link.session_id,
            );
            let entry = self.table@.peers[id];
            assert(self.table@.peers =~= roomy.peers.insert(id, entry));
            assert(self.table@.peers.dom() =~= middle.peers.dom());
            let filed = middle.peers[id];
            assert(PeerEntry { handshake_reply: None, ..entry } == PeerEntry {
                handshake_reply: None,
                ..filed
            });
        }
        event
    }

    /// Keeps the response just sent with the session that it established.
    fn remember_reply(&mut self, peer: PeerId, reply: Vec<u8>)
        requires
            old(self).wf(),
        ensures
            final(self).wf(),
            *final(self) == (Endpoint { table: final(self).table, ..*old(self) }),
            final(self).table@ == (if old(self).table@.peers.contains_key(peer.0) {
                old(self).table@.changed(
                    peer.0,
                    (PeerEntry {
                        handshake_reply: Some(Reply { bytes: reply, left: HANDSHAKE_REPLIES }),
                        ..old(self).table@.peers[peer.0]
                    }),
                )
            } else {
                old(self).table@
            }),
    {
        if let Some(entry) = self.table.entry(peer.0) {
            entry.handshake_reply = Some(Reply { bytes: reply, left: HANDSHAKE_REPLIES });
        }
    }

    /// What authenticates a resumption that names a ticket, and what finding that
    /// leaves of the tickets.
    pub open spec fn redeemed_by(
        &self,
        after: &Endpoint,
        id: Seq<u8>,
        now: u64,
        redeemed: Result<Redeemed, Error>,
    ) -> bool {
        &&& *after == (Endpoint { tickets: after.tickets, ..*self })
        &&& after.tickets.lifetime() == self.tickets.lifetime()
        &&& if self.mode matches Mode::Psk(psk) && psk.id@ == id {
            &&& redeemed == Ok::<Redeemed, Error>(Redeemed::Configured)
            &&& after.tickets@ == self.tickets@
        } else {
            &&& after.tickets@ == with_taken(self.tickets@, id)
            &&& if redeems(self.tickets@, id, self.tickets.lifetime(), now) {
                let issued = self.tickets@[place_of(self.tickets@, id)];
                &&& redeemed is Ok
                &&& redeemed->Ok_0 is Spent
                &&& redeemed->Ok_0->Spent_0.id@ == id
                &&& redeemed->Ok_0->Spent_0.key == issued.key
                &&& redeemed->Ok_0->Spent_1 == issued.peer
            } else {
                redeemed == Err::<Redeemed, Error>(Error::UnknownTicket)
            }
        }
    }

    /// Finds what authenticates a resumption that names a ticket.
    ///
    /// A configured secret is long-lived and reusable; an earned ticket is spent
    /// when redeemed, so that a captured resumption cannot be replayed.
    pub fn redeem(&mut self, id: &[u8], now: u64) -> (redeemed: Result<Redeemed, Error>)
        requires
            old(self).wf(),
        ensures
            final(self).wf(),
            *final(self) == (Endpoint { tickets: final(self).tickets, ..*old(self) }),
            final(self).tickets.lifetime() == old(self).tickets.lifetime(),
            if old(self).mode matches Mode::Psk(psk) && psk.id@ == id@ {
                &&& redeemed == Ok::<Redeemed, Error>(Redeemed::Configured)
                &&& final(self).tickets@ == old(self).tickets@
            } else {
                &&& final(self).tickets@ == with_taken(old(self).tickets@, id@)
                &&& if redeems(old(self).tickets@, id@, old(self).tickets.lifetime(), now) {
                    let issued = old(self).tickets@[place_of(old(self).tickets@, id@)];
                    &&& redeemed is Ok
                    &&& redeemed->Ok_0 is Spent
                    &&& redeemed->Ok_0->Spent_0.id@ == id@
                    &&& redeemed->Ok_0->Spent_0.key == issued.key
                    &&& redeemed->Ok_0->Spent_1 == issued.peer
                } else {
                    redeemed == Err::<Redeemed, Error>(Error::UnknownTicket)
                }
            },
            old(self).redeemed_by(final(self), id@, now, redeemed),
    {
        if let Mode::Psk(psk) = &self.mode {
            if same(psk.id.as_slice(), id) {
                return Ok(Redeemed::Configured);
            }
        }
        match self.tickets.take(id, now) {
            Some((ticket, peer)) => Ok(Redeemed::Spent(ticket, peer)),
            None => Err(Error::UnknownTicket),
        }
    }
}

/// What is on file of a session that was just established: where its peer is, the
/// identifier it wears, how large a datagram both sides can take, and that nothing
/// has been said on it, nothing is in flight and nobody has been asked anything.
pub proof fn a_session_starts_from_its_handshake(
    before: Endpoint,
    after: Endpoint,
    id: u64,
    established: Established,
    addr: Address,
    reply: Option<Reply>,
    ceiling: usize,
    now: u64,
)
    requires
        before.registers(&after, id, established, addr, reply, ceiling, now),
    ensures
        ({
            let entry = after.table.peers@[id];
            let link = established.link;
            &&& after.table.peers@.contains_key(id)
            &&& entry.addr == addr
            &&& entry.session_id == link.session_id
            &&& entry.peer.link == link
            &&& entry.datagram_limit <= ceiling
            &&& entry.datagram_limit <= link.capabilities.max_frame_size
            &&& entry.datagram_limit == ceiling || entry.datagram_limit
                == link.capabilities.max_frame_size
            &&& entry.filed == now && entry.last_heard == now && entry.last_sent == now
            &&& !entry.spoke
            &&& entry.probe is None
            &&& entry.handshake_reply == reply
            &&& entry.peer.pending@.len() == 0 && entry.peer.queue@.len() == 0
                && entry.peer.abandoned@.len() == 0 && entry.peer.reassembly@.len() == 0
            &&& entry.peer.given_up == 0 && entry.peer.unreported == 0 && entry.peer.next_message
                == 0
            &&& entry.peer.coding.skips == 0 && entry.peer.coding.misses == 0
            &&& entry.peer.primary@.len() == ceiling && entry.peer.secondary@.len() == ceiling
        }),
{
}

/// The ticket that goes with a session lets its peer resume: asked for by its
/// identifier it gives back the session's own secret and the peer's own key, until
/// its lifetime has passed.
pub proof fn a_session_leaves_a_ticket_that_resumes_it(
    before: Endpoint,
    after: Endpoint,
    id: u64,
    established: Established,
    addr: Address,
    reply: Option<Reply>,
    ceiling: usize,
    now: u64,
    later: u64,
)
    requires
        before.wf(),
        before.registers(&after, id, established, addr, reply, ceiling, now),
        later >= now,
    ensures
        ({
            let asked = established.ticket.id@;
            let issued = after.tickets@[place_of(after.tickets@, asked)];
            &&& redeems(after.tickets@, asked, after.tickets.lifetime(), later) <==> later - now
                < before.tickets.lifetime()
            &&& issued.id == asked
            &&& issued.key == established.ticket.key
            &&& issued.at == now
            &&& established.link.encrypted ==> issued.peer == established.link.authenticated
        }),
{
    let new = IssuedState {
        id: established.ticket.id@,
        key: established.ticket.key,
        peer: established.link.remote(),
        at: now,
    };
    a_ticket_expires(before.tickets@, new, before.tickets.lifetime(), later);
    let held = after.tickets@;
    if before.tickets@.len() > 0 {
        issuing_a_ticket_keeps_the_others(before.tickets@, new, 0);
    } else {
        assert(held =~= seq![new]);
        assert(held[0] == new);
    }
    let k = choose|k: int| 0 <= k < held.len() && held[k] == new;
    a_held_ticket_is_redeemed_within_its_lifetime(held, k, new.id, 1, later);
}

/// Filing a session lets go of nobody who has spoken as long as somebody on file has
/// not, nor of anybody at all as long as there is room, but for whoever stood on the
/// same address with the same identifier. Whoever stays, stays as they were.
pub proof fn a_new_session_costs_the_silent_before_the_heard(
    before: Endpoint,
    after: Endpoint,
    id: u64,
    established: Established,
    addr: Address,
    reply: Option<Reply>,
    ceiling: usize,
    now: u64,
    other: u64,
)
    requires
        before.wf(),
        before.is_free(id) || id >= before.next_id,
        before.registers(&after, id, established, addr, reply, ceiling, now),
        before.table.peers@.contains_key(other),
        !(before.table.peers@[other].addr == addr && before.table.peers@[other].session_id
            == established.link.session_id),
    ensures
        before.table.peers@.len() < before.max_peers ==> after.table.peers@.contains_key(other),
        !after.table.peers@.contains_key(other) && before.table.peers@[other].spoke ==> forall|
            third: u64,
        | #[trigger]
            before.table.peers@.contains_key(third) ==> before.table.peers@[third].spoke
                && before.table.peers@[other].filed <= before.table.peers@[third].filed,
        !after.table.peers@.contains_key(other) ==> forall|third: u64| #[trigger]
            before.table.peers@.contains_key(third) && !before.table.peers@[third].spoke
                ==> before.table.peers@[other].filed <= before.table.peers@[third].filed,
        after.table.peers@.contains_key(other) ==> after.table.peers@[other]
            == before.table.peers@[other],
        after.table.peers@.len() <= before.max_peers || after.table.peers@.len()
            <= before.table.peers@.len(),
        before.table.peers@.len() >= before.max_peers && victim(before.table.peers@) == Some(other)
            ==> !after.table.peers@.contains_key(other),
{
    let entry = after.table@.peers[id];
    assert(entry.addr == addr && entry.session_id == established.link.session_id);
    assert(!before.table.peers@.contains_key(id));
    filing_disturbs_nobody_else(before.table@, id, entry, before.max_peers, other);
    if !after.table.peers@.contains_key(other) {
        whom_room_is_made_at_the_expense_of(before.table.peers@, other);
        if before.table.peers@[other].spoke {
            where_all_have_spoken_the_oldest_goes(before.table.peers@, other);
        }
        assert forall|third: u64| #[trigger]
            before.table.peers@.contains_key(third)
                && !before.table.peers@[third].spoke implies before.table.peers@[other].filed
            <= before.table.peers@[third].filed by {
            the_silent_are_evicted_first(before.table.peers@, other, third);
        }
    }
}

/// An interval is honoured as it is set, but raised to the shortest that means
/// anything; and none set is none.
pub proof fn an_interval_is_honoured_as_it_is_set(interval: u64, shortest: u64)
    ensures
        at_least(None, shortest) is None,
        interval >= shortest ==> at_least(Some(interval), shortest) == Some(interval),
        interval < shortest ==> at_least(Some(interval), shortest) == Some(shortest),
{
}

/// Whatever has happened to an endpoint: no address was sent more than three
/// challenges in one attempt, no response is kept that may not be sent again, or
/// more than eight times, and a handle names at most one peer or one handshake.
pub proof fn what_every_endpoint_keeps_to(endpoint: Endpoint, id: u64)
    requires
        endpoint.wf(),
    ensures
        endpoint.table.peers@.contains_key(id) ==> {
            let entry = endpoint.table.peers@[id];
            &&& entry.probe matches Some(probe) ==> probe.sent <= 3
            &&& entry.handshake_reply matches Some(reply) ==> 1 <= reply.left <= 8
            &&& !endpoint.outbound@.contains_key(id)
        },
        endpoint.handshakes.tokens <= endpoint.handshakes.rate * 1_000_000_000,
        endpoint.migrations.tokens <= endpoint.migrations.rate * 1_000_000_000,
        endpoint.tickets@.len() <= 256,
        endpoint.max_peers >= 1,
{
}

/// A captured resumption cannot be replayed: a ticket that was redeemed is refused
/// the second time, whenever that is. The endpoint's own secret is never spent.
pub proof fn a_ticket_is_redeemed_once(
    before: Endpoint,
    between: Endpoint,
    after: Endpoint,
    id: Seq<u8>,
    now: u64,
    later: u64,
    first: Result<Redeemed, Error>,
    second: Result<Redeemed, Error>,
)
    requires
        before.wf(),
        before.redeemed_by(&between, id, now, first),
        between.redeemed_by(&after, id, later, second),
    ensures
        (before.mode matches Mode::Psk(psk) && psk.id@ == id) ==> first == Ok::<Redeemed, Error>(
            Redeemed::Configured,
        ) && second == first && after.tickets@ == before.tickets@,
        !(before.mode matches Mode::Psk(psk) && psk.id@ == id) ==> second == Err::<Redeemed, Error>(
            Error::UnknownTicket,
        ),
{
    crate::ticket::a_ticket_is_single_use(before.tickets@, id, before.tickets.lifetime(), later);
}

/// A ticket that is held is redeemed within its lifetime, for its own secret and for
/// whom it was issued to, and refused after it; one that is not held is refused.
pub proof fn a_ticket_gives_back_what_it_was_issued_with(
    before: Endpoint,
    after: Endpoint,
    k: int,
    id: Seq<u8>,
    now: u64,
    redeemed: Result<Redeemed, Error>,
)
    requires
        before.wf(),
        0 <= k < before.tickets@.len(),
        before.tickets.lifetime() > 0,
        before.mode matches Mode::Psk(psk) ==> psk.id@ != id,
        before.redeemed_by(&after, id, now, redeemed),
    ensures
        ({
            let issued = before.tickets@[k];
            &&& issued.id == id && now - issued.at < before.tickets.lifetime() ==> (
            redeemed matches Ok(Redeemed::Spent(ticket, peer)) && ticket.id@ == id && ticket.key
                == issued.key && peer == issued.peer)
            &&& issued.id == id && now - issued.at >= before.tickets.lifetime() ==> redeemed == Err::<
                Redeemed,
                Error,
            >(Error::UnknownTicket)
            &&& (forall|j: int|
                0 <= j < before.tickets@.len() ==> (#[trigger] before.tickets@[j]).id != id)
                ==> redeemed == Err::<Redeemed, Error>(Error::UnknownTicket) && after.tickets@
                == before.tickets@
        }),
{
    a_held_ticket_is_redeemed_within_its_lifetime(
        before.tickets@,
        k,
        id,
        before.tickets.lifetime(),
        now,
    );
}

} // verus!
