//! What an endpoint does as time passes, and what it does to send.

use vstd::prelude::*;

use crate::clock::{
    after, blocking, elapsed, socket_timeout, sooner, soonest, until, MILLISECOND,
};
use crate::compress::PayloadType;
use crate::endpoint::{restrained, Endpoint, Event};
use crate::error::{Error, ProtocolError};
use crate::fragment::{divisible, MAX_MESSAGE_LEN};
use crate::keys::{ascending, sorted_keys};
use crate::peer::{room, Finished, Peer, MAX_QUEUED};
use crate::schedule::{backoff, hopeless, one_more, Outbound};
use crate::table::{Address, Filed, PeerEntry, PeerId};

verus! {

broadcast use vstd::laws_cmp::group_laws_cmp;

/// What a pass over the handshakes under way calls for.
pub enum Handshaking {
    /// Nothing is due.
    Settled,
    /// This opening frame is to be sent again, and there may be more.
    Resend {
        /// Whose it is.
        peer: PeerId,
        /// Where it goes.
        to: Address,
        /// The frame.
        frame: Vec<u8>,
    },
    /// This handshake was given up on, which is to be reported.
    Failed(PeerId),
}

/// Whether a handshake is due to be sent again or given up on.
pub open spec fn is_due(outbound: Map<u64, Outbound>, id: u64, now: u64) -> bool {
    outbound.contains_key(id) && outbound[id].next_attempt <= now
}

/// Whether a handshake is the first of those that are due.
pub open spec fn is_first_due(outbound: Map<u64, Outbound>, id: u64, now: u64) -> bool {
    &&& is_due(outbound, id, now)
    &&& forall|other: u64| #[trigger] is_due(outbound, other, now) ==> id <= other
}

/// A handshake once its opening frame has been sent again.
pub open spec fn sent_again(o: Outbound, now: u64) -> Outbound {
    Outbound {
        attempts: one_more(o.attempts),
        next_attempt: after(now, backoff(o.step, one_more(o.attempts) as int)),
        ..o
    }
}

/// Whether a session has not been heard from for too long.
pub open spec fn is_overdue(peers: Map<u64, PeerEntry>, id: u64, limit: u64, now: u64) -> bool {
    peers.contains_key(id) && elapsed(peers[id].last_heard, now) >= limit
}

/// Whether a session is to be sent a keep-alive: it has spoken, and nothing has
/// been sent to it for long enough.
pub open spec fn is_quiet(peers: Map<u64, PeerEntry>, id: u64, every: u64, now: u64) -> bool {
    peers.contains_key(id) && peers[id].spoke && elapsed(peers[id].last_sent, now) >= every
}

/// Reports that some sessions were lost.
pub open spec fn losses(ids: Seq<u64>) -> Seq<Event> {
    ids.map_values(|id: u64| Event::PeerLost { peer: PeerId(id) })
}

/// Reports that some messages to a peer were given up on.
pub open spec fn failures(peer: PeerId, count: nat) -> Seq<Event> {
    Seq::new(count, |i: int| Event::Sent { peer, delivered: false })
}

/// Taking several sessions off file leaves exactly the others, as they were.
pub proof fn all_removed_leaves_the_rest(filed: Filed, ids: Seq<u64>)
    ensures
        forall|id: u64| #[trigger]
            filed.all_removed(ids).peers.contains_key(id) == (filed.peers.contains_key(id)
                && !ids.contains(id)),
        forall|id: u64| #[trigger]
            filed.all_removed(ids).peers.contains_key(id) ==> filed.all_removed(ids).peers[id]
                == filed.peers[id],
    decreases ids.len(),
{
    if ids.len() > 0 {
        let rest = ids.drop_last();
        all_removed_leaves_the_rest(filed, rest);
        assert forall|id: u64| ids.contains(id) == (rest.contains(id) || id == ids.last()) by {
            if ids.contains(id) {
                let k = choose|k: int| 0 <= k < ids.len() && ids[k] == id;
                if k < rest.len() {
                    assert(rest[k] == id);
                }
            }
            if rest.contains(id) {
                let k = choose|k: int| 0 <= k < rest.len() && rest[k] == id;
                assert(ids[k] == id);
            }
            assert(ids[ids.len() - 1] == ids.last());
        }
        let before = filed.all_removed(rest);
        let now = filed.all_removed(ids);
        assert(now.peers == before.peers.remove(ids.last()));
        assert forall|id: u64| #[trigger] now.peers.contains_key(id) == (filed.peers.contains_key(
            id,
        ) && !ids.contains(id)) by {
            assert(before.peers.contains_key(id) == (filed.peers.contains_key(id) && !rest.contains(
                id,
            )));
        }
        assert forall|id: u64| #[trigger] now.peers.contains_key(id) implies now.peers[id]
            == filed.peers[id] by {
            assert(before.peers.contains_key(id));
        }
    }
}

/// How a reliable message goes out.
#[derive(Debug, Clone, Copy, PartialEq, Eq, Structural)]
pub enum Route {
    /// In one frame, at once.
    OneFrame,
    /// In several, from the queue.
    Queued,
}

/// What an attempt to register a fragment with the send window means for the
/// pass: the identifier that it goes out under, or that the pass ends because
/// the window is full. Any other failure fails the pass.
pub fn registered(outcome: Result<u64, ProtocolError>) -> (id: Result<Option<u64>, Error>)
    ensures
        id == (match outcome {
            Ok(id) => Ok::<Option<u64>, Error>(Some(id)),
            Err(ProtocolError::WindowFull) => Ok(None),
            Err(e) => Err(Error::Protocol(e)),
        }),
{
    match outcome {
        Ok(id) => Ok(Some(id)),
        Err(ProtocolError::WindowFull) => Ok(None),
        Err(e) => Err(Error::Protocol(e)),
    }
}

/// How a reliable message goes out, or why it does not, and what that leaves of
/// the session's state: only a message that is queued changes it.
pub open spec fn takes_reliable(
    before: &Peer,
    after: &Peer,
    data: Seq<u8>,
    payload_type: PayloadType,
    limit: nat,
    route: Result<Route, Error>,
) -> bool {
    if !before.link.capabilities.reliable {
        &&& route == Err::<Route, Error>(Error::ReliabilityUnsupported)
        &&& *after == *before
    } else if data.len() <= room(before.link, limit, true, false) {
        &&& route == Ok::<Route, Error>(Route::OneFrame)
        &&& *after == *before
    } else if before.queue@.len() >= MAX_QUEUED {
        &&& route == Err::<Route, Error>(Error::Protocol(ProtocolError::WindowFull))
        &&& *after == *before
    } else if !divisible(data.len(), room(before.link, limit, true, true)) {
        &&& route == Err::<Route, Error>(
            Error::PayloadTooLarge { len: data.len() as usize, limit: MAX_MESSAGE_LEN },
        )
        &&& *after == *before
    } else {
        &&& route == Ok::<Route, Error>(Route::Queued)
        &&& before.queues(after, data, payload_type, room(before.link, limit, true, true))
    }
}

impl Peer {
    /// Decides how a reliable message goes out, and queues it where it takes
    /// more than one frame.
    pub fn send_reliable(
        &mut self,
        data: &[u8],
        payload_type: PayloadType,
        datagram_limit: usize,
    ) -> (route: Result<Route, Error>)
        requires
            old(self).wf(),
        ensures
            final(self).wf(),
            takes_reliable(
                old(self),
                final(self),
                data@,
                payload_type,
                datagram_limit as nat,
                route,
            ),
    {
        if !self.link.peer_capabilities().supports_reliable() {
            return Err(Error::ReliabilityUnsupported);
        }
        if data.len() <= self.payload_room(datagram_limit, true, false) {
            return Ok(Route::OneFrame);
        }
        match self.queue_message(data, payload_type, datagram_limit) {
            Ok(()) => Ok(Route::Queued),
            Err(e) => Err(e),
        }
    }
}

impl Endpoint {
    /// What is due about the handshakes under way, and what doing it leaves.
    pub open spec fn retries(&self, after: &Endpoint, now: u64, step: Handshaking) -> bool {
        match step {
            Handshaking::Settled => {
                &&& forall|id: u64| !#[trigger] is_due(self.outbound@, id, now)
                &&& after.outbound == self.outbound
            },
            Handshaking::Resend { peer, to, frame } => {
                let before = self.outbound@[peer.0];
                &&& is_first_due(self.outbound@, peer.0, now)
                &&& !hopeless(before, now)
                &&& to == before.addr
                &&& frame@ == before.frame@
                &&& after.outbound@ == self.outbound@.insert(
                    peer.0,
                    sent_again(before, now),
                )
            },
            Handshaking::Failed(peer) => {
                &&& is_first_due(self.outbound@, peer.0, now)
                &&& hopeless(self.outbound@[peer.0], now)
                &&& after.outbound@ == self.outbound@.remove(peer.0)
            },
        }
    }

    /// Does what is due about the handshakes under way, one at a time: sends an
    /// opening frame again, or gives up on a hopeless one.
    ///
    /// To be called again until nothing is due or one has failed.
    pub fn drive_handshakes(&mut self, now: u64) -> (step: Handshaking)
        requires
            old(self).wf(),
        ensures
            final(self).wf(),
            *final(self) == (Endpoint { outbound: final(self).outbound, ..*old(self) }),
            match step {
                Handshaking::Settled => {
                    &&& forall|id: u64| !#[trigger] is_due(old(self).outbound@, id, now)
                    &&& final(self).outbound == old(self).outbound
                },
                Handshaking::Resend { peer, to, frame } => {
                    let before = old(self).outbound@[peer.0];
                    &&& is_first_due(old(self).outbound@, peer.0, now)
                    &&& !hopeless(before, now)
                    &&& to == before.addr
                    &&& frame@ == before.frame@
                    &&& final(self).outbound@ == old(self).outbound@.insert(
                        peer.0,
                        sent_again(before, now),
                    )
                },
                Handshaking::Failed(peer) => {
                    &&& is_first_due(old(self).outbound@, peer.0, now)
                    &&& hopeless(old(self).outbound@[peer.0], now)
                    &&& final(self).outbound@ == old(self).outbound@.remove(peer.0)
                },
            },
            old(self).retries(final(self), now, step),
    {
        let ids = sorted_keys(&self.outbound);
        let mut k: usize = 0;
        while k < ids.len()
            invariant
                *self == *old(self),
                self.wf(),
                ascending(ids@),
                forall|id: u64| ids@.contains(id) == #[trigger] self.outbound@.contains_key(id),
                k <= ids@.len(),
                forall|j: int| 0 <= j < k ==> !is_due(self.outbound@, #[trigger] ids@[j], now),
            decreases ids@.len() - k,
        {
            let id: u64 = ids[k];
            proof {
                assert(ids@.contains(id));
            }
            let due = match self.outbound.get(&id) {
                Some(o) => o.next_attempt <= now,
                None => false,
            };
            if due {
                proof {
                    assert forall|other: u64| #[trigger]
                        is_due(self.outbound@, other, now) implies id <= other by {
                        assert(self.outbound@.contains_key(other));
                        let j = choose|j: int| 0 <= j < ids@.len() && ids@[j] == other;
                        assert(!(j < k));
                    }
                    assert(is_first_due(self.outbound@, id, now));
                }
                if let Some(mut o) = self.outbound.remove(&id) {
                    if o.is_hopeless(now) {
                        return Handshaking::Failed(PeerId(id));
                    }
                    let frame = crate::buffer::copy_of(o.frame.as_slice());
                    let to: Address = o.addr;
                    o.send_again(now);
                    let _ = self.outbound.insert(id, o);
                    proof {
                        assert(self.outbound@ =~= old(self).outbound@.insert(
                            id,
                            sent_again(old(self).outbound@[id], now),
                        ));
                    }
                    return Handshaking::Resend { peer: PeerId(id), to, frame };
                }
            }
            k += 1;
        }
        proof {
            assert forall|id: u64| !#[trigger] is_due(self.outbound@, id, now) by {
                if is_due(self.outbound@, id, now) {
                    assert(self.outbound@.contains_key(id));
                    let j = choose|j: int| 0 <= j < ids@.len() && ids@[j] == id;
                    assert(!is_due(self.outbound@, ids@[j], now));
                }
            }
        }
        Handshaking::Settled
    }

    /// The sessions that have not been heard from for too long.
    fn overdue(&self, limit: u64, now: u64) -> (lost: Vec<u64>)
        ensures
            ascending(lost@),
            forall|id: u64| #[trigger]
                lost@.contains(id) == is_overdue(self.table.peers@, id, limit, now),
    {
        let ids = self.table.ids();
        let mut lost: Vec<u64> = Vec::new();
        let mut k: usize = 0;
        while k < ids.len()
            invariant
                ascending(ids@),
                forall|id: u64| ids@.contains(id) == #[trigger] self.table.peers@.contains_key(id),
                k <= ids@.len(),
                ascending(lost@),
                forall|i: int| 0 <= i < lost@.len() ==> k > 0 && #[trigger] lost@[i] <= ids@[k - 1],
                forall|id: u64| #[trigger]
                    lost@.contains(id) == (is_overdue(self.table.peers@, id, limit, now)
                        && exists|j: int| 0 <= j < k && ids@[j] == id),
            decreases ids@.len() - k,
        {
            let id: u64 = ids[k];
            proof {
                assert(ids@.contains(id));
            }
            let gone = match self.table.get(id) {
                Some(entry) => now.saturating_sub(entry.last_heard) >= limit,
                None => false,
            };
            let ghost before = lost@;
            if gone {
                lost.push(id);
            }
            k += 1;
            proof {
                assert forall|other: u64| #[trigger]
                    lost@.contains(other) == (is_overdue(self.table.peers@, other, limit, now)
                        && exists|j: int| 0 <= j < k && ids@[j] == other) by {
                    assert(before.contains(other) == (is_overdue(
                        self.table.peers@,
                        other,
                        limit,
                        now,
                    ) && exists|j: int| 0 <= j < k - 1 && ids@[j] == other));
                    if gone {
                        assert(lost@[before.len() as int] == id);
                        if before.contains(other) {
                            let i = choose|i: int| 0 <= i < before.len() && before[i] == other;
                            assert(lost@[i] == other);
                        }
                        if lost@.contains(other) && other != id {
                            let i = choose|i: int| 0 <= i < lost@.len() && lost@[i] == other;
                            assert(before[i] == other);
                        }
                    }
                    assert(ids@[k - 1] == id);
                }
                assert forall|i: int| 0 <= i < lost@.len() implies #[trigger] lost@[i] <= ids@[k
                    - 1] by {
                    if i < before.len() {
                        assert(before[i] == lost@[i]);
                        if k >= 2 {
                            assert(ids@[k - 2] < ids@[k - 1]);
                        }
                    }
                }
                assert forall|i: int, j: int| 0 <= i < j < lost@.len() implies lost@[i] < lost@[j] by {
                    if j == before.len() {
                        assert(before[i] == lost@[i]);
                        assert(before[i] <= ids@[k - 2]);
                        assert(ids@[k - 2] < ids@[k - 1]);
                    } else {
                        assert(before[i] < before[j]);
                    }
                }
            }
        }
        proof {
            assert forall|id: u64| #[trigger]
                lost@.contains(id) == is_overdue(self.table.peers@, id, limit, now) by {
                if is_overdue(self.table.peers@, id, limit, now) {
                    assert(self.table.peers@.contains_key(id));
                    assert(ids@.contains(id));
                }
            }
        }
        lost
    }

    /// What releasing the peers that nothing has been heard from leaves: those that
    /// are overdue are off file and reported in order of their handles, and
    /// everyone else is as they were.
    pub open spec fn releases(&self, after: &Endpoint, now: u64) -> bool {
        &&& *after == (Endpoint { table: after.table, events: after.events, ..*self })
        &&& match self.peer_timeout {
            None => after.table == self.table && after.events == self.events,
            Some(limit) => {
                &&& exists|lost: Seq<u64>|
                    ascending(lost) && (forall|id: u64| #[trigger]
                        lost.contains(id) == is_overdue(self.table.peers@, id, limit, now))
                        && after.table@ == self.table@.all_removed(lost) && after.events@
                        == self.events@ + #[trigger] losses(lost)
                &&& forall|id: u64| #[trigger]
                    after.table.peers@.contains_key(id) == (self.table.peers@.contains_key(id)
                        && !is_overdue(self.table.peers@, id, limit, now))
            },
        }
    }

    /// Releases the peers that nothing has been heard from inside the timeout,
    /// and reports each.
    pub fn drive_liveness(&mut self, now: u64)
        requires
            old(self).wf(),
        ensures
            final(self).wf(),
            *final(self) == (Endpoint {
                table: final(self).table,
                events: final(self).events,
                ..*old(self)
            }),
            match old(self).peer_timeout {
                None => final(self).table == old(self).table && final(self).events
                    == old(self).events,
                Some(limit) => {
                    &&& exists|lost: Seq<u64>|
                        ascending(lost) && (forall|id: u64| #[trigger]
                            lost.contains(id) == is_overdue(
                                old(self).table.peers@,
                                id,
                                limit,
                                now,
                            )) && final(self).table@ == old(self).table@.all_removed(lost)
                            && final(self).events@ == old(self).events@ + #[trigger] losses(lost)
                    &&& forall|id: u64| #[trigger]
                        final(self).table.peers@.contains_key(id) == (
                        old(self).table.peers@.contains_key(id) && !is_overdue(
                            old(self).table.peers@,
                            id,
                            limit,
                            now,
                        ))
                },
            },
            old(self).releases(final(self), now),
            forall|id: u64| #[trigger]
                final(self).table.peers@.contains_key(id) <==> old(self).table.peers@.contains_key(
                    id,
                ) && !(old(self).peer_timeout matches Some(limit) && now
                    - old(self).table.peers@[id].last_heard >= limit),
    {
        let limit: u64 = match self.peer_timeout {
            Some(limit) => limit,
            None => {
                return;
            },
        };
        let lost = self.overdue(limit, now);
        let mut k: usize = 0;
        proof {
            assert(lost@.take(0) =~= Seq::<u64>::empty());
            assert(losses(lost@.take(0)) =~= Seq::<Event>::empty());
            assert(self.events@ + losses(lost@.take(0)) =~= self.events@);
        }
        while k < lost.len()
            invariant
                k <= lost@.len(),
                ascending(lost@),
                old(self).wf(),
                old(self).peer_timeout == Some(limit),
                self.wf(),
                *self == (Endpoint { table: self.table, events: self.events, ..*old(self) }),
                forall|id: u64| #[trigger]
                    lost@.contains(id) == is_overdue(old(self).table.peers@, id, limit, now),
                self.table@ == old(self).table@.all_removed(lost@.take(k as int)),
                self.events@ == old(self).events@ + losses(lost@.take(k as int)),
            decreases lost@.len() - k,
        {
            let id: u64 = lost[k];
            let ghost before = self.table@;
            proof {
                all_removed_leaves_the_rest(old(self).table@, lost@.take(k as int));
                assert(lost@.contains(id));
                assert(!lost@.take(k as int).contains(id)) by {
                    if lost@.take(k as int).contains(id) {
                        let j = choose|j: int| 0 <= j < k && lost@.take(k as int)[j] == id;
                        assert(lost@[j] < lost@[k as int]);
                    }
                }
                assert(before.peers.contains_key(id));
            }
            if let Some(_) = self.table.remove(id) {
                self.events.push_back(Event::PeerLost { peer: PeerId(id) });
            }
            k += 1;
            proof {
                assert(lost@.take(k as int).drop_last() =~= lost@.take(k - 1));
                assert(self.events@ =~= old(self).events@ + losses(lost@.take(k as int)));
                assert forall|other: u64| #[trigger]
                    self.table.peers@.contains_key(other) implies other < self.next_id
                    && restrained(self.table.peers@[other]) by {
                    assert(before.peers.contains_key(other));
                }
                assert forall|other: u64| #[trigger]
                    self.outbound@.contains_key(other) implies !self.table.peers@.contains_key(
                    other,
                ) by {
                    assert(!before.peers.contains_key(other));
                }
            }
        }
        proof {
            assert(lost@.take(k as int) =~= lost@);
            all_removed_leaves_the_rest(old(self).table@, lost@);
            assert(self.events@ == old(self).events@ + losses(lost@));
            assert forall|id: u64| #[trigger]
                self.table.peers@.contains_key(id) == (old(self).table.peers@.contains_key(id)
                    && !is_overdue(old(self).table.peers@, id, limit, now)) by {
                assert(self.table@.peers.contains_key(id) == old(self).table@.all_removed(
                    lost@,
                ).peers.contains_key(id));
                assert(lost@.contains(id) == is_overdue(old(self).table.peers@, id, limit, now));
            }
        }
    }

    /// The peers that are to be sent a keep-alive.
    ///
    /// Only peers that have been heard from: a session can be filed pointing at
    /// an address that never asked for anything, and keeping it alive would aim
    /// a stream there.
    pub fn drive_keepalives(&self, now: u64) -> (due: Vec<PeerId>)
        ensures
            self.keepalive is None ==> due@.len() == 0,
            forall|i: int, j: int| 0 <= i < j < due@.len() ==> due@[i].0 < due@[j].0,
            self.keepalive matches Some(every) ==> forall|id: u64| #[trigger]
                due@.contains(PeerId(id)) == is_quiet(self.table.peers@, id, every, now),
    {
        let mut due: Vec<PeerId> = Vec::new();
        let every: u64 = match self.keepalive {
            Some(every) => every,
            None => {
                return due;
            },
        };
        let ids = self.table.ids();
        let mut k: usize = 0;
        while k < ids.len()
            invariant
                ascending(ids@),
                forall|id: u64| ids@.contains(id) == #[trigger] self.table.peers@.contains_key(id),
                k <= ids@.len(),
                forall|i: int, j: int| 0 <= i < j < due@.len() ==> due@[i].0 < due@[j].0,
                forall|i: int| 0 <= i < due@.len() ==> k > 0 && (#[trigger] due@[i]).0 <= ids@[k - 1],
                forall|id: u64| #[trigger]
                    due@.contains(PeerId(id)) == (is_quiet(self.table.peers@, id, every, now)
                        && exists|j: int| 0 <= j < k && ids@[j] == id),
            decreases ids@.len() - k,
        {
            let id: u64 = ids[k];
            proof {
                assert(ids@.contains(id));
            }
            let quiet = match self.table.get(id) {
                Some(entry) => entry.spoke && now.saturating_sub(entry.last_sent) >= every,
                None => false,
            };
            let ghost before = due@;
            if quiet {
                due.push(PeerId(id));
            }
            k += 1;
            proof {
                assert forall|other: u64| #[trigger]
                    due@.contains(PeerId(other)) == (is_quiet(
                        self.table.peers@,
                        other,
                        every,
                        now,
                    ) && exists|j: int| 0 <= j < k && ids@[j] == other) by {
                    assert(before.contains(PeerId(other)) == (is_quiet(
                        self.table.peers@,
                        other,
                        every,
                        now,
                    ) && exists|j: int| 0 <= j < k - 1 && ids@[j] == other));
                    if quiet {
                        assert(due@[before.len() as int] == PeerId(id));
                        if before.contains(PeerId(other)) {
                            let i = choose|i: int|
                                0 <= i < before.len() && before[i] == PeerId(other);
                            assert(due@[i] == PeerId(other));
                        }
                        if due@.contains(PeerId(other)) && other != id {
                            let i = choose|i: int| 0 <= i < due@.len() && due@[i] == PeerId(other);
                            assert(before[i] == PeerId(other));
                        }
                    }
                    assert(ids@[k - 1] == id);
                }
                assert forall|i: int| 0 <= i < due@.len() implies (#[trigger] due@[i]).0 <= ids@[k
                    - 1] by {
                    if i < before.len() {
                        assert(before[i] == due@[i]);
                        if k >= 2 {
                            assert(ids@[k - 2] < ids@[k - 1]);
                        }
                    }
                }
                assert forall|i: int, j: int| 0 <= i < j < due@.len() implies due@[i].0
                    < due@[j].0 by {
                    if j == before.len() {
                        assert(before[i] == due@[i]);
                        assert(before[i].0 <= ids@[k - 2]);
                        assert(ids@[k - 2] < ids@[k - 1]);
                    } else {
                        assert(before[i].0 < before[j].0);
                    }
                }
            }
        }
        proof {
            assert forall|id: u64| #[trigger]
                due@.contains(PeerId(id)) == is_quiet(self.table.peers@, id, every, now) by {
                if is_quiet(self.table.peers@, id, every, now) {
                    assert(self.table.peers@.contains_key(id));
                    assert(ids@.contains(id));
                }
            }
        }
        due
    }

    /// Whether a span is how long it is until the earliest keep-alive falls due.
    pub open spec fn keepalive_in(&self, now: u64, wait: Option<u64>) -> bool {
        match self.keepalive {
            None => wait is None,
            Some(every) => is_least(
                self.table.peers@,
                |e: PeerEntry| until(after(e.last_sent, every), now),
                wait,
            ),
        }
    }

    /// Whether a span is how long it is until the earliest peer timeout falls due.
    pub open spec fn liveness_in(&self, now: u64, wait: Option<u64>) -> bool {
        match self.peer_timeout {
            None => wait is None,
            Some(limit) => is_least(
                self.table.peers@,
                |e: PeerEntry| until(after(e.last_heard, limit), now),
                wait,
            ),
        }
    }

    /// Whether a span is how long it is until the earliest handshake is due.
    pub open spec fn handshake_in(&self, now: u64, wait: Option<u64>) -> bool {
        is_least(self.outbound@, |o: Outbound| until(o.next_attempt, now), wait)
    }

    /// How long it is until the earliest keep-alive falls due, if any does.
    pub fn next_keepalive(&self, now: u64) -> (wait: Option<u64>)
        ensures
            self.keepalive_in(now, wait),
    {
        let every: u64 = match self.keepalive {
            Some(every) => every,
            None => {
                return None;
            },
        };
        let ids = self.table.ids();
        let ghost f = |e: PeerEntry| until(after(e.last_sent, every), now);
        let mut wait: Option<u64> = None;
        let mut k: usize = 0;
        while k < ids.len()
            invariant
                forall|id: u64| ids@.contains(id) == #[trigger] self.table.peers@.contains_key(id),
                k <= ids@.len(),
                f == (|e: PeerEntry| until(after(e.last_sent, every), now)),
                least_so_far(self.table.peers@, f, ids@.take(k as int), wait),
            decreases ids@.len() - k,
        {
            let id: u64 = ids[k];
            proof {
                assert(ids@.contains(id));
            }
            if let Some(entry) = self.table.get(id) {
                let due: u64 = entry.last_sent.saturating_add(every);
                let left: u64 = due.saturating_sub(now);
                proof {
                    one_more_seen(self.table.peers@, f, ids@, k as int, wait, left);
                }
                wait = soonest(wait, Some(left));
            }
            k += 1;
        }
        proof {
            all_seen(self.table.peers@, f, ids@, wait);
        }
        wait
    }

    /// How long it is until the earliest peer timeout falls due, if any does.
    pub fn next_liveness_check(&self, now: u64) -> (wait: Option<u64>)
        ensures
            self.liveness_in(now, wait),
    {
        let limit: u64 = match self.peer_timeout {
            Some(limit) => limit,
            None => {
                return None;
            },
        };
        let ids = self.table.ids();
        let ghost f = |e: PeerEntry| until(after(e.last_heard, limit), now);
        let mut wait: Option<u64> = None;
        let mut k: usize = 0;
        while k < ids.len()
            invariant
                forall|id: u64| ids@.contains(id) == #[trigger] self.table.peers@.contains_key(id),
                k <= ids@.len(),
                f == (|e: PeerEntry| until(after(e.last_heard, limit), now)),
                least_so_far(self.table.peers@, f, ids@.take(k as int), wait),
            decreases ids@.len() - k,
        {
            let id: u64 = ids[k];
            proof {
                assert(ids@.contains(id));
            }
            if let Some(entry) = self.table.get(id) {
                let due: u64 = entry.last_heard.saturating_add(limit);
                let left: u64 = due.saturating_sub(now);
                proof {
                    one_more_seen(self.table.peers@, f, ids@, k as int, wait, left);
                }
                wait = soonest(wait, Some(left));
            }
            k += 1;
        }
        proof {
            all_seen(self.table.peers@, f, ids@, wait);
        }
        wait
    }

    /// How long it is until the earliest handshake is due, if any is under way.
    pub fn next_handshake(&self, now: u64) -> (wait: Option<u64>)
        ensures
            self.handshake_in(now, wait),
    {
        let ids = sorted_keys(&self.outbound);
        let ghost f = |o: Outbound| until(o.next_attempt, now);
        let mut wait: Option<u64> = None;
        let mut k: usize = 0;
        while k < ids.len()
            invariant
                forall|id: u64| ids@.contains(id) == #[trigger] self.outbound@.contains_key(id),
                k <= ids@.len(),
                f == (|o: Outbound| until(o.next_attempt, now)),
                least_so_far(self.outbound@, f, ids@.take(k as int), wait),
            decreases ids@.len() - k,
        {
            let id: u64 = ids[k];
            proof {
                assert(ids@.contains(id));
            }
            if let Some(o) = self.outbound.get(&id) {
                let left: u64 = o.next_attempt.saturating_sub(now);
                proof {
                    one_more_seen(self.outbound@, f, ids@, k as int, wait, left);
                }
                wait = soonest(wait, Some(left));
            }
            k += 1;
        }
        proof {
            all_seen(self.outbound@, f, ids@, wait);
        }
        wait
    }

    /// How long the socket may block: until whichever comes first of the
    /// nearest retransmission, the nearest handshake, the caller's deadline,
    /// the nearest keep-alive and the nearest peer timeout. `None` where there
    /// is nothing to wake for.
    ///
    /// `retransmit` is how long it is until the nearest retransmission.
    pub fn poll_wait(&self, retransmit: Option<u64>, deadline: Option<u64>, now: u64) -> (timeout:
        Option<u64>)
        ensures
            exists|handshake: Option<u64>, keepalive: Option<u64>, liveness: Option<u64>|
                #[trigger] self.handshake_in(now, handshake) && #[trigger] self.keepalive_in(
                    now,
                    keepalive,
                ) && #[trigger] self.liveness_in(now, liveness) && timeout == waking(
                    retransmit,
                    handshake,
                    keepalive,
                    liveness,
                    deadline,
                    now,
                ),
            timeout matches Some(t) ==> t >= MILLISECOND,
            deadline matches Some(d) ==> timeout is Some && no_later(timeout->0, d - now),
            retransmit matches Some(w) ==> timeout is Some && no_later(timeout->0, w as int),
            self.peer_timeout matches Some(limit) ==> forall|id: u64| #[trigger]
                self.table.peers@.contains_key(id) ==> timeout is Some && no_later(
                    timeout->0,
                    self.table.peers@[id].last_heard + limit - now,
                ),
            self.keepalive matches Some(every) ==> forall|id: u64| #[trigger]
                self.table.peers@.contains_key(id) ==> timeout is Some && no_later(
                    timeout->0,
                    self.table.peers@[id].last_sent + every - now,
                ),
            forall|id: u64| #[trigger]
                self.outbound@.contains_key(id) ==> timeout is Some && no_later(
                    timeout->0,
                    self.outbound@[id].next_attempt - now,
                ),
    {
        let handshake = self.next_handshake(now);
        let keepalive = self.next_keepalive(now);
        let liveness = self.next_liveness_check(now);
        let left: Option<u64> = match deadline {
            Some(d) => Some(d.saturating_sub(now)),
            None => None,
        };
        let wait = soonest(soonest(soonest(soonest(retransmit, handshake), left), keepalive), liveness);
        proof {
            the_first_read_sleeps_until_the_first_thing_due(
                *self,
                retransmit,
                handshake,
                keepalive,
                liveness,
                deadline,
                now,
            );
        }
        socket_timeout(wait)
    }

    /// When the earliest thing falls due that a pass has to do by the clock, if
    /// anything does: the nearest retransmission, which is at `retransmit`, the
    /// nearest handshake, the nearest keep-alive to a peer that has spoken, and
    /// the nearest peer timeout.
    pub fn next_due(&self, retransmit: Option<u64>) -> (due: Option<u64>)
        ensures
            self.covers(due),
            reaches(due, retransmit),
            due matches Some(at) ==> retransmit == Some(at) || self.falls_due(at),
    {
        let mut due: Option<u64> = retransmit;
        let ids = self.table.ids();
        let mut k: usize = 0;
        while k < ids.len()
            invariant
                forall|id: u64| ids@.contains(id) == #[trigger] self.table.peers@.contains_key(id),
                k <= ids@.len(),
                reaches(due, retransmit),
                forall|j: int|
                    0 <= j < k ==> reaches(
                        due,
                        entry_due(
                            self.table.peers@[#[trigger] ids@[j]],
                            self.keepalive,
                            self.peer_timeout,
                        ),
                    ),
                due matches Some(at) ==> retransmit == Some(at) || self.falls_due(at),
            decreases ids@.len() - k,
        {
            let id: u64 = ids[k];
            proof {
                assert(ids@.contains(id));
            }
            let own = self.due_of(PeerId(id));
            proof {
                if sooner(due, own) != due {
                    assert(self.table.peers@.contains_key(id));
                    assert(self.falls_due(own->0));
                }
            }
            due = soonest(due, own);
            k += 1;
        }
        proof {
            assert forall|id: u64| #[trigger] self.table.peers@.contains_key(id) implies reaches(
                due,
                entry_due(self.table.peers@[id], self.keepalive, self.peer_timeout),
            ) by {
                let j = choose|j: int| 0 <= j < ids@.len() && ids@[j] == id;
                assert(ids@[j] == id);
            }
        }
        let started = sorted_keys(&self.outbound);
        let mut i: usize = 0;
        while i < started.len()
            invariant
                forall|id: u64|
                    started@.contains(id) == #[trigger] self.outbound@.contains_key(id),
                i <= started@.len(),
                reaches(due, retransmit),
                forall|id: u64| #[trigger]
                    self.table.peers@.contains_key(id) ==> reaches(
                        due,
                        entry_due(self.table.peers@[id], self.keepalive, self.peer_timeout),
                    ),
                forall|j: int|
                    0 <= j < i ==> reaches(
                        due,
                        Some(self.outbound@[#[trigger] started@[j]].next_attempt),
                    ),
                due matches Some(at) ==> retransmit == Some(at) || self.falls_due(at),
            decreases started@.len() - i,
        {
            let id: u64 = started[i];
            proof {
                assert(started@.contains(id));
            }
            if let Some(o) = self.outbound.get(&id) {
                proof {
                    assert(self.outbound@.contains_key(id));
                    assert(self.falls_due(o.next_attempt));
                }
                due = soonest(due, Some(o.next_attempt));
            }
            i += 1;
        }
        proof {
            assert forall|id: u64| #[trigger] self.outbound@.contains_key(id) implies reaches(
                due,
                Some(self.outbound@[id].next_attempt),
            ) by {
                let j = choose|j: int| 0 <= j < started@.len() && started@[j] == id;
                assert(started@[j] == id);
            }
        }
        due
    }

    /// When the next thing about one peer falls due by the clock, but for what is
    /// to be sent to it again.
    pub fn due_of(&self, peer: PeerId) -> (due: Option<u64>)
        ensures
            due == (if self.table.peers@.contains_key(peer.0) {
                entry_due(self.table.peers@[peer.0], self.keepalive, self.peer_timeout)
            } else {
                None
            }),
    {
        match self.table.get(peer.0) {
            None => None,
            Some(entry) => {
                let keepalive: Option<u64> = match self.keepalive {
                    Some(every) if entry.spoke => Some(entry.last_sent.saturating_add(every)),
                    _ => None,
                };
                let timeout: Option<u64> = match self.peer_timeout {
                    Some(limit) => Some(entry.last_heard.saturating_add(limit)),
                    None => None,
                };
                soonest(keepalive, timeout)
            },
        }
    }

    /// Whether nothing that the endpoint does by the clock falls due before a
    /// moment, but for what is to be sent again.
    pub open spec fn covers(&self, due: Option<u64>) -> bool {
        &&& forall|id: u64| #[trigger]
            self.table.peers@.contains_key(id) ==> reaches(
                due,
                entry_due(self.table.peers@[id], self.keepalive, self.peer_timeout),
            )
        &&& forall|id: u64| #[trigger]
            self.outbound@.contains_key(id) ==> reaches(due, Some(self.outbound@[id].next_attempt))
    }

    /// Whether something that the endpoint does by the clock falls due at a
    /// moment, but for what is to be sent again.
    pub open spec fn falls_due(&self, at: u64) -> bool {
        ||| exists|id: u64| #[trigger]
            self.table.peers@.contains_key(id) && entry_due(
                self.table.peers@[id],
                self.keepalive,
                self.peer_timeout,
            ) == Some(at)
        ||| exists|id: u64| #[trigger]
            self.outbound@.contains_key(id) && self.outbound@[id].next_attempt == at
    }

    /// Reports how the sending of messages to a peer ended: the one that had to
    /// be split, if it finished, and any that did not have to be and was given
    /// up on. A message that did not have to be split and came through is not
    /// reported.
    pub fn report(&mut self, peer: PeerId, finished: Option<Finished>)
        requires
            old(self).wf(),
        ensures
            final(self).wf(),
            *final(self) == (Endpoint {
                table: final(self).table,
                events: final(self).events,
                ..*old(self)
            }),
            if old(self).table.peers@.contains_key(peer.0) {
                let before = old(self).table.peers@[peer.0];
                &&& final(self).events@ == old(self).events@ + ending(peer, finished) + failures(
                    peer,
                    before.peer.unreported as nat,
                )
                &&& final(self).table@ == old(self).table@.changed(
                    peer.0,
                    (PeerEntry { peer: Peer { unreported: 0, ..before.peer }, ..before }),
                )
            } else {
                &&& final(self).events@ == old(self).events@ + ending(peer, finished)
                &&& final(self).table@ == old(self).table@
            },
    {
        let ghost start = self.events@;
        if let Some(f) = finished {
            self.events.push_back(Event::Sent { peer, delivered: f.delivered });
        }
        proof {
            assert(self.events@ =~= start + ending(peer, finished));
        }
        let ghost reported = self.events@;
        let ghost before = self.table@;
        let mut left: usize = 0;
        if let Some(entry) = self.table.entry(peer.0) {
            left = entry.peer.unreported;
            entry.peer.unreported = 0;
        }
        proof {
            assert forall|other: u64| #[trigger]
                self.table.peers@.contains_key(other) implies other < self.next_id && restrained(
                self.table.peers@[other],
            ) by {
                assert(before.peers.contains_key(other));
            }
            assert(reported + failures(peer, 0) =~= reported);
        }
        let total: usize = left;
        let ghost table = self.table;
        while left > 0
            invariant
                left <= total,
                self.wf(),
                self.table == table,
                *self == (Endpoint { table: self.table, events: self.events, ..*old(self) }),
                self.events@ == reported + failures(peer, (total - left) as nat),
            decreases left,
        {
            self.events.push_back(Event::Sent { peer, delivered: false });
            left -= 1;
            proof {
                assert(self.events@ =~= reported + failures(peer, (total - left) as nat));
            }
        }
    }

    /// The oldest thing that has happened and has not been reported.
    pub fn next_event(&mut self) -> (event: Option<Event>)
        requires
            old(self).wf(),
        ensures
            final(self).wf(),
            *final(self) == (Endpoint { events: final(self).events, ..*old(self) }),
            if old(self).events@.len() == 0 {
                event is None && final(self).events@ == old(self).events@
            } else {
                event == Some(old(self).events@[0]) && final(self).events@ == old(
                    self,
                ).events@.skip(1)
            },
    {
        self.events.pop_front()
    }

    /// Where a message to a peer goes, and how large a datagram may be there.
    pub fn send(&self, peer: PeerId) -> (route: Result<(Address, usize), Error>)
        ensures
            route == (if self.table.peers@.contains_key(peer.0) {
                Ok::<(Address, usize), Error>(
                    (
                        self.table.peers@[peer.0].addr,
                        self.table.peers@[peer.0].datagram_limit,
                    ),
                )
            } else {
                Err(Error::UnknownPeer)
            }),
    {
        match self.table.get(peer.0) {
            Some(entry) => Ok((entry.addr, entry.datagram_limit)),
            None => Err(Error::UnknownPeer),
        }
    }

    /// Decides how a reliable message to a peer goes out, and queues it where it
    /// takes more than one frame.
    pub fn send_reliable(&mut self, peer: PeerId, data: &[u8], payload_type: PayloadType) -> (route:
        Result<Route, Error>)
        requires
            old(self).wf(),
        ensures
            final(self).wf(),
            *final(self) == (Endpoint { table: final(self).table, ..*old(self) }),
            if !old(self).table.peers@.contains_key(peer.0) {
                &&& route == Err::<Route, Error>(Error::UnknownPeer)
                &&& final(self).table@ == old(self).table@
            } else {
                let before = old(self).table.peers@[peer.0];
                let after = final(self).table.peers@[peer.0];
                &&& final(self).table@ == old(self).table@.changed(peer.0, after)
                &&& after == (PeerEntry { peer: after.peer, ..before })
                &&& takes_reliable(
                    &before.peer,
                    &after.peer,
                    data@,
                    payload_type,
                    before.datagram_limit as nat,
                    route,
                )
            },
    {
        let ghost before = self.table@;
        let mut route: Result<Route, Error> = Err(Error::UnknownPeer);
        if let Some(entry) = self.table.entry(peer.0) {
            let limit: usize = entry.datagram_limit;
            route = entry.peer.send_reliable(data, payload_type, limit);
        }
        proof {
            assert forall|other: u64| #[trigger]
                self.table.peers@.contains_key(other) implies other < self.next_id && restrained(
                self.table.peers@[other],
            ) by {
                assert(before.peers.contains_key(other));
            }
        }
        route
    }
}

/// When the next thing about a session falls due by the clock: a keep-alive,
/// where it has spoken, or its timeout.
pub open spec fn entry_due(
    entry: PeerEntry,
    keepalive: Option<u64>,
    peer_timeout: Option<u64>,
) -> Option<u64> {
    sooner(
        match keepalive {
            Some(every) if entry.spoke => Some(after(entry.last_sent, every)),
            _ => None,
        },
        match peer_timeout {
            Some(limit) => Some(after(entry.last_heard, limit)),
            None => None,
        },
    )
}

/// Whether a moment comes no later than another, if there is another.
pub open spec fn reaches(due: Option<u64>, other: Option<u64>) -> bool {
    other matches Some(at) ==> due matches Some(first) && first <= at
}

/// Before the moment at which something falls due there is nothing to do by the
/// clock: no handshake is to be sent again or given up on, no peer is to be
/// released, and none is to be sent a keep-alive. So nothing is missed by not
/// looking until then.
pub proof fn nothing_is_to_be_done_before_it_is_due(endpoint: Endpoint, due: Option<u64>, now: u64)
    requires
        endpoint.wf(),
        endpoint.covers(due),
        due matches Some(at) ==> now < at,
    ensures
        forall|id: u64| !#[trigger] is_due(endpoint.outbound@, id, now),
        endpoint.peer_timeout matches Some(limit) ==> forall|id: u64|
            !#[trigger] is_overdue(endpoint.table.peers@, id, limit, now),
        endpoint.keepalive matches Some(every) ==> forall|id: u64|
            !#[trigger] is_quiet(endpoint.table.peers@, id, every, now),
{
    assert forall|id: u64| !#[trigger] is_due(endpoint.outbound@, id, now) by {
        if endpoint.outbound@.contains_key(id) {
            assert(reaches(due, Some(endpoint.outbound@[id].next_attempt)));
        }
    }
    if let Some(limit) = endpoint.peer_timeout {
        assert forall|id: u64| !#[trigger] is_overdue(endpoint.table.peers@, id, limit, now) by {
            if endpoint.table.peers@.contains_key(id) {
                assert(reaches(
                    due,
                    entry_due(
                        endpoint.table.peers@[id],
                        endpoint.keepalive,
                        endpoint.peer_timeout,
                    ),
                ));
            }
        }
    }
    if let Some(every) = endpoint.keepalive {
        assert forall|id: u64| !#[trigger] is_quiet(endpoint.table.peers@, id, every, now) by {
            if endpoint.table.peers@.contains_key(id) {
                assert(reaches(
                    due,
                    entry_due(
                        endpoint.table.peers@[id],
                        endpoint.keepalive,
                        endpoint.peer_timeout,
                    ),
                ));
            }
        }
    }
}

/// A frame that is credited to one session moves only that session's own moments,
/// so what was due before still tells when something falls due next, once the
/// moment of that one session is taken in.
pub proof fn one_session_moves_only_its_own_moments(
    before: Endpoint,
    after: Endpoint,
    id: u64,
    due: Option<u64>,
)
    requires
        before.covers(due),
        after.table.peers@.contains_key(id),
        after.table@ == before.table@.changed(id, after.table.peers@[id]),
        after.outbound@ == before.outbound@,
        after.keepalive == before.keepalive,
        after.peer_timeout == before.peer_timeout,
    ensures
        after.covers(
            sooner(
                due,
                entry_due(after.table.peers@[id], after.keepalive, after.peer_timeout),
            ),
        ),
{
    assert forall|other: u64| #[trigger] after.table.peers@.contains_key(other) implies reaches(
        sooner(due, entry_due(after.table.peers@[id], after.keepalive, after.peer_timeout)),
        entry_due(after.table.peers@[other], after.keepalive, after.peer_timeout),
    ) by {
        if other != id {
            assert(before.table.peers@.contains_key(other));
        }
    }
    assert forall|other: u64| #[trigger] after.outbound@.contains_key(other) implies reaches(
        sooner(due, entry_due(after.table.peers@[id], after.keepalive, after.peer_timeout)),
        Some(after.outbound@[other].next_attempt),
    ) by {
        assert(before.outbound@.contains_key(other));
    }
}

/// Whether a span is the least that `f` gives over a map, or is not there
/// because the map is empty.
pub open spec fn is_least<V>(map: Map<u64, V>, f: spec_fn(V) -> u64, wait: Option<u64>) -> bool {
    match wait {
        None => forall|id: u64| !#[trigger] map.contains_key(id),
        Some(w) => {
            &&& exists|id: u64| #[trigger] map.contains_key(id) && f(map[id]) == w
            &&& forall|id: u64| #[trigger] map.contains_key(id) ==> w <= f(map[id])
        },
    }
}

/// Whether a span is the least that `f` gives over some of a map's keys.
spec fn least_so_far<V>(
    map: Map<u64, V>,
    f: spec_fn(V) -> u64,
    seen: Seq<u64>,
    wait: Option<u64>,
) -> bool {
    match wait {
        None => seen.len() == 0,
        Some(w) => {
            &&& exists|i: int|
                0 <= i < seen.len() && map.contains_key(#[trigger] seen[i]) && f(map[seen[i]]) == w
            &&& forall|i: int| 0 <= i < seen.len() ==> w <= f(map[#[trigger] seen[i]])
        },
    }
}

proof fn one_more_seen<V>(
    map: Map<u64, V>,
    f: spec_fn(V) -> u64,
    ids: Seq<u64>,
    k: int,
    wait: Option<u64>,
    left: u64,
)
    requires
        0 <= k < ids.len(),
        least_so_far(map, f, ids.take(k), wait),
        map.contains_key(ids[k]),
        left == f(map[ids[k]]),
    ensures
        least_so_far(map, f, ids.take(k + 1), sooner(wait, Some(left))),
{
    let seen = ids.take(k + 1);
    let w = sooner(wait, Some(left))->0;
    assert(seen[k] == ids[k]);
    assert forall|i: int| 0 <= i < seen.len() implies w <= f(map[#[trigger] seen[i]]) by {
        if i < k {
            assert(seen[i] == ids.take(k)[i]);
        }
    }
    if w != left {
        let i = choose|i: int|
            0 <= i < k && map.contains_key(#[trigger] ids.take(k)[i]) && f(map[ids.take(k)[i]]) == w;
        assert(seen[i] == ids.take(k)[i]);
    }
}

proof fn all_seen<V>(map: Map<u64, V>, f: spec_fn(V) -> u64, ids: Seq<u64>, wait: Option<u64>)
    requires
        forall|id: u64| ids.contains(id) == #[trigger] map.contains_key(id),
        least_so_far(map, f, ids.take(ids.len() as int), wait),
    ensures
        is_least(map, f, wait),
{
    assert(ids.take(ids.len() as int) =~= ids);
    assert forall|id: u64| #[trigger] map.contains_key(id) implies wait is Some && wait->0 <= f(
        map[id],
    ) by {
        let i = choose|i: int| 0 <= i < ids.len() && ids[i] == id;
        assert(wait is Some);
        assert(wait->0 <= f(map[ids[i]]));
    }
}

/// How long the socket may block, given how long it is until each thing worth
/// waking for.
pub open spec fn waking(
    retransmit: Option<u64>,
    handshake: Option<u64>,
    keepalive: Option<u64>,
    liveness: Option<u64>,
    deadline: Option<u64>,
    now: u64,
) -> Option<u64> {
    let left = match deadline {
        Some(d) => Some(until(d, now)),
        None => None,
    };
    match sooner(sooner(sooner(sooner(retransmit, handshake), left), keepalive), liveness) {
        Some(w) => Some(blocking(w)),
        None => None,
    }
}

/// What is reported when the message that had to be split finishes.
pub open spec fn ending(peer: PeerId, finished: Option<Finished>) -> Seq<Event> {
    match finished {
        Some(f) => seq![Event::Sent { peer, delivered: f.delivered }],
        None => Seq::empty(),
    }
}

/// Whether a sleep ends by the time something is due in `left`: then, or within the
/// millisecond that is the least a socket can be told.
pub open spec fn no_later(sleep: u64, left: int) -> bool {
    sleep <= left || sleep <= 1_000_000
}

/// The first read of a pass never sleeps past anything that is due, nor wakes for
/// nothing: it ends with the first of the retransmission, the caller's deadline,
/// every handshake's next attempt, every peer's keep-alive and every peer's timeout;
/// and it has no end only where there is none of these.
pub proof fn the_first_read_sleeps_until_the_first_thing_due(
    endpoint: Endpoint,
    retransmit: Option<u64>,
    handshake: Option<u64>,
    keepalive: Option<u64>,
    liveness: Option<u64>,
    deadline: Option<u64>,
    now: u64,
)
    requires
        endpoint.handshake_in(now, handshake),
        endpoint.keepalive_in(now, keepalive),
        endpoint.liveness_in(now, liveness),
    ensures
        ({
            let timeout = waking(retransmit, handshake, keepalive, liveness, deadline, now);
            let peers = endpoint.table.peers@;
            let outbound = endpoint.outbound@;
            &&& timeout matches Some(t) ==> t >= 1_000_000
            &&& retransmit matches Some(w) ==> timeout is Some && no_later(timeout->0, w as int)
            &&& deadline matches Some(d) ==> timeout is Some && no_later(timeout->0, d - now)
            &&& endpoint.peer_timeout matches Some(limit) ==> forall|id: u64| #[trigger]
                peers.contains_key(id) ==> timeout is Some && no_later(
                    timeout->0,
                    peers[id].last_heard + limit - now,
                )
            &&& endpoint.keepalive matches Some(every) ==> forall|id: u64| #[trigger]
                peers.contains_key(id) ==> timeout is Some && no_later(
                    timeout->0,
                    peers[id].last_sent + every - now,
                )
            &&& forall|id: u64| #[trigger]
                outbound.contains_key(id) ==> timeout is Some && no_later(
                    timeout->0,
                    outbound[id].next_attempt - now,
                )
            &&& timeout is None <==> {
                &&& retransmit is None
                &&& deadline is None
                &&& forall|id: u64| !#[trigger] outbound.contains_key(id)
                &&& endpoint.peer_timeout is Some || endpoint.keepalive is Some ==> forall|id: u64|
                    !#[trigger] peers.contains_key(id)
            }
            &&& timeout matches Some(t) ==> {
                ||| t == 1_000_000
                ||| retransmit == Some(t)
                ||| deadline matches Some(d) && t == d - now
                ||| exists|id: u64| #[trigger]
                    outbound.contains_key(id) && t == outbound[id].next_attempt - now
                ||| endpoint.peer_timeout matches Some(limit) && exists|id: u64| #[trigger]
                    peers.contains_key(id) && t == after(peers[id].last_heard, limit) - now
                ||| endpoint.keepalive matches Some(every) && exists|id: u64| #[trigger]
                    peers.contains_key(id) && t == after(peers[id].last_sent, every) - now
            }
        }),
{
    let timeout = waking(retransmit, handshake, keepalive, liveness, deadline, now);
    let peers = endpoint.table.peers@;
    let outbound = endpoint.outbound@;
    if let Some(w) = handshake {
        let id = choose|id: u64| #[trigger]
            outbound.contains_key(id) && until(outbound[id].next_attempt, now) == w;
        assert(outbound.contains_key(id));
    }
    if let Some(every) = endpoint.keepalive {
        if let Some(w) = keepalive {
            let id = choose|id: u64| #[trigger]
                peers.contains_key(id) && until(after(peers[id].last_sent, every), now) == w;
            assert(peers.contains_key(id));
        }
    }
    if let Some(limit) = endpoint.peer_timeout {
        if let Some(w) = liveness {
            let id = choose|id: u64| #[trigger]
                peers.contains_key(id) && until(after(peers[id].last_heard, limit), now) == w;
            assert(peers.contains_key(id));
        }
    }
}

/// A peer is overdue exactly where as long as the limit has passed since it was last
/// heard from, a keep-alive is due exactly to a peer that has spoken and that nothing
/// was sent to for as long as the interval, and a handshake exactly once its moment
/// has come.
pub proof fn what_is_due_when(
    peers: Map<u64, PeerEntry>,
    outbound: Map<u64, Outbound>,
    id: u64,
    span: u64,
    now: u64,
)
    requires
        span > 0,
    ensures
        is_overdue(peers, id, span, now) <==> peers.contains_key(id) && now - peers[id].last_heard
            >= span,
        is_quiet(peers, id, span, now) <==> peers.contains_key(id) && peers[id].spoke && now
            - peers[id].last_sent >= span,
        is_due(outbound, id, now) <==> outbound.contains_key(id) && outbound[id].next_attempt
            <= now,
{
}

/// A silent peer is released once it has been silent for as long as the limit, and
/// is reported lost; one that has been heard from since is not, and stays as it was.
/// Nothing else about an endpoint changes, and what was to be reported before still
/// is, first.
pub proof fn the_silent_are_released_and_reported(
    before: Endpoint,
    after: Endpoint,
    now: u64,
    id: u64,
)
    requires
        before.wf(),
        before.releases(&after, now),
        before.table.peers@.contains_key(id),
    ensures
        ({
            let gone = before.peer_timeout matches Some(limit) && now
                - before.table.peers@[id].last_heard >= limit;
            &&& after.table.peers@.contains_key(id) <==> !gone
            &&& !gone ==> after.table.peers@[id] == before.table.peers@[id]
            &&& before.events@.len() <= after.events@.len()
            &&& after.events@.take(before.events@.len() as int) == before.events@
            &&& gone <==> exists|k: int|
                before.events@.len() <= k < after.events@.len() && #[trigger] after.events@[k] == (
                Event::PeerLost { peer: PeerId(id) })
            &&& forall|k: int|
                before.events@.len() <= k < after.events@.len() ==> (#[trigger] after.events@[k]
                    matches Event::PeerLost { peer } && before.table.peers@.contains_key(peer.0))
        }),
{
    match before.peer_timeout {
        None => {
            assert(after.events@.take(before.events@.len() as int) =~= before.events@);
        },
        Some(limit) => {
            let lost = choose|lost: Seq<u64>|
                ascending(lost) && (forall|other: u64| #[trigger]
                    lost.contains(other) == is_overdue(before.table.peers@, other, limit, now))
                    && after.table@ == before.table@.all_removed(lost) && after.events@
                    == before.events@ + #[trigger] losses(lost);
            all_removed_leaves_the_rest(before.table@, lost);
            assert(after.table.peers@.contains_key(id) == before.table@.all_removed(
                lost,
            ).peers.contains_key(id));
            let told = before.events@.len() as int;
            assert(after.events@.take(told) =~= before.events@);
            assert(lost.contains(id) == is_overdue(before.table.peers@, id, limit, now));
            if lost.contains(id) {
                let k = choose|k: int| 0 <= k < lost.len() && lost[k] == id;
                assert(after.events@[told + k] == losses(lost)[k]);
            }
            assert forall|k: int| told <= k < after.events@.len() implies (
            #[trigger] after.events@[k] matches Event::PeerLost { peer } && lost.contains(peer.0)) by {
                assert(after.events@[k] == losses(lost)[k - told]);
                assert(lost[k - told] == lost[k - told]);
            }
            assert forall|k: int| told <= k < after.events@.len() implies (
            #[trigger] after.events@[k] matches Event::PeerLost { peer }
                && before.table.peers@.contains_key(peer.0)) by {
                let peer = after.events@[k]->PeerLost_peer;
                assert(lost.contains(peer.0) == is_overdue(
                    before.table.peers@,
                    peer.0,
                    limit,
                    now,
                ));
            }
        },
    }
}

/// A reliable message goes out at once where one frame carries it, is queued in
/// pieces where it takes more, and is refused only where the peer does not
/// acknowledge, where as many are queued as may be, or where it is longer than a
/// message may be or takes more pieces than there may be. Nothing but queueing it
/// changes anything.
pub proof fn how_a_reliable_message_goes_out(
    before: Peer,
    after: Peer,
    data: Seq<u8>,
    payload_type: PayloadType,
    limit: nat,
    route: Result<Route, Error>,
)
    requires
        data.len() <= usize::MAX,
        takes_reliable(&before, &after, data, payload_type, limit, route),
    ensures
        ({
            let acknowledges = before.link.capabilities.reliable;
            let one = data.len() <= room(before.link, limit, true, false);
            let stride = room(before.link, limit, true, true);
            let cut = data.len() <= 1_048_576 && stride > 0 && data.len() <= 4096 * stride;
            let space = before.queue@.len() < 4;
            &&& route == Ok::<Route, Error>(Route::OneFrame) <==> acknowledges && one
            &&& route == Ok::<Route, Error>(Route::Queued) <==> acknowledges && !one && space && cut
            &&& route == Err::<Route, Error>(Error::ReliabilityUnsupported) <==> !acknowledges
            &&& route == Err::<Route, Error>(Error::Protocol(ProtocolError::WindowFull)) <==> acknowledges
                && !one && !space
            &&& acknowledges && !one && space && !cut ==> route == Err::<Route, Error>(
                Error::PayloadTooLarge { len: data.len() as usize, limit: 1_048_576 },
            )
            &&& route != Ok::<Route, Error>(Route::Queued) ==> after == before
            &&& route == Ok::<Route, Error>(Route::Queued) ==> after.queue@.len()
                == before.queue@.len() + 1 && after.queue@.last().data@ == data
                && after.queue@.last().payload_type == payload_type
                && after.queue@.last().per_fragment == stride && after.queue@.last().message
                == before.next_message && after.pending@ == before.pending@
        }),
{
    let stride = room(before.link, limit, true, true);
    if stride > 0 {
        crate::fragment::a_message_is_cut_into_as_few_pieces_as_carry_it(data.len(), stride, 1);
    }
}

/// An opening frame that is sent again is waited for a step longer each time: that
/// many steps of its path as it has been sent.
pub proof fn an_opening_frame_is_sent_again_ever_later(o: Outbound, now: u64)
    requires
        o.attempts < 255,
        now + o.step * (o.attempts + 1) <= u64::MAX,
    ensures
        sent_again(o, now).attempts == o.attempts + 1,
        sent_again(o, now).next_attempt == now + o.step * (o.attempts + 1),
        sent_again(o, now) == (Outbound {
            attempts: sent_again(o, now).attempts,
            next_attempt: sent_again(o, now).next_attempt,
            ..o
        }),
{
}

/// How the sending of messages is reported: one that had to be split with how it
/// ended, and each that did not have to be and was given up on as one not delivered.
pub proof fn how_sending_is_reported(peer: PeerId, finished: Option<Finished>, count: nat, k: int)
    ensures
        finished is None ==> ending(peer, finished).len() == 0,
        finished matches Some(f) ==> ending(peer, finished).len() == 1 && ending(peer, finished)[0]
            == (Event::Sent { peer, delivered: f.delivered }),
        failures(peer, count).len() == count,
        0 <= k < count ==> failures(peer, count)[k] == (Event::Sent { peer, delivered: false }),
{
}

/// When something about a session next falls due: its keep-alive, counted from when
/// it was last sent to and only once it has spoken, or its timeout, counted from when
/// it was last heard from; whichever comes first.
pub proof fn what_is_due_about_a_session(
    entry: PeerEntry,
    keepalive: Option<u64>,
    peer_timeout: Option<u64>,
)
    requires
        keepalive matches Some(every) ==> entry.last_sent + every <= u64::MAX,
        peer_timeout matches Some(limit) ==> entry.last_heard + limit <= u64::MAX,
    ensures
        ({
            let due = entry_due(entry, keepalive, peer_timeout);
            &&& due is None <==> peer_timeout is None && (keepalive is None || !entry.spoke)
            &&& peer_timeout matches Some(limit) ==> due->0 <= entry.last_heard + limit
            &&& keepalive matches Some(every) ==> (entry.spoke ==> due->0 <= entry.last_sent + every)
            &&& due matches Some(at) ==> (peer_timeout matches Some(limit) && at == entry.last_heard
                + limit) || (keepalive matches Some(every) && entry.spoke && at == entry.last_sent
                + every)
        }),
{
}

/// No handshake is sent again or given up on before its moment, and none is passed
/// over once it has come. Its opening frame goes out again as it was, to where it
/// went, and is next due later; and it is given up on only once it was sent four times
/// and two and a half seconds have passed. The other handshakes are left alone.
pub proof fn a_handshake_is_retried_when_it_is_due(
    before: Endpoint,
    after: Endpoint,
    now: u64,
    step: Handshaking,
    other: u64,
)
    requires
        before.retries(&after, now, step),
    ensures
        step is Settled ==> (before.outbound@.contains_key(other)
            ==> before.outbound@[other].next_attempt > now) && after.outbound == before.outbound,
        step matches Handshaking::Resend { peer, to, frame } ==> {
            let was = before.outbound@[peer.0];
            &&& before.outbound@.contains_key(peer.0)
            &&& was.next_attempt <= now
            &&& to == was.addr
            &&& frame@ == was.frame@
            &&& was.attempts < 4 || now - was.started < 2_500_000_000
            &&& after.outbound@.contains_key(peer.0)
            &&& after.outbound@[peer.0].addr == was.addr && after.outbound@[peer.0].session_id
                == was.session_id && after.outbound@[peer.0].frame == was.frame
                && after.outbound@[peer.0].started == was.started
            &&& was.attempts < 255 ==> after.outbound@[peer.0].attempts == was.attempts + 1
            &&& after.outbound@[peer.0].next_attempt >= now
        },
        step matches Handshaking::Failed(peer) ==> {
            let was = before.outbound@[peer.0];
            &&& before.outbound@.contains_key(peer.0)
            &&& was.next_attempt <= now
            &&& was.attempts >= 4 && now - was.started >= 2_500_000_000
            &&& !after.outbound@.contains_key(peer.0)
        },
        step matches Handshaking::Resend { peer, .. } ==> (other != peer.0
            ==> after.outbound@.contains_key(other) == before.outbound@.contains_key(other) && (
        before.outbound@.contains_key(other) ==> after.outbound@[other]
            == before.outbound@[other])),
        step matches Handshaking::Failed(peer) ==> (other != peer.0 ==> after.outbound@.contains_key(
            other,
        ) == before.outbound@.contains_key(other) && (before.outbound@.contains_key(other)
            ==> after.outbound@[other] == before.outbound@[other])),
{
    assert(is_due(before.outbound@, other, now) == (before.outbound@.contains_key(other)
        && before.outbound@[other].next_attempt <= now));
}

} // verus!
