//! What an endpoint does with a datagram: whose it is, whether it is worth
//! answering, and what it says about where a peer has gone.

use vstd::prelude::*;

use crate::buffer::copy_of;
use crate::clock::elapsed;
use crate::endpoint::{
    restrained, Endpoint, Established, Event, Mode, HANDSHAKE_REPLIES, MAX_CANDIDATES, PATH_PROBES,
    PROBE_INTERVAL, PROBE_TIMEOUT,
};
use crate::drive::the_silent_are_released_and_reported;
use crate::error::{Error, IoKind};
use crate::ingest::Step;
use crate::keys::{ascending, sorted_keys};
use crate::random::random_token;
use crate::schedule::{measured, Outbound};
use crate::table::{
    a_frame_goes_to_the_session_on_its_address_and_identifier, consistent, displaced_by, moving_a_session_disturbs_nobody_else, relocated, routed, sharing,
    Address, PeerEntry, PeerId, Probe, Reply,
};

verus! {

broadcast use vstd::laws_cmp::group_laws_cmp;

/// What a frame's header says it is, as far as it decides where the frame goes.
#[derive(Debug, Clone, Copy, PartialEq, Eq, Structural)]
pub enum FrameKind {
    /// Opens a full handshake.
    HandshakeInit,
    /// Answers one.
    HandshakeResponse,
    /// Opens a resumption.
    ResumeInit,
    /// Answers one.
    ResumeResponse,
    /// Belongs to a session.
    Session,
}

impl FrameKind {
    /// Whether it opens a handshake.
    pub open spec fn opens(self) -> bool {
        self == FrameKind::HandshakeInit || self == FrameKind::ResumeInit
    }

    /// Whether it answers one.
    pub open spec fn answers(self) -> bool {
        self == FrameKind::HandshakeResponse || self == FrameKind::ResumeResponse
    }
}

/// What is to be done with a datagram.
pub enum Action {
    /// Nothing.
    Ignore,
    /// Send this peer's response again to where the datagram came from.
    Resend {
        /// Whose response it is.
        peer: PeerId,
        /// The response.
        reply: Vec<u8>,
    },
    /// Answer a full handshake.
    AcceptFull,
    /// Answer a resumption.
    AcceptResumed,
    /// Finish the handshake that this answers.
    Complete(PeerId, Outbound),
    /// Hand it to the session that is on the address it came from.
    Deliver(PeerId),
    /// Try it against the sessions that wear its identifier.
    Search,
}

/// Whether a handshake under way awaits an answer from an address.
pub open spec fn awaits(
    outbound: Map<u64, Outbound>,
    id: u64,
    addr: Address,
    session_id: u32,
) -> bool {
    outbound.contains_key(id) && outbound[id].addr == addr && outbound[id].session_id == session_id
}

/// Whether a handshake is the one that an answer belongs to: the first started
/// of those that await it.
pub open spec fn is_awaited(
    outbound: Map<u64, Outbound>,
    id: u64,
    addr: Address,
    session_id: u32,
) -> bool {
    &&& awaits(outbound, id, addr, session_id)
    &&& forall|other: u64| #[trigger] awaits(outbound, other, addr, session_id) ==> id <= other
}

/// The handshake that an answer belongs to, if there is one.
pub open spec fn awaited(outbound: Map<u64, Outbound>, addr: Address, session_id: u32) -> Option<
    u64,
> {
    if exists|id: u64| is_awaited(outbound, id, addr, session_id) {
        Some(choose|id: u64| is_awaited(outbound, id, addr, session_id))
    } else {
        None
    }
}

/// What is kept of a response once it has been sent again.
pub open spec fn reply_left(reply: Option<Reply>) -> Option<u8> {
    match reply {
        Some(r) if r.left > 1 => Some((r.left - 1) as u8),
        _ => None,
    }
}

/// Whether one entry is another whose response has been sent again.
pub open spec fn replied(before: PeerEntry, after: PeerEntry) -> bool {
    &&& after == (PeerEntry { handshake_reply: after.handshake_reply, ..before })
    &&& after.handshake_reply is Some == reply_left(before.handshake_reply) is Some
    &&& after.handshake_reply matches Some(r) ==> Some(r.left) == reply_left(before.handshake_reply)
        && r.bytes@ == before.handshake_reply->0.bytes@
}

/// What is to be done with an opening frame of a session that is on file: its
/// response is sent again where it is still held, and nothing is done otherwise.
pub open spec fn repeats(peer: PeerId, held: Option<Reply>, action: Action) -> bool {
    match held {
        Some(reply) => action matches Action::Resend { peer: whose, reply: bytes } && whose == peer
            && bytes@ == reply.bytes@,
        None => action is Ignore,
    }
}

/// What to do about an unproved address.
#[derive(Debug, Clone, Copy, PartialEq, Eq, Structural)]
pub enum Ask {
    /// Nothing for now.
    Hold,
    /// Send the same challenge once more.
    Repeat,
    /// Send a new challenge.
    Fresh,
}

/// What to do about an unproved address that a frame has just come from.
///
/// A different address supersedes whatever was under test. An attempt that has
/// aged out starts over: challenges lost in a row are a bad minute on a path,
/// not proof that nobody is there.
pub open spec fn ask_for(probe: Option<Probe>, addr: Address, now: u64) -> Ask {
    match probe {
        Some(p) if p.addr == addr => if elapsed(p.started, now) > PROBE_TIMEOUT {
            Ask::Fresh
        } else if p.sent >= PATH_PROBES || elapsed(p.last, now) < PROBE_INTERVAL {
            Ask::Hold
        } else {
            Ask::Repeat
        },
        _ => Ask::Fresh,
    }
}

/// The address under test once it is decided whether to ask it, with this token
/// if it is asked afresh. The challenge does not count until it is sealed.
pub open spec fn probed(probe: Option<Probe>, addr: Address, now: u64, token: u64) -> Option<Probe> {
    match ask_for(probe, addr, now) {
        Ask::Fresh => Some(Probe { addr, token, sent: 0, last: now, started: now }),
        _ => probe,
    }
}

/// The address under test once a challenge to it has been sealed. A challenge
/// that is not the one under test, or one too many, counts for nothing.
pub open spec fn sealed(probe: Option<Probe>, challenge: Challenge, now: u64) -> Option<Probe> {
    match probe {
        Some(p) if p.addr == challenge.to && p.token == challenge.token && p.sent < PATH_PROBES => Some(
            Probe { sent: (p.sent + 1) as u8, last: now, ..p },
        ),
        _ => probe,
    }
}

/// The challenge that goes out, if one does.
pub open spec fn challenged(probe: Option<Probe>, addr: Address, now: u64, token: u64) -> Option<
    Challenge,
> {
    match ask_for(probe, addr, now) {
        Ask::Hold => None,
        Ask::Repeat => Some(Challenge { to: addr, token: probe->0.token }),
        Ask::Fresh => Some(Challenge { to: addr, token }),
    }
}

/// A challenge on its way out.
#[derive(Debug, Clone, Copy, PartialEq, Eq, Structural)]
pub struct Challenge {
    /// Where it goes.
    pub to: Address,
    /// What the answer has to carry.
    pub token: u64,
}

/// What is owed for a frame that was handed to a session.
pub enum Heard {
    /// The frame is not to be credited to anyone.
    Rejected,
    /// Nothing is to be sent. What the frame carries is to be delivered.
    Quiet,
    /// The reply to the frame is to be sent to where it came from. What the
    /// frame carries is to be delivered.
    Reply,
    /// This challenge is to be sent, and no reply. What the frame carries is to
    /// be delivered.
    Challenge(Challenge),
    /// The session has moved, which is to be reported.
    Moved(Event),
}

/// The search for the session that a frame from an unknown address belongs to.
#[derive(Debug, Clone, Copy, PartialEq, Eq, Structural)]
pub struct Search {
    /// The identifier on the frame.
    pub session_id: u32,
    /// How many sessions have been looked at.
    pub at: usize,
}

/// Whether a frame asks for something to be sent back.
pub open spec fn owes_reply(step: Step) -> bool {
    match step {
        Step::AnswerChallenge(_) => true,
        _ => crate::ingest::owes_ack(step),
    }
}

/// Whether a frame asks for something to be sent back.
fn wants_reply(step: Step) -> (wants: bool)
    ensures
        wants == owes_reply(step),
{
    match step {
        Step::AnswerChallenge(_) => true,
        Step::Duplicate => true,
        Step::Piece { ack, .. } => ack,
        Step::Whole { ack, .. } => ack,
        _ => false,
    }
}

/// What to do about an unproved address.
fn ask(probe: Option<Probe>, addr: Address, now: u64) -> (ask: Ask)
    ensures
        ask == ask_for(probe, addr, now),
{
    match probe {
        Some(p) => {
            if p.addr != addr || now.saturating_sub(p.started) > PROBE_TIMEOUT {
                Ask::Fresh
            } else if p.sent >= PATH_PROBES || now.saturating_sub(p.last) < PROBE_INTERVAL {
                Ask::Hold
            } else {
                Ask::Repeat
            }
        },
        None => Ask::Fresh,
    }
}

/// What is on file about a session once something of it has authenticated.
pub open spec fn heard_from(entry: PeerEntry, now: u64) -> PeerEntry {
    PeerEntry { spoke: true, last_heard: now, handshake_reply: None, ..entry }
}

/// Whether an answer to a challenge is the one awaited: from the address that was
/// asked, carrying the token that it was asked with.
pub open spec fn settles(entry: PeerEntry, from: Address, token: u64) -> bool {
    entry.probe matches Some(p) && p.addr == from && p.token == token
}

impl Endpoint {
    /// The handshake that an answer belongs to, if there is one.
    fn find_awaited(&self, from: Address, session_id: u32) -> (found: Option<u64>)
        ensures
            found == awaited(self.outbound@, from, session_id),
            found matches Some(id) ==> is_awaited(self.outbound@, id, from, session_id),
    {
        let ids = sorted_keys(&self.outbound);
        let mut k: usize = 0;
        while k < ids.len()
            invariant
                ascending(ids@),
                forall|id: u64| ids@.contains(id) == #[trigger] self.outbound@.contains_key(id),
                k <= ids@.len(),
                forall|j: int|
                    0 <= j < k ==> !awaits(self.outbound@, #[trigger] ids@[j], from, session_id),
            decreases ids@.len() - k,
        {
            let id: u64 = ids[k];
            proof {
                assert(ids@.contains(id));
            }
            if let Some(o) = self.outbound.get(&id) {
                if o.addr == from && o.session_id == session_id {
                    proof {
                        assert forall|other: u64| #[trigger]
                            awaits(self.outbound@, other, from, session_id) implies id <= other by {
                            assert(self.outbound@.contains_key(other));
                            assert(ids@.contains(other));
                            let j = choose|j: int| 0 <= j < ids@.len() && ids@[j] == other;
                            assert(!(j < k));
                        }
                        assert(is_awaited(self.outbound@, id, from, session_id));
                        let other = choose|other: u64|
                            is_awaited(self.outbound@, other, from, session_id);
                        assert(awaits(self.outbound@, other, from, session_id));
                        assert(awaits(self.outbound@, id, from, session_id));
                    }
                    return Some(id);
                }
            }
            k += 1;
        }
        proof {
            assert forall|id: u64| !is_awaited(self.outbound@, id, from, session_id) by {
                if is_awaited(self.outbound@, id, from, session_id) {
                    assert(self.outbound@.contains_key(id));
                    assert(ids@.contains(id));
                    let j = choose|j: int| 0 <= j < ids@.len() && ids@[j] == id;
                    assert(!awaits(self.outbound@, ids@[j], from, session_id));
                }
            }
        }
        None
    }

    /// Answers a repeated opening frame without performing the handshake again,
    /// where it is one: `None` where it is not.
    ///
    /// The response, where it is still held, is to be sent again, which counts
    /// once it has been ([`Endpoint::reply_resent`]); otherwise there is nothing
    /// more to do with the frame. Handshaking twice for the same address and
    /// identifier would let one captured frame cut off the session that it names.
    pub fn repeat_handshake(&self, from: Address, session_id: u32) -> (repeat: Option<Action>)
        requires
            self.wf(),
        ensures
            match routed(self.table.peers@, from, session_id) {
                None => repeat is None,
                Some(id) => repeat matches Some(action) && repeats(
                    PeerId(id),
                    self.table.peers@[id].handshake_reply,
                    action,
                ),
            },
    {
        let id: u64 = match self.table.route(from, session_id) {
            Some(id) => id,
            None => {
                return None;
            },
        };
        match self.table.get(id) {
            Some(entry) => match &entry.handshake_reply {
                Some(held) => Some(
                    Action::Resend { peer: PeerId(id), reply: copy_of(held.bytes.as_slice()) },
                ),
                None => Some(Action::Ignore),
            },
            None => None,
        }
    }

    /// Records that a peer's response has been sent again, which it may be only
    /// so often.
    pub fn reply_resent(&mut self, peer: PeerId)
        requires
            old(self).wf(),
        ensures
            final(self).wf(),
            *final(self) == (Endpoint { table: final(self).table, ..*old(self) }),
            if old(self).table.peers@.contains_key(peer.0) {
                let after = final(self).table.peers@[peer.0];
                &&& final(self).table@ == old(self).table@.changed(peer.0, after)
                &&& replied(old(self).table.peers@[peer.0], after)
            } else {
                final(self).table@ == old(self).table@
            },
    {
        let ghost before = self.table@;
        if let Some(entry) = self.table.entry(peer.0) {
            let held = entry.handshake_reply.take();
            if let Some(reply) = held {
                if reply.left > 1 {
                    entry.handshake_reply = Some(Reply { bytes: reply.bytes, left: reply.left - 1 });
                }
            }
        }
        proof {
            assert forall|other: u64| #[trigger]
                self.table.peers@.contains_key(other) implies other < self.next_id && restrained(
                self.table.peers@[other],
            ) by {
                assert(before.peers.contains_key(other));
            }
        }
    }

    /// What is to be done with a datagram, and what deciding that leaves.
    pub open spec fn dispatches(
        &self,
        after: &Endpoint,
        header: Option<(FrameKind, u32)>,
        from: Address,
        now: u64,
        action: Action,
    ) -> bool {
        match header {
            None => action is Ignore && *after == *self,
            Some((kind, session_id)) => {
                let route = routed(self.table.peers@, from, session_id);
                if kind.opens() && route is Some {
                    let id = route->0;
                    &&& *after == *self
                    &&& repeats(
                        PeerId(id),
                        self.table.peers@[id].handshake_reply,
                        action,
                    )
                } else if kind.opens() {
                    &&& *after == (Endpoint {
                        handshakes: self.handshakes.asked(now),
                        ..*self
                    })
                    &&& action == (if !self.handshakes.grants(now) {
                        Action::Ignore
                    } else if kind == FrameKind::ResumeInit {
                        Action::AcceptResumed
                    } else if self.mode is PublicKey {
                        Action::AcceptFull
                    } else {
                        Action::Ignore
                    })
                } else if kind.answers() {
                    match awaited(self.outbound@, from, session_id) {
                        None => action is Ignore && *after == *self,
                        Some(id) => {
                            &&& action == Action::Complete(
                                PeerId(id),
                                self.outbound@[id],
                            )
                            &&& after.is_free(id)
                            &&& *after == (Endpoint {
                                outbound: after.outbound,
                                ..*self
                            })
                            &&& after.outbound@ == self.outbound@.remove(id)
                        },
                    }
                } else {
                    &&& *after == *self
                    &&& action == (match route {
                        Some(id) => Action::Deliver(PeerId(id)),
                        None => Action::Search,
                    })
                }
            },
        }
    }

    /// Decides what is to be done with a datagram, given what its header says,
    /// if it has a header at all.
    ///
    /// Answering a new handshake is the work that a stranger can ask for, so it
    /// is done within a budget. Frames of sessions already established, and
    /// answers to handshakes started here, are not counted against it.
    pub fn dispatch(&mut self, header: Option<(FrameKind, u32)>, from: Address, now: u64) -> (action:
        Action)
        requires
            old(self).wf(),
        ensures
            final(self).wf(),
            match header {
                None => action is Ignore && *final(self) == *old(self),
                Some((kind, session_id)) => {
                    let route = routed(old(self).table.peers@, from, session_id);
                    if kind.opens() && route is Some {
                        let id = route->0;
                        &&& *final(self) == *old(self)
                        &&& repeats(
                            PeerId(id),
                            old(self).table.peers@[id].handshake_reply,
                            action,
                        )
                    } else if kind.opens() {
                        &&& *final(self) == (Endpoint {
                            handshakes: old(self).handshakes.asked(now),
                            ..*old(self)
                        })
                        &&& action == (if !old(self).handshakes.grants(now) {
                            Action::Ignore
                        } else if kind == FrameKind::ResumeInit {
                            Action::AcceptResumed
                        } else if old(self).mode is PublicKey {
                            Action::AcceptFull
                        } else {
                            Action::Ignore
                        })
                    } else if kind.answers() {
                        match awaited(old(self).outbound@, from, session_id) {
                            None => action is Ignore && *final(self) == *old(self),
                            Some(id) => {
                                &&& action == Action::Complete(
                                    PeerId(id),
                                    old(self).outbound@[id],
                                )
                                &&& final(self).is_free(id)
                                &&& *final(self) == (Endpoint {
                                    outbound: final(self).outbound,
                                    ..*old(self)
                                })
                                &&& final(self).outbound@ == old(self).outbound@.remove(id)
                            },
                        }
                    } else {
                        &&& *final(self) == *old(self)
                        &&& action == (match route {
                            Some(id) => Action::Deliver(PeerId(id)),
                            None => Action::Search,
                        })
                    }
                },
            },
            old(self).dispatches(final(self), header, from, now, action),
    {
        let (kind, session_id): (FrameKind, u32) = match header {
            Some(header) => header,
            None => {
                return Action::Ignore;
            },
        };
        if kind == FrameKind::HandshakeInit || kind == FrameKind::ResumeInit {
            if let Some(repeat) = self.repeat_handshake(from, session_id) {
                return repeat;
            }
            if !self.handshakes.spend(now) {
                return Action::Ignore;
            }
            if kind == FrameKind::ResumeInit {
                return Action::AcceptResumed;
            }
            // A full handshake aimed at an endpoint that has only a shared
            // secret has nobody here to answer it.
            return match &self.mode {
                Mode::PublicKey(_) => Action::AcceptFull,
                Mode::Psk(_) => Action::Ignore,
            };
        }
        if kind == FrameKind::HandshakeResponse || kind == FrameKind::ResumeResponse {
            return match self.find_awaited(from, session_id) {
                None => Action::Ignore,
                Some(id) => match self.outbound.remove(&id) {
                    Some(outbound) => Action::Complete(PeerId(id), outbound),
                    None => Action::Ignore,
                },
            };
        }
        match self.table.route(from, session_id) {
            Some(id) => Action::Deliver(PeerId(id)),
            None => Action::Search,
        }
    }

    /// Finishes a handshake that this endpoint started.
    ///
    /// `outcome` is what reading the answer gave, if it authenticated. An answer
    /// that did not ends the attempt all the same. A first attempt that was
    /// answered measures the path.
    pub fn complete_outbound(
        &mut self,
        peer: PeerId,
        outbound: Outbound,
        outcome: Option<Established>,
        ceiling: usize,
        now: u64,
    ) -> (event: Event)
        requires
            old(self).wf(),
            old(self).is_free(peer.0),
        ensures
            final(self).wf(),
            match outcome {
                None => event == (Event::ConnectFailed { peer }) && *final(self) == *old(self),
                Some(established) => {
                    &&& *final(self) == (Endpoint {
                        tickets: final(self).tickets,
                        table: final(self).table,
                        paths: final(self).paths,
                        ..*old(self)
                    })
                    &&& final(self).paths.known@ == (if outbound.attempts == 1 {
                        measured(
                            old(self).paths.known@,
                            outbound.addr,
                            elapsed(outbound.started, now),
                        )
                    } else {
                        old(self).paths.known@
                    })
                    &&& old(self).registers(
                        final(self),
                        peer.0,
                        established,
                        outbound.addr,
                        None,
                        ceiling,
                        now,
                    )
                    &&& event == (Event::Connected {
                        peer,
                        zero_rtt: established.zero_rtt,
                        resumed: established.resumed,
                        initiated: true,
                    })
                },
            },
    {
        match outcome {
            None => Event::ConnectFailed { peer },
            Some(established) => {
                if outbound.attempts == 1 {
                    self.paths.observe(outbound.addr, now.saturating_sub(outbound.started));
                }
                self.register_as(peer, established, outbound.addr, true, ceiling, now)
            },
        }
    }

    /// Which session a frame from an unknown address is tried against next, and what
    /// that costs.
    pub open spec fn tries(
        &self,
        after: &Endpoint,
        search: Search,
        after_search: Search,
        now: u64,
        candidate: Option<PeerId>,
    ) -> bool {
        let all = sharing(self.table.index(), search.session_id);
        if search.at >= MAX_CANDIDATES || search.at >= all.len() {
            &&& candidate is None
            &&& *after == *self
            &&& after_search == search
        } else {
            &&& *after == (Endpoint {
                migrations: self.migrations.asked(now),
                ..*self
            })
            &&& after_search == (Search {
                at: (search.at + 1) as usize,
                ..search
            })
            &&& candidate == (if self.migrations.grants(now) {
                Some(PeerId(all[search.at as int]))
            } else {
                None
            })
        }
    }

    /// The next session to try a frame from an unknown address against, if there
    /// is one left to try and the budget allows it.
    ///
    /// Every try is an authentication attempt, bought by a frame that has
    /// authenticated to nothing, so each one is paid for and there are only so
    /// many for one frame.
    pub fn next_candidate(&mut self, search: &mut Search, now: u64) -> (candidate: Option<PeerId>)
        requires
            old(self).wf(),
        ensures
            final(self).wf(),
            ({
                let all = sharing(old(self).table.index(), old(search).session_id);
                if old(search).at >= MAX_CANDIDATES || old(search).at >= all.len() {
                    &&& candidate is None
                    &&& *final(self) == *old(self)
                    &&& *final(search) == *old(search)
                } else {
                    &&& *final(self) == (Endpoint {
                        migrations: old(self).migrations.asked(now),
                        ..*old(self)
                    })
                    &&& *final(search) == (Search {
                        at: (old(search).at + 1) as usize,
                        ..*old(search)
                    })
                    &&& candidate == (if old(self).migrations.grants(now) {
                        Some(PeerId(all[old(search).at as int]))
                    } else {
                        None
                    })
                }
            }),
            old(self).tries(final(self), *old(search), *final(search), now, candidate),
            candidate matches Some(id) ==> old(self).table.peers@.contains_key(id.0)
                && old(self).table.peers@[id.0].session_id == old(search).session_id
                && final(search).at <= MAX_CANDIDATES,
    {
        if search.at >= MAX_CANDIDATES {
            return None;
        }
        match self.table.candidate(search.session_id, search.at) {
            None => None,
            Some(id) => {
                search.at = search.at + 1;
                if self.migrations.spend(now) {
                    Some(PeerId(id))
                } else {
                    None
                }
            },
        }
    }

    /// Whether this session has just been heard from at `from`, which ends the
    /// search.
    pub fn claimed(&self, peer: PeerId, from: Address) -> (claimed: bool)
        ensures
            claimed == (self.table.peers@.contains_key(peer.0) && (
            self.table.peers@[peer.0].addr == from || (self.table.peers@[peer.0].probe matches Some(
                p,
            ) && p.addr == from))),
    {
        match self.table.get(peer.0) {
            None => false,
            Some(entry) => entry.addr == from || match &entry.probe {
                Some(p) => p.addr == from,
                None => false,
            },
        }
    }

    /// Decides whether an address is to be asked to prove that it can receive, with
    /// this token if it is asked afresh. The challenge counts once it is sealed
    /// ([`Endpoint::challenge_sealed`]).
    pub fn probe_with(&mut self, peer: PeerId, addr: Address, now: u64, token: u64) -> (challenge:
        Option<Challenge>)
        requires
            old(self).wf(),
        ensures
            final(self).wf(),
            *final(self) == (Endpoint { table: final(self).table, ..*old(self) }),
            if old(self).table.peers@.contains_key(peer.0) {
                let before = old(self).table.peers@[peer.0];
                &&& challenge == challenged(before.probe, addr, now, token)
                &&& final(self).table@ == old(self).table@.changed(
                    peer.0,
                    (PeerEntry { probe: probed(before.probe, addr, now, token), ..before }),
                )
            } else {
                challenge is None && final(self).table@ == old(self).table@
            },
    {
        let mut challenge: Option<Challenge> = None;
        let ghost before = self.table@;
        if let Some(entry) = self.table.entry(peer.0) {
            match ask(entry.probe, addr, now) {
                Ask::Hold => {},
                Ask::Repeat => {
                    if let Some(p) = entry.probe {
                        challenge = Some(Challenge { to: addr, token: p.token });
                    }
                },
                Ask::Fresh => {
                    entry.probe = Some(Probe { addr, token, sent: 0, last: now, started: now });
                    challenge = Some(Challenge { to: addr, token });
                },
            }
        }
        proof {
            assert forall|other: u64| #[trigger]
                self.table.peers@.contains_key(other) implies other < self.next_id && restrained(
                self.table.peers@[other],
            ) by {
                assert(before.peers.contains_key(other));
            }
        }
        challenge
    }

    /// Records that a challenge has been sealed, and so is on its way.
    pub fn challenge_sealed(&mut self, peer: PeerId, challenge: Challenge, now: u64)
        requires
            old(self).wf(),
        ensures
            final(self).wf(),
            *final(self) == (Endpoint { table: final(self).table, ..*old(self) }),
            final(self).table@ == (if old(self).table.peers@.contains_key(peer.0) {
                let before = old(self).table.peers@[peer.0];
                old(self).table@.changed(
                    peer.0,
                    (PeerEntry { probe: sealed(before.probe, challenge, now), ..before }),
                )
            } else {
                old(self).table@
            }),
    {
        let ghost before = self.table@;
        if let Some(entry) = self.table.entry(peer.0) {
            if let Some(p) = entry.probe {
                if p.addr == challenge.to && p.token == challenge.token && p.sent < PATH_PROBES {
                    entry.probe = Some(
                        Probe {
                            addr: p.addr,
                            token: p.token,
                            sent: p.sent + 1,
                            last: now,
                            started: p.started,
                        },
                    );
                }
            }
        }
        proof {
            assert forall|other: u64| #[trigger]
                self.table.peers@.contains_key(other) implies other < self.next_id && restrained(
                self.table.peers@[other],
            ) by {
                assert(before.peers.contains_key(other));
            }
        }
    }

    /// Decides whether an address is to be asked to prove that it can receive.
    ///
    /// A new challenge carries a token that nobody can guess; which one is
    /// chance, and the operating system may fail to give one.
    pub fn start_probe(&mut self, peer: PeerId, addr: Address, now: u64) -> (challenge: Result<
        Option<Challenge>,
        Error,
    >)
        requires
            old(self).wf(),
        ensures
            final(self).wf(),
            *final(self) == (Endpoint { table: final(self).table, ..*old(self) }),
            match challenge {
                Err(e) => {
                    &&& e == Error::Io(IoKind::Other)
                    &&& old(self).table.peers@.contains_key(peer.0)
                    &&& ask_for(old(self).table.peers@[peer.0].probe, addr, now) == Ask::Fresh
                    &&& final(self).table@ == old(self).table@
                },
                Ok(sent) => if old(self).table.peers@.contains_key(peer.0) {
                    let before = old(self).table.peers@[peer.0];
                    exists|token: u64|
                        sent == #[trigger] challenged(before.probe, addr, now, token)
                            && final(self).table@ == old(self).table@.changed(
                            peer.0,
                            (PeerEntry { probe: probed(before.probe, addr, now, token), ..before }),
                        )
                } else {
                    sent is None && final(self).table@ == old(self).table@
                },
            },
    {
        let fresh = match self.table.get(peer.0) {
            Some(entry) => ask(entry.probe, addr, now) == Ask::Fresh,
            None => false,
        };
        let token: u64 = if fresh {
            match random_token() {
                Ok(token) => token,
                Err(e) => {
                    return Err(e);
                },
            }
        } else {
            0
        };
        Ok(self.probe_with(peer, addr, now, token))
    }

    /// Moves a session to an address that has answered its challenge, and
    /// reports that.
    ///
    /// The answer has to come from the address that was asked, and to carry the
    /// token that it was asked with. A session that stands where this one moves
    /// is released, and that is reported too.
    pub fn settle_probe(&mut self, peer: PeerId, from: Address, token: u64) -> (event: Option<Event>)
        requires
            old(self).wf(),
        ensures
            final(self).wf(),
            *final(self) == (Endpoint {
                table: final(self).table,
                events: final(self).events,
                ..*old(self)
            }),
            ({
                let before = old(self).table.peers@[peer.0];
                if old(self).table.peers@.contains_key(peer.0) && settles(before, from, token) {
                    &&& event == Some(Event::PeerMoved { peer, from: before.addr, to: from })
                    &&& final(self).table@ == relocated(old(self).table@, peer.0, from)
                    &&& final(self).events@ == (match displaced_by(
                        old(self).table.peers@,
                        peer.0,
                        from,
                    ) {
                        Some(other) => old(self).events@.push(
                            Event::PeerLost { peer: PeerId(other) },
                        ),
                        None => old(self).events@,
                    })
                } else {
                    &&& event is None
                    &&& final(self).table == old(self).table
                    &&& final(self).events == old(self).events
                }
            }),
    {
        let previous: Address = match self.table.get(peer.0) {
            None => {
                return None;
            },
            Some(entry) => match entry.probe {
                Some(p) => {
                    if p.addr != from || p.token != token {
                        return None;
                    }
                    entry.addr
                },
                None => {
                    return None;
                },
            },
        };
        let ghost before = self.table@;
        match self.table.relocate(peer.0, from) {
            Some(other) => {
                self.events.push_back(Event::PeerLost { peer: PeerId(other) });
            },
            None => {},
        }
        proof {
            assert forall|other: u64| #[trigger]
                self.table.peers@.contains_key(other) implies other < self.next_id && restrained(
                self.table.peers@[other],
            ) by {
                assert(before.peers.contains_key(other));
            }
            assert forall|other: u64| #[trigger]
                self.outbound@.contains_key(other) implies !self.table.peers@.contains_key(other) by {
                assert(!before.peers.contains_key(other));
            }
        }
        Some(Event::PeerMoved { peer, from: previous, to: from })
    }

    /// What crediting a frame to a session leaves, and what is owed for it.
    pub open spec fn delivers(
        &self,
        after: &Endpoint,
        peer: PeerId,
        step: Step,
        from: Address,
        established: bool,
        now: u64,
        heard: Result<Heard, Error>,
    ) -> bool {
        &&& *after == (Endpoint { table: after.table, events: after.events, ..*self })
        &&& if step is Rejected || !self.table.peers@.contains_key(peer.0) {
            &&& heard is Ok
            &&& heard->Ok_0 is Rejected
            &&& *after == *self
        } else {
            let credited = heard_from(self.table.peers@[peer.0], now);
            let table = self.table@.changed(peer.0, credited);
            if established {
                &&& heard is Ok
                &&& heard->Ok_0 == (if owes_reply(step) {
                    Heard::Reply
                } else {
                    Heard::Quiet
                })
                &&& after.table@ == table
                &&& after.events == self.events
            } else if let Step::PathValidated(token) = step {
                if settles(credited, from, token) {
                    &&& heard is Ok
                    &&& heard->Ok_0 == Heard::Moved(
                        Event::PeerMoved { peer, from: credited.addr, to: from },
                    )
                    &&& after.table@ == relocated(table, peer.0, from)
                    &&& after.events@ == (match displaced_by(
                        table.peers,
                        peer.0,
                        from,
                    ) {
                        Some(other) => self.events@.push(
                            Event::PeerLost { peer: PeerId(other) },
                        ),
                        None => self.events@,
                    })
                } else {
                    &&& heard is Ok
                    &&& heard->Ok_0 is Quiet
                    &&& after.table@ == table
                    &&& after.events == self.events
                }
            } else {
                &&& after.events == self.events
                &&& match heard {
                    Err(e) => {
                        &&& e == Error::Io(IoKind::Other)
                        &&& ask_for(credited.probe, from, now) == Ask::Fresh
                        &&& after.table@ == table
                    },
                    Ok(h) => exists|token: u64|
                        h == (match #[trigger] challenged(credited.probe, from, now, token) {
                            Some(c) => Heard::Challenge(c),
                            None => Heard::Quiet,
                        }) && after.table@ == table.changed(
                            peer.0,
                            (PeerEntry {
                                probe: probed(credited.probe, from, now, token),
                                ..credited
                            }),
                        ),
                }
            }
        }
    }

    /// Credits a frame to a session, and says what is owed for it.
    ///
    /// `established` says whether `from` is the address that the session is on.
    /// When it is not, nothing goes back there but a challenge: the frame proves
    /// that someone holding the key sent it, and nothing about who is at the
    /// address it came from. A frame that did not authenticate changes nothing.
    pub fn deliver(
        &mut self,
        peer: PeerId,
        step: Step,
        from: Address,
        established: bool,
        now: u64,
    ) -> (heard: Result<Heard, Error>)
        requires
            old(self).wf(),
        ensures
            final(self).wf(),
            *final(self) == (Endpoint {
                table: final(self).table,
                events: final(self).events,
                ..*old(self)
            }),
            if step is Rejected || !old(self).table.peers@.contains_key(peer.0) {
                &&& heard is Ok
                &&& heard->Ok_0 is Rejected
                &&& *final(self) == *old(self)
            } else {
                let credited = heard_from(old(self).table.peers@[peer.0], now);
                let table = old(self).table@.changed(peer.0, credited);
                if established {
                    &&& heard is Ok
                    &&& heard->Ok_0 == (if owes_reply(step) {
                        Heard::Reply
                    } else {
                        Heard::Quiet
                    })
                    &&& final(self).table@ == table
                    &&& final(self).events == old(self).events
                } else if let Step::PathValidated(token) = step {
                    if settles(credited, from, token) {
                        &&& heard is Ok
                        &&& heard->Ok_0 == Heard::Moved(
                            Event::PeerMoved { peer, from: credited.addr, to: from },
                        )
                        &&& final(self).table@ == relocated(table, peer.0, from)
                        &&& final(self).events@ == (match displaced_by(
                            table.peers,
                            peer.0,
                            from,
                        ) {
                            Some(other) => old(self).events@.push(
                                Event::PeerLost { peer: PeerId(other) },
                            ),
                            None => old(self).events@,
                        })
                    } else {
                        &&& heard is Ok
                        &&& heard->Ok_0 is Quiet
                        &&& final(self).table@ == table
                        &&& final(self).events == old(self).events
                    }
                } else {
                    &&& final(self).events == old(self).events
                    &&& match heard {
                        Err(e) => {
                            &&& e == Error::Io(IoKind::Other)
                            &&& ask_for(credited.probe, from, now) == Ask::Fresh
                            &&& final(self).table@ == table
                        },
                        Ok(h) => exists|token: u64|
                            h == (match #[trigger] challenged(credited.probe, from, now, token) {
                                Some(c) => Heard::Challenge(c),
                                None => Heard::Quiet,
                            }) && final(self).table@ == table.changed(
                                peer.0,
                                (PeerEntry {
                                    probe: probed(credited.probe, from, now, token),
                                    ..credited
                                }),
                            ),
                    }
                }
            },
            old(self).delivers(final(self), peer, step, from, established, now, heard),
            !(step is Rejected) && old(self).table.peers@.contains_key(peer.0) ==> {
                let before = old(self).table.peers@[peer.0];
                let after = final(self).table.peers@[peer.0];
                &&& final(self).table.peers@.contains_key(peer.0)
                &&& after.last_heard == now
                &&& after.spoke
                &&& after.handshake_reply is None
                &&& after.last_sent == before.last_sent
                &&& after.filed == before.filed
                &&& after.session_id == before.session_id
                &&& after.datagram_limit == before.datagram_limit
                &&& after.peer == before.peer
                &&& after.addr == before.addr || (!established && step is PathValidated
                    && after.addr == from)
            },
    {
        if let Step::Rejected = step {
            return Ok(Heard::Rejected);
        }
        if self.table.get(peer.0).is_none() {
            return Ok(Heard::Rejected);
        }
        let ghost before = self.table@;
        if let Some(entry) = self.table.entry(peer.0) {
            entry.spoke = true;
            entry.last_heard = now;
            entry.handshake_reply = None;
        }
        proof {
            assert forall|other: u64| #[trigger]
                self.table.peers@.contains_key(other) implies other < self.next_id && restrained(
                self.table.peers@[other],
            ) by {
                assert(before.peers.contains_key(other));
            }
        }
        if established {
            if wants_reply(step) {
                return Ok(Heard::Reply);
            }
            return Ok(Heard::Quiet);
        }
        if let Step::PathValidated(token) = step {
            return match self.settle_probe(peer, from, token) {
                Some(event) => Ok(Heard::Moved(event)),
                None => Ok(Heard::Quiet),
            };
        }
        match self.start_probe(peer, from, now) {
            Ok(Some(challenge)) => Ok(Heard::Challenge(challenge)),
            Ok(None) => Ok(Heard::Quiet),
            Err(e) => Err(e),
        }
    }

    /// Records that something was sent to a peer.
    pub fn sent_to(&mut self, peer: PeerId, now: u64)
        requires
            old(self).wf(),
        ensures
            final(self).wf(),
            *final(self) == (Endpoint { table: final(self).table, ..*old(self) }),
            final(self).table@ == (if old(self).table.peers@.contains_key(peer.0) {
                old(self).table@.changed(
                    peer.0,
                    (PeerEntry { last_sent: now, ..old(self).table.peers@[peer.0] }),
                )
            } else {
                old(self).table@
            }),
    {
        let ghost before = self.table@;
        if let Some(entry) = self.table.entry(peer.0) {
            entry.last_sent = now;
        }
        proof {
            assert forall|other: u64| #[trigger]
                self.table.peers@.contains_key(other) implies other < self.next_id && restrained(
                self.table.peers@[other],
            ) by {
                assert(before.peers.contains_key(other));
            }
        }
    }
}

/// A frame that comes from an unproved address.
pub struct Sighting {
    /// When it comes.
    pub at: u64,
    /// The token that is drawn for it, in case the address is asked afresh.
    pub token: u64,
    /// Whether a challenge that it draws can be sealed, and so is sent.
    pub seals: bool,
}

/// An address under test after it has been heard from.
pub open spec fn sighted(probe: Option<Probe>, addr: Address, sighting: Sighting) -> Option<Probe> {
    let after = probed(probe, addr, sighting.at, sighting.token);
    match challenged(probe, addr, sighting.at, sighting.token) {
        Some(challenge) if sighting.seals => sealed(after, challenge, sighting.at),
        _ => after,
    }
}

/// An address under test after it has been heard from each of these times.
pub open spec fn probed_at(start: Probe, sightings: Seq<Sighting>) -> Option<Probe>
    decreases sightings.len(),
{
    if sightings.len() == 0 {
        Some(start)
    } else {
        sighted(probed_at(start, sightings.drop_last()), start.addr, sightings.last())
    }
}

/// How many challenges those drew that were sent.
pub open spec fn challenges_at(start: Probe, sightings: Seq<Sighting>) -> nat
    decreases sightings.len(),
{
    if sightings.len() == 0 {
        0
    } else {
        let last = sightings.last();
        let drawn = challenged(
            probed_at(start, sightings.drop_last()),
            start.addr,
            last.at,
            last.token,
        );
        challenges_at(start, sightings.drop_last()) + if drawn is Some && last.seals {
            1nat
        } else {
            0nat
        }
    }
}

/// However often an unproved address is heard from, it is sent no more than a
/// few challenges before the attempt has aged out, all with the same token; and
/// one that could not be sealed does not count among them.
pub proof fn an_unproved_address_is_sent_only_a_few_challenges(
    start: Probe,
    sightings: Seq<Sighting>,
)
    requires
        start.sent <= PATH_PROBES,
        forall|i: int|
            0 <= i < sightings.len() ==> elapsed(start.started, (#[trigger] sightings[i]).at)
                <= PROBE_TIMEOUT,
    ensures
        start.sent + challenges_at(start, sightings) <= PATH_PROBES,
        probed_at(start, sightings) matches Some(p) && p.addr == start.addr && p.started
            == start.started && p.token == start.token && p.sent == start.sent + challenges_at(
            start,
            sightings,
        ),
    decreases sightings.len(),
{
    if sightings.len() > 0 {
        let before = sightings.drop_last();
        assert forall|i: int| 0 <= i < before.len() implies elapsed(
            start.started,
            (#[trigger] before[i]).at,
        ) <= PROBE_TIMEOUT by {
            assert(before[i] == sightings[i]);
        }
        an_unproved_address_is_sent_only_a_few_challenges(start, before);
        assert(elapsed(start.started, sightings[sightings.len() - 1].at) <= PROBE_TIMEOUT);
    }
}

/// A session's handshake response is sent again a bounded number of times: as its
/// entry goes from one resending to the next, the same response is kept for as
/// long as it may be sent, and after that an opening frame repeated draws nothing.
pub proof fn a_response_is_sent_again_a_bounded_number_of_times(entries: Seq<PeerEntry>, n: int)
    requires
        0 <= n < entries.len(),
        entries[0].handshake_reply matches Some(reply) && reply.left == HANDSHAKE_REPLIES,
        forall|k: int| 0 < k < entries.len() ==> replied(entries[k - 1], #[trigger] entries[k]),
    ensures
        n < HANDSHAKE_REPLIES ==> (entries[n].handshake_reply matches Some(reply) && reply.left
            == HANDSHAKE_REPLIES - n && reply.bytes@ == entries[0].handshake_reply->0.bytes@),
        n >= HANDSHAKE_REPLIES ==> {
            &&& entries[n].handshake_reply is None
            &&& forall|peer: PeerId, action: Action| #[trigger]
                repeats(peer, entries[n].handshake_reply, action) ==> action is Ignore
        },
    decreases n,
{
    if n > 0 {
        a_response_is_sent_again_a_bounded_number_of_times(entries, n - 1);
        assert(replied(entries[n - 1], entries[n]));
    }
}

/// A handle that is about to be given out names nobody, and never has: every
/// handle in use was given out before it.
pub proof fn a_new_handle_names_nobody(endpoint: Endpoint, id: u64)
    requires
        endpoint.wf(),
        id >= endpoint.next_id,
    ensures
        !endpoint.table.peers@.contains_key(id),
        !endpoint.outbound@.contains_key(id),
{
}

/// A session moves only on an answer from the address that was asked, carrying
/// the token that it was asked with; either alone does nothing.
pub proof fn neither_the_address_nor_the_token_alone_moves_a_session(
    entry: PeerEntry,
    probe: Probe,
    from: Address,
    token: u64,
)
    requires
        entry.probe == Some(probe),
    ensures
        settles(entry, from, token) == (from == probe.addr && token == probe.token),
        !settles(PeerEntry { probe: None, ..entry }, from, token),
{
}

/// A peer that keeps talking stays connected: once a frame of its session has
/// authenticated, from wherever it came and whatever it was, it is not released
/// before as long as the limit has passed since then, and is not reported lost.
pub proof fn a_peer_that_keeps_talking_is_not_released(
    before: Endpoint,
    heard_then: Endpoint,
    after: Endpoint,
    peer: PeerId,
    step: Step,
    from: Address,
    established: bool,
    at: u64,
    heard: Result<Heard, Error>,
    limit: u64,
    now: u64,
)
    requires
        before.wf(),
        heard_then.wf(),
        before.table.peers@.contains_key(peer.0),
        !(step is Rejected),
        before.delivers(&heard_then, peer, step, from, established, at, heard),
        before.peer_timeout == Some(limit),
        heard_then.releases(&after, now),
        now - at < limit,
    ensures
        heard_then.table.peers@.contains_key(peer.0),
        heard_then.table.peers@[peer.0].last_heard == at,
        after.table.peers@.contains_key(peer.0),
        after.table.peers@[peer.0].last_heard == at,
        forall|k: int|
            heard_then.events@.len() <= k < after.events@.len() ==> #[trigger] after.events@[k] != (
            Event::PeerLost { peer }),
{
    crediting_a_frame_touches_only_its_session(
        before,
        heard_then,
        peer,
        step,
        from,
        established,
        at,
        heard,
        peer.0,
    );
    the_silent_are_released_and_reported(heard_then, after, now, peer.0);
}

/// A frame credited to a session is a sign of life of that session alone: its peer
/// has been heard from now and has spoken, and its handshake response is kept no
/// longer. Nothing else about it changes but its probe and, where it has proved that
/// it can receive there, its address. Everyone else stays as they were, but for a
/// session displaced by one that moves.
pub proof fn crediting_a_frame_touches_only_its_session(
    before: Endpoint,
    after: Endpoint,
    peer: PeerId,
    step: Step,
    from: Address,
    established: bool,
    now: u64,
    heard: Result<Heard, Error>,
    other: u64,
)
    requires
        before.wf(),
        before.table.peers@.contains_key(peer.0),
        !(step is Rejected),
        before.delivers(&after, peer, step, from, established, now, heard),
    ensures
        ({
            let was = before.table.peers@[peer.0];
            let is = after.table.peers@[peer.0];
            let moves = !established && (step matches Step::PathValidated(token) && (
            was.probe matches Some(p) && p.addr == from && p.token == token));
            &&& after.table.peers@.contains_key(peer.0)
            &&& is.last_heard == now
            &&& is.spoke
            &&& is.handshake_reply is None
            &&& is.peer == was.peer && is.session_id == was.session_id && is.datagram_limit
                == was.datagram_limit && is.filed == was.filed && is.last_sent == was.last_sent
            &&& is.addr == (if moves {
                from
            } else {
                was.addr
            })
            &&& moves ==> is.probe is None
            &&& established ==> is.probe == was.probe
            &&& other != peer.0 && !moves ==> after.table.peers@.contains_key(other)
                == before.table.peers@.contains_key(other)
            &&& other != peer.0 && before.table.peers@.contains_key(other)
                && !after.table.peers@.contains_key(other) ==> moves
                && before.table.peers@[other].addr == from && before.table.peers@[other].session_id
                == was.session_id
            &&& other != peer.0 && after.table.peers@.contains_key(other)
                ==> before.table.peers@.contains_key(other) && after.table.peers@[other]
                == before.table.peers@[other]
            &&& moves <==> (heard matches Ok(Heard::Moved(_)))
            &&& !moves ==> after.events@ == before.events@
        }),
{
    let was = before.table.peers@[peer.0];
    let credited = heard_from(was, now);
    let table = before.table@.changed(peer.0, credited);
    let moves = !established && (step matches Step::PathValidated(token) && settles(
        was,
        from,
        token,
    ));
    assert(table.peers.contains_key(peer.0));
    if moves {
        assert(consistent(table.peers, table.index)) by {
            assert forall|id: u64| #[trigger] table.peers.contains_key(id) implies sharing(
                table.index,
                table.peers[id].session_id,
            ).contains(id) && table.peers[id].peer.wf() by {
                assert(before.table.peers@.contains_key(id));
            }
            assert forall|s: u32, k: int|
                table.index.contains_key(s) && 0 <= k
                    < table.index[s].len() implies table.peers.contains_key(
                #[trigger] table.index[s][k],
            ) && table.peers[table.index[s][k]].session_id == s by {
                assert(before.table.peers@.contains_key(before.table.index()[s][k]));
            }
            assert forall|a: u64, b: u64|
                #![trigger table.peers.contains_key(a), table.peers.contains_key(b)]
                table.peers.contains_key(a) && table.peers.contains_key(b) && a != b implies !(
            table.peers[a].addr == table.peers[b].addr && table.peers[a].session_id
                == table.peers[b].session_id) by {
                assert(before.table.peers@.contains_key(a) && before.table.peers@.contains_key(b));
            }
        }
        if other != peer.0 {
            moving_a_session_disturbs_nobody_else(table, peer.0, from, other);
        } else {
            let third = if peer.0 == 0 {
                1u64
            } else {
                0u64
            };
            moving_a_session_disturbs_nobody_else(table, peer.0, from, third);
        }
    }
}

/// What is sent back for a frame. From the address that its session is on, a reply
/// exactly where the frame asks for one: a challenge, a duplicate, or data that is to
/// be acknowledged. From any other address nothing but a challenge, and that to the
/// address itself: whoever is there has not proved that they can receive. For a frame
/// that did not authenticate nothing is sent and nothing changes.
pub proof fn what_is_sent_back_for_a_frame(
    before: Endpoint,
    after: Endpoint,
    peer: PeerId,
    step: Step,
    from: Address,
    established: bool,
    now: u64,
    heard: Result<Heard, Error>,
)
    requires
        before.delivers(&after, peer, step, from, established, now, heard),
    ensures
        step is Rejected ==> (heard matches Ok(Heard::Rejected)) && after == before,
        !before.table.peers@.contains_key(peer.0) ==> (heard matches Ok(Heard::Rejected)) && after
            == before,
        (heard matches Ok(Heard::Reply)) ==> established,
        !(step is Rejected) && before.table.peers@.contains_key(peer.0) && established ==> ((
        heard matches Ok(Heard::Reply)) <==> match step {
            Step::AnswerChallenge(_) => true,
            Step::Duplicate => true,
            Step::Piece { ack, .. } => ack,
            Step::Whole { ack, .. } => ack,
            _ => false,
        }),
        !(step is Rejected) && before.table.peers@.contains_key(peer.0) && established && !(
        heard matches Ok(Heard::Reply)) ==> (heard matches Ok(Heard::Quiet)),
        (heard matches Ok(Heard::Challenge(challenge)) ==> !established && challenge.to == from),
{
}

/// When an unproved address is asked whether it can receive. One that is not under
/// test, or whose test has lasted for more than three seconds, is asked afresh. One
/// that is under test is asked again, with the same token, where it was asked fewer
/// than three times and not within the last quarter of a second. Otherwise it is not
/// asked.
pub proof fn when_an_address_is_asked(probe: Option<Probe>, addr: Address, now: u64, token: u64)
    ensures
        ({
            let testing = probe matches Some(p) && p.addr == addr && now - p.started
                <= 3_000_000_000;
            let again = testing && probe->0.sent < 3 && (now - probe->0.last >= 250_000_000);
            &&& !testing ==> challenged(probe, addr, now, token) == Some(
                Challenge { to: addr, token },
            ) && probed(probe, addr, now, token) == Some(
                Probe { addr, token, sent: 0, last: now, started: now },
            )
            &&& again ==> challenged(probe, addr, now, token) == Some(
                Challenge { to: addr, token: probe->0.token },
            )
            &&& testing && !again ==> challenged(probe, addr, now, token) is None
            &&& testing ==> probed(probe, addr, now, token) == probe
        }),
{
}

/// A challenge counts once it is sealed: as one more sent, just now, to the address
/// under test with the token that it was asked with. Nothing else about the test
/// changes, and no other challenge counts.
pub proof fn a_sealed_challenge_counts_once(probe: Probe, challenge: Challenge, now: u64)
    ensures
        probe.addr == challenge.to && probe.token == challenge.token && probe.sent < 3 ==> sealed(
            Some(probe),
            challenge,
            now,
        ) == Some(
            Probe {
                addr: probe.addr,
                token: probe.token,
                sent: (probe.sent + 1) as u8,
                last: now,
                started: probe.started,
            },
        ),
        probe.addr != challenge.to || probe.token != challenge.token || probe.sent >= 3 ==> sealed(
            Some(probe),
            challenge,
            now,
        ) == Some(probe),
        sealed(None, challenge, now) is None,
{
}

/// An answer belongs to the handshake started first of those that await it: one that
/// was opened to the address it came from, under the identifier that it carries. It
/// belongs to none only where none does.
pub proof fn an_answer_belongs_to_the_handshake_that_awaits_it(
    outbound: Map<u64, Outbound>,
    addr: Address,
    session_id: u32,
    id: u64,
)
    requires
        awaited(outbound, addr, session_id) == Some(id),
    ensures
        outbound.contains_key(id),
        outbound[id].addr == addr,
        outbound[id].session_id == session_id,
        forall|other: u64| #[trigger]
            outbound.contains_key(other) && outbound[other].addr == addr
                && outbound[other].session_id == session_id ==> id <= other,
{
    assert(is_awaited(outbound, id, addr, session_id));
    assert forall|other: u64| #[trigger]
        outbound.contains_key(other) && outbound[other].addr == addr && outbound[other].session_id
            == session_id implies id <= other by {
        assert(awaits(outbound, other, addr, session_id));
    }
}

/// Which frames open a handshake, which answer one, and which belong to a session.
pub proof fn every_frame_opens_answers_or_belongs(kind: FrameKind)
    ensures
        kind.opens() <==> kind == FrameKind::HandshakeInit || kind == FrameKind::ResumeInit,
        kind.answers() <==> kind == FrameKind::HandshakeResponse || kind
            == FrameKind::ResumeResponse,
        !kind.opens() && !kind.answers() <==> kind == FrameKind::Session,
{
}

/// Sending a response again spends one of the times that it may be sent, and the
/// last spends the response; nothing else about the session changes.
pub proof fn sending_a_response_again_spends_one(before: PeerEntry, after: PeerEntry)
    requires
        replied(before, after),
    ensures
        before.handshake_reply is None ==> after.handshake_reply is None,
        before.handshake_reply matches Some(reply) ==> {
            &&& reply.left <= 1 ==> after.handshake_reply is None
            &&& reply.left > 1 ==> (after.handshake_reply matches Some(left) && left.left
                == reply.left - 1 && left.bytes@ == reply.bytes@)
        },
        after.addr == before.addr && after.session_id == before.session_id && after.peer
            == before.peer && after.last_heard == before.last_heard && after.last_sent
            == before.last_sent && after.filed == before.filed && after.spoke == before.spoke
            && after.probe == before.probe && after.datagram_limit == before.datagram_limit,
{
}

proof fn some_handshake_awaits_first(
    outbound: Map<u64, Outbound>,
    addr: Address,
    session_id: u32,
    id: u64,
)
    requires
        awaits(outbound, id, addr, session_id),
    ensures
        awaited(outbound, addr, session_id) is Some,
    decreases id,
{
    if exists|other: u64| other < id && #[trigger] awaits(outbound, other, addr, session_id) {
        let other = choose|other: u64|
            other < id && #[trigger] awaits(outbound, other, addr, session_id);
        some_handshake_awaits_first(outbound, addr, session_id, other);
    } else {
        assert(is_awaited(outbound, id, addr, session_id));
    }
}

/// An answer that some handshake awaits is never ignored.
pub proof fn an_answer_that_is_awaited_finds_its_handshake(
    outbound: Map<u64, Outbound>,
    id: u64,
)
    requires
        outbound.contains_key(id),
    ensures
        awaited(outbound, outbound[id].addr, outbound[id].session_id) is Some,
{
    some_handshake_awaits_first(outbound, outbound[id].addr, outbound[id].session_id, id);
}

/// What is done with every datagram. One without a header is ignored. A frame of a
/// session goes to the one on its address that wears its identifier, and is searched
/// for where there is none. An answer finishes the handshake that awaits it, which is
/// then under way no more, and is ignored where none does. A frame that opens a
/// handshake is never answered afresh for a session that is on file: its response is
/// sent again where it is kept, and that is all. Any other is answered where the
/// budget grants it, and only in the endpoint's own mode.
pub proof fn what_is_done_with_every_datagram(
    before: Endpoint,
    after: Endpoint,
    header: Option<(FrameKind, u32)>,
    from: Address,
    now: u64,
    action: Action,
    id: u64,
)
    requires
        before.wf(),
        before.dispatches(&after, header, from, now, action),
    ensures
        header is None ==> action is Ignore && after == before,
        header matches Some((kind, session_id)) ==> {
            let here = before.table.peers@.contains_key(id) && before.table.peers@[id].addr == from
                && before.table.peers@[id].session_id == session_id;
            let nobody = forall|other: u64|
                !(#[trigger] before.table.peers@.contains_key(other)
                    && before.table.peers@[other].addr == from
                    && before.table.peers@[other].session_id == session_id);
            let opens = kind == FrameKind::HandshakeInit || kind == FrameKind::ResumeInit;
            &&& kind == FrameKind::Session && here ==> action == Action::Deliver(PeerId(id))
            &&& kind == FrameKind::Session && nobody ==> action is Search
            &&& kind == FrameKind::Session ==> after == before
            &&& opens && here ==> after == before && match before.table.peers@[id].handshake_reply {
                Some(kept) => action matches Action::Resend { peer, reply } && peer == PeerId(id)
                    && reply@ == kept.bytes@,
                None => action is Ignore,
            }
            &&& opens && nobody ==> {
                &&& !before.handshakes.grants(now) ==> action is Ignore
                &&& before.handshakes.grants(now) && kind == FrameKind::ResumeInit ==> action is
                    AcceptResumed
                &&& before.handshakes.grants(now) && kind == FrameKind::HandshakeInit ==> (action is
                    AcceptFull <==> before.mode is PublicKey)
                &&& after.handshakes == before.handshakes.asked(now)
                &&& after.table == before.table && after.outbound == before.outbound
                    && after.tickets == before.tickets
            }
            &&& action is AcceptFull || action is AcceptResumed ==> opens && nobody
                && before.handshakes.grants(now)
            &&& action matches Action::Complete(peer, outbound) ==> {
                &&& kind == FrameKind::HandshakeResponse || kind == FrameKind::ResumeResponse
                &&& before.outbound@.contains_key(peer.0)
                &&& before.outbound@[peer.0] == outbound
                &&& outbound.addr == from && outbound.session_id == session_id
                &&& !after.outbound@.contains_key(peer.0)
                &&& after.table == before.table
            }
            &&& (kind == FrameKind::HandshakeResponse || kind == FrameKind::ResumeResponse)
                && before.outbound@.contains_key(id) && before.outbound@[id].addr == from
                && before.outbound@[id].session_id == session_id ==> action is Complete
        },
{
    if let Some((kind, session_id)) = header {
        a_frame_goes_to_the_session_on_its_address_and_identifier(
            before.table@,
            from,
            session_id,
            id,
        );
        if let Some(found) = routed(before.table.peers@, from, session_id) {
            a_frame_goes_to_the_session_on_its_address_and_identifier(
                before.table@,
                from,
                session_id,
                found,
            );
        }
        if let Some(found) = awaited(before.outbound@, from, session_id) {
            an_answer_belongs_to_the_handshake_that_awaits_it(
                before.outbound@,
                from,
                session_id,
                found,
            );
        }
        if before.outbound@.contains_key(id) {
            an_answer_that_is_awaited_finds_its_handshake(before.outbound@, id);
        }
    }
}

/// A frame from an unknown address is tried only against sessions that wear its
/// identifier, one after another as they were filed, against four at most, and each
/// try is paid for out of the budget: where that is spent there is none.
pub proof fn every_try_is_paid_for(
    before: Endpoint,
    after: Endpoint,
    search: Search,
    after_search: Search,
    now: u64,
    candidate: Option<PeerId>,
)
    requires
        before.wf(),
        before.tries(&after, search, after_search, now, candidate),
    ensures
        candidate matches Some(peer) ==> {
            &&& before.table.peers@.contains_key(peer.0)
            &&& before.table.peers@[peer.0].session_id == search.session_id
            &&& before.migrations.grants(now)
            &&& after.migrations == before.migrations.asked(now)
            &&& search.at < 4
            &&& after_search.at == search.at + 1
        },
        search.at >= 4 ==> candidate is None && after == before,
        !before.migrations.grants(now) ==> candidate is None,
        search.at < 4 && search.at < sharing(before.table.index(), search.session_id).len()
            && before.migrations.grants(now) ==> candidate == Some(
            PeerId(sharing(before.table.index(), search.session_id)[search.at as int]),
        ),
        after.table == before.table && after.handshakes == before.handshakes && after.events
            == before.events,
        after_search.session_id == search.session_id,
{
    let all = sharing(before.table.index(), search.session_id);
    if search.at < all.len() {
        assert(before.table.index().contains_key(search.session_id));
        assert(before.table.index()[search.session_id][search.at as int] == all[search.at as int]);
    }
}

} // verus!
