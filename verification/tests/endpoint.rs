//! Many peers over one socket: whose frame it is, whom to answer, whom to let go.

use fectp::codec::local_capabilities;
use fectp::dispatch::{Action, FrameKind, Heard, Search};
use fectp::drive::{Handshaking, Route};
use fectp::endpoint::{Established, Mode, Opening, Redeemed};
use fectp::error::{Error, IoKind, ProtocolError};
use fectp::ingest::Step;
use fectp::link::Link;
use fectp::peer::{Due, Finished};
use fectp::poll::{poll, Poll, Polled, Wait};
use fectp::table::Address;
use fectp::{Endpoint, Event, PayloadType, PeerId, Ticket, MAX_TICKETS};

const MS: u64 = 1_000_000;
const SEC: u64 = 1_000_000_000;
const CEILING: usize = 1200;

fn addr(port: u16) -> Address {
    Address { v6: false, ip: 0x7f00_0001, port, flow: 0, scope: 0 }
}

fn link(session_id: u32) -> Link {
    Link {
        encrypted: true,
        session_id,
        capabilities: local_capabilities(1200),
        session_limit: 65535,
        message_id_len: 8,
        fragment_len: 8,
        authenticated: [session_id as u8; 32],
        padding: false,
    }
}

fn ticket(n: u32) -> Ticket {
    Ticket { id: n.to_le_bytes().to_vec(), key: [n as u8; 32] }
}

fn established(session_id: u32, n: u32) -> Established {
    Established {
        link: link(session_id),
        ticket: ticket(n),
        zero_rtt: Vec::new(),
        resumed: false,
    }
}

fn server() -> Endpoint {
    Endpoint::new(Mode::PublicKey([1u8; 32]), 0)
}

fn accept(e: &mut Endpoint, port: u16, session_id: u32, now: u64) -> PeerId {
    let n = u32::from(port) * 1000 + session_id % 1000;
    match e.register(established(session_id, n), addr(port), b"response".to_vec(), CEILING, now) {
        Event::Connected { peer, initiated, .. } => {
            assert!(!initiated);
            peer
        }
        _ => panic!("registering connects"),
    }
}

fn whole(ack: bool) -> Step {
    Step::Whole { len: 10, compressed: false, ack }
}

fn speak(e: &mut Endpoint, peer: PeerId, now: u64) {
    let from = e.peer_addr(peer).expect("on file");
    let heard = e.deliver(peer, whole(false), from, true, now).expect("delivered");
    assert!(matches!(heard, Heard::Quiet));
}

#[test]
fn the_server_tracks_each_peer_separately() {
    let mut e = server();
    let peers: Vec<PeerId> = (0..4).map(|i| accept(&mut e, 1000 + i, u32::from(i) + 1, 0)).collect();
    assert_eq!(e.peer_count(), 4);
    assert_eq!(e.peers(), peers);
    for (i, peer) in peers.iter().enumerate() {
        assert_eq!(e.peer_public_key(*peer), Some([i as u8 + 1; 32]));
        assert_eq!(e.peer_addr(*peer), Some(addr(1000 + i as u16)));
    }
    assert_eq!(e.outstanding_tickets(), 4);
    assert_eq!(e.public_key(), Some([1u8; 32]));
}

#[test]
fn a_disconnected_peer_stops_resolving() {
    let mut e = server();
    let peer = accept(&mut e, 1, 7, 0);
    assert!(e.disconnect(peer));
    assert_eq!(e.peer_count(), 0);
    assert!(!e.disconnect(peer), "a second disconnect is a no-op");
    assert_eq!(e.send(peer), Err(Error::UnknownPeer));
    assert_eq!(e.peer_public_key(peer), None);
    assert_eq!(
        e.send_reliable(peer, b"gone", PayloadType::Opaque),
        Err(Error::UnknownPeer)
    );
    let next = accept(&mut e, 1, 7, 0);
    assert_ne!(next, peer, "handles are never reused");
}

#[test]
fn concurrent_peers_do_not_steal_each_others_traffic() {
    let mut e = server();
    // Two peers chose the same identifier, and one of them has two sessions.
    let a = accept(&mut e, 1, 7, 0);
    let b = accept(&mut e, 2, 7, 0);
    let c = accept(&mut e, 1, 8, 0);
    let whose = |e: &mut Endpoint, port, id| match e.dispatch(Some((FrameKind::Session, id)), addr(port), 0) {
        Action::Deliver(peer) => Some(peer),
        Action::Search => None,
        _ => panic!("a session's frame is delivered or searched for"),
    };
    assert_eq!(whose(&mut e, 1, 7), Some(a));
    assert_eq!(whose(&mut e, 2, 7), Some(b));
    assert_eq!(whose(&mut e, 1, 8), Some(c));
    assert_eq!(whose(&mut e, 2, 8), None);
}

#[test]
fn garbage_and_stray_datagrams_are_ignored() {
    let mut e = server();
    assert!(matches!(e.dispatch(None, addr(5), 0), Action::Ignore));
    assert!(matches!(
        e.dispatch(Some((FrameKind::HandshakeResponse, 5)), addr(5), 0),
        Action::Ignore
    ));
    assert_eq!(e.peer_count(), 0);
}

#[test]
fn a_replayed_opening_frame_does_not_displace_the_session_it_names() {
    let mut e = server();
    let peer = accept(&mut e, 1, 7, 0);
    // Repeated before the peer has spoken, it draws the same response, but only
    // so often.
    for _ in 0..8 {
        match e.dispatch(Some((FrameKind::HandshakeInit, 7)), addr(1), 0) {
            Action::Resend { peer: whose, reply } => {
                assert_eq!((whose, reply.as_slice()), (peer, b"response".as_slice()));
                e.reply_resent(whose);
            }
            _ => panic!("the response is sent again"),
        }
    }
    assert!(matches!(
        e.dispatch(Some((FrameKind::HandshakeInit, 7)), addr(1), 0),
        Action::Ignore
    ));
    assert_eq!(e.peers(), vec![peer], "and the session is the one it was");
}

#[test]
fn a_response_that_could_not_be_sent_again_does_not_count() {
    let mut e = server();
    let peer = accept(&mut e, 1, 7, 0);
    for _ in 0..20 {
        assert!(matches!(
            e.dispatch(Some((FrameKind::HandshakeInit, 7)), addr(1), 0),
            Action::Resend { peer: whose, .. } if whose == peer
        ));
    }
    for _ in 0..7 {
        e.reply_resent(peer);
    }
    assert!(matches!(
        e.repeat_handshake(addr(1), 7),
        Some(Action::Resend { peer: whose, .. }) if whose == peer
    ));
    e.reply_resent(peer);
    assert!(matches!(e.repeat_handshake(addr(1), 7), Some(Action::Ignore)));
    e.reply_resent(peer);
    assert!(matches!(e.repeat_handshake(addr(1), 7), Some(Action::Ignore)));
    assert!(e.repeat_handshake(addr(1), 8).is_none(), "another identifier is a new handshake");
    e.reply_resent(PeerId(99));
}

#[test]
fn a_peer_that_has_spoken_is_not_sent_its_response_again() {
    let mut e = server();
    let peer = accept(&mut e, 1, 7, 0);
    speak(&mut e, peer, 5);
    assert!(matches!(
        e.dispatch(Some((FrameKind::HandshakeInit, 7)), addr(1), 0),
        Action::Ignore
    ));
}

#[test]
fn new_handshakes_are_rate_limited() {
    let mut e = server();
    e.set_max_handshakes_per_second(8);
    let mut answered = 0;
    for i in 0..100u32 {
        if matches!(
            e.dispatch(Some((FrameKind::HandshakeInit, i)), addr(9), 0),
            Action::AcceptFull
        ) {
            answered += 1;
        }
    }
    assert_eq!(answered, 8, "one burst");
    assert!(matches!(
        e.dispatch(Some((FrameKind::HandshakeInit, 1)), addr(9), SEC / 8),
        Action::AcceptFull
    ));
    assert!(matches!(
        e.dispatch(Some((FrameKind::HandshakeInit, 1)), addr(9), SEC / 8),
        Action::Ignore
    ));
    e.set_max_handshakes_per_second(0);
    assert_eq!(e.handshakes.rate, 1, "an endpoint that answers none can never acquire a peer");
}

#[test]
fn a_public_key_client_cannot_use_a_psk_server() {
    let mut e = Endpoint::new(Mode::Psk(ticket(0)), 0);
    assert_eq!(e.public_key(), None);
    assert!(matches!(
        e.dispatch(Some((FrameKind::HandshakeInit, 1)), addr(9), 0),
        Action::Ignore
    ));
    assert!(matches!(
        e.dispatch(Some((FrameKind::ResumeInit, 1)), addr(9), 0),
        Action::AcceptResumed
    ));
}

#[test]
fn a_shared_secret_is_reusable_but_a_ticket_is_not() {
    let mut e = Endpoint::new(Mode::Psk(ticket(77)), 0);
    for _ in 0..3 {
        assert!(matches!(e.redeem(&ticket(77).id, 0), Ok(Redeemed::Configured)));
    }
    accept(&mut e, 1, 7, 0);
    let earned = ticket(1007).id;
    match e.redeem(&earned, 0) {
        Ok(Redeemed::Spent(t, peer)) => {
            assert_eq!(t.id, earned);
            assert_eq!(peer, [7u8; 32]);
        }
        _ => panic!("an earned ticket is redeemed"),
    }
    assert!(matches!(e.redeem(&earned, 0), Err(Error::UnknownTicket)));
}

#[test]
fn an_unknown_ticket_is_refused() {
    let mut e = server();
    assert!(matches!(e.redeem(&[0x77; 4], 0), Err(Error::UnknownTicket)));
}

#[test]
fn a_stranger_can_flush_the_ticket_store() {
    let mut e = server();
    accept(&mut e, 1, 7, 0);
    assert_eq!(e.outstanding_tickets(), 1);
    for i in 0..MAX_TICKETS as u32 {
        let event = e.register(
            established(100_000 + i, 100_000 + i),
            addr(2),
            Vec::new(),
            CEILING,
            0,
        );
        assert!(matches!(event, Event::Connected { .. }));
    }
    assert_eq!(e.outstanding_tickets(), MAX_TICKETS);
    assert!(matches!(e.redeem(&ticket(1007).id, 0), Err(Error::UnknownTicket)));
}

#[test]
fn a_ticket_stops_being_redeemable_once_it_has_expired() {
    let mut e = server();
    e.set_ticket_lifetime(3 * SEC);
    accept(&mut e, 1, 7, 0);
    assert!(matches!(e.redeem(&ticket(1007).id, 3 * SEC - 1), Ok(Redeemed::Spent(..))));
    accept(&mut e, 1, 8, 10 * SEC);
    assert!(matches!(
        e.redeem(&ticket(1008).id, 13 * SEC),
        Err(Error::UnknownTicket)
    ));
}

#[test]
fn the_peer_table_is_bounded_and_evicts_the_silent_first() {
    let mut e = server();
    e.set_max_peers(32);
    let honest = accept(&mut e, 1, 1, 0);
    speak(&mut e, honest, 1);
    for i in 0..200u32 {
        accept(&mut e, 2, 1000 + i, 2 + u64::from(i));
        assert!(e.peer_count() <= 32);
    }
    assert_eq!(e.peer_count(), 32);
    assert!(e.peers().contains(&honest), "it had been talking throughout");
}

#[test]
fn a_session_that_has_not_spoken_is_evicted_first() {
    let mut e = server();
    e.set_max_peers(4);
    let talker = accept(&mut e, 1, 1, 0);
    let silent = accept(&mut e, 2, 2, 1);
    speak(&mut e, talker, 2);
    for i in 0..6 {
        accept(&mut e, 10 + i, 10 + u32::from(i), 3 + u64::from(i));
    }
    assert!(e.peers().contains(&talker));
    assert!(!e.peers().contains(&silent));
}

#[test]
fn a_forged_frame_does_not_protect_a_session_from_eviction() {
    let mut e = server();
    e.set_max_peers(2);
    let honest = accept(&mut e, 1, 1, 0);
    speak(&mut e, honest, 1);
    let quiet = accept(&mut e, 2, 2, 2);
    let heard = e.deliver(quiet, Step::Rejected, addr(2), true, 3).expect("nothing to fail");
    assert!(matches!(heard, Heard::Rejected));
    let third = accept(&mut e, 3, 3, 4);
    assert_eq!(e.peers(), vec![honest, third]);
}

#[test]
fn a_forged_frame_does_not_hold_a_dead_session_open() {
    let mut e = server();
    e.set_peer_timeout(Some(SEC));
    let peer = accept(&mut e, 1, 1, 0);
    for t in 0..10 {
        let _ = e.deliver(peer, Step::Rejected, addr(1), true, t * 100 * MS);
    }
    e.drive_liveness(SEC - 1);
    assert_eq!(e.peer_count(), 1);
    e.drive_liveness(SEC);
    assert_eq!(e.peer_count(), 0);
    assert!(matches!(e.next_event(), Some(Event::PeerLost { peer: lost }) if lost == peer));
    assert!(e.next_event().is_none());
}

#[test]
fn a_zero_peer_timeout_does_not_drop_every_peer_on_arrival() {
    let mut e = server();
    e.set_peer_timeout(Some(0));
    assert_eq!(e.peer_timeout, Some(SEC));
    accept(&mut e, 1, 1, 0);
    e.drive_liveness(1);
    assert_eq!(e.peer_count(), 1);
    e.set_peer_timeout(Some(5 * SEC));
    assert_eq!(e.peer_timeout, Some(5 * SEC));
}

#[test]
fn a_peer_is_kept_indefinitely_when_no_timeout_is_set() {
    let mut e = server();
    accept(&mut e, 1, 1, 0);
    e.drive_liveness(u64::MAX);
    assert_eq!(e.peer_count(), 1);
    assert_eq!(e.next_liveness_check(0), None);
}

#[test]
fn a_zero_keepalive_does_not_become_a_flood() {
    let mut e = server();
    e.set_keepalive(Some(0));
    assert_eq!(e.keepalive, Some(100 * MS));
    e.set_keepalive(None);
    assert_eq!(e.keepalive, None);
    assert!(e.drive_keepalives(u64::MAX).is_empty());
}

#[test]
fn a_session_that_never_spoke_is_not_sent_keepalives() {
    let mut e = server();
    e.set_keepalive(Some(100 * MS));
    let quiet = accept(&mut e, 1, 1, 0);
    let talker = accept(&mut e, 2, 2, 0);
    assert!(e.drive_keepalives(SEC).is_empty());
    speak(&mut e, talker, 1);
    assert!(e.drive_keepalives(100 * MS - 1).is_empty());
    assert_eq!(e.drive_keepalives(100 * MS), vec![talker]);
    e.sent_to(talker, 100 * MS);
    assert!(e.drive_keepalives(150 * MS).is_empty());
    assert_eq!(e.next_keepalive(150 * MS), Some(0), "the quiet one would be next");
    assert!(e.disconnect(quiet));
    assert_eq!(e.next_keepalive(150 * MS), Some(50 * MS));
}

#[test]
fn a_peer_that_changes_address_keeps_its_session() {
    let mut e = server();
    let peer = accept(&mut e, 1, 7, 0);
    speak(&mut e, peer, 1);
    // A frame from another port: searched for by its identifier, and credited.
    assert!(matches!(
        e.dispatch(Some((FrameKind::Session, 7)), addr(2), 2),
        Action::Search
    ));
    let mut search = Search { session_id: 7, at: 0 };
    assert_eq!(e.next_candidate(&mut search, 2), Some(peer));
    let heard = e.deliver(peer, whole(true), addr(2), false, 2).expect("a token");
    let Heard::Challenge(challenge) = heard else {
        panic!("an unproved address gets a challenge and nothing else");
    };
    assert_eq!(challenge.to, addr(2));
    assert!(e.claimed(peer, addr(2)));
    assert_eq!(e.peer_addr(peer), Some(addr(1)), "not moved yet");
    // The wrong token, or the right one from elsewhere, moves nothing.
    let wrong = Step::PathValidated(challenge.token.wrapping_add(1));
    assert!(matches!(e.deliver(peer, wrong, addr(2), false, 3), Ok(Heard::Quiet)));
    let right = Step::PathValidated(challenge.token);
    assert!(matches!(e.deliver(peer, right, addr(3), false, 3), Ok(Heard::Quiet)));
    assert_eq!(e.peer_addr(peer), Some(addr(1)));
    // The answer from the address that was asked does.
    match e.deliver(peer, right, addr(2), false, 4) {
        Ok(Heard::Moved(Event::PeerMoved { peer: moved, from, to })) => {
            assert_eq!((moved, from, to), (peer, addr(1), addr(2)));
        }
        _ => panic!("the session moves"),
    }
    assert_eq!(e.peer_addr(peer), Some(addr(2)));
    assert!(matches!(
        e.dispatch(Some((FrameKind::Session, 7)), addr(2), 5),
        Action::Deliver(p) if p == peer
    ));
    assert!(matches!(
        e.dispatch(Some((FrameKind::Session, 7)), addr(1), 5),
        Action::Search
    ));
}

#[test]
fn an_address_that_never_answers_does_not_get_the_session() {
    let mut e = server();
    let peer = accept(&mut e, 1, 7, 0);
    let mut challenges = 0;
    for t in 0..12u64 {
        match e.deliver(peer, whole(true), addr(2), false, t * 250 * MS) {
            Ok(Heard::Challenge(challenge)) => {
                e.challenge_sealed(peer, challenge, t * 250 * MS);
                challenges += 1;
            }
            Ok(Heard::Quiet) => {}
            _ => panic!("nothing but challenges"),
        }
    }
    assert_eq!(challenges, 3, "within the time that an attempt lasts");
    assert_eq!(e.peer_addr(peer), Some(addr(1)));
    // Once the attempt has aged out, another begins.
    assert!(matches!(
        e.deliver(peer, whole(true), addr(2), false, 3 * SEC + 1),
        Ok(Heard::Challenge(_))
    ));
}

#[test]
fn challenges_are_spaced_out() {
    let mut e = server();
    let peer = accept(&mut e, 1, 7, 0);
    let first = e.probe_with(peer, addr(2), 0, 42).expect("a challenge");
    assert_eq!((first.to, first.token), (addr(2), 42));
    e.challenge_sealed(peer, first, 0);
    assert_eq!(e.probe_with(peer, addr(2), 250 * MS - 1, 43), None);
    let again = e.probe_with(peer, addr(2), 250 * MS, 43).expect("a repeat");
    assert_eq!(again.token, 42, "the same question");
    e.challenge_sealed(peer, again, 250 * MS);
    assert_eq!(e.probe_with(peer, addr(2), 500 * MS - 1, 43), None);
    let other = e.probe_with(peer, addr(3), 250 * MS, 44).expect("another address");
    assert_eq!((other.to, other.token), (addr(3), 44));
    assert_eq!(e.probe_with(PeerId(99), addr(3), 0, 1), None);
}

#[test]
fn a_challenge_that_could_not_be_sealed_does_not_count() {
    let mut e = server();
    let peer = accept(&mut e, 1, 7, 0);
    // Asked over and over, but nothing ever goes out.
    for t in 0..8u64 {
        let challenge = e.probe_with(peer, addr(2), t * 250 * MS, 42).expect("a challenge");
        assert_eq!(challenge.token, 42);
    }
    // So all three are still to be had.
    for t in 8..11u64 {
        let challenge = e.probe_with(peer, addr(2), t * 250 * MS, 43).expect("a challenge");
        assert_eq!(challenge.token, 42, "the same question");
        e.challenge_sealed(peer, challenge, t * 250 * MS);
    }
    assert_eq!(e.probe_with(peer, addr(2), 11 * 250 * MS, 43), None);
}

#[test]
fn a_challenge_to_somewhere_else_does_not_count() {
    let mut e = server();
    let peer = accept(&mut e, 1, 7, 0);
    let challenge = e.probe_with(peer, addr(2), 0, 42).expect("a challenge");
    let stale = fectp::dispatch::Challenge { to: addr(3), token: 42 };
    let wrong = fectp::dispatch::Challenge { to: addr(2), token: 41 };
    for _ in 0..5 {
        e.challenge_sealed(peer, stale, 0);
        e.challenge_sealed(peer, wrong, 0);
    }
    e.challenge_sealed(PeerId(99), challenge, 0);
    assert!(e.probe_with(peer, addr(2), 250 * MS, 43).is_some());
}

#[test]
fn tokens_differ_from_probe_to_probe() {
    let mut e = server();
    let peer = accept(&mut e, 1, 7, 0);
    let a = e.start_probe(peer, addr(2), 0).expect("a token").expect("a challenge");
    let b = e.start_probe(peer, addr(3), 0).expect("a token").expect("a challenge");
    assert_ne!(a.token, b.token);
}

#[test]
fn a_session_that_stands_where_another_moves_is_released() {
    let mut e = server();
    let mover = accept(&mut e, 1, 7, 0);
    let stander = accept(&mut e, 2, 7, 0);
    let challenge = e.probe_with(mover, addr(2), 0, 42).expect("a challenge");
    match e.settle_probe(mover, addr(2), challenge.token) {
        Some(Event::PeerMoved { peer, .. }) => assert_eq!(peer, mover),
        _ => panic!("the session moves"),
    }
    assert_eq!(e.peers(), vec![mover]);
    assert!(matches!(e.next_event(), Some(Event::PeerLost { peer }) if peer == stander));
}

#[test]
fn an_endpoint_can_refuse_to_follow_anyone() {
    let mut e = server();
    e.set_max_migrations_per_second(0);
    let peer = accept(&mut e, 1, 7, 0);
    let mut search = Search { session_id: 7, at: 0 };
    assert_eq!(e.next_candidate(&mut search, 100 * SEC), None);
    assert_eq!(e.peer_addr(peer), Some(addr(1)));
}

#[test]
fn only_the_first_few_sessions_wearing_an_identifier_can_be_found_by_it() {
    let mut e = server();
    let peers: Vec<PeerId> = (0..12).map(|i| accept(&mut e, 100 + i, 7, u64::from(i))).collect();
    let mut search = Search { session_id: 7, at: 0 };
    let mut tried = Vec::new();
    while let Some(peer) = e.next_candidate(&mut search, 0) {
        tried.push(peer);
    }
    assert_eq!(tried, peers[..4].to_vec());
    let mut nobody = Search { session_id: 8, at: 0 };
    assert_eq!(e.next_candidate(&mut nobody, 0), None);
}

#[test]
fn a_reply_that_would_not_fit_is_refused_at_once() {
    let mut e = server();
    assert_eq!(
        e.set_handshake_reply(&vec![0u8; 1200], 70, 1200),
        Err(Error::Protocol(ProtocolError::PayloadTooLarge))
    );
    assert!(e.handshake_reply.is_empty(), "nothing was kept");
    assert_eq!(e.set_handshake_reply(b"small", 70, 1200), Ok(()));
    assert_eq!(e.handshake_reply, b"small");
    assert_eq!(e.set_handshake_reply(&vec![0u8; 1130], 70, 1200), Ok(()), "exactly fits");
}

#[test]
fn public_key_mode_needs_the_peers_key() {
    let e = server();
    assert!(matches!(e.connect(None), Err(Error::MissingPeerKey)));
    assert!(matches!(e.connect(Some([2u8; 32])), Ok(Opening::Full { peer, .. }) if peer == [2u8; 32]));
    assert!(matches!(e.open(Some([2u8; 32]), 5), Ok(Opening::Full { session_id: 5, .. })));
}

#[test]
fn a_psk_mesh_needs_no_keys_at_all() {
    let e = Endpoint::new(Mode::Psk(ticket(0)), 0);
    assert!(matches!(e.connect(None), Ok(Opening::Psk { .. })));
    assert!(matches!(e.open(None, 5), Ok(Opening::Psk { session_id: 5 })));
}

#[test]
fn session_identifiers_differ_from_dial_to_dial() {
    let e = Endpoint::new(Mode::Psk(ticket(0)), 0);
    let mut seen = Vec::new();
    for _ in 0..8 {
        if let Ok(Opening::Psk { session_id }) = e.connect(None) {
            seen.push(session_id);
        }
    }
    seen.sort();
    seen.dedup();
    assert!(seen.len() > 1, "eight equal identifiers in a row are not random");
}

#[test]
fn an_unanswered_dial_is_reported() {
    let mut e = server();
    let peer = e.connect_and_send(addr(9), 5, b"open".to_vec(), 0);
    assert_eq!(e.connecting(), 1);
    let mut sent = Vec::new();
    let mut now = 0;
    let failed = loop {
        match e.drive_handshakes(now) {
            Handshaking::Settled => {
                let wait = e.next_handshake(now).expect("one is under way");
                now += wait;
            }
            Handshaking::Resend { to, frame, peer: p } => {
                assert_eq!((to, frame, p), (addr(9), b"open".to_vec(), peer));
                sent.push(now);
            }
            Handshaking::Failed(p) => break p,
        }
    };
    assert_eq!(failed, peer);
    assert_eq!(e.connecting(), 0);
    assert_eq!(sent, vec![250 * MS, 750 * MS, 1500 * MS]);
    assert_eq!(now, 2500 * MS);
}

#[test]
fn each_side_knows_which_way_the_connection_ran() {
    let mut e = server();
    let dialled = e.connect_and_send(addr(9), 5, b"open".to_vec(), 0);
    let Action::Complete(peer, outbound) =
        e.dispatch(Some((FrameKind::HandshakeResponse, 5)), addr(9), 20 * MS)
    else {
        panic!("the answer belongs to the dial");
    };
    assert_eq!(peer, dialled);
    assert_eq!(e.connecting(), 0);
    match e.complete_outbound(peer, outbound, Some(established(5, 1)), CEILING, 20 * MS) {
        Event::Connected { peer, initiated, resumed, .. } => {
            assert_eq!(peer, dialled);
            assert!(initiated && !resumed);
        }
        _ => panic!("connected"),
    }
    assert_eq!(e.peers(), vec![dialled]);
}

#[test]
fn an_answer_that_does_not_authenticate_ends_the_attempt() {
    let mut e = server();
    let dialled = e.connect_and_send(addr(9), 5, b"open".to_vec(), 0);
    // From elsewhere, or with another identifier, it is not an answer at all.
    assert!(matches!(
        e.dispatch(Some((FrameKind::HandshakeResponse, 5)), addr(8), 0),
        Action::Ignore
    ));
    assert!(matches!(
        e.dispatch(Some((FrameKind::ResumeResponse, 6)), addr(9), 0),
        Action::Ignore
    ));
    let Action::Complete(peer, outbound) =
        e.dispatch(Some((FrameKind::ResumeResponse, 5)), addr(9), 0)
    else {
        panic!("the answer belongs to the dial");
    };
    assert!(matches!(
        e.complete_outbound(peer, outbound, None, CEILING, 0),
        Event::ConnectFailed { peer } if peer == dialled
    ));
    assert_eq!(e.peer_count(), 0);
}

#[test]
fn nodes_can_dial_each_other_at_once() {
    let mut e = server();
    let dialled = e.connect_and_send(addr(9), 5, b"open".to_vec(), 0);
    let accepted = accept(&mut e, 9, 6, 0);
    let Action::Complete(peer, outbound) =
        e.dispatch(Some((FrameKind::HandshakeResponse, 5)), addr(9), 0)
    else {
        panic!("the answer belongs to the dial");
    };
    e.complete_outbound(peer, outbound, Some(established(5, 1)), CEILING, 0);
    assert_eq!(e.peers(), vec![dialled, accepted], "one dialled, one accepted");
}

#[test]
fn an_abandoned_single_message_is_reported() {
    let mut e = server();
    let peer = accept(&mut e, 1, 7, 0);
    assert_eq!(
        e.send_reliable(peer, b"nobody is listening", PayloadType::Opaque),
        Ok(Route::OneFrame)
    );
    let state = e.peer_mut(peer).expect("on file");
    state.sent_whole(0, PayloadType::Opaque, b"nobody is listening");
    assert!(state.drive_retransmits(Due::GaveUp(0)).is_none());
    assert!(!state.begin_drive());
    e.report(peer, None);
    assert!(matches!(
        e.next_event(),
        Some(Event::Sent { peer: p, delivered: false }) if p == peer
    ));
    assert!(e.next_event().is_none());
    e.report(peer, None);
    assert!(e.next_event().is_none(), "and once only");
}

#[test]
fn a_delivered_single_message_is_not_reported() {
    let mut e = server();
    let peer = accept(&mut e, 1, 7, 0);
    let state = e.peer_mut(peer).expect("on file");
    state.sent_whole(0, PayloadType::Opaque, b"this one lands");
    state.apply_ack(&[0]);
    e.report(peer, None);
    assert!(e.next_event().is_none());
}

#[test]
fn an_abandoned_fragmented_message_is_reported_once() {
    let mut e = server();
    let peer = accept(&mut e, 1, 7, 0);
    assert_eq!(
        e.send_reliable(peer, &vec![1u8; 8192], PayloadType::Opaque),
        Ok(Route::Queued)
    );
    let state = e.peer_mut(peer).expect("on file");
    let mut id = 0;
    while state.next_fragment().is_some() {
        state.fragment_sent(id);
        id += 1;
    }
    assert!(id > 1);
    for lost in 0..id {
        assert!(state.drive_retransmits(Due::GaveUp(lost)).is_none());
    }
    assert!(state.begin_drive());
    let finished = state.finish_drive();
    assert_eq!(finished, Some(Finished { delivered: false }));
    e.report(peer, finished);
    assert!(matches!(e.next_event(), Some(Event::Sent { delivered: false, .. })));
    assert!(e.next_event().is_none(), "one message was given up on, so one report");
}

#[test]
fn an_established_peer_is_answered_and_an_unproved_address_is_not() {
    let mut e = server();
    let peer = accept(&mut e, 1, 7, 0);
    assert!(matches!(e.deliver(peer, whole(true), addr(1), true, 0), Ok(Heard::Reply)));
    assert!(matches!(e.deliver(peer, Step::Duplicate, addr(1), true, 0), Ok(Heard::Reply)));
    assert!(matches!(
        e.deliver(peer, Step::AnswerChallenge(1), addr(1), true, 0),
        Ok(Heard::Reply)
    ));
    assert!(matches!(
        e.deliver(peer, Step::AnswerChallenge(1), addr(2), false, 0),
        Ok(Heard::Challenge(_))
    ));
    assert!(matches!(
        e.deliver(PeerId(99), whole(true), addr(1), true, 0),
        Ok(Heard::Rejected)
    ));
}

#[test]
fn the_wait_is_for_whatever_comes_first() {
    let mut e = server();
    assert_eq!(e.poll_wait(None, None, 0), None);
    assert_eq!(e.poll_wait(None, Some(50 * MS), 0), Some(50 * MS));
    assert_eq!(e.poll_wait(Some(30 * MS), Some(50 * MS), 0), Some(30 * MS));
    assert_eq!(e.poll_wait(Some(0), Some(50 * MS), 0), Some(MS), "never for ever");
    e.connect_and_send(addr(9), 5, b"open".to_vec(), 0);
    assert_eq!(e.poll_wait(None, None, 0), Some(250 * MS));
    accept(&mut e, 1, 7, 0);
    e.set_peer_timeout(Some(SEC));
    e.set_keepalive(Some(100 * MS));
    assert_eq!(e.poll_wait(None, None, 0), Some(100 * MS));
    e.set_keepalive(None);
    assert_eq!(e.poll_wait(None, None, 900 * MS), Some(MS), "the dial is overdue");
    assert_eq!(e.next_liveness_check(900 * MS), Some(100 * MS));
}

const RUBBISH: Polled = Polled::Dispatched { ok: true, happened: false, heard: None };

#[test]
fn poll_returns_within_its_timeout_under_a_flood() {
    let mut wait = Wait { deadline: Some(50 * MS), planned: true, due: None };
    assert_eq!(poll(&mut wait, RUBBISH, 20 * MS), Poll::Read(Some(30 * MS)));
    assert_eq!(poll(&mut wait, RUBBISH, 50 * MS - 1), Poll::Read(Some(MS)), "never for ever");
    assert_eq!(poll(&mut wait, RUBBISH, 50 * MS), Poll::Idle);
    let mut endless = Wait { deadline: None, planned: true, due: None };
    assert_eq!(poll(&mut endless, RUBBISH, u64::MAX), Poll::Read(None));
    let timed_out = Polled::Read(Err(IoKind::TimedOut));
    assert_eq!(poll(&mut endless, timed_out, 0), Poll::Idle);
    assert_eq!(poll(&mut wait, timed_out, 5), Poll::Again);
    assert_eq!(poll(&mut wait, timed_out, 50 * MS), Poll::Idle);
    let refused = Polled::Read(Err(IoKind::ConnectionRefused));
    assert_eq!(
        poll(&mut endless, refused, 0),
        Poll::Read(None),
        "news about one peer, not a failure"
    );
    assert_eq!(poll(&mut wait, Polled::Read(Err(IoKind::Other)), 0), Poll::Fail);
    assert_eq!(poll(&mut wait, Polled::Read(Ok(64)), 60 * MS), Poll::Dispatch(64));
    assert_eq!(poll(&mut wait, Polled::TimeoutRefused, 0), Poll::Fail);
    let failed = Polled::Dispatched { ok: false, happened: false, heard: None };
    assert_eq!(poll(&mut wait, failed, 0), Poll::Fail);
}

#[test]
fn a_pass_does_everything_in_order() {
    let mut wait = Wait::new(Some(SEC));
    let pass = [
        (Polled::Begun, Poll::DriveRetransmits),
        (Polled::RetransmitsDriven { ok: true }, Poll::DriveHandshakes),
        (Polled::HandshakesDriven { ok: true, failed: false }, Poll::DriveQueues),
        (Polled::QueuesDriven { ok: true }, Poll::DriveLiveness),
        (Polled::LivenessDriven, Poll::DriveKeepalives),
        (Polled::KeepalivesDriven { ok: true }, Poll::Look),
        (Polled::Looked { found: false }, Poll::Plan),
        (Polled::Planned { timeout: Some(7 * MS), due: Some(30 * MS) }, Poll::Read(Some(7 * MS))),
    ];
    for (done, next) in pass {
        assert_eq!(poll(&mut wait, done, 0), next);
    }
    assert_eq!(wait, Wait { deadline: Some(SEC), planned: true, due: Some(30 * MS) });
    // Before anything is due the next datagram is read; after that a pass begins.
    assert_eq!(poll(&mut wait, RUBBISH, 10 * MS), Poll::Read(Some(20 * MS)));
    assert_eq!(poll(&mut wait, RUBBISH, 30 * MS), Poll::Again);
    assert_eq!(poll(&mut wait, Polled::Begun, 30 * MS), Poll::DriveRetransmits);
    assert_eq!(wait, Wait::new(Some(SEC)));
    assert_eq!(poll(&mut wait, Polled::HandshakesDriven { ok: true, failed: true }, 0), Poll::Report);
    assert_eq!(poll(&mut wait, Polled::Looked { found: true }, 0), Poll::Report);
    assert_eq!(poll(&mut wait, Polled::QueuesDriven { ok: false }, 0), Poll::Fail);
}

#[test]
fn a_frame_from_a_peer_has_that_peers_queue_fed_and_no_other() {
    let peer = PeerId(3);
    let mut wait = Wait { deadline: None, planned: true, due: None };
    let heard = Polled::Dispatched { ok: true, happened: false, heard: Some(peer) };
    assert_eq!(poll(&mut wait, heard, 0), Poll::DriveQueue(peer));
    let fed = Polled::QueueDriven { ok: true, due: Some(200 * MS) };
    assert_eq!(poll(&mut wait, fed, 0), Poll::Look);
    assert_eq!(wait.due, Some(200 * MS), "what it sent may have to be sent again");
    assert_eq!(poll(&mut wait, Polled::Looked { found: false }, 0), Poll::Read(Some(200 * MS)));
    let later = Polled::QueueDriven { ok: true, due: Some(300 * MS) };
    assert_eq!(poll(&mut wait, later, 0), Poll::Look);
    assert_eq!(wait.due, Some(200 * MS), "the nearest stays the nearest");
    assert_eq!(poll(&mut wait, Polled::QueueDriven { ok: false, due: None }, 0), Poll::Fail);
    let happened = Polled::Dispatched { ok: true, happened: true, heard: Some(peer) };
    assert_eq!(poll(&mut wait, happened, 0), Poll::Report);
}

/// Sends a burst of datagrams that fail at the very first check, and counts what
/// the endpoint does about them.
fn steps_behind_a_burst(e: &mut Endpoint, burst: usize) -> usize {
    let mut wait = Wait::new(Some(5 * SEC));
    let mut done = Polled::Begun;
    let mut left = burst;
    let mut steps = 0;
    loop {
        steps += 1;
        done = match poll(&mut wait, done, 0) {
            Poll::Again => Polled::Begun,
            Poll::DriveRetransmits => Polled::RetransmitsDriven { ok: true },
            Poll::DriveHandshakes => Polled::HandshakesDriven { ok: true, failed: false },
            Poll::DriveQueues => {
                steps += e.peer_count();
                Polled::QueuesDriven { ok: true }
            }
            Poll::DriveLiveness => {
                e.drive_liveness(0);
                Polled::LivenessDriven
            }
            Poll::DriveKeepalives => {
                assert!(e.drive_keepalives(0).is_empty());
                Polled::KeepalivesDriven { ok: true }
            }
            Poll::Look => Polled::Looked { found: e.next_event().is_some() },
            Poll::Plan => Polled::Planned {
                timeout: e.poll_wait(None, wait.deadline, 0),
                due: e.next_due(None),
            },
            Poll::Read(_) if left == 0 => return steps,
            Poll::Read(_) => {
                left -= 1;
                Polled::Read(Ok(14))
            }
            Poll::Dispatch(_) => {
                assert!(matches!(e.dispatch(None, addr(5), 0), Action::Ignore));
                RUBBISH
            }
            _ => panic!("rubbish brings nothing"),
        };
    }
}

#[test]
fn a_burst_of_rubbish_does_not_cost_more_when_more_peers_are_on_file() {
    const PEERS: usize = 64;
    const BURST: usize = 4000;
    let mut e = server();
    e.set_keepalive(Some(SEC));
    e.set_peer_timeout(Some(10 * SEC));
    let conn = accept(&mut e, 1, 1, 0);
    speak(&mut e, conn, 0);
    let alone = steps_behind_a_burst(&mut e, BURST);
    for n in 0..PEERS as u16 {
        accept(&mut e, 1000 + n, u32::from(n) + 2, 0);
    }
    let crowded = steps_behind_a_burst(&mut e, BURST);
    assert!(crowded < alone * 4);
    assert_eq!(crowded - alone, PEERS, "one pass over them, and none for the burst");
}

#[test]
fn what_is_due_next_is_the_nearest_of_everything() {
    let mut e = server();
    assert_eq!(e.next_due(None), None);
    assert_eq!(e.next_due(Some(30 * MS)), Some(30 * MS));
    e.connect_and_send(addr(9), 5, b"open".to_vec(), 0);
    assert_eq!(e.next_due(None), Some(250 * MS));
    assert_eq!(e.next_due(Some(30 * MS)), Some(30 * MS));
    let peer = accept(&mut e, 1, 7, 0);
    e.set_keepalive(Some(100 * MS));
    assert_eq!(e.next_due(None), Some(250 * MS), "a peer that never spoke is sent none");
    assert_eq!(e.due_of(peer), None);
    speak(&mut e, peer, 0);
    assert_eq!(e.next_due(None), Some(100 * MS));
    assert_eq!(e.due_of(peer), Some(100 * MS));
    assert!(e.drive_keepalives(100 * MS - 1).is_empty());
    assert_eq!(e.drive_keepalives(100 * MS), vec![peer]);
    e.set_keepalive(None);
    e.set_peer_timeout(Some(SEC));
    assert_eq!(e.due_of(peer), Some(SEC));
    assert_eq!(e.due_of(PeerId(99)), None);
    e.drive_liveness(SEC - 1);
    assert_eq!(e.peer_count(), 1);
    e.drive_liveness(SEC);
    assert_eq!(e.peer_count(), 0);
}

#[test]
fn a_reconnect_from_the_same_place_replaces_the_session() {
    let mut e = server();
    let first = accept(&mut e, 1, 7, 0);
    let second = accept(&mut e, 1, 7, 1);
    assert_ne!(first, second);
    assert_eq!(e.peers(), vec![second]);
}

#[test]
fn a_peer_that_accepts_less_is_sent_less() {
    let mut e = server();
    let mut small = established(7, 1);
    small.link.capabilities.max_frame_size = 256;
    let event = e.register(small, addr(1), Vec::new(), CEILING, 0);
    let Event::Connected { peer, .. } = event else {
        panic!("connected");
    };
    assert_eq!(e.send(peer), Ok((addr(1), 256)));
}
