//! The smaller parts: tickets, identities, the thread, the codes, the stand-in.

use fectp::abi::{
    code, finish_handshake, hand_out, length, report, take_handle, FECTP_ERR_BUFFER,
    FECTP_ERR_NULL, FECTP_ERR_PROTOCOL, FECTP_ERR_TOO_LARGE,
};
use fectp::duplex::{received, tried, Carried, Done, Next, Waited, Worker, IDLE_POLL};
use fectp::error::{Error, IoKind, ProtocolError};
use fectp::footprint::{exercise, Counter, Run};
use fectp::identity::Identity;
use fectp::random::{random_bytes, random_token, spell_u32, spell_u64};
use fectp::table::Address;
use fectp::ticket::TicketStore;
use fectp::udp::{Ceiling, UdpTransport};
use fectp::{Ticket, MAX_TICKETS, TICKET_LIFETIME};

fn ticket(n: u32) -> Ticket {
    Ticket { id: n.to_le_bytes().to_vec(), key: [n as u8; 32] }
}

#[test]
fn a_ticket_is_single_use() {
    let mut store = TicketStore::new();
    store.insert(ticket(1), [5u8; 32], 0);
    store.insert(ticket(2), [6u8; 32], 0);
    let (taken, peer) = store.take(&ticket(1).id, 10).expect("held");
    assert_eq!(taken.key, [1u8; 32]);
    assert_eq!(peer, [5u8; 32]);
    assert!(store.take(&ticket(1).id, 10).is_none());
    assert_eq!(store.len(), 1, "and no other has gone");
}

#[test]
fn the_ticket_store_does_not_grow_past_its_bound() {
    let mut store = TicketStore::new();
    assert!(store.is_empty());
    for n in 0..(MAX_TICKETS as u32 + 64) {
        store.insert(ticket(n), [0u8; 32], 0);
        assert!(store.len() <= MAX_TICKETS);
    }
    assert_eq!(store.len(), MAX_TICKETS);
    assert!(store.take(&ticket(63).id, 0).is_none(), "the oldest went");
    assert!(store.take(&ticket(64).id, 0).is_some(), "the rest did not");
}

#[test]
fn a_ticket_issued_again_keeps_its_place() {
    let mut store = TicketStore::new();
    store.insert(ticket(1), [5u8; 32], 0);
    store.insert(ticket(1), [6u8; 32], 7);
    assert_eq!(store.len(), 1);
    let (_, peer) = store.take(&ticket(1).id, 7).expect("held");
    assert_eq!(peer, [6u8; 32]);
}

#[test]
fn a_ticket_past_its_lifetime_is_gone() {
    let mut store = TicketStore::new();
    store.insert(ticket(1), [5u8; 32], 100);
    assert!(store.take(&ticket(1).id, 100 + TICKET_LIFETIME).is_none());
    assert!(store.is_empty());
    store.insert(ticket(1), [5u8; 32], 100);
    assert!(store.take(&ticket(1).id, 100 + TICKET_LIFETIME - 1).is_some());
    store.set_lifetime(10);
    store.insert(ticket(1), [5u8; 32], 100);
    assert!(store.take(&ticket(1).id, 110).is_none());
}

#[test]
fn wiping_an_identity_leaves_nothing_of_its_secret() {
    let secret = Identity::fresh_secret().expect("randomness");
    assert_ne!(secret, [0u8; 32]);
    let mut identity = Identity::from_secret(secret, [7u8; 32]);
    assert_eq!(identity.secret(), &secret);
    assert_eq!(identity.public(), &[7u8; 32]);
    identity.wipe();
    assert_eq!(identity.secret(), &[0u8; 32]);
    assert_eq!(identity.public(), &[7u8; 32], "only the secret goes");
}

#[test]
fn randomness_is_as_long_as_asked_for_and_differs() {
    let a = random_bytes(32).expect("randomness");
    let b = random_bytes(32).expect("randomness");
    assert_eq!(a.len(), 32);
    assert_ne!(a, b);
    assert_ne!(a, vec![0u8; 32]);
    assert_ne!(random_token().expect("a token"), random_token().expect("a token"));
}

#[test]
fn numbers_are_spelled_lowest_byte_first() {
    assert_eq!(spell_u32(&[1, 2, 3, 4]), 0x0403_0201);
    assert_eq!(spell_u64(&[1, 2, 3, 4, 5, 6, 7, 8]), 0x0807_0605_0403_0201);
    assert_eq!(spell_u64(&[255; 8]), u64::MAX);
}

#[test]
fn a_closed_receiver_reports_it_rather_than_hanging() {
    assert_eq!(received(Waited::Closed), Err(Error::Closed));
    assert_eq!(received(Waited::Nothing), Err(Error::Io(IoKind::TimedOut)));
    assert_eq!(received(Waited::Message(vec![1])), Ok(vec![1]));
    assert_eq!(tried(Waited::Nothing), Ok(None));
    assert_eq!(tried(Waited::Closed), Err(Error::Closed));
    assert_eq!(tried(Waited::Message(vec![1])), Ok(Some(vec![1])));
}

#[test]
fn a_lost_message_is_retransmitted_without_anyone_calling_recv() {
    let mut worker = Worker::new();
    assert_eq!(worker.advance(Done::Turn { stopping: false }), Next::Drive);
    assert_eq!(
        worker.advance(Done::Driven { ok: true, next: None }),
        Next::SetTimeout(IDLE_POLL)
    );
    assert_eq!(
        worker.advance(Done::Driven { ok: true, next: Some(5_000_000) }),
        Next::SetTimeout(5_000_000)
    );
    assert_eq!(
        worker.advance(Done::Driven { ok: true, next: Some(0) }),
        Next::SetTimeout(1_000_000)
    );
    assert_eq!(worker.advance(Done::TimeoutSet { ok: true }), Next::Read);
    assert_eq!(worker.advance(Done::Read(Err(IoKind::WouldBlock))), Next::Turn);
    assert_eq!(worker.advance(Done::Turn { stopping: true }), Next::Stop);
}

#[test]
fn the_thread_takes_a_frame_to_the_receiver() {
    let mut worker = Worker::new();
    assert_eq!(worker.advance(Done::Read(Ok(80))), Next::Ingest(80));
    let body = Done::Ingested { ok: true, reply: true, carried: Carried::Body };
    assert_eq!(worker.advance(body), Next::Reply);
    assert_eq!(worker.advance(Done::Replied { ok: true }), Next::Decode);
    assert_eq!(worker.advance(Done::Decoded { ok: true }), Next::HandOver);
    assert_eq!(worker.advance(Done::HandedOver { ok: true }), Next::Turn);
    let message = Done::Ingested { ok: true, reply: false, carried: Carried::Message };
    assert_eq!(worker.advance(message), Next::HandOver);
    assert_eq!(worker.advance(Done::HandedOver { ok: false }), Next::Stop);
    let rubbish = Done::Ingested { ok: false, reply: true, carried: Carried::Body };
    assert_eq!(worker.advance(rubbish), Next::Turn, "not a reason to stop");
    assert_eq!(worker.advance(Done::Decoded { ok: false }), Next::Turn);
    assert_eq!(worker.advance(Done::Replied { ok: false }), Next::Stop);
    assert_eq!(worker.advance(Done::Read(Err(IoKind::Other))), Next::Stop);
}

#[test]
fn a_consumed_handle_cannot_be_used_twice() {
    let mut slot = Some(5u32);
    assert_eq!(take_handle(&mut slot), Ok(5));
    assert_eq!(slot, None);
    assert_eq!(take_handle(&mut slot), Err(FECTP_ERR_NULL));
}

#[test]
fn a_handshake_that_finishes_gives_its_session_and_empties_its_slot() {
    let mut slot = Some(5u32);
    let done = finish_handshake(&mut slot, |handle| Some(Ok((handle * 2, 7))));
    assert_eq!(done, (7, Some(10u32)));
    assert_eq!(slot, None);
    let again = finish_handshake(&mut slot, |handle: u32| Some(Ok((handle, 7))));
    assert_eq!(again, (FECTP_ERR_NULL, None), "the handle is spent");
}

#[test]
fn a_handshake_that_fails_gives_no_session_and_empties_its_slot() {
    let failures = [
        (None, FECTP_ERR_NULL),
        (Some(ProtocolError::Rejected), FECTP_ERR_PROTOCOL),
        (Some(ProtocolError::BufferTooSmall), FECTP_ERR_BUFFER),
    ];
    for (failure, expected) in failures {
        let mut slot = Some(5u32);
        let done: (isize, Option<u32>) = finish_handshake(&mut slot, |_| failure.map(Err));
        assert_eq!(done, (expected, None));
        assert_eq!(slot, None, "consumed either way");
    }
}

#[test]
fn every_turn_of_the_thread_ends() {
    let mut worker = Worker::new();
    let longest = [
        (Done::Turn { stopping: false }, Next::Drive),
        (Done::Driven { ok: true, next: None }, Next::SetTimeout(IDLE_POLL)),
        (Done::TimeoutSet { ok: true }, Next::Read),
        (Done::Read(Ok(20)), Next::Ingest(20)),
        (Done::Ingested { ok: true, reply: true, carried: Carried::Body }, Next::Reply),
        (Done::Replied { ok: true }, Next::Decode),
        (Done::Decoded { ok: true }, Next::HandOver),
        (Done::HandedOver { ok: true }, Next::Turn),
        (Done::Turn { stopping: true }, Next::Stop),
    ];
    for (done, next) in longest {
        assert_eq!(worker.advance(done), next);
    }
}

#[test]
fn a_short_output_buffer_is_an_error_and_not_a_truncation() {
    let mut frame = vec![0u8; 14];
    frame.extend_from_slice(b"payload and tag");
    let mut tiny = [0u8; 6];
    assert_eq!(hand_out(Ok(7), &frame, &mut tiny), FECTP_ERR_BUFFER);
    assert_eq!(tiny, [0u8; 6], "nothing may be written to a refused buffer");
    let mut out = [9u8; 8];
    assert_eq!(hand_out(Ok(7), &frame, &mut out), 7);
    assert_eq!(&out, b"payload\x09");
}

#[test]
fn a_forged_frame_is_refused_rather_than_delivered() {
    let mut out = [9u8; 8];
    assert_eq!(
        hand_out(Err(ProtocolError::Rejected), &[0u8; 64], &mut out),
        FECTP_ERR_PROTOCOL
    );
    assert_eq!(out, [9u8; 8]);
}

#[test]
fn failures_and_lengths_have_their_codes() {
    assert_eq!(code(ProtocolError::BufferTooSmall), FECTP_ERR_BUFFER);
    assert_eq!(code(ProtocolError::BadHeader), FECTP_ERR_PROTOCOL);
    assert_eq!(length(0), 0);
    assert_eq!(length(1200), 1200);
    assert_eq!(length(usize::MAX), FECTP_ERR_TOO_LARGE);
    assert_eq!(report(Ok(3)), 3);
    assert_eq!(report(Err(ProtocolError::WindowFull)), FECTP_ERR_PROTOCOL);
}

#[test]
fn the_stand_in_follows_from_its_seed() {
    let mut counter = Counter(0x2545_F491_4F6C_DD1D);
    let mut x = 0x2545_F491_4F6C_DD1Du64;
    let mut words = Vec::new();
    for _ in 0..4 {
        x ^= x << 13;
        x ^= x >> 7;
        x ^= x << 17;
        words.push(x);
    }
    assert_eq!(counter.next_u64(), words[0]);
    assert_eq!(counter.next_u32(), words[1] as u32);
    let mut bytes = [0u8; 11];
    counter.fill_bytes(&mut bytes);
    assert_eq!(&bytes[..8], &words[2].to_le_bytes());
    assert_eq!(&bytes[8..], &words[3].to_le_bytes()[..3]);
    assert_eq!(counter, Counter(words[3]));
}

#[test]
fn a_run_is_tallied_as_far_as_it_got() {
    let run = Run {
        init: Some(123),
        zero_rtt: Some(5),
        response: Some(72),
        replied: Some(2),
        opened: Some(12),
        original_len: Some(256),
    };
    assert_eq!(exercise(run), 470);
    assert_eq!(exercise(Run { original_len: None, ..run }), 214);
    assert_eq!(exercise(Run { opened: None, ..run }), 202);
    assert_eq!(exercise(Run { replied: None, ..run }), 0);
    assert_eq!(exercise(Run { init: Some(u32::MAX), ..run }), 346);
}

#[test]
fn a_transport_takes_only_its_peers_datagrams() {
    let addr = |port| Address { v6: false, ip: 1, port, flow: 0, scope: 0 };
    let ceiling = Ceiling::new();
    let connected = UdpTransport::new(&ceiling);
    assert!(connected.accepts(addr(1)));
    let mut bound = UdpTransport::with_peer(addr(1), &ceiling);
    assert!(bound.accepts(addr(1)) && !bound.accepts(addr(2)));
    assert_eq!(bound.max_datagram_size(), 1200);
    bound.set_max_datagram_size(256);
    assert_eq!(bound.max_datagram_size(), 256);
    assert_eq!(bound.sent(10, 10), Ok(()));
    assert_eq!(bound.sent(9, 10), Err(Error::Io(IoKind::Other)));
}
