//! What one peer is sent, and what is kept until it answers.

use fectp::codec::{local_capabilities, Capabilities};
use fectp::compress::Plan;
use fectp::connection::{Connection, Flush, Pump, Pumped, Recv, Turn};
use fectp::drive::{registered, Route};
use fectp::duplex::Carried;
use fectp::error::{Error, IoKind, ProtocolError};
use fectp::fragment::Fragment;
use fectp::link::Link;
use fectp::peer::{choose_body, envelope, Body, Due, Envelope, Finished, Peer};
use fectp::reassembly::Reassembly;
use fectp::{PayloadType, MAX_MESSAGE_LEN, MAX_QUEUED};

const MS: u64 = 1_000_000;
const MESSAGE_ID_LEN: usize = 8;
const FRAGMENT_LEN: usize = 8;

fn link(encrypted: bool, capabilities: Capabilities) -> Link {
    Link {
        encrypted,
        session_id: 7,
        capabilities,
        session_limit: 65535,
        message_id_len: MESSAGE_ID_LEN,
        fragment_len: FRAGMENT_LEN,
        authenticated: [9u8; 32],
        padding: false,
    }
}

fn peer() -> Peer {
    Peer::new(link(true, local_capabilities(1200)), 1200)
}

fn connection() -> Connection {
    Connection::new(link(true, local_capabilities(1200)), 1200, 0)
}

/// High-entropy bytes, so nothing is carried by compression.
fn incompressible(len: usize) -> Vec<u8> {
    let mut state = 0x2545_F491_4F6C_DD1Du64;
    (0..len)
        .map(|_| {
            state ^= state << 13;
            state ^= state >> 7;
            state ^= state << 17;
            (state >> 24) as u8
        })
        .collect()
}

/// Feeds out everything that is queued, as though the window were endless, and
/// returns what went out.
fn feed(peer: &mut Peer, first_id: u64) -> Vec<(u64, Fragment, Vec<u8>)> {
    let mut out = Vec::new();
    let mut id = first_id;
    while let Some(piece) = peer.next_fragment() {
        peer.fragment_sent(id);
        out.push((id, piece.fragment, piece.data));
        id += 1;
    }
    out
}

#[test]
fn the_payload_limits_are_ordered_as_documented() {
    let conn = connection();
    assert!(conn.max_fragment_payload() < conn.max_reliable_payload());
    assert!(conn.max_reliable_payload() < conn.max_payload());
    assert_eq!(conn.max_payload(), 1200 - 30);
    assert_eq!(conn.max_reliable_payload(), 1200 - 30 - MESSAGE_ID_LEN);
    assert_eq!(
        conn.max_fragment_payload(),
        1200 - 30 - MESSAGE_ID_LEN - FRAGMENT_LEN
    );
}

#[test]
fn plaintext_frames_are_smaller() {
    let plain = Connection::new(link(false, local_capabilities(1200)), 1200, 0);
    let encrypted = connection();
    assert!(!plain.is_encrypted());
    assert_eq!(
        plain.max_payload() - encrypted.max_payload(),
        16,
        "the difference is exactly the authentication tag"
    );
}

#[test]
fn raising_the_ceiling_puts_more_in_every_frame() {
    let small = connection().max_payload();
    assert!(small < fectp::DEFAULT_MAX_DATAGRAM, "a frame is its payload plus overhead");
    const ETHERNET: usize = 1472;
    let large = Connection::new(link(true, local_capabilities(ETHERNET)), ETHERNET, 0).max_payload();
    assert_eq!(large - small, ETHERNET - fectp::DEFAULT_MAX_DATAGRAM);
}

#[test]
fn a_plaintext_peer_has_no_identity_and_no_padding() {
    let mut plain = Connection::new(link(false, local_capabilities(1200)), 1200, 0);
    assert_eq!(plain.peer_public_key(), [0u8; 32]);
    plain.set_padding(true);
    assert!(!plain.peer.link.padding);
    assert!(!plain.peer.link.resumable());
    let mut encrypted = connection();
    assert_eq!(encrypted.peer_public_key(), [9u8; 32]);
    encrypted.set_padding(true);
    assert!(encrypted.peer.link.padding);
    assert!(encrypted.peer.link.resumable());
}

#[test]
fn a_message_larger_than_one_frame_arrives_whole() {
    let mut peer = peer();
    let limit = peer.max_payload(1200);
    let payload = incompressible(limit * 3 + 17);
    assert_eq!(
        peer.send_reliable(&payload, PayloadType::Opaque, 1200),
        Ok(Route::Queued)
    );
    let sent = feed(&mut peer, 0);
    assert_eq!(sent.len(), 4);

    let mut reassembly = Reassembly::new();
    let mut arrived = Vec::new();
    for (_, fragment, data) in sent.iter().rev() {
        if let Ok(Some(whole)) = reassembly.accept(*fragment, data) {
            arrived.push(whole);
        }
    }
    assert_eq!(arrived, vec![payload], "once, and whole");
    assert_eq!(reassembly.in_progress(), 0);
}

#[test]
fn an_empty_message_survives_the_round_trip() {
    let mut peer = peer();
    assert_eq!(
        peer.send_reliable(&[], PayloadType::Opaque, 1200),
        Ok(Route::OneFrame)
    );
    assert_eq!(peer.queue_message(&[], PayloadType::Opaque, 1200), Ok(()));
    let sent = feed(&mut peer, 0);
    assert_eq!(sent.len(), 1);
    let mut reassembly = Reassembly::new();
    assert_eq!(reassembly.accept(sent[0].1, &sent[0].2), Ok(Some(Vec::new())));
}

#[test]
fn a_message_above_the_reassembly_ceiling_is_refused() {
    let mut peer = peer();
    let huge = vec![0u8; MAX_MESSAGE_LEN + 1];
    assert_eq!(
        peer.send_reliable(&huge, PayloadType::Opaque, 1200),
        Err(Error::PayloadTooLarge { len: MAX_MESSAGE_LEN + 1, limit: MAX_MESSAGE_LEN })
    );
    assert_eq!(peer.queued(), 0);
}

#[test]
fn two_fragmented_messages_do_not_mix() {
    let mut peer = peer();
    let limit = peer.max_payload(1200);
    let first = incompressible(limit * 2 + 5);
    let second: Vec<u8> = first.iter().map(|b| !b).collect();
    peer.queue_message(&first, PayloadType::Opaque, 1200).expect("first");
    peer.queue_message(&second, PayloadType::Opaque, 1200).expect("second");

    let mut sent = feed(&mut peer, 0);
    peer.apply_ack(&[0, 1, 2]);
    assert_eq!(peer.finish_drive(), Some(Finished { delivered: true }));
    let more = feed(&mut peer, 3);
    sent.extend(more);

    let mut reassembly = Reassembly::new();
    let mut arrived = Vec::new();
    for (_, fragment, data) in &sent {
        if let Ok(Some(whole)) = reassembly.accept(*fragment, data) {
            arrived.push(whole);
        }
    }
    assert_eq!(arrived, vec![first, second], "in order, and each its own");
}

#[test]
fn a_reliable_message_of_exactly_its_advertised_limit_is_sendable() {
    let mut conn = connection();
    let payload = incompressible(conn.max_reliable_payload());
    assert_eq!(
        conn.send_reliable(&payload, PayloadType::Opaque),
        Ok(Route::OneFrame)
    );
    let over = incompressible(conn.max_reliable_payload() + 1);
    assert_eq!(conn.send_reliable(&over, PayloadType::Opaque), Ok(Route::Queued));
    assert_eq!(conn.queued(), 1);
}

#[test]
fn a_peer_without_the_reliability_layer_is_refused() {
    let mut caps = local_capabilities(1200);
    caps.reliable = false;
    let mut peer = Peer::new(link(true, caps), 1200);
    assert_eq!(
        peer.send_reliable(b"x", PayloadType::Opaque, 1200),
        Err(Error::ReliabilityUnsupported)
    );
    assert_eq!(
        peer.queue_message(&vec![0u8; 5000], PayloadType::Opaque, 1200),
        Err(Error::ReliabilityUnsupported)
    );
}

#[test]
fn queueing_more_than_the_limit_is_refused() {
    let mut peer = peer();
    let payload = incompressible(40_000);
    for _ in 0..MAX_QUEUED {
        peer.queue_message(&payload, PayloadType::Opaque, 1200).expect("within the limit");
    }
    assert_eq!(
        peer.queue_message(&payload, PayloadType::Opaque, 1200),
        Err(Error::Protocol(ProtocolError::WindowFull)),
        "one past the queue limit must be refused, not queued anyway"
    );
}

#[test]
fn oversized_payload_is_refused() {
    let mut conn = connection();
    let payload = incompressible(conn.max_payload() + 1);
    let attempt = conn.send(&payload, PayloadType::Opaque);
    assert!(attempt.must_try && attempt.attempted);
    let body = conn.peer.seal(attempt, &payload, PayloadType::Opaque, Err(ProtocolError::Rejected));
    assert_eq!(
        body,
        Err(Error::PayloadTooLarge { len: payload.len(), limit: conn.max_payload() })
    );
}

#[test]
fn a_payload_that_only_fits_when_coded_is_still_coded() {
    let mut conn = connection();
    // A run of incompressible payloads teaches the stream that coding is not
    // paying.
    let noise = incompressible(1100);
    for _ in 0..4 {
        let attempt = conn.send(&noise, PayloadType::Opaque);
        assert!(attempt.attempted);
        let body =
            conn.peer.seal(attempt, &noise, PayloadType::Opaque, Err(ProtocolError::Rejected));
        assert_eq!(body, Ok(Body::Raw));
    }
    let attempt = conn.send(&noise, PayloadType::Opaque);
    assert!(!attempt.attempted);
    assert_eq!(attempt.plan, Plan::Skip);

    // But one that does not fit as it is gets the attempt all the same.
    let text: Vec<u8> = b"all work and no play ".iter().cycle().take(8000).copied().collect();
    let attempt = conn.send(&text, PayloadType::Opaque);
    assert!(attempt.must_try && attempt.attempted);
    let body = conn
        .peer
        .seal(attempt, &text, PayloadType::Opaque, Err(ProtocolError::Rejected))
        .expect("it fits when coded");
    let Body::Coded { header, len } = body else {
        panic!("expected a coded body");
    };
    assert_eq!(usize::from(header.original_len), text.len());
    let encoded = [1u8, 2, 3, 4];
    let bytes = conn.peer.assemble(body, &encoded, &text);
    assert_eq!(bytes.len(), 4 + len);
    assert_eq!(&bytes[..4], &encoded);
    assert_eq!(conn.peer.assemble(Body::Raw, &encoded, b"raw"), b"raw");
}

#[test]
fn the_coded_form_has_to_fit_with_its_header() {
    let header = fectp::codec::CodecHeader {
        transform: fectp::codec::Transform::Unchanged,
        entropy: fectp::codec::Entropy::Zstd,
        param: 0,
        original_len: 500,
    };
    assert_eq!(
        choose_body(Some((header, 96)), 500, 100),
        Ok(Body::Coded { header, len: 96 })
    );
    assert_eq!(
        choose_body(Some((header, 97)), 500, 100),
        Err(Error::PayloadTooLarge { len: 500, limit: 100 })
    );
    assert_eq!(choose_body(None, 100, 100), Ok(Body::Raw));
}

#[test]
fn a_frame_is_sealed_for_what_it_is() {
    let fragment = Fragment { message: 1, index: 0, count: 2 };
    assert_eq!(envelope(None, None), Envelope::Bare);
    assert_eq!(envelope(Some(5), None), Envelope::Reliable(5));
    assert_eq!(envelope(Some(5), Some(fragment)), Envelope::Fragment(5, fragment));
}

#[test]
fn only_the_lost_message_is_resent() {
    let mut peer = peer();
    for i in 0..3u8 {
        peer.sent_whole(u64::from(i), PayloadType::Opaque, &[i; 8]);
    }
    peer.apply_ack(&[0, 2]);
    assert!(peer.drive_retransmits(Due::Retransmit(0)).is_none());
    assert!(peer.drive_retransmits(Due::Retransmit(2)).is_none());
    let again = peer.drive_retransmits(Due::Retransmit(1)).expect("still in flight");
    assert_eq!(again.data, vec![1u8; 8]);
    assert_eq!(again.fragment, None);
}

#[test]
fn a_fragmented_message_survives_a_dropped_fragment() {
    let mut peer = peer();
    let payload = incompressible(peer.max_fragment_payload(1200) * 4);
    peer.queue_message(&payload, PayloadType::Opaque, 1200).expect("queued");
    let sent = feed(&mut peer, 0);
    assert_eq!(sent.len(), 4);
    peer.apply_ack(&[0, 1, 3]);
    assert_eq!(peer.finish_drive(), None, "one is outstanding");

    let again = peer.drive_retransmits(Due::Retransmit(2)).expect("in flight");
    assert_eq!(again.fragment, Some(sent[2].1), "still carrying its descriptor");
    assert_eq!(again.data, sent[2].2);
    peer.apply_ack(&[2]);
    assert_eq!(peer.finish_drive(), Some(Finished { delivered: true }));
    assert_eq!(peer.queued(), 0);
}

#[test]
fn a_fragmented_message_whose_fragment_never_arrives_is_reported() {
    let mut conn = connection();
    let payload = vec![0xA5u8; conn.max_fragment_payload() * 3];
    assert_eq!(conn.send_reliable(&payload, PayloadType::Opaque), Ok(Route::Queued));
    feed(&mut conn.peer, 0);
    conn.begin_flush();
    conn.peer.apply_ack(&[0, 2]);
    assert!(conn.peer.drive_retransmits(Due::GaveUp(1)).is_none());
    assert!(conn.peer.begin_drive());
    assert!(conn.peer.next_fragment().is_none(), "a lost message is not fed on");
    let finished = conn.peer.finish_drive();
    assert_eq!(finished, Some(Finished { delivered: false }));
    conn.note_finished(finished);
    assert_eq!(conn.flush(0, 1000, 10), Flush::Unacknowledged(1));
}

#[test]
fn flush_reports_messages_that_were_never_delivered() {
    let mut conn = connection();
    conn.peer.sent_whole(0, PayloadType::Opaque, b"into the void");
    conn.begin_flush();
    assert_eq!(conn.flush(1, 300 * MS, 0), Flush::Wait);
    assert_eq!(conn.flush(1, 300 * MS, 300 * MS), Flush::Unacknowledged(1));
    conn.peer.give_up(0);
    assert_eq!(conn.flush(0, 300 * MS, 10), Flush::Unacknowledged(1));
    conn.begin_flush();
    assert_eq!(conn.flush(0, 300 * MS, 10), Flush::Done);
    conn.peer.queue_message(&vec![1u8; 4000], PayloadType::Opaque, 1200).expect("queued");
    assert_eq!(conn.flush(0, 300 * MS, 10), Flush::Wait, "what is queued counts too");
}

#[test]
fn what_a_peer_sent_first_is_read_first() {
    let mut conn = connection();
    conn.queue_first(Vec::new());
    let mut out = [0u8; 16];
    assert_eq!(conn.recv_kept(&mut out), None, "nothing was sent, so nothing waits");
    conn.queue_first(b"banner".to_vec());
    conn.keep(b"second".to_vec());
    assert_eq!(conn.recv_kept(&mut out), Some(Ok(6)));
    assert_eq!(&out[..6], b"banner");
    let mut tiny = [0u8; 2];
    assert_eq!(
        conn.recv_kept(&mut tiny),
        Some(Err(Error::PayloadTooLarge { len: 6, limit: 2 }))
    );
    assert_eq!(tiny, [0u8; 2]);
    assert_eq!(conn.recv_kept(&mut out), None);
}

#[test]
fn what_was_kept_is_taken_out_in_order() {
    let mut conn = connection();
    assert!(conn.take_kept().is_empty());
    conn.queue_first(b"banner".to_vec());
    conn.keep(b"second".to_vec());
    conn.keep(b"third".to_vec());
    assert_eq!(
        conn.take_kept(),
        vec![b"banner".to_vec(), b"second".to_vec(), b"third".to_vec()]
    );
    assert!(conn.take_kept().is_empty(), "each is taken out once");
    let mut out = [0u8; 16];
    assert_eq!(conn.recv_kept(&mut out), None);
}

#[test]
fn a_full_window_ends_the_pass_and_any_other_failure_fails_it() {
    assert_eq!(registered(Ok(7)), Ok(Some(7)));
    assert_eq!(registered(Err(ProtocolError::WindowFull)), Ok(None));
    assert_eq!(
        registered(Err(ProtocolError::Rejected)),
        Err(Error::Protocol(ProtocolError::Rejected))
    );
}

#[test]
fn a_new_session_starts_with_nothing() {
    let conn = connection();
    assert!(conn.peer.pending.is_empty() && conn.peer.abandoned.is_empty());
    assert!(conn.peer.queue.is_empty());
    assert_eq!((conn.peer.given_up, conn.peer.unreported), (0, 0));
    assert_eq!(conn.peer.next_message, 0);
    assert_eq!(conn.peer.primary, vec![0u8; 1200]);
    assert_eq!(conn.peer.secondary, vec![0u8; 1200]);
    assert_eq!((conn.peer.coding.misses, conn.peer.coding.skips), (0, 0));
}

#[test]
fn message_identifiers_count_up_and_wrap() {
    let mut conn = connection();
    let payload = incompressible(3000);
    conn.peer.next_message = u32::MAX;
    assert_eq!(conn.send_reliable(&payload, PayloadType::Opaque), Ok(Route::Queued));
    assert_eq!(conn.peer.next_message, 0);
    assert_eq!(conn.send_reliable(&payload, PayloadType::Opaque), Ok(Route::Queued));
    assert_eq!(conn.peer.next_message, 1);
    let names: Vec<u32> = conn.peer.queue.iter().map(|job| job.message).collect();
    assert_eq!(names, vec![u32::MAX, 0]);
    // One that fits a frame takes no identifier.
    assert_eq!(conn.send_reliable(b"small", PayloadType::Opaque), Ok(Route::OneFrame));
    assert_eq!(conn.peer.next_message, 1);
}

#[test]
fn messages_go_out_whole_in_order_and_once_over_many_passes() {
    let mut peer = peer();
    let first = incompressible(5000);
    let second: Vec<u8> = incompressible(4000).iter().map(|b| !b).collect();
    peer.queue_message(&first, PayloadType::Opaque, 1200).expect("first");
    peer.queue_message(&second, PayloadType::Opaque, 1200).expect("second");
    // A window of two frames: each pass sends as many as fit, and the peer
    // acknowledges one of them before the next.
    let mut sent: Vec<(Fragment, Vec<u8>)> = Vec::new();
    let mut finished = 0;
    let mut id = 0u64;
    for _ in 0..100 {
        if !peer.begin_drive() {
            break;
        }
        while peer.pending.len() < 2 {
            let Some(piece) = peer.next_fragment() else { break };
            sent.push((piece.fragment, piece.data));
            peer.fragment_sent(id);
            id += 1;
        }
        if let Some(done) = peer.finish_drive() {
            assert!(done.delivered);
            finished += 1;
        }
        if let Some(oldest) = peer.pending.first().map(|p| p.id) {
            peer.apply_ack(&[oldest]);
        }
    }
    assert_eq!(finished, 2);
    assert_eq!(peer.queued(), 0);
    let numbers: Vec<(u32, u16, u16)> =
        sent.iter().map(|(f, _)| (f.message, f.index, f.count)).collect();
    let expected: Vec<(u32, u16, u16)> =
        (0..5).map(|i| (0, i, 5)).chain((0..4).map(|i| (1, i, 4))).collect();
    assert_eq!(numbers, expected);
    let joined: Vec<u8> = sent.iter().flat_map(|(_, data)| data.clone()).collect();
    assert_eq!(joined, [first, second].concat());
    assert!(sent[..4].iter().all(|(_, data)| data.len() == 1200 - 30 - 16));
}

#[test]
fn a_wait_for_a_message_ends_at_its_deadline() {
    let mut conn = connection();
    assert_eq!(conn.read_deadline(5), None);
    assert_eq!(conn.recv(None, None, u64::MAX), Recv::Again);
    conn.set_read_timeout(Some(100));
    let deadline = conn.read_deadline(5);
    assert_eq!(deadline, Some(105));
    assert_eq!(conn.recv(None, deadline, 104), Recv::Again);
    assert_eq!(conn.recv(None, deadline, 105), Recv::TimedOut);
    assert_eq!(conn.recv(Some(3), deadline, 200), Recv::Message(3));
}

#[test]
fn the_socket_blocks_until_the_first_thing_due() {
    let mut conn = connection();
    assert_eq!(conn.pump_wait(None, None, 0), None);
    assert_eq!(conn.pump_wait(Some(50 * MS), Some(20 * MS), 0), Some(20 * MS));
    assert_eq!(conn.pump_wait(Some(5 * MS), Some(20 * MS), 0), Some(5 * MS));
    assert_eq!(conn.pump_wait(Some(0), None, 0), Some(MS), "never for ever");
    conn.set_keepalive(Some(0));
    assert_eq!(conn.keepalive, Some(100 * MS), "a zero interval is not taken literally");
    assert_eq!(conn.pump_wait(None, None, 40 * MS), Some(60 * MS));
    assert!(!conn.keepalive_due(99 * MS));
    assert!(conn.keepalive_due(100 * MS));
    conn.sent(100 * MS);
    assert!(!conn.keepalive_due(150 * MS));
}

#[test]
fn a_turn_hands_over_to_a_reader_and_keeps_otherwise() {
    let body = Pumped::Ingested { ok: true, reply: true, carried: Carried::Body };
    let mut turn = Turn::new(true);
    assert_eq!(turn.pump(Pumped::Begun), Pump::DriveQueue);
    assert_eq!(turn.pump(Pumped::QueueDriven { ok: true }), Pump::Drive);
    assert_eq!(turn.pump(Pumped::Driven { ok: true }), Pump::SetTimeout);
    assert_eq!(turn.pump(Pumped::TimeoutSet { ok: true }), Pump::Read);
    assert_eq!(turn.pump(Pumped::Read(Ok(64))), Pump::Ingest(64));
    assert_eq!(turn.pump(body), Pump::Reply);
    assert_eq!(turn.pump(Pumped::Replied { ok: true }), Pump::DecodeOut);

    let mut turn = Turn::new(false);
    assert_eq!(turn.pump(body), Pump::Reply);
    assert_eq!(turn.pump(Pumped::Replied { ok: true }), Pump::DecodeAndKeep);
    let message = Pumped::Ingested { ok: true, reply: false, carried: Carried::Message };
    assert_eq!(turn.pump(message), Pump::Keep);
    assert_eq!(turn.pump(Pumped::Read(Err(IoKind::TimedOut))), Pump::Nothing);
    assert_eq!(turn.pump(Pumped::Read(Err(IoKind::Other))), Pump::Fail);
}

#[test]
fn the_first_frame_with_an_identifier_is_the_one_sent_again() {
    let mut peer = peer();
    peer.sent_whole(4, PayloadType::Opaque, b"first");
    peer.sent_whole(4, PayloadType::Opaque, b"second");
    let again = peer.drive_retransmits(Due::Retransmit(4)).expect("in flight");
    assert_eq!(again.data, b"first");
}
