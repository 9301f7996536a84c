//! What an inbound frame means.

use fectp::codec::{local_capabilities, CodecHeader, Entropy, Transform};
use fectp::error::{Error, ProtocolError};
use fectp::fragment::Fragment;
use fectp::ingest::{decoded_capacity, deliver, ingest, Delivery, Opened, Purpose, Step};
use fectp::link::Link;
use fectp::peer::{Body, Peer};
use fectp::PayloadType;

fn data() -> Opened {
    Opened {
        purpose: Purpose::Data,
        len: 10,
        message_id: None,
        fragment: None,
        compressed: false,
    }
}

#[test]
fn a_frame_that_does_not_open_is_rejected() {
    assert_eq!(ingest(None, true), Step::Rejected);
    assert_eq!(ingest(None, false), Step::Rejected);
}

#[test]
fn a_lost_acknowledgement_does_not_duplicate_the_message() {
    let reliable = Opened { message_id: Some(4), ..data() };
    assert_eq!(
        ingest(Some(reliable), true),
        Step::Whole { len: 10, compressed: false, ack: true }
    );
    // The sender repeats it: acknowledged again, delivered no more.
    assert_eq!(ingest(Some(reliable), false), Step::Duplicate);
}

#[test]
fn every_kind_of_frame_is_told_apart() {
    assert_eq!(ingest(Some(Opened { purpose: Purpose::Ack, ..data() }), true), Step::Acknowledge);
    assert_eq!(
        ingest(Some(Opened { purpose: Purpose::PathChallenge(9), ..data() }), true),
        Step::AnswerChallenge(9)
    );
    assert_eq!(
        ingest(Some(Opened { purpose: Purpose::PathResponse(9), ..data() }), true),
        Step::PathValidated(9)
    );
    let fragment = Fragment { message: 1, index: 0, count: 2 };
    assert_eq!(
        ingest(Some(Opened { fragment: Some(fragment), message_id: Some(1), ..data() }), true),
        Step::Piece { fragment, len: 10, compressed: false, ack: true }
    );
    assert_eq!(
        ingest(Some(data()), false),
        Step::Whole { len: 10, compressed: false, ack: false },
        "an unreliable message has nothing to be a duplicate of"
    );
}

#[test]
fn a_bad_descriptor_costs_a_message_and_not_the_session() {
    let link = Link {
        encrypted: true,
        session_id: 1,
        capabilities: local_capabilities(1200),
        session_limit: 65535,
        message_id_len: 8,
        fragment_len: 8,
        authenticated: [0u8; 32],
        padding: false,
    };
    let mut peer = Peer::new(link, 1200);
    let at = |index, count| Fragment { message: 3, index, count };
    assert_eq!(peer.take_piece(at(0, 2), b"ab"), None);
    assert_eq!(peer.reassembling(), 1);
    assert_eq!(peer.take_piece(at(0, 3), b"ab"), None, "a contradiction");
    assert_eq!(peer.reassembling(), 0);
    assert_eq!(peer.take_piece(at(1, 2), b"c"), None);
    assert_eq!(peer.take_piece(at(0, 2), b"ab"), Some(b"abc".to_vec()));
}

#[test]
fn the_decoded_length_is_the_one_the_header_states() {
    let header = CodecHeader {
        transform: Transform::Unchanged,
        entropy: Entropy::Unchanged,
        param: 0,
        original_len: 300,
    };
    let body = [0u8; 20];
    assert_eq!(decoded_capacity(&body, false, Ok(header)), 20);
    assert_eq!(decoded_capacity(&body, true, Ok(header)), 300);
    assert_eq!(decoded_capacity(&body, true, Err(ProtocolError::BadHeader)), 20);
}

#[test]
fn an_uncoded_body_is_copied_out() {
    let mut scratch = Vec::new();
    let mut out = [9u8; 8];
    let refused = Err(ProtocolError::BadHeader);
    match deliver(b"hello", false, refused, &mut scratch, &mut out) {
        Ok(Delivery::Copied(5)) => {}
        _ => panic!("expected five bytes"),
    }
    assert_eq!(&out, b"hello\x09\x09\x09");
    assert!(matches!(
        deliver(b"too long for it", false, refused, &mut scratch, &mut out),
        Err(Error::PayloadTooLarge { len: 15, limit: 8 })
    ));
    assert_eq!(&out, b"hello\x09\x09\x09", "nothing is written when it does not fit");
}

#[test]
fn a_coded_body_is_unpacked_for_its_transform() {
    let header = CodecHeader {
        transform: Transform::I16Delta,
        entropy: Entropy::Unchanged,
        param: 2,
        original_len: 6,
    };
    let mut scratch = Vec::new();
    let mut out = [0u8; 8];
    match deliver(&[1, 2, 3, 4, 5, 6, 7], true, Ok(header), &mut scratch, &mut out) {
        Ok(Delivery::Reverse(u)) => {
            assert_eq!(u.bytes, vec![5, 6, 7]);
            assert_eq!(u.transform, Transform::I16Delta);
            assert_eq!(u.param, 2);
            assert_eq!(u.original_len, 6);
        }
        _ => panic!("expected something to reverse"),
    }
    assert!(matches!(
        deliver(&[1, 2, 3, 4], true, Err(ProtocolError::BadHeader), &mut scratch, &mut out),
        Err(Error::Protocol(ProtocolError::BadHeader))
    ));
}

#[test]
fn a_buffer_of_the_decoded_capacity_is_always_enough() {
    let mut scratch = Vec::new();
    let none = Err(ProtocolError::BadHeader);
    let body = b"an uncoded body";
    let mut out = vec![0u8; decoded_capacity(body, false, none)];
    assert!(matches!(
        deliver(body, false, none, &mut scratch, &mut out),
        Ok(Delivery::Copied(15))
    ));
    assert_eq!(out, body);
    // A malformed header is refused for what it is, not for want of room.
    let mut out = vec![0u8; decoded_capacity(body, true, none)];
    assert!(matches!(
        deliver(body, true, none, &mut scratch, &mut out),
        Err(Error::Protocol(ProtocolError::BadHeader))
    ));
}

#[test]
fn what_is_sealed_is_delivered_whatever_its_declared_shape() {
    let link = Link {
        encrypted: true,
        session_id: 7,
        capabilities: local_capabilities(1200),
        session_limit: 65535,
        message_id_len: 8,
        fragment_len: 8,
        authenticated: [9u8; 32],
        padding: false,
    };
    let text: Vec<u8> = b"all work and no play ".iter().cycle().take(4000).copied().collect();
    let shapes = [
        PayloadType::Opaque,
        PayloadType::I16 { channels: 2 },
        PayloadType::I32 { channels: 0 },
        PayloadType::Elements { size: 5 },
    ];
    for shape in shapes {
        let mut sender = Peer::new(link, 1200);
        let mut receiver = Peer::new(link, 1200);
        let attempt = sender.begin_seal(&text, shape, false, false, 1200);
        // A stand-in for the transform: it hands its input on.
        sender.primary.resize(8016, 0);
        sender.primary[..text.len()].copy_from_slice(&text);
        let body = sender.seal(attempt, &text, shape, Ok(text.len())).expect("it fits when coded");
        let Body::Coded { header, len } = body else {
            panic!("expected a coded body");
        };
        let frame = sender.assemble(body, &[0u8; 4], &text);
        assert_eq!(frame.len(), 4 + len);
        let opened = Opened { len: frame.len(), compressed: true, ..data() };
        assert!(matches!(ingest(Some(opened), true), Step::Whole { compressed: true, .. }));
        let mut out = vec![0u8; decoded_capacity(&frame, true, Ok(header))];
        assert_eq!(out.len(), text.len());
        match deliver(&frame, true, Ok(header), &mut receiver.secondary, &mut out) {
            Ok(Delivery::Reverse(u)) => {
                assert_eq!(u.bytes, text);
                assert_eq!((u.transform, u.param), shape.transform());
                assert_eq!(u.original_len, text.len());
            }
            _ => panic!("expected something to reverse"),
        }
    }
    // What does not pay goes out as it is and comes back as it is.
    let mut sender = Peer::new(link, 1200);
    let attempt = sender.begin_seal(b"short", PayloadType::Opaque, false, false, 1200);
    let body = sender.seal(attempt, b"short", PayloadType::Opaque, Err(ProtocolError::Rejected));
    assert_eq!(body, Ok(Body::Raw));
    let frame = sender.assemble(Body::Raw, &[], b"short");
    let mut out = [0u8; 5];
    let none = Err(ProtocolError::BadHeader);
    assert!(matches!(
        deliver(&frame, false, none, &mut Vec::new(), &mut out),
        Ok(Delivery::Copied(5))
    ));
    assert_eq!(&out, b"short");
}
