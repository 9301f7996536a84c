//! Whether coding pays, and what it costs when it does not.

use fectp::codec::{local_capabilities, Capabilities, CodecHeader, Entropy, Transform};
use fectp::coding::Coding;
use fectp::compress::{
    compress, decode_payload, decompress, encode_payload, finish_decode, looks_precompressed,
    plan_coding, prepare_transform, should_compress, worth_keeping, Plan, MIN_COMPRESS_SIZE,
};
use fectp::error::{Error, ProtocolError};
use fectp::{PayloadType, CODEC_OVERHEAD};

fn full() -> Capabilities {
    local_capabilities(1200)
}

fn minimal(max_frame_size: u16) -> Capabilities {
    Capabilities {
        max_frame_size,
        reliable: false,
        zstd: false,
        i16_delta: false,
        i32_delta: false,
        byte_transpose: false,
    }
}

/// A multi-channel sensor block that varies slowly.
fn sensor_block(samples: usize, channels: usize) -> Vec<u8> {
    let mut out = Vec::with_capacity(samples * channels * 2);
    let mut noise = 0x1234_5678u32;
    for s in 0..samples {
        for c in 0..channels {
            noise = noise.wrapping_mul(1_103_515_245).wrapping_add(12_345);
            let phase = (s as f64) * 0.001 + (c as f64) * 0.7;
            let value = (phase.sin() * 8000.0) as i16;
            let jitter = ((noise >> 16) % 5) as i16 - 2;
            out.extend_from_slice(&value.wrapping_add(jitter).to_le_bytes());
        }
    }
    out
}

/// Bytes that will not compress.
fn incompressible(len: usize) -> Vec<u8> {
    let mut state = 0x2545_F491_4F6C_DD1Du64;
    (0..len)
        .map(|_| {
            state ^= state << 13;
            state ^= state >> 7;
            state ^= state << 17;
            (state >> 24) as u8
        })
        .collect()
}

/// Bytes that would go on the wire for a payload whose transform is not to be run.
fn coded_size(data: &[u8], ty: PayloadType, caps: Capabilities) -> usize {
    let (mut a, mut b) = (Vec::new(), Vec::new());
    let unused = Err(ProtocolError::BufferTooSmall);
    match encode_payload(data, ty, caps, unused, &mut a, &mut b) {
        Some((_, len)) => CODEC_OVERHEAD + len,
        None => data.len(),
    }
}

#[test]
fn small_payloads_are_never_compressed() {
    let small = vec![b'A'; MIN_COMPRESS_SIZE - 1];
    assert!(
        !should_compress(&small, full()),
        "below the threshold, compression costs CPU and saves nothing"
    );
}

#[test]
fn peers_that_cannot_decompress_are_never_sent_compressed_frames() {
    let big = vec![b'A'; MIN_COMPRESS_SIZE * 4];
    assert!(should_compress(&big, full()));
    assert!(
        !should_compress(&big, minimal(256)),
        "a peer without a decoder could never decode the frame"
    );
}

#[test]
fn already_compressed_formats_are_bypassed() {
    let mut jpeg = vec![0xFF, 0xD8, 0xFF];
    jpeg.resize(MIN_COMPRESS_SIZE * 2, 0x5A);
    assert!(looks_precompressed(&jpeg));
    assert!(!should_compress(&jpeg, full()));

    let mut mp4 = vec![0u8, 0, 0, 0x18];
    mp4.extend_from_slice(b"ftypmp42");
    mp4.resize(MIN_COMPRESS_SIZE * 2, 0x33);
    assert!(looks_precompressed(&mp4));
}

#[test]
fn every_known_mark_is_recognised_and_nothing_else() {
    let marks: Vec<Vec<u8>> = vec![
        vec![0xFF, 0xD8, 0xFF],
        vec![0x89, 0x50, 0x4E, 0x47],
        vec![0x47, 0x49, 0x46, 0x38],
        vec![0x50, 0x4B, 0x03, 0x04],
        vec![0x1F, 0x8B],
        vec![0x28, 0xB5, 0x2F, 0xFD],
        vec![0x04, 0x22, 0x4D, 0x18],
        vec![0x42, 0x5A, 0x68],
        vec![0xFD, 0x37, 0x7A, 0x58, 0x5A],
        vec![0x4F, 0x67, 0x67, 0x53],
        vec![0x66, 0x4C, 0x61, 0x43],
        vec![0x49, 0x44, 0x33],
    ];
    for mark in &marks {
        assert!(looks_precompressed(mark));
        assert!(!looks_precompressed(&mark[..mark.len() - 1]));
    }
    assert!(looks_precompressed(b"RIFF\0\0\0\0WEBP"));
    assert!(!looks_precompressed(b"RIFF\0\0\0\0WAVE"));
    assert!(!looks_precompressed(b"RIFF\0\0\0\0WEB"));
    assert!(!looks_precompressed(b"\0\0\0\0ftyp"), "too short to carry a brand");
    assert!(!looks_precompressed(b""));
    assert!(!looks_precompressed(b"plain text, nothing more"));
}

#[test]
fn a_peer_that_cannot_reverse_the_transform_gets_plain_bytes() {
    let block = sensor_block(512, 4);
    let no_codecs = minimal(1200);
    assert_eq!(
        coded_size(&block, PayloadType::I16 { channels: 4 }, no_codecs),
        block.len(),
        "a transform the receiver cannot reverse must never be used"
    );
}

#[test]
fn the_shape_of_a_payload_names_its_transform() {
    assert_eq!(PayloadType::Opaque.transform(), (Transform::Unchanged, 0));
    assert_eq!(
        PayloadType::I16 { channels: 4 }.transform(),
        (Transform::I16Delta, 4)
    );
    assert_eq!(
        PayloadType::I32 { channels: 2 }.transform(),
        (Transform::I32Delta, 2)
    );
    assert_eq!(
        PayloadType::Elements { size: 8 }.transform(),
        (Transform::ByteTranspose, 8)
    );
    assert_eq!(PayloadType::default(), PayloadType::Opaque);
}

#[test]
fn the_plan_follows_size_shape_and_peer() {
    let long = vec![b'A'; 2048];
    let samples = PayloadType::I16 { channels: 4 };
    let records = PayloadType::Elements { size: 4 };
    assert_eq!(plan_coding(&long, PayloadType::Opaque, full()), Plan::AsIs);
    assert_eq!(
        plan_coding(&long, samples, full()),
        Plan::Apply { transform: Transform::I16Delta, param: 4 }
    );
    // Small blocks are worth a transform, very small ones are not.
    assert_eq!(
        plan_coding(&long[..32], samples, full()),
        Plan::Apply { transform: Transform::I16Delta, param: 4 }
    );
    assert_eq!(plan_coding(&long[..31], samples, full()), Plan::Skip);
    // Transposing gains nothing where nothing can squeeze the result.
    let mut no_zstd = full();
    no_zstd.zstd = false;
    assert_eq!(plan_coding(&long, records, no_zstd), Plan::Skip);
    assert_eq!(
        plan_coding(&long, samples, no_zstd),
        Plan::Apply { transform: Transform::I16Delta, param: 4 }
    );
    // A payload too long for the header is never coded.
    assert_eq!(
        plan_coding(&vec![b'A'; 65536], PayloadType::Opaque, full()),
        Plan::Skip
    );
    assert_eq!(
        plan_coding(&vec![b'A'; 65535], PayloadType::Opaque, full()),
        Plan::AsIs
    );
}

#[test]
fn a_compressible_payload_is_coded_and_comes_back() {
    let payload: Vec<u8> = b"{\"sensor\":\"temp\",\"value\":21.5}\n"
        .iter()
        .cycle()
        .take(8000)
        .copied()
        .collect();
    let (mut primary, mut secondary) = (Vec::new(), Vec::new());
    let (header, len) = encode_payload(
        &payload,
        PayloadType::Opaque,
        full(),
        Err(ProtocolError::BufferTooSmall),
        &mut primary,
        &mut secondary,
    )
    .expect("highly compressible");
    assert_eq!(
        header,
        CodecHeader {
            transform: Transform::Unchanged,
            entropy: Entropy::Zstd,
            param: 0,
            original_len: 8000,
        }
    );
    assert!(CODEC_OVERHEAD + len < payload.len());
    assert_ne!(&primary[..len], &payload[..len], "squeezed, not copied");

    let mut plaintext = vec![0u8; CODEC_OVERHEAD];
    plaintext.extend_from_slice(&primary[..len]);
    let mut scratch = Vec::new();
    let unpacked = decode_payload(Ok(header), &plaintext, &mut scratch, 8000)
        .expect("what was coded can be decoded");
    assert_eq!(unpacked.transform, Transform::Unchanged);
    assert_eq!(unpacked.original_len, 8000);
    assert_eq!(unpacked.bytes, payload);
}

#[test]
fn an_incompressible_payload_goes_out_as_it_is() {
    let payload = incompressible(4096);
    assert_eq!(coded_size(&payload, PayloadType::Opaque, full()), payload.len());
}

#[test]
fn what_a_transform_made_is_squeezed_and_comes_back() {
    // A block whose transform left a run of small numbers.
    let payload = sensor_block(512, 4);
    let ty = PayloadType::I16 { channels: 4 };
    assert_eq!(
        plan_coding(&payload, ty, full()),
        Plan::Apply { transform: Transform::I16Delta, param: 4 }
    );
    let (mut primary, mut secondary) = (Vec::new(), Vec::new());
    prepare_transform(&mut primary, payload.len());
    assert_eq!(primary.len(), payload.len() * 2 + 16);
    let transformed: Vec<u8> = (0..2000u32).map(|i| (i % 3) as u8).collect();
    primary[..transformed.len()].copy_from_slice(&transformed);

    let (header, len) = encode_payload(
        &payload,
        ty,
        full(),
        Ok(transformed.len()),
        &mut primary,
        &mut secondary,
    )
    .expect("it pays");
    assert_eq!(header.transform, Transform::I16Delta);
    assert_eq!(header.entropy, Entropy::Zstd);
    assert_eq!(header.param, 4);
    assert_eq!(usize::from(header.original_len), payload.len());

    let mut plaintext = vec![0u8; CODEC_OVERHEAD];
    plaintext.extend_from_slice(&primary[..len]);
    let mut scratch = Vec::new();
    let unpacked = decode_payload(Ok(header), &plaintext, &mut scratch, payload.len())
        .expect("decodes");
    assert_eq!(unpacked.bytes, transformed);
    assert_eq!(unpacked.param, 4);
}

#[test]
fn a_transform_alone_still_pays_towards_a_peer_that_cannot_decompress() {
    let payload = sensor_block(512, 4);
    let ty = PayloadType::I16 { channels: 4 };
    let mut caps = full();
    caps.zstd = false;
    let (mut primary, mut secondary) = (vec![7u8; 2000], Vec::new());
    let coded = encode_payload(&payload, ty, caps, Ok(2000), &mut primary, &mut secondary);
    let (header, len) = coded.expect("2000 bytes are fewer than the block");
    assert_eq!(header.entropy, Entropy::Unchanged);
    assert_eq!(len, 2000);
}

#[test]
fn a_transform_that_fails_or_does_not_pay_sends_plain_bytes() {
    let payload = sensor_block(64, 4);
    let ty = PayloadType::I16 { channels: 4 };
    let mut caps = full();
    caps.zstd = false;
    let (mut primary, mut secondary) = (vec![7u8; 1024], Vec::new());
    let failed = Err(ProtocolError::BufferTooSmall);
    assert!(encode_payload(&payload, ty, caps, failed, &mut primary, &mut secondary).is_none());
    // Header and coded bytes together have to be fewer than the payload.
    let len = payload.len();
    assert!(
        encode_payload(&payload, ty, caps, Ok(len - 4), &mut primary, &mut secondary).is_none()
    );
    assert!(
        encode_payload(&payload, ty, caps, Ok(len - 5), &mut primary, &mut secondary).is_some()
    );
}

#[test]
fn a_payload_is_decoded_only_into_enough_room() {
    let header = CodecHeader {
        transform: Transform::Unchanged,
        entropy: Entropy::Unchanged,
        param: 0,
        original_len: 300,
    };
    let plaintext = vec![0u8; CODEC_OVERHEAD + 300];
    let mut scratch = Vec::new();
    assert!(matches!(
        decode_payload(Ok(header), &plaintext, &mut scratch, 299),
        Err(Error::PayloadTooLarge { len: 300, limit: 299 })
    ));
    let unpacked = decode_payload(Ok(header), &plaintext, &mut scratch, 300).expect("room");
    assert_eq!(unpacked.bytes, vec![0u8; 300]);
    assert!(matches!(
        decode_payload(Err(ProtocolError::BadHeader), &plaintext, &mut scratch, 300),
        Err(Error::Protocol(ProtocolError::BadHeader))
    ));
}

#[test]
fn rubbish_does_not_decompress() {
    let header = CodecHeader {
        transform: Transform::Unchanged,
        entropy: Entropy::Zstd,
        param: 0,
        original_len: 300,
    };
    let plaintext = vec![0x5A; CODEC_OVERHEAD + 64];
    let mut scratch = Vec::new();
    assert!(matches!(
        decode_payload(Ok(header), &plaintext, &mut scratch, 300),
        Err(Error::Decompress)
    ));
}

#[test]
fn compression_is_kept_only_where_it_shrinks() {
    let long = vec![b'A'; 4096];
    let mut out = vec![0u8; 4096 + 64];
    let n = compress(&long, &mut out).expect("never fails").expect("shrinks");
    assert!(n < long.len());
    let mut back = vec![0u8; 4096];
    assert_eq!(decompress(&out[..n], &mut back), Ok(4096));
    assert_eq!(back, long);
    // There is no room for what it holds.
    let mut short = vec![0u8; 4095];
    assert_eq!(decompress(&out[..n], &mut short), Err(Error::Decompress));
    // Too little room for the compressed form means the original goes out.
    let mut none = vec![0u8; 1];
    assert_eq!(compress(&long, &mut none), Ok(None));
    assert_eq!(compress(&incompressible(64), &mut out), Ok(None));

    assert_eq!(worth_keeping(100, Some(99)), Some(99));
    assert_eq!(worth_keeping(100, Some(100)), None);
    assert_eq!(worth_keeping(100, None), None);
}

#[test]
fn a_stream_that_does_not_pay_is_left_alone_and_tried_again() {
    let mut coding = Coding::new();
    for _ in 0..4 {
        assert!(coding.should_code(PayloadType::Opaque));
        coding.record_coding(false);
    }
    for _ in 0..32 {
        assert!(!coding.should_code(PayloadType::Opaque));
    }
    assert!(coding.should_code(PayloadType::Opaque), "once more after the interval");
    coding.record_coding(true);
    for _ in 0..10 {
        assert!(coding.should_code(PayloadType::Opaque), "paying again");
        coding.record_coding(true);
    }
}

#[test]
fn a_missed_probe_switches_coding_off_again() {
    let mut coding = Coding::new();
    for _ in 0..4 {
        assert!(coding.should_code(PayloadType::Opaque));
        coding.record_coding(false);
    }
    for _ in 0..3 {
        for _ in 0..32 {
            assert!(!coding.should_code(PayloadType::Opaque));
        }
        assert!(coding.should_code(PayloadType::Opaque), "one attempt in thirty-three");
        coding.record_coding(false);
    }
    assert!(!coding.should_code(PayloadType::Opaque));
}

#[test]
fn a_probe_that_pays_needs_a_full_row_of_misses_to_switch_off() {
    let mut coding = Coding::new();
    for _ in 0..4 {
        coding.should_code(PayloadType::Opaque);
        coding.record_coding(false);
    }
    for _ in 0..32 {
        coding.should_code(PayloadType::Opaque);
    }
    assert!(coding.should_code(PayloadType::Opaque));
    coding.record_coding(true);
    for _ in 0..4 {
        assert!(coding.should_code(PayloadType::Opaque));
        coding.record_coding(false);
    }
    assert!(!coding.should_code(PayloadType::Opaque));
}

#[test]
fn another_shape_is_a_fresh_attempt() {
    let mut coding = Coding::new();
    for _ in 0..4 {
        coding.should_code(PayloadType::Opaque);
        coding.record_coding(false);
    }
    assert!(!coding.should_code(PayloadType::Opaque));
    assert!(coding.should_code(PayloadType::I16 { channels: 2 }));
    assert!(coding.should_code(PayloadType::Opaque), "and back is fresh again");
}

#[test]
fn what_reversing_a_transform_gives_is_what_decoding_ends_with() {
    assert_eq!(finish_decode(Ok(12)), Ok(12));
    assert_eq!(
        finish_decode(Err(ProtocolError::BadHeader)),
        Err(Error::Protocol(ProtocolError::BadHeader))
    );
}
