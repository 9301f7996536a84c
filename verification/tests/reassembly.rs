//! Putting messages back together, through orderings nobody wrote by hand.

use fectp::error::{Error, ProtocolError};
use fectp::fragment::{fragments_needed, Fragment};
use fectp::reassembly::{Reassembly, MAX_REASSEMBLIES};

/// Splits `data` the way a sender must: equal fragments, a possibly shorter last.
fn fragment(message: u32, data: &[u8], stride: usize) -> Vec<(Fragment, Vec<u8>)> {
    let count = data.len().div_ceil(stride).max(1);
    (0..count)
        .map(|i| {
            let at = i * stride;
            let end = (at + stride).min(data.len());
            (
                Fragment {
                    message,
                    index: i as u16,
                    count: count as u16,
                },
                data[at..end].to_vec(),
            )
        })
        .collect()
}

/// A shuffle driven by a seed, so a failing case can be replayed.
fn shuffle<T>(items: &mut [T], seed: u64) {
    let mut state = seed | 1;
    for i in (1..items.len()).rev() {
        state ^= state << 13;
        state ^= state >> 7;
        state ^= state << 17;
        items.swap(i, (state % (i as u64 + 1)) as usize);
    }
}

#[test]
fn a_duplicate_after_completion_starts_the_message_again() {
    let mut reassembly = Reassembly::new();
    let only = Fragment { message: 1, index: 0, count: 1 };

    let first = reassembly.accept(only, b"whole").expect("accept");
    assert_eq!(first.as_deref(), Some(&b"whole"[..]));
    assert_eq!(reassembly.in_progress(), 0, "and it is no longer held");

    let again = reassembly.accept(only, b"whole").expect("accept");
    assert_eq!(
        again.as_deref(),
        Some(&b"whole"[..]),
        "nothing here remembers the message just delivered"
    );
}

#[test]
fn a_count_that_changes_mid_message_is_refused() {
    let mut reassembly = Reassembly::new();
    let first = Fragment { message: 9, index: 0, count: 4 };
    assert!(reassembly.accept(first, &[1, 2, 3, 4]).is_ok());

    let contradiction = Fragment { message: 9, index: 1, count: 7 };
    assert!(
        reassembly.accept(contradiction, &[5, 6, 7, 8]).is_err(),
        "the same message cannot have been cut two ways"
    );
    assert_eq!(
        reassembly.in_progress(),
        0,
        "and neither version is kept, because nothing says which is the lie"
    );
}

#[test]
fn unequal_fragments_before_the_last_are_refused() {
    let mut reassembly = Reassembly::new();
    let at = |index| Fragment { message: 3, index, count: 3 };
    assert!(reassembly.accept(at(0), &[0u8; 100]).is_ok());
    assert!(
        reassembly.accept(at(1), &[0u8; 60]).is_err(),
        "a short fragment that is not the last cannot be placed"
    );
}

#[test]
fn a_message_survives_any_order_and_any_duplication() {
    for seed in 0..200u64 {
        let len = 1 + (seed as usize * 97) % 1999;
        let stride = 1 + (seed as usize * 31) % 299;
        let duplicates = (seed % 4) as usize;
        let data: Vec<u8> = (0..len).map(|i| (i * 7 % 251) as u8).collect();
        let mut pieces = fragment(1, &data, stride);
        shuffle(&mut pieces, seed.wrapping_mul(0x9E37_79B9_7F4A_7C15));

        let last = pieces.pop().expect("at least one fragment");
        for n in 0..duplicates {
            if pieces.is_empty() {
                break;
            }
            let at = (seed as usize).wrapping_add(n) % pieces.len();
            let dup = pieces[at].clone();
            pieces.insert(at, dup);
        }
        pieces.push(last);

        let mut reassembly = Reassembly::new();
        let mut delivered = 0;
        for (fragment, bytes) in pieces {
            if let Ok(Some(whole)) = reassembly.accept(fragment, &bytes) {
                delivered += 1;
                assert_eq!(&whole, &data, "reassembled to the wrong bytes");
            }
        }
        assert_eq!(delivered, 1, "a message must be delivered exactly once");
        assert_eq!(reassembly.in_progress(), 0, "nothing left half-built");
    }
}

#[test]
fn interleaved_messages_do_not_contaminate_each_other() {
    for seed in 0..200u64 {
        let count = 1 + (seed % 3) as usize;
        let stride = 1 + (seed as usize * 17) % 199;
        let messages: Vec<Vec<u8>> = (0..count)
            .map(|m| {
                let len = 1 + (seed as usize * 41 + m * 211) % 599;
                (0..len).map(|i| ((i + m * 97) % 251) as u8).collect()
            })
            .collect();

        let mut all: Vec<(usize, Fragment, Vec<u8>)> = Vec::new();
        for (m, data) in messages.iter().enumerate() {
            for (f, bytes) in fragment(m as u32, data, stride) {
                all.push((m, f, bytes));
            }
        }
        shuffle(&mut all, seed.wrapping_mul(0x2545_F491_4F6C_DD1D));

        let mut reassembly = Reassembly::new();
        let mut seen = vec![false; count];
        for (m, f, bytes) in all {
            if let Ok(Some(whole)) = reassembly.accept(f, &bytes) {
                assert_eq!(&whole, &messages[m], "message {} was contaminated", m);
                assert!(!seen[m], "message {} was delivered twice", m);
                seen[m] = true;
            }
        }
        assert!(seen.iter().all(|s| *s), "not every message arrived");
    }
}

#[test]
fn exceeding_the_bound_drops_rather_than_corrupts() {
    for extra in 1usize..6 {
        for stride in 8usize..64 {
            let mut reassembly = Reassembly::new();
            let total = MAX_REASSEMBLIES + extra;

            let mut started = Vec::new();
            for m in 0..total {
                let bytes: Vec<u8> = (0..stride * 3).map(|i| ((i + m) % 251) as u8).collect();
                let pieces = fragment(m as u32, &bytes, stride);
                assert!(pieces.len() > 1, "this needs a genuinely split message");
                let _ = reassembly.accept(pieces[0].0, &pieces[0].1);
                started.push((bytes, pieces));
            }
            assert_eq!(reassembly.in_progress(), MAX_REASSEMBLIES);

            let (bytes, pieces) = started.last().expect("at least one");
            let mut delivered = 0;
            for (f, chunk) in pieces.iter().skip(1) {
                if let Ok(Some(whole)) = reassembly.accept(*f, chunk) {
                    assert_eq!(&whole, bytes, "the surviving message was corrupted");
                    delivered += 1;
                }
            }
            assert_eq!(delivered, 1);

            // The first to begin was the first to go: its remaining pieces no
            // longer complete it.
            let (_, pieces) = &started[0];
            for (f, chunk) in pieces.iter().skip(1) {
                assert_eq!(reassembly.accept(*f, chunk), Ok(None));
            }
        }
    }
}

#[test]
fn a_count_above_the_bound_is_refused_and_changes_nothing() {
    let mut reassembly = Reassembly::new();
    let first = Fragment { message: 1, index: 0, count: 2 };
    assert_eq!(reassembly.accept(first, b"ab"), Ok(None));
    let absurd = Fragment { message: 2, index: 0, count: 4097 };
    assert_eq!(
        reassembly.accept(absurd, b"ab"),
        Err(Error::Protocol(ProtocolError::BadHeader))
    );
    assert_eq!(reassembly.in_progress(), 1);
}

#[test]
fn a_message_that_would_outgrow_the_bound_is_refused() {
    let mut reassembly = Reassembly::new();
    // 4095 pieces of 257 bytes before the last are more than a mebibyte.
    let big = Fragment { message: 5, index: 0, count: 4096 };
    assert_eq!(
        reassembly.accept(big, &[0u8; 257]),
        Err(Error::Protocol(ProtocolError::PayloadTooLarge))
    );
    assert_eq!(reassembly.in_progress(), 0);
    // 4095 pieces of 256 bytes are not.
    assert_eq!(reassembly.accept(big, &[0u8; 256]), Ok(None));
    assert_eq!(reassembly.in_progress(), 1);
}

#[test]
fn a_last_piece_that_outgrows_the_bound_drops_its_message() {
    let mut reassembly = Reassembly::new();
    let last = Fragment { message: 5, index: 1, count: 2 };
    assert_eq!(
        reassembly.accept(last, &vec![0u8; (1 << 20) + 1]),
        Err(Error::Protocol(ProtocolError::PayloadTooLarge))
    );
    assert_eq!(reassembly.in_progress(), 0);
}

#[test]
fn an_empty_message_is_one_empty_piece() {
    assert_eq!(fragments_needed(0, 100), Some(1));
    let mut reassembly = Reassembly::new();
    let only = Fragment { message: 1, index: 0, count: 1 };
    assert_eq!(reassembly.accept(only, &[]), Ok(Some(Vec::new())));
}

#[test]
fn fragments_are_counted_exactly() {
    assert_eq!(fragments_needed(1, 100), Some(1));
    assert_eq!(fragments_needed(100, 100), Some(1));
    assert_eq!(fragments_needed(101, 100), Some(2));
    assert_eq!(fragments_needed(1 << 20, 256), Some(4096));
    assert_eq!(fragments_needed(1 << 20, 255), None, "too many fragments");
    assert_eq!(fragments_needed((1 << 20) + 1, 4096), None, "too long a message");
    assert_eq!(fragments_needed(10, 0), None, "no room at all");
}
