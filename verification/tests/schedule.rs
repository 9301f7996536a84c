//! When things are sent again, and what a budget allows.

use fectp::budget::Budget;
use fectp::error::{is_stale_unreachable, is_timeout, Error, IoKind, ProtocolError};
use fectp::schedule::{exchange_wait, retry_step, Estimate, Outbound, Paths, HANDSHAKE_TIMEOUT};
use fectp::table::Address;

const MS: u64 = 1_000_000;
const SEC: u64 = 1_000_000_000;

fn addr(port: u16) -> Address {
    Address { v6: false, ip: 0x7f00_0001, port, flow: 0, scope: 0 }
}

#[test]
fn a_silent_peer_is_still_given_up_on() {
    let deadline = HANDSHAKE_TIMEOUT;
    let mut now = 0;
    let mut waits = Vec::new();
    let mut attempt = 1;
    while let Some(wait) = exchange_wait(attempt, deadline, now) {
        waits.push(wait / MS);
        now += wait;
        attempt += 1;
    }
    assert_eq!(waits, vec![250, 500, 750, 1000, 1250, 1250]);
    assert_eq!(now, deadline);
}

#[test]
fn a_lost_opening_frame_costs_the_path_and_not_a_fixed_quarter_second() {
    let mut paths = Paths::new();
    assert_eq!(retry_step(paths.estimate(addr(1))), 250 * MS);
    for _ in 0..4 {
        paths.observe(addr(1), 24 * MS);
    }
    let step = retry_step(paths.estimate(addr(1)));
    assert!(step < 250 * MS, "{step}");
    assert!(step >= 24 * MS, "{step}");
}

#[test]
fn a_fast_path_does_not_shorten_the_budget_for_an_unrelated_one() {
    let mut paths = Paths::new();
    paths.observe(addr(1), MS);
    assert_eq!(paths.estimate(addr(2)), None);
    assert_eq!(retry_step(paths.estimate(addr(2))), 250 * MS);
}

#[test]
fn a_measured_path_that_goes_silent_still_gets_the_whole_budget() {
    let mut o = Outbound::start(addr(1), 5, Vec::new(), 20 * MS, 0);
    let mut now = 0;
    while !o.is_hopeless(now) {
        now = o.next_attempt;
        if !o.is_hopeless(now) {
            o.send_again(now);
        }
    }
    assert!(now >= 2500 * MS);
    assert!(o.attempts >= 4);
}

#[test]
fn an_estimate_is_smoothed() {
    let mut e = Estimate::new(80 * MS);
    assert_eq!((e.smoothed, e.variation), (80 * MS, 40 * MS));
    assert_eq!(e.timeout(), 240 * MS);
    e.fold(160 * MS);
    assert_eq!(e.smoothed, 90 * MS);
    assert_eq!(e.variation, 50 * MS);
    assert_eq!(retry_step(Some(Estimate::new(1))), 10 * MS, "never absurdly little");
    assert_eq!(retry_step(Some(Estimate::new(10 * SEC))), 250 * MS, "never later than cold");
}

#[test]
fn paths_are_remembered_up_to_a_bound() {
    let mut paths = Paths::new();
    for port in 0..300u16 {
        paths.observe(addr(port), MS);
    }
    assert_eq!(paths.known.len(), 256);
    assert_eq!(paths.estimate(addr(0)), None, "the longest known went first");
    assert!(paths.estimate(addr(299)).is_some());
}

#[test]
fn a_budget_is_a_burst_and_a_rate() {
    let mut b = Budget::new(4, 0);
    assert_eq!((0..10).filter(|_| b.spend(0)).count(), 4);
    assert_eq!((0..10).filter(|_| b.spend(SEC / 2)).count(), 2);
    assert_eq!((0..10).filter(|_| b.spend(100 * SEC)).count(), 4, "no more than a second's worth");
    // A part of a token is kept.
    let mut b = Budget::new(1, 0);
    assert!(b.spend(0));
    assert!(!b.spend(SEC / 2));
    assert!(b.spend(SEC));
    b.set_rate(0);
    assert!(!b.spend(1000 * SEC));
}

#[test]
fn errors_say_what_happened() {
    assert_eq!(Error::Io(IoKind::TimedOut).message("timed out"), "transport error: timed out");
    assert_eq!(
        Error::Protocol(ProtocolError::BadHeader).message("bad header"),
        "protocol error: bad header"
    );
    assert_eq!(
        Error::PayloadTooLarge { len: 70000, limit: 1170 }.message(""),
        "payload of 70000 bytes exceeds the 1170-byte frame limit"
    );
    assert_eq!(
        Error::Unacknowledged { count: 3 }.message(""),
        "3 reliable message(s) were never acknowledged"
    );
    assert_eq!(
        Error::Unacknowledged { count: 0 }.message(""),
        "0 reliable message(s) were never acknowledged"
    );
    assert_eq!(Error::Decompress.message(""), "could not decompress payload");
    assert_eq!(Error::Handshake.message(""), "handshake failed");
    assert_eq!(
        Error::ReliabilityUnsupported.message(""),
        "the peer does not implement the reliability layer"
    );
    assert_eq!(
        Error::UnknownTicket.message(""),
        "unknown or already-used resumption ticket"
    );
    assert_eq!(Error::UnknownPeer.message(""), "no such connected peer");
    assert_eq!(
        Error::MissingPeerKey.message(""),
        "public-key mode requires the peer's public key"
    );
    assert_eq!(Error::Closed.message(""), "the connection is closed");
}

#[test]
fn socket_failures_are_told_apart() {
    assert!(is_timeout(IoKind::WouldBlock) && is_timeout(IoKind::TimedOut));
    assert!(!is_timeout(IoKind::Other) && !is_timeout(IoKind::ConnectionReset));
    assert!(is_stale_unreachable(IoKind::ConnectionReset));
    assert!(is_stale_unreachable(IoKind::ConnectionRefused));
    assert!(!is_stale_unreachable(IoKind::TimedOut));
}
