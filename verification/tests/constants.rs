//! The numbers that callers rely on.

use std::time::Duration;

use fectp::udp::Ceiling;

#[test]
fn the_documented_constants_are_the_real_ones() {
    assert_eq!(fectp::MAX_UNACKED, 32);
    assert_eq!(fectp::INITIAL_CWND, 4);
    assert_eq!(fectp::MIN_CWND, 2);
    assert_eq!(fectp::MAX_RETRIES, 5);
    assert_eq!(fectp::MAX_MESSAGE_LEN, 1 << 20);
    assert_eq!(fectp::MAX_FRAGMENTS, 4096);
    assert_eq!(fectp::MAX_QUEUED, 4);
    assert_eq!(fectp::CODEC_OVERHEAD, 4);
    assert_eq!(
        Duration::from_nanos(fectp::HANDSHAKE_TIMEOUT),
        Duration::from_secs(5)
    );
}

#[test]
fn the_default_lifetime_is_the_documented_one() {
    assert_eq!(
        Duration::from_nanos(fectp::TICKET_LIFETIME),
        Duration::from_secs(3600),
        "an hour: short enough that a stolen ticket is worth little, long \
         enough for a device that reboots and reconnects"
    );
}

#[test]
fn the_ceiling_is_clamped_at_both_ends() {
    let mut ceiling = Ceiling::new();
    let original = fectp::max_datagram(&ceiling);
    assert_eq!(original, fectp::DEFAULT_MAX_DATAGRAM);

    fectp::set_max_datagram(&mut ceiling, 0);
    assert_eq!(
        fectp::max_datagram(&ceiling),
        fectp::MIN_MAX_DATAGRAM,
        "a ceiling below a handshake would mean nothing can ever connect"
    );

    fectp::set_max_datagram(&mut ceiling, usize::MAX);
    assert_eq!(
        fectp::max_datagram(&ceiling),
        u16::MAX as usize,
        "the capability field is a u16; a larger value could not be advertised"
    );

    fectp::set_max_datagram(&mut ceiling, original);
    assert_eq!(fectp::max_datagram(&ceiling), original);
}

#[test]
fn the_bounds_on_an_endpoint_are_the_documented_ones() {
    assert_eq!(fectp::MAX_PEERS, 1024);
    assert_eq!(fectp::MAX_HANDSHAKES_PER_SECOND, 512);
    assert_eq!(fectp::MAX_MIGRATIONS_PER_SECOND, 256);
    assert_eq!(fectp::MAX_TICKETS, 256);
    assert_eq!(fectp::DEFAULT_MAX_DATAGRAM, 1200);
    assert_eq!(fectp::MIN_MAX_DATAGRAM, 128);
}
