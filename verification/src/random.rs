//! Numbers nobody can guess, from the operating system.

use rand_core::{OsRng, RngCore};

use vstd::prelude::*;

use crate::error::{Error, IoKind};

verus! {

/// Calls `RngCore::try_fill_bytes` of `rand_core::OsRng`.
///
/// It overwrites the whole of `dest` with bytes from the operating system, and
/// returns whether it could. Which bytes they are is chance, so nothing is
/// said of them but how many there are.
#[verifier::external_body]
fn os_fill(dest: &mut [u8]) -> (filled: bool)
    ensures
        final(dest)@.len() == old(dest)@.len(),
{
    OsRng.try_fill_bytes(dest).is_ok()
}

/// `len` random bytes, or a failure of the generator.
pub fn random_bytes(len: usize) -> (bytes: Result<Vec<u8>, Error>)
    ensures
        match bytes {
            Ok(b) => b@.len() == len,
            Err(e) => e == Error::Io(IoKind::Other),
        },
{
    let mut bytes: Vec<u8> = vec![0u8; len];
    if os_fill(bytes.as_mut_slice()) {
        Ok(bytes)
    } else {
        Err(Error::Io(IoKind::Other))
    }
}

/// The number that some bytes spell, the lowest first.
pub open spec fn spelled(bytes: Seq<u8>) -> nat
    decreases bytes.len(),
{
    if bytes.len() == 0 {
        0
    } else {
        bytes[0] as nat + 256 * spelled(bytes.skip(1))
    }
}

/// The number that the first four bytes spell.
pub fn spell_u32(bytes: &[u8]) -> (n: u32)
    requires
        bytes@.len() >= 4,
    ensures
        n == spelled(bytes@.take(4)),
{
    proof {
        reveal_with_fuel(spelled, 6);
        let b = bytes@.take(4);
        assert(b.skip(1).skip(1) =~= b.skip(2));
        assert(b.skip(2).skip(1) =~= b.skip(3));
        assert(b.skip(3).skip(1) =~= b.skip(4));
    }
    bytes[0] as u32 + 256 * (bytes[1] as u32) + 65536 * (bytes[2] as u32) + 16777216 * (
    bytes[3] as u32)
}

/// The number that the first eight bytes spell.
pub fn spell_u64(bytes: &[u8]) -> (n: u64)
    requires
        bytes@.len() >= 8,
    ensures
        n == spelled(bytes@.take(8)),
{
    proof {
        reveal_with_fuel(spelled, 10);
        let b = bytes@.take(8);
        assert(b.skip(1).skip(1) =~= b.skip(2));
        assert(b.skip(2).skip(1) =~= b.skip(3));
        assert(b.skip(3).skip(1) =~= b.skip(4));
        assert(b.skip(4).skip(1) =~= b.skip(5));
        assert(b.skip(5).skip(1) =~= b.skip(6));
        assert(b.skip(6).skip(1) =~= b.skip(7));
        assert(b.skip(7).skip(1) =~= b.skip(8));
    }
    bytes[0] as u64 + 256 * (bytes[1] as u64) + 65536 * (bytes[2] as u64) + 16777216 * (
    bytes[3] as u64) + 4294967296 * (bytes[4] as u64) + 1099511627776 * (bytes[5] as u64)
        + 281474976710656 * (bytes[6] as u64) + 72057594037927936 * (bytes[7] as u64)
}

/// An identifier for a session, or a failure of the generator.
pub fn random_session_id() -> (id: Result<u32, Error>)
    ensures
        id matches Err(e) ==> e == Error::Io(IoKind::Other),
{
    match random_bytes(4) {
        Ok(bytes) => Ok(spell_u32(bytes.as_slice())),
        Err(e) => Err(e),
    }
}

/// What the answer to a challenge has to carry, or a failure of the generator.
pub fn random_token() -> (token: Result<u64, Error>)
    ensures
        token matches Err(e) ==> e == Error::Io(IoKind::Other),
{
    match random_bytes(8) {
        Ok(bytes) => Ok(spell_u64(bytes.as_slice())),
        Err(e) => Err(e),
    }
}

/// Bytes spell a number with the lowest first: each one further on counts for two
/// hundred and fifty-six times as much.
pub proof fn the_lowest_byte_comes_first(bytes: Seq<u8>)
    ensures
        bytes.len() == 0 ==> spelled(bytes) == 0,
        bytes.len() > 0 ==> spelled(bytes) == bytes[0] + 256 * spelled(bytes.skip(1)),
        bytes.len() > 0 ==> spelled(bytes) % 256 == bytes[0],
        bytes.len() == 4 ==> spelled(bytes) == bytes[0] + 256 * (bytes[1] + 256 * (bytes[2] + 256
            * bytes[3])),
{
    if bytes.len() == 4 {
        reveal_with_fuel(spelled, 6);
        assert(bytes.skip(1).skip(1) =~= bytes.skip(2));
        assert(bytes.skip(2).skip(1) =~= bytes.skip(3));
        assert(bytes.skip(3).skip(1) =~= bytes.skip(4));
    }
}

} // verus!
