//! A long-term identity: a secret, and the public key that goes with it.

use zeroize::Zeroize;

use vstd::prelude::*;

use crate::buffer::zeros;
use crate::error::{Error, IoKind};
use crate::link::PublicKey;
use crate::random::random_bytes;

verus! {

/// Calls `Zeroize::zeroize` on an array of bytes.
///
/// It writes zero to every byte, in a way that is not optimised out. That the
/// bytes are gone from memory as well is not something a contract can say.
#[verifier::external_body]
fn zeroize_bytes(secret: &mut [u8; 32])
    ensures
        final(secret)@ == zeros(32),
{
    secret.zeroize()
}

/// A long-term identity.
pub struct Identity {
    secret: [u8; 32],
    public: PublicKey,
}

impl Identity {
    /// The secret bytes.
    pub closed spec fn secret_bytes(&self) -> [u8; 32] {
        self.secret
    }

    /// The public key.
    pub closed spec fn public_key(&self) -> PublicKey {
        self.public
    }

    /// A new secret, for the caller to derive a public key from, or a failure of
    /// the operating system's generator.
    pub fn fresh_secret() -> (secret: Result<[u8; 32], Error>)
        ensures
            secret matches Err(e) ==> e == Error::Io(IoKind::Other),
    {
        match random_bytes(32) {
            Ok(bytes) => Ok(array_of(bytes.as_slice())),
            Err(e) => Err(e),
        }
    }

    /// Restores an identity from stored secret bytes and the public key derived
    /// from them.
    pub fn from_secret(secret: [u8; 32], public: PublicKey) -> (identity: Self)
        ensures
            identity.secret_bytes() == secret,
            identity.public_key() == public,
    {
        Identity { secret, public }
    }

    /// The public key, which peers need in order to reach this identity.
    pub fn public(&self) -> (public: &PublicKey)
        ensures
            *public == self.public_key(),
    {
        &self.public
    }

    /// The secret bytes, for persisting to storage.
    pub fn secret(&self) -> (secret: &[u8; 32])
        ensures
            *secret == self.secret_bytes(),
    {
        &self.secret
    }

    /// Wipes the secret. The public key stays.
    pub fn wipe(&mut self)
        ensures
            final(self).secret_bytes()@ == zeros(32),
            final(self).public_key() == old(self).public_key(),
    {
        zeroize_bytes(&mut self.secret);
    }
}

/// The first thirty-two bytes as an array.
pub fn array_of(bytes: &[u8]) -> (array: [u8; 32])
    requires
        bytes@.len() >= 32,
    ensures
        array@ == bytes@.take(32),
{
    let mut array: [u8; 32] = [0u8;32];
    let mut i: usize = 0;
    while i < 32
        invariant
            i <= 32 <= bytes@.len(),
            forall|k: int| 0 <= k < i ==> array@[k] == bytes@[k],
        decreases 32 - i,
    {
        array[i] = bytes[i];
        i += 1;
    }
    proof {
        assert(array@ =~= bytes@.take(32));
    }
    array
}

} // verus!
