//! What is known about a session, whichever kind it is.
//!
//! A session encrypts or it does not, and that is fixed when it is built. This
//! is the one place where the difference shows.

use vstd::prelude::*;

use crate::codec::Capabilities;

verus! {

/// Bytes at the front of every frame.
pub const HEADER_LEN: usize = 14;

/// Bytes that an encrypted data frame adds to its payload.
pub const DATA_OVERHEAD: usize = 30;

/// Bytes that a plaintext data frame adds: no authentication, so no tag.
pub const PLAIN_DATA_OVERHEAD: usize = 14;

/// A peer's static public key.
pub type PublicKey = [u8; 32];

/// What an established session is, and what its peer said about itself.
#[derive(Clone, Copy)]
pub struct Link {
    /// Whether frames are authenticated and encrypted.
    pub encrypted: bool,
    /// The identifier that the session's frames carry.
    pub session_id: u32,
    /// What the peer advertised.
    pub capabilities: Capabilities,
    /// Largest payload that the session itself will seal.
    pub session_limit: usize,
    /// Bytes that a message identifier takes inside a reliable frame.
    pub message_id_len: usize,
    /// Bytes that a fragment descriptor takes inside a fragment's frame.
    pub fragment_len: usize,
    /// The key that the handshake authenticated, where there was one.
    pub authenticated: PublicKey,
    /// Whether payload lengths are masked.
    pub padding: bool,
}

/// The key of nobody in particular.
pub open spec fn anonymous() -> PublicKey {
    [
        0u8, 0, 0, 0, 0, 0, 0, 0, 0, 0, 0, 0, 0, 0, 0, 0,
        0, 0, 0, 0, 0, 0, 0, 0, 0, 0, 0, 0, 0, 0, 0, 0,
    ]
}

impl Link {
    /// What every session's frames have: an identifier and a descriptor that take
    /// room.
    pub open spec fn wf(self) -> bool {
        self.message_id_len > 0 && self.fragment_len > 0
    }

    /// Bytes that a data frame of this session adds to its payload.
    pub open spec fn overhead(self) -> nat {
        if self.encrypted {
            DATA_OVERHEAD as nat
        } else {
            PLAIN_DATA_OVERHEAD as nat
        }
    }

    /// The key that the peer is known by: its own, or nobody's.
    pub open spec fn remote(self) -> PublicKey {
        if self.encrypted {
            self.authenticated
        } else {
            anonymous()
        }
    }

    /// Whether this session encrypts.
    pub fn is_encrypted(&self) -> (encrypted: bool)
        ensures
            encrypted == self.encrypted,
    {
        self.encrypted
    }

    /// Bytes that a data frame adds on top of its payload.
    pub fn data_overhead(&self) -> (overhead: usize)
        ensures
            overhead == self.overhead(),
    {
        if self.encrypted {
            DATA_OVERHEAD
        } else {
            PLAIN_DATA_OVERHEAD
        }
    }

    /// What the peer advertised.
    pub fn peer_capabilities(&self) -> (capabilities: Capabilities)
        ensures
            capabilities == self.capabilities,
    {
        self.capabilities
    }

    /// The identifier that the session's frames carry.
    pub fn session_id(&self) -> (id: u32)
        ensures
            id == self.session_id,
    {
        self.session_id
    }

    /// Largest payload that the session itself will seal.
    pub fn max_payload(&self) -> (limit: usize)
        ensures
            limit == self.session_limit,
    {
        self.session_limit
    }

    /// The peer's authenticated static public key.
    ///
    /// A plaintext peer has no identity to report, so this is all zeros for
    /// one: a placeholder, not a name.
    pub fn remote_static(&self) -> (key: PublicKey)
        ensures
            key == self.remote(),
    {
        if self.encrypted {
            self.authenticated
        } else {
            let key: PublicKey = [0u8;32];
            proof {
                assert(key@ =~= anonymous()@);
            }
            key
        }
    }

    /// Whether there is anything to resume: a plaintext session has no key
    /// schedule to carry forward.
    pub fn resumable(&self) -> (resumable: bool)
        ensures
            resumable == self.encrypted,
    {
        self.encrypted
    }

    /// Turns length masking on or off, where that means anything.
    ///
    /// Ignored on a plaintext session: padding hides a length from someone who
    /// cannot see the payload, and there they can.
    pub fn set_padding(&mut self, enabled: bool)
        ensures
            *final(self) == (Link {
                padding: if old(self).encrypted {
                    enabled
                } else {
                    old(self).padding
                },
                ..*old(self)
            }),
    {
        if self.encrypted {
            self.padding = enabled;
        }
    }
}

/// What a session's frames cost, and whom its peer is known as: a frame in the clear
/// has no authentication tag, which is sixteen bytes, and its peer is nobody.
pub proof fn a_session_in_the_clear_saves_the_tag_and_names_nobody(link: Link, i: int)
    requires
        0 <= i < 32,
    ensures
        link.encrypted ==> link.overhead() == 30 && link.remote() == link.authenticated,
        !link.encrypted ==> link.overhead() == 14 && link.remote()@[i] == 0,
{
}

} // verus!
