//! The names that the coding layer and its callers share: which transform, which
//! entropy coder, and what a peer says it can reverse.

use vstd::prelude::*;

verus! {

/// Bytes that a codec header takes at the front of a coded payload.
pub const CODEC_HEADER_LEN: usize = 4;

/// Largest payload that can be coded: its length has to fit the header's
/// sixteen bits.
pub const MAX_ORIGINAL_LEN: usize = 65535;

/// A reversible rearrangement of a payload, run before any entropy coder.
#[derive(Debug, Clone, Copy, PartialEq, Eq, Structural)]
pub enum Transform {
    /// The bytes as they are.
    Unchanged,
    /// Sixteen-bit samples, split by channel and delta-coded.
    I16Delta,
    /// Thirty-two-bit samples, split by channel and delta-coded.
    I32Delta,
    /// The bytes of fixed-size elements, grouped by position within the element.
    ByteTranspose,
}

/// What squeezed the transformed bytes, if anything did.
#[derive(Debug, Clone, Copy, PartialEq, Eq, Structural)]
pub enum Entropy {
    /// Nothing did.
    Unchanged,
    /// Zstandard.
    Zstd,
}

/// What a receiver needs in order to undo the coding of one payload.
#[derive(Debug, Clone, Copy, PartialEq, Eq, Structural)]
pub struct CodecHeader {
    /// The transform to reverse, after the entropy coder.
    pub transform: Transform,
    /// The entropy coder to reverse first.
    pub entropy: Entropy,
    /// The transform's parameter: channels, or element size.
    pub param: u8,
    /// Length of the payload before coding.
    pub original_len: u16,
}

/// What a peer advertises about itself during the handshake.
#[derive(Debug, Clone, Copy, PartialEq, Eq, Structural)]
pub struct Capabilities {
    /// Largest frame it can receive.
    pub max_frame_size: u16,
    /// Whether it acknowledges reliable messages.
    pub reliable: bool,
    /// Whether it can undo Zstandard.
    pub zstd: bool,
    /// Whether it can reverse [`Transform::I16Delta`].
    pub i16_delta: bool,
    /// Whether it can reverse [`Transform::I32Delta`].
    pub i32_delta: bool,
    /// Whether it can reverse [`Transform::ByteTranspose`].
    pub byte_transpose: bool,
}

impl Capabilities {
    /// Whether a transform can be reversed by this peer. Leaving the bytes as
    /// they are needs nothing reversed.
    pub open spec fn reverses(self, transform: Transform) -> bool {
        match transform {
            Transform::Unchanged => true,
            Transform::I16Delta => self.i16_delta,
            Transform::I32Delta => self.i32_delta,
            Transform::ByteTranspose => self.byte_transpose,
        }
    }

    /// Whether the output of an entropy coder can be undone by this peer.
    pub open spec fn undoes(self, entropy: Entropy) -> bool {
        match entropy {
            Entropy::Unchanged => true,
            Entropy::Zstd => self.zstd,
        }
    }

    /// Whether this peer can undo Zstandard.
    pub fn accepts_compression(&self) -> (accepts: bool)
        ensures
            accepts == self.zstd,
    {
        self.zstd
    }

    /// Whether this peer acknowledges reliable messages.
    pub fn supports_reliable(&self) -> (supports: bool)
        ensures
            supports == self.reliable,
    {
        self.reliable
    }

    /// Whether this peer can reverse a transform.
    pub fn supports_transform(&self, transform: Transform) -> (supports: bool)
        ensures
            supports == self.reverses(transform),
    {
        match transform {
            Transform::Unchanged => true,
            Transform::I16Delta => self.i16_delta,
            Transform::I32Delta => self.i32_delta,
            Transform::ByteTranspose => self.byte_transpose,
        }
    }
}

/// What this library advertises about itself: everything it can reverse, and the
/// largest datagram it can receive.
pub fn local_capabilities(max_datagram: usize) -> (capabilities: Capabilities)
    requires
        max_datagram <= 65535,
    ensures
        capabilities == (Capabilities {
            max_frame_size: max_datagram as u16,
            reliable: true,
            zstd: true,
            i16_delta: true,
            i32_delta: true,
            byte_transpose: true,
        }),
{
    Capabilities {
        max_frame_size: max_datagram as u16,
        reliable: true,
        zstd: true,
        i16_delta: true,
        i32_delta: true,
        byte_transpose: true,
    }
}

/// A peer is held to what it advertises, one flag for each codec: leaving bytes as
/// they are asks nothing of it, and every codec asks its own flag and no other.
pub proof fn each_codec_asks_its_own_flag(caps: Capabilities, transform: Transform, entropy: Entropy)
    ensures
        caps.reverses(Transform::Unchanged) && caps.undoes(Entropy::Unchanged),
        caps.reverses(transform) && transform == Transform::I16Delta ==> caps.i16_delta,
        caps.reverses(transform) && transform == Transform::I32Delta ==> caps.i32_delta,
        caps.reverses(transform) && transform == Transform::ByteTranspose ==> caps.byte_transpose,
        caps.i16_delta && caps.i32_delta && caps.byte_transpose ==> caps.reverses(transform),
        caps.i16_delta ==> caps.reverses(Transform::I16Delta),
        caps.i32_delta ==> caps.reverses(Transform::I32Delta),
        caps.byte_transpose ==> caps.reverses(Transform::ByteTranspose),
        caps.zstd <==> caps.undoes(Entropy::Zstd),
        caps.zstd ==> caps.undoes(entropy),
{
}

} // verus!
