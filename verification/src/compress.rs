//! Whether coding a payload pays, and coding it where it does.
//!
//! Three things decide, in this order: whether the peer can decode at all,
//! whether the payload is large enough to be worth it, and whether it already
//! looks compressed. A last comparison keeps whichever form is smaller, so a
//! wrong guess costs time but never bytes.

use vstd::prelude::*;
use vstd::slice::slice_subrange;

use crate::buffer::{copy_of, ensure, grown, overlay};
use crate::codec::{
    Capabilities, CodecHeader, Entropy, Transform, CODEC_HEADER_LEN, MAX_ORIGINAL_LEN,
};
use crate::error::{Error, ProtocolError};

verus! {

/// Payloads below this size are never handed to the entropy coder untransformed.
pub const MIN_COMPRESS_SIZE: usize = 1024;

/// Payloads below this size are not worth a typed transform either.
pub const MIN_TRANSFORM_SIZE: usize = 32;

/// Compression level used for payloads that qualify.
pub const LEVEL: i32 = 1;

/// An I/O failure, as the compressor reports one. Nothing here looks inside it.
#[verifier::external_type_specification]
#[verifier::external_body]
pub struct ExIoError(std::io::Error);

/// What Zstandard makes of `source` at `level` when it may write `capacity`
/// bytes, or `None` where it reports a failure.
pub uninterp spec fn zstd_compressed(source: Seq<u8>, capacity: nat, level: int) -> Option<Seq<u8>>;

/// What Zstandard restores from `source` when it may write `capacity` bytes, or
/// `None` where it reports a failure.
pub uninterp spec fn zstd_decompressed(source: Seq<u8>, capacity: nat) -> Option<Seq<u8>>;

/// Calls `zstd::bulk::compress_to_buffer`.
///
/// It writes the compressed form at the front of `destination` and returns how
/// many bytes that took, or fails, for instance where the destination is too
/// small. What it does depends on the source, on the level and on the room it
/// is given. The compressor is lossless: what it wrote decompresses to the
/// source wherever there is room for the source. What it leaves behind the
/// bytes it reports, and anywhere after a failure, is not said.
#[verifier::external_body]
fn zstd_compress_to_buffer(source: &[u8], destination: &mut [u8], level: i32) -> (written: Result<
    usize,
    std::io::Error,
>)
    ensures
        final(destination)@.len() == old(destination)@.len(),
        match zstd_compressed(source@, old(destination)@.len(), level as int) {
            Some(out) => {
                &&& written is Ok
                &&& written->Ok_0 == out.len()
                &&& out.len() <= final(destination)@.len()
                &&& final(destination)@.take(out.len() as int) == out
            },
            None => written is Err,
        },
        written matches Ok(n) ==> forall|capacity: nat|
            capacity >= source@.len() ==> #[trigger] zstd_decompressed(
                final(destination)@.take(n as int),
                capacity,
            ) == Some(source@),
{
    zstd::bulk::compress_to_buffer(source, destination, level)
}

/// Calls `zstd::bulk::decompress_to_buffer`.
///
/// It writes the restored bytes at the front of `destination` and returns how
/// many there are, or fails where the source is not a compressed block or what
/// it holds does not fit. What it leaves behind the bytes it reports, and
/// anywhere after a failure, is not said.
#[verifier::external_body]
fn zstd_decompress_to_buffer(source: &[u8], destination: &mut [u8]) -> (written: Result<
    usize,
    std::io::Error,
>)
    ensures
        final(destination)@.len() == old(destination)@.len(),
        match zstd_decompressed(source@, old(destination)@.len()) {
            Some(out) => {
                &&& written is Ok
                &&& written->Ok_0 == out.len()
                &&& out.len() <= final(destination)@.len()
                &&& final(destination)@.take(out.len() as int) == out
            },
            None => written is Err,
        },
{
    zstd::bulk::decompress_to_buffer(source, destination)
}

/// Whether `payload` holds `mark` from `at` on.
pub open spec fn marked(payload: Seq<u8>, at: int, mark: Seq<u8>) -> bool {
    &&& at + mark.len() <= payload.len()
    &&& forall|k: int| 0 <= k < mark.len() ==> payload[at + k] == #[trigger] mark[k]
}

/// Whether a payload begins as a format does that is already entropy-coded:
/// JPEG, PNG, GIF, ZIP, gzip, Zstandard, LZ4, bzip2, xz, Ogg, FLAC or MP3.
pub open spec fn begins_coded(payload: Seq<u8>) -> bool {
    ||| marked(payload, 0, seq![0xFFu8, 0xD8, 0xFF])
    ||| marked(payload, 0, seq![0x89u8, 0x50, 0x4E, 0x47])
    ||| marked(payload, 0, seq![0x47u8, 0x49, 0x46, 0x38])
    ||| marked(payload, 0, seq![0x50u8, 0x4B, 0x03, 0x04])
    ||| marked(payload, 0, seq![0x1Fu8, 0x8B])
    ||| marked(payload, 0, seq![0x28u8, 0xB5, 0x2F, 0xFD])
    ||| marked(payload, 0, seq![0x04u8, 0x22, 0x4D, 0x18])
    ||| marked(payload, 0, seq![0x42u8, 0x5A, 0x68])
    ||| marked(payload, 0, seq![0xFDu8, 0x37, 0x7A, 0x58, 0x5A])
    ||| marked(payload, 0, seq![0x4Fu8, 0x67, 0x67, 0x53])
    ||| marked(payload, 0, seq![0x66u8, 0x4C, 0x61, 0x43])
    ||| marked(payload, 0, seq![0x49u8, 0x44, 0x33])
}

/// Whether a payload is in a format already entropy-coded: it begins as one does,
/// or it is ISO base media with its brand at offset four, or it is a RIFF
/// container holding WebP.
pub open spec fn precompressed(payload: Seq<u8>) -> bool {
    ||| begins_coded(payload)
    ||| payload.len() >= 12 && marked(payload, 4, seq![0x66u8, 0x74, 0x79, 0x70])
    ||| payload.len() >= 12 && marked(payload, 0, seq![0x52u8, 0x49, 0x46, 0x46]) && marked(
        payload,
        8,
        seq![0x57u8, 0x45, 0x42, 0x50],
    )
}

/// Whether `payload` holds `mark` from `at` on.
fn is_marked(payload: &[u8], at: usize, mark: &[u8]) -> (found: bool)
    ensures
        found == marked(payload@, at as int, mark@),
{
    let len: usize = payload.len();
    if len < at || len - at < mark.len() {
        return false;
    }
    let mut i: usize = 0;
    while i < mark.len()
        invariant
            i <= mark@.len(),
            at + mark@.len() <= payload@.len(),
            payload@.len() == len,
            forall|k: int| 0 <= k < i ==> payload@[at + k] == mark@[k],
        decreases mark@.len() - i,
    {
        if payload[at + i] != mark[i] {
            proof {
                assert(payload@[at + i] != mark@[i as int]);
            }
            return false;
        }
        i += 1;
    }
    true
}

/// Recognises container formats that are already entropy-coded.
///
/// A false negative only costs the wasted attempt, which the comparison of
/// sizes then discards.
pub fn looks_precompressed(payload: &[u8]) -> (found: bool)
    ensures
        found == precompressed(payload@),
{
    let begins = is_marked(payload, 0, &[0xFF, 0xD8, 0xFF]) || is_marked(
        payload,
        0,
        &[0x89, 0x50, 0x4E, 0x47],
    ) || is_marked(payload, 0, &[0x47, 0x49, 0x46, 0x38]) || is_marked(
        payload,
        0,
        &[0x50, 0x4B, 0x03, 0x04],
    ) || is_marked(payload, 0, &[0x1F, 0x8B]) || is_marked(payload, 0, &[0x28, 0xB5, 0x2F, 0xFD])
        || is_marked(payload, 0, &[0x04, 0x22, 0x4D, 0x18]) || is_marked(
        payload,
        0,
        &[0x42, 0x5A, 0x68],
    ) || is_marked(payload, 0, &[0xFD, 0x37, 0x7A, 0x58, 0x5A]) || is_marked(
        payload,
        0,
        &[0x4F, 0x67, 0x67, 0x53],
    ) || is_marked(payload, 0, &[0x66, 0x4C, 0x61, 0x43]) || is_marked(
        payload,
        0,
        &[0x49, 0x44, 0x33],
    );
    proof {
        assert([0xFFu8, 0xD8, 0xFF]@ =~= seq![0xFFu8, 0xD8, 0xFF]);
        assert([0x89u8, 0x50, 0x4E, 0x47]@ =~= seq![0x89u8, 0x50, 0x4E, 0x47]);
        assert([0x47u8, 0x49, 0x46, 0x38]@ =~= seq![0x47u8, 0x49, 0x46, 0x38]);
        assert([0x50u8, 0x4B, 0x03, 0x04]@ =~= seq![0x50u8, 0x4B, 0x03, 0x04]);
        assert([0x1Fu8, 0x8B]@ =~= seq![0x1Fu8, 0x8B]);
        assert([0x28u8, 0xB5, 0x2F, 0xFD]@ =~= seq![0x28u8, 0xB5, 0x2F, 0xFD]);
        assert([0x04u8, 0x22, 0x4D, 0x18]@ =~= seq![0x04u8, 0x22, 0x4D, 0x18]);
        assert([0x42u8, 0x5A, 0x68]@ =~= seq![0x42u8, 0x5A, 0x68]);
        assert([0xFDu8, 0x37, 0x7A, 0x58, 0x5A]@ =~= seq![0xFDu8, 0x37, 0x7A, 0x58, 0x5A]);
        assert([0x4Fu8, 0x67, 0x67, 0x53]@ =~= seq![0x4Fu8, 0x67, 0x67, 0x53]);
        assert([0x66u8, 0x4C, 0x61, 0x43]@ =~= seq![0x66u8, 0x4C, 0x61, 0x43]);
        assert([0x49u8, 0x44, 0x33]@ =~= seq![0x49u8, 0x44, 0x33]);
        assert([0x66u8, 0x74, 0x79, 0x70]@ =~= seq![0x66u8, 0x74, 0x79, 0x70]);
        assert([0x52u8, 0x49, 0x46, 0x46]@ =~= seq![0x52u8, 0x49, 0x46, 0x46]);
        assert([0x57u8, 0x45, 0x42, 0x50]@ =~= seq![0x57u8, 0x45, 0x42, 0x50]);
    }
    if begins {
        return true;
    }
    // ISO base media (MP4, MOV, M4A) carries its brand at offset four.
    if payload.len() >= 12 && is_marked(payload, 4, &[0x66, 0x74, 0x79, 0x70]) {
        return true;
    }
    // WebP is a RIFF container that says so at offset eight.
    payload.len() >= 12 && is_marked(payload, 0, &[0x52, 0x49, 0x46, 0x46]) && is_marked(
        payload,
        8,
        &[0x57, 0x45, 0x42, 0x50],
    )
}

/// Whether `payload` should be compressed before being sent to a peer with
/// these capabilities.
pub fn should_compress(payload: &[u8], peer_caps: Capabilities) -> (should: bool)
    ensures
        should == (peer_caps.zstd && payload@.len() >= MIN_COMPRESS_SIZE && !precompressed(
            payload@,
        )),
{
    peer_caps.accepts_compression() && payload.len() >= MIN_COMPRESS_SIZE && !looks_precompressed(
        payload,
    )
}

/// Decides whether a compression attempt is worth keeping.
///
/// Either it did not shrink, or it did not fit; both mean that the input goes
/// out as it is, which is always a valid choice.
pub fn worth_keeping(input_len: usize, written: Option<usize>) -> (keep: Option<usize>)
    ensures
        keep == (match written {
            Some(n) if n < input_len => Some(n),
            _ => None,
        }),
{
    match written {
        Some(n) if n < input_len => Some(n),
        _ => None,
    }
}

/// A length as a number.
pub open spec fn written_len(written: Option<usize>) -> Option<nat> {
    match written {
        Some(n) => Some(n as nat),
        None => None,
    }
}

/// What compressing `input` into `capacity` bytes leaves, where it shrinks it.
pub open spec fn shrunk(input: Seq<u8>, capacity: nat) -> Option<Seq<u8>> {
    match zstd_compressed(input, capacity, LEVEL as int) {
        Some(out) if out.len() < input.len() => Some(out),
        _ => None,
    }
}

/// Compresses `input` into `out`, returning the compressed length.
///
/// Returns `None` when the result would not be smaller than the input, so the
/// caller can send the original instead.
pub fn compress(input: &[u8], out: &mut [u8]) -> (length: Result<Option<usize>, Error>)
    ensures
        final(out)@.len() == old(out)@.len(),
        match shrunk(input@, old(out)@.len()) {
            Some(squeezed) => {
                &&& length is Ok
                &&& length->Ok_0 is Some
                &&& length->Ok_0->0 == squeezed.len()
                &&& squeezed.len() <= final(out)@.len()
                &&& final(out)@.take(squeezed.len() as int) == squeezed
                &&& forall|capacity: nat|
                    capacity >= input@.len() ==> #[trigger] zstd_decompressed(squeezed, capacity)
                        == Some(input@)
            },
            None => length == Ok::<Option<usize>, Error>(None),
        },
{
    let written: Option<usize> = match zstd_compress_to_buffer(input, out, LEVEL) {
        Ok(n) => Some(n),
        Err(_) => None,
    };
    Ok(worth_keeping(input.len(), written))
}

/// Decompresses `input` into `out`, returning the length restored.
pub fn decompress(input: &[u8], out: &mut [u8]) -> (length: Result<usize, Error>)
    ensures
        final(out)@.len() == old(out)@.len(),
        match zstd_decompressed(input@, old(out)@.len()) {
            Some(restored) => {
                &&& length is Ok
                &&& length->Ok_0 == restored.len()
                &&& restored.len() <= final(out)@.len()
                &&& final(out)@.take(restored.len() as int) == restored
            },
            None => length == Err::<usize, Error>(Error::Decompress),
        },
{
    match zstd_decompress_to_buffer(input, out) {
        Ok(n) => Ok(n),
        Err(_) => Err(Error::Decompress),
    }
}

/// What the caller knows about the shape of a payload.
///
/// It changes nothing about correctness: a payload declared wrongly still comes
/// back as it was, it just compresses badly.
#[derive(Debug, Clone, Copy, PartialEq, Eq, Structural)]
pub enum PayloadType {
    /// Unknown structure.
    Opaque,
    /// Interleaved little-endian `i16` samples.
    I16 {
        /// Number of interleaved channels.
        channels: u8,
    },
    /// Interleaved little-endian `i32` samples.
    I32 {
        /// Number of interleaved channels.
        channels: u8,
    },
    /// An array of fixed-size elements.
    Elements {
        /// Size of one element in bytes.
        size: u8,
    },
}

impl Default for PayloadType {
    fn default() -> (payload_type: Self)
        ensures
            payload_type == PayloadType::Opaque,
    {
        PayloadType::Opaque
    }
}

impl PayloadType {
    /// The transform and its parameter for this shape.
    pub open spec fn shape(self) -> (Transform, u8) {
        match self {
            PayloadType::Opaque => (Transform::Unchanged, 0),
            PayloadType::I16 { channels } => (Transform::I16Delta, channels),
            PayloadType::I32 { channels } => (Transform::I32Delta, channels),
            PayloadType::Elements { size } => (Transform::ByteTranspose, size),
        }
    }

    /// The transform and its parameter for this shape.
    pub fn transform(self) -> (shape: (Transform, u8))
        ensures
            shape == self.shape(),
    {
        match self {
            PayloadType::Opaque => (Transform::Unchanged, 0),
            PayloadType::I16 { channels } => (Transform::I16Delta, channels),
            PayloadType::I32 { channels } => (Transform::I32Delta, channels),
            PayloadType::Elements { size } => (Transform::ByteTranspose, size),
        }
    }
}

/// How a payload is to be coded, before anything has been spent on it.
#[derive(Debug, Clone, Copy, PartialEq, Eq, Structural)]
pub enum Plan {
    /// Not at all.
    Skip,
    /// By this transform first.
    Apply {
        /// Which transform.
        transform: Transform,
        /// Its parameter.
        param: u8,
    },
    /// By the entropy coder alone.
    AsIs,
}

/// Whether a payload's own transform is worth running for this peer.
///
/// Transposing bytes does not change their number; it only arranges them for an
/// entropy coder to find something in. Without one there is nothing to gain.
pub open spec fn transform_pays(len: nat, transform: Transform, caps: Capabilities) -> bool {
    &&& transform != Transform::Unchanged
    &&& len >= MIN_TRANSFORM_SIZE
    &&& caps.reverses(transform)
    &&& !(transform == Transform::ByteTranspose && !caps.zstd)
}

/// How a payload of this shape is to be coded for this peer.
pub open spec fn planned(data: Seq<u8>, payload_type: PayloadType, caps: Capabilities) -> Plan {
    let (transform, param) = payload_type.shape();
    if data.len() > MAX_ORIGINAL_LEN {
        Plan::Skip
    } else if transform_pays(data.len(), transform, caps) {
        Plan::Apply { transform, param }
    } else if !caps.zstd || data.len() < MIN_COMPRESS_SIZE || precompressed(data) {
        Plan::Skip
    } else {
        Plan::AsIs
    }
}

/// Decides how `data` is to be coded, if at all.
///
/// The peer's advertised codecs are respected: a transform or an entropy coder
/// that the receiver cannot undo is never chosen, whatever it would have saved.
pub fn plan_coding(data: &[u8], payload_type: PayloadType, peer_caps: Capabilities) -> (plan: Plan)
    ensures
        plan == planned(data@, payload_type, peer_caps),
{
    if data.len() > MAX_ORIGINAL_LEN {
        return Plan::Skip;
    }
    let zstd_available = peer_caps.accepts_compression();
    let (transform, param) = payload_type.transform();
    let transform_usable = transform != Transform::Unchanged && data.len() >= MIN_TRANSFORM_SIZE
        && peer_caps.supports_transform(transform);
    if transform_usable && !(transform == Transform::ByteTranspose && !zstd_available) {
        Plan::Apply { transform, param }
    } else if !zstd_available || data.len() < MIN_COMPRESS_SIZE || looks_precompressed(data) {
        Plan::Skip
    } else {
        Plan::AsIs
    }
}

/// Room that a transform is given for a payload of `len` bytes: delta coding
/// can make the worst payload larger.
pub open spec fn transform_room(len: nat) -> nat {
    len * 2 + 16
}

/// Grows `primary` to hold what a transform makes of a payload of `len` bytes.
pub fn prepare_transform(primary: &mut Vec<u8>, len: usize)
    requires
        len <= MAX_ORIGINAL_LEN,
    ensures
        final(primary)@ == grown(old(primary)@, transform_room(len as nat)),
{
    ensure(primary, len * 2 + 16);
}

/// What is sent of a coding attempt: the header, and how many coded bytes; or
/// nothing where header and coded bytes together save nothing.
pub open spec fn settled(
    data_len: nat,
    transform: Transform,
    param: u8,
    transformed_len: nat,
    squeezed_len: Option<nat>,
) -> Option<(CodecHeader, nat)> {
    let entropy = if squeezed_len is Some {
        Entropy::Zstd
    } else {
        Entropy::Unchanged
    };
    let coded_len = match squeezed_len {
        Some(n) => n,
        None => transformed_len,
    };
    if CODEC_HEADER_LEN + coded_len >= data_len {
        None
    } else {
        Some((CodecHeader { transform, entropy, param, original_len: data_len as u16 }, coded_len))
    }
}

/// Settles a coding attempt once the lengths are known.
///
/// The header is part of what is sent, so it counts against any saving. If the
/// coded form is not actually smaller, the original is what goes out.
pub fn settle_coding(
    data_len: usize,
    transform: Transform,
    param: u8,
    transformed_len: usize,
    squeezed_len: Option<usize>,
) -> (coded: Option<(CodecHeader, usize)>)
    requires
        data_len <= MAX_ORIGINAL_LEN,
    ensures
        match settled(
            data_len as nat,
            transform,
            param,
            transformed_len as nat,
            written_len(squeezed_len),
        ) {
            Some((header, len)) => coded == Some((header, len as usize)) && len <= usize::MAX,
            None => coded is None,
        },
{
    let (entropy, coded_len): (Entropy, usize) = match squeezed_len {
        Some(n) => (Entropy::Zstd, n),
        None => (Entropy::Unchanged, transformed_len),
    };
    if coded_len >= data_len || CODEC_HEADER_LEN + coded_len >= data_len {
        return None;
    }
    Some((CodecHeader { transform, entropy, param, original_len: data_len as u16 }, coded_len))
}

/// The bytes that a plan hands to the entropy coder: what its transform made of
/// the payload, or the payload itself. `None` where nothing is to be coded, or
/// the transform failed.
pub open spec fn transformed_by(plan: Plan, data: Seq<u8>, applied: Option<Seq<u8>>) -> Option<
    Seq<u8>,
> {
    match plan {
        Plan::Skip => None,
        Plan::Apply { .. } => applied,
        Plan::AsIs => Some(data),
    }
}

/// The transform that a plan runs, and its parameter.
pub open spec fn transform_of(plan: Plan) -> (Transform, u8) {
    match plan {
        Plan::Apply { transform, param } => (transform, param),
        _ => (Transform::Unchanged, 0),
    }
}

/// What goes out in place of a payload, given what its transform made of it and
/// how much room the entropy coder has: the header and the coded bytes, or
/// nothing where coding was skipped or did not pay.
pub open spec fn encoded(
    data: Seq<u8>,
    payload_type: PayloadType,
    caps: Capabilities,
    applied: Option<Seq<u8>>,
    capacity: nat,
) -> Option<(CodecHeader, Seq<u8>)> {
    let plan = planned(data, payload_type, caps);
    match transformed_by(plan, data, applied) {
        None => None,
        Some(transformed) => {
            let squeezed = if caps.zstd {
                shrunk(transformed, capacity)
            } else {
                None
            };
            let squeezed_len = match squeezed {
                Some(out) => Some(out.len()),
                None => None,
            };
            let coded = match squeezed {
                Some(out) => out,
                None => transformed,
            };
            match settled(
                data.len(),
                transform_of(plan).0,
                transform_of(plan).1,
                transformed.len(),
                squeezed_len,
            ) {
                Some((header, _)) => Some((header, coded)),
                None => None,
            }
        },
    }
}

/// What its transform made of a payload, where it succeeded: the front of the buffer.
pub open spec fn applied_bytes(primary: Seq<u8>, applied: Result<usize, ProtocolError>) -> Option<
    Seq<u8>,
> {
    match applied {
        Ok(len) => Some(primary.take(len as int)),
        Err(_) => None,
    }
}

/// Room that the entropy coder has: what the buffer offers, and never less than
/// its input and a little more.
pub open spec fn squeeze_room(secondary_len: nat, transformed_len: nat) -> nat {
    if secondary_len < transformed_len + 64 {
        transformed_len + 64
    } else {
        secondary_len
    }
}

/// Codes `data` according to its shape, leaving the result at the front of `primary`.
///
/// Where [`plan_coding`] asks for a transform, `applied` is how many bytes the
/// transform left at the front of `primary`, or why it failed; otherwise it is
/// not looked at. Returns the codec header and the coded length, or `None` if
/// coding was skipped or did not pay, in which case the payload goes out
/// uncoded. `secondary` is working space.
pub fn encode_payload(
    data: &[u8],
    payload_type: PayloadType,
    peer_caps: Capabilities,
    applied: Result<usize, ProtocolError>,
    primary: &mut Vec<u8>,
    secondary: &mut Vec<u8>,
) -> (coded: Option<(CodecHeader, usize)>)
    requires
        planned(data@, payload_type, peer_caps) is Apply ==> (applied matches Ok(len) ==> len <= old(
            primary,
        )@.len() && len + 64 <= usize::MAX),
    ensures
        coded matches Some((_, len)) ==> len <= final(primary)@.len(),
        codes(
            data@,
            payload_type,
            peer_caps,
            applied_bytes(old(primary)@, applied),
            old(secondary)@.len(),
            match coded {
                Some((header, len)) => Some((header, final(primary)@.take(len as int))),
                None => None,
            },
        ),
{
    let plan = plan_coding(data, payload_type, peer_caps);
    let ghost front = applied_bytes(primary@, applied);
    let (transform, param, transformed_len): (Transform, u8, usize) = match plan {
        Plan::Skip => {
            return None;
        },
        Plan::Apply { transform, param } => match applied {
            Ok(len) => (transform, param, len),
            Err(_) => {
                return None;
            },
        },
        Plan::AsIs => {
            ensure(primary, data.len());
            overlay(primary, 0, data);
            (Transform::Unchanged, 0, data.len())
        },
    };
    let ghost transformed = transformed_by(plan, data@, front)->0;
    let ghost whole = primary@;
    proof {
        assert(whole.take(transformed_len as int) =~= transformed);
    }
    let mut squeezed_len: Option<usize> = None;
    let ghost capacity = squeeze_room(secondary@.len(), transformed.len());
    let ghost squeezed = if peer_caps.zstd {
        shrunk(transformed, capacity)
    } else {
        None
    };
    if peer_caps.accepts_compression() {
        ensure(secondary, transformed_len + 64);
        let input = slice_subrange(primary.as_slice(), 0, transformed_len);
        proof {
            assert(input@ =~= transformed);
        }
        match compress(input, secondary.as_mut_slice()) {
            Ok(Some(len)) => {
                let out = slice_subrange(secondary.as_slice(), 0, len);
                overlay(primary, 0, out);
                proof {
                    assert(out@ =~= squeezed->0);
                    assert(primary@.take(len as int) =~= squeezed->0);
                }
                squeezed_len = Some(len);
            },
            _ => {},
        }
    }
    settle_coding(data.len(), transform, param, transformed_len, squeezed_len)
}

/// What decoding leaves to be reversed by the transform.
pub struct Unpacked {
    /// The transform to reverse.
    pub transform: Transform,
    /// Its parameter.
    pub param: u8,
    /// How many bytes reversing it has to give.
    pub original_len: usize,
    /// What it is to be reversed on.
    pub bytes: Vec<u8>,
}

/// What undoing the entropy coder gives, when `scratch` bytes of working space
/// are at hand already.
pub open spec fn unsqueezed(header: CodecHeader, coded: Seq<u8>, scratch: nat) -> Option<Seq<u8>> {
    match header.entropy {
        Entropy::Unchanged => Some(coded),
        Entropy::Zstd => zstd_decompressed(
            coded,
            if scratch < transform_room(header.original_len as nat) {
                transform_room(header.original_len as nat)
            } else {
                scratch
            },
        ),
    }
}

/// Whether a receiver gets back what was handed to the entropy coder, however
/// much working space it happens to have. What a sender could have made of the
/// payload is never more than a transform is given room for.
pub open spec fn restores(header: CodecHeader, coded: Seq<u8>, transformed: Seq<u8>) -> bool {
    transformed.len() <= transform_room(header.original_len as nat) ==> forall|scratch: nat|
        #[trigger] unsqueezed(header, coded, scratch) == Some(transformed)
}

/// What coding a payload gives: the header and the coded bytes, or nothing. What
/// its transform made of the payload is `applied`, and the entropy coder has
/// `secondary` bytes of working space to begin with. What is given can be undone
/// up to the transform.
pub open spec fn codes(
    data: Seq<u8>,
    payload_type: PayloadType,
    caps: Capabilities,
    applied: Option<Seq<u8>>,
    secondary: nat,
    coded: Option<(CodecHeader, Seq<u8>)>,
) -> bool {
    match transformed_by(planned(data, payload_type, caps), data, applied) {
        None => coded is None,
        Some(transformed) => {
            &&& coded == encoded(
                data,
                payload_type,
                caps,
                applied,
                squeeze_room(secondary, transformed.len()),
            )
            &&& coded matches Some((header, bytes)) ==> restores(header, bytes, transformed)
        },
    }
}

/// A coded payload undone up to its transform.
#[verifier::ext_equal]
pub struct Layer {
    /// The transform to reverse.
    pub transform: Transform,
    /// Its parameter.
    pub param: u8,
    /// How long the payload is.
    pub original_len: nat,
    /// What the transform made of it.
    pub bytes: Seq<u8>,
}

impl Unpacked {
    /// The same as values.
    pub open spec fn layer(&self) -> Layer {
        Layer {
            transform: self.transform,
            param: self.param,
            original_len: self.original_len as nat,
            bytes: self.bytes@,
        }
    }
}

/// What undoing the coding of a frame's body gives, up to the transform: `header`
/// is what decoding its codec header gave, and `room` what the payload may take.
pub open spec fn decoded(
    header: Result<CodecHeader, ProtocolError>,
    plaintext: Seq<u8>,
    scratch: nat,
    room: nat,
) -> Result<Layer, Error> {
    match header {
        Err(e) => Err(Error::Protocol(e)),
        Ok(h) => if room < h.original_len {
            Err(Error::PayloadTooLarge { len: h.original_len as usize, limit: room as usize })
        } else {
            match unsqueezed(h, plaintext.skip(CODEC_HEADER_LEN as int), scratch) {
                None => Err(Error::Decompress),
                Some(bytes) => Ok(
                    Layer {
                        transform: h.transform,
                        param: h.param,
                        original_len: h.original_len as nat,
                        bytes,
                    },
                ),
            }
        },
    }
}

/// What reversing a layer's transform into a buffer gives: how many bytes it
/// wrote, or why it failed, and what the buffer holds then.
pub type Reversal = spec_fn(Layer, Seq<u8>) -> (Result<usize, ProtocolError>, Seq<u8>);

/// What decoding a frame's body ends with, once its transform is reversed: the
/// payload's length, or why there is none, and what the application's buffer
/// holds.
pub open spec fn restored(
    layer: Result<Layer, Error>,
    out: Seq<u8>,
    reverse: Reversal,
) -> (Result<usize, Error>, Seq<u8>) {
    match layer {
        Ok(layer) => (reversal_outcome(reverse(layer, out).0), reverse(layer, out).1),
        Err(e) => (Err(e), out),
    }
}

/// What decoding ends with, given what reversing the transform gave.
pub open spec fn reversal_outcome(reversed: Result<usize, ProtocolError>) -> Result<usize, Error> {
    match reversed {
        Ok(len) => Ok(len),
        Err(e) => Err(Error::Protocol(e)),
    }
}

/// What decoding ends with, given what reversing the transform gave: the length
/// of the payload, or that the peer broke the protocol.
pub fn finish_decode(reversed: Result<usize, ProtocolError>) -> (length: Result<usize, Error>)
    ensures
        length == reversal_outcome(reversed),
{
    match reversed {
        Ok(len) => Ok(len),
        Err(e) => Err(Error::Protocol(e)),
    }
}

/// Whether reversing the transform that was run on a payload gives the payload
/// back, into any buffer with room for it and out of no more bytes than a
/// transform is given room for.
pub open spec fn reverses(
    reverse: Reversal,
    data: Seq<u8>,
    payload_type: PayloadType,
    caps: Capabilities,
    applied: Option<Seq<u8>>,
) -> bool {
    let plan = planned(data, payload_type, caps);
    transformed_by(plan, data, applied) matches Some(transformed) ==> {
        let layer = Layer {
            transform: transform_of(plan).0,
            param: transform_of(plan).1,
            original_len: data.len(),
            bytes: transformed,
        };
        &&& transformed.len() <= transform_room(data.len())
        &&& forall|out: Seq<u8>|
            out.len() >= data.len() ==> {
                let (length, after) = #[trigger] reverse(layer, out);
                &&& length == Ok::<usize, ProtocolError>(data.len() as usize)
                &&& after.len() == out.len()
                &&& after.take(data.len() as int) == data
            }
    }
}

/// Whether a coded payload may be decoded into `room` bytes, and with which header.
pub fn admit_coded(header: Result<CodecHeader, ProtocolError>, room: usize) -> (admitted: Result<
    CodecHeader,
    Error,
>)
    ensures
        admitted == (match header {
            Err(e) => Err::<CodecHeader, Error>(Error::Protocol(e)),
            Ok(h) => if room < h.original_len {
                Err(Error::PayloadTooLarge { len: h.original_len as usize, limit: room })
            } else {
                Ok(h)
            },
        }),
{
    match header {
        Err(e) => Err(Error::Protocol(e)),
        Ok(h) => {
            let original_len: usize = h.original_len as usize;
            if room < original_len {
                Err(Error::PayloadTooLarge { len: original_len, limit: room })
            } else {
                Ok(h)
            }
        },
    }
}

/// Undoes what [`encode_payload`] did, up to the transform.
///
/// `plaintext` is the frame's body, codec header and all, and `header` is what
/// decoding that header gave. `room` is how many bytes the payload may take.
/// `scratch` is working space.
pub fn decode_payload(
    header: Result<CodecHeader, ProtocolError>,
    plaintext: &[u8],
    scratch: &mut Vec<u8>,
    room: usize,
) -> (unpacked: Result<Unpacked, Error>)
    requires
        header is Ok ==> plaintext@.len() >= CODEC_HEADER_LEN,
    ensures
        decoded(header, plaintext@, old(scratch)@.len(), room as nat) == (match unpacked {
            Ok(unpacked) => Ok::<Layer, Error>(unpacked.layer()),
            Err(e) => Err(e),
        }),
{
    let header = match admit_coded(header, room) {
        Ok(h) => h,
        Err(e) => {
            return Err(e);
        },
    };
    let original_len: usize = header.original_len as usize;
    let coded = slice_subrange(plaintext, CODEC_HEADER_LEN, plaintext.len());
    proof {
        assert(coded@ =~= plaintext@.skip(CODEC_HEADER_LEN as int));
    }
    let bytes = match header.entropy {
        Entropy::Unchanged => copy_of(coded),
        Entropy::Zstd => {
            ensure(scratch, original_len * 2 + 16);
            match decompress(coded, scratch.as_mut_slice()) {
                Ok(len) => {
                    let restored = slice_subrange(scratch.as_slice(), 0, len);
                    proof {
                        assert(restored@ =~= scratch@.take(len as int));
                    }
                    copy_of(restored)
                },
                Err(e) => {
                    return Err(e);
                },
            }
        },
    };
    Ok(Unpacked { transform: header.transform, param: header.param, original_len, bytes })
}

/// Coding never costs bytes: header and coded bytes together are fewer than the
/// payload they stand for.
pub proof fn coding_never_costs_bytes(
    data: Seq<u8>,
    payload_type: PayloadType,
    caps: Capabilities,
    applied: Option<Seq<u8>>,
    capacity: nat,
)
    ensures
        encoded(data, payload_type, caps, applied, capacity) matches Some((_, coded))
            ==> CODEC_HEADER_LEN + coded.len() < data.len(),
{
}

/// Coding uses nothing that the peer cannot undo.
pub proof fn coding_respects_the_peer(
    data: Seq<u8>,
    payload_type: PayloadType,
    caps: Capabilities,
    applied: Option<Seq<u8>>,
    capacity: nat,
)
    ensures
        encoded(data, payload_type, caps, applied, capacity) matches Some((header, _))
            ==> caps.reverses(header.transform) && caps.undoes(header.entropy),
{
}

/// The header always states the payload's true length, and the shape that was
/// declared for it or none; where no transform was run there is no parameter.
pub proof fn the_header_describes_the_payload(
    data: Seq<u8>,
    payload_type: PayloadType,
    caps: Capabilities,
    applied: Option<Seq<u8>>,
    capacity: nat,
)
    ensures
        encoded(data, payload_type, caps, applied, capacity) matches Some((header, _))
            ==> header.original_len == data.len() && ((header.transform, header.param)
            == payload_type.shape() || (header.transform == Transform::Unchanged && header.param
            == 0)),
{
}

/// What is coded comes back: whatever shape a payload was declared to have, right
/// or wrong, decoding the header and the coded bytes into a buffer with enough
/// room gives the payload's length and leaves the payload at the front of the
/// buffer, byte for byte. That is so wherever reversing the transform gives back
/// what it was run on.
pub proof fn what_is_coded_comes_back(
    data: Seq<u8>,
    payload_type: PayloadType,
    caps: Capabilities,
    applied: Option<Seq<u8>>,
    secondary: nat,
    header: CodecHeader,
    coded: Seq<u8>,
    encoded_header: Seq<u8>,
    scratch: nat,
    out: Seq<u8>,
    reverse: Reversal,
)
    requires
        codes(data, payload_type, caps, applied, secondary, Some((header, coded))),
        encoded_header.len() == CODEC_HEADER_LEN,
        reverses(reverse, data, payload_type, caps, applied),
        out.len() >= data.len(),
    ensures
        ({
            let plaintext = encoded_header + coded;
            let (length, after) = restored(
                decoded(Ok(header), plaintext, scratch, out.len()),
                out,
                reverse,
            );
            &&& length == Ok::<usize, Error>(data.len() as usize)
            &&& after.take(data.len() as int) == data
        }),
{
    let plan = planned(data, payload_type, caps);
    let transformed = transformed_by(plan, data, applied)->0;
    assert((encoded_header + coded).skip(CODEC_HEADER_LEN as int) =~= coded);
    assert(unsqueezed(header, coded, scratch) == Some(transformed));
}

/// Coding is kept exactly where it pays. What is sent is the Zstandard form of the
/// transformed bytes where the peer takes it and it is the shorter, and otherwise
/// the transformed bytes themselves; and it is sent if and only if that and the
/// header together are fewer bytes than the payload.
pub proof fn coding_is_kept_exactly_where_it_pays(
    data: Seq<u8>,
    payload_type: PayloadType,
    caps: Capabilities,
    applied: Option<Seq<u8>>,
    capacity: nat,
)
    ensures
        match transformed_by(planned(data, payload_type, caps), data, applied) {
            None => encoded(data, payload_type, caps, applied, capacity) is None,
            Some(transformed) => {
                let squeezed = zstd_compressed(transformed, capacity, 1);
                let squeezes = caps.zstd && squeezed is Some && squeezed->0.len()
                    < transformed.len();
                let form = if squeezes {
                    squeezed->0
                } else {
                    transformed
                };
                let sent = encoded(data, payload_type, caps, applied, capacity);
                &&& sent is Some <==> 4 + form.len() < data.len()
                &&& sent matches Some((header, bytes)) ==> bytes == form && (header.entropy
                    == Entropy::Zstd <==> squeezes)
            },
        },
{
}

/// A payload is refused a frame only where no form of it fits: as long as the form
/// that coding gives fits with its header, the payload is sent.
pub proof fn a_payload_whose_coded_form_fits_is_coded(
    data: Seq<u8>,
    payload_type: PayloadType,
    caps: Capabilities,
    applied: Option<Seq<u8>>,
    capacity: nat,
    limit: nat,
)
    requires
        data.len() > limit,
        transformed_by(planned(data, payload_type, caps), data, applied) matches Some(transformed)
            && (4 + transformed.len() <= limit || (caps.zstd && (zstd_compressed(
            transformed,
            capacity,
            1,
        ) matches Some(squeezed) && 4 + squeezed.len() <= limit && squeezed.len()
            < transformed.len()))),
    ensures
        encoded(data, payload_type, caps, applied, capacity) matches Some((_, bytes)) && 4
            + bytes.len() <= limit,
{
    coding_is_kept_exactly_where_it_pays(data, payload_type, caps, applied, capacity);
}

/// When a payload is attempted at all, and how. Nothing too long for the header's
/// sixteen bits is. Its own transform is run on anything of thirty-two bytes or
/// more that the peer can reverse, but for transposing, which pays only with an
/// entropy coder behind it. Failing that, anything of a kilobyte or more is handed
/// to Zstandard as it is, where the peer takes that, unless it looks compressed.
pub proof fn when_a_payload_is_attempted(
    data: Seq<u8>,
    payload_type: PayloadType,
    caps: Capabilities,
)
    ensures
        ({
            let plan = planned(data, payload_type, caps);
            let own = data.len() <= 65535 && data.len() >= 32 && match payload_type {
                PayloadType::Opaque => false,
                PayloadType::I16 { .. } => caps.i16_delta,
                PayloadType::I32 { .. } => caps.i32_delta,
                PayloadType::Elements { .. } => caps.byte_transpose && caps.zstd,
            };
            let alone = !own && data.len() <= 65535 && caps.zstd && data.len() >= 1024
                && !precompressed(data);
            &&& plan is Apply <==> own
            &&& plan == Plan::AsIs <==> alone
            &&& plan == Plan::Skip <==> !own && !alone
            &&& plan matches Plan::Apply { transform, param } ==> match payload_type {
                PayloadType::Opaque => false,
                PayloadType::I16 { channels } => transform == Transform::I16Delta && param
                    == channels,
                PayloadType::I32 { channels } => transform == Transform::I32Delta && param
                    == channels,
                PayloadType::Elements { size } => transform == Transform::ByteTranspose && param
                    == size,
            }
        }),
{
}

/// A payload looks compressed exactly where its first bytes are those of a format
/// that is: JPEG, PNG, GIF, ZIP, gzip, Zstandard, LZ4, bzip2, xz, Ogg, FLAC or MP3;
/// or ISO base media or WebP, which say so a little further on.
pub proof fn a_payload_looks_compressed_by_its_first_bytes(p: Seq<u8>)
    ensures
        precompressed(p) <==> {
            ||| p.len() >= 3 && p[0] == 0xFF && p[1] == 0xD8 && p[2] == 0xFF
            ||| p.len() >= 4 && p[0] == 0x89 && p[1] == 0x50 && p[2] == 0x4E && p[3] == 0x47
            ||| p.len() >= 4 && p[0] == 0x47 && p[1] == 0x49 && p[2] == 0x46 && p[3] == 0x38
            ||| p.len() >= 4 && p[0] == 0x50 && p[1] == 0x4B && p[2] == 0x03 && p[3] == 0x04
            ||| p.len() >= 2 && p[0] == 0x1F && p[1] == 0x8B
            ||| p.len() >= 4 && p[0] == 0x28 && p[1] == 0xB5 && p[2] == 0x2F && p[3] == 0xFD
            ||| p.len() >= 4 && p[0] == 0x04 && p[1] == 0x22 && p[2] == 0x4D && p[3] == 0x18
            ||| p.len() >= 3 && p[0] == 0x42 && p[1] == 0x5A && p[2] == 0x68
            ||| p.len() >= 5 && p[0] == 0xFD && p[1] == 0x37 && p[2] == 0x7A && p[3] == 0x58 && p[4]
                == 0x5A
            ||| p.len() >= 4 && p[0] == 0x4F && p[1] == 0x67 && p[2] == 0x67 && p[3] == 0x53
            ||| p.len() >= 4 && p[0] == 0x66 && p[1] == 0x4C && p[2] == 0x61 && p[3] == 0x43
            ||| p.len() >= 3 && p[0] == 0x49 && p[1] == 0x44 && p[2] == 0x33
            ||| p.len() >= 12 && p[4] == 0x66 && p[5] == 0x74 && p[6] == 0x79 && p[7] == 0x70
            ||| p.len() >= 12 && p[0] == 0x52 && p[1] == 0x49 && p[2] == 0x46 && p[3] == 0x46 && p[8]
                == 0x57 && p[9] == 0x45 && p[10] == 0x42 && p[11] == 0x50
        },
{
    marks(p, 0, seq![0xFFu8, 0xD8, 0xFF]);
    marks(p, 0, seq![0x89u8, 0x50, 0x4E, 0x47]);
    marks(p, 0, seq![0x47u8, 0x49, 0x46, 0x38]);
    marks(p, 0, seq![0x50u8, 0x4B, 0x03, 0x04]);
    marks(p, 0, seq![0x1Fu8, 0x8B]);
    marks(p, 0, seq![0x28u8, 0xB5, 0x2F, 0xFD]);
    marks(p, 0, seq![0x04u8, 0x22, 0x4D, 0x18]);
    marks(p, 0, seq![0x42u8, 0x5A, 0x68]);
    marks(p, 0, seq![0xFDu8, 0x37, 0x7A, 0x58, 0x5A]);
    marks(p, 0, seq![0x4Fu8, 0x67, 0x67, 0x53]);
    marks(p, 0, seq![0x66u8, 0x4C, 0x61, 0x43]);
    marks(p, 0, seq![0x49u8, 0x44, 0x33]);
    marks(p, 4, seq![0x66u8, 0x74, 0x79, 0x70]);
    marks(p, 0, seq![0x52u8, 0x49, 0x46, 0x46]);
    marks(p, 8, seq![0x57u8, 0x45, 0x42, 0x50]);
}

/// A mark of two to five bytes, byte by byte.
proof fn marks(p: Seq<u8>, at: int, mark: Seq<u8>)
    requires
        at >= 0,
        2 <= mark.len() <= 5,
    ensures
        marked(p, at, mark) <==> {
            &&& p.len() >= at + mark.len()
            &&& p[at] == mark[0] && p[at + 1] == mark[1]
            &&& mark.len() > 2 ==> p[at + 2] == mark[2]
            &&& mark.len() > 3 ==> p[at + 3] == mark[3]
            &&& mark.len() > 4 ==> p[at + 4] == mark[4]
        },
{
    if marked(p, at, mark) {
        assert(p[at + 0] == mark[0]);
        assert(p[at + 1] == mark[1]);
        if mark.len() > 2 {
            assert(p[at + 2] == mark[2]);
        }
        if mark.len() > 3 {
            assert(p[at + 3] == mark[3]);
        }
        if mark.len() > 4 {
            assert(p[at + 4] == mark[4]);
        }
    }
}

/// Working space is never the reason that coding fails: a transform has twice the
/// payload and a little more, the entropy coder its input and a little more, and a
/// receiver as much as the sender's transform had.
pub proof fn there_is_room_to_work_in(len: nat, secondary: nat)
    ensures
        transform_room(len) == 2 * len + 16,
        squeeze_room(secondary, len) >= len + 64,
        squeeze_room(secondary, len) >= secondary,
        squeeze_room(secondary, len) == secondary || squeeze_room(secondary, len) == len + 64,
{
}

/// Why a coded body is not decoded: its header is no header, the payload does not
/// fit, or Zstandard cannot undo it; in that order, and for no other reason. What
/// is decoded is what the header says: with Zstandard undone or, where it was not
/// run, the bytes behind the header as they are.
pub proof fn why_a_body_is_not_decoded(
    header: Result<CodecHeader, ProtocolError>,
    plaintext: Seq<u8>,
    scratch: nat,
    room: nat,
)
    requires
        room <= usize::MAX,
    ensures
        match header {
            Err(e) => decoded(header, plaintext, scratch, room) == Err::<Layer, Error>(
                Error::Protocol(e),
            ),
            Ok(h) => {
                let coded = plaintext.skip(4);
                let space = if scratch < 2 * h.original_len + 16 {
                    (2 * h.original_len + 16) as nat
                } else {
                    scratch
                };
                let bytes = if h.entropy == Entropy::Zstd {
                    zstd_decompressed(coded, space)
                } else {
                    Some(coded)
                };
                if h.original_len > room {
                    decoded(header, plaintext, scratch, room) == Err::<Layer, Error>(
                        Error::PayloadTooLarge {
                            len: h.original_len as usize,
                            limit: room as usize,
                        },
                    )
                } else if bytes is None {
                    decoded(header, plaintext, scratch, room) == Err::<Layer, Error>(
                        Error::Decompress,
                    )
                } else {
                    decoded(header, plaintext, scratch, room) == Ok::<Layer, Error>(
                        Layer {
                            transform: h.transform,
                            param: h.param,
                            original_len: h.original_len as nat,
                            bytes: bytes->0,
                        },
                    )
                }
            },
        },
{
}

/// What is handed to the entropy coder, and what the header then says of it: what
/// the transform made of the payload, under that transform and its parameter; or
/// the payload itself, under none.
pub proof fn the_header_names_the_transform_that_was_run(
    data: Seq<u8>,
    payload_type: PayloadType,
    caps: Capabilities,
    applied: Option<Seq<u8>>,
    capacity: nat,
)
    ensures
        match planned(data, payload_type, caps) {
            Plan::Skip => transformed_by(Plan::Skip, data, applied) is None && encoded(
                data,
                payload_type,
                caps,
                applied,
                capacity,
            ) is None,
            Plan::Apply { transform, param } => {
                &&& transformed_by(Plan::Apply { transform, param }, data, applied) == applied
                &&& encoded(data, payload_type, caps, applied, capacity) matches Some((header, _))
                    ==> header.transform == transform && header.param == param
                    && header.original_len == data.len()
            },
            Plan::AsIs => {
                &&& transformed_by(Plan::AsIs, data, applied) == Some(data)
                &&& encoded(data, payload_type, caps, applied, capacity) matches Some((header, _))
                    ==> header.transform == Transform::Unchanged && header.param == 0
                    && header.original_len == data.len() && header.entropy == Entropy::Zstd
            },
        },
{
}

/// What decoding ends with once the transform has been reversed: what that gave, and
/// where it failed, that the peer broke the protocol and how; what went wrong before
/// that stays what it was, and leaves the buffer alone.
pub proof fn what_decoding_ends_with(layer: Layer, e: Error, out: Seq<u8>, reverse: Reversal)
    ensures
        reverse(layer, out).0 matches Ok(n) ==> restored(Ok(layer), out, reverse).0 == Ok::<
            usize,
            Error,
        >(n),
        reverse(layer, out).0 matches Err(why) ==> restored(Ok(layer), out, reverse).0 == Err::<
            usize,
            Error,
        >(Error::Protocol(why)),
        restored(Ok(layer), out, reverse).1 == reverse(layer, out).1,
        restored(Err(e), out, reverse) == (Err::<usize, Error>(e), out),
{
}

/// What coding a payload gives, from what it is given alone: nothing where nothing is
/// to be coded; and otherwise the shorter of the two forms, if and only if it saves
/// more than its header costs, under a header that describes it.
pub proof fn what_coding_gives(
    data: Seq<u8>,
    payload_type: PayloadType,
    caps: Capabilities,
    applied: Option<Seq<u8>>,
    secondary: nat,
    coded: Option<(CodecHeader, Seq<u8>)>,
)
    requires
        codes(data, payload_type, caps, applied, secondary, coded),
    ensures
        match transformed_by(planned(data, payload_type, caps), data, applied) {
            None => coded is None,
            Some(transformed) => {
                let space = if secondary < transformed.len() + 64 {
                    transformed.len() + 64
                } else {
                    secondary
                };
                let squeezed = zstd_compressed(transformed, space, 1);
                let squeezes = caps.zstd && squeezed is Some && squeezed->0.len()
                    < transformed.len();
                let form = if squeezes {
                    squeezed->0
                } else {
                    transformed
                };
                &&& coded is Some <==> 4 + form.len() < data.len()
                &&& coded matches Some((header, bytes)) ==> {
                    &&& bytes == form
                    &&& header.original_len == data.len()
                    &&& header.entropy == Entropy::Zstd <==> squeezes
                    &&& transformed.len() <= 2 * data.len() + 16 ==> forall|scratch: nat|
                        #[trigger] unsqueezed(header, bytes, scratch) == Some(transformed)
                }
            },
        },
{
    if let Some(transformed) = transformed_by(
        planned(data, payload_type, caps),
        data,
        applied,
    ) {
        let space = squeeze_room(secondary, transformed.len());
        coding_is_kept_exactly_where_it_pays(data, payload_type, caps, applied, space);
        the_header_describes_the_payload(data, payload_type, caps, applied, space);
    }
}

} // verus!
