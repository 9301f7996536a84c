//! Cutting a message into equal pieces, and what the pieces add up to.

use vstd::prelude::*;

verus! {

/// Most fragments one message may be cut into.
pub const MAX_FRAGMENTS: u16 = 4096;

/// Largest message that may be cut at all, in bytes.
pub const MAX_MESSAGE_LEN: usize = 1_048_576;

/// Where one piece belongs: which message, which position, out of how many.
#[derive(Debug, Clone, Copy, PartialEq, Eq, Structural)]
pub struct Fragment {
    /// The message this is a piece of.
    pub message: u32,
    /// Position of the piece, from zero.
    pub index: u16,
    /// How many pieces the message was cut into.
    pub count: u16,
}

impl Fragment {
    /// Whether a position lies inside the count it comes with.
    pub open spec fn in_range(self) -> bool {
        self.index < self.count
    }

    /// Whether this is the final piece.
    pub open spec fn last(self) -> bool {
        self.index + 1 == self.count
    }

    /// Whether this is the final piece, whose length is whatever was left over.
    pub fn is_last(&self) -> (last: bool)
        ensures
            last == self.last(),
    {
        self.index as u32 + 1 == self.count as u32
    }
}

/// How many pieces of `stride` bytes it takes to carry `len` bytes: as few as
/// possible, and one even for an empty message.
pub open spec fn pieces_needed(len: nat, stride: nat) -> nat
    recommends
        stride > 0,
{
    if len == 0 {
        1
    } else {
        ((len + stride - 1) / stride as int) as nat
    }
}

/// Where piece `index` stops: a whole stride further on, or at the end of the data.
pub open spec fn piece_end(len: nat, stride: nat, index: int) -> int {
    if (index + 1) * stride <= len {
        (index + 1) * stride
    } else {
        len as int
    }
}

/// The bytes of piece `index` when `data` is cut every `stride` bytes.
pub open spec fn piece(data: Seq<u8>, stride: nat, index: int) -> Seq<u8> {
    data.subrange(index * stride, piece_end(data.len(), stride, index))
}

/// Whether a message of `len` bytes can be cut every `stride` bytes.
pub open spec fn divisible(len: nat, stride: nat) -> bool {
    stride > 0 && len <= MAX_MESSAGE_LEN && pieces_needed(len, stride) <= MAX_FRAGMENTS
}

/// The first `n` pieces laid end to end.
pub open spec fn laid_out(data: Seq<u8>, stride: nat, n: nat) -> Seq<u8>
    decreases n,
{
    if n == 0 {
        Seq::empty()
    } else {
        laid_out(data, stride, (n - 1) as nat) + piece(data, stride, n - 1)
    }
}

/// The bounds that `pieces_needed` keeps: one piece fewer would not reach the
/// end, and this many do.
pub proof fn pieces_needed_bounds(len: nat, stride: nat)
    requires
        stride > 0,
    ensures
        pieces_needed(len, stride) >= 1,
        (pieces_needed(len, stride) - 1) * stride <= len <= pieces_needed(len, stride) * stride,
        len > 0 ==> (pieces_needed(len, stride) - 1) * stride < len,
{
    if len > 0 {
        let n = (len + stride - 1) / stride as int;
        let r = (len + stride - 1) % stride as int;
        vstd::arithmetic::div_mod::lemma_fundamental_div_mod(len + stride - 1, stride as int);
        assert(n * stride == stride * n) by (nonlinear_arith);
        assert((n - 1) * stride == n * stride - stride) by (nonlinear_arith);
        assert(n >= 1) by {
            if n <= 0 {
                assert(n * stride <= 0) by (nonlinear_arith)
                    requires
                        n <= 0,
                        stride > 0,
                ;
            }
        }
    }
}

/// Every piece but the last is exactly one stride long and starts inside the
/// data; the last takes what is left, which is no more than a stride.
pub proof fn piece_lengths(data: Seq<u8>, stride: nat, index: int)
    requires
        stride > 0,
        0 <= index < pieces_needed(data.len(), stride),
    ensures
        0 <= index * stride <= piece_end(data.len(), stride, index) <= data.len(),
        index + 1 < pieces_needed(data.len(), stride) ==> piece(data, stride, index).len() == stride
            && (index + 1) * stride <= data.len(),
        index + 1 == pieces_needed(data.len(), stride) ==> piece(data, stride, index).len()
            == data.len() - index * stride && piece(data, stride, index).len() <= stride,
{
    let n = pieces_needed(data.len(), stride);
    pieces_needed_bounds(data.len(), stride);
    assert((index + 1) * stride == index * stride + stride) by (nonlinear_arith);
    assert(0 <= index * stride) by (nonlinear_arith)
        requires
            0 <= index,
    ;
    if index + 1 < n {
        assert((index + 1) * stride <= (n - 1) * stride) by (nonlinear_arith)
            requires
                index + 1 <= n - 1,
        ;
    } else {
        assert((index + 1) * stride == n * stride);
        assert(index * stride == (n - 1) * stride);
    }
}

/// Laying the first pieces end to end gives back the front of the data.
pub proof fn laid_out_is_a_prefix(data: Seq<u8>, stride: nat, n: nat)
    requires
        stride > 0,
        n <= pieces_needed(data.len(), stride),
    ensures
        n < pieces_needed(data.len(), stride) ==> n * stride <= data.len() && laid_out(data, stride, n)
            == data.take((n * stride) as int),
        n == pieces_needed(data.len(), stride) ==> laid_out(data, stride, n) == data,
    decreases n,
{
    if n == 0 {
        assert(0 * stride == 0) by (nonlinear_arith);
        assert(laid_out(data, stride, 0) =~= data.take(0));
        pieces_needed_bounds(data.len(), stride);
    } else {
        let before = (n - 1) as nat;
        laid_out_is_a_prefix(data, stride, before);
        piece_lengths(data, stride, before as int);
        assert(before * stride + stride == n * stride) by (nonlinear_arith)
            requires
                before + 1 == n,
        ;
        if n < pieces_needed(data.len(), stride) {
            assert(laid_out(data, stride, n) =~= data.take((n * stride) as int));
        } else {
            assert(laid_out(data, stride, n) =~= data);
        }
    }
}

/// Cutting loses nothing: all the pieces of a message, laid end to end, are the
/// message.
pub proof fn cutting_loses_nothing(data: Seq<u8>, stride: nat)
    requires
        stride > 0,
    ensures
        laid_out(data, stride, pieces_needed(data.len(), stride)) == data,
{
    laid_out_is_a_prefix(data, stride, pieces_needed(data.len(), stride));
}

/// How many fragments of `per_fragment` bytes carry `len` bytes, or `None`
/// where the message is larger than may be cut or there is no room to cut it into.
pub fn fragments_needed(len: usize, per_fragment: usize) -> (count: Option<u16>)
    ensures
        count is Some == divisible(len as nat, per_fragment as nat),
        count matches Some(n) ==> n == pieces_needed(len as nat, per_fragment as nat),
{
    if per_fragment == 0 || len > MAX_MESSAGE_LEN {
        return None;
    }
    if len == 0 {
        return Some(1);
    }
    let whole: usize = (len - 1) / per_fragment;
    proof {
        let stride = per_fragment as int;
        vstd::arithmetic::div_mod::lemma_div_plus_one(len - 1, stride);
        assert((len - 1 + stride) / stride == (len - 1) / stride + 1);
        assert(whole <= len - 1) by (nonlinear_arith)
            requires
                whole == (len - 1) / stride,
                stride > 0,
                len > 0,
        ;
    }
    let count: usize = whole + 1;
    if count > MAX_FRAGMENTS as usize {
        return None;
    }
    Some(count as u16)
}

/// A message is cut into as few pieces as carry it: one piece for nothing, and
/// otherwise so many that one fewer would not do. It can be cut exactly where it is
/// no longer than a message may be and no more pieces are needed than there may be.
pub proof fn a_message_is_cut_into_as_few_pieces_as_carry_it(len: nat, stride: nat, n: nat)
    requires
        stride > 0,
        n >= 1,
    ensures
        n * stride >= len ==> pieces_needed(len, stride) <= n,
        n * stride < len ==> pieces_needed(len, stride) > n,
        divisible(len, stride) <==> len <= 1_048_576 && len <= 4096 * stride,
        !divisible(len, 0),
{
    pieces_needed_bounds(len, stride);
    let needed = pieces_needed(len, stride);
    if needed > n {
        assert((needed - 1) * stride >= n * stride) by (nonlinear_arith)
            requires
                needed - 1 >= n,
        ;
    } else {
        assert(needed * stride <= n * stride) by (nonlinear_arith)
            requires
                needed <= n,
        ;
    }
    if needed > 4096 {
        assert((needed - 1) * stride >= 4096 * stride) by (nonlinear_arith)
            requires
                needed - 1 >= 4096,
        ;
    } else {
        assert(needed * stride <= 4096 * stride) by (nonlinear_arith)
            requires
                needed <= 4096,
        ;
    }
}

/// Every byte of a message is in the piece that its place says, at the place within
/// it that is left over.
pub proof fn a_byte_is_in_the_piece_that_its_place_says(data: Seq<u8>, stride: nat, index: int, k: int)
    requires
        stride > 0,
        0 <= index < pieces_needed(data.len(), stride),
        0 <= k < stride,
        index * stride + k < data.len(),
    ensures
        k < piece(data, stride, index).len(),
        piece(data, stride, index)[k] == data[index * stride + k],
{
    piece_lengths(data, stride, index);
    assert((index + 1) * stride == index * stride + stride) by (nonlinear_arith);
}

/// Of the positions that a count has, the first is zero and the last is the one
/// that nothing follows.
pub proof fn positions_run_from_zero_to_the_last(f: Fragment)
    ensures
        f.in_range() <==> 0 <= f.index && f.index < f.count,
        f.last() <==> f.index == f.count - 1,
        f.last() ==> f.in_range(),
{
}

} // verus!
