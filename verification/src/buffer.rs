//! Byte buffers: growing them, copying into them, comparing them.

use vstd::prelude::*;
use vstd::slice::{slice_subrange, slice_to_vec};

verus! {

/// `len` zero bytes.
pub open spec fn zeros(len: nat) -> Seq<u8> {
    Seq::new(len, |i: int| 0u8)
}

/// What a buffer holds once it has been grown to at least `len` bytes.
pub open spec fn grown(buf: Seq<u8>, len: nat) -> Seq<u8> {
    if buf.len() < len {
        buf + zeros((len - buf.len()) as nat)
    } else {
        buf
    }
}

/// What a buffer holds once `data` has been written over it from `at` on.
pub open spec fn overlaid(buf: Seq<u8>, at: int, data: Seq<u8>) -> Seq<u8> {
    Seq::new(
        buf.len(),
        |i: int|
            if at <= i < at + data.len() {
                data[i - at]
            } else {
                buf[i]
            },
    )
}

/// Grows `buf` to at least `len` bytes, filling with zeros. It never shrinks one.
pub fn ensure(buf: &mut Vec<u8>, len: usize)
    ensures
        final(buf)@ == grown(old(buf)@, len as nat),
{
    if buf.len() < len {
        let ghost before = buf@;
        buf.resize(len, 0);
        proof {
            assert(buf@ =~= grown(before, len as nat)) by {
                assert forall|i: int| 0 <= i < buf@.len() implies buf@[i] == grown(
                    before,
                    len as nat,
                )[i] by {
                    if i < before.len() {
                        assert(buf@.subrange(0, before.len() as int)[i] == buf@[i]);
                    }
                }
            }
        }
    }
}

/// Writes `data` into `buf` from `at` on.
pub fn overlay(buf: &mut Vec<u8>, at: usize, data: &[u8])
    requires
        at + data@.len() <= old(buf)@.len(),
    ensures
        final(buf)@ == overlaid(old(buf)@, at as int, data@),
{
    let ghost before = buf@;
    let total: usize = buf.len();
    let mut k: usize = 0;
    while k < data.len()
        invariant
            k <= data@.len(),
            at + data@.len() <= before.len(),
            before.len() == total,
            buf@ == overlaid(before, at as int, data@.take(k as int)),
        decreases data@.len() - k,
    {
        buf.set(at + k, data[k]);
        k += 1;
        proof {
            assert(buf@ =~= overlaid(before, at as int, data@.take(k as int)));
        }
    }
    proof {
        assert(data@.take(k as int) =~= data@);
        assert(buf@ =~= overlaid(before, at as int, data@));
    }
}

/// An owned copy of `data`.
pub fn copy_of(data: &[u8]) -> (copy: Vec<u8>)
    ensures
        copy@ == data@,
{
    slice_to_vec(data)
}

/// An owned copy of the bytes from `from` up to `to`.
pub fn copy_range(data: &[u8], from: usize, to: usize) -> (copy: Vec<u8>)
    requires
        from <= to <= data@.len(),
    ensures
        copy@ == data@.subrange(from as int, to as int),
{
    slice_to_vec(slice_subrange(data, from, to))
}

/// Whether the two hold the same bytes.
pub fn same(a: &[u8], b: &[u8]) -> (equal: bool)
    ensures
        equal == (a@ == b@),
{
    if a.len() != b.len() {
        return false;
    }
    let mut i: usize = 0;
    while i < a.len()
        invariant
            i <= a@.len(),
            a@.len() == b@.len(),
            forall|k: int| 0 <= k < i ==> a@[k] == b@[k],
        decreases a@.len() - i,
    {
        if a[i] != b[i] {
            return false;
        }
        i += 1;
    }
    proof {
        assert(a@ =~= b@);
    }
    true
}

/// A buffer that is grown keeps what it held and has zeros behind it; one that is
/// large enough stays as it is. One that is written over keeps what is to either side.
pub proof fn buffers_keep_what_they_held(buf: Seq<u8>, len: nat, at: int, data: Seq<u8>)
    ensures
        grown(buf, len).len() >= len && grown(buf, len).len() >= buf.len(),
        buf.len() >= len ==> grown(buf, len) == buf,
        buf.len() < len ==> grown(buf, len).len() == len,
        grown(buf, len).take(buf.len() as int) == buf,
        forall|i: int| buf.len() <= i < grown(buf, len).len() ==> grown(buf, len)[i] == 0,
        overlaid(buf, at, data).len() == buf.len(),
        0 <= at && at + data.len() <= buf.len() ==> overlaid(buf, at, data) == buf.take(at) + data
            + buf.skip(at + data.len()),
        zeros(len).len() == len,
        forall|i: int| 0 <= i < len ==> zeros(len)[i] == 0,
{
    assert(grown(buf, len).take(buf.len() as int) =~= buf);
    if 0 <= at && at + data.len() <= buf.len() {
        assert(overlaid(buf, at, data) =~= buf.take(at) + data + buf.skip(at + data.len()));
    }
}

} // verus!
