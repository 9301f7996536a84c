//! A deterministic stand-in for an entropy source, and the tally of a run that
//! exercises the whole protocol.

use vstd::prelude::*;

verus! {

/// A generator whose every output follows from its seed.
///
/// Fit for measuring what the protocol costs, and for nothing else.
#[derive(Debug, Clone, Copy, PartialEq, Eq, Structural)]
pub struct Counter(pub u64);

/// One step of the generator.
pub open spec fn stepped(x: u64) -> u64 {
    let a = x ^ (x << 13);
    let b = a ^ (a >> 7);
    b ^ (b << 17)
}

/// Several steps.
pub open spec fn stepped_by(x: u64, n: nat) -> u64
    decreases n,
{
    if n == 0 {
        x
    } else {
        stepped(stepped_by(x, (n - 1) as nat))
    }
}

/// A byte of a word, the lowest first.
pub open spec fn byte_of(word: u64, k: int) -> u8 {
    ((word >> ((8 * k) as u64)) & 0xff) as u8
}

/// What is written at a position when `len` bytes are filled from a seed: eight
/// bytes of each step, in order.
pub open spec fn filled(seed: u64, i: int) -> u8 {
    byte_of(stepped_by(seed, (i / 8 + 1) as nat), i % 8)
}

impl Counter {
    /// The next word.
    pub fn next_u64(&mut self) -> (word: u64)
        ensures
            word == stepped(old(self).0),
            final(self).0 == word,
    {
        self.0 = self.0 ^ (self.0 << 13);
        self.0 = self.0 ^ (self.0 >> 7);
        self.0 = self.0 ^ (self.0 << 17);
        self.0
    }

    /// The low half of the next word.
    pub fn next_u32(&mut self) -> (half: u32)
        ensures
            half == (stepped(old(self).0) & 0xffff_ffff) as u32,
            final(self).0 == stepped(old(self).0),
    {
        let word: u64 = self.next_u64();
        let half: u64 = word & 0xffff_ffff;
        proof {
            assert(word & 0xffff_ffff <= 0xffff_ffff) by (bit_vector);
        }
        half as u32
    }

    /// Fills a buffer, eight bytes to a word.
    pub fn fill_bytes(&mut self, dest: &mut [u8])
        ensures
            final(dest)@.len() == old(dest)@.len(),
            forall|i: int|
                0 <= i < final(dest)@.len() ==> #[trigger] final(dest)@[i] == filled(
                    old(self).0,
                    i,
                ),
            final(self).0 == stepped_by(
                old(self).0,
                ((old(dest)@.len() + 7) / 8) as nat,
            ),
    {
        let ghost seed = self.0;
        let mut i: usize = 0;
        while i < dest.len()
            invariant
                i <= dest@.len(),
                dest@.len() == old(dest)@.len(),
                self.0 == stepped_by(seed, ((i + 7) / 8) as nat),
                forall|k: int| 0 <= k < i ==> #[trigger] dest@[k] == filled(seed, k),
            decreases dest@.len() - i,
        {
            if i % 8 == 0 {
                let _ = self.next_u64();
                proof {
                    assert(((i + 8) / 8) == (i + 7) / 8 + 1);
                }
            }
            proof {
                assert((i + 8) / 8 == i / 8 + 1);
                assert(self.0 == stepped_by(seed, (i / 8 + 1) as nat));
            }
            let shift: u64 = 8 * (i % 8) as u64;
            let word: u64 = self.0;
            let low: u64 = (word >> shift) & 0xff;
            proof {
                assert((word >> shift) & 0xff <= 0xff) by (bit_vector);
            }
            dest[i] = low as u8;
            i += 1;
        }
    }
}

/// What each step of the exercise gave, where it got that far.
#[derive(Debug, Clone, Copy, PartialEq, Eq, Structural)]
pub struct Run {
    /// Length of the opening frame.
    pub init: Option<u32>,
    /// Length of the data that it carried.
    pub zero_rtt: Option<u32>,
    /// Length of the response.
    pub response: Option<u32>,
    /// Length of the data that the response carried.
    pub replied: Option<u32>,
    /// Length of the data that a sealed frame gave back when it was opened.
    pub opened: Option<u32>,
    /// The payload length that a codec header still stated once it was encoded
    /// and decoded.
    pub original_len: Option<u32>,
}

/// A sum that wraps round.
pub open spec fn wrapped(a: u32, b: u32) -> u32 {
    if a + b <= u32::MAX {
        (a + b) as u32
    } else {
        (a + b - u32::MAX - 1) as u32
    }
}

/// The tally of a run: nothing unless the handshake completed, and then what the
/// handshake, the data frame and the codec header gave. Without the data frame
/// nothing after it is counted.
pub open spec fn tally(run: Run) -> u32 {
    match (run.init, run.zero_rtt, run.response, run.replied) {
        (Some(a), Some(b), Some(c), Some(d)) => {
            let handshake = wrapped(wrapped(wrapped(a, b), c), d);
            match (run.opened, run.original_len) {
                (None, _) => handshake,
                (Some(e), None) => wrapped(handshake, e),
                (Some(e), Some(f)) => wrapped(wrapped(handshake, e), f),
            }
        },
        _ => 0,
    }
}

/// The tally of a run that exercises the whole protocol.
pub fn exercise(run: Run) -> (total: u32)
    ensures
        total == tally(run),
{
    let mut total: u32 = 0;
    match run.init {
        Some(n) => {
            total = total.wrapping_add(n);
        },
        None => {
            return 0;
        },
    }
    match run.zero_rtt {
        Some(n) => {
            total = total.wrapping_add(n);
        },
        None => {
            return 0;
        },
    }
    match run.response {
        Some(n) => {
            total = total.wrapping_add(n);
        },
        None => {
            return 0;
        },
    }
    match run.replied {
        Some(n) => {
            total = total.wrapping_add(n);
        },
        None => {
            return 0;
        },
    }
    match run.opened {
        Some(n) => {
            total = total.wrapping_add(n);
        },
        None => {
            return total;
        },
    }
    match run.original_len {
        Some(n) => {
            total = total.wrapping_add(n);
        },
        None => {},
    }
    total
}

/// A sum that wraps round is the sum, but for whole turns.
pub proof fn a_wrapped_sum_is_the_sum_but_for_whole_turns(a: u32, b: u32)
    ensures
        wrapped(a, b) as int == (a + b) % 0x1_0000_0000,
{
}

/// Turns already taken off a sum make no difference to taking them off later.
proof fn turns_taken_off_early(n: int, m: int)
    requires
        n >= 0,
        m >= 0,
    ensures
        (n % 0x1_0000_0000 + m) % 0x1_0000_0000 == (n + m) % 0x1_0000_0000,
{
    vstd::arithmetic::div_mod::lemma_add_mod_noop_right(m, n, 0x1_0000_0000);
}

/// The tally of a run that got all the way is the sum of what every step gave,
/// counting round; one that did not finish its handshake comes to nothing, and one
/// that stopped after it to what it had by then.
pub proof fn the_tally_is_the_sum_of_the_steps(
    a: u32,
    b: u32,
    c: u32,
    d: u32,
    e: u32,
    f: u32,
    run: Run,
)
    ensures
        ({
            let whole = Run {
                init: Some(a),
                zero_rtt: Some(b),
                response: Some(c),
                replied: Some(d),
                opened: Some(e),
                original_len: Some(f),
            };
            &&& tally(whole) as int == (a + b + c + d + e + f) % 0x1_0000_0000
            &&& tally(Run { original_len: None, ..whole }) as int == (a + b + c + d + e)
                % 0x1_0000_0000
            &&& tally(Run { opened: None, ..whole }) as int == (a + b + c + d) % 0x1_0000_0000
            &&& tally(Run { opened: None, original_len: None, ..whole }) as int == (a + b + c + d)
                % 0x1_0000_0000
        }),
        run.init is None || run.zero_rtt is None || run.response is None || run.replied is None
            ==> tally(run) == 0,
{
    let ab = wrapped(a, b);
    let abc = wrapped(ab, c);
    let abcd = wrapped(abc, d);
    let abcde = wrapped(abcd, e);
    a_wrapped_sum_is_the_sum_but_for_whole_turns(a, b);
    a_wrapped_sum_is_the_sum_but_for_whole_turns(ab, c);
    a_wrapped_sum_is_the_sum_but_for_whole_turns(abc, d);
    a_wrapped_sum_is_the_sum_but_for_whole_turns(abcd, e);
    a_wrapped_sum_is_the_sum_but_for_whole_turns(abcde, f);
    turns_taken_off_early(a + b, c as int);
    turns_taken_off_early(a + b + c, d as int);
    turns_taken_off_early(a + b + c + d, e as int);
    turns_taken_off_early(a + b + c + d + e, f as int);
}

/// Eight bytes that are filled are one word of the generator, the lowest first, and
/// the next eight the next.
pub proof fn every_eight_bytes_are_the_next_word(seed: u64, w: nat)
    ensures
        ({
            let word = stepped_by(seed, w + 1);
            let b = |k: int| filled(seed, 8 * w + k) as int;
            &&& word == b(0) + 0x100 * b(1) + 0x1_0000 * b(2) + 0x100_0000 * b(3) + 0x1_0000_0000
                * b(4) + 0x100_0000_0000 * b(5) + 0x1_0000_0000_0000 * b(6) + 0x100_0000_0000_0000
                * b(7)
            &&& stepped_by(seed, w + 1) == stepped(stepped_by(seed, w))
            &&& stepped_by(seed, 0) == seed
        }),
{
    let word = stepped_by(seed, w + 1);
    assert forall|k: int| 0 <= k < 8 implies filled(seed, 8 * w + k) == #[trigger] byte_of(
        word,
        k,
    ) by {
        assert((8 * w + k) / 8 == w);
        assert((8 * w + k) % 8 == k);
    }
    assert(word == (word & 0xff) + 0x100 * ((word >> 8) & 0xff) + 0x1_0000 * ((word >> 16) & 0xff)
        + 0x100_0000 * ((word >> 24) & 0xff) + 0x1_0000_0000 * ((word >> 32) & 0xff)
        + 0x100_0000_0000 * ((word >> 40) & 0xff) + 0x1_0000_0000_0000 * ((word >> 48) & 0xff)
        + 0x100_0000_0000_0000 * ((word >> 56) & 0xff)) by (bit_vector);
    assert(word >> 0 == word) by (bit_vector);
    assert((word & 0xff) <= 0xff && ((word >> 8) & 0xff) <= 0xff && ((word >> 16) & 0xff) <= 0xff
        && ((word >> 24) & 0xff) <= 0xff && ((word >> 32) & 0xff) <= 0xff && ((word >> 40) & 0xff)
        <= 0xff && ((word >> 48) & 0xff) <= 0xff && ((word >> 56) & 0xff) <= 0xff)
        by (bit_vector);
}

/// The generator mixes bits and loses none of what two seeds differ by: what it makes
/// of two words together is what it makes of each, together; and it comes to nothing
/// from nothing alone.
pub proof fn the_generator_mixes_bit_by_bit(x: u64, y: u64)
    ensures
        stepped(x ^ y) == stepped(x) ^ stepped(y),
        stepped(0) == 0,
        x != 0 ==> stepped(x) != 0,
        stepped(1) == 0x4082_2041,
{
    assert({
        let a = (x ^ y) ^ ((x ^ y) << 13);
        let b = a ^ (a >> 7);
        let c = x ^ (x << 13);
        let d = c ^ (c >> 7);
        let e = y ^ (y << 13);
        let f = e ^ (e >> 7);
        b ^ (b << 17) == (d ^ (d << 17)) ^ (f ^ (f << 17))
    }) by (bit_vector);
    assert({
        let a = 0u64 ^ (0u64 << 13);
        let b = a ^ (a >> 7);
        b ^ (b << 17) == 0
    }) by (bit_vector);
    assert({
        let a = 1u64 ^ (1u64 << 13);
        let b = a ^ (a >> 7);
        b ^ (b << 17) == 0x4082_2041
    }) by (bit_vector);
    assert(x != 0 ==> {
        let a = x ^ (x << 13);
        let b = a ^ (a >> 7);
        b ^ (b << 17) != 0
    }) by (bit_vector);
}

} // verus!
