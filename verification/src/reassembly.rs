//! Putting the pieces of a message back together, in whatever order they come.
//!
//! Every piece but the last has the same length, so a piece's place follows
//! from its position alone. What a sender says about a message is a claim, so
//! both how many messages are held half-built and how large one may grow are
//! bounded here.

use vstd::prelude::*;

use crate::buffer::{copy_of, ensure, grown, overlaid, overlay};
use crate::error::{Error, ProtocolError};
use crate::fragment::{Fragment, MAX_FRAGMENTS, MAX_MESSAGE_LEN};

verus! {

/// Messages a receiver will hold half-built at once.
pub const MAX_REASSEMBLIES: usize = 4;

/// One half-built message: the pieces that have come, by position, and the
/// length that every piece before the last must have.
pub struct PartialState {
    /// Which message.
    pub message: u32,
    /// How many pieces it was cut into.
    pub count: nat,
    /// Length of a piece before the last, once one has come.
    pub stride: Option<nat>,
    /// The pieces held.
    pub pieces: Map<int, Seq<u8>>,
}

/// The first `n` pieces end to end.
pub open spec fn join(pieces: Map<int, Seq<u8>>, n: nat) -> Seq<u8>
    decreases n,
{
    if n == 0 {
        Seq::empty()
    } else {
        join(pieces, (n - 1) as nat) + pieces[n - 1]
    }
}

impl PartialState {
    /// A message of which nothing has come yet.
    pub open spec fn fresh(message: u32, count: nat) -> Self {
        PartialState { message, count, stride: None, pieces: Map::empty() }
    }

    /// Bytes set aside for the pieces before the last.
    pub open spec fn body_len(self) -> nat {
        match self.stride {
            Some(stride) => (stride * (self.count - 1)) as nat,
            None => 0,
        }
    }

    /// Bytes held of the last piece.
    pub open spec fn tail_len(self) -> nat {
        if self.pieces.contains_key(self.count - 1) {
            self.pieces[self.count - 1].len()
        } else {
            0
        }
    }

    /// Bytes this message makes the receiver hold.
    pub open spec fn held(self) -> nat {
        self.body_len() + self.tail_len()
    }

    /// Why a piece cannot be placed, if it cannot: before the last, it has to
    /// be as long as the others, and the message must not outgrow the bound.
    pub open spec fn refusal(self, index: int, data: Seq<u8>) -> Option<ProtocolError> {
        if index + 1 == self.count {
            None
        } else if self.stride is Some && self.stride != Some(data.len()) {
            Some(ProtocolError::BadHeader)
        } else if data.len() * (self.count - 1) > MAX_MESSAGE_LEN {
            Some(ProtocolError::PayloadTooLarge)
        } else {
            None
        }
    }

    /// The message with one more piece.
    pub open spec fn with_piece(self, index: int, data: Seq<u8>) -> Self {
        PartialState {
            stride: if index + 1 == self.count {
                self.stride
            } else {
                Some(data.len())
            },
            pieces: self.pieces.insert(index, data),
            ..self
        }
    }

    /// Whether every piece has come.
    pub open spec fn complete(self) -> bool {
        forall|i: int| 0 <= i < self.count ==> self.pieces.contains_key(i)
    }
}

/// Whether a message is held half-built.
pub open spec fn holds(held: Seq<PartialState>, message: u32) -> bool {
    exists|j: int| 0 <= j < held.len() && (#[trigger] held[j]).message == message
}

/// Where it is held.
pub open spec fn slot_of(held: Seq<PartialState>, message: u32) -> int {
    choose|j: int| 0 <= j < held.len() && (#[trigger] held[j]).message == message
}

/// No message is held twice.
pub open spec fn distinct(held: Seq<PartialState>) -> bool {
    forall|i: int, j: int|
        0 <= i < held.len() && 0 <= j < held.len() && i != j ==> (#[trigger] held[i]).message != (
        #[trigger] held[j]).message
}

/// What becomes of the half-built messages, and what is returned, when a piece
/// of the one at `slot` comes.
pub open spec fn folded(
    held: Seq<PartialState>,
    slot: int,
    index: int,
    data: Seq<u8>,
) -> (Seq<PartialState>, Result<Option<Seq<u8>>, Error>) {
    let before = held[slot];
    let after = before.with_piece(index, data);
    if before.pieces.contains_key(index) {
        (held, Ok(None))
    } else if let Some(e) = before.refusal(index, data) {
        (held.remove(slot), Err(Error::Protocol(e)))
    } else if after.complete() {
        (held.remove(slot), Ok(Some(join(after.pieces, after.count))))
    } else if after.held() > MAX_MESSAGE_LEN {
        (held.remove(slot), Err(Error::Protocol(ProtocolError::PayloadTooLarge)))
    } else {
        (held.update(slot, after), Ok(None))
    }
}

/// The half-built messages with a new one begun: at the bound, the oldest goes.
pub open spec fn begun(held: Seq<PartialState>, fragment: Fragment) -> Seq<PartialState> {
    let kept = if held.len() >= MAX_REASSEMBLIES {
        held.remove(0)
    } else {
        held
    };
    kept.push(PartialState::fresh(fragment.message, fragment.count as nat))
}

/// What becomes of the half-built messages, and what is returned, when one
/// fragment comes.
pub open spec fn accepted(held: Seq<PartialState>, fragment: Fragment, data: Seq<u8>) -> (
    Seq<PartialState>,
    Result<Option<Seq<u8>>, Error>,
) {
    if fragment.count > MAX_FRAGMENTS {
        (held, Err(Error::Protocol(ProtocolError::BadHeader)))
    } else if holds(held, fragment.message) {
        let slot = slot_of(held, fragment.message);
        if held[slot].count != fragment.count {
            (held.remove(slot), Err(Error::Protocol(ProtocolError::BadHeader)))
        } else {
            folded(held, slot, fragment.index as int, data)
        }
    } else {
        let held = begun(held, fragment);
        folded(held, held.len() - 1, fragment.index as int, data)
    }
}

/// No message is held twice, no more are held than the bound allows, and none
/// is larger than a message may be.
pub open spec fn within_bounds(held: Seq<PartialState>) -> bool {
    &&& distinct(held)
    &&& held.len() <= MAX_REASSEMBLIES
    &&& forall|j: int| 0 <= j < held.len() ==> (#[trigger] held[j]).held() <= MAX_MESSAGE_LEN
    &&& forall|j: int| 0 <= j < held.len() ==> 1 <= (#[trigger] held[j]).count <= MAX_FRAGMENTS
}

proof fn within_bounds_without(held: Seq<PartialState>, slot: int)
    requires
        within_bounds(held),
        0 <= slot < held.len(),
    ensures
        within_bounds(held.remove(slot)),
{
    let rest = held.remove(slot);
    assert forall|i: int| 0 <= i < rest.len() implies #[trigger] rest[i] == held[if i < slot {
        i
    } else {
        i + 1
    }] by {}
}

proof fn within_bounds_begun(held: Seq<PartialState>, fragment: Fragment)
    requires
        within_bounds(held),
        !holds(held, fragment.message),
        1 <= fragment.count <= MAX_FRAGMENTS,
    ensures
        within_bounds(begun(held, fragment)),
{
    if held.len() >= MAX_REASSEMBLIES {
        within_bounds_without(held, 0);
    }
    let kept = if held.len() >= MAX_REASSEMBLIES {
        held.remove(0)
    } else {
        held
    };
    assert forall|i: int| 0 <= i < kept.len() implies (#[trigger] kept[i]).message
        != fragment.message by {
        if held.len() >= MAX_REASSEMBLIES {
            assert(held[i + 1].message != fragment.message);
        } else {
            assert(held[i].message != fragment.message);
        }
    }
}

/// What a result says of its bytes, leaving aside where they are kept.
pub open spec fn outcome_view(outcome: Result<Option<Vec<u8>>, Error>) -> Result<
    Option<Seq<u8>>,
    Error,
> {
    match outcome {
        Ok(Some(whole)) => Ok(Some(whole@)),
        Ok(None) => Ok(None),
        Err(e) => Err(e),
    }
}

/// How many of the flags are set.
spec fn set_flags(have: Seq<bool>) -> nat
    decreases have.len(),
{
    if have.len() == 0 {
        0
    } else {
        set_flags(have.drop_last()) + if have.last() {
            1nat
        } else {
            0nat
        }
    }
}

proof fn set_flags_of_none(have: Seq<bool>)
    requires
        forall|i: int| 0 <= i < have.len() ==> !have[i],
    ensures
        set_flags(have) == 0,
    decreases have.len(),
{
    if have.len() > 0 {
        set_flags_of_none(have.drop_last());
    }
}

proof fn set_flags_at_most_all(have: Seq<bool>)
    ensures
        set_flags(have) <= have.len(),
        set_flags(have) == have.len() <==> (forall|i: int| 0 <= i < have.len() ==> have[i]),
    decreases have.len(),
{
    if have.len() > 0 {
        let rest = have.drop_last();
        set_flags_at_most_all(rest);
        if set_flags(have) == have.len() {
            assert forall|i: int| 0 <= i < have.len() implies have[i] by {
                if i < rest.len() {
                    assert(rest[i] == have[i]);
                }
            }
        }
        if forall|i: int| 0 <= i < have.len() ==> have[i] {
            assert(have.last());
            assert forall|i: int| 0 <= i < rest.len() implies rest[i] by {
                assert(have[i]);
            }
        }
    }
}

proof fn set_flags_after_set(have: Seq<bool>, index: int)
    requires
        0 <= index < have.len(),
        !have[index],
    ensures
        set_flags(have.update(index, true)) == set_flags(have) + 1,
    decreases have.len(),
{
    let rest = have.drop_last();
    if index == have.len() - 1 {
        assert(have.update(index, true).drop_last() =~= rest);
    } else {
        assert(have.update(index, true).drop_last() =~= rest.update(index, true));
        set_flags_after_set(rest, index);
    }
}

/// One message being put back together.
///
/// The pieces before the last share one buffer, indexed by position; the last,
/// whose length is whatever was left over, has its own.
pub struct Partial {
    message: u32,
    count: u16,
    stride: Option<usize>,
    body: Vec<u8>,
    tail: Vec<u8>,
    have: Vec<bool>,
    received: u16,
}

/// Positions of two different pieces of the same length never meet.
proof fn places_are_apart(stride: int, i: int, j: int)
    requires
        0 <= stride,
        0 <= i < j,
    ensures
        0 <= i * stride,
        i * stride + stride <= j * stride,
        (i + 1) * stride == i * stride + stride,
{
    assert(0 <= i * stride) by (nonlinear_arith)
        requires
            0 <= stride,
            0 <= i,
    ;
    assert(i * stride + stride <= j * stride) by (nonlinear_arith)
        requires
            0 <= stride,
            i + 1 <= j,
    ;
    assert((i + 1) * stride == i * stride + stride) by (nonlinear_arith);
}

impl Partial {
    /// The piece at a position, out of the buffers.
    spec fn stored(&self, i: int) -> Seq<u8> {
        if i + 1 == self.count {
            self.tail@
        } else {
            self.body@.subrange(i * self.stride->0, i * self.stride->0 + self.stride->0)
        }
    }

    /// The half-built message this stands for.
    pub closed spec fn view(&self) -> PartialState {
        PartialState {
            message: self.message,
            count: self.count as nat,
            stride: match self.stride {
                Some(stride) => Some(stride as nat),
                None => None,
            },
            pieces: Map::new(
                |i: int| 0 <= i < self.count && self.have@[i],
                |i: int| self.stored(i),
            ),
        }
    }

    /// What the buffers keep true of one another.
    pub closed spec fn wf(&self) -> bool {
        &&& 1 <= self.count
        &&& self.have@.len() == self.count
        &&& self.received == set_flags(self.have@)
        &&& match self.stride {
            Some(stride) => {
                &&& self.body@.len() == stride * (self.count - 1)
                &&& self.body@.len() <= MAX_MESSAGE_LEN
            },
            None => {
                &&& self.body@.len() == 0
                &&& forall|i: int| 0 <= i < self.count - 1 ==> !self.have@[i]
            },
        }
        &&& !self.have@[self.count - 1] ==> self.tail@.len() == 0
    }

    /// A message of `count` pieces, none of which has come.
    pub fn new(message: u32, count: u16) -> (partial: Self)
        requires
            count >= 1,
        ensures
            partial.wf(),
            partial@ == PartialState::fresh(message, count as nat),
    {
        let have: Vec<bool> = vec![false; count as usize];
        let partial = Partial {
            message,
            count,
            stride: None,
            body: Vec::new(),
            tail: Vec::new(),
            have,
            received: 0,
        };
        proof {
            assert(forall|i: int| 0 <= i < have@.len() ==> !have@[i]);
            set_flags_of_none(have@);
            assert(partial@.pieces =~= Map::<int, Seq<u8>>::empty());
        }
        partial
    }

    /// Bytes currently held, for the memory bound.
    pub fn held(&self) -> (held: usize)
        requires
            self.wf(),
        ensures
            held == if self@.held() <= usize::MAX {
                self@.held()
            } else {
                usize::MAX as nat
            },
    {
        proof {
            if self.have@[self.count - 1] {
                assert(self@.pieces.contains_key(self.count - 1));
            }
        }
        self.body.len().saturating_add(self.tail.len())
    }

    /// Once every piece is held, the two buffers end to end are the message.
    proof fn buffers_join(&self, n: nat)
        requires
            self.wf(),
            self@.complete(),
            n < self.count,
        ensures
            self.stride is Some ==> n * self.stride->0 <= self.body@.len() && join(self@.pieces, n)
                == self.body@.take((n * self.stride->0) as int),
            self.stride is None ==> n == 0 && join(self@.pieces, n) == Seq::<u8>::empty(),
        decreases n,
    {
        if n == 0 {
            assert(join(self@.pieces, n) =~= Seq::<u8>::empty());
            if self.stride is Some {
                let stride = self.stride->0 as int;
                assert(0 * stride == 0) by (nonlinear_arith);
                assert(self.body@.take(0) =~= Seq::<u8>::empty());
            }
        } else {
            let before = (n - 1) as nat;
            self.buffers_join(before);
            assert(self@.pieces.contains_key(before as int));
            assert(self.stride is Some);
            let stride = self.stride->0 as int;
            places_are_apart(stride, before as int, n as int);
            if n < self.count - 1 {
                places_are_apart(stride, n as int, self.count - 1);
            }
            assert(stride * (self.count - 1) == (self.count - 1) * stride) by (nonlinear_arith);
            assert(self@.pieces[before as int] == self.stored(before as int));
            assert(join(self@.pieces, n) =~= self.body@.take((n * stride) as int));
        }
    }

    /// What writing one piece into the buffers does to the message they stand for.
    proof fn one_more_piece(&self, start: Partial, fragment: Fragment, data: Seq<u8>)
        requires
            start.wf(),
            fragment.in_range(),
            start.count == fragment.count,
            !start.have@[fragment.index as int],
            self.message == start.message,
            self.count == start.count,
            self.have@ == start.have@.update(fragment.index as int, true),
            self.received == start.received + 1,
            if fragment.last() {
                &&& self.tail@ == data
                &&& self.body@ == start.body@
                &&& self.stride == start.stride
            } else {
                &&& self.tail@ == start.tail@
                &&& self.stride == Some(data.len() as usize)
                &&& data.len() <= usize::MAX
                &&& start.stride is Some ==> start.stride == self.stride
                &&& data.len() * (start.count - 1) <= MAX_MESSAGE_LEN
                &&& self.body@ == overlaid(
                    grown(start.body@, (data.len() * (start.count - 1)) as nat),
                    fragment.index * data.len(),
                    data,
                )
            },
        ensures
            self.wf(),
            self@ == start@.with_piece(fragment.index as int, data),
            self@.complete() == (self.received == self.count),
    {
        let index = fragment.index as int;
        let after = start@.with_piece(index, data);
        set_flags_after_set(start.have@, index);
        set_flags_at_most_all(self.have@);
        if !fragment.last() {
            let stride = data.len() as int;
            assert(stride * (self.count - 1) == (self.count - 1) * stride) by (nonlinear_arith);
            assert forall|i: int| 0 <= i < self.count - 1 && self.have@[i] implies self.stored(i)
                == after.pieces[i] by {
                places_are_apart(stride, i, self.count - 1);
                if i == index {
                    assert(self.stored(i) =~= data);
                } else {
                    if i < index {
                        places_are_apart(stride, i, index);
                    } else {
                        places_are_apart(stride, index, i);
                    }
                    assert(start.have@[i]);
                    assert(start@.pieces.contains_key(i));
                    assert(self.stored(i) =~= start.stored(i));
                }
            }
        }
        assert(self@.pieces =~= after.pieces);
        if self.received == self.count {
            assert forall|i: int| 0 <= i < self.count implies self@.pieces.contains_key(i) by {
                assert(self.have@[i]);
            }
        }
        if self@.complete() {
            assert forall|i: int| 0 <= i < self.have@.len() implies self.have@[i] by {
                assert(self@.pieces.contains_key(i));
            }
        }
    }

    /// Records one piece, returning the whole message once it is complete.
    ///
    /// A piece already held changes nothing. One that is refused, or that
    /// completes the message, leaves a value that is only fit to be dropped.
    pub fn insert(&mut self, fragment: Fragment, data: &[u8]) -> (outcome: Result<
        Option<Vec<u8>>,
        Error,
    >)
        requires
            old(self).wf(),
            fragment.in_range(),
            old(self)@.count == fragment.count,
        ensures
            ({
                let before = old(self)@;
                let index = fragment.index as int;
                let after = before.with_piece(index, data@);
                if before.pieces.contains_key(index) {
                    final(self).wf() && final(self)@ == before && outcome == Ok::<
                        Option<Vec<u8>>,
                        Error,
                    >(None)
                } else if let Some(e) = before.refusal(index, data@) {
                    outcome == Err::<Option<Vec<u8>>, Error>(Error::Protocol(e))
                } else if after.complete() {
                    outcome_view(outcome) == Ok::<Option<Seq<u8>>, Error>(
                        Some(join(after.pieces, after.count)),
                    )
                } else {
                    final(self).wf() && final(self)@ == after && outcome == Ok::<
                        Option<Vec<u8>>,
                        Error,
                    >(None)
                }
            }),
    {
        let index: usize = fragment.index as usize;
        let ghost before = self@;
        let ghost after = before.with_piece(index as int, data@);
        let ghost start = *self;
        proof {
            assert(before.pieces.contains_key(index as int) == self.have@[index as int]);
        }
        if self.have[index] {
            return Ok(None);
        }
        if fragment.is_last() {
            self.tail = copy_of(data);
        } else {
            let stride: usize = match self.stride {
                Some(stride) => stride,
                None => data.len(),
            };
            self.stride = Some(stride);
            if data.len() != stride {
                return Err(Error::Protocol(ProtocolError::BadHeader));
            }
            let end: usize = match stride.checked_mul(self.count as usize - 1) {
                Some(end) => end,
                None => {
                    return Err(Error::Protocol(ProtocolError::PayloadTooLarge));
                },
            };
            if end > MAX_MESSAGE_LEN {
                return Err(Error::Protocol(ProtocolError::PayloadTooLarge));
            }
            ensure(&mut self.body, end);
            proof {
                places_are_apart(stride as int, index as int, self.count - 1);
                assert(stride * (self.count - 1) == (self.count - 1) * stride) by (nonlinear_arith);
            }
            overlay(&mut self.body, index * stride, data);
        }
        proof {
            set_flags_after_set(start.have@, index as int);
            set_flags_at_most_all(start.have@.update(index as int, true));
        }
        self.have.set(index, true);
        self.received += 1;
        proof {
            self.one_more_piece(start, fragment, data@);
        }
        if self.received != self.count {
            return Ok(None);
        }
        proof {
            self.buffers_join((self.count - 1) as nat);
            assert(self@.pieces.contains_key(self.count - 1));
            if self.stride is Some {
                let stride = self.stride->0 as int;
                assert(stride * (self.count - 1) == (self.count - 1) * stride) by (nonlinear_arith);
            }
        }
        let mut whole: Vec<u8> = Vec::new();
        core::mem::swap(&mut whole, &mut self.body);
        whole.append(&mut self.tail);
        proof {
            assert(whole@ =~= join(after.pieces, after.count));
        }
        Ok(Some(whole))
    }
}

/// Half-built messages, bounded in number and in bytes.
pub struct Reassembly {
    partials: Vec<Partial>,
}

impl Reassembly {
    /// The half-built messages, oldest first.
    pub closed spec fn view(&self) -> Seq<PartialState> {
        self.partials@.map_values(|p: Partial| p@)
    }

    /// No message is held twice, no more are held than the bound allows, and
    /// none is larger than a message may be.
    pub closed spec fn wf(&self) -> bool {
        &&& forall|j: int| 0 <= j < self.partials@.len() ==> (#[trigger] self.partials@[j]).wf()
        &&& within_bounds(self@)
    }

    /// What can be relied on of the half-built messages.
    pub proof fn bounds(&self)
        requires
            self.wf(),
        ensures
            within_bounds(self@),
    {
    }

    /// Nothing half-built.
    pub fn new() -> (reassembly: Self)
        ensures
            reassembly.wf(),
            reassembly@ == Seq::<PartialState>::empty(),
    {
        let reassembly = Reassembly { partials: Vec::new() };
        proof {
            assert(reassembly@ =~= Seq::<PartialState>::empty());
        }
        reassembly
    }

    /// Where a message is held half-built, if it is.
    fn find(&self, message: u32) -> (slot: Option<usize>)
        requires
            self.wf(),
        ensures
            slot is Some == holds(self@, message),
            slot matches Some(j) ==> j < self.partials@.len() && j == slot_of(self@, message),
    {
        let mut j: usize = 0;
        while j < self.partials.len()
            invariant
                self.wf(),
                j <= self.partials@.len(),
                forall|k: int| 0 <= k < j ==> (#[trigger] self@[k]).message != message,
            decreases self.partials@.len() - j,
        {
            proof {
                assert(self@[j as int].message == self.partials@[j as int].message);
            }
            if self.partials[j].message == message {
                return Some(j);
            }
            j += 1;
        }
        None
    }

    /// Drops the half-built message at `slot`.
    fn drop_at(&mut self, slot: usize)
        requires
            slot < old(self).partials@.len(),
            forall|j: int|
                0 <= j < old(self).partials@.len() && j != slot ==> (#[trigger] old(
                    self,
                ).partials@[j]).wf(),
            within_bounds(old(self)@.remove(slot as int)),
        ensures
            final(self).wf(),
            final(self)@ == old(self)@.remove(slot as int),
    {
        let ghost before = self.partials@;
        let ghost seen = self@;
        let _ = self.partials.remove(slot);
        proof {
            assert(self@ =~= seen.remove(slot as int));
            assert forall|j: int| 0 <= j < self.partials@.len() implies (
            #[trigger] self.partials@[j]).wf() by {
                if j < slot {
                    assert(before[j].wf());
                } else {
                    assert(before[j + 1].wf());
                }
            }
        }
    }

    /// Folds one fragment in, returning the message once every piece has come.
    ///
    /// A contradiction with what has already come drops the message it is
    /// about and no other. Beginning one more message than may be held drops
    /// the oldest, so that a stalled one cannot block every later one.
    pub fn accept(&mut self, fragment: Fragment, data: &[u8]) -> (outcome: Result<
        Option<Vec<u8>>,
        Error,
    >)
        requires
            old(self).wf(),
            fragment.in_range(),
        ensures
            final(self).wf(),
            (final(self)@, outcome_view(outcome)) == accepted(old(self)@, fragment, data@),
    {
        let ghost start = self@;
        proof {
            self.bounds();
        }
        if fragment.count > MAX_FRAGMENTS {
            return Err(Error::Protocol(ProtocolError::BadHeader));
        }
        let slot: usize = match self.find(fragment.message) {
            Some(slot) => {
                proof {
                    assert(self@[slot as int].count == self.partials@[slot as int].count);
                    within_bounds_without(start, slot as int);
                }
                if self.partials[slot].count != fragment.count {
                    self.drop_at(slot);
                    return Err(Error::Protocol(ProtocolError::BadHeader));
                }
                slot
            },
            None => {
                if self.partials.len() >= MAX_REASSEMBLIES {
                    proof {
                        within_bounds_without(start, 0);
                    }
                    self.drop_at(0);
                }
                self.partials.push(Partial::new(fragment.message, fragment.count));
                proof {
                    assert(self@ =~= begun(start, fragment));
                    within_bounds_begun(start, fragment);
                }
                self.partials.len() - 1
            },
        };
        let ghost held = self@;
        let ghost before = self.partials@;
        proof {
            assert(held[slot as int] == before[slot as int]@);
            assert(self.wf());
            within_bounds_without(held, slot as int);
            assert((accepted(start, fragment, data@)) == folded(
                held,
                slot as int,
                fragment.index as int,
                data@,
            ));
        }
        let outcome = self.partials[slot].insert(fragment, data);
        proof {
            assert(self@ =~= held.update(slot as int, self.partials@[slot as int]@));
            assert(self@.remove(slot as int) =~= held.remove(slot as int));
        }
        match outcome {
            Ok(Some(whole)) => {
                self.drop_at(slot);
                Ok(Some(whole))
            },
            Ok(None) => {
                if self.partials[slot].held() > MAX_MESSAGE_LEN {
                    self.drop_at(slot);
                    return Err(Error::Protocol(ProtocolError::PayloadTooLarge));
                }
                proof {
                    assert(within_bounds(self@)) by {
                        assert forall|i: int, j: int|
                            0 <= i < self@.len() && 0 <= j < self@.len() && i
                                != j implies (#[trigger] self@[i]).message != (
                        #[trigger] self@[j]).message by {
                            assert(held[i].message != held[j].message);
                        }
                    }
                    if before[slot as int]@.pieces.contains_key(fragment.index as int) {
                        assert(self@ =~= held);
                    }
                }
                Ok(None)
            },
            Err(e) => {
                self.drop_at(slot);
                Err(e)
            },
        }
    }

    /// How many messages are held half-built.
    pub fn in_progress(&self) -> (count: usize)
        ensures
            count == self@.len(),
    {
        self.partials.len()
    }
}

/// A message that is held is held in one place.
proof fn held_in_one_place(held: Seq<PartialState>, slot: int)
    requires
        distinct(held),
        0 <= slot < held.len(),
    ensures
        holds(held, held[slot].message),
        slot_of(held, held[slot].message) == slot,
{
    let found = slot_of(held, held[slot].message);
    assert(held[slot].message == held[slot].message);
    assert(0 <= found < held.len() && held[found].message == held[slot].message);
}

/// A fragment touches only the message that it names: every other half-built
/// message stays as it was. The one exception is room: where four are held and a
/// fragment begins another, the oldest goes.
pub proof fn a_fragment_touches_only_its_own_message(
    held: Seq<PartialState>,
    fragment: Fragment,
    data: Seq<u8>,
    j: int,
)
    requires
        distinct(held),
        0 <= j < held.len(),
        held[j].message != fragment.message,
    ensures
        accepted(held, fragment, data).0.contains(held[j]) || (j == 0 && held.len() >= 4
            && fragment.count <= 4096 && !holds(held, fragment.message)),
{
    let now = accepted(held, fragment, data).0;
    if fragment.count > MAX_FRAGMENTS {
        assert(now[j] == held[j]);
    } else if holds(held, fragment.message) {
        let slot = slot_of(held, fragment.message);
        assert(0 <= slot < held.len() && held[slot].message == fragment.message);
        if now.len() == held.len() {
            assert(now[j] == held[j]);
        } else {
            let at = if j < slot {
                j
            } else {
                j - 1
            };
            assert(held.remove(slot)[at] == held[j]);
        }
    } else if !(j == 0 && held.len() >= 4) {
        let all = begun(held, fragment);
        let at = if held.len() >= 4 {
            j - 1
        } else {
            j
        };
        assert(all[at] == held[j]);
        if now.len() == all.len() {
            assert(now[at] == held[j]);
        } else {
            assert(all.remove(all.len() - 1)[at] == held[j]);
        }
    }
}

/// A fragment that has come before changes nothing and hands nothing over.
pub proof fn a_duplicate_fragment_changes_nothing(
    held: Seq<PartialState>,
    slot: int,
    fragment: Fragment,
    data: Seq<u8>,
)
    requires
        within_bounds(held),
        0 <= slot < held.len(),
        held[slot].message == fragment.message,
        held[slot].count == fragment.count,
        held[slot].pieces.contains_key(fragment.index as int),
    ensures
        accepted(held, fragment, data) == (held, Ok::<Option<Seq<u8>>, Error>(None)),
{
    held_in_one_place(held, slot);
}

/// What cannot be right is dropped rather than delivered. A fragment of more pieces
/// than a message may have is refused and changes nothing. One that names another
/// count than its message has, or is of another length than the pieces before it,
/// takes its message with it.
pub proof fn what_cannot_be_right_is_dropped(
    held: Seq<PartialState>,
    slot: int,
    fragment: Fragment,
    data: Seq<u8>,
)
    requires
        within_bounds(held),
        0 <= slot < held.len(),
    ensures
        fragment.count > 4096 ==> accepted(held, fragment, data) == (
            held,
            Err::<Option<Seq<u8>>, Error>(Error::Protocol(ProtocolError::BadHeader)),
        ),
        held[slot].message == fragment.message && fragment.count <= 4096 && (held[slot].count
            != fragment.count || (!held[slot].pieces.contains_key(fragment.index as int)
            && fragment.index + 1 != fragment.count && held[slot].stride is Some
            && held[slot].stride != Some(data.len()))) ==> accepted(held, fragment, data) == (
            held.remove(slot),
            Err::<Option<Seq<u8>>, Error>(Error::Protocol(ProtocolError::BadHeader)),
        ),
        held[slot].message == fragment.message && held[slot].count == fragment.count
            && !held[slot].pieces.contains_key(fragment.index as int) && fragment.index + 1
            != fragment.count && (held[slot].stride is Some ==> held[slot].stride == Some(
            data.len(),
        )) && data.len() * (fragment.count - 1) > 1_048_576 ==> accepted(held, fragment, data) == (
            held.remove(slot),
            Err::<Option<Seq<u8>>, Error>(Error::Protocol(ProtocolError::PayloadTooLarge)),
        ),
{
    held_in_one_place(held, slot);
}

/// A piece that fits its message is kept as it came, beside those that came before
/// it; and the message is handed over exactly when no piece of it is missing any
/// more: its pieces in order, end to end.
pub proof fn a_piece_that_fits_is_kept(
    held: Seq<PartialState>,
    slot: int,
    fragment: Fragment,
    data: Seq<u8>,
)
    requires
        within_bounds(held),
        0 <= slot < held.len(),
        held[slot].message == fragment.message,
        held[slot].count == fragment.count,
        fragment.index < fragment.count,
        !held[slot].pieces.contains_key(fragment.index as int),
        fragment.index + 1 == fragment.count || ((held[slot].stride is Some ==> held[slot].stride
            == Some(data.len())) && data.len() * (fragment.count - 1) <= 1_048_576),
    ensures
        ({
            let (now, outcome) = accepted(held, fragment, data);
            let pieces = held[slot].pieces.insert(fragment.index as int, data);
            let all_there = forall|i: int|
                0 <= i < fragment.count ==> #[trigger] pieces.contains_key(i);
            &&& all_there ==> now == held.remove(slot) && outcome == Ok::<
                Option<Seq<u8>>,
                Error,
            >(Some(join(pieces, fragment.count as nat)))
            &&& !all_there && outcome is Ok ==> {
                &&& outcome == Ok::<Option<Seq<u8>>, Error>(None)
                &&& now.len() == held.len()
                &&& now[slot].message == fragment.message
                &&& now[slot].count == fragment.count
                &&& now[slot].pieces == pieces
            }
            &&& outcome is Err ==> {
                let body_len = if fragment.index + 1 == fragment.count {
                    held[slot].body_len()
                } else {
                    (data.len() * (fragment.count - 1)) as nat
                };
                &&& !all_there
                &&& now == held.remove(slot)
                &&& body_len + (if pieces.contains_key(fragment.count - 1) {
                    pieces[fragment.count - 1].len()
                } else {
                    0
                }) > 1_048_576
            }
        }),
{
    held_in_one_place(held, slot);
    let after = held[slot].with_piece(fragment.index as int, data);
    assert(after.complete() == forall|i: int|
        0 <= i < fragment.count ==> #[trigger] after.pieces.contains_key(i));
}

/// The pieces of a message end to end: nothing for none, and each one more at the
/// end of those before it.
pub proof fn pieces_are_joined_in_order(pieces: Map<int, Seq<u8>>, n: nat)
    ensures
        join(pieces, 0) == Seq::<u8>::empty(),
        join(pieces, n + 1) == join(pieces, n) + pieces[n as int],
        join(pieces, n + 1).len() == join(pieces, n).len() + pieces[n as int].len(),
{
}

/// A fragment of a message that is not held begins it: alone where there is no other
/// piece, and then the message is handed over at once; and otherwise beside what is
/// held, as the newest, with that one piece come.
pub proof fn a_first_fragment_begins_its_message(
    held: Seq<PartialState>,
    fragment: Fragment,
    data: Seq<u8>,
)
    requires
        within_bounds(held),
        !holds(held, fragment.message),
        fragment.index < fragment.count <= 4096,
        data.len() * fragment.count <= 1_048_576,
    ensures
        ({
            let (now, outcome) = accepted(held, fragment, data);
            let kept = if held.len() >= 4 {
                held.skip(1)
            } else {
                held
            };
            &&& fragment.count == 1 ==> outcome == Ok::<Option<Seq<u8>>, Error>(Some(data)) && now
                == kept
            &&& fragment.count > 1 ==> {
                &&& outcome == Ok::<Option<Seq<u8>>, Error>(None)
                &&& now.len() == kept.len() + 1
                &&& now.drop_last() == kept
                &&& now.last().message == fragment.message
                &&& now.last().count == fragment.count
                &&& now.last().pieces == map![fragment.index as int => data]
            }
        }),
{
    let all = begun(held, fragment);
    let slot = all.len() - 1;
    let after = all[slot].with_piece(fragment.index as int, data);
    let kept = if held.len() >= 4 {
        held.skip(1)
    } else {
        held
    };
    assert(all.drop_last() =~= kept);
    assert(all.remove(slot) =~= kept);
    assert(data.len() * fragment.count == data.len() * (fragment.count - 1) + data.len())
        by (nonlinear_arith);
    assert(data.len() * (fragment.count - 1) >= 0) by (nonlinear_arith)
        requires
            fragment.count >= 1,
    ;
    assert(after.pieces =~= map![fragment.index as int => data]);
    if fragment.count == 1 {
        assert(after.complete());
        reveal_with_fuel(join, 2);
        assert(join(after.pieces, 1) =~= data);
    } else {
        let missing: int = if fragment.index == 0 {
            1
        } else {
            0
        };
        assert(!after.pieces.contains_key(missing));
        assert(all.update(slot, after).drop_last() =~= kept);
    }
}

} // verus!
