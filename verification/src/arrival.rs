//! What a receiver makes of several messages whose pieces arrive mixed
//! together, out of order and more than once.

use vstd::prelude::*;

use crate::error::Error;
use crate::fragment::{
    cutting_loses_nothing, divisible, laid_out, piece, piece_lengths, pieces_needed,
    pieces_needed_bounds, Fragment, MAX_FRAGMENTS, MAX_MESSAGE_LEN,
};
use crate::peer::Queued;
use crate::reassembly::{
    accepted, begun, distinct, folded, holds, join, slot_of, within_bounds, PartialState,
    MAX_REASSEMBLIES,
};

verus! {

/// A message as its sender cut it.
pub struct Cut {
    /// The identifier its pieces carry.
    pub message: u32,
    /// The whole of it.
    pub data: Seq<u8>,
    /// The length of every piece but the last.
    pub stride: nat,
}

impl Cut {
    /// How many pieces there are.
    pub open spec fn count(self) -> nat {
        pieces_needed(self.data.len(), self.stride)
    }

    /// The descriptor of one piece.
    pub open spec fn descriptor(self, index: int) -> Fragment {
        Fragment { message: self.message, index: index as u16, count: self.count() as u16 }
    }

    /// The bytes of one piece.
    pub open spec fn bytes(self, index: int) -> Seq<u8> {
        piece(self.data, self.stride, index)
    }

    /// Whether a set of positions is all of them.
    pub open spec fn covered(self, got: Set<int>) -> bool {
        forall|i: int| 0 <= i < self.count() ==> got.contains(i)
    }

    /// What a receiver holds of the message when it has the pieces at these positions.
    pub open spec fn held_as(self, got: Set<int>) -> PartialState {
        PartialState {
            message: self.message,
            count: self.count(),
            stride: if exists|i: int| #[trigger] got.contains(i) && i + 1 < self.count() {
                Some(self.stride)
            } else {
                None
            },
            pieces: Map::new(|i: int| got.contains(i), |i: int| self.bytes(i)),
        }
    }
}

/// Whether the messages were cut as a sender may, under identifiers of their own.
pub open spec fn well_cut(cuts: Seq<Cut>) -> bool {
    &&& forall|m: int|
        0 <= m < cuts.len() ==> divisible((#[trigger] cuts[m]).data.len(), cuts[m].stride)
    &&& forall|m: int, k: int|
        0 <= m < cuts.len() && 0 <= k < cuts.len() && m != k ==> (#[trigger] cuts[m]).message != (
        #[trigger] cuts[k]).message
}

/// One piece coming in: which message, and which position of it.
pub struct Arrival {
    /// Which of the messages.
    pub of: int,
    /// Which of its pieces.
    pub index: int,
}

/// Whether an arrival names a piece that exists.
pub open spec fn names_a_piece(cuts: Seq<Cut>, arrival: Arrival) -> bool {
    0 <= arrival.of < cuts.len() && 0 <= arrival.index < cuts[arrival.of].count()
}

/// What the receiver does with one arrival.
pub open spec fn on_arrival(held: Seq<PartialState>, cuts: Seq<Cut>, arrival: Arrival) -> (
    Seq<PartialState>,
    Result<Option<Seq<u8>>, Error>,
) {
    let cut = cuts[arrival.of];
    accepted(held, cut.descriptor(arrival.index), cut.bytes(arrival.index))
}

/// What the receiver holds after these arrivals, having begun with nothing.
pub open spec fn after_arrivals(cuts: Seq<Cut>, arrivals: Seq<Arrival>) -> Seq<PartialState>
    decreases arrivals.len(),
{
    if arrivals.len() == 0 {
        Seq::empty()
    } else {
        on_arrival(after_arrivals(cuts, arrivals.drop_last()), cuts, arrivals.last()).0
    }
}

/// The positions of each message that have come since it was last complete.
pub open spec fn gathered(cuts: Seq<Cut>, arrivals: Seq<Arrival>) -> Seq<Set<int>>
    decreases arrivals.len(),
{
    if arrivals.len() == 0 {
        Seq::new(cuts.len(), |m: int| Set::empty())
    } else {
        let before = gathered(cuts, arrivals.drop_last());
        let of = arrivals.last().of;
        let now = before[of].insert(arrivals.last().index);
        before.update(
            of,
            if cuts[of].covered(now) {
                Set::empty()
            } else {
                now
            },
        )
    }
}

/// How many messages have begun to come and are not complete.
pub open spec fn unfinished(got: Seq<Set<int>>) -> nat
    decreases got.len(),
{
    if got.len() == 0 {
        0
    } else {
        unfinished(got.drop_last()) + if got.last() == Set::<int>::empty() {
            0nat
        } else {
            1nat
        }
    }
}

/// Whether a receiver holds exactly the pieces gathered, and no others.
pub open spec fn tracks(held: Seq<PartialState>, cuts: Seq<Cut>, got: Seq<Set<int>>) -> bool {
    &&& got.len() == cuts.len()
    &&& distinct(held)
    &&& held.len() == unfinished(got)
    &&& forall|m: int|
        0 <= m < cuts.len() && #[trigger] got[m] != Set::<int>::empty() ==> holds(
            held,
            cuts[m].message,
        ) && held[slot_of(held, cuts[m].message)] == cuts[m].held_as(got[m])
    &&& forall|j: int|
        0 <= j < held.len() ==> exists|m: int|
            0 <= m < cuts.len() && #[trigger] got[m] != Set::<int>::empty() && cuts[m].message == (
            #[trigger] held[j]).message
    &&& forall|m: int, i: int|
        0 <= m < cuts.len() && #[trigger] got[m].contains(i) ==> 0 <= i < cuts[m].count()
    &&& forall|m: int| 0 <= m < cuts.len() ==> !cuts[m].covered(#[trigger] got[m])
}

proof fn unfinished_at_most_all(got: Seq<Set<int>>)
    ensures
        unfinished(got) <= got.len(),
        (exists|m: int| 0 <= m < got.len() && got[m] == Set::<int>::empty()) ==> unfinished(got)
            < got.len(),
    decreases got.len(),
{
    if got.len() > 0 {
        let rest = got.drop_last();
        unfinished_at_most_all(rest);
        if exists|m: int| 0 <= m < got.len() && got[m] == Set::<int>::empty() {
            let m = choose|m: int| 0 <= m < got.len() && got[m] == Set::<int>::empty();
            if m < rest.len() {
                assert(rest[m] == Set::<int>::empty());
            }
        }
    }
}

proof fn unfinished_after(got: Seq<Set<int>>, m: int, now: Set<int>)
    requires
        0 <= m < got.len(),
    ensures
        unfinished(got.update(m, now)) == unfinished(got) - (if got[m] == Set::<int>::empty() {
            0int
        } else {
            1
        }) + (if now == Set::<int>::empty() {
            0int
        } else {
            1
        }),
    decreases got.len(),
{
    let rest = got.drop_last();
    if m == got.len() - 1 {
        assert(got.update(m, now).drop_last() =~= rest);
    } else {
        assert(got.update(m, now).drop_last() =~= rest.update(m, now));
        unfinished_after(rest, m, now);
    }
}

proof fn unfinished_of_none(got: Seq<Set<int>>)
    requires
        forall|m: int| 0 <= m < got.len() ==> got[m] == Set::<int>::empty(),
    ensures
        unfinished(got) == 0,
    decreases got.len(),
{
    if got.len() > 0 {
        unfinished_of_none(got.drop_last());
    }
}

/// The pieces of a message, once all are held, join up to the message.
proof fn joined_pieces(cut: Cut, pieces: Map<int, Seq<u8>>, n: nat)
    requires
        n <= cut.count(),
        forall|i: int| 0 <= i < cut.count() ==> #[trigger] pieces[i] == cut.bytes(i),
    ensures
        join(pieces, n) == laid_out(cut.data, cut.stride, n),
    decreases n,
{
    if n > 0 {
        joined_pieces(cut, pieces, (n - 1) as nat);
        assert(pieces[n - 1] == cut.bytes(n - 1));
    }
}

/// What the receiver makes of a piece of a well-cut message, when all it holds
/// of that message is other pieces of it.
proof fn piece_placed(held: Seq<PartialState>, slot: int, cut: Cut, got: Set<int>, index: int)
    requires
        divisible(cut.data.len(), cut.stride),
        0 <= slot < held.len(),
        held[slot] == cut.held_as(got),
        forall|i: int| got.contains(i) ==> 0 <= i < cut.count(),
        !cut.covered(got),
        0 <= index < cut.count(),
    ensures
        folded(held, slot, index, cut.bytes(index)) == (if cut.covered(got.insert(index)) {
            (held.remove(slot), Ok::<Option<Seq<u8>>, Error>(Some(cut.data)))
        } else {
            (held.update(slot, cut.held_as(got.insert(index))), Ok(None))
        }),
{
    let now = got.insert(index);
    let before = held[slot];
    let data = cut.bytes(index);
    let after = before.with_piece(index, data);
    let n = cut.count();
    piece_lengths(cut.data, cut.stride, index);
    pieces_needed_bounds(cut.data.len(), cut.stride);
    if got.contains(index) {
        assert(now =~= got);
        assert(held.update(slot, held[slot]) =~= held);
    } else {
        assert(cut.stride * (n - 1) == (n - 1) * cut.stride) by (nonlinear_arith);
        assert(before.refusal(index, data) is None);
        assert(after.pieces =~= cut.held_as(now).pieces);
        if index + 1 < n {
            assert(now.contains(index));
        } else if exists|i: int| #[trigger] got.contains(i) && i + 1 < n {
            let i = choose|i: int| #[trigger] got.contains(i) && i + 1 < n;
            assert(now.contains(i));
        } else {
            assert(!exists|i: int| #[trigger] now.contains(i) && i + 1 < n);
        }
        assert(after == cut.held_as(now));
        if cut.covered(now) {
            assert forall|i: int| 0 <= i < after.count implies after.pieces.contains_key(i) by {
                assert(now.contains(i));
            }
            joined_pieces(cut, after.pieces, n);
            cutting_loses_nothing(cut.data, cut.stride);
        } else {
            let missing = choose|i: int| 0 <= i < n && !now.contains(i);
            assert(!after.pieces.contains_key(missing));
            assert(!after.complete());
            if after.pieces.contains_key(n - 1) {
                piece_lengths(cut.data, cut.stride, n - 1);
            }
            assert(after.held() <= cut.data.len());
        }
    }
}

/// One arrival, whatever else is being gathered: the message is handed over
/// whole exactly when this was the last piece missing, and the pieces of every
/// other message stay as they were.
pub proof fn one_arrival(
    held: Seq<PartialState>,
    cuts: Seq<Cut>,
    got: Seq<Set<int>>,
    arrival: Arrival,
)
    requires
        well_cut(cuts),
        cuts.len() <= MAX_REASSEMBLIES,
        tracks(held, cuts, got),
        names_a_piece(cuts, arrival),
    ensures
        ({
            let cut = cuts[arrival.of];
            let now = got[arrival.of].insert(arrival.index);
            let (after, outcome) = on_arrival(held, cuts, arrival);
            if cut.covered(now) {
                &&& outcome == Ok::<Option<Seq<u8>>, Error>(Some(cut.data))
                &&& tracks(after, cuts, got.update(arrival.of, Set::empty()))
            } else {
                &&& outcome == Ok::<Option<Seq<u8>>, Error>(None)
                &&& tracks(after, cuts, got.update(arrival.of, now))
            }
        }),
{
    let m = arrival.of;
    let index = arrival.index;
    let cut = cuts[m];
    let f = cut.descriptor(index);
    let data = cut.bytes(index);
    let now = got[m].insert(index);
    assert(f.count == cut.count());
    assert(f.index == index);
    let begun_here = !holds(held, cut.message);
    if begun_here {
        assert(got[m] == Set::<int>::empty());
        unfinished_at_most_all(got);
    } else if got[m] == Set::<int>::empty() {
        let j = slot_of(held, cut.message);
        let k = choose|k: int|
            0 <= k < cuts.len() && #[trigger] got[k] != Set::<int>::empty() && cuts[k].message
                == held[j].message;
        assert(k == m);
    }
    let base = if begun_here {
        begun(held, f)
    } else {
        held
    };
    let slot = if begun_here {
        held.len() as int
    } else {
        slot_of(held, cut.message)
    };
    if begun_here {
        assert(base =~= held.push(PartialState::fresh(f.message, f.count as nat)));
        assert(Map::<int, Seq<u8>>::empty() =~= cut.held_as(Set::empty()).pieces);
    }
    assert(base[slot] == cut.held_as(got[m]));
    assert(distinct(base)) by {
        if begun_here {
            assert forall|i: int| 0 <= i < held.len() implies (#[trigger] held[i]).message
                != cut.message by {}
        }
    }
    piece_placed(base, slot, cut, got[m], index);
    let (after, outcome) = on_arrival(held, cuts, arrival);
    assert(on_arrival(held, cuts, arrival) == folded(base, slot, index, data));
    let got_after = got.update(
        m,
        if cut.covered(now) {
            Set::empty()
        } else {
            now
        },
    );
    assert(now.contains(index));
    unfinished_after(got, m, got_after[m]);
    if !cut.covered(now) {
        assert(now != Set::<int>::empty());
    }
    // Where every held message stands afterwards.
    assert forall|j: int| 0 <= j < after.len() implies exists|k: int|
        0 <= k < cuts.len() && #[trigger] got_after[k] != Set::<int>::empty() && cuts[k].message
            == (#[trigger] after[j]).message by {
        let from = if cut.covered(now) && j >= slot {
            j + 1
        } else {
            j
        };
        if from == slot {
            assert(got_after[m] == now);
        } else {
            assert(after[j] == base[from]);
            assert(base[from] == held[from]);
            let k = choose|k: int|
                0 <= k < cuts.len() && #[trigger] got[k] != Set::<int>::empty() && cuts[k].message
                    == held[from].message;
            assert(base[from].message != base[slot].message);
            assert(got_after[k] == got[k]);
        }
    }
    assert(distinct(after)) by {
        assert forall|i: int, j: int|
            0 <= i < after.len() && 0 <= j < after.len() && i != j implies (
        #[trigger] after[i]).message != (#[trigger] after[j]).message by {
            let fi = if cut.covered(now) && i >= slot {
                i + 1
            } else {
                i
            };
            let fj = if cut.covered(now) && j >= slot {
                j + 1
            } else {
                j
            };
            assert(base[fi].message != base[fj].message);
        }
    }
    assert forall|k: int|
        0 <= k < cuts.len() && #[trigger] got_after[k] != Set::<int>::empty() implies holds(
        after,
        cuts[k].message,
    ) && after[slot_of(after, cuts[k].message)] == cuts[k].held_as(got_after[k]) by {
        if k == m {
            assert(after[slot].message == cut.message);
            assert(holds(after, cut.message));
            assert(slot_of(after, cut.message) == slot);
        } else {
            assert(got_after[k] == got[k]);
            let from = slot_of(held, cuts[k].message);
            assert(held[from].message == cuts[k].message);
            assert(from != slot);
            let j = if cut.covered(now) && from > slot {
                from - 1
            } else {
                from
            };
            assert(after[j] == held[from]);
            assert(holds(after, cuts[k].message));
            assert(slot_of(after, cuts[k].message) == j);
        }
    }
    assert forall|k: int, i: int|
        0 <= k < cuts.len() && #[trigger] got_after[k].contains(i) implies 0 <= i
        < cuts[k].count() by {
        if k != m {
            assert(got[k].contains(i));
        } else if i != index {
            assert(got[m].contains(i));
        }
    }
    assert forall|k: int| 0 <= k < cuts.len() implies !cuts[k].covered(#[trigger] got_after[k]) by {
        if k != m {
            assert(!cuts[k].covered(got[k]));
        } else if cut.covered(now) {
            pieces_needed_bounds(cut.data.len(), cut.stride);
            assert(!Set::<int>::empty().contains(0));
        }
    }
}

/// Several messages, their pieces interleaved, reordered and repeated at will:
/// after any arrivals, the receiver holds what has been gathered of each
/// message and nothing else.
pub proof fn interleaved_messages_do_not_mix(cuts: Seq<Cut>, arrivals: Seq<Arrival>)
    requires
        well_cut(cuts),
        cuts.len() <= MAX_REASSEMBLIES,
        forall|k: int| 0 <= k < arrivals.len() ==> names_a_piece(cuts, #[trigger] arrivals[k]),
    ensures
        tracks(after_arrivals(cuts, arrivals), cuts, gathered(cuts, arrivals)),
    decreases arrivals.len(),
{
    if arrivals.len() == 0 {
        let got = gathered(cuts, arrivals);
        unfinished_of_none(got);
        assert forall|m: int| 0 <= m < cuts.len() implies !cuts[m].covered(#[trigger] got[m]) by {
            pieces_needed_bounds(cuts[m].data.len(), cuts[m].stride);
            assert(!got[m].contains(0));
        }
    } else {
        let before = arrivals.drop_last();
        assert forall|k: int| 0 <= k < before.len() implies names_a_piece(
            cuts,
            #[trigger] before[k],
        ) by {
            assert(before[k] == arrivals[k]);
        }
        interleaved_messages_do_not_mix(cuts, before);
        one_arrival(
            after_arrivals(cuts, before),
            cuts,
            gathered(cuts, before),
            arrivals.last(),
        );
    }
}

/// An arrival hands over its message, byte for byte as it was cut, exactly when
/// it brings the last piece that was missing; otherwise it hands over nothing.
pub proof fn a_message_is_handed_over_when_its_last_piece_comes(
    cuts: Seq<Cut>,
    arrivals: Seq<Arrival>,
    next: Arrival,
)
    requires
        well_cut(cuts),
        cuts.len() <= MAX_REASSEMBLIES,
        forall|k: int| 0 <= k < arrivals.len() ==> names_a_piece(cuts, #[trigger] arrivals[k]),
        names_a_piece(cuts, next),
    ensures
        on_arrival(after_arrivals(cuts, arrivals), cuts, next).1 == (if cuts[next.of].covered(
            gathered(cuts, arrivals)[next.of].insert(next.index),
        ) {
            Ok::<Option<Seq<u8>>, Error>(Some(cuts[next.of].data))
        } else {
            Ok(None)
        }),
{
    interleaved_messages_do_not_mix(cuts, arrivals);
    one_arrival(after_arrivals(cuts, arrivals), cuts, gathered(cuts, arrivals), next);
}

/// The positions as arrivals of one message.
pub open spec fn arrivals_of_one(order: Seq<int>) -> Seq<Arrival> {
    order.map_values(|index: int| Arrival { of: 0, index })
}

proof fn gathered_so_far(cut: Cut, order: Seq<int>, k: nat)
    requires
        divisible(cut.data.len(), cut.stride),
        k < order.len(),
        forall|j: int| 0 <= j < order.len() ==> 0 <= #[trigger] order[j] < cut.count(),
        forall|j: int| 0 <= j < order.len() - 1 ==> order[j] != order.last(),
    ensures
        gathered(seq![cut], arrivals_of_one(order.take(k as int))) =~= seq![
            order.take(k as int).to_set(),
        ],
        !cut.covered(order.take(k as int).to_set()),
    decreases k,
{
    let so_far = order.take(k as int);
    assert(!so_far.to_set().contains(order.last())) by {
        assert forall|j: int| 0 <= j < so_far.len() implies so_far[j] != order.last() by {
            assert(so_far[j] == order[j]);
        }
    }
    assert(0 <= order[order.len() - 1] < cut.count());
    if k == 0 {
        assert(so_far =~= Seq::<int>::empty());
        assert(so_far.to_set() =~= Set::<int>::empty());
    } else {
        let before = order.take(k - 1);
        gathered_so_far(cut, order, (k - 1) as nat);
        assert(so_far.drop_last() =~= before);
        assert(arrivals_of_one(so_far).drop_last() =~= arrivals_of_one(before));
        assert(before.to_set().insert(order[k - 1]) =~= so_far.to_set()) by {
            assert forall|i: int| so_far.to_set().contains(i) implies before.to_set().insert(
                order[k - 1],
            ).contains(i) by {
                let j = choose|j: int| 0 <= j < so_far.len() && so_far[j] == i;
                if j < k - 1 {
                    assert(before[j] == i);
                }
            }
            assert forall|i: int| before.to_set().insert(order[k - 1]).contains(
                i,
            ) implies so_far.to_set().contains(i) by {
                if i == order[k - 1] {
                    assert(so_far[k - 1] == i);
                } else {
                    let j = choose|j: int| 0 <= j < before.len() && before[j] == i;
                    assert(so_far[j] == i);
                }
            }
        }
    }
}

/// A message survives any order and any duplication of its pieces. As long as
/// some piece is still to come nothing is handed over; when it comes, the
/// message is, once and whole, and nothing is left half-built.
pub proof fn a_message_survives_any_order_and_any_duplication(cut: Cut, order: Seq<int>, k: nat)
    requires
        divisible(cut.data.len(), cut.stride),
        order.len() > 0,
        forall|j: int| 0 <= j < order.len() ==> 0 <= #[trigger] order[j] < cut.count(),
        forall|i: int| 0 <= i < cut.count() ==> order.contains(i),
        forall|j: int| 0 <= j < order.len() - 1 ==> order[j] != order.last(),
        k < order.len(),
    ensures
        on_arrival(
            after_arrivals(seq![cut], arrivals_of_one(order.take(k as int))),
            seq![cut],
            Arrival { of: 0, index: order[k as int] },
        ).1 == (if k + 1 == order.len() {
            Ok::<Option<Seq<u8>>, Error>(Some(cut.data))
        } else {
            Ok(None)
        }),
        after_arrivals(seq![cut], arrivals_of_one(order)) == Seq::<PartialState>::empty(),
{
    let cuts = seq![cut];
    let arrivals = arrivals_of_one(order.take(k as int));
    let next = Arrival { of: 0, index: order[k as int] };
    assert forall|j: int| 0 <= j < arrivals.len() implies names_a_piece(
        cuts,
        #[trigger] arrivals[j],
    ) by {
        assert(arrivals[j].index == order[j]);
    }
    gathered_so_far(cut, order, k);
    a_message_is_handed_over_when_its_last_piece_comes(cuts, arrivals, next);
    let now = order.take(k as int).to_set().insert(order[k as int]);
    if k + 1 == order.len() {
        all_positions_seen(cut, order);
    } else {
        assert(!now.contains(order.last())) by {
            assert forall|j: int| 0 <= j < k implies order.take(k as int)[j] != order.last() by {
                assert(order.take(k as int)[j] == order[j]);
            }
        }
        assert(0 <= order[order.len() - 1] < cut.count());
    }
    nothing_left_half_built(cut, order);
}

proof fn all_positions_seen(cut: Cut, order: Seq<int>)
    requires
        order.len() > 0,
        forall|i: int| 0 <= i < cut.count() ==> order.contains(i),
    ensures
        cut.covered(order.drop_last().to_set().insert(order.last())),
        order.drop_last() == order.take(order.len() - 1),
{
    assert(order.drop_last() =~= order.take(order.len() - 1));
    let now = order.drop_last().to_set().insert(order.last());
    assert forall|i: int| 0 <= i < cut.count() implies now.contains(i) by {
        assert(order.contains(i));
        let j = choose|j: int| 0 <= j < order.len() && order[j] == i;
        if j < order.len() - 1 {
            assert(order.drop_last()[j] == i);
        }
    }
}

proof fn nothing_left_half_built(cut: Cut, order: Seq<int>)
    requires
        divisible(cut.data.len(), cut.stride),
        order.len() > 0,
        forall|j: int| 0 <= j < order.len() ==> 0 <= #[trigger] order[j] < cut.count(),
        forall|i: int| 0 <= i < cut.count() ==> order.contains(i),
        forall|j: int| 0 <= j < order.len() - 1 ==> order[j] != order.last(),
    ensures
        after_arrivals(seq![cut], arrivals_of_one(order)) == Seq::<PartialState>::empty(),
{
    let cuts = seq![cut];
    let arrivals = arrivals_of_one(order);
    assert forall|j: int| 0 <= j < arrivals.len() implies names_a_piece(
        cuts,
        #[trigger] arrivals[j],
    ) by {
        assert(arrivals[j].index == order[j]);
    }
    interleaved_messages_do_not_mix(cuts, arrivals);
    all_positions_seen(cut, order);
    gathered_so_far(cut, order, (order.len() - 1) as nat);
    assert(arrivals.drop_last() =~= arrivals_of_one(order.drop_last()));
    assert(gathered(cuts, arrivals) =~= seq![Set::<int>::empty()]);
    unfinished_of_none(gathered(cuts, arrivals));
    assert(after_arrivals(cuts, arrivals) =~= Seq::<PartialState>::empty());
}

/// Where an entry stood before the one at `slot` was taken out.
spec fn before_removal(slot: int, j: int) -> int {
    if j < slot {
        j
    } else {
        j + 1
    }
}

/// Whether every message but one that is held afterwards was held before, as it
/// is now, and whether the only other one that can have gone is `displaced`.
pub open spec fn others_kept(
    before: Seq<PartialState>,
    after: Seq<PartialState>,
    but: u32,
    displaced: Option<u32>,
) -> bool {
    &&& forall|m: u32|
        m != but && #[trigger] holds(after, m) ==> holds(before, m) && after[slot_of(after, m)]
            == before[slot_of(before, m)]
    &&& forall|m: u32|
        m != but && displaced != Some(m) && #[trigger] holds(before, m) ==> holds(after, m)
}

proof fn others_kept_by_position(
    before: Seq<PartialState>,
    after: Seq<PartialState>,
    but: u32,
    displaced: Option<u32>,
)
    requires
        distinct(before),
        distinct(after),
        forall|j: int|
            0 <= j < after.len() && (#[trigger] after[j]).message != but ==> exists|k: int|
                0 <= k < before.len() && #[trigger] before[k] == after[j],
        forall|k: int|
            0 <= k < before.len() && (#[trigger] before[k]).message != but && displaced != Some(
                before[k].message,
            ) ==> exists|j: int| 0 <= j < after.len() && before[k] == #[trigger] after[j],
    ensures
        others_kept(before, after, but, displaced),
{
    assert forall|m: u32| m != but && #[trigger] holds(after, m) implies holds(before, m)
        && after[slot_of(after, m)] == before[slot_of(before, m)] by {
        let j = slot_of(after, m);
        let k = choose|k: int| 0 <= k < before.len() && #[trigger] before[k] == after[j];
        assert(before[k].message == m);
        assert(slot_of(before, m) == k);
    }
    assert forall|m: u32|
        m != but && displaced != Some(m) && #[trigger] holds(before, m) implies holds(after, m) by {
        let k = slot_of(before, m);
        assert(before[k].message == m);
        let j = choose|j: int| 0 <= j < after.len() && before[k] == #[trigger] after[j];
        assert(after[j].message == m);
    }
}

/// A fragment may cost a half-built message its place only by beginning one
/// more than may be held, and then the oldest goes. Every other message it does
/// not belong to stays exactly as it was: lost at worst, never corrupted.
pub proof fn exceeding_the_bound_drops_rather_than_corrupts(
    held: Seq<PartialState>,
    fragment: Fragment,
    data: Seq<u8>,
)
    requires
        within_bounds(held),
        fragment.in_range(),
    ensures
        within_bounds(accepted(held, fragment, data).0),
        others_kept(
            held,
            accepted(held, fragment, data).0,
            fragment.message,
            if held.len() == MAX_REASSEMBLIES && fragment.count <= MAX_FRAGMENTS && !holds(
                held,
                fragment.message,
            ) {
                Some(held[0].message)
            } else {
                None
            },
        ),
{
    let after = accepted(held, fragment, data).0;
    let fresh = !holds(held, fragment.message);
    let displaced = if held.len() == MAX_REASSEMBLIES && fragment.count <= MAX_FRAGMENTS && fresh {
        Some(held[0].message)
    } else {
        None
    };
    if fragment.count <= MAX_FRAGMENTS {
        let base = if fresh {
            begun(held, fragment)
        } else {
            held
        };
        let slot = if fresh {
            base.len() - 1
        } else {
            slot_of(held, fragment.message)
        };
        let shift = if displaced is Some {
            1int
        } else {
            0
        };
        // The base holds what was held, moved down by one where the oldest went.
        assert forall|j: int| 0 <= j < base.len() && j != slot implies #[trigger] base[j] == held[j
            + shift] by {}
        assert(base[slot].message == fragment.message);
        assert(distinct(base)) by {
            assert forall|i: int| 0 <= i < base.len() && i != slot implies (
            #[trigger] base[i]).message != fragment.message by {
                if fresh {
                    assert(held[i + shift].message != fragment.message);
                }
            }
        }
        let whole = after.len() == base.len();
        assert(after == base.remove(slot) || (whole && after == base.update(slot, after[slot])
            && after[slot].message == fragment.message)) by {
            assert(base.update(slot, base[slot]) =~= base);
        }
        assert forall|j: int| 0 <= j < after.len() implies (#[trigger] after[j]) == (if whole {
            if j == slot {
                after[slot]
            } else {
                base[j]
            }
        } else {
            base[before_removal(slot, j)]
        }) by {}
        assert(distinct(after)) by {
            assert forall|i: int, j: int|
                0 <= i < after.len() && 0 <= j < after.len() && i != j implies (
            #[trigger] after[i]).message != (#[trigger] after[j]).message by {
                if whole {
                    assert(base[i].message != base[j].message);
                } else {
                    assert(base[before_removal(slot, i)].message != base[before_removal(
                        slot,
                        j,
                    )].message);
                }
            }
        }
        assert forall|j: int|
            0 <= j < after.len() && (#[trigger] after[j]).message
                != fragment.message implies exists|k: int|
            0 <= k < held.len() && #[trigger] held[k] == after[j] by {
            let i = if whole {
                j
            } else {
                before_removal(slot, j)
            };
            assert(held[i + shift] == after[j]);
        }
        assert forall|k: int|
            0 <= k < held.len() && (#[trigger] held[k]).message != fragment.message && displaced
                != Some(held[k].message) implies exists|j: int|
            0 <= j < after.len() && held[k] == #[trigger] after[j] by {
            let i = k - shift;
            assert(0 <= i);
            assert(base[i] == held[k]);
            let j = if whole {
                i
            } else if i < slot {
                i
            } else {
                i - 1
            };
            assert(after[j] == held[k]);
        }
        assert(within_bounds(after)) by {
            assert forall|j: int| 0 <= j < after.len() implies (#[trigger] after[j]).held()
                <= MAX_MESSAGE_LEN && 1 <= after[j].count <= MAX_FRAGMENTS by {
                let i = if whole {
                    j
                } else {
                    before_removal(slot, j)
                };
                if i != slot {
                    assert(held[i + shift].held() <= MAX_MESSAGE_LEN);
                    assert(1 <= held[i + shift].count <= MAX_FRAGMENTS);
                } else if !fresh {
                    assert(held[slot].held() <= MAX_MESSAGE_LEN);
                    assert(1 <= held[slot].count <= MAX_FRAGMENTS);
                } else {
                    assert(base[slot].pieces.contains_key(fragment.index as int) == false);
                }
            }
        }
    } else {
        assert(after == held);
    }
    others_kept_by_position(held, after, fragment.message, displaced);
}

/// A queued message as its fragments cut it.
pub open spec fn cut_of(job: Queued) -> Cut {
    Cut { message: job.message, data: job.data@, stride: job.per_fragment as nat }
}

/// What a sender feeds out of its queue is what a receiver puts back together:
/// every fragment carries the descriptor and the bytes that the receiver
/// expects, so the message survives any order and any duplication of them.
pub proof fn a_queued_message_arrives_whole(job: Queued, order: Seq<int>, k: nat)
    requires
        job.wf(),
        order.len() > 0,
        forall|j: int| 0 <= j < order.len() ==> 0 <= #[trigger] order[j] < job.count,
        forall|i: int| 0 <= i < job.count ==> order.contains(i),
        forall|j: int| 0 <= j < order.len() - 1 ==> order[j] != order.last(),
        k < order.len(),
    ensures
        forall|index: u16|
            index < job.count ==> #[trigger] job.descriptor(index) == cut_of(job).descriptor(
                index as int,
            ) && piece(job.data@, job.per_fragment as nat, index as int) == cut_of(job).bytes(
                index as int,
            ),
        on_arrival(
            after_arrivals(seq![cut_of(job)], arrivals_of_one(order.take(k as int))),
            seq![cut_of(job)],
            Arrival { of: 0, index: order[k as int] },
        ).1 == (if k + 1 == order.len() {
            Ok::<Option<Seq<u8>>, Error>(Some(job.data@))
        } else {
            Ok(None)
        }),
{
    a_message_survives_any_order_and_any_duplication(cut_of(job), order, k);
}

} // verus!
