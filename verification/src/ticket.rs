//! The resumption tickets that a responder will honour: single use, bounded in
//! number and in time.

use vstd::prelude::*;

use crate::buffer::same;
use crate::clock::elapsed;
use crate::link::PublicKey;

verus! {

/// How many tickets are remembered. Beyond that the oldest is forgotten, which
/// costs its holder a full handshake and nothing else.
pub const MAX_TICKETS: usize = 256;

/// How long a ticket stays redeemable unless told otherwise: one hour, in
/// nanoseconds.
pub const TICKET_LIFETIME: u64 = 3_600_000_000_000;

/// What lets a later connection skip most of the handshake.
pub struct Ticket {
    /// What the ticket is asked for by.
    pub id: Vec<u8>,
    /// The secret that redeeming it proves knowledge of.
    pub key: [u8; 32],
}

/// A ticket as it was issued.
pub struct Issued {
    /// The ticket.
    pub ticket: Ticket,
    /// Whom it was issued to.
    pub peer: PublicKey,
    /// When, in nanoseconds.
    pub at: u64,
}

/// A ticket as it was issued, leaving aside where its bytes are kept.
pub struct IssuedState {
    /// What it is asked for by.
    pub id: Seq<u8>,
    /// Its secret.
    pub key: [u8; 32],
    /// Whom it was issued to.
    pub peer: PublicKey,
    /// When.
    pub at: u64,
}

impl Issued {
    /// The issued ticket this is.
    pub open spec fn view(&self) -> IssuedState {
        IssuedState { id: self.ticket.id@, key: self.ticket.key, peer: self.peer, at: self.at }
    }
}

/// Whether a ticket is held.
pub open spec fn is_held(held: Seq<IssuedState>, id: Seq<u8>) -> bool {
    exists|k: int| 0 <= k < held.len() && (#[trigger] held[k]).id == id
}

/// Where it is held.
pub open spec fn place_of(held: Seq<IssuedState>, id: Seq<u8>) -> int {
    choose|k: int| 0 <= k < held.len() && (#[trigger] held[k]).id == id
}

/// No ticket is held twice, and no more are held than may be.
pub open spec fn orderly(held: Seq<IssuedState>) -> bool {
    &&& held.len() <= MAX_TICKETS
    &&& forall|i: int, j: int|
        0 <= i < held.len() && 0 <= j < held.len() && i != j ==> (#[trigger] held[i]).id != (
        #[trigger] held[j]).id
}

/// The tickets held once one more is issued: in its own place if it is held
/// already, else last, with the oldest forgotten where there are too many.
pub open spec fn with_issued(held: Seq<IssuedState>, new: IssuedState) -> Seq<IssuedState> {
    if is_held(held, new.id) {
        held.update(place_of(held, new.id), new)
    } else if held.len() >= MAX_TICKETS {
        held.remove(0).push(new)
    } else {
        held.push(new)
    }
}

/// Whether a ticket is still redeemable.
pub open spec fn redeemable(issued: IssuedState, lifetime: u64, now: u64) -> bool {
    elapsed(issued.at, now) < lifetime
}

/// The tickets held once one has been asked for: it is gone, redeemed or not.
pub open spec fn with_taken(held: Seq<IssuedState>, id: Seq<u8>) -> Seq<IssuedState> {
    if is_held(held, id) {
        held.remove(place_of(held, id))
    } else {
        held
    }
}

/// Whether asking for a ticket redeems it.
pub open spec fn redeems(held: Seq<IssuedState>, id: Seq<u8>, lifetime: u64, now: u64) -> bool {
    is_held(held, id) && redeemable(held[place_of(held, id)], lifetime, now)
}

/// Resumption tickets that will be honoured.
pub struct TicketStore {
    tickets: Vec<Issued>,
    lifetime: u64,
}

impl TicketStore {
    /// The tickets held, oldest first.
    pub closed spec fn view(&self) -> Seq<IssuedState> {
        self.tickets@.map_values(|t: Issued| t@)
    }

    /// How long a ticket stays redeemable, in nanoseconds.
    pub closed spec fn lifetime(&self) -> u64 {
        self.lifetime
    }

    /// No ticket is held twice, and no more are held than may be.
    pub open spec fn wf(&self) -> bool {
        orderly(self@)
    }

    /// No tickets, to be honoured for the usual time.
    pub fn new() -> (store: Self)
        ensures
            store.wf(),
            store@ == Seq::<IssuedState>::empty(),
            store.lifetime() == TICKET_LIFETIME,
    {
        let store = TicketStore { tickets: Vec::new(), lifetime: TICKET_LIFETIME };
        proof {
            assert(store@ =~= Seq::<IssuedState>::empty());
        }
        store
    }

    /// Sets how long a ticket stays redeemable.
    pub fn set_lifetime(&mut self, lifetime: u64)
        ensures
            final(self)@ == old(self)@,
            final(self).lifetime() == lifetime,
    {
        self.lifetime = lifetime;
    }

    fn find(&self, id: &[u8]) -> (place: Option<usize>)
        requires
            self.wf(),
        ensures
            place is Some == is_held(self@, id@),
            place matches Some(k) ==> k < self.tickets@.len() && k == place_of(self@, id@),
    {
        let mut k: usize = 0;
        while k < self.tickets.len()
            invariant
                self.wf(),
                k <= self.tickets@.len(),
                forall|j: int| 0 <= j < k ==> (#[trigger] self@[j]).id != id@,
            decreases self.tickets@.len() - k,
        {
            proof {
                assert(self@[k as int].id == self.tickets@[k as int].ticket.id@);
            }
            if same(self.tickets[k].ticket.id.as_slice(), id) {
                return Some(k);
            }
            k += 1;
        }
        None
    }

    /// Remembers a ticket issued to `peer`.
    pub fn insert(&mut self, ticket: Ticket, peer: PublicKey, now: u64)
        requires
            old(self).wf(),
        ensures
            final(self).wf(),
            final(self)@ == with_issued(
                old(self)@,
                IssuedState { id: ticket.id@, key: ticket.key, peer, at: now },
            ),
            final(self).lifetime() == old(self).lifetime(),
    {
        let ghost before = self@;
        let ghost new = IssuedState { id: ticket.id@, key: ticket.key, peer, at: now };
        let place = self.find(ticket.id.as_slice());
        let issued = Issued { ticket, peer, at: now };
        match place {
            Some(k) => {
                self.tickets.set(k, issued);
                proof {
                    assert(self@ =~= before.update(k as int, new));
                }
            },
            None => {
                proof {
                    assert forall|j: int| 0 <= j < before.len() implies (#[trigger] before[j]).id
                        != new.id by {}
                }
                if self.tickets.len() >= MAX_TICKETS {
                    let _ = self.tickets.remove(0);
                    proof {
                        assert(self@ =~= before.remove(0));
                    }
                }
                let ghost kept = self@;
                self.tickets.push(issued);
                proof {
                    assert(self@ =~= kept.push(new));
                }
            },
        }
    }

    /// Takes a ticket, which is then gone: a ticket that could be redeemed
    /// twice would let a captured resumption be replayed. One past its lifetime
    /// is gone too, and not returned.
    pub fn take(&mut self, id: &[u8], now: u64) -> (taken: Option<(Ticket, PublicKey)>)
        requires
            old(self).wf(),
        ensures
            final(self).wf(),
            final(self)@ == with_taken(old(self)@, id@),
            final(self).lifetime() == old(self).lifetime(),
            taken is Some == redeems(old(self)@, id@, old(self).lifetime(), now),
            taken matches Some((ticket, peer)) ==> {
                let issued = old(self)@[place_of(old(self)@, id@)];
                &&& ticket.id@ == id@
                &&& ticket.key == issued.key
                &&& peer == issued.peer
            },
    {
        let ghost before = self@;
        match self.find(id) {
            None => None,
            Some(k) => {
                proof {
                    assert(before[k as int] == self.tickets@[k as int]@);
                }
                let issued = self.tickets.remove(k);
                proof {
                    assert(self@ =~= before.remove(k as int));
                }
                if now.saturating_sub(issued.at) < self.lifetime {
                    Some((issued.ticket, issued.peer))
                } else {
                    None
                }
            },
        }
    }

    /// How many tickets are outstanding.
    pub fn len(&self) -> (count: usize)
        ensures
            count == self@.len(),
    {
        self.tickets.len()
    }

    /// Whether none is.
    pub fn is_empty(&self) -> (empty: bool)
        ensures
            empty == (self@.len() == 0),
    {
        self.tickets.len() == 0
    }
}

/// A ticket is single use: once asked for, asking again gets nothing, and no
/// other ticket has gone.
pub proof fn a_ticket_is_single_use(
    held: Seq<IssuedState>,
    id: Seq<u8>,
    lifetime: u64,
    now: u64,
)
    requires
        orderly(held),
    ensures
        !is_held(with_taken(held, id), id),
        !redeems(with_taken(held, id), id, lifetime, now),
        forall|other: Seq<u8>|
            other != id ==> #[trigger] is_held(with_taken(held, id), other) == is_held(held, other),
{
    let after = with_taken(held, id);
    if is_held(held, id) {
        let p = place_of(held, id);
        assert forall|k: int| 0 <= k < after.len() implies (#[trigger] after[k]).id != id by {
            if k < p {
                assert(held[k].id != held[p].id);
            } else {
                assert(held[k + 1].id != held[p].id);
            }
        }
        assert forall|other: Seq<u8>| other != id implies #[trigger] is_held(after, other)
            == is_held(held, other) by {
            if is_held(after, other) {
                let k = place_of(after, other);
                if k < p {
                    assert(held[k].id == other);
                } else {
                    assert(held[k + 1].id == other);
                }
            }
            if is_held(held, other) {
                let k = place_of(held, other);
                assert(held[k].id == other);
                if k < p {
                    assert(after[k].id == other);
                } else {
                    assert(after[k - 1].id == other);
                }
            }
        }
    }
}

/// A ticket that was issued and not asked for since is redeemed within its
/// lifetime, and not after it.
pub proof fn a_ticket_expires(held: Seq<IssuedState>, new: IssuedState, lifetime: u64, now: u64)
    requires
        orderly(held),
        now >= new.at,
    ensures
        redeems(with_issued(held, new), new.id, lifetime, now) == (now - new.at < lifetime),
{
    let after = with_issued(held, new);
    let p = if is_held(held, new.id) {
        place_of(held, new.id)
    } else {
        after.len() - 1
    };
    assert(after[p] == new);
    assert forall|k: int| 0 <= k < after.len() && k != p implies (#[trigger] after[k]).id
        != new.id by {
        if is_held(held, new.id) {
            assert(held[k].id != held[p].id);
        } else if held.len() >= MAX_TICKETS {
            assert(held[k + 1].id != new.id);
        } else {
            assert(held[k].id != new.id);
        }
    }
    assert(place_of(after, new.id) == p);
}

/// The tickets held after several more are issued.
pub open spec fn with_all_issued(held: Seq<IssuedState>, new: Seq<IssuedState>) -> Seq<IssuedState>
    decreases new.len(),
{
    if new.len() == 0 {
        held
    } else {
        with_issued(with_all_issued(held, new.drop_last()), new.last())
    }
}

/// The last few of some tickets.
pub open spec fn newest(all: Seq<IssuedState>, n: nat) -> Seq<IssuedState> {
    if all.len() <= n {
        all
    } else {
        all.skip(all.len() - n)
    }
}

/// However many tickets are issued, the newest are the ones held: the bound is
/// kept, the oldest go first, and enough strangers flush everyone else's.
pub proof fn the_oldest_tickets_go_first(held: Seq<IssuedState>, new: Seq<IssuedState>)
    requires
        orderly(held),
        forall|i: int, j: int|
            0 <= i < (held + new).len() && 0 <= j < (held + new).len() && i != j ==> (#[trigger] (
            held + new)[i]).id != (#[trigger] (held + new)[j]).id,
    ensures
        with_all_issued(held, new) == newest(held + new, MAX_TICKETS as nat),
        with_all_issued(held, new).len() <= MAX_TICKETS,
    decreases new.len(),
{
    let all = held + new;
    if new.len() == 0 {
        assert(all =~= held);
    } else {
        let rest = new.drop_last();
        let before = held + rest;
        assert(before =~= all.drop_last());
        assert forall|i: int, j: int|
            0 <= i < before.len() && 0 <= j < before.len() && i != j implies (
        #[trigger] before[i]).id != (#[trigger] before[j]).id by {
            assert(all[i].id != all[j].id);
        }
        the_oldest_tickets_go_first(held, rest);
        let kept = newest(before, MAX_TICKETS as nat);
        let shift = before.len() - kept.len();
        assert forall|k: int| 0 <= k < kept.len() implies (#[trigger] kept[k]).id
            != new.last().id by {
            assert(kept[k] == all[k + shift]);
            assert(all[k + shift].id != all[all.len() - 1].id);
        }
        assert(with_issued(kept, new.last()) =~= newest(all, MAX_TICKETS as nat));
    }
}

/// Issuing a ticket costs nobody else theirs, but for the oldest where as many are
/// held as may be; and one that is issued again is the one that counts, in the place
/// that it had.
pub proof fn issuing_a_ticket_keeps_the_others(held: Seq<IssuedState>, new: IssuedState, k: int)
    requires
        orderly(held),
        0 <= k < held.len(),
    ensures
        with_issued(held, new).contains(new),
        held[k].id == new.id ==> with_issued(held, new) == held.update(k, new),
        held[k].id != new.id && !with_issued(held, new).contains(held[k]) ==> k == 0 && held.len()
            == 256 && !is_held(held, new.id),
        with_issued(held, new).len() <= 256,
        orderly(with_issued(held, new)),
{
    let after = with_issued(held, new);
    if is_held(held, new.id) {
        let p = place_of(held, new.id);
        assert(held[p].id == new.id);
        assert(after[p] == new);
        if held[k].id == new.id {
            assert(k == p);
        } else {
            assert(after[k] == held[k]);
        }
        assert forall|i: int, j: int|
            0 <= i < after.len() && 0 <= j < after.len() && i != j implies (#[trigger] after[i]).id
            != (#[trigger] after[j]).id by {
            assert(held[i].id != held[j].id);
        }
    } else {
        let shift: int = if held.len() >= MAX_TICKETS {
            1
        } else {
            0
        };
        assert(after[after.len() - 1] == new);
        assert(held[k].id != new.id);
        if k >= shift {
            assert(after[k - shift] == held[k]);
        }
        assert forall|i: int, j: int|
            0 <= i < after.len() && 0 <= j < after.len() && i != j implies (#[trigger] after[i]).id
            != (#[trigger] after[j]).id by {
            if i < after.len() - 1 {
                assert(after[i] == held[i + shift]);
                assert(held[i + shift].id != new.id);
            }
            if j < after.len() - 1 {
                assert(after[j] == held[j + shift]);
                assert(held[j + shift].id != new.id);
            }
        }
    }
}

/// Asking for a ticket that is held redeems it exactly where its lifetime has not
/// passed since it was issued; asking for one that is not held never does.
pub proof fn a_held_ticket_is_redeemed_within_its_lifetime(
    held: Seq<IssuedState>,
    k: int,
    id: Seq<u8>,
    lifetime: u64,
    now: u64,
)
    requires
        orderly(held),
        0 <= k < held.len(),
    ensures
        lifetime > 0 ==> redeems(held, held[k].id, lifetime, now) == (now - held[k].at < lifetime),
        place_of(held, held[k].id) == k,
        with_taken(held, held[k].id) == held.remove(k),
        (forall|j: int| 0 <= j < held.len() ==> (#[trigger] held[j]).id != id) ==> !redeems(
            held,
            id,
            lifetime,
            now,
        ) && with_taken(held, id) == held,
{
    let p = place_of(held, held[k].id);
    assert(held[k].id == held[k].id);
    assert(0 <= p < held.len() && held[p].id == held[k].id);
}

} // verus!
