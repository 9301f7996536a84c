//! The sessions on file, by handle and by the identifier that their frames carry.

use std::collections::BTreeMap;

use vstd::prelude::*;

use crate::keys::{ascending, entry_mut, sorted_keys};
use crate::peer::Peer;

verus! {

broadcast use vstd::laws_cmp::group_laws_cmp;

/// A stable handle to one peer.
///
/// Handles are never reused, so one belonging to a peer that has gone away
/// stops resolving rather than silently addressing somebody else.
#[derive(Debug, Clone, Copy, PartialEq, Eq, Hash, PartialOrd, Ord, Structural)]
pub struct PeerId(pub u64);

/// Where datagrams come from and go to.
#[derive(Debug, Clone, Copy, PartialEq, Eq, Structural)]
pub struct Address {
    /// Whether this is an IPv6 address.
    pub v6: bool,
    /// The address proper.
    pub ip: u128,
    /// The port.
    pub port: u16,
    /// The flow label of an IPv6 address, and zero otherwise.
    pub flow: u32,
    /// The scope of an IPv6 address, and zero otherwise.
    pub scope: u32,
}

/// An address under test, and what has been spent testing it.
#[derive(Debug, Clone, Copy, PartialEq, Eq, Structural)]
pub struct Probe {
    /// The address.
    pub addr: Address,
    /// What the answer has to carry.
    pub token: u64,
    /// Challenges sent so far.
    pub sent: u8,
    /// When the last one went out.
    pub last: u64,
    /// When the address was first heard from, which bounds the whole attempt.
    pub started: u64,
}

/// The response to a session's handshake, kept so that seeing the opening frame
/// again sends the same bytes instead of handshaking again.
pub struct Reply {
    /// The response.
    pub bytes: Vec<u8>,
    /// How many more times it may be sent.
    pub left: u8,
}

/// One session on file.
pub struct PeerEntry {
    /// Its protocol state.
    pub peer: Peer,
    /// Where it is reached.
    pub addr: Address,
    /// The identifier that its frames carry, chosen by whoever opened it.
    pub session_id: u32,
    /// Largest datagram to send it.
    pub datagram_limit: usize,
    /// When it was established, which orders eviction.
    pub filed: u64,
    /// The handshake response, until the peer has shown that it has it.
    pub handshake_reply: Option<Reply>,
    /// When something that authenticated last came from it.
    pub last_heard: u64,
    /// When something was last sent to it.
    pub last_sent: u64,
    /// An address it has been heard from and has not proved it can receive at.
    pub probe: Option<Probe>,
    /// Whether anything has authenticated since it was filed.
    pub spoke: bool,
}

/// What is left of some handles once one is taken out.
pub open spec fn without_id(ids: Seq<u64>, id: u64) -> Seq<u64> {
    ids.filter(|other: u64| other != id)
}

/// The identifier index once a session is taken out of it: the entry goes with
/// the last session wearing the identifier.
pub open spec fn unindexed(index: Map<u32, Seq<u64>>, session_id: u32, id: u64) -> Map<
    u32,
    Seq<u64>,
> {
    let rest = without_id(index[session_id], id);
    if rest.len() == 0 {
        index.remove(session_id)
    } else {
        index.insert(session_id, rest)
    }
}

/// The handles filed under an identifier, oldest first.
pub open spec fn sharing(index: Map<u32, Seq<u64>>, session_id: u32) -> Seq<u64> {
    if index.contains_key(session_id) {
        index[session_id]
    } else {
        Seq::empty()
    }
}

/// The identifier index with one more session in it.
pub open spec fn indexed(index: Map<u32, Seq<u64>>, session_id: u32, id: u64) -> Map<
    u32,
    Seq<u64>,
> {
    index.insert(session_id, sharing(index, session_id).push(id))
}

/// Whether the two indexes describe the same sessions, and no two sessions share
/// both address and identifier.
pub open spec fn consistent(peers: Map<u64, PeerEntry>, index: Map<u32, Seq<u64>>) -> bool {
    &&& forall|id: u64| #[trigger]
        peers.contains_key(id) ==> sharing(index, peers[id].session_id).contains(id)
    &&& forall|session_id: u32| #[trigger]
        index.contains_key(session_id) ==> index[session_id].len() > 0
            && index[session_id].no_duplicates()
    &&& forall|session_id: u32, k: int|
        index.contains_key(session_id) && 0 <= k < index[session_id].len()
            ==> peers.contains_key(#[trigger] index[session_id][k])
            && peers[index[session_id][k]].session_id == session_id
    &&& forall|a: u64, b: u64|
        #![trigger peers.contains_key(a), peers.contains_key(b)]
        peers.contains_key(a) && peers.contains_key(b) && a != b ==> !(peers[a].addr
            == peers[b].addr && peers[a].session_id == peers[b].session_id)
    &&& forall|id: u64| #[trigger] peers.contains_key(id) ==> peers[id].peer.wf()
}

/// Whether a session is the one on an address and identifier.
pub open spec fn on_route(
    peers: Map<u64, PeerEntry>,
    id: u64,
    addr: Address,
    session_id: u32,
) -> bool {
    peers.contains_key(id) && peers[id].addr == addr && peers[id].session_id == session_id
}

/// The session on an address and identifier, if there is one.
pub open spec fn routed(peers: Map<u64, PeerEntry>, addr: Address, session_id: u32) -> Option<u64> {
    if exists|id: u64| on_route(peers, id, addr, session_id) {
        Some(choose|id: u64| on_route(peers, id, addr, session_id))
    } else {
        None
    }
}

/// Whether one session goes before another when room is needed: those that have
/// never spoken go first, and among equals the one filed first.
pub open spec fn goes_before(peers: Map<u64, PeerEntry>, a: u64, b: u64) -> bool {
    ||| !peers[a].spoke && peers[b].spoke
    ||| peers[a].spoke == peers[b].spoke && (peers[a].filed < peers[b].filed || (peers[a].filed
        == peers[b].filed && a <= b))
}

/// Whether a session is the one to drop when room is needed.
pub open spec fn is_victim(peers: Map<u64, PeerEntry>, id: u64) -> bool {
    &&& peers.contains_key(id)
    &&& forall|other: u64| #[trigger] peers.contains_key(other) ==> goes_before(peers, id, other)
}

/// The session to drop when room is needed, if there is any session at all.
pub open spec fn victim(peers: Map<u64, PeerEntry>) -> Option<u64> {
    if exists|id: u64| is_victim(peers, id) {
        Some(choose|id: u64| is_victim(peers, id))
    } else {
        None
    }
}

/// There is never a choice of whom to drop.
pub proof fn there_is_one_victim(peers: Map<u64, PeerEntry>, a: u64, b: u64)
    requires
        is_victim(peers, a),
        is_victim(peers, b),
    ensures
        a == b,
        victim(peers) == Some(a),
{
    let v = choose|id: u64| is_victim(peers, id);
    assert(peers.contains_key(a) && peers.contains_key(b) && peers.contains_key(v));
}

proof fn without_id_contains(ids: Seq<u64>, id: u64)
    requires
        ids.no_duplicates(),
    ensures
        without_id(ids, id).no_duplicates(),
        forall|other: u64| #[trigger]
            without_id(ids, id).contains(other) == (ids.contains(other) && other != id),
    decreases ids.len(),
{
    reveal(Seq::filter);
    if ids.len() > 0 {
        let rest = ids.drop_last();
        let last = ids.last();
        assert forall|i: int, j: int| 0 <= i < rest.len() && 0 <= j < rest.len() && i
            != j implies rest[i] != rest[j] by {
            assert(ids[i] != ids[j]);
        }
        without_id_contains(rest, id);
        assert(!rest.contains(last)) by {
            if rest.contains(last) {
                let k = choose|k: int| 0 <= k < rest.len() && rest[k] == last;
                assert(ids[k] == ids[ids.len() - 1]);
            }
        }
        assert forall|other: u64| ids.contains(other) == (rest.contains(other) || other == last) by {
            if ids.contains(other) {
                let k = choose|k: int| 0 <= k < ids.len() && ids[k] == other;
                if k < rest.len() {
                    assert(rest[k] == other);
                }
            }
            if rest.contains(other) {
                let k = choose|k: int| 0 <= k < rest.len() && rest[k] == other;
                assert(ids[k] == other);
            }
            if other == last {
                assert(ids[ids.len() - 1] == other);
            }
        }
        let kept = without_id(rest, id);
        assert forall|other: u64| #[trigger]
            without_id(ids, id).contains(other) == (ids.contains(other) && other != id) by {
            if last != id {
                let now = kept.push(last);
                if now.contains(other) {
                    let k = choose|k: int| 0 <= k < now.len() && now[k] == other;
                    if k < kept.len() {
                        assert(kept.contains(other));
                    }
                }
                if kept.contains(other) {
                    let k = choose|k: int| 0 <= k < kept.len() && kept[k] == other;
                    assert(now[k] == other);
                }
                if other == last {
                    assert(now[kept.len() as int] == other);
                }
            }
        }
        if last != id {
            let now = kept.push(last);
            assert forall|i: int, j: int| 0 <= i < now.len() && 0 <= j < now.len() && i
                != j implies now[i] != now[j] by {
                assert(!kept.contains(last));
                if i < kept.len() && j < kept.len() {
                    assert(kept[i] != kept[j]);
                } else if i < kept.len() {
                    assert(kept.contains(kept[i]));
                } else {
                    assert(kept.contains(kept[j]));
                }
            }
        }
    }
}

/// Takes one handle out of some.
fn take_out_id(ids: &Vec<u64>, id: u64) -> (left: Vec<u64>)
    ensures
        left@ == without_id(ids@, id),
{
    let mut left: Vec<u64> = Vec::new();
    let mut i: usize = 0;
    proof {
        reveal(Seq::filter);
        assert(ids@.take(0) =~= Seq::<u64>::empty());
    }
    while i < ids.len()
        invariant
            i <= ids@.len(),
            left@ == without_id(ids@.take(i as int), id),
        decreases ids@.len() - i,
    {
        proof {
            reveal(Seq::filter);
            assert(ids@.take(i + 1).drop_last() =~= ids@.take(i as int));
        }
        let other: u64 = ids[i];
        if other != id {
            left.push(other);
        }
        i += 1;
    }
    proof {
        assert(ids@.take(i as int) =~= ids@);
    }
    left
}

/// The sessions on file, in both indexes.
pub struct Filed {
    /// Every session, by handle.
    pub peers: Map<u64, PeerEntry>,
    /// The same sessions by identifier, oldest first.
    pub index: Map<u32, Seq<u64>>,
}

impl Filed {
    /// With one session taken off file.
    pub open spec fn removed(self, id: u64) -> Self {
        Filed {
            peers: self.peers.remove(id),
            index: if self.peers.contains_key(id) {
                unindexed(self.index, self.peers[id].session_id, id)
            } else {
                self.index
            },
        }
    }

    /// With several taken off file, one after another.
    pub open spec fn all_removed(self, ids: Seq<u64>) -> Self
        decreases ids.len(),
    {
        if ids.len() == 0 {
            self
        } else {
            self.all_removed(ids.drop_last()).removed(ids.last())
        }
    }

    /// With one session put on file.
    pub open spec fn inserted(self, id: u64, entry: PeerEntry) -> Self {
        Filed {
            peers: self.peers.insert(id, entry),
            index: indexed(self.index, entry.session_id, id),
        }
    }

    /// With room for one more where `limit` are allowed.
    pub open spec fn with_room(self, limit: usize) -> Self {
        if self.peers.len() < limit {
            self
        } else {
            match victim(self.peers) {
                Some(id) => self.removed(id),
                None => self,
            }
        }
    }

    /// With whoever is on an address and identifier taken off file.
    pub open spec fn cleared(self, addr: Address, session_id: u32) -> Self {
        match routed(self.peers, addr, session_id) {
            Some(id) => self.removed(id),
            None => self,
        }
    }

    /// With one session changed where it stands.
    pub open spec fn changed(self, id: u64, entry: PeerEntry) -> Self {
        Filed { peers: self.peers.insert(id, entry), ..self }
    }
}

/// Whether a session keeps its address and its identifier, and is in order.
pub open spec fn same_place(before: PeerEntry, after: PeerEntry) -> bool {
    after.peer.wf() && after.addr == before.addr && after.session_id == before.session_id
}

/// The sessions on file.
pub struct Table {
    /// Every session, by handle.
    pub peers: BTreeMap<u64, PeerEntry>,
    /// The same sessions by identifier alone, oldest first.
    ///
    /// Consulted when a frame comes from an address with no session on it,
    /// which is the one case where the identifier has to stand on its own. It
    /// can collide, so it leads to every session wearing it.
    pub by_session: BTreeMap<u32, Vec<u64>>,
}

impl Table {
    /// The identifier index.
    pub open spec fn index(&self) -> Map<u32, Seq<u64>> {
        Map::new(
            |session_id: u32| self.by_session@.contains_key(session_id),
            |session_id: u32| self.by_session@[session_id]@,
        )
    }

    /// The sessions on file, in both indexes.
    pub open spec fn view(&self) -> Filed {
        Filed { peers: self.peers@, index: self.index() }
    }

    /// What every operation keeps.
    pub open spec fn wf(&self) -> bool {
        consistent(self.peers@, self.index())
    }

    /// Nobody on file.
    pub fn new() -> (table: Self)
        ensures
            table.wf(),
            table.peers@ == Map::<u64, PeerEntry>::empty(),
            table.index() == Map::<u32, Seq<u64>>::empty(),
    {
        let table = Table { peers: BTreeMap::new(), by_session: BTreeMap::new() };
        proof {
            assert(table.index() =~= Map::<u32, Seq<u64>>::empty());
        }
        table
    }

    /// Takes a session out of the identifier index.
    fn unindex(&mut self, session_id: u32, id: u64)
        requires
            old(self).index().contains_key(session_id),
        ensures
            final(self).peers@ == old(self).peers@,
            final(self).index() == unindexed(old(self).index(), session_id, id),
    {
        let ghost before = self.index();
        if let Some(list) = self.by_session.get(&session_id) {
            let left = take_out_id(list, id);
            if left.len() == 0 {
                let _ = self.by_session.remove(&session_id);
            } else {
                let _ = self.by_session.insert(session_id, left);
            }
        }
        proof {
            assert(self.index() =~= unindexed(before, session_id, id));
        }
    }

    /// Takes a session off file, out of both indexes.
    pub fn remove(&mut self, id: u64) -> (entry: Option<PeerEntry>)
        requires
            old(self).wf(),
        ensures
            final(self).wf(),
            entry == (if old(self).peers@.contains_key(id) {
                Some(old(self).peers@[id])
            } else {
                None
            }),
            final(self)@ == old(self)@.removed(id),
    {
        let ghost before = self.peers@;
        let ghost index = self.index();
        match self.peers.remove(&id) {
            None => {
                proof {
                    assert(self.peers@ =~= before.remove(id));
                    assert(self.peers@ =~= before);
                    assert(self.index() =~= index);
                }
                None
            },
            Some(entry) => {
                proof {
                    assert(before.contains_key(id));
                    assert(sharing(index, entry.session_id).contains(id));
                    assert(self.index() =~= index);
                }
                self.unindex(entry.session_id, id);
                proof {
                    removal_keeps_consistency(before, index, id);
                }
                Some(entry)
            },
        }
    }

    /// Puts a session on file, in both indexes.
    pub fn insert(&mut self, id: u64, entry: PeerEntry)
        requires
            old(self).wf(),
            entry.peer.wf(),
            !old(self).peers@.contains_key(id),
            routed(old(self).peers@, entry.addr, entry.session_id) is None,
        ensures
            final(self).wf(),
            final(self)@ == old(self)@.inserted(id, entry),
    {
        let ghost before = self.peers@;
        let ghost index = self.index();
        let session_id: u32 = entry.session_id;
        let mut list: Vec<u64> = match self.by_session.remove(&session_id) {
            Some(list) => list,
            None => Vec::new(),
        };
        proof {
            assert(list@ =~= sharing(index, session_id));
        }
        list.push(id);
        let _ = self.by_session.insert(session_id, list);
        let _ = self.peers.insert(id, entry);
        proof {
            assert(self.index() =~= indexed(index, session_id, id));
            insertion_keeps_consistency(before, index, id, entry);
        }
    }

    /// What is on file about a session, to be changed where it stands.
    ///
    /// Whatever is written has to leave the session its address, its identifier
    /// and its protocol state in order, for the table to stay in order.
    pub fn entry(&mut self, id: u64) -> (slot: Option<&mut PeerEntry>)
        requires
            old(self).wf(),
        ensures
            match slot {
                Some(entry) => {
                    &&& old(self).peers@.contains_key(id)
                    &&& *entry == old(self).peers@[id]
                    &&& final(self)@ == old(self)@.changed(id, *final(entry))
                    &&& same_place(*entry, *final(entry)) ==> final(self).wf()
                },
                None => !old(self).peers@.contains_key(id) && final(self)@ == old(self)@,
            },
    {
        entry_mut(&mut self.peers, id)
    }

    /// What is on file about a session.
    pub fn get(&self, id: u64) -> (found: Option<&PeerEntry>)
        ensures
            match found {
                Some(entry) => self.peers@.contains_key(id) && *entry == self.peers@[id],
                None => !self.peers@.contains_key(id),
            },
    {
        self.peers.get(&id)
    }

    /// The session on an address and identifier, if there is one.
    pub fn route(&self, addr: Address, session_id: u32) -> (found: Option<u64>)
        requires
            self.wf(),
        ensures
            found == routed(self.peers@, addr, session_id),
            found matches Some(id) ==> on_route(self.peers@, id, addr, session_id),
    {
        let list = match self.by_session.get(&session_id) {
            Some(list) => list,
            None => {
                proof {
                    assert forall|id: u64| !on_route(self.peers@, id, addr, session_id) by {
                        if on_route(self.peers@, id, addr, session_id) {
                            assert(sharing(self.index(), session_id).contains(id));
                        }
                    }
                }
                return None;
            },
        };
        let mut k: usize = 0;
        while k < list.len()
            invariant
                self.wf(),
                self.by_session@.contains_key(session_id),
                list@ == self.index()[session_id],
                k <= list@.len(),
                forall|j: int|
                    0 <= j < k ==> !on_route(
                        self.peers@,
                        #[trigger] list@[j],
                        addr,
                        session_id,
                    ),
            decreases list@.len() - k,
        {
            let id: u64 = list[k];
            proof {
                assert(self.index().contains_key(session_id));
                assert(self.index()[session_id][k as int] == id);
            }
            match self.peers.get(&id) {
                Some(entry) => {
                    if entry.addr == addr {
                        proof {
                            assert(on_route(self.peers@, id, addr, session_id));
                            one_session_per_route(self.peers@, self.index(), id, addr, session_id);
                        }
                        return Some(id);
                    }
                },
                None => {},
            }
            k += 1;
        }
        proof {
            assert forall|id: u64| !on_route(self.peers@, id, addr, session_id) by {
                if on_route(self.peers@, id, addr, session_id) {
                    assert(sharing(self.index(), session_id).contains(id));
                    let j = choose|j: int| 0 <= j < list@.len() && list@[j] == id;
                    assert(!on_route(self.peers@, list@[j], addr, session_id));
                }
            }
        }
        None
    }

    /// The session at a position among those that wear an identifier.
    pub fn candidate(&self, session_id: u32, at: usize) -> (found: Option<u64>)
        requires
            self.wf(),
        ensures
            found == (if at < sharing(self.index(), session_id).len() {
                Some(sharing(self.index(), session_id)[at as int])
            } else {
                None
            }),
            found matches Some(id) ==> self.peers@.contains_key(id)
                && self.peers@[id].session_id == session_id,
    {
        match self.by_session.get(&session_id) {
            None => None,
            Some(list) => {
                if at < list.len() {
                    proof {
                        assert(self.index().contains_key(session_id));
                        assert(self.index()[session_id][at as int] == list@[at as int]);
                    }
                    Some(list[at])
                } else {
                    None
                }
            },
        }
    }

    /// Every handle on file, in increasing order.
    pub fn ids(&self) -> (ids: Vec<u64>)
        ensures
            ascending(ids@),
            ids@.no_duplicates(),
            ids@.len() == self.peers@.len(),
            forall|id: u64| ids@.contains(id) == #[trigger] self.peers@.contains_key(id),
    {
        sorted_keys(&self.peers)
    }

    /// How many sessions are on file.
    pub fn len(&self) -> (count: usize)
        ensures
            count == self.peers@.len(),
    {
        self.peers.len()
    }

    /// Whether none is.
    pub fn is_empty(&self) -> (empty: bool)
        ensures
            empty == (self.peers@.len() == 0),
    {
        self.peers.len() == 0
    }

    /// The session to drop when room is needed, if there is any.
    pub fn oldest_quiet(&self) -> (found: Option<u64>)
        ensures
            found == victim(self.peers@),
            found matches Some(id) ==> is_victim(self.peers@, id),
            found is None ==> self.peers@.len() == 0,
            found is Some ==> self.peers@.contains_key(found->0),
            found is Some ==> forall|other: u64| #[trigger]
                self.peers@.contains_key(other) && !self.peers@[other].spoke
                    ==> !self.peers@[found->0].spoke && self.peers@[found->0].filed
                    <= self.peers@[other].filed,
            found is Some && self.peers@[found->0].spoke ==> forall|other: u64| #[trigger]
                self.peers@.contains_key(other) ==> self.peers@[other].spoke
                    && self.peers@[found->0].filed <= self.peers@[other].filed,
    {
        let ids = self.ids();
        let mut best: Option<u64> = None;
        let mut k: usize = 0;
        while k < ids.len()
            invariant
                ascending(ids@),
                ids@.len() == self.peers@.len(),
                forall|id: u64| ids@.contains(id) == #[trigger] self.peers@.contains_key(id),
                k <= ids@.len(),
                best is None == (k == 0),
                best matches Some(b) ==> {
                    &&& self.peers@.contains_key(b)
                    &&& exists|j: int| 0 <= j < k && ids@[j] == b
                    &&& forall|j: int| 0 <= j < k ==> goes_before(self.peers@, b, #[trigger] ids@[j])
                },
            decreases ids@.len() - k,
        {
            let id: u64 = ids[k];
            proof {
                assert(ids@.contains(id));
                assert(self.peers@.contains_key(id));
            }
            let better = match best {
                None => true,
                Some(b) => match (self.peers.get(&id), self.peers.get(&b)) {
                    (Some(e), Some(f)) => (!e.spoke && f.spoke) || (e.spoke == f.spoke && e.filed
                        < f.filed),
                    _ => false,
                },
            };
            let ghost was = best;
            if better {
                best = Some(id);
            }
            k += 1;
            proof {
                assert forall|j: int| 0 <= j < k implies goes_before(
                    self.peers@,
                    best->0,
                    #[trigger] ids@[j],
                ) by {
                    if j < k - 1 {
                        assert(goes_before(self.peers@, was->0, ids@[j]));
                    }
                }
                assert(ids@[k - 1] == id);
            }
        }
        proof {
            match best {
                Some(b) => {
                    assert forall|other: u64| #[trigger]
                        self.peers@.contains_key(other) implies goes_before(
                        self.peers@,
                        b,
                        other,
                    ) by {
                        assert(ids@.contains(other));
                        let j = choose|j: int| 0 <= j < ids@.len() && ids@[j] == other;
                        assert(goes_before(self.peers@, b, ids@[j]));
                    }
                    assert(is_victim(self.peers@, b));
                    there_is_one_victim(self.peers@, b, b);
                },
                None => {
                    assert forall|id: u64| !is_victim(self.peers@, id) by {
                        if is_victim(self.peers@, id) {
                            assert(ids@.contains(id));
                        }
                    }
                },
            }
        }
        best
    }

    /// Makes room for one more session, if there is none.
    ///
    /// Drops the oldest session that has never sent anything, because that is
    /// what a flood looks like and what an established session does not. Only
    /// when every peer has spoken does the oldest outright go.
    pub fn make_room(&mut self, limit: usize) -> (dropped: Option<u64>)
        requires
            old(self).wf(),
        ensures
            final(self).wf(),
            final(self)@ == old(self)@.with_room(limit),
            dropped == (if old(self).peers@.len() < limit {
                None
            } else {
                victim(old(self).peers@)
            }),
            limit > 0 && old(self).peers@.len() <= limit ==> final(self).peers@.len() < limit,
            limit > 0 && old(self).peers@.len() > limit ==> final(self).peers@.len()
                < old(self).peers@.len(),
    {
        if self.len() < limit {
            return None;
        }
        let found = self.oldest_quiet();
        match found {
            Some(id) => {
                let _ = self.remove(id);
            },
            None => {},
        }
        found
    }

    /// Puts a session on file, making room for it first, and in place of
    /// whatever was on the same address and identifier.
    pub fn file(&mut self, id: u64, entry: PeerEntry, limit: usize)
        requires
            old(self).wf(),
            entry.peer.wf(),
            !old(self).peers@.contains_key(id),
            limit > 0,
        ensures
            final(self).wf(),
            final(self)@ == old(self)@.with_room(limit).cleared(
                entry.addr,
                entry.session_id,
            ).inserted(id, entry),
            final(self).peers@.len() <= limit || final(self).peers@.len() <= old(self).peers@.len(),
    {
        let _ = self.make_room(limit);
        let ghost roomy = self@;
        match self.route(entry.addr, entry.session_id) {
            Some(previous) => {
                let _ = self.remove(previous);
            },
            None => {},
        }
        proof {
            assert(routed(self.peers@, entry.addr, entry.session_id) is None) by {
                if let Some(previous) = routed(roomy.peers, entry.addr, entry.session_id) {
                    assert forall|other: u64| !on_route(
                        self.peers@,
                        other,
                        entry.addr,
                        entry.session_id,
                    ) by {
                        if on_route(self.peers@, other, entry.addr, entry.session_id) {
                            assert(roomy.peers.contains_key(other));
                            assert(roomy.peers.contains_key(previous));
                        }
                    }
                }
            }
        }
        self.insert(id, entry);
    }

    /// Moves a session to another address, where no answer is awaited any more.
    ///
    /// Two sessions cannot share an address and an identifier, so a session
    /// that is there already is taken off file; its handle is returned.
    pub fn relocate(&mut self, id: u64, to: Address) -> (displaced: Option<u64>)
        requires
            old(self).wf(),
            old(self).peers@.contains_key(id),
        ensures
            final(self).wf(),
            displaced == displaced_by(old(self).peers@, id, to),
            final(self)@ == relocated(old(self)@, id, to),
    {
        let ghost before = self@;
        let session_id: u32 = match self.get(id) {
            Some(entry) => entry.session_id,
            None => 0,
        };
        let mut displaced: Option<u64> = None;
        match self.route(to, session_id) {
            Some(other) => {
                if other != id {
                    let _ = self.remove(other);
                    displaced = Some(other);
                }
            },
            None => {},
        }
        let ghost middle = self@;
        proof {
            assert(middle.peers.contains_key(id));
            assert(middle.peers[id] == before.peers[id]);
            assert forall|other: u64| other != id implies !on_route(
                middle.peers,
                other,
                to,
                session_id,
            ) by {
                if on_route(middle.peers, other, to, session_id) {
                    assert(on_route(before.peers, other, to, session_id));
                    one_session_per_route(before.peers, before.index, other, to, session_id);
                }
            }
        }
        if let Some(entry) = entry_mut(&mut self.peers, id) {
            entry.addr = to;
            entry.probe = None;
        }
        proof {
            assert(self.index() =~= middle.index);
            let moved = PeerEntry { addr: to, probe: None, ..before.peers[id] };
            assert(self.peers@ =~= middle.peers.insert(id, moved));
            assert forall|a: u64| #[trigger] self.peers@.contains_key(a) implies sharing(
                self.index(),
                self.peers@[a].session_id,
            ).contains(a) && self.peers@[a].peer.wf() by {
                assert(middle.peers.contains_key(a));
            }
            assert forall|s: u32, k: int|
                self.index().contains_key(s) && 0 <= k < self.index()[s].len()
                    implies self.peers@.contains_key(#[trigger] self.index()[s][k])
                && self.peers@[self.index()[s][k]].session_id == s by {
                assert(middle.peers.contains_key(middle.index[s][k]));
            }
            assert forall|a: u64, b: u64|
                #![trigger self.peers@.contains_key(a), self.peers@.contains_key(b)]
                self.peers@.contains_key(a) && self.peers@.contains_key(b) && a != b implies !(
            self.peers@[a].addr == self.peers@[b].addr && self.peers@[a].session_id
                == self.peers@[b].session_id) by {
                assert(middle.peers.contains_key(a) && middle.peers.contains_key(b));
                if a == id {
                    assert(!on_route(middle.peers, b, to, session_id));
                } else if b == id {
                    assert(!on_route(middle.peers, a, to, session_id));
                }
            }
        }
        displaced
    }
}

/// The other session that stands where a session is to move, if one does.
pub open spec fn displaced_by(peers: Map<u64, PeerEntry>, id: u64, to: Address) -> Option<u64> {
    match routed(peers, to, peers[id].session_id) {
        Some(other) if other != id => Some(other),
        _ => None,
    }
}

/// The sessions on file once one has moved to another address.
pub open spec fn relocated(filed: Filed, id: u64, to: Address) -> Filed {
    let cleared = match displaced_by(filed.peers, id, to) {
        Some(other) => filed.removed(other),
        None => filed,
    };
    cleared.changed(id, (PeerEntry { addr: to, probe: None, ..filed.peers[id] }))
}

/// A peer that has spoken is never dropped while there is one that has not.
pub proof fn the_silent_are_evicted_first(peers: Map<u64, PeerEntry>, id: u64, quiet: u64)
    requires
        victim(peers) == Some(id),
        peers.contains_key(quiet),
        !peers[quiet].spoke,
    ensures
        peers.contains_key(id),
        !peers[id].spoke,
        peers[id].filed <= peers[quiet].filed,
{
    assert(is_victim(peers, id));
}

/// Where every session on file has spoken, the one dropped is the oldest of all.
pub proof fn where_all_have_spoken_the_oldest_goes(peers: Map<u64, PeerEntry>, id: u64)
    requires
        victim(peers) == Some(id),
        forall|other: u64| #[trigger] peers.contains_key(other) ==> peers[other].spoke,
    ensures
        peers.contains_key(id),
        forall|other: u64| #[trigger]
            peers.contains_key(other) ==> peers[id].filed <= peers[other].filed,
        forall|other: u64| #[trigger]
            peers.contains_key(other) && peers[other].filed == peers[id].filed ==> id <= other,
{
    assert(is_victim(peers, id));
}

/// One that has spoken is dropped only where all have, and of those alike in that
/// the one dropped is the oldest, and of two as old the one with the lower handle.
pub proof fn whom_room_is_made_at_the_expense_of(peers: Map<u64, PeerEntry>, id: u64)
    requires
        victim(peers) == Some(id),
    ensures
        peers.contains_key(id),
        peers[id].spoke ==> forall|other: u64| #[trigger]
            peers.contains_key(other) ==> peers[other].spoke,
        forall|other: u64| #[trigger]
            peers.contains_key(other) && peers[other].spoke == peers[id].spoke ==> peers[id].filed
                < peers[other].filed || (peers[id].filed == peers[other].filed && id <= other),
{
    assert(is_victim(peers, id));
}

/// Room is made only where there is none, and then by letting exactly one session
/// go: everyone else stays as they were.
pub proof fn making_room_costs_one_session_at_most(filed: Filed, limit: usize, id: u64)
    requires
        filed.peers.contains_key(id),
    ensures
        filed.peers.len() < limit ==> filed.with_room(limit) == filed,
        filed.peers.len() >= limit ==> (victim(filed.peers) matches Some(v) ==> {
            &&& !filed.with_room(limit).peers.contains_key(v)
            &&& id != v ==> filed.with_room(limit).peers.contains_key(id)
                && filed.with_room(limit).peers[id] == filed.peers[id]
        }),
        filed.with_room(limit).peers.contains_key(id) ==> filed.with_room(limit).peers[id]
            == filed.peers[id],
        victim(filed.peers) != Some(id) ==> filed.with_room(limit).peers.contains_key(id),
{
}

/// Filing a session puts it on file as it is, and lets go of nobody but the one
/// that room is made at the expense of and whoever stood on the same address with
/// the same identifier.
pub proof fn filing_disturbs_nobody_else(
    filed: Filed,
    new: u64,
    entry: PeerEntry,
    limit: usize,
    id: u64,
)
    requires
        consistent(filed.peers, filed.index),
        !filed.peers.contains_key(new),
    ensures
        ({
            let after = filed.with_room(limit).cleared(entry.addr, entry.session_id).inserted(
                new,
                entry,
            );
            &&& after.peers.contains_key(new)
            &&& after.peers[new] == entry
            &&& after.peers.contains_key(id) && id != new ==> filed.peers.contains_key(id)
                && after.peers[id] == filed.peers[id]
            &&& filed.peers.contains_key(id) && !after.peers.contains_key(id) ==> {
                ||| filed.peers.len() >= limit && victim(filed.peers) == Some(id)
                ||| filed.peers[id].addr == entry.addr && filed.peers[id].session_id
                    == entry.session_id
            }
            &&& filed.peers.contains_key(id) && filed.peers[id].addr == entry.addr
                && filed.peers[id].session_id == entry.session_id ==> !after.peers.contains_key(id)
        }),
{
    let roomy = filed.with_room(limit);
    if filed.peers.contains_key(id) && filed.peers[id].addr == entry.addr
        && filed.peers[id].session_id == entry.session_id && roomy.peers.contains_key(id) {
        assert(on_route(roomy.peers, id, entry.addr, entry.session_id));
        let other = routed(roomy.peers, entry.addr, entry.session_id)->0;
        assert(on_route(roomy.peers, other, entry.addr, entry.session_id));
        assert(filed.peers.contains_key(other) && filed.peers.contains_key(id));
    }
    if let Some(other) = routed(roomy.peers, entry.addr, entry.session_id) {
        assert(on_route(roomy.peers, other, entry.addr, entry.session_id));
    }
}

/// A frame goes to the session that stands on its address and wears its
/// identifier, and to that one alone.
pub proof fn a_frame_goes_to_the_session_on_its_address_and_identifier(
    filed: Filed,
    addr: Address,
    session_id: u32,
    id: u64,
)
    requires
        consistent(filed.peers, filed.index),
    ensures
        routed(filed.peers, addr, session_id) == Some(id) <==> filed.peers.contains_key(id)
            && filed.peers[id].addr == addr && filed.peers[id].session_id == session_id,
        routed(filed.peers, addr, session_id) is None <==> forall|other: u64|
            !(#[trigger] filed.peers.contains_key(other) && filed.peers[other].addr == addr
                && filed.peers[other].session_id == session_id),
{
    if filed.peers.contains_key(id) && filed.peers[id].addr == addr && filed.peers[id].session_id
        == session_id {
        assert(on_route(filed.peers, id, addr, session_id));
        one_session_per_route(filed.peers, filed.index, id, addr, session_id);
    }
    if let Some(found) = routed(filed.peers, addr, session_id) {
        assert(on_route(filed.peers, found, addr, session_id));
        assert(filed.peers.contains_key(found));
    } else {
        assert forall|other: u64| !(#[trigger] filed.peers.contains_key(other)
            && filed.peers[other].addr == addr && filed.peers[other].session_id == session_id) by {
            assert(!on_route(filed.peers, other, addr, session_id));
        }
    }
}

/// The sessions that a frame from an unknown address is tried against are exactly
/// those that wear its identifier, each once, and a new one comes last.
pub proof fn the_candidates_are_those_that_wear_the_identifier(
    filed: Filed,
    session_id: u32,
    id: u64,
    entry: PeerEntry,
)
    requires
        consistent(filed.peers, filed.index),
    ensures
        sharing(filed.index, session_id).contains(id) <==> filed.peers.contains_key(id)
            && filed.peers[id].session_id == session_id,
        sharing(filed.index, session_id).no_duplicates(),
        sharing(filed.inserted(id, entry).index, entry.session_id) == sharing(
            filed.index,
            entry.session_id,
        ).push(id),
        session_id != entry.session_id ==> sharing(
            filed.inserted(id, entry).index,
            session_id,
        ) == sharing(filed.index, session_id),
{
    let list = sharing(filed.index, session_id);
    if list.contains(id) {
        let k = choose|k: int| 0 <= k < list.len() && list[k] == id;
        assert(filed.index.contains_key(session_id));
        assert(filed.index[session_id][k] == id);
    }
}

/// Moving a session to another address changes its address and ends its probe,
/// and nothing else about it. Nobody else is disturbed but one that stands there
/// already with the same identifier, which is let go.
pub proof fn moving_a_session_disturbs_nobody_else(filed: Filed, id: u64, to: Address, other: u64)
    requires
        consistent(filed.peers, filed.index),
        filed.peers.contains_key(id),
        other != id,
    ensures
        ({
            let after = relocated(filed, id, to).peers;
            &&& after.contains_key(id)
            &&& after[id] == (PeerEntry { addr: to, probe: None, ..filed.peers[id] })
            &&& after.contains_key(other) <==> filed.peers.contains_key(other) && !(
            filed.peers[other].addr == to && filed.peers[other].session_id
                == filed.peers[id].session_id)
            &&& after.contains_key(other) ==> after[other] == filed.peers[other]
            &&& displaced_by(filed.peers, id, to) == Some(other) <==> filed.peers.contains_key(other)
                && filed.peers[other].addr == to && filed.peers[other].session_id
                == filed.peers[id].session_id
        }),
{
    let session_id = filed.peers[id].session_id;
    a_frame_goes_to_the_session_on_its_address_and_identifier(filed, to, session_id, other);
    a_frame_goes_to_the_session_on_its_address_and_identifier(filed, to, session_id, id);
    if let Some(found) = routed(filed.peers, to, session_id) {
        a_frame_goes_to_the_session_on_its_address_and_identifier(filed, to, session_id, found);
    }
}

/// A peer that has spoken keeps its session, however many others are filed, as
/// long as one that has not is on file to go in its place and nobody else turns
/// up on its own address and identifier.
pub proof fn a_peer_that_has_spoken_survives_a_flood(
    filed: Filed,
    id: u64,
    quiet: u64,
    new: u64,
    entry: PeerEntry,
    limit: usize,
)
    requires
        consistent(filed.peers, filed.index),
        filed.peers.contains_key(id),
        filed.peers[id].spoke,
        filed.peers.contains_key(quiet),
        !filed.peers[quiet].spoke,
        !filed.peers.contains_key(new),
        !(filed.peers[id].addr == entry.addr && filed.peers[id].session_id == entry.session_id),
    ensures
        filed.with_room(limit).cleared(entry.addr, entry.session_id).inserted(
            new,
            entry,
        ).peers.contains_key(id),
        filed.with_room(limit).cleared(entry.addr, entry.session_id).inserted(new, entry).peers[id]
            == filed.peers[id],
{
    let roomy = filed.with_room(limit);
    if filed.peers.len() >= limit {
        if let Some(v) = victim(filed.peers) {
            the_silent_are_evicted_first(filed.peers, v, quiet);
        }
    }
    assert(roomy.peers.contains_key(id));
    assert(roomy.peers[id] == filed.peers[id]);
    if let Some(other) = routed(roomy.peers, entry.addr, entry.session_id) {
        assert(on_route(roomy.peers, other, entry.addr, entry.session_id));
        assert(other != id);
    }
}

proof fn one_session_per_route(
    peers: Map<u64, PeerEntry>,
    index: Map<u32, Seq<u64>>,
    id: u64,
    addr: Address,
    session_id: u32,
)
    requires
        consistent(peers, index),
        on_route(peers, id, addr, session_id),
    ensures
        routed(peers, addr, session_id) == Some(id),
{
    let other = choose|other: u64| on_route(peers, other, addr, session_id);
    assert(peers.contains_key(other) && peers.contains_key(id));
}

/// Taking a session out of both indexes leaves them describing the same sessions.
proof fn removal_keeps_consistency(peers: Map<u64, PeerEntry>, index: Map<u32, Seq<u64>>, id: u64)
    requires
        consistent(peers, index),
        peers.contains_key(id),
    ensures
        consistent(peers.remove(id), unindexed(index, peers[id].session_id, id)),
{
    let session_id = peers[id].session_id;
    let after = peers.remove(id);
    let left = unindexed(index, session_id, id);
    assert(sharing(index, session_id).contains(id));
    assert(index.contains_key(session_id));
    let rest = without_id(index[session_id], id);
    without_id_contains(index[session_id], id);
    assert forall|other: u64| #[trigger] after.contains_key(other) implies sharing(
        left,
        after[other].session_id,
    ).contains(other) by {
        assert(peers.contains_key(other));
        assert(sharing(index, peers[other].session_id).contains(other));
        if peers[other].session_id == session_id {
            assert(rest.contains(other));
        }
    }
    assert forall|s: u32, k: int|
        left.contains_key(s) && 0 <= k < left[s].len() implies after.contains_key(
        #[trigger] left[s][k],
    ) && after[left[s][k]].session_id == s by {
        let other = left[s][k];
        if s == session_id {
            assert(rest.contains(other));
            let j = choose|j: int| 0 <= j < index[s].len() && index[s][j] == other;
            assert(peers.contains_key(index[s][j]));
        } else {
            assert(peers.contains_key(index[s][k]));
        }
    }
    assert forall|a: u64, b: u64|
        #![trigger after.contains_key(a), after.contains_key(b)]
        after.contains_key(a) && after.contains_key(b) && a != b implies !(after[a].addr
        == after[b].addr && after[a].session_id == after[b].session_id) by {
        assert(peers.contains_key(a) && peers.contains_key(b));
    }
    assert forall|other: u64| #[trigger] after.contains_key(other) implies after[other].peer.wf() by {
        assert(peers.contains_key(other));
    }
}

/// Putting a session into both indexes leaves them describing the same sessions.
proof fn insertion_keeps_consistency(
    peers: Map<u64, PeerEntry>,
    index: Map<u32, Seq<u64>>,
    id: u64,
    entry: PeerEntry,
)
    requires
        consistent(peers, index),
        entry.peer.wf(),
        !peers.contains_key(id),
        routed(peers, entry.addr, entry.session_id) is None,
    ensures
        consistent(peers.insert(id, entry), indexed(index, entry.session_id, id)),
{
    let session_id = entry.session_id;
    let after = peers.insert(id, entry);
    let with = indexed(index, session_id, id);
    let old_list = sharing(index, session_id);
    let list = old_list.push(id);
    assert(forall|k: int| 0 <= k < old_list.len() ==> list[k] == old_list[k]);
    assert(list[old_list.len() as int] == id);
    assert(!old_list.contains(id)) by {
        if old_list.contains(id) {
            let k = choose|k: int| 0 <= k < old_list.len() && old_list[k] == id;
            assert(peers.contains_key(index[session_id][k]));
        }
    }
    assert forall|other: u64| #[trigger] after.contains_key(other) implies sharing(
        with,
        after[other].session_id,
    ).contains(other) by {
        if other != id {
            assert(peers.contains_key(other));
            assert(sharing(index, peers[other].session_id).contains(other));
            if peers[other].session_id == session_id {
                let k = choose|k: int| 0 <= k < old_list.len() && old_list[k] == other;
                assert(list[k] == other);
            }
        }
    }
    assert forall|s: u32, k: int|
        with.contains_key(s) && 0 <= k < with[s].len() implies after.contains_key(
        #[trigger] with[s][k],
    ) && after[with[s][k]].session_id == s by {
        if s == session_id {
            if k < old_list.len() {
                assert(index.contains_key(s));
                assert(peers.contains_key(index[s][k]));
            }
        } else {
            assert(peers.contains_key(index[s][k]));
        }
    }
    assert forall|s: u32| #[trigger] with.contains_key(s) implies with[s].len() > 0
        && with[s].no_duplicates() by {
        if s == session_id {
            assert(old_list.no_duplicates());
            assert forall|i: int, j: int| 0 <= i < list.len() && 0 <= j < list.len() && i
                != j implies list[i] != list[j] by {
                if i < old_list.len() && j < old_list.len() {
                    assert(old_list[i] != old_list[j]);
                } else if i < old_list.len() {
                    assert(old_list.contains(old_list[i]));
                } else {
                    assert(old_list.contains(old_list[j]));
                }
            }
        } else {
            assert(index.contains_key(s));
        }
    }
    assert forall|a: u64, b: u64|
        #![trigger after.contains_key(a), after.contains_key(b)]
        after.contains_key(a) && after.contains_key(b) && a != b implies !(after[a].addr
        == after[b].addr && after[a].session_id == after[b].session_id) by {
        if a != id && b != id {
            assert(peers.contains_key(a) && peers.contains_key(b));
        } else if a == id {
            assert(!on_route(peers, b, entry.addr, entry.session_id));
        } else {
            assert(!on_route(peers, a, entry.addr, entry.session_id));
        }
    }
}

} // verus!
