//! The keys of an ordered map, as a list.

use std::collections::BTreeMap;
use vstd::prelude::*;
use vstd::std_specs::cmp::OrdSpec;
use vstd::std_specs::iter::IteratorSpec;

verus! {

broadcast use vstd::laws_cmp::group_laws_cmp;

/// Whether some numbers are in increasing order.
pub open spec fn ascending(ids: Seq<u64>) -> bool {
    forall|i: int, j: int| 0 <= i < j < ids.len() ==> ids[i] < ids[j]
}

/// The keys of a map, in increasing order.
pub fn sorted_keys<V>(map: &BTreeMap<u64, V>) -> (keys: Vec<u64>)
    ensures
        ascending(keys@),
        keys@.no_duplicates(),
        keys@.len() == map@.len(),
        forall|id: u64| keys@.contains(id) == #[trigger] map@.contains_key(id),
{
    let mut out: Vec<u64> = Vec::new();
    let iter = map.keys();
    let ghost all = iter.remaining();
    for key in it: iter
        invariant
            it.seq() == all,
            out@.len() == it.index(),
            forall|i: int| 0 <= i < out@.len() ==> out@[i] == *all[i],
    {
        out.push(*key);
    }
    proof {
        assert(out@ =~= all.unref());
        assert forall|i: int, j: int| 0 <= i < j < out@.len() implies out@[i] < out@[j] by {
            assert(vstd::laws_cmp::obeys_cmp::<&u64>());
            assert(vstd::std_specs::btree::increasing_seq(all));
            assert(OrdSpec::cmp_spec(&all[i], &all[j]) is Less);
        }
        assert forall|id: u64| out@.contains(id) == #[trigger] map@.contains_key(id) by {
            assert(all.unref().to_set().contains(id) == map@.dom().contains(id));
        }
    }
    out
}

/// Calls `BTreeMap::get_mut`.
///
/// It hands out a mutable reference to the value under a key, or `None` where
/// the map has no such key. What is written through the reference is what the
/// map then holds under that key; nothing else in the map changes.
#[verifier::external_body]
pub(crate) fn entry_mut<V>(map: &mut BTreeMap<u64, V>, key: u64) -> (slot: Option<&mut V>)
    ensures
        match slot {
            Some(value) => {
                &&& old(map)@.contains_key(key)
                &&& *value == old(map)@[key]
                &&& final(map)@ == old(map)@.insert(key, *final(value))
            },
            None => !old(map)@.contains_key(key) && final(map)@ == old(map)@,
        },
{
    map.get_mut(&key)
}

} // verus!
