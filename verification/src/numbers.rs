//! The order in which packets that are kept by their numbers are visited.
use crate::packet::Packet;
use std::collections::btree_map::Iter;
use std::collections::BTreeMap;
use vstd::prelude::*;
use vstd::std_specs::btree::{increasing_seq, spec_btree_map_iter};
use vstd::std_specs::cmp::OrdSpec;
use vstd::std_specs::iter::IteratorSpec;

verus! {

/// Whether `keys` are the keys of `m` in increasing order.
pub open spec fn are_numbers_of(keys: Seq<u16>, m: Map<u16, Packet>) -> bool {
    &&& forall|i: int, j: int| 0 <= i < j < keys.len() ==> keys[i] < keys[j]
    &&& forall|k: u16| m.contains_key(k) ==> #[trigger] keys.contains(k)
    &&& forall|i: int| 0 <= i < keys.len() ==> m.contains_key(#[trigger] keys[i])
}

/// Going through a map of packets visits each of them once, in increasing order of the numbers.
pub proof fn visited_in_order(
    m: &BTreeMap<u16, Packet>,
    entries: Iter<'_, u16, Packet>,
    keys: Seq<u16>,
)
    requires
        entries == spec_btree_map_iter(m),
        keys == entries.remaining().map_values(|kv: (&u16, &Packet)| *kv.0),
        increasing_seq(keys),
    ensures
        are_numbers_of(keys, m@),
        forall|i: int|
            0 <= i < keys.len() ==> *(#[trigger] entries.remaining()[i]).0 == keys[i]
                && *entries.remaining()[i].1 == m@[keys[i]],
{
    assert forall|i: int, j: int| 0 <= i < j < keys.len() implies keys[i] < keys[j] by {
        assert(keys[i].cmp_spec(&keys[j]) is Less);
    }
    assert forall|k: u16| m@.contains_key(k) implies #[trigger] keys.contains(k) by {
        let i = choose|i: int|
            0 <= i < entries.remaining().len() && entries.remaining()[i] == (&k, &m@[k]);
        assert(keys[i] == k);
    }
    assert forall|i: int| 0 <= i < keys.len() implies m@.contains_key(#[trigger] keys[i]) by {
        assert(m@.contains_key(*entries.remaining()[i].0));
    }
}

} // verus!
