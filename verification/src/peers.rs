//! The peers of a socket, found by their addresses.
use crate::addr::{PeerAddr, PeerKey};
use crate::state::{PeerView, UtpSocketState};
use dashmap::DashMap;
use vstd::prelude::*;

verus! {

/// The concurrent hash map of the crate dashmap, of which nothing is known here but what the
/// functions below say.
#[verifier::external_type_specification]
#[verifier::external_body]
#[verifier::reject_recursive_types(K)]
#[verifier::reject_recursive_types(V)]
#[verifier::reject_recursive_types(S)]
pub struct ExDashMap<K, V, S>(DashMap<K, V, S>);

/// The entries of a hash map.
pub uninterp spec fn entries(m: DashMap<PeerKey, usize>) -> Map<PeerKey, usize>;

/// `DashMap::new`: a map without entries.
#[verifier::external_body]
fn dashmap_new() -> (m: DashMap<PeerKey, usize>)
    ensures
        entries(m).is_empty(),
{
    DashMap::new()
}

/// `DashMap::contains_key`: whether there is an entry for `key`.
#[verifier::external_body]
fn dashmap_contains_key(m: &DashMap<PeerKey, usize>, key: &PeerKey) -> (found: bool)
    ensures
        found == entries(*m).contains_key(*key),
{
    m.contains_key(key)
}

/// `DashMap::get`: the value of the entry for `key`, if there is one.
#[verifier::external_body]
fn dashmap_get(m: &DashMap<PeerKey, usize>, key: &PeerKey) -> (value: Option<usize>)
    ensures
        match value {
            Some(v) => entries(*m).contains_key(*key) && entries(*m)[*key] == v,
            None => !entries(*m).contains_key(*key),
        },
{
    m.get(key).map(|entry| *entry.value())
}

/// `DashMap::insert`: sets the entry for `key`, and hands back the value that it had before.
#[verifier::external_body]
fn dashmap_insert(m: &mut DashMap<PeerKey, usize>, key: PeerKey, value: usize) -> (previous: Option<
    usize,
>)
    ensures
        entries(*final(m)) == entries(*old(m)).insert(key, value),
        match previous {
            Some(v) => entries(*old(m)).contains_key(key) && entries(*old(m))[key] == v,
            None => !entries(*old(m)).contains_key(key),
        },
{
    m.insert(key, value)
}

/// `DashMap::entry`, then `Entry::or_insert`: the value of the entry for `key`, which is set to
/// `value` if there is none.
#[verifier::external_body]
fn dashmap_entry_or_insert(m: &mut DashMap<PeerKey, usize>, key: PeerKey, value: usize) -> (found:
    usize)
    ensures
        entries(*final(m)) == if entries(*old(m)).contains_key(key) {
            entries(*old(m))
        } else {
            entries(*old(m)).insert(key, value)
        },
        found == entries(*final(m))[key],
{
    *m.entry(key).or_insert(value)
}

/// `DashMap::iter`, then `next`: some entry, unless there is none. Which one depends on how the
/// map hashes.
#[verifier::external_body]
fn dashmap_first(m: &DashMap<PeerKey, usize>) -> (entry: Option<(PeerKey, usize)>)
    ensures
        match entry {
            Some((k, v)) => entries(*m).contains_key(k) && entries(*m)[k] == v,
            None => entries(*m).is_empty(),
        },
{
    m.iter().next().map(|entry| (*entry.key(), *entry.value()))
}

/// The peers of a socket, found by their addresses.
pub struct PeerTable {
    /// Where in `states` the state of each peer stands.
    index: DashMap<PeerKey, usize>,
    states: Vec<UtpSocketState>,
}

impl View for PeerTable {
    type V = Map<PeerAddr, PeerView>;

    closed spec fn view(&self) -> Map<PeerAddr, PeerView> {
        Map::new(
            |a: PeerAddr| entries(self.index).contains_key(a.spec_key()),
            |a: PeerAddr| self.states@[entries(self.index)[a.spec_key()] as int]@,
        )
    }
}

impl PeerTable {
    /// Each peer has a state of its own.
    pub closed spec fn wf(&self) -> bool {
        &&& forall|k: PeerKey| #[trigger]
            entries(self.index).contains_key(k) ==> entries(self.index)[k] < self.states@.len()
        &&& forall|k: PeerKey, l: PeerKey|
            #![trigger entries(self.index)[k], entries(self.index)[l]]
            entries(self.index).contains_key(k) && entries(self.index).contains_key(l)
                && entries(self.index)[k] == entries(self.index)[l] ==> k == l
    }

    /// A table without peers.
    pub fn new() -> (table: PeerTable)
        ensures
            table.wf(),
            table@ == Map::<PeerAddr, PeerView>::empty(),
    {
        let table = PeerTable { index: dashmap_new(), states: Vec::new() };
        assert(table@ =~= Map::<PeerAddr, PeerView>::empty());
        table
    }

    /// Whether there is a peer with this address.
    pub fn contains(&self, addr: PeerAddr) -> (found: bool)
        ensures
            found == self@.contains_key(addr),
    {
        dashmap_contains_key(&self.index, &addr.key())
    }

    /// The peer with this address.
    pub fn get(&self, addr: PeerAddr) -> (peer: Option<&UtpSocketState>)
        requires
            self.wf(),
        ensures
            match peer {
                Some(p) => self@.contains_key(addr) && p@ == self@[addr],
                None => !self@.contains_key(addr),
            },
    {
        match dashmap_get(&self.index, &addr.key()) {
            Some(slot) => Some(&self.states[slot]),
            None => None,
        }
    }

    /// The peer with this address, to be changed.
    pub fn get_mut(&mut self, addr: PeerAddr) -> (peer: &mut UtpSocketState)
        requires
            old(self).wf(),
            old(self)@.contains_key(addr),
        ensures
            peer@ == old(self)@[addr],
            final(self).wf(),
            final(self)@ == old(self)@.insert(addr, final(peer)@),
    {
        let slot: usize = match dashmap_get(&self.index, &addr.key()) {
            Some(slot) => slot,
            None => 0,
        };
        &mut self.states[slot]
    }

    /// Sets the state of the peer with this address, in place of one that it has.
    pub fn insert(&mut self, addr: PeerAddr, peer: UtpSocketState)
        requires
            old(self).wf(),
        ensures
            final(self).wf(),
            final(self)@ == old(self)@.insert(addr, peer@),
    {
        match dashmap_get(&self.index, &addr.key()) {
            Some(slot) => {
                self.states[slot] = peer;
            },
            None => {
                let slot: usize = self.states.len();
                self.states.push(peer);
                dashmap_insert(&mut self.index, addr.key(), slot);
            },
        }
        assert(self@ =~= old(self)@.insert(addr, peer@));
    }

    /// Adds a peer with this address and this state, unless there is one with the address.
    pub fn insert_if_absent(&mut self, addr: PeerAddr, peer: UtpSocketState)
        requires
            old(self).wf(),
        ensures
            final(self).wf(),
            final(self)@ == if old(self)@.contains_key(addr) {
                old(self)@
            } else {
                old(self)@.insert(addr, peer@)
            },
    {
        let slot: usize = self.states.len();
        let found: usize = dashmap_entry_or_insert(&mut self.index, addr.key(), slot);
        if found == slot {
            self.states.push(peer);
        }
    }

    /// The address of some peer, unless there is none.
    pub fn first(&self) -> (addr: Option<PeerAddr>)
        ensures
            match addr {
                Some(a) => self@.contains_key(a),
                None => self@ == Map::<PeerAddr, PeerView>::empty(),
            },
    {
        match dashmap_first(&self.index) {
            Some((key, _slot)) => Some(PeerAddr::from_key(key)),
            None => None,
        }
    }
}

} // verus!
