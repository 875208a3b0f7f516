use dashmap::DashMap;
use vstd::prelude::*;

use crate::reliable::{SentPacket, SentPacketView};
use crate::wire::{Packet, PacketView};

verus! {

/// `dashmap::DashMap`, the concurrent hash map that holds the packets of the
/// reliable layer. Its insides are not visible here: what it holds is known
/// only through the names and wrappers below.
#[verifier::external_type_specification]
#[verifier::external_body]
#[verifier::reject_recursive_types(K)]
#[verifier::reject_recursive_types(V)]
#[verifier::reject_recursive_types(S)]
pub struct ExDashMap<K, V, S>(DashMap<K, V, S>);

/// The reorder buffer of the receiving side.
pub type ReorderBuffer = DashMap<u32, Packet>;

/// The table of sent packets of the sending side.
pub type UnackedTable = DashMap<u32, SentPacket>;

/// What a reorder buffer (packets that came ahead of their turn, by
/// sequence number) holds.
pub uninterp spec fn reorder_buffer_contents(m: DashMap<u32, Packet>) -> Map<u32, PacketView>;

/// What the table of packets sent and not yet acknowledged holds, by
/// sequence number.
pub uninterp spec fn unacked_contents(m: DashMap<u32, SentPacket>) -> Map<u32, SentPacketView>;

// The wrappers below take the map by `&mut` although DashMap's own methods
// take `&self`: the library owns each map alone, and the exclusive borrow is
// what makes "what the map holds" a function of the map.

/// `DashMap::new`: an empty map.
#[verifier::external_body]
pub(crate) fn reorder_buffer_new() -> (m: ReorderBuffer)
    ensures
        reorder_buffer_contents(m).dom() == Set::<u32>::empty(),
{
    DashMap::new()
}

/// `DashMap::insert`: afterwards `key` maps to `value`, every other key is
/// unchanged (the value it replaces, if any, is dropped).
#[verifier::external_body]
pub(crate) fn reorder_buffer_insert(m: &mut DashMap<u32, Packet>, key: u32, value: Packet)
    ensures
        reorder_buffer_contents(*final(m)) == reorder_buffer_contents(*old(m)).insert(key, value@),
{
    m.insert(key, value);
}

/// `DashMap::remove`: hands out the value stored under `key`, if any, and
/// takes the key out of the map.
#[verifier::external_body]
pub(crate) fn reorder_buffer_remove(m: &mut DashMap<u32, Packet>, key: u32) -> (r: Option<Packet>)
    ensures
        reorder_buffer_contents(*old(m)).dom().contains(key) ==> {
            &&& r matches Some(p)
            &&& p@ == reorder_buffer_contents(*old(m))[key]
            &&& reorder_buffer_contents(*final(m)) == reorder_buffer_contents(*old(m)).remove(key)
        },
        !reorder_buffer_contents(*old(m)).dom().contains(key) ==> {
            &&& r is None
            &&& reorder_buffer_contents(*final(m)) == reorder_buffer_contents(*old(m))
        },
{
    m.remove(&key).map(|(_, v)| v)
}

/// `DashMap::contains_key`.
#[verifier::external_body]
pub(crate) fn reorder_buffer_contains(m: &DashMap<u32, Packet>, key: u32) -> (r: bool)
    ensures
        r == reorder_buffer_contents(*m).dom().contains(key),
{
    m.contains_key(&key)
}

/// `DashMap::new`: an empty map.
#[verifier::external_body]
pub(crate) fn unacked_new() -> (m: UnackedTable)
    ensures
        unacked_contents(m).dom() == Set::<u32>::empty(),
{
    DashMap::new()
}

/// `DashMap::insert`: afterwards `key` maps to `value`, every other key is
/// unchanged.
#[verifier::external_body]
pub(crate) fn unacked_insert(m: &mut DashMap<u32, SentPacket>, key: u32, value: SentPacket)
    ensures
        unacked_contents(*final(m)) == unacked_contents(*old(m)).insert(key, value@),
{
    m.insert(key, value);
}

/// `DashMap::remove`: hands out the value stored under `key`, if any, and
/// takes the key out of the map.
#[verifier::external_body]
pub(crate) fn unacked_remove(m: &mut DashMap<u32, SentPacket>, key: u32) -> (r: Option<SentPacket>)
    ensures
        unacked_contents(*old(m)).dom().contains(key) ==> {
            &&& r matches Some(v)
            &&& v@ == unacked_contents(*old(m))[key]
            &&& unacked_contents(*final(m)) == unacked_contents(*old(m)).remove(key)
        },
        !unacked_contents(*old(m)).dom().contains(key) ==> {
            &&& r is None
            &&& unacked_contents(*final(m)) == unacked_contents(*old(m))
        },
{
    m.remove(&key).map(|(_, v)| v)
}

/// `DashMap::iter`, keeping only the keys: every key of the map once, in the
/// order the map happens to walk them (which nothing here states).
#[verifier::external_body]
pub(crate) fn unacked_keys(m: &DashMap<u32, SentPacket>) -> (r: Vec<u32>)
    ensures
        r@.no_duplicates(),
        r@.to_set() == unacked_contents(*m).dom(),
{
    m.iter().map(|e| *e.key()).collect()
}

} // verus!
