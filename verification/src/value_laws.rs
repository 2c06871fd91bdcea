//! What calls that make, read and change single values do.
use crate::addr::{PeerAddr, PeerKey};
use crate::packet::{ExtensionType, Packet, PacketType, PacketView};
use crate::peers::PeerTable;
use crate::state::UtpSocketState;
use crate::time::{abs_diff, Delay, Timestamp};
use crate::utp_stream::{contents, ReadBuffer};
use vstd::prelude::*;

verus! {

/// The distance leads from the earlier point in time to the later one.
pub proof fn distance_leads_from_one_to_the_other(a: Timestamp, b: Timestamp, d: Delay)
    requires
        call_ensures(abs_diff, (a, b), d),
    ensures
        a.0 <= b.0 ==> a.0 + d.0 == b.0,
        b.0 <= a.0 ==> b.0 + d.0 == a.0,
{
}

/// An address comes back from its tuple, and no two addresses have the same one.
pub proof fn address_comes_back(a: PeerAddr, b: PeerAddr, key: PeerKey, back: PeerAddr)
    requires
        call_ensures(PeerAddr::key, (&a,), key),
        call_ensures(PeerAddr::from_key, (key,), back),
    ensures
        back == a,
        call_ensures(PeerAddr::key, (&b,), key) ==> a == b,
{
}

/// A new packet carries nothing but the payload that it is given, and is a `Data` packet.
pub proof fn new_packet_is_blank(payload: &[u8], p: Packet, q: Packet)
    requires
        call_ensures(Packet::new, (), p),
        call_ensures(Packet::with_payload, (payload,), q),
    ensures
        p@.payload.len() == 0,
        q@.payload == payload@,
        p@ == (PacketView { payload: p@.payload, ..q@ }),
        p@.ty == PacketType::Data && p@.sack is None,
        p@.connection_id == 0 && p@.seq_nr == 0 && p@.ack_nr == 0 && p@.wnd_size == 0,
        p@.timestamp.0 == 0 && p@.timestamp_difference.0 == 0,
{
}

/// A field of a packet that is set is read as it was set, and no other field changes.
pub proof fn numbers_are_read_as_they_were_set(
    by_id: &mut Packet,
    by_seq: &mut Packet,
    by_ack: &mut Packet,
    n: u16,
    after_id: Packet,
    after_seq: Packet,
    after_ack: Packet,
    id: u16,
    seq: u16,
    ack: u16,
)
    requires
        call_ensures(Packet::set_connection_id, (by_id, n), ()),
        call_ensures(Packet::set_seq_nr, (by_seq, n), ()),
        call_ensures(Packet::set_ack_nr, (by_ack, n), ()),
        after_id@ == final(by_id)@ && call_ensures(Packet::connection_id, (&after_id,), id),
        after_seq@ == final(by_seq)@ && call_ensures(Packet::seq_nr, (&after_seq,), seq),
        after_ack@ == final(by_ack)@ && call_ensures(Packet::ack_nr, (&after_ack,), ack),
    ensures
        id == n && seq == n && ack == n,
        old(by_id)@ == (PacketView { connection_id: old(by_id)@.connection_id, ..final(by_id)@ }),
        old(by_seq)@ == (PacketView { seq_nr: old(by_seq)@.seq_nr, ..final(by_seq)@ }),
        old(by_ack)@ == (PacketView { ack_nr: old(by_ack)@.ack_nr, ..final(by_ack)@ }),
{
}

/// The type, the times and the selective acknowledgement of a packet are read as they were set, and
/// no other field changes.
pub proof fn other_fields_are_read_as_they_were_set(
    by_type: &mut Packet,
    by_time: &mut Packet,
    by_difference: &mut Packet,
    by_sack: &mut Packet,
    ty: PacketType,
    at: Timestamp,
    difference: Delay,
    field: Vec<u8>,
    after_type: Packet,
    after_time: Packet,
    after_sack: Packet,
    read_type: PacketType,
    read_time: Timestamp,
    read_sack: Option<Vec<u8>>,
    extension: ExtensionType,
)
    requires
        call_ensures(Packet::set_type, (by_type, ty), ()),
        call_ensures(Packet::set_timestamp, (by_time, at), ()),
        call_ensures(Packet::set_timestamp_difference, (by_difference, difference), ()),
        call_ensures(Packet::set_sack, (by_sack, field), ()),
        after_type@ == final(by_type)@ && call_ensures(Packet::get_type, (&after_type,), read_type),
        after_time@ == final(by_time)@ && call_ensures(Packet::timestamp, (&after_time,), read_time),
        after_sack@ == final(by_sack)@ && call_ensures(Packet::get_sack, (&after_sack,), read_sack),
        call_ensures(Packet::get_extension_type, (&after_sack,), extension),
    ensures
        read_type == ty && read_time == at,
        final(by_difference)@.timestamp_difference == difference,
        read_sack is Some && read_sack->Some_0@ == field@,
        extension == ExtensionType::SelectiveAck,
        old(by_type)@ == (PacketView { ty: old(by_type)@.ty, ..final(by_type)@ }),
        old(by_time)@ == (PacketView { timestamp: old(by_time)@.timestamp, ..final(by_time)@ }),
        old(by_difference)@ == (PacketView {
            timestamp_difference: old(by_difference)@.timestamp_difference,
            ..final(by_difference)@
        }),
        old(by_sack)@ == (PacketView { sack: old(by_sack)@.sack, ..final(by_sack)@ }),
{
}

/// A packet without a selective acknowledgement has no extension, and a copy is the same packet.
pub proof fn copies_are_the_same(
    p: Packet,
    copy: Packet,
    read_sack: Option<Vec<u8>>,
    extension: ExtensionType,
)
    requires
        call_ensures(Packet::clone, (&p,), copy),
        call_ensures(Packet::get_sack, (&p,), read_sack),
        call_ensures(Packet::get_extension_type, (&p,), extension),
    ensures
        copy@ == p@,
        read_sack is None <==> p.sack is None,
        extension == ExtensionType::Absent <==> p.sack is None,
        read_sack is Some ==> read_sack->Some_0@ == p.sack->Some_0@,
{
}

/// In a table of peers the last state that was set for an address is found, those of other addresses
/// stay, and one that is only to be added leaves a peer that is there as it is.
pub proof fn table_finds_what_was_set(
    set: &mut PeerTable,
    added: &mut PeerTable,
    addr: PeerAddr,
    peer: UtpSocketState,
    after_set: PeerTable,
    after_added: PeerTable,
    other: PeerAddr,
    found: Option<&UtpSocketState>,
    found_added: Option<&UtpSocketState>,
    contained: bool,
)
    requires
        call_ensures(PeerTable::insert, (set, addr, peer), ()),
        call_ensures(PeerTable::insert_if_absent, (added, addr, peer), ()),
        after_set@ == final(set)@ && after_added@ == final(added)@,
        call_ensures(PeerTable::get, (&after_set, other), found),
        call_ensures(PeerTable::get, (&after_added, other), found_added),
        call_ensures(PeerTable::contains, (&after_set, other), contained),
    ensures
        contained == found is Some,
        other == addr ==> found is Some && found->Some_0@ == peer@,
        other != addr ==> (found is Some <==> old(set)@.contains_key(other)),
        other != addr && found is Some ==> found->Some_0@ == old(set)@[other],
        other == addr ==> found_added is Some,
        other == addr && !old(added)@.contains_key(addr) ==> found_added->Some_0@ == peer@,
        other != addr ==> (found_added is Some <==> old(added)@.contains_key(other)),
        old(added)@.contains_key(other) ==> found_added->Some_0@ == old(added)@[other],
{
}

/// A new table of peers is empty, and some peer is found in a table just if there is one.
pub proof fn some_peer_is_found(
    table: PeerTable,
    found: Option<&UtpSocketState>,
    addr: PeerAddr,
    other: PeerTable,
    first: Option<PeerAddr>,
)
    requires
        call_ensures(PeerTable::new, (), table),
        call_ensures(PeerTable::get, (&table, addr), found),
        call_ensures(PeerTable::first, (&other,), first),
    ensures
        found is None,
        first is Some ==> other@.contains_key(first->Some_0),
        first is None ==> !other@.contains_key(addr),
{
}

/// A peer in a table that is to be changed is the one with that address, and what becomes of it is
/// what the table holds afterwards; no other peer changes.
pub proof fn table_takes_over_changes(
    table: &mut PeerTable,
    addr: PeerAddr,
    peer: &mut UtpSocketState,
    other: PeerAddr,
)
    requires
        call_ensures(PeerTable::get_mut, (table, addr), peer),
        old(table)@.contains_key(addr),
    ensures
        old(peer)@ == old(table)@[addr],
        final(table)@[addr] == final(peer)@,
        final(table)@.contains_key(other) <==> old(table)@.contains_key(other),
        other != addr ==> final(table)@[other] == old(table)@[other],
{
}

/// What is said of a packet is said of its fields.
pub proof fn packet_view_shows_the_fields(p: Packet)
    ensures
        p@.ty == p.ty && p@.connection_id == p.connection_id && p@.wnd_size == p.wnd_size,
        p@.timestamp == p.timestamp && p@.timestamp_difference == p.timestamp_difference,
        p@.seq_nr == p.seq_nr && p@.ack_nr == p.ack_nr && p@.payload == p.payload@,
        p@.sack is Some <==> p.sack is Some,
        p@.sack is Some ==> p@.sack->Some_0 == p.sack->Some_0@,
{
}

/// What is said of a peer is said of its fields.
pub proof fn peer_view_shows_the_fields(peer: UtpSocketState, k: u16, i: int)
    ensures
        peer@.state == peer.state && peer@.connected_to == peer.connected_to,
        peer@.sender_id == peer.sender_id && peer@.seq_nr == peer.seq_nr && peer@.ack_nr
            == peer.ack_nr,
        peer@.last_acked == peer.last_acked && peer@.duplicate_ack_count
            == peer.duplicate_ack_count,
        peer@.last_acked_timestamp == peer.last_acked_timestamp && peer@.last_rollover
            == peer.last_rollover,
        peer@.rtt == peer.rtt && peer@.rtt_variance == peer.rtt_variance && peer@.their_delay
            == peer.their_delay,
        peer@.curr_window == peer.curr_window && peer@.cwnd == peer.cwnd
            && peer@.remote_wnd_size == peer.remote_wnd_size,
        peer@.max_retransmission_retries == peer.max_retransmission_retries
            && peer@.congestion_timeout == peer.congestion_timeout,
        peer@.base_delays == peer.base_delays@ && peer@.current_delays == peer.current_delays@,
        peer@.sent_window.contains_key(k) <==> peer.sent_window@.contains_key(k),
        peer.sent_window@.contains_key(k) ==> peer@.sent_window[k] == peer.sent_window@[k]@,
        peer@.out_of_order.contains_key(k) <==> peer.out_of_order@.contains_key(k),
        peer.out_of_order@.contains_key(k) ==> peer@.out_of_order[k] == peer.out_of_order@[k]@,
        peer@.incoming_buffer.len() == peer.incoming_buffer@.len(),
        0 <= i < peer.incoming_buffer@.len() ==> peer@.incoming_buffer[i]
            == peer.incoming_buffer@[i]@,
        peer@.unsent_queue.len() == peer.unsent_queue@.len(),
        0 <= i < peer.unsent_queue@.len() ==> peer@.unsent_queue[i] == peer.unsent_queue@[i]@,
{
}

/// What is said of a read buffer is said of the bytes that it holds.
pub proof fn buffer_view_shows_the_bytes(buffer: ReadBuffer)
    ensures
        buffer@ is Some <==> buffer.remaining is Some,
        buffer@ is Some ==> buffer@->Some_0 == contents(buffer.remaining->Some_0),
{
}

} // verus!
