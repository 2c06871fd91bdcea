//! What a call that handles a `Data` packet does, in terms of what it is given and what comes out.
use crate::error::SocketError;
use crate::laws::{
    after_all_data, all_admissible_data, all_data_arrive, data_adds_one_arrival, has_received,
    holds_number, run_end_is_maximal, waits_beyond_gap,
};
use crate::packet::{Packet, PacketType, PacketView};
use crate::reaction::{is_admissible, is_open, Reaction};
use crate::selective_ack::bit;
use crate::socket::UtpSocket;
use crate::state::{PeerView, UtpSocketState};
use crate::time::Timestamp;
use vstd::prelude::*;

verus! {

/// A `Data` packet that has been acknowledged before changes nothing.
pub proof fn old_data_changes_nothing(
    socket: UtpSocket,
    packet: Packet,
    peer: &mut UtpSocketState,
    now: Timestamp,
    r: Result<Reaction, SocketError>,
)
    requires
        call_ensures(UtpSocket::handle_packet, (&socket, &packet, peer, now), r),
        is_open(old(peer)@.state),
        packet@.ty == PacketType::Data,
        packet@.seq_nr <= old(peer)@.last_acked,
    ensures
        final(peer)@ == old(peer)@,
{
}

/// A `Data` packet ahead of a gap is put with those that wait there, in place of one with the same
/// number. Nothing else changes; in particular nothing more is acknowledged.
pub proof fn early_data_waits(
    socket: UtpSocket,
    packet: Packet,
    peer: &mut UtpSocketState,
    now: Timestamp,
    r: Result<Reaction, SocketError>,
)
    requires
        call_ensures(UtpSocket::handle_packet, (&socket, &packet, peer, now), r),
        is_open(old(peer)@.state),
        packet@.ty == PacketType::Data,
        packet@.seq_nr > old(peer)@.last_acked + 1,
    ensures
        final(peer)@ == (PeerView { out_of_order: final(peer)@.out_of_order, ..old(peer)@ }),
        final(peer)@.out_of_order.contains_key(packet@.seq_nr),
        final(peer)@.out_of_order[packet@.seq_nr] == packet@,
        forall|k: u16|
            k != packet@.seq_nr ==> (#[trigger] final(peer)@.out_of_order.contains_key(k)
                <==> old(peer)@.out_of_order.contains_key(k)),
        forall|k: u16|
            k != packet@.seq_nr && #[trigger] old(peer)@.out_of_order.contains_key(k)
                ==> final(peer)@.out_of_order[k] == old(peer)@.out_of_order[k],
{
}

/// A `Data` packet that comes next is acknowledged together with the unbroken run of early packets
/// behind it, which wait no longer; all other early packets go on waiting as they were. The
/// run ends only before a number that has not arrived, unless an early packet that is not beyond
/// this one stands in the way. The sequence number for answers goes up by one, and nothing else
/// changes.
pub proof fn next_data_closes_the_gap(
    socket: UtpSocket,
    packet: Packet,
    peer: &mut UtpSocketState,
    now: Timestamp,
    r: Result<Reaction, SocketError>,
)
    requires
        call_ensures(UtpSocket::handle_packet, (&socket, &packet, peer, now), r),
        is_open(old(peer)@.state),
        packet@.ty == PacketType::Data,
        packet@.seq_nr == old(peer)@.last_acked + 1,
        old(peer)@.seq_nr < u16::MAX,
    ensures
        final(peer)@ == (PeerView {
            last_acked: final(peer)@.last_acked,
            seq_nr: final(peer)@.seq_nr,
            out_of_order: final(peer)@.out_of_order,
            ..old(peer)@
        }),
        final(peer)@.seq_nr == old(peer)@.seq_nr + 1,
        packet@.seq_nr <= final(peer)@.last_acked,
        forall|k: u16|
            packet@.seq_nr < k <= final(peer)@.last_acked
                ==> #[trigger] old(peer)@.out_of_order.contains_key(k),
        forall|k: u16| #[trigger]
            final(peer)@.out_of_order.contains_key(k) <==> old(peer)@.out_of_order.contains_key(k)
                && !(packet@.seq_nr < k <= final(peer)@.last_acked),
        forall|k: u16| #[trigger]
            final(peer)@.out_of_order.contains_key(k) ==> final(peer)@.out_of_order[k]
                == old(peer)@.out_of_order[k],
        (exists|k: u16| #[trigger]
            old(peer)@.out_of_order.contains_key(k) && k <= packet@.seq_nr)
            ==> final(peer)@.last_acked == packet@.seq_nr,
        (forall|k: u16| #[trigger]
            old(peer)@.out_of_order.contains_key(k) ==> k > packet@.seq_nr)
            && final(peer)@.last_acked < u16::MAX ==> !old(peer)@.out_of_order.contains_key(
            (final(peer)@.last_acked + 1) as u16,
        ),
{
    let received = old(peer)@.out_of_order.dom();
    run_end_is_maximal(received, packet@.seq_nr as int);
    assert forall|k: u16| packet@.seq_nr < k <= final(peer)@.last_acked implies #[trigger] old(peer)@.out_of_order.contains_key(k) by {
        assert(received.contains(k));
    }
    if exists|k: u16| #[trigger]
        old(peer)@.out_of_order.contains_key(k) && k <= packet@.seq_nr {
        let k = choose|k: u16| #[trigger]
            old(peer)@.out_of_order.contains_key(k) && k <= packet@.seq_nr;
        assert(received.contains(k));
    } else {
        assert forall|k: u16| #[trigger] received.contains(k) implies k > packet@.seq_nr by {
            assert(old(peer)@.out_of_order.contains_key(k));
        }
    }
}

/// Every `Data` packet is answered with one `Ack` of this socket without payload, which repeats
/// where the peer stands after the packet, says when it was sent and how far that is from the
/// packet's own time, and carries a selective acknowledgement just if the packet came ahead
/// of a gap. Nothing is reported lost.
pub proof fn data_is_answered(
    socket: UtpSocket,
    packet: Packet,
    peer: &mut UtpSocketState,
    now: Timestamp,
    r: Result<Reaction, SocketError>,
)
    requires
        call_ensures(UtpSocket::handle_packet, (&socket, &packet, peer, now), r),
        is_open(old(peer)@.state),
        packet@.ty == PacketType::Data,
    ensures
        r is Ok,
        r->Ok_0.lost@ == Seq::<u16>::empty(),
        r->Ok_0.reply is Some,
        ({
            let p = r->Ok_0.reply->Some_0@;
            &&& p.ty == PacketType::Ack
            &&& p.connection_id == socket.id
            &&& p.ack_nr == final(peer)@.last_acked
            &&& p.seq_nr == final(peer)@.seq_nr
            &&& p.timestamp == now
            &&& now.0 >= packet@.timestamp.0 ==> packet@.timestamp.0 + p.timestamp_difference.0
                == now.0
            &&& now.0 <= packet@.timestamp.0 ==> now.0 + p.timestamp_difference.0
                == packet@.timestamp.0
            &&& p.wnd_size == 0
            &&& p.payload == Seq::<u8>::empty()
            &&& p.sack is Some <==> packet@.seq_nr > old(peer)@.last_acked + 1
        }),
{
    assert(r->Ok_0.lost@ =~= Seq::<u16>::empty());
}

/// The selective acknowledgement that answers a packet ahead of a gap has the bit for each number
/// beyond the last one in order set just if that number waits, has no other bit set, and
/// consists of as many words of 32 bits as reach to the last packet that waits.
pub proof fn early_data_is_marked(
    socket: UtpSocket,
    packet: Packet,
    peer: &mut UtpSocketState,
    now: Timestamp,
    r: Result<Reaction, SocketError>,
    k: u16,
    n: int,
)
    requires
        call_ensures(UtpSocket::handle_packet, (&socket, &packet, peer, now), r),
        is_open(old(peer)@.state),
        packet@.ty == PacketType::Data,
        packet@.seq_nr > old(peer)@.last_acked + 1,
        k > old(peer)@.last_acked,
        0 <= n,
    ensures
        ({
            let last = old(peer)@.last_acked;
            let s = r->Ok_0.reply->Some_0@.sack->Some_0;
            let i = k - last - 1;
            let waits = old(peer)@.out_of_order.contains_key(k) || k == packet@.seq_nr;
            &&& s.len() % 4 == 0
            &&& waits ==> i / 8 < s.len() && (s[i / 8] >> ((i % 8) as u8)) & 1u8 == 1u8
            &&& !waits && i / 8 < s.len() ==> (s[i / 8] >> ((i % 8) as u8)) & 1u8 != 1u8
            &&& last + 1 + n > u16::MAX && n / 8 < s.len() ==> (s[n / 8] >> ((n % 8) as u8)) & 1u8
                != 1u8
            &&& exists|j: u16|
                #![trigger final(peer)@.out_of_order.contains_key(j)]
                (old(peer)@.out_of_order.contains_key(j) || j == packet@.seq_nr) && j > last && 8
                    * s.len() <= j - last - 1 + 32
        }),
{
    let last = old(peer)@.last_acked;
    let s = r->Ok_0.reply->Some_0@.sack->Some_0;
    let i = k - last - 1;
    let received = final(peer)@.out_of_order.dom();
    assert(received.contains(packet@.seq_nr));
    assert(received.contains(k) <==> old(peer)@.out_of_order.contains_key(k) || k
        == packet@.seq_nr);
    if i / 8 < s.len() {
        assert(bit(s, i) == ((s[i / 8] >> ((i % 8) as u8)) & 1u8 == 1u8));
    }
    if n / 8 < s.len() {
        assert(bit(s, n) == ((s[n / 8] >> ((n % 8) as u8)) & 1u8 == 1u8));
    }
    let j = choose|j: u16|
        #![trigger received.contains(j)]
        received.contains(j) && j > last && j - last - 1 >= 8 * (s.len() - 4);
    assert(old(peer)@.out_of_order.contains_key(j) || j == packet@.seq_nr);
    assert(final(peer)@.out_of_order.contains_key(j));
}

/// The number that the answer to a `Data` packet acknowledges is right, be the packet old, next or
/// ahead of a gap: all packets up to it have arrived, and the one after it has not.
pub proof fn acknowledged_number_has_arrived(
    socket: UtpSocket,
    packet: Packet,
    peer: &mut UtpSocketState,
    now: Timestamp,
    r: Result<Reaction, SocketError>,
    k: u16,
)
    requires
        call_ensures(UtpSocket::handle_packet, (&socket, &packet, peer, now), r),
        is_open(old(peer)@.state),
        packet@.ty == PacketType::Data,
        is_admissible(old(peer)@, packet@),
        waits_beyond_gap(old(peer)@),
    ensures
        r is Ok,
        r->Ok_0.reply is Some,
        ({
            let ack_nr = r->Ok_0.reply->Some_0@.ack_nr;
            let had = k <= old(peer)@.last_acked || old(peer)@.out_of_order.contains_key(k);
            &&& ack_nr >= old(peer)@.last_acked
            &&& k <= ack_nr ==> had || k == packet@.seq_nr
            &&& k <= ack_nr ==> has_received(final(peer)@, k)
            &&& k == ack_nr + 1 ==> !had && k != packet@.seq_nr
            &&& k == ack_nr + 1 ==> !has_received(final(peer)@, k)
        }),
{
    data_adds_one_arrival(old(peer)@, packet@, now);
    let next = final(peer)@;
    assert(has_received(next, k) <==> has_received(old(peer)@, k) || k == packet@.seq_nr);
}

/// Whatever `Data` packets have come since, in whatever order and however often, the answer to the
/// last of them acknowledges just as far as numbers have arrived without a gap.
pub proof fn acknowledgement_follows_the_arrivals(
    socket: UtpSocket,
    packet: Packet,
    peer: &mut UtpSocketState,
    now: Timestamp,
    r: Result<Reaction, SocketError>,
    start: PeerView,
    packets: Seq<PacketView>,
    k: u16,
)
    requires
        call_ensures(UtpSocket::handle_packet, (&socket, &packet, peer, now), r),
        is_open(start.state),
        waits_beyond_gap(start),
        packets.len() > 0,
        all_admissible_data(start, packets),
        old(peer)@ == after_all_data(start, packets.drop_last()),
        packet@ == packets.last(),
    ensures
        r is Ok,
        r->Ok_0.reply is Some,
        ({
            let ack_nr = r->Ok_0.reply->Some_0@.ack_nr;
            let has = k <= start.last_acked || start.out_of_order.contains_key(k) || exists|i: int|
                0 <= i < packets.len() && (#[trigger] packets[i]).seq_nr == k;
            &&& k <= ack_nr ==> has
            &&& k == ack_nr + 1 ==> !has
        }),
{
    all_data_arrive(start, packets.drop_last());
    all_data_arrive(start, packets);
    acknowledged_number_has_arrived(socket, packet, peer, now, r, k);
    assert(has_received(after_all_data(start, packets), k) <==> has_received(start, k)
        || holds_number(packets, k));
}

/// A `Data` packet that comes a second time in a row changes nothing more, and is answered with the
/// same acknowledgement.
pub proof fn data_again_is_answered_alike(
    socket: UtpSocket,
    packet: Packet,
    peer: &mut UtpSocketState,
    now: Timestamp,
    r: Result<Reaction, SocketError>,
    peer_then: &mut UtpSocketState,
    then: Timestamp,
    r_then: Result<Reaction, SocketError>,
)
    requires
        call_ensures(UtpSocket::handle_packet, (&socket, &packet, peer, now), r),
        call_ensures(UtpSocket::handle_packet, (&socket, &packet, peer_then, then), r_then),
        old(peer_then)@ == final(peer)@,
        is_open(old(peer)@.state),
        packet@.ty == PacketType::Data,
    ensures
        final(peer_then)@ == final(peer)@,
        r is Ok && r_then is Ok,
        r->Ok_0.reply is Some && r_then->Ok_0.reply is Some,
        r_then->Ok_0.reply->Some_0@.ack_nr == r->Ok_0.reply->Some_0@.ack_nr,
{
    let first = old(peer)@;
    if packet@.seq_nr == first.last_acked + 1 {
        run_end_is_maximal(first.out_of_order.dom(), packet@.seq_nr as int);
    } else if packet@.seq_nr > first.last_acked {
        assert(final(peer_then)@.out_of_order =~= final(peer)@.out_of_order);
    }
}

} // verus!
