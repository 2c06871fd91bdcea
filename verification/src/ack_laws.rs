//! What calls that handle `Ack` and `State` packets do, in terms of what they are given and what
//! comes out.
use crate::error::SocketError;
use crate::laws::after_all_packets;
use crate::packet::{Packet, PacketType, PacketView};
use crate::reaction::{is_admissible, is_open, Reaction};
use crate::selective_ack::{bit, is_lost};
use crate::socket::UtpSocket;
use crate::state::{PeerView, SocketState, UtpSocketState};
use crate::time::Timestamp;
use vstd::prelude::*;

verus! {

/// Each further `Ack` of the last acknowledged packet raises the count of them by one, whatever it
/// was, and changes nothing else.
pub proof fn repeated_ack_is_counted(
    socket: UtpSocket,
    packet: Packet,
    peer: &mut UtpSocketState,
    now: Timestamp,
    r: Result<Reaction, SocketError>,
)
    requires
        call_ensures(UtpSocket::handle_packet, (&socket, &packet, peer, now), r),
        is_open(old(peer)@.state),
        packet@.ty == PacketType::Ack,
        packet@.ack_nr == old(peer)@.last_acked,
        old(peer)@.duplicate_ack_count < u16::MAX,
    ensures
        final(peer)@.duplicate_ack_count == old(peer)@.duplicate_ack_count + 1,
        final(peer)@ == (PeerView {
            duplicate_ack_count: final(peer)@.duplicate_ack_count,
            ..old(peer)@
        }),
{
}

/// The `Ack` of the packet after the last acknowledged one takes just that packet out of the
/// window, notes the time, and starts the count anew with itself.
pub proof fn next_ack_clears_its_packet(
    socket: UtpSocket,
    packet: Packet,
    peer: &mut UtpSocketState,
    now: Timestamp,
    r: Result<Reaction, SocketError>,
)
    requires
        call_ensures(UtpSocket::handle_packet, (&socket, &packet, peer, now), r),
        is_open(old(peer)@.state),
        packet@.ty == PacketType::Ack,
        packet@.ack_nr == old(peer)@.last_acked + 1,
    ensures
        final(peer)@.last_acked == old(peer)@.last_acked + 1,
        final(peer)@.last_acked_timestamp == now,
        final(peer)@.duplicate_ack_count == 1,
        !final(peer)@.sent_window.contains_key(packet@.ack_nr),
        forall|k: u16|
            k != packet@.ack_nr ==> (#[trigger] final(peer)@.sent_window.contains_key(k)
                <==> old(peer)@.sent_window.contains_key(k)),
        forall|k: u16| #[trigger]
            final(peer)@.sent_window.contains_key(k) ==> final(peer)@.sent_window[k] == old(peer)@.sent_window[k],
        final(peer)@ == (PeerView {
            last_acked: final(peer)@.last_acked,
            last_acked_timestamp: final(peer)@.last_acked_timestamp,
            duplicate_ack_count: final(peer)@.duplicate_ack_count,
            sent_window: final(peer)@.sent_window,
            ..old(peer)@
        }),
{
}

/// An `Ack` of any other packet changes nothing.
pub proof fn other_acks_change_nothing(
    socket: UtpSocket,
    packet: Packet,
    peer: &mut UtpSocketState,
    now: Timestamp,
    r: Result<Reaction, SocketError>,
)
    requires
        call_ensures(UtpSocket::handle_packet, (&socket, &packet, peer, now), r),
        is_open(old(peer)@.state),
        packet@.ty == PacketType::Ack,
        packet@.ack_nr != old(peer)@.last_acked,
        packet@.ack_nr != old(peer)@.last_acked + 1,
    ensures
        final(peer)@ == old(peer)@,
{
}

/// An `Ack` is answered just while the count of acknowledgements of one packet is three or more,
/// and then with the packet after the acknowledged one as it stands in the window.
pub proof fn ack_is_answered(
    socket: UtpSocket,
    packet: Packet,
    peer: &mut UtpSocketState,
    now: Timestamp,
    r: Result<Reaction, SocketError>,
)
    requires
        call_ensures(UtpSocket::handle_packet, (&socket, &packet, peer, now), r),
        is_open(old(peer)@.state),
        packet@.ty == PacketType::Ack,
        is_admissible(old(peer)@, packet@),
    ensures
        r is Ok,
        r->Ok_0.reply is Some <==> final(peer)@.duplicate_ack_count >= 3,
        r->Ok_0.reply is Some ==> packet@.ack_nr < u16::MAX && old(peer)@.sent_window.contains_key(
            (packet@.ack_nr + 1) as u16,
        ) && r->Ok_0.reply->Some_0@ == old(peer)@.sent_window[(packet@.ack_nr + 1) as u16],
{
}

/// What an `Ack` reports as lost: without a selective acknowledgement nothing; with one, in
/// increasing order, just the numbers after the acknowledged one and below the next one to be
/// sent whose bit is there and is clear.
pub proof fn ack_reports_what_is_lost(
    socket: UtpSocket,
    packet: Packet,
    peer: &mut UtpSocketState,
    now: Timestamp,
    r: Result<Reaction, SocketError>,
    n: u16,
)
    requires
        call_ensures(UtpSocket::handle_packet, (&socket, &packet, peer, now), r),
        is_open(old(peer)@.state),
        packet@.ty == PacketType::Ack,
    ensures
        r is Ok,
        packet@.sack is None ==> r->Ok_0.lost@ == Seq::<u16>::empty(),
        forall|i: int, j: int|
            0 <= i < j < r->Ok_0.lost@.len() ==> r->Ok_0.lost@[i] < r->Ok_0.lost@[j],
        packet@.sack matches Some(s) ==> (r->Ok_0.lost@.contains(n) <==> {
            let i = n - packet@.ack_nr - 1;
            packet@.ack_nr < n < old(peer)@.seq_nr && i / 8 < s.len() && (s[i / 8] >> ((i
                % 8) as u8)) & 1u8 != 1u8
        }),
{
    let lost = r->Ok_0.lost@;
    if packet@.sack is None {
        assert(lost =~= Seq::<u16>::empty());
    } else {
        let s = packet@.sack->Some_0;
        let i = n - packet@.ack_nr - 1;
        assert(lost.contains(n) <==> is_lost(s, packet@.ack_nr, old(peer)@.seq_nr, n));
        assert(i / 8 < s.len() <==> i < 8 * s.len());
        assert(bit(s, i) == ((s[i / 8] >> ((i % 8) as u8)) & 1u8 == 1u8));
    }
}

/// Three further `Ack`s of the last acknowledged packet, from whatever count and at whatever times,
/// have the packet after it sent again, at the latest with the third. Each of them raises the
/// count by one.
pub proof fn three_repeated_acks_resend(
    socket: UtpSocket,
    first: Packet,
    second: Packet,
    third: Packet,
    peer_1: &mut UtpSocketState,
    peer_2: &mut UtpSocketState,
    peer_3: &mut UtpSocketState,
    times: Seq<Timestamp>,
    r_1: Result<Reaction, SocketError>,
    r_2: Result<Reaction, SocketError>,
    r_3: Result<Reaction, SocketError>,
)
    requires
        call_ensures(UtpSocket::handle_packet, (&socket, &first, peer_1, times[0]), r_1),
        call_ensures(UtpSocket::handle_packet, (&socket, &second, peer_2, times[1]), r_2),
        call_ensures(UtpSocket::handle_packet, (&socket, &third, peer_3, times[2]), r_3),
        old(peer_2)@ == final(peer_1)@,
        old(peer_3)@ == final(peer_2)@,
        is_open(old(peer_1)@.state),
        old(peer_1)@.last_acked < u16::MAX,
        old(peer_1)@.sent_window.contains_key((old(peer_1)@.last_acked + 1) as u16),
        old(peer_1)@.duplicate_ack_count + 3 <= u16::MAX,
        first@.ty == PacketType::Ack && first@.ack_nr == old(peer_1)@.last_acked,
        second@.ty == PacketType::Ack && second@.ack_nr == old(peer_1)@.last_acked,
        third@.ty == PacketType::Ack && third@.ack_nr == old(peer_1)@.last_acked,
    ensures
        final(peer_1)@.duplicate_ack_count == old(peer_1)@.duplicate_ack_count + 1,
        final(peer_2)@.duplicate_ack_count == old(peer_1)@.duplicate_ack_count + 2,
        final(peer_3)@.duplicate_ack_count == old(peer_1)@.duplicate_ack_count + 3,
        final(peer_3)@.sent_window == old(peer_1)@.sent_window,
        r_1 is Ok && r_2 is Ok && r_3 is Ok,
        r_1->Ok_0.reply is Some <==> old(peer_1)@.duplicate_ack_count >= 2,
        r_2->Ok_0.reply is Some <==> old(peer_1)@.duplicate_ack_count >= 1,
        r_3->Ok_0.reply is Some,
        r_1->Ok_0.reply is Some ==> r_1->Ok_0.reply->Some_0@ == old(peer_1)@.sent_window[(old(peer_1)@.last_acked + 1) as u16],
        r_2->Ok_0.reply is Some ==> r_2->Ok_0.reply->Some_0@ == old(peer_1)@.sent_window[(old(peer_1)@.last_acked + 1) as u16],
        r_3->Ok_0.reply->Some_0@ == old(peer_1)@.sent_window[(old(peer_1)@.last_acked + 1) as u16],
{
}

/// However often the last acknowledged packet is acknowledged again, the count goes up by as much,
/// and nothing else changes.
pub proof fn repeated_acks_add_up(peer: PeerView, packets: Seq<PacketView>, times: Seq<Timestamp>)
    requires
        is_open(peer.state),
        peer.duplicate_ack_count + packets.len() <= u16::MAX,
        forall|i: int|
            0 <= i < packets.len() ==> (#[trigger] packets[i]).ty == PacketType::Ack
                && packets[i].ack_nr == peer.last_acked,
    ensures
        after_all_packets(peer, packets, times) == (PeerView {
            duplicate_ack_count: (peer.duplicate_ack_count + packets.len()) as u16,
            ..peer
        }),
    decreases packets.len(),
{
    if packets.len() > 0 {
        let rest = packets.drop_last();
        assert forall|i: int| 0 <= i < rest.len() implies (#[trigger] rest[i]).ty
            == PacketType::Ack && rest[i].ack_nr == peer.last_acked by {
            assert(rest[i] == packets[i]);
        }
        repeated_acks_add_up(peer, rest, times);
        assert(packets[packets.len() - 1].ack_nr == peer.last_acked);
    }
}

/// A `State` packet during the exchange of payload that repeats the last acknowledged number is
/// counted; one with another number sets it, notes the time and starts the count anew. Nothing
/// else changes; in particular the window stays as it is.
pub proof fn state_packet_is_counted(
    socket: UtpSocket,
    packet: Packet,
    peer: &mut UtpSocketState,
    now: Timestamp,
    r: Result<Reaction, SocketError>,
)
    requires
        call_ensures(UtpSocket::handle_packet, (&socket, &packet, peer, now), r),
        old(peer)@.state == SocketState::Connected,
        packet@.ty == PacketType::State,
        is_admissible(old(peer)@, packet@),
    ensures
        final(peer)@.last_acked == packet@.ack_nr,
        packet@.ack_nr == old(peer)@.last_acked ==> final(peer)@.duplicate_ack_count == old(peer)@.duplicate_ack_count + 1 && final(peer)@.last_acked_timestamp == old(peer)@.last_acked_timestamp,
        packet@.ack_nr != old(peer)@.last_acked ==> final(peer)@.duplicate_ack_count == 1 && final(peer)@.last_acked_timestamp == now,
        final(peer)@ == (PeerView {
            last_acked: final(peer)@.last_acked,
            last_acked_timestamp: final(peer)@.last_acked_timestamp,
            duplicate_ack_count: final(peer)@.duplicate_ack_count,
            ..old(peer)@
        }),
{
}

/// A `State` packet during the exchange of payload is answered just if something is in the window
/// or it is the third of its kind, and then with the packet before the acknowledged one as it
/// stands in the window.
pub proof fn state_packet_is_answered(
    socket: UtpSocket,
    packet: Packet,
    peer: &mut UtpSocketState,
    now: Timestamp,
    r: Result<Reaction, SocketError>,
)
    requires
        call_ensures(UtpSocket::handle_packet, (&socket, &packet, peer, now), r),
        old(peer)@.state == SocketState::Connected,
        packet@.ty == PacketType::State,
        is_admissible(old(peer)@, packet@),
    ensures
        r is Ok,
        r->Ok_0.lost@ == Seq::<u16>::empty(),
        r->Ok_0.reply is Some <==> ((exists|k: u16| #[trigger]
            old(peer)@.sent_window.contains_key(k)) || final(peer)@.duplicate_ack_count == 3),
        r->Ok_0.reply is Some ==> packet@.ack_nr > 0 && old(peer)@.sent_window.contains_key(
            (packet@.ack_nr - 1) as u16,
        ) && r->Ok_0.reply->Some_0@ == old(peer)@.sent_window[(packet@.ack_nr - 1) as u16],
{
    let window = old(peer)@.sent_window;
    assert(r->Ok_0.lost@ =~= Seq::<u16>::empty());
    if window.is_empty() {
        assert forall|k: u16| !#[trigger] window.contains_key(k) by {
            assert(!window.dom().contains(k));
        }
    } else {
        if forall|k: u16| !#[trigger] window.contains_key(k) {
            assert(window =~= Map::<u16, PacketView>::empty());
        }
    }
}

} // verus!
