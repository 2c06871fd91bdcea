//! What calls that take in datagrams do, in terms of what they are given and what comes out.
use crate::addr::PeerAddr;
use crate::connection_laws::reaction_is_determined;
use crate::error::{ParseError, SocketError};
use crate::packet::{Packet, PacketView};
use crate::reaction::{can_react, Reaction};
use crate::socket::{Received, UtpSocket, BUF_SIZE, RECV_BUF_SIZE};
use crate::state::{PeerView, UtpSocketState};
use crate::time::Timestamp;
use crate::wire::{encoding_length, trailing_bytes_are_payload};
use vstd::prelude::*;

verus! {

/// The sequence number in the header of a datagram.
pub open spec fn number_in(buf: Seq<u8>) -> int {
    buf[16] * 256 + buf[17]
}

/// A socket that does not drop packets loses none, whatever chance says. One that does loses those
/// of which chance says so, except the ones with the number 1.
pub proof fn only_a_dropping_socket_loses(
    socket: &mut UtpSocket,
    buf: &[u8],
    len: usize,
    addr: PeerAddr,
    lost: bool,
    now: Timestamp,
    r: Result<Received, ParseError>,
)
    requires
        call_ensures(UtpSocket::recv_packets_from, (socket, buf, len, addr, lost, now), r),
        len <= buf@.len(),
    ensures
        !old(socket).drop ==> !(r matches Ok(Received::Lost)),
        old(socket).drop && r is Ok ==> ((r matches Ok(Received::Lost)) <==> lost && number_in(buf@)
            != 1),
        r is Ok && !(r matches Ok(Received::Lost)) ==> r matches Ok(Received::Handled(_)),
        final(socket).id == old(socket).id && final(socket).drop == old(socket).drop,
{
}

/// A datagram is refused just if its bytes are no packet, for the same reason, whatever else is in
/// the buffer.
pub proof fn only_packets_are_received(
    socket: &mut UtpSocket,
    buf: &[u8],
    len: usize,
    addr: PeerAddr,
    lost: bool,
    now: Timestamp,
    r: Result<Received, ParseError>,
    datagram: &[u8],
    parsed: Result<Packet, ParseError>,
)
    requires
        call_ensures(UtpSocket::recv_packets_from, (socket, buf, len, addr, lost, now), r),
        call_ensures(UtpSocket::to_packet, (datagram,), parsed),
        datagram@ == buf@.subrange(0, len as int),
    ensures
        r is Err <==> parsed is Err,
        r is Err ==> r->Err_0 == parsed->Err_0,
{
}

/// A datagram that is refused or dropped leaves everything as it was, and one that is handled
/// leaves all peers but its own as they were.
pub proof fn receiving_changes_one_peer(
    socket: &mut UtpSocket,
    buf: &[u8],
    len: usize,
    addr: PeerAddr,
    lost: bool,
    now: Timestamp,
    r: Result<Received, ParseError>,
    other: PeerAddr,
)
    requires
        call_ensures(UtpSocket::recv_packets_from, (socket, buf, len, addr, lost, now), r),
    ensures
        r is Err || (r matches Ok(Received::Lost)) ==> final(socket)@ == old(socket)@,
        other != addr ==> (final(socket)@.contains_key(other) <==> old(socket)@.contains_key(
            other,
        )),
        other != addr ==> final(socket)@[other] == old(socket)@[other],
        r matches Ok(Received::Handled(_)) ==> final(socket)@.contains_key(addr),
{
}

/// A socket reads datagrams as packets are read.
pub proof fn sockets_read_packets(
    buf: &[u8],
    r: Result<Packet, ParseError>,
    read: Result<Packet, ParseError>,
)
    requires
        call_ensures(UtpSocket::to_packet, (buf,), r),
        call_ensures(Packet::try_from, (buf,), read),
    ensures
        r is Ok <==> read is Ok,
        r is Ok ==> r->Ok_0@ == read->Ok_0@,
        r is Err ==> r->Err_0 == read->Err_0,
{
}

/// The receive buffer holds just a header with a full packet's payload, or with a selective
/// acknowledgement of one word.
pub proof fn receive_buffer_fits_a_packet(p: Packet, r: Vec<u8>)
    requires
        call_ensures(Packet::to_bytes, (&p,), Some(r)),
    ensures
        p@.sack is None && p@.payload.len() == BUF_SIZE ==> r@.len() == RECV_BUF_SIZE,
        p@.payload.len() == 0 && (p@.sack matches Some(s) && s.len() == 4) ==> r@.len()
            == RECV_BUF_SIZE,
{
    encoding_length(p@);
}

/// The packet that is read out of the whole buffer is the one in the datagram, with the rest of the
/// buffer behind its payload.
pub proof fn buffer_is_read_as_a_whole(
    buf: &[u8],
    len: usize,
    datagram: &[u8],
    packet: Packet,
    whole: Result<Packet, ParseError>,
)
    requires
        len <= buf@.len(),
        datagram@ == buf@.subrange(0, len as int),
        call_ensures(UtpSocket::to_packet, (datagram,), Ok(packet)),
        call_ensures(UtpSocket::to_packet, (buf,), whole),
    ensures
        whole is Ok,
        whole->Ok_0@ == (PacketView {
            payload: packet@.payload + buf@.subrange(len as int, buf@.len() as int),
            ..packet@
        }),
{
    trailing_bytes_are_payload(datagram@, buf@);
}

/// A packet from a known peer is put behind what that peer has sent before and then handled: the
/// peer changes and answers just as when the packet is handled by itself, and a packet that is
/// refused is not answered.
pub proof fn receiving_is_handling(
    socket: &mut UtpSocket,
    buf: &[u8],
    len: usize,
    addr: PeerAddr,
    lost: bool,
    now: Timestamp,
    x: Reaction,
    packet: Packet,
    handler: UtpSocket,
    peer: &mut UtpSocketState,
    handled: Result<Reaction, SocketError>,
)
    requires
        len <= buf@.len(),
        call_ensures(
            UtpSocket::recv_packets_from,
            (socket, buf, len, addr, lost, now),
            Ok(Received::Handled(x)),
        ),
        call_ensures(UtpSocket::to_packet, (buf,), Ok(packet)),
        call_ensures(UtpSocket::handle_packet, (&handler, &packet, peer, now), handled),
        handler.id == old(socket).id,
        old(socket)@.contains_key(addr),
        old(peer)@ == (PeerView {
            incoming_buffer: old(socket)@[addr].incoming_buffer.push(packet@),
            ..old(socket)@[addr]
        }),
    ensures
        final(socket)@[addr] == final(peer)@,
        handled is Ok ==> x.lost@ == handled->Ok_0.lost@ && (x.reply is Some
            <==> handled->Ok_0.reply is Some) && (x.reply is Some ==> x.reply->Some_0@
            == handled->Ok_0.reply->Some_0@),
        handled is Err ==> x.reply is None && x.lost@.len() == 0,
{
    if handled is Ok {
        reaction_is_determined(handler.id, old(peer)@, packet@, now, Ok(x), handled);
    }
}

/// A packet from an unknown address makes a peer: a blank one that is named after the packet's
/// connection and knows its address. The packet is then put and handled as for a known peer.
pub proof fn unknown_peer_is_made(
    socket: &mut UtpSocket,
    buf: &[u8],
    len: usize,
    addr: PeerAddr,
    lost: bool,
    now: Timestamp,
    x: Reaction,
    packet: Packet,
    blank: UtpSocketState,
    handler: UtpSocket,
    peer: &mut UtpSocketState,
    handled: Result<Reaction, SocketError>,
)
    requires
        len <= buf@.len(),
        call_ensures(
            UtpSocket::recv_packets_from,
            (socket, buf, len, addr, lost, now),
            Ok(Received::Handled(x)),
        ),
        call_ensures(UtpSocket::to_packet, (buf,), Ok(packet)),
        call_ensures(UtpSocketState::new, (packet.connection_id,), blank),
        call_ensures(UtpSocket::handle_packet, (&handler, &packet, peer, now), handled),
        handler.id == old(socket).id,
        !old(socket)@.contains_key(addr),
        old(peer)@ == (PeerView {
            connected_to: Some(addr),
            incoming_buffer: seq![packet@],
            ..blank@
        }),
    ensures
        final(socket)@[addr] == final(peer)@,
        handled is Ok ==> x.lost@ == handled->Ok_0.lost@ && (x.reply is Some
            <==> handled->Ok_0.reply is Some) && (x.reply is Some ==> x.reply->Some_0@
            == handled->Ok_0.reply->Some_0@),
        handled is Err ==> x.reply is None && x.lost@.len() == 0,
{
    assert(Seq::<PacketView>::empty().push(packet@) =~= seq![packet@]);
    if handled is Ok {
        reaction_is_determined(handler.id, old(peer)@, packet@, now, Ok(x), handled);
    }
}

/// What is handed on is what has waited longest: in front of what still waits after the call it
/// makes up what waited before. Nothing is handed on just if nothing waits, and nothing else
/// changes.
pub proof fn packets_are_handed_on_in_order(
    socket: &mut UtpSocket,
    addr: PeerAddr,
    r: Option<Packet>,
    other: PeerAddr,
)
    requires
        call_ensures(UtpSocket::next_incoming, (socket, addr), r),
    ensures
        r is None <==> !old(socket)@.contains_key(addr) || old(socket)@[addr].incoming_buffer
            == Seq::<PacketView>::empty(),
        r is None ==> final(socket)@ == old(socket)@,
        r is Some ==> seq![r->Some_0@] + final(socket)@[addr].incoming_buffer == old(socket)@[addr].incoming_buffer,
        r is Some ==> final(socket)@[addr] == (PeerView {
            incoming_buffer: final(socket)@[addr].incoming_buffer,
            ..old(socket)@[addr]
        }),
        final(socket)@.contains_key(other) <==> old(socket)@.contains_key(other),
        other != addr ==> final(socket)@[other] == old(socket)@[other],
        final(socket).id == old(socket).id && final(socket).drop == old(socket).drop,
{
    let waiting = old(socket)@[addr].incoming_buffer;
    if r is Some {
        assert(seq![r->Some_0@] + final(socket)@[addr].incoming_buffer =~= waiting);
    } else if waiting.len() == 0 {
        assert(waiting =~= Seq::<PacketView>::empty());
    }
}

/// A datagram can be received if it is no packet, if it is going to be dropped, or if the peer that
/// it is for, a blank one for an unknown address, can handle the packet; and not otherwise.
pub proof fn datagrams_that_can_be_received(
    socket: UtpSocket,
    buf: &[u8],
    len: usize,
    addr: PeerAddr,
    lost: bool,
    receivable: bool,
    datagram: &[u8],
    parsed: Result<Packet, ParseError>,
    packet: Packet,
    blank: UtpSocketState,
    peer: UtpSocketState,
    admissible: bool,
)
    requires
        len <= buf@.len(),
        call_ensures(UtpSocket::can_receive, (&socket, buf, len, addr, lost), receivable),
        datagram@ == buf@.subrange(0, len as int),
        call_ensures(UtpSocket::to_packet, (datagram,), parsed),
        parsed is Ok ==> call_ensures(UtpSocket::to_packet, (buf,), Ok(packet)),
        call_ensures(UtpSocketState::new, (packet.connection_id,), blank),
        call_ensures(can_react, (&packet, &peer), admissible),
        socket@.contains_key(addr) ==> peer@ == socket@[addr],
        !socket@.contains_key(addr) ==> peer@ == blank@,
    ensures
        receivable <==> parsed is Err || (socket.drop && lost && number_in(buf@) != 1)
            || admissible,
{
    if parsed is Ok {
        trailing_bytes_are_payload(datagram@, buf@);
        assert(number_in(buf@) == packet@.seq_nr);
    }
}

} // verus!
