//! What calls that open, close or refuse a connection do, in terms of what they are given and what
//! comes out.
use crate::addr::PeerAddr;
use crate::error::SocketError;
use crate::packet::{Packet, PacketType, PacketView};
use crate::reaction::{
    after_packet, can_react, is_open, is_reaction, packet_type_name, prepare_reply, react,
    state_name, Reaction,
};
use crate::selective_ack::{can_read, is_lost_list, selective_ack_is_unique};
use crate::socket::UtpSocket;
use crate::state::{PeerView, SocketState, UtpSocketState};
use crate::time::Timestamp;
use vstd::prelude::*;

verus! {

/// An answer names the socket that gives it, has the type and the numbers that it is given, says
/// when it was sent and how far that is from the time of the packet that it answers, and
/// carries nothing else.
pub proof fn answers_say_what_they_are_given(
    socket: UtpSocket,
    id: u16,
    packet: Packet,
    ty: PacketType,
    seq_nr: u16,
    ack_nr: u16,
    now: Timestamp,
    p: Packet,
)
    requires
        call_ensures(UtpSocket::prepare_reply, (&socket, &packet, ty, seq_nr, ack_nr, now), p)
            && socket.id == id || call_ensures(
            prepare_reply,
            (id, &packet, ty, seq_nr, ack_nr, now),
            p,
        ),
    ensures
        p@.ty == ty,
        p@.connection_id == id,
        p@.seq_nr == seq_nr,
        p@.ack_nr == ack_nr,
        p@.timestamp == now,
        now.0 >= packet@.timestamp.0 ==> packet@.timestamp.0 + p@.timestamp_difference.0 == now.0,
        now.0 <= packet@.timestamp.0 ==> now.0 + p@.timestamp_difference.0 == packet@.timestamp.0,
        p@.wnd_size == 0,
        p@.sack is None,
        p@.payload == Seq::<u8>::empty(),
{
}

/// A `Syn` opens a new connection: its number is taken as acknowledged, and a `State` packet
/// answers it. Nothing else changes.
pub proof fn syn_opens_a_new_connection(
    socket: UtpSocket,
    packet: Packet,
    peer: &mut UtpSocketState,
    now: Timestamp,
    r: Result<Reaction, SocketError>,
    p: Packet,
)
    requires
        call_ensures(UtpSocket::handle_packet, (&socket, &packet, peer, now), r),
        call_ensures(
            UtpSocket::prepare_reply,
            (&socket, &packet, PacketType::State, packet.seq_nr, packet.seq_nr, now),
            p,
        ),
        old(peer)@.state == SocketState::New,
        packet@.ty == PacketType::Syn,
    ensures
        final(peer)@.state == SocketState::Connected,
        final(peer)@.last_acked == packet@.seq_nr,
        final(peer)@ == (PeerView {
            state: final(peer)@.state,
            last_acked: final(peer)@.last_acked,
            ..old(peer)@
        }),
        r is Ok && r->Ok_0.reply is Some,
        r->Ok_0.lost@.len() == 0,
        r->Ok_0.reply->Some_0@ == p@,
{
}

/// A `Syn` in any other state changes nothing and is answered with a `Reset`.
pub proof fn unexpected_syn_is_reset(
    socket: UtpSocket,
    packet: Packet,
    peer: &mut UtpSocketState,
    now: Timestamp,
    r: Result<Reaction, SocketError>,
    p: Packet,
)
    requires
        call_ensures(UtpSocket::handle_packet, (&socket, &packet, peer, now), r),
        call_ensures(
            UtpSocket::prepare_reply,
            (&socket, &packet, PacketType::Reset, packet.seq_nr, packet.seq_nr, now),
            p,
        ),
        old(peer)@.state != SocketState::New,
        packet@.ty == PacketType::Syn,
    ensures
        final(peer)@ == old(peer)@,
        r is Ok && r->Ok_0.reply is Some,
        r->Ok_0.lost@.len() == 0,
        r->Ok_0.reply->Some_0@ == p@,
{
}

/// The `State` packet that answers a `Syn` connects: its numbers are taken over, the packet with
/// its number leaves the window, and the sequence number goes up by one in the circle of numbers.
/// It is not answered, and nothing else changes.
pub proof fn answer_to_the_syn_connects(
    socket: UtpSocket,
    packet: Packet,
    peer: &mut UtpSocketState,
    now: Timestamp,
    r: Result<Reaction, SocketError>,
)
    requires
        call_ensures(UtpSocket::handle_packet, (&socket, &packet, peer, now), r),
        old(peer)@.state == SocketState::SynSent,
        packet@.ty == PacketType::State,
    ensures
        final(peer)@.state == SocketState::Connected,
        final(peer)@.ack_nr == packet@.seq_nr,
        final(peer)@.last_acked == packet@.ack_nr,
        final(peer)@.last_acked_timestamp == now,
        old(peer)@.seq_nr < u16::MAX ==> final(peer)@.seq_nr == old(peer)@.seq_nr + 1,
        old(peer)@.seq_nr == u16::MAX ==> final(peer)@.seq_nr == 0,
        !final(peer)@.sent_window.contains_key(packet@.seq_nr),
        forall|k: u16|
            k != packet@.seq_nr ==> (#[trigger] final(peer)@.sent_window.contains_key(k)
                <==> old(peer)@.sent_window.contains_key(k)),
        forall|k: u16| #[trigger]
            final(peer)@.sent_window.contains_key(k) ==> final(peer)@.sent_window[k] == old(peer)@.sent_window[k],
        final(peer)@ == (PeerView {
            state: final(peer)@.state,
            ack_nr: final(peer)@.ack_nr,
            last_acked: final(peer)@.last_acked,
            last_acked_timestamp: final(peer)@.last_acked_timestamp,
            seq_nr: final(peer)@.seq_nr,
            sent_window: final(peer)@.sent_window,
            ..old(peer)@
        }),
        r is Ok && r->Ok_0.reply is None,
        r->Ok_0.lost@.len() == 0,
{
}

/// A `Fin` closes an open connection, whatever its number: it is closed and otherwise as it was, and
/// a `State` packet with the number of the `Fin` answers.
pub proof fn fin_closes(
    socket: UtpSocket,
    packet: Packet,
    peer: &mut UtpSocketState,
    now: Timestamp,
    r: Result<Reaction, SocketError>,
    p: Packet,
)
    requires
        call_ensures(UtpSocket::handle_packet, (&socket, &packet, peer, now), r),
        call_ensures(
            UtpSocket::prepare_reply,
            (&socket, &packet, PacketType::State, packet.seq_nr, packet.seq_nr, now),
            p,
        ),
        old(peer)@.state == SocketState::Connected || old(peer)@.state == SocketState::FinSent,
        packet@.ty == PacketType::Fin,
    ensures
        final(peer)@ == (PeerView { state: SocketState::Closed, ..old(peer)@ }),
        r is Ok && r->Ok_0.reply is Some,
        r->Ok_0.lost@.len() == 0,
        r->Ok_0.reply->Some_0@ == p@,
{
}

/// After a `Fin` nothing can be sent on the connection any more.
pub proof fn nothing_is_sent_after_a_fin(
    socket: UtpSocket,
    packet: Packet,
    peer: &mut UtpSocketState,
    now: Timestamp,
    r: Result<Reaction, SocketError>,
    sender: &mut UtpSocket,
    buf: &[u8],
    addr: PeerAddr,
    sent: Result<(PeerAddr, Vec<Packet>), SocketError>,
)
    requires
        call_ensures(UtpSocket::handle_packet, (&socket, &packet, peer, now), r),
        old(peer)@.state == SocketState::Connected || old(peer)@.state == SocketState::FinSent,
        packet@.ty == PacketType::Fin,
        old(sender)@.contains_key(addr),
        old(sender)@[addr] == final(peer)@,
        call_ensures(UtpSocket::send_packets, (sender, buf, Some(addr)), sent),
    ensures
        sent matches Err(SocketError::ConnectionClosed),
        final(sender)@ == old(sender)@,
{
}

/// A `Reset` ends a connection in every state: that is noted and reported, and nothing else
/// changes.
pub proof fn reset_ends(
    socket: UtpSocket,
    packet: Packet,
    peer: &mut UtpSocketState,
    now: Timestamp,
    r: Result<Reaction, SocketError>,
)
    requires
        call_ensures(UtpSocket::handle_packet, (&socket, &packet, peer, now), r),
        packet@.ty == PacketType::Reset,
    ensures
        final(peer)@ == (PeerView { state: SocketState::ResetReceived, ..old(peer)@ }),
        r matches Err(SocketError::ConnectionReset),
{
}

/// Payload, its acknowledgement and a `Fin` are refused unless the connection is open, and a `State`
/// packet unless a connection is asked for or stands. What is refused changes nothing, and the
/// refusal names the state and the packet type. Nothing else is refused in this way.
pub proof fn meaningless_packets_are_refused(
    socket: UtpSocket,
    packet: Packet,
    peer: &mut UtpSocketState,
    now: Timestamp,
    r: Result<Reaction, SocketError>,
)
    requires
        call_ensures(UtpSocket::handle_packet, (&socket, &packet, peer, now), r),
    ensures
        ({
            let state = old(peer)@.state;
            let open = state == SocketState::Connected || state == SocketState::FinSent;
            let refused = match packet@.ty {
                PacketType::Data | PacketType::Ack | PacketType::Fin => !open,
                PacketType::State => state != SocketState::SynSent && state
                    != SocketState::Connected,
                PacketType::Syn | PacketType::Reset => false,
            };
            &&& refused <==> (r matches Err(SocketError::Other(_)))
            &&& r is Err <==> refused || packet@.ty == PacketType::Reset
            &&& refused ==> final(peer)@ == old(peer)@
            &&& (r matches Err(SocketError::Other(text)) ==> text@
                == "Unimplemented handling for ("@ + state_name(state) + ","@ + packet_type_name(
                packet@.ty,
            ) + ")"@)
        }),
{
}

/// States and packet types are called in refusals what they are called in the code.
pub proof fn names_are_those_of_the_variants(state: SocketState, ty: PacketType)
    ensures
        state == SocketState::New <==> state_name(state) == "New"@,
        state == SocketState::Connected <==> state_name(state) == "Connected"@,
        state == SocketState::SynSent <==> state_name(state) == "SynSent"@,
        state == SocketState::FinSent <==> state_name(state) == "FinSent"@,
        state == SocketState::ResetReceived <==> state_name(state) == "ResetReceived"@,
        state == SocketState::Closed <==> state_name(state) == "Closed"@,
        ty == PacketType::Data <==> packet_type_name(ty) == "Data"@,
        ty == PacketType::Fin <==> packet_type_name(ty) == "Fin"@,
        ty == PacketType::State <==> packet_type_name(ty) == "State"@,
        ty == PacketType::Reset <==> packet_type_name(ty) == "Reset"@,
        ty == PacketType::Syn <==> packet_type_name(ty) == "Syn"@,
        ty == PacketType::Ack <==> packet_type_name(ty) == "Ack"@,
{
    reveal_strlit("New");
    reveal_strlit("Connected");
    reveal_strlit("SynSent");
    reveal_strlit("FinSent");
    reveal_strlit("ResetReceived");
    reveal_strlit("Closed");
    reveal_strlit("Data");
    reveal_strlit("Fin");
    reveal_strlit("State");
    reveal_strlit("Reset");
    reveal_strlit("Syn");
    reveal_strlit("Ack");
    assert("New"@[0] == 'N');
    assert("Connected"@[0] == 'C' && "Connected"@[1] == 'o');
    assert("Closed"@[0] == 'C' && "Closed"@[1] == 'l');
    assert("ResetReceived"@[0] == 'R');
    assert("SynSent"@[0] == 'S');
    assert("FinSent"@[0] == 'F');
    assert("Data"@[0] == 'D');
    assert("Fin"@[0] == 'F');
    assert("State"@[1] == 't');
    assert("Reset"@[0] == 'R');
    assert("Syn"@[0] == 'S');
    assert("Ack"@[0] == 'A');
}

proof fn same_members_same_list(a: Seq<u16>, b: Seq<u16>)
    requires
        forall|i: int, j: int| 0 <= i < j < a.len() ==> a[i] < a[j],
        forall|i: int, j: int| 0 <= i < j < b.len() ==> b[i] < b[j],
        forall|n: u16| #[trigger] a.contains(n) <==> b.contains(n),
    ensures
        a == b,
    decreases a.len(),
{
    if a.len() == 0 {
        if b.len() > 0 {
            assert(b.contains(b[0]));
            assert(a.contains(b[0]));
        }
        assert(a =~= b);
    } else {
        assert(a.contains(a.last()));
        assert(b.contains(a.last()));
        let i = choose|i: int| 0 <= i < b.len() && b[i] == a.last();
        assert(b.contains(b.last()));
        assert(a.contains(b.last()));
        let j = choose|j: int| 0 <= j < a.len() && a[j] == b.last();
        assert(a.last() == b.last()) by {
            if i < b.len() - 1 {
                assert(b[i] < b[b.len() - 1]);
            }
            if j < a.len() - 1 {
                assert(a[j] < a[a.len() - 1]);
            }
        }
        let c = a.drop_last();
        let d = b.drop_last();
        assert forall|n: u16| #[trigger] c.contains(n) <==> d.contains(n) by {
            if c.contains(n) {
                let k = choose|k: int| 0 <= k < c.len() && c[k] == n;
                assert(a[k] == n && a[k] < a[a.len() - 1]);
                assert(a.contains(n));
                let l = choose|l: int| 0 <= l < b.len() && b[l] == n;
                assert(d[l] == n);
            }
            if d.contains(n) {
                let k = choose|k: int| 0 <= k < d.len() && d[k] == n;
                assert(b[k] == n && b[k] < b[b.len() - 1]);
                assert(b.contains(n));
                assert(a.contains(n));
                let l = choose|l: int| 0 <= l < a.len() && a[l] == n;
                assert(c[l] == n);
            }
        }
        same_members_same_list(c, d);
        assert(a =~= c.push(a.last()));
        assert(b =~= d.push(b.last()));
    }
}

/// There is one reaction to a packet: any two agree in what they answer, report and refuse.
pub proof fn reaction_is_determined(
    id: u16,
    peer: PeerView,
    packet: PacketView,
    now: Timestamp,
    a: Result<Reaction, SocketError>,
    b: Result<Reaction, SocketError>,
)
    requires
        is_reaction(id, peer, packet, now, a),
        is_reaction(id, peer, packet, now, b),
    ensures
        a is Ok <==> b is Ok,
        a is Ok ==> a->Ok_0.lost@ == b->Ok_0.lost@ && (a->Ok_0.reply is Some <==> b->Ok_0.reply is Some)
            && (a->Ok_0.reply is Some ==> a->Ok_0.reply->Some_0@ == b->Ok_0.reply->Some_0@),
        (a matches Err(SocketError::ConnectionReset)) <==> (b matches Err(
            SocketError::ConnectionReset,
        )),
        a matches Err(SocketError::Other(s)) ==> b matches Err(SocketError::Other(t)) && s@ == t@,
{
    if a is Ok {
        let next = after_packet(peer, packet, now);
        let x = a->Ok_0;
        let y = b->Ok_0;
        if packet.ty == PacketType::Ack && packet.sack is Some {
            let s = packet.sack->Some_0;
            assert(is_lost_list(x.lost@, s, packet.ack_nr, next.seq_nr));
            assert(is_lost_list(y.lost@, s, packet.ack_nr, next.seq_nr));
            same_members_same_list(x.lost@, y.lost@);
        } else {
            assert(x.lost@ =~= y.lost@);
        }
        if packet.ty == PacketType::Data && packet.seq_nr > peer.last_acked + 1 {
            selective_ack_is_unique(
                x.reply->Some_0@.sack->Some_0,
                y.reply->Some_0@.sack->Some_0,
                next.out_of_order.dom(),
                next.last_acked,
            );
        }
    }
}

/// What becomes of a packet depends on nothing but the socket's number, the peer, the packet and
/// the time: two calls that agree in them leave the same peer and give the same result.
pub proof fn handling_is_determined(
    socket: UtpSocket,
    packet: Packet,
    peer: &mut UtpSocketState,
    r: Result<Reaction, SocketError>,
    other_socket: UtpSocket,
    other_packet: Packet,
    other_peer: &mut UtpSocketState,
    other_r: Result<Reaction, SocketError>,
    now: Timestamp,
)
    requires
        call_ensures(UtpSocket::handle_packet, (&socket, &packet, peer, now), r),
        call_ensures(
            UtpSocket::handle_packet,
            (&other_socket, &other_packet, other_peer, now),
            other_r,
        ),
        socket.id == other_socket.id,
        packet@ == other_packet@,
        old(peer)@ == old(other_peer)@,
    ensures
        final(peer)@ == final(other_peer)@,
        r is Ok <==> other_r is Ok,
        r is Ok ==> r->Ok_0.lost@ == other_r->Ok_0.lost@ && (r->Ok_0.reply is Some
            <==> other_r->Ok_0.reply is Some) && (r->Ok_0.reply is Some ==> r->Ok_0.reply->Some_0@
            == other_r->Ok_0.reply->Some_0@),
        (r matches Err(SocketError::ConnectionReset)) <==> (other_r matches Err(
            SocketError::ConnectionReset,
        )),
        r matches Err(SocketError::Other(a)) ==> other_r matches Err(SocketError::Other(b)) && a@
            == b@,
{
    reaction_is_determined(socket.id, old(peer)@, packet@, now, r, other_r);
}

/// Reacting to a packet is handling it by a socket with that number.
pub proof fn reacting_is_handling(
    id: u16,
    packet: Packet,
    peer: &mut UtpSocketState,
    now: Timestamp,
    r: Result<Reaction, SocketError>,
    handler: UtpSocket,
    other: &mut UtpSocketState,
    handled: Result<Reaction, SocketError>,
)
    requires
        call_ensures(react, (id, &packet, peer, now), r),
        call_ensures(UtpSocket::handle_packet, (&handler, &packet, other, now), handled),
        handler.id == id,
        old(peer)@ == old(other)@,
    ensures
        final(peer)@ == final(other)@,
        r is Ok <==> handled is Ok,
        r is Ok ==> r->Ok_0.lost@ == handled->Ok_0.lost@ && (r->Ok_0.reply is Some
            <==> handled->Ok_0.reply is Some) && (r->Ok_0.reply is Some ==> r->Ok_0.reply->Some_0@
            == handled->Ok_0.reply->Some_0@),
        (r matches Err(SocketError::ConnectionReset)) <==> (handled matches Err(
            SocketError::ConnectionReset,
        )),
        r matches Err(SocketError::Other(s)) ==> handled matches Err(SocketError::Other(t)) && s@
            == t@,
{
    reaction_is_determined(id, old(peer)@, packet@, now, r, handled);
}

/// Payload can be handled by an open connection unless the numbers run out: the last acknowledged
/// one, or, for the packet that comes next, the one for answers or the early ones behind it.
pub proof fn data_that_can_be_handled(packet: Packet, peer: UtpSocketState, admissible: bool)
    requires
        call_ensures(can_react, (&packet, &peer), admissible),
        packet@.ty == PacketType::Data,
    ensures
        !is_open(peer@.state) ==> admissible,
        is_open(peer@.state) && peer@.last_acked == u16::MAX ==> !admissible,
        is_open(peer@.state) && peer@.last_acked < u16::MAX && packet@.seq_nr != peer@.last_acked
            + 1 ==> admissible,
        is_open(peer@.state) && packet@.seq_nr == peer@.last_acked + 1 ==> (admissible
            <==> peer@.seq_nr < u16::MAX && (packet@.seq_nr < u16::MAX
            || forall|k: u16| !#[trigger] peer@.out_of_order.contains_key(k))),
{
    let early = peer@.out_of_order;
    if early.is_empty() {
        assert forall|k: u16| !#[trigger] early.contains_key(k) by {
            assert(!early.dom().contains(k));
        }
    } else if forall|k: u16| !#[trigger] early.contains_key(k) {
        assert(early =~= Map::<u16, PacketView>::empty());
    }
}

/// An acknowledgement without a list of what has arrived can be handled by an open connection
/// unless a number or the count runs out, or the packet that it has sent again is not in
/// the window.
pub proof fn acks_that_can_be_handled(
    packet: Packet,
    peer: UtpSocketState,
    admissible: bool,
    count: int,
)
    requires
        call_ensures(can_react, (&packet, &peer), admissible),
        packet@.ty == PacketType::Ack,
        packet@.sack is None,
        is_open(peer@.state),
        packet@.ack_nr == peer@.last_acked ==> count == peer@.duplicate_ack_count + 1,
        packet@.ack_nr == peer@.last_acked + 1 ==> count == 1,
        packet@.ack_nr != peer@.last_acked && packet@.ack_nr != peer@.last_acked + 1 ==> count
            == peer@.duplicate_ack_count,
    ensures
        admissible <==> count <= u16::MAX && (packet@.ack_nr == peer@.last_acked
            || peer@.last_acked < u16::MAX) && (count >= 3 ==> packet@.ack_nr < u16::MAX
            && peer@.sent_window.contains_key((packet@.ack_nr + 1) as u16)),
{
}

/// A list of what has arrived adds to what an acknowledgement needs to be handled by an open
/// connection just that it can be read.
pub proof fn acks_with_a_list_that_can_be_handled(
    packet: Packet,
    bare: Packet,
    peer: UtpSocketState,
    list: Vec<u8>,
    admissible: bool,
    bare_admissible: bool,
    readable: bool,
)
    requires
        call_ensures(can_react, (&packet, &peer), admissible),
        call_ensures(can_react, (&bare, &peer), bare_admissible),
        call_ensures(can_read, (&list, packet.ack_nr, peer.seq_nr), readable),
        packet@.ty == PacketType::Ack,
        packet@.sack == Some(list@),
        bare@ == (PacketView { sack: None, ..packet@ }),
        is_open(peer@.state),
    ensures
        admissible <==> bare_admissible && readable,
{
}

/// A `State` packet can be handled unless the count runs out or the packet that it has sent again
/// is not in the window, and all other packets can be handled at all times.
pub proof fn other_packets_that_can_be_handled(
    packet: Packet,
    peer: UtpSocketState,
    admissible: bool,
)
    requires
        call_ensures(can_react, (&packet, &peer), admissible),
    ensures
        packet@.ty == PacketType::Syn || packet@.ty == PacketType::Fin || packet@.ty
            == PacketType::Reset ==> admissible,
        !is_open(peer@.state) ==> admissible,
        peer@.state == SocketState::FinSent && packet@.ty == PacketType::State ==> admissible,
        peer@.state == SocketState::Connected && packet@.ty == PacketType::State ==> ({
            let again = packet@.ack_nr == peer@.last_acked;
            let third = again && peer@.duplicate_ack_count == 2;
            let empty = forall|k: u16| !#[trigger] peer@.sent_window.contains_key(k);
            &&& again && peer@.duplicate_ack_count == u16::MAX ==> !admissible
            &&& !(again && peer@.duplicate_ack_count == u16::MAX) ==> (admissible <==> (empty
                && !third) || (packet@.ack_nr > 0 && peer@.sent_window.contains_key(
                (packet@.ack_nr - 1) as u16,
            )))
        }),
{
    let window = peer@.sent_window;
    if window.is_empty() {
        assert forall|k: u16| !#[trigger] window.contains_key(k) by {
            assert(!window.dom().contains(k));
        }
    } else if forall|k: u16| !#[trigger] window.contains_key(k) {
        assert(window =~= Map::<u16, PacketView>::empty());
    }
}

/// Asking for a connection to a new peer sends a `Syn` with the number 1 that names this socket and
/// carries nothing else. The peer waits for the answer, with just that packet in its window, and
/// is blank otherwise; no other peer is touched.
pub proof fn connecting_asks_once(
    socket: &mut UtpSocket,
    addr: PeerAddr,
    sender_id: u16,
    r: Result<Packet, SocketError>,
    blank: UtpSocketState,
    other: PeerAddr,
)
    requires
        call_ensures(UtpSocket::connect, (socket, addr, sender_id), r),
        call_ensures(UtpSocketState::new, (sender_id,), blank),
        !old(socket)@.contains_key(addr),
    ensures
        r is Ok,
        ({
            let p = r->Ok_0@;
            let peer = final(socket)@[addr];
            &&& p.ty == PacketType::Syn && p.connection_id == old(socket).id && p.seq_nr == 1
                && p.ack_nr == 0
            &&& p.sack is None && p.payload == Seq::<u8>::empty() && p.wnd_size == 0
                && p.timestamp.0 == 0 && p.timestamp_difference.0 == 0
            &&& final(socket)@.contains_key(addr)
            &&& peer == PeerView {
                state: SocketState::SynSent,
                connected_to: Some(addr),
                sent_window: Map::<u16, PacketView>::empty().insert(p.seq_nr, p),
                ..blank@
            }
        }),
        other != addr ==> (final(socket)@.contains_key(other) <==> old(socket)@.contains_key(other)),
        other != addr ==> final(socket)@[other] == old(socket)@[other],
        final(socket).id == old(socket).id && final(socket).drop == old(socket).drop,
{
}

/// Asking for a connection to a peer that is known is refused and changes nothing; so of two
/// requests for the same peer the second one is refused.
pub proof fn connecting_twice_is_refused(
    socket: &mut UtpSocket,
    addr: PeerAddr,
    sender_id: u16,
    r: Result<Packet, SocketError>,
    then: &mut UtpSocket,
    id_then: u16,
    r_then: Result<Packet, SocketError>,
)
    requires
        call_ensures(UtpSocket::connect, (socket, addr, sender_id), r),
        call_ensures(UtpSocket::connect, (then, addr, id_then), r_then),
        old(then)@ == final(socket)@,
    ensures
        (r matches Err(SocketError::AlreadyConnected)) <==> old(socket)@.contains_key(addr),
        r is Ok <==> !old(socket)@.contains_key(addr),
        r_then matches Err(SocketError::AlreadyConnected),
        final(then)@ == final(socket)@,
{
}

/// A peer that is set is found as it was set, and no other peer changes.
pub proof fn registered_peer_is_found(
    socket: &mut UtpSocket,
    addr: PeerAddr,
    peer: UtpSocketState,
    then: UtpSocket,
    other: PeerAddr,
    found: Option<&UtpSocketState>,
)
    requires
        call_ensures(UtpSocket::register_peer, (socket, addr, peer), ()),
        then@ == final(socket)@,
        call_ensures(UtpSocket::get_peer, (&then, other), found),
    ensures
        other == addr ==> found is Some && found->Some_0@ == peer@,
        other != addr ==> (found is Some <==> old(socket)@.contains_key(other)),
        other != addr && found is Some ==> found->Some_0@ == old(socket)@[other],
        final(socket).id == old(socket).id && final(socket).drop == old(socket).drop,
{
}

/// A new socket has no peers.
pub proof fn new_socket_has_no_peers(
    id: u16,
    drop: bool,
    socket: UtpSocket,
    addr: PeerAddr,
    found: Option<&UtpSocketState>,
)
    requires
        call_ensures(UtpSocket::new, (id, drop), socket),
        call_ensures(UtpSocket::get_peer, (&socket, addr), found),
    ensures
        found is None,
        socket.id == id && socket.drop == drop,
{
}

/// Of a new peer nothing is known and nothing is under way to it.
pub proof fn new_peer_is_blank(sender_id: u16, peer: UtpSocketState)
    requires
        call_ensures(UtpSocketState::new, (sender_id,), peer),
    ensures
        peer@.state == SocketState::New && peer@.connected_to is None && peer@.sender_id
            == sender_id,
        peer@.seq_nr == 1 && peer@.ack_nr == 0 && peer@.last_acked == 0,
        peer@.duplicate_ack_count == 0 && peer@.last_acked_timestamp.0 == 0,
        peer@.rtt == 0 && peer@.rtt_variance == 0 && peer@.curr_window == 0,
        peer@.cwnd == 2 * 5 && peer@.max_retransmission_retries == 5,
        peer@.remote_wnd_size == 0 && peer@.congestion_timeout == 500,
        peer@.their_delay.0 == 0 && peer@.last_rollover.0 == 0,
        peer@.incoming_buffer.len() == 0 && peer@.unsent_queue.len() == 0,
        peer@.base_delays.len() == 0 && peer@.current_delays.len() == 0,
        peer@.sent_window == Map::<u16, PacketView>::empty(),
        peer@.out_of_order == Map::<u16, PacketView>::empty(),
{
}

} // verus!
