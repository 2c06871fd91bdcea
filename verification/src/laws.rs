//! What holds of a connection over several packets.
use crate::addr::PeerAddr;
use crate::error::SocketError;
use crate::packet::{PacketType, PacketView};
use crate::reaction::{
    after_data, after_packet, answer, is_admissible, is_open, is_reaction, reach, replies, run_end,
    without_run, Reaction,
};
use crate::selective_ack::{is_lost, is_lost_list, lost_is_what_has_not_arrived};
use crate::socket::{
    after_sending, chunk, chunk_count, connecting_peer, data_packet, is_refused, number_after,
    peer_at, syn, window_after, window_from, with_incoming, BUF_SIZE, RECV_BUF_SIZE,
};
use crate::state::{PeerView, SocketState};
use crate::time::Timestamp;
use crate::wire::{
    decoding, decoding_undoes_encoding, encoding, encoding_length, trailing_bytes_are_payload,
};
use vstd::prelude::*;

verus! {

/// Whether everything that has arrived early lies beyond a gap.
pub open spec fn waits_beyond_gap(peer: PeerView) -> bool {
    forall|k: u16| #[trigger] peer.out_of_order.contains_key(k) ==> k > peer.last_acked + 1
}

/// Whether packet `n` has arrived, in order or ahead of a gap.
pub open spec fn has_received(peer: PeerView, n: u16) -> bool {
    n <= peer.last_acked || peer.out_of_order.contains_key(n)
}

/// The run of numbers after `from` ends where it says: every number up to there has been received,
/// and the one after it has not.
pub proof fn run_end_is_maximal(received: Set<u16>, from: int)
    requires
        0 <= from <= u16::MAX,
    ensures
        from <= run_end(received, from) <= u16::MAX,
        forall|k: u16| from < k <= run_end(received, from) ==> #[trigger] received.contains(k),
        run_end(received, from) < u16::MAX ==> !received.contains(
            (run_end(received, from) + 1) as u16,
        ),
    decreases u16::MAX - from,
{
    if from < u16::MAX && received.contains((from + 1) as u16) {
        run_end_is_maximal(received, from + 1);
        assert forall|k: u16| from < k <= run_end(received, from) implies #[trigger] received.contains(
            k,
        ) by {
            if k != from + 1 {
                assert(received.contains(k));
            }
        }
    }
}

/// A `Data` packet makes its own number received and no other, it never takes an
/// acknowledgement back, and what has arrived early still lies beyond a gap.
pub proof fn data_adds_one_arrival(peer: PeerView, packet: PacketView, now: Timestamp)
    requires
        is_open(peer.state),
        packet.ty == PacketType::Data,
        is_admissible(peer, packet),
        waits_beyond_gap(peer),
    ensures
        waits_beyond_gap(after_packet(peer, packet, now)),
        peer.last_acked <= after_packet(peer, packet, now).last_acked,
        forall|n: u16| #[trigger]
            has_received(after_packet(peer, packet, now), n) <==> has_received(peer, n) || n
                == packet.seq_nr,
        after_packet(peer, packet, now).state == peer.state,
{
    let next = after_data(peer, packet);
    if packet.seq_nr == peer.last_acked + 1 {
        let received = peer.out_of_order.dom();
        let from = packet.seq_nr;
        run_end_is_maximal(received, from as int);
        assert(!exists|k: u16| #[trigger] received.contains(k) && k <= from) by {
            assert forall|k: u16| received.contains(k) implies k > from by {
                assert(peer.out_of_order.contains_key(k));
            }
        }
        let end = reach(received, from);
        assert forall|k: u16| #[trigger] next.out_of_order.contains_key(k) implies k
            > next.last_acked + 1 by {
            assert(peer.out_of_order.contains_key(k));
            assert(received.contains(k));
        }
        assert forall|n: u16| #[trigger] has_received(next, n) <==> has_received(peer, n) || n
            == packet.seq_nr by {
            assert(peer.out_of_order.contains_key(n) <==> received.contains(n));
        }
    }
}

/// The peer after several `Data` packets, one after the other.
pub open spec fn after_all_data(peer: PeerView, packets: Seq<PacketView>) -> PeerView
    decreases packets.len(),
{
    if packets.len() == 0 {
        peer
    } else {
        after_data(after_all_data(peer, packets.drop_last()), packets.last())
    }
}

/// Whether each packet is a `Data` packet that is admissible when its turn comes.
pub open spec fn all_admissible_data(peer: PeerView, packets: Seq<PacketView>) -> bool
    decreases packets.len(),
{
    packets.len() == 0 || {
        &&& all_admissible_data(peer, packets.drop_last())
        &&& packets.last().ty == PacketType::Data
        &&& is_admissible(after_all_data(peer, packets.drop_last()), packets.last())
    }
}

/// Whether a packet with the number `n` is among `packets`.
pub open spec fn holds_number(packets: Seq<PacketView>, n: u16) -> bool {
    exists|i: int| 0 <= i < packets.len() && (#[trigger] packets[i]).seq_nr == n
}

/// Several `Data` packets make just their own numbers received.
pub proof fn all_data_arrive(peer: PeerView, packets: Seq<PacketView>)
    requires
        is_open(peer.state),
        waits_beyond_gap(peer),
        all_admissible_data(peer, packets),
    ensures
        waits_beyond_gap(after_all_data(peer, packets)),
        after_all_data(peer, packets).state == peer.state,
        peer.last_acked <= after_all_data(peer, packets).last_acked,
        forall|n: u16| #[trigger]
            has_received(after_all_data(peer, packets), n) <==> has_received(peer, n)
                || holds_number(packets, n),
    decreases packets.len(),
{
    if packets.len() > 0 {
        let rest = packets.drop_last();
        let before = after_all_data(peer, rest);
        all_data_arrive(peer, rest);
        data_adds_one_arrival(before, packets.last(), Timestamp(0));
        assert forall|n: u16| #[trigger]
            has_received(after_all_data(peer, packets), n) <==> has_received(peer, n)
                || holds_number(packets, n) by {
            assert(has_received(before, n) <==> has_received(peer, n) || holds_number(rest, n));
            if holds_number(rest, n) {
                let i = choose|i: int| 0 <= i < rest.len() && (#[trigger] rest[i]).seq_nr == n;
                assert(packets[i].seq_nr == n);
            }
            if n == packets.last().seq_nr {
                assert(packets[packets.len() - 1].seq_nr == n);
            }
            if holds_number(packets, n) {
                let i = choose|i: int| 0 <= i < packets.len() && (#[trigger] packets[i]).seq_nr == n;
                if i < rest.len() {
                    assert(rest[i].seq_nr == n);
                }
            }
        }
    }
}

proof fn same_arrivals_same_ack(a: PeerView, b: PeerView)
    requires
        waits_beyond_gap(a),
        waits_beyond_gap(b),
        forall|n: u16| #[trigger] has_received(a, n) <==> has_received(b, n),
    ensures
        a.last_acked == b.last_acked,
        a.out_of_order.dom() == b.out_of_order.dom(),
{
    if a.last_acked < b.last_acked {
        let n = (a.last_acked + 1) as u16;
        assert(has_received(b, n));
        assert(has_received(a, n));
        assert(a.out_of_order.contains_key(n));
    }
    if b.last_acked < a.last_acked {
        let n = (b.last_acked + 1) as u16;
        assert(has_received(a, n));
        assert(has_received(b, n));
        assert(b.out_of_order.contains_key(n));
    }
    assert forall|k: u16| a.out_of_order.dom().contains(k) <==> b.out_of_order.dom().contains(
        k,
    ) by {
        assert(has_received(a, k) <==> has_received(b, k));
        assert(a.out_of_order.contains_key(k) ==> k > a.last_acked);
        assert(b.out_of_order.contains_key(k) ==> k > b.last_acked);
    }
    assert(a.out_of_order.dom() =~= b.out_of_order.dom());
}

/// What is acknowledged, and what waits beyond a gap, depends on which `Data` packets
/// have arrived: not on the order in which they came, nor on how often each of them did.
pub proof fn arrival_order_does_not_matter(
    peer: PeerView,
    packets: Seq<PacketView>,
    others: Seq<PacketView>,
)
    requires
        is_open(peer.state),
        waits_beyond_gap(peer),
        all_admissible_data(peer, packets),
        all_admissible_data(peer, others),
        forall|n: u16| #[trigger] holds_number(packets, n) <==> holds_number(others, n),
    ensures
        after_all_data(peer, packets).last_acked == after_all_data(peer, others).last_acked,
        after_all_data(peer, packets).out_of_order.dom() == after_all_data(
            peer,
            others,
        ).out_of_order.dom(),
{
    all_data_arrive(peer, packets);
    all_data_arrive(peer, others);
    let a = after_all_data(peer, packets);
    let b = after_all_data(peer, others);
    assert forall|n: u16| #[trigger] has_received(a, n) <==> has_received(b, n) by {
        assert(holds_number(packets, n) <==> holds_number(others, n));
        assert(has_received(b, n) <==> has_received(peer, n) || holds_number(others, n));
    }
    same_arrivals_same_ack(a, b);
}

/// Once every packet up to `n` has arrived, in whatever order, all of them are
/// acknowledged and none of them waits any longer.
pub proof fn complete_arrival_is_acknowledged(
    peer: PeerView,
    packets: Seq<PacketView>,
    n: u16,
)
    requires
        is_open(peer.state),
        waits_beyond_gap(peer),
        all_admissible_data(peer, packets),
        forall|k: u16| peer.last_acked < k <= n ==> #[trigger] holds_number(packets, k),
    ensures
        n <= after_all_data(peer, packets).last_acked,
        forall|k: u16| k <= n ==> !#[trigger] after_all_data(peer, packets).out_of_order.contains_key(k),
{
    all_data_arrive(peer, packets);
    let next = after_all_data(peer, packets);
    if next.last_acked < n {
        let k = (next.last_acked + 1) as u16;
        assert(holds_number(packets, k));
        assert(has_received(next, k));
        assert(next.out_of_order.contains_key(k));
    }
}

/// The peer after several packets, one after the other, the one at `i` at `times[i]`.
pub open spec fn after_all_packets(
    peer: PeerView,
    packets: Seq<PacketView>,
    times: Seq<Timestamp>,
) -> PeerView
    decreases packets.len(),
{
    if packets.len() == 0 {
        peer
    } else {
        after_packet(
            after_all_packets(peer, packets.drop_last(), times),
            packets.last(),
            times[packets.len() - 1],
        )
    }
}

/// Acknowledgements that follow on one another take just the packets that they
/// acknowledge out of the window of sent packets.
pub proof fn acks_in_order_clear_the_window(
    peer: PeerView,
    packets: Seq<PacketView>,
    times: Seq<Timestamp>,
)
    requires
        is_open(peer.state),
        peer.last_acked + packets.len() <= u16::MAX,
        forall|i: int|
            0 <= i < packets.len() ==> (#[trigger] packets[i]).ty == PacketType::Ack
                && packets[i].ack_nr == peer.last_acked + 1 + i,
    ensures
        after_all_packets(peer, packets, times).last_acked == peer.last_acked + packets.len(),
        after_all_packets(peer, packets, times).sent_window == without_run(
            peer.sent_window,
            peer.last_acked,
            (peer.last_acked + packets.len()) as u16,
        ),
        after_all_packets(peer, packets, times).state == peer.state,
    decreases packets.len(),
{
    if packets.len() > 0 {
        let rest = packets.drop_last();
        assert forall|i: int| 0 <= i < rest.len() implies (#[trigger] rest[i]).ty
            == PacketType::Ack && rest[i].ack_nr == peer.last_acked + 1 + i by {
            assert(rest[i] == packets[i]);
        }
        acks_in_order_clear_the_window(peer, rest, times);
        let last = packets[packets.len() - 1];
        assert(last.ack_nr == peer.last_acked + packets.len());
    }
    assert(after_all_packets(peer, packets, times).sent_window =~= without_run(
        peer.sent_window,
        peer.last_acked,
        (peer.last_acked + packets.len()) as u16,
    ));
}

/// The third acknowledgement of the same packet in a row has the one after it sent
/// again, as it was sent before.
pub proof fn third_ack_resends(
    id: u16,
    peer: PeerView,
    acks: Seq<PacketView>,
    times: Seq<Timestamp>,
    r: Result<Reaction, SocketError>,
)
    requires
        is_open(peer.state),
        acks.len() == 3,
        forall|i: int|
            0 <= i < 3 ==> (#[trigger] acks[i]).ty == PacketType::Ack && acks[i].ack_nr
                == peer.last_acked + 1,
        acks[0].ack_nr < u16::MAX,
        peer.sent_window.contains_key((acks[0].ack_nr + 1) as u16),
        is_reaction(id, after_all_packets(peer, acks.take(2), times), acks[2], times[2], r),
    ensures
        r matches Ok(x) && x.reply matches Some(p) && p@ == peer.sent_window[(acks[0].ack_nr
            + 1) as u16],
{
    let two = acks.take(2);
    assert(two.drop_last().last() == acks[0]);
    assert(two.last() == acks[1]);
    assert(acks[2].ack_nr == acks[0].ack_nr);
    reveal_with_fuel(after_all_packets, 3);
}

/// No packet opens a closed connection again, or changes anything else of it but that
/// a `Reset` is noted. All but a `Syn` are refused.
pub proof fn closed_stays_closed(peer: PeerView, packet: PacketView, now: Timestamp)
    requires
        peer.state == SocketState::Closed || peer.state == SocketState::ResetReceived,
    ensures
        ({
            let next = after_packet(peer, packet, now);
            &&& next == PeerView { state: next.state, ..peer }
            &&& next.state == SocketState::Closed || next.state == SocketState::ResetReceived
            &&& packet.ty != PacketType::Reset ==> next == peer
            &&& packet.ty != PacketType::Syn ==> is_refused(peer.state, packet.ty)
        }),
{
}

/// No packet changes what has been received for the application, what waits to be sent,
/// whom the connection is with, or what is measured about it.
pub proof fn packets_leave_the_rest_alone(peer: PeerView, packet: PacketView, now: Timestamp)
    ensures
        ({
            let next = after_packet(peer, packet, now);
            next == PeerView {
                state: next.state,
                seq_nr: next.seq_nr,
                ack_nr: next.ack_nr,
                duplicate_ack_count: next.duplicate_ack_count,
                last_acked: next.last_acked,
                last_acked_timestamp: next.last_acked_timestamp,
                sent_window: next.sent_window,
                out_of_order: next.out_of_order,
                ..peer
            }
        }),
{
}

/// What a sender learns as lost from the answer to a packet that came ahead of a gap is
/// what the receiver has not got, as far as the answer reaches.
pub proof fn sender_learns_what_is_missing(
    receiver_id: u16,
    receiver: PeerView,
    packet: PacketView,
    received_at: Timestamp,
    receiver_reaction: Result<Reaction, SocketError>,
    sender_id: u16,
    sender: PeerView,
    answered_at: Timestamp,
    sender_reaction: Result<Reaction, SocketError>,
    n: u16,
)
    requires
        is_open(receiver.state),
        packet.ty == PacketType::Data,
        packet.seq_nr > receiver.last_acked + 1,
        is_reaction(receiver_id, receiver, packet, received_at, receiver_reaction),
        is_open(sender.state),
        receiver_reaction matches Ok(x) && x.reply matches Some(p) && is_reaction(
            sender_id,
            sender,
            p@,
            answered_at,
            sender_reaction,
        ),
        receiver.last_acked < n <= packet.seq_nr,
    ensures
        sender_reaction matches Ok(y) && (y.lost@.contains(n) <==> n < sender.seq_nr && !has_received(
            after_packet(receiver, packet, received_at),
            n,
        )),
{
    let next = after_packet(receiver, packet, received_at);
    let reply = receiver_reaction->Ok_0.reply->Some_0@;
    let field = reply.sack->Some_0;
    let received = next.out_of_order.dom();
    assert(received.contains(packet.seq_nr));
    assert(reply.ty == PacketType::Ack);
    assert(sender_reaction is Ok);
    let lost = sender_reaction->Ok_0.lost@;
    assert(is_lost_list(lost, field, reply.ack_nr, sender.seq_nr));
    assert(lost.contains(n) <==> is_lost(field, reply.ack_nr, sender.seq_nr, n));
    if n < sender.seq_nr {
        if packet.seq_nr < u16::MAX {
            lost_is_what_has_not_arrived(
                field,
                received,
                receiver.last_acked,
                (packet.seq_nr + 1) as u16,
                n,
            );
        } else {
            lost_is_what_has_not_arrived(field, received, receiver.last_acked, packet.seq_nr, n);
        }
    }
}

/// A handshake connects: a socket that asks for a connection, and one that has not heard of it
/// before and answers the `Syn`, are connected to each other after it, and nothing is left to be
/// acknowledged.
pub proof fn handshake_connects(
    client_id: u16,
    sender_id: u16,
    server_addr: PeerAddr,
    server_id: u16,
    client_addr: PeerAddr,
    asked_at: Timestamp,
    answered_at: Timestamp,
)
    ensures
        ({
            let asked = with_incoming(peer_at(Map::empty(), client_addr, client_id), syn(client_id));
            let server = after_packet(asked, syn(client_id), asked_at);
            let reply = answer(server_id, syn(client_id), PacketType::State, 1, 1, asked_at);
            let client = after_packet(
                connecting_peer(sender_id, server_addr, client_id),
                reply,
                answered_at,
            );
            &&& forall|r: Result<Reaction, SocketError>|
                is_reaction(server_id, asked, syn(client_id), asked_at, r) ==> #[trigger] replies(
                    r,
                    Some(reply),
                )
            &&& server.state == SocketState::Connected
            &&& client.state == SocketState::Connected
            &&& client.sent_window == Map::<u16, PacketView>::empty()
            &&& client.seq_nr == server.last_acked + 1
        }),
{
    let reply = answer(server_id, syn(client_id), PacketType::State, 1, 1, asked_at);
    let client = after_packet(
        connecting_peer(sender_id, server_addr, client_id),
        reply,
        answered_at,
    );
    assert(client.sent_window =~= Map::<u16, PacketView>::empty());
}

/// The peer after several packets, each of them received at the time `times[i]` and kept for the
/// application.
pub open spec fn after_receiving_all(
    peer: PeerView,
    packets: Seq<PacketView>,
    times: Seq<Timestamp>,
) -> PeerView
    decreases packets.len(),
{
    if packets.len() == 0 {
        peer
    } else {
        let last = packets.last();
        let before = after_receiving_all(peer, packets.drop_last(), times);
        after_packet(with_incoming(before, last), last, times[packets.len() - 1])
    }
}

/// Whether `packets` are `Data` packets with the numbers that follow `last`, in order.
pub open spec fn follow_on(packets: Seq<PacketView>, last: u16) -> bool {
    forall|i: int|
        0 <= i < packets.len() ==> (#[trigger] packets[i]).ty == PacketType::Data
            && packets[i].seq_nr == last + 1 + i
}

/// `Data` packets that arrive in order, with none missing before them, are each handed to the
/// application and acknowledged.
pub proof fn packets_in_order_are_delivered(
    peer: PeerView,
    packets: Seq<PacketView>,
    times: Seq<Timestamp>,
)
    requires
        is_open(peer.state),
        peer.out_of_order == Map::<u16, PacketView>::empty(),
        follow_on(packets, peer.last_acked),
        peer.last_acked + packets.len() <= u16::MAX,
        peer.seq_nr + packets.len() <= u16::MAX,
    ensures
        after_receiving_all(peer, packets, times) == (PeerView {
            last_acked: (peer.last_acked + packets.len()) as u16,
            seq_nr: (peer.seq_nr + packets.len()) as u16,
            incoming_buffer: peer.incoming_buffer + packets,
            ..peer
        }),
    decreases packets.len(),
{
    if packets.len() == 0 {
        assert(peer.incoming_buffer + packets =~= peer.incoming_buffer);
    } else {
        let rest = packets.drop_last();
        let last = packets[packets.len() - 1];
        assert forall|i: int| 0 <= i < rest.len() implies (#[trigger] rest[i]).ty
            == PacketType::Data && rest[i].seq_nr == peer.last_acked + 1 + i by {
            assert(rest[i] == packets[i]);
        }
        packets_in_order_are_delivered(peer, rest, times);
        let before = after_receiving_all(peer, rest, times);
        assert(last.seq_nr == before.last_acked + 1);
        assert(reach(before.out_of_order.dom(), last.seq_nr) == last.seq_nr);
        assert(without_run(before.out_of_order, last.seq_nr, last.seq_nr) =~= Map::<
            u16,
            PacketView,
        >::empty());
        assert(before.incoming_buffer.push(last) =~= peer.incoming_buffer + packets);
        assert(after_receiving_all(peer, packets, times) =~= PeerView {
            last_acked: (peer.last_acked + packets.len()) as u16,
            seq_nr: (peer.seq_nr + packets.len()) as u16,
            incoming_buffer: peer.incoming_buffer + packets,
            ..peer
        });
    }
}

/// Keeping packets for the application changes nothing else.
proof fn receiving_keeps_packets(
    peer: PeerView,
    packets: Seq<PacketView>,
    times: Seq<Timestamp>,
)
    ensures
        after_receiving_all(peer, packets, times) == (PeerView {
            incoming_buffer: peer.incoming_buffer + packets,
            ..after_all_packets(peer, packets, times)
        }),
        after_all_packets(peer, packets, times).incoming_buffer == peer.incoming_buffer,
    decreases packets.len(),
{
    if packets.len() > 0 {
        receiving_keeps_packets(peer, packets.drop_last(), times);
        assert((peer.incoming_buffer + packets.drop_last()).push(packets.last())
            =~= peer.incoming_buffer + packets);
    } else {
        assert(peer.incoming_buffer + packets =~= peer.incoming_buffer);
    }
}

/// Whether `buf` starts with `packet` in the wire format.
pub open spec fn starts_with(buf: Seq<u8>, packet: PacketView) -> bool {
    &&& encoding(packet).len() <= buf.len()
    &&& encoding(packet) == buf.subrange(0, encoding(packet).len() as int)
}

/// The packets that are read out of several receive buffers.
pub open spec fn read_out(bufs: Seq<Seq<u8>>) -> Seq<PacketView> {
    bufs.map_values(|buf: Seq<u8>| decoding(buf)->Ok_0)
}

/// The payloads of the first `n` packets, each cut to the length of the part of `message` that it
/// carries, one after the other.
pub open spec fn joined_payloads(
    packets: Seq<PacketView>,
    message: Seq<u8>,
    n: nat,
) -> Seq<u8>
    decreases n,
{
    if n == 0 {
        Seq::empty()
    } else {
        joined_payloads(packets, message, (n - 1) as nat) + packets[n - 1].payload.take(
            chunk(message, n - 1).len() as int,
        )
    }
}

/// The peer when packet `i` of several is handled: those before it have been received, and it is
/// kept for the application.
pub open spec fn peer_before(
    peer: PeerView,
    packets: Seq<PacketView>,
    times: Seq<Timestamp>,
    i: int,
) -> PeerView {
    with_incoming(after_receiving_all(peer, packets.take(i), times), packets[i])
}

/// Whether `packet` is what `r` answers, but for further bytes behind it.
pub open spec fn is_answer_of(packet: PacketView, r: Result<Reaction, SocketError>) -> bool {
    &&& r matches Ok(x)
    &&& x.reply matches Some(p)
    &&& packet == PacketView { payload: packet.payload, ..p@ }
}

proof fn part_is_read(id: u16, peer: PeerView, data: Seq<u8>, i: int, buf: Seq<u8>)
    requires
        starts_with(buf, data_packet(id, peer, data, i)),
    ensures
        decoding(buf) is Ok,
        ({
            let packet = data_packet(id, peer, data, i);
            let rest = buf.subrange(encoding(packet).len() as int, buf.len() as int);
            decoding(buf)->Ok_0 == PacketView { payload: packet.payload + rest, ..packet }
        }),
{
    let packet = data_packet(id, peer, data, i);
    decoding_undoes_encoding(packet);
    trailing_bytes_are_payload(encoding(packet), buf);
}

proof fn payloads_join(
    id: u16,
    peer: PeerView,
    message: Seq<u8>,
    bufs: Seq<Seq<u8>>,
    n: nat,
)
    requires
        n <= bufs.len(),
        forall|j: int|
            0 <= j < bufs.len() ==> starts_with(
                #[trigger] bufs[j],
                data_packet(id, peer, message, j),
            ),
    ensures
        joined_payloads(read_out(bufs), message, n) == joined_chunks(message, n),
    decreases n,
{
    if n > 0 {
        payloads_join(id, peer, message, bufs, (n - 1) as nat);
        part_is_read(id, peer, message, n - 1, bufs[n - 1]);
        let part = chunk(message, n - 1);
        assert(read_out(bufs)[n - 1].payload.take(part.len() as int) =~= part);
    }
}

/// What a peer that lacks nothing makes of packet `i` of several `Data` packets in order.
proof fn data_in_order_is_answered(
    id: u16,
    peer: PeerView,
    packets: Seq<PacketView>,
    times: Seq<Timestamp>,
    i: int,
    r: Result<Reaction, SocketError>,
)
    requires
        is_open(peer.state),
        peer.out_of_order == Map::<u16, PacketView>::empty(),
        follow_on(packets, peer.last_acked),
        peer.last_acked + packets.len() <= u16::MAX,
        peer.seq_nr + packets.len() <= u16::MAX,
        0 <= i < packets.len(),
        is_reaction(id, peer_before(peer, packets, times, i), packets[i], times[i], r),
    ensures
        is_admissible(peer_before(peer, packets, times, i), packets[i]),
        r matches Ok(x) && x.reply matches Some(p) && p@.ty == PacketType::Ack && p@.ack_nr
            == packets[i].seq_nr && p@.sack is None,
{
    let first = packets.take(i);
    assert forall|k: int| 0 <= k < first.len() implies (#[trigger] first[k]).ty
        == PacketType::Data && first[k].seq_nr == peer.last_acked + 1 + k by {
        assert(first[k] == packets[k]);
    }
    packets_in_order_are_delivered(peer, first, times);
    let before = peer_before(peer, packets, times, i);
    assert(packets[i].seq_nr == before.last_acked + 1);
    assert(before.out_of_order.is_empty());
    assert(reach(before.out_of_order.dom(), packets[i].seq_nr) == packets[i].seq_nr);
}

/// Acknowledgements in order are admissible when their turn comes.
proof fn acks_in_order_are_admissible(
    peer: PeerView,
    packets: Seq<PacketView>,
    times: Seq<Timestamp>,
    i: int,
)
    requires
        is_open(peer.state),
        peer.last_acked + packets.len() <= u16::MAX,
        forall|j: int|
            0 <= j < packets.len() ==> (#[trigger] packets[j]).ty == PacketType::Ack
                && packets[j].ack_nr == peer.last_acked + 1 + j && packets[j].sack is None,
        0 <= i < packets.len(),
    ensures
        is_admissible(peer_before(peer, packets, times, i), packets[i]),
{
    let first = packets.take(i);
    assert forall|k: int| 0 <= k < first.len() implies (#[trigger] first[k]).ty == PacketType::Ack
        && first[k].ack_nr == peer.last_acked + 1 + k by {
        assert(first[k] == packets[k]);
    }
    acks_in_order_clear_the_window(peer, first, times);
    receiving_keeps_packets(peer, first, times);
}

/// What goes out for a message when the window was empty: its parts in order.
proof fn parts_go_out(id: u16, peer: PeerView, message: Seq<u8>)
    requires
        peer.sent_window == Map::<u16, PacketView>::empty(),
        peer.seq_nr + chunk_count(message.len()) <= 65536,
    ensures
        window_from(window_after(id, peer, message, chunk_count(message.len())), 0) == Seq::new(
            chunk_count(message.len()),
            |j: int| data_packet(id, peer, message, j),
        ),
        forall|k: u16| #[trigger]
            window_after(id, peer, message, chunk_count(message.len())).contains_key(k)
                <==> peer.seq_nr <= k < peer.seq_nr + chunk_count(message.len()),
{
    let n = chunk_count(message.len());
    let sent = Seq::new(n, |j: int| data_packet(id, peer, message, j));
    let window = window_after(id, peer, message, n);
    sent_numbers(id, peer, message, n);
    assert forall|j: int| 0 <= j < n implies window[(peer.seq_nr + j) as u16]
        == #[trigger] sent[j] by {
        every_packet_is_in_the_window(id, peer, message, n, j);
    }
    consecutive_window(window, peer.seq_nr as int, sent, 0);
}

/// A message of any length is delivered. A connected peer with an empty window sends it to one that
/// expects its first number next and lacks nothing, and each packet is received into a buffer
/// that starts with it. Then:
/// - the packets that go out are the parts of the message in order;
/// - each of them is read out of its buffer and is admissible when its turn comes;
/// - the packets are kept for the application in order, and their payloads, each cut to
///   the length of its part, join to the message;
/// - each of them is answered with its own acknowledgement, which is admissible when its turn
///   comes, and when all have come back the window is empty again.
#[verifier::spinoff_prover]
#[verifier::rlimit(60)]
pub proof fn message_is_delivered(
    client_id: u16,
    client: PeerView,
    server_id: u16,
    server: PeerView,
    message: Seq<u8>,
    bufs: Seq<Seq<u8>>,
    arrival_times: Seq<Timestamp>,
    answers: Seq<Result<Reaction, SocketError>>,
    acks: Seq<PacketView>,
    ack_times: Seq<Timestamp>,
)
    requires
        is_open(client.state),
        client.sent_window == Map::<u16, PacketView>::empty(),
        client.seq_nr == client.last_acked + 1,
        is_open(server.state),
        server.out_of_order == Map::<u16, PacketView>::empty(),
        server.last_acked + 1 == client.seq_nr,
        client.last_acked + chunk_count(message.len()) <= u16::MAX,
        server.seq_nr + chunk_count(message.len()) <= u16::MAX,
        bufs.len() == chunk_count(message.len()),
        forall|j: int|
            0 <= j < bufs.len() ==> starts_with(
                #[trigger] bufs[j],
                data_packet(client_id, client, message, j),
            ),
        answers.len() == bufs.len(),
        forall|j: int|
            0 <= j < answers.len() ==> is_reaction(
                server_id,
                peer_before(server, read_out(bufs), arrival_times, j),
                read_out(bufs)[j],
                arrival_times[j],
                #[trigger] answers[j],
            ),
        acks.len() == answers.len(),
        forall|j: int| 0 <= j < acks.len() ==> is_answer_of(#[trigger] acks[j], answers[j]),
    ensures
        ({
            let n = chunk_count(message.len());
            let sending = after_sending(client_id, client, message, n);
            let arrived = read_out(bufs);
            let received = after_receiving_all(server, arrived, arrival_times);
            let done = after_receiving_all(sending, acks, ack_times);
            &&& window_from(sending.sent_window, 0) == Seq::new(
                n,
                |j: int| data_packet(client_id, client, message, j),
            )
            &&& forall|j: int|
                0 <= j < n ==> decoding(#[trigger] bufs[j]) is Ok && is_admissible(
                    peer_before(server, arrived, arrival_times, j),
                    arrived[j],
                )
            &&& received.incoming_buffer == server.incoming_buffer + arrived
            &&& joined_payloads(arrived, message, n) == message
            &&& received.last_acked == server.last_acked + n
            &&& received.out_of_order == Map::<u16, PacketView>::empty()
            &&& forall|j: int|
                0 <= j < n ==> (#[trigger] acks[j]).ty == PacketType::Ack && acks[j].ack_nr
                    == arrived[j].seq_nr && is_admissible(
                    peer_before(sending, acks, ack_times, j),
                    acks[j],
                )
            &&& done.last_acked == sending.last_acked + n
            &&& done.sent_window == Map::<u16, PacketView>::empty()
        }),
{
    let n = chunk_count(message.len());
    let sending = after_sending(client_id, client, message, n);
    let arrived = read_out(bufs);
    parts_go_out(client_id, client, message);
    payloads_join(client_id, client, message, bufs, n);
    payloads_join_to_the_data(message);
    assert forall|j: int| 0 <= j < n implies decoding(#[trigger] bufs[j]) is Ok && arrived[j].ty
        == PacketType::Data && arrived[j].seq_nr == server.last_acked + 1 + j by {
        part_is_read(client_id, client, message, j, bufs[j]);
        assert(arrived[j].seq_nr == number_after(client.seq_nr, j));
    }
    assert(follow_on(arrived, server.last_acked)) by {
        assert forall|j: int| 0 <= j < arrived.len() implies (#[trigger] arrived[j]).ty
            == PacketType::Data && arrived[j].seq_nr == server.last_acked + 1 + j by {
            assert(decoding(bufs[j]) is Ok);
        }
    }
    packets_in_order_are_delivered(server, arrived, arrival_times);
    assert forall|j: int| 0 <= j < n implies is_admissible(
        peer_before(server, arrived, arrival_times, j),
        arrived[j],
    ) && (#[trigger] acks[j]).ty == PacketType::Ack && acks[j].ack_nr == sending.last_acked + 1 + j
        && acks[j].ack_nr == arrived[j].seq_nr && acks[j].sack is None by {
        data_in_order_is_answered(server_id, server, arrived, arrival_times, j, answers[j]);
        assert(is_answer_of(acks[j], answers[j]));
        assert(decoding(bufs[j]) is Ok);
    }
    assert forall|j: int| 0 <= j < n implies decoding(#[trigger] bufs[j]) is Ok && is_admissible(
        peer_before(server, arrived, arrival_times, j),
        arrived[j],
    ) by {
        assert(acks[j].ty == PacketType::Ack);
    }
    assert forall|j: int| 0 <= j < n implies is_admissible(
        peer_before(sending, acks, ack_times, j),
        #[trigger] acks[j],
    ) by {
        acks_in_order_are_admissible(sending, acks, ack_times, j);
    }
    acks_in_order_clear_the_window(sending, acks, ack_times);
    receiving_keeps_packets(sending, acks, ack_times);
    assert(after_all_packets(sending, acks, ack_times).sent_window =~= Map::<
        u16,
        PacketView,
    >::empty());
}

/// The numbers in a window that was empty are those of the packets put into it.
proof fn sent_numbers(id: u16, peer: PeerView, data: Seq<u8>, n: nat)
    requires
        peer.sent_window == Map::<u16, PacketView>::empty(),
        peer.seq_nr + n <= 65536,
    ensures
        forall|k: u16| #[trigger]
            window_after(id, peer, data, n).contains_key(k) <==> peer.seq_nr <= k < peer.seq_nr + n,
    decreases n,
{
    if n > 0 {
        sent_numbers(id, peer, data, (n - 1) as nat);
        assert(number_after(peer.seq_nr, n - 1) == peer.seq_nr + n - 1);
        let before = window_after(id, peer, data, (n - 1) as nat);
        assert forall|k: u16| #[trigger]
            window_after(id, peer, data, n).contains_key(k) <==> peer.seq_nr <= k < peer.seq_nr
                + n by {
            assert(before.contains_key(k) <==> peer.seq_nr <= k < peer.seq_nr + n - 1);
        }
    }
}

/// A window with consecutive numbers goes out as it stands.
proof fn consecutive_window(
    window: Map<u16, PacketView>,
    first: int,
    packets: Seq<PacketView>,
    from: int,
)
    requires
        0 <= first,
        first + packets.len() <= 65536,
        forall|k: u16| #[trigger]
            window.contains_key(k) <==> first <= k < first + packets.len(),
        forall|i: int|
            0 <= i < packets.len() ==> window[(first + i) as u16] == #[trigger] packets[i],
        0 <= from <= 65536,
    ensures
        window_from(window, from) == if from <= first {
            packets
        } else if from < first + packets.len() {
            packets.skip(from - first)
        } else {
            Seq::empty()
        },
    decreases 65536 - from,
{
    if from <= u16::MAX {
        consecutive_window(window, first, packets, from + 1);
        if window.contains_key(from as u16) {
            let i = from - first;
            assert(window[(first + i) as u16] == packets[i]);
            let rest = window_from(window, from + 1);
            assert(rest =~= packets.skip(i + 1));
            assert(seq![packets[i]] + rest =~= packets.skip(i));
            assert(packets.skip(0) =~= packets);
        }
    }
}

/// The first `n` parts of `data`, one after the other.
pub open spec fn joined_chunks(data: Seq<u8>, n: nat) -> Seq<u8>
    decreases n,
{
    if n == 0 {
        Seq::empty()
    } else {
        joined_chunks(data, (n - 1) as nat) + chunk(data, n - 1)
    }
}

proof fn chunks_join(data: Seq<u8>, n: nat)
    requires
        n <= chunk_count(data.len()),
    ensures
        joined_chunks(data, n) == data.take(
            if n * BUF_SIZE <= data.len() {
                (n * BUF_SIZE) as int
            } else {
                data.len() as int
            },
        ),
    decreases n,
{
    if n == 0 {
        assert(data.take(0) =~= Seq::<u8>::empty());
    } else {
        chunks_join(data, (n - 1) as nat);
        assert((n - 1) * BUF_SIZE < data.len());
        assert(joined_chunks(data, n) =~= data.take(
            if n * BUF_SIZE <= data.len() {
                (n * BUF_SIZE) as int
            } else {
                data.len() as int
            },
        ));
    }
}

/// What is sent is split up without loss: the payloads of the packets, one after the other, are
/// the data, and none of them is empty or longer than a packet carries.
pub proof fn payloads_join_to_the_data(data: Seq<u8>)
    ensures
        joined_chunks(data, chunk_count(data.len())) == data,
        forall|i: int|
            0 <= i < chunk_count(data.len()) ==> 0 < (#[trigger] chunk(data, i)).len() <= BUF_SIZE,
{
    let n = chunk_count(data.len());
    chunks_join(data, n);
    assert(data.take(data.len() as int) =~= data);
}

/// Every part of the data is in the window under its own number, as long as no later part takes
/// that number.
pub proof fn every_packet_is_in_the_window(
    id: u16,
    peer: PeerView,
    data: Seq<u8>,
    n: nat,
    i: int,
)
    requires
        0 <= i < n <= i + 65536,
    ensures
        window_after(id, peer, data, n).contains_key(number_after(peer.seq_nr, i)),
        window_after(id, peer, data, n)[number_after(peer.seq_nr, i)] == data_packet(
            id,
            peer,
            data,
            i,
        ),
    decreases n,
{
    if i < n - 1 {
        every_packet_is_in_the_window(id, peer, data, (n - 1) as nat, i);
        assert(number_after(peer.seq_nr, i) != number_after(peer.seq_nr, n - 1));
    }
}

/// Everything in the window is sent: each packet of it is among those that go out.
pub proof fn whole_window_is_sent(window: Map<u16, PacketView>, from: int, k: u16)
    requires
        0 <= from <= k,
        window.contains_key(k),
    ensures
        window_from(window, from).contains(window[k]),
    decreases 65536 - from,
{
    if from == k {
        assert(window_from(window, from)[0] == window[k]);
    } else {
        whole_window_is_sent(window, from + 1, k);
        let rest = window_from(window, from + 1);
        let i = choose|i: int| 0 <= i < rest.len() && rest[i] == window[k];
        if window.contains_key(from as u16) {
            assert(window_from(window, from)[i + 1] == window[k]);
        }
    }
}

/// A packet with payload that a socket sends fits into the buffer of the socket that receives it,
/// and comes out of it with its number and its payload, followed by what else is in the buffer.
pub proof fn sent_packets_fit_the_receive_buffer(
    id: u16,
    peer: PeerView,
    data: Seq<u8>,
    i: int,
    buf: Seq<u8>,
)
    requires
        0 <= i < chunk_count(data.len()),
        buf.len() == RECV_BUF_SIZE,
        encoding(data_packet(id, peer, data, i)) == buf.subrange(
            0,
            encoding(data_packet(id, peer, data, i)).len() as int,
        ),
    ensures
        encoding(data_packet(id, peer, data, i)).len() <= RECV_BUF_SIZE,
        decoding(buf) is Ok,
        ({
            let packet = data_packet(id, peer, data, i);
            let rest = buf.subrange(encoding(packet).len() as int, buf.len() as int);
            decoding(buf)->Ok_0 == PacketView { payload: packet.payload + rest, ..packet }
        }),
{
    let packet = data_packet(id, peer, data, i);
    payloads_join_to_the_data(data);
    assert(0 < chunk(data, i).len() <= BUF_SIZE);
    encoding_length(packet);
    part_is_read(id, peer, data, i, buf);
}

} // verus!
