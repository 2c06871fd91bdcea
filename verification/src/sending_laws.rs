//! What calls that send data do, in terms of what they are given and what comes out.
use crate::addr::PeerAddr;
use crate::error::SocketError;
use crate::laws::every_packet_is_in_the_window;
use crate::packet::{Packet, PacketType, PacketView};
use crate::socket::{
    chunk, chunk_count, number_after, window_after, window_from, UtpSocket, BUF_SIZE,
};
use crate::state::{PeerView, SocketState};
use crate::time::{Delay, Timestamp};
use vstd::prelude::*;

verus! {

/// Whether `n` packets are what it takes to carry `len` bytes, with none to spare.
pub open spec fn takes_packets(len: nat, n: nat) -> bool {
    len <= n * BUF_SIZE < len + BUF_SIZE
}

/// Where part `i` of `len` bytes ends.
pub open spec fn part_end(len: nat, i: int) -> int {
    if (i + 1) * BUF_SIZE <= len {
        (i + 1) * BUF_SIZE
    } else {
        len as int
    }
}

/// Whether `p` is packet `i` of a message: it carries just its part of `data`, the number that
/// follows `first` by `i` in the circle of numbers, and the given id and acknowledgement.
pub open spec fn carries_part(
    p: PacketView,
    id: u16,
    ack_nr: u16,
    first: u16,
    data: Seq<u8>,
    i: int,
) -> bool {
    &&& p.ty == PacketType::Data
    &&& p.connection_id == id
    &&& p.seq_nr == (first + i) % 65536
    &&& p.ack_nr == ack_nr
    &&& p.payload == data.subrange(i * BUF_SIZE, part_end(data.len(), i))
    &&& p.sack is None
    &&& p.timestamp == Timestamp(0)
    &&& p.timestamp_difference == Delay(0)
    &&& p.wnd_size == 0
}

/// Whether `keys` are the numbers in `window`, in increasing order, and `packets` what stands under
/// them.
pub open spec fn lists_in_order(
    packets: Seq<PacketView>,
    window: Map<u16, PacketView>,
    keys: Seq<u16>,
) -> bool {
    &&& forall|i: int, j: int| 0 <= i < j < keys.len() ==> keys[i] < keys[j]
    &&& forall|k: u16| #[trigger] keys.contains(k) <==> window.contains_key(k)
    &&& packets.len() == keys.len()
    &&& forall|i: int| 0 <= i < packets.len() ==> #[trigger] packets[i] == window[keys[i]]
}

/// What each of several packets holds.
pub open spec fn views(packets: Seq<Packet>) -> Seq<PacketView> {
    packets.map_values(|p: Packet| p@)
}

/// Sending succeeds just if the peer is known and not closed; the other two cases have an error
/// each, and change nothing.
pub proof fn sending_needs_an_open_peer(
    socket: &mut UtpSocket,
    buf: &[u8],
    addr: PeerAddr,
    r: Result<Vec<Packet>, SocketError>,
)
    requires
        call_ensures(UtpSocket::send_packets_to, (socket, buf, addr), r),
    ensures
        (r matches Err(SocketError::NoPeer)) <==> !old(socket)@.contains_key(addr),
        (r matches Err(SocketError::ConnectionClosed)) <==> old(socket)@.contains_key(addr) && old(socket)@[addr].state == SocketState::Closed,
        r is Ok <==> old(socket)@.contains_key(addr) && old(socket)@[addr].state
            != SocketState::Closed,
        r is Err ==> final(socket)@ == old(socket)@,
        final(socket).id == old(socket).id && final(socket).drop == old(socket).drop,
{
}

/// Sending changes of one peer the next number and the window, and nothing else anywhere.
pub proof fn sending_changes_one_window(
    socket: &mut UtpSocket,
    buf: &[u8],
    addr: PeerAddr,
    r: Result<Vec<Packet>, SocketError>,
    other: PeerAddr,
)
    requires
        call_ensures(UtpSocket::send_packets_to, (socket, buf, addr), r),
        r is Ok,
    ensures
        final(socket)@.contains_key(other) <==> old(socket)@.contains_key(other),
        other != addr ==> final(socket)@[other] == old(socket)@[other],
        final(socket)@[addr] == (PeerView {
            seq_nr: final(socket)@[addr].seq_nr,
            sent_window: final(socket)@[addr].sent_window,
            ..old(socket)@[addr]
        }),
{
}

/// A message uses up a number for each of its packets: the next number is as far beyond the one
/// before the call, in the circle of numbers, as there are packets. So it is none of the numbers
/// just used, as long as there are any others.
pub proof fn sending_uses_up_its_numbers(
    socket: &mut UtpSocket,
    buf: &[u8],
    addr: PeerAddr,
    r: Result<Vec<Packet>, SocketError>,
    n: nat,
    i: int,
)
    requires
        call_ensures(UtpSocket::send_packets_to, (socket, buf, addr), r),
        r is Ok,
        takes_packets(buf@.len(), n),
    ensures
        final(socket)@[addr].seq_nr == (old(socket)@[addr].seq_nr + n) % 65536,
        n == 0 ==> final(socket)@[addr].seq_nr == old(socket)@[addr].seq_nr,
        0 <= i < n < 65536 ==> final(socket)@[addr].seq_nr != (old(socket)@[addr].seq_nr + i)
            % 65536,
{
    assert(chunk_count(buf@.len()) == n);
    let s = old(socket)@[addr].seq_nr;
    assert((s + n) % 65536 == number_after(s, n as int));
}

proof fn window_holds_the_part(id: u16, peer: PeerView, data: Seq<u8>, n: nat, i: int)
    requires
        takes_packets(data.len(), n),
        0 <= i < n <= i + 65536,
    ensures
        window_after(id, peer, data, n).contains_key(((peer.seq_nr + i) % 65536) as u16),
        carries_part(
            window_after(id, peer, data, n)[((peer.seq_nr + i) % 65536) as u16],
            id,
            peer.ack_nr,
            peer.seq_nr,
            data,
            i,
        ),
{
    every_packet_is_in_the_window(id, peer, data, n, i);
    assert(chunk(data, i) =~= data.subrange(i * BUF_SIZE, part_end(data.len(), i)));
}

/// Each part of a message stands in the window after it is sent, under its own number, with just
/// its own bytes, unless a later part has taken the number.
pub proof fn every_part_stands_in_the_window(
    socket: &mut UtpSocket,
    buf: &[u8],
    addr: PeerAddr,
    r: Result<Vec<Packet>, SocketError>,
    n: nat,
    i: int,
)
    requires
        call_ensures(UtpSocket::send_packets_to, (socket, buf, addr), r),
        r is Ok,
        takes_packets(buf@.len(), n),
        0 <= i < n <= i + 65536,
    ensures
        ({
            let before = old(socket)@[addr];
            let window = final(socket)@[addr].sent_window;
            let k = ((before.seq_nr + i) % 65536) as u16;
            &&& window.contains_key(k)
            &&& carries_part(window[k], old(socket).id, before.ack_nr, before.seq_nr, buf@, i)
        }),
{
    assert(chunk_count(buf@.len()) == n);
    window_holds_the_part(old(socket).id, old(socket)@[addr], buf@, n, i);
}

proof fn other_numbers_stay(id: u16, peer: PeerView, data: Seq<u8>, n: nat, k: u16)
    requires
        forall|i: int| 0 <= i < n ==> k != #[trigger] number_after(peer.seq_nr, i),
    ensures
        window_after(id, peer, data, n).contains_key(k) <==> peer.sent_window.contains_key(k),
        window_after(id, peer, data, n)[k] == peer.sent_window[k],
    decreases n,
{
    if n > 0 {
        other_numbers_stay(id, peer, data, (n - 1) as nat, k);
        assert(k != number_after(peer.seq_nr, n - 1));
    }
}

/// What stood in the window under other numbers than those of the message stays as it was, and
/// nothing is added under them.
pub proof fn rest_of_the_window_stays(
    socket: &mut UtpSocket,
    buf: &[u8],
    addr: PeerAddr,
    r: Result<Vec<Packet>, SocketError>,
    n: nat,
    k: u16,
)
    requires
        call_ensures(UtpSocket::send_packets_to, (socket, buf, addr), r),
        r is Ok,
        takes_packets(buf@.len(), n),
        (k - old(socket)@[addr].seq_nr) % 65536 >= n,
    ensures
        final(socket)@[addr].sent_window.contains_key(k) <==> old(socket)@[addr].sent_window.contains_key(k),
        final(socket)@[addr].sent_window[k] == old(socket)@[addr].sent_window[k],
{
    assert(chunk_count(buf@.len()) == n);
    let s = old(socket)@[addr].seq_nr;
    assert forall|i: int| 0 <= i < n implies k != #[trigger] number_after(s, i) by {
        assert(number_after(s, i) == (s + i) % 65536);
    }
    other_numbers_stay(old(socket).id, old(socket)@[addr], buf@, n, k);
}

/// The numbers in a window from `from` on, in increasing order.
spec fn numbers_from(window: Map<u16, PacketView>, from: int) -> Seq<u16>
    decreases 65536 - from,
{
    if from > u16::MAX {
        Seq::empty()
    } else if window.contains_key(from as u16) {
        seq![from as u16] + numbers_from(window, from + 1)
    } else {
        numbers_from(window, from + 1)
    }
}

proof fn numbers_are_in_order(window: Map<u16, PacketView>, from: int)
    requires
        0 <= from <= 65536,
    ensures
        ({
            let keys = numbers_from(window, from);
            let packets = window_from(window, from);
            &&& forall|i: int, j: int| 0 <= i < j < keys.len() ==> keys[i] < keys[j]
            &&& forall|i: int|
                0 <= i < keys.len() ==> from <= #[trigger] keys[i] && window.contains_key(keys[i])
            &&& forall|k: u16| from <= k && window.contains_key(k) ==> #[trigger] keys.contains(k)
            &&& packets.len() == keys.len()
            &&& forall|i: int| 0 <= i < packets.len() ==> #[trigger] packets[i] == window[keys[i]]
        }),
    decreases 65536 - from,
{
    if from <= u16::MAX {
        numbers_are_in_order(window, from + 1);
        let keys = numbers_from(window, from);
        let rest = numbers_from(window, from + 1);
        if window.contains_key(from as u16) {
            assert(keys[0] == from);
            assert forall|i: int| 1 <= i < keys.len() implies keys[i] == rest[i - 1] by {}
            assert forall|k: u16| from <= k && window.contains_key(k) implies #[trigger] keys.contains(
                k,
            ) by {
                if k > from {
                    assert(rest.contains(k));
                    let i = choose|i: int| 0 <= i < rest.len() && rest[i] == k;
                    assert(keys[i + 1] == k);
                }
            }
        }
    }
}

/// What goes out is the window: every packet in it once, in increasing order of the numbers.
pub proof fn window_goes_out_in_order(
    socket: &mut UtpSocket,
    buf: &[u8],
    addr: PeerAddr,
    r: Result<Vec<Packet>, SocketError>,
)
    requires
        call_ensures(UtpSocket::send_packets_to, (socket, buf, addr), r),
        r is Ok,
    ensures
        exists|keys: Seq<u16>| #[trigger]
            lists_in_order(
                views(r->Ok_0@),
                final(socket)@[addr].sent_window,
                keys,
            ),
{
    let window = final(socket)@[addr].sent_window;
    let packets = views(r->Ok_0@);
    let keys = numbers_from(window, 0);
    numbers_are_in_order(window, 0);
    assert(packets == window_from(window, 0));
    assert forall|k: u16| #[trigger] keys.contains(k) <==> window.contains_key(k) by {}
    assert(lists_in_order(packets, window, keys));
}

/// Each packet in the window goes out.
pub proof fn packet_in_the_window_goes_out(
    socket: &mut UtpSocket,
    buf: &[u8],
    addr: PeerAddr,
    r: Result<Vec<Packet>, SocketError>,
    k: u16,
)
    requires
        call_ensures(UtpSocket::send_packets_to, (socket, buf, addr), r),
        r is Ok,
        final(socket)@[addr].sent_window.contains_key(k),
    ensures
        views(r->Ok_0@).contains(final(socket)@[addr].sent_window[k]),
{
    window_goes_out_in_order(socket, buf, addr, r);
    let window = final(socket)@[addr].sent_window;
    let packets = views(r->Ok_0@);
    let keys = choose|keys: Seq<u16>| #[trigger] lists_in_order(packets, window, keys);
    assert(keys.contains(k));
    let i = choose|i: int| 0 <= i < keys.len() && keys[i] == k;
    assert(packets[i] == window[k]);
}

proof fn numbers_go_round(first: int, n: int, m: int, i: int, j: int)
    requires
        0 <= first < 65536,
        0 <= i < n,
        0 <= j < m,
        n + m <= 65536,
    ensures
        ((first + n) % 65536 + j) % 65536 == (first + n + j) % 65536,
        ((first + n) % 65536 + m) % 65536 == (first + n + m) % 65536,
        ((first + i) % 65536 - (first + n) % 65536) % 65536 >= m,
{
}

/// Two messages sent one after the other both stand whole in the window, one behind the other, and
/// all their packets go out with the second one, as long as there are numbers for all of them.
pub proof fn two_messages_stand_whole(
    socket: &mut UtpSocket,
    buf: &[u8],
    r: Result<Vec<Packet>, SocketError>,
    n: nat,
    then: &mut UtpSocket,
    buf_then: &[u8],
    r_then: Result<Vec<Packet>, SocketError>,
    n_then: nat,
    addr: PeerAddr,
    i: int,
    j: int,
)
    requires
        call_ensures(UtpSocket::send_packets_to, (socket, buf, addr), r),
        call_ensures(UtpSocket::send_packets_to, (then, buf_then, addr), r_then),
        r is Ok,
        old(then)@ == final(socket)@,
        takes_packets(buf@.len(), n),
        takes_packets(buf_then@.len(), n_then),
        n + n_then <= 65536,
        0 <= i < n,
        0 <= j < n_then,
    ensures
        r_then is Ok,
        ({
            let first = old(socket)@[addr].seq_nr;
            let ack_nr = old(socket)@[addr].ack_nr;
            let next = ((first + n) % 65536) as u16;
            let window = final(then)@[addr].sent_window;
            let a = ((first + i) % 65536) as u16;
            let b = ((first + n + j) % 65536) as u16;
            &&& window.contains_key(a) && carries_part(
                window[a],
                old(socket).id,
                ack_nr,
                first,
                buf@,
                i,
            )
            &&& window.contains_key(b) && carries_part(
                window[b],
                old(then).id,
                ack_nr,
                next,
                buf_then@,
                j,
            )
            &&& final(then)@[addr].seq_nr == (first + n + n_then) % 65536
            &&& views(r_then->Ok_0@).contains(window[a])
            &&& views(r_then->Ok_0@).contains(window[b])
        }),
{
    let first = old(socket)@[addr].seq_nr;
    let a = ((first + i) % 65536) as u16;
    let b = ((first + n + j) % 65536) as u16;
    numbers_go_round(first as int, n as int, n_then as int, i, j);
    sending_uses_up_its_numbers(socket, buf, addr, r, n, i);
    every_part_stands_in_the_window(socket, buf, addr, r, n, i);
    sending_changes_one_window(socket, buf, addr, r, addr);
    sending_needs_an_open_peer(socket, buf, addr, r);
    sending_needs_an_open_peer(then, buf_then, addr, r_then);
    every_part_stands_in_the_window(then, buf_then, addr, r_then, n_then, j);
    sending_uses_up_its_numbers(then, buf_then, addr, r_then, n_then, j);
    rest_of_the_window_stays(then, buf_then, addr, r_then, n_then, a);
    packet_in_the_window_goes_out(then, buf_then, addr, r_then, a);
    packet_in_the_window_goes_out(then, buf_then, addr, r_then, b);
}

/// Sending to a given address is the same with and without that address in the answer.
pub proof fn sending_with_an_address(
    socket: &mut UtpSocket,
    other: &mut UtpSocket,
    buf: &[u8],
    addr: PeerAddr,
    r: Result<(PeerAddr, Vec<Packet>), SocketError>,
    other_r: Result<Vec<Packet>, SocketError>,
)
    requires
        call_ensures(UtpSocket::send_packets, (socket, buf, Some(addr)), r),
        call_ensures(UtpSocket::send_packets_to, (other, buf, addr), other_r),
        old(socket)@ == old(other)@,
        old(socket).id == old(other).id,
    ensures
        final(socket)@ == final(other)@,
        r is Ok <==> other_r is Ok,
        r is Ok ==> r->Ok_0.0 == addr && views(r->Ok_0.1@)
            == views(other_r->Ok_0@),
        (r matches Err(SocketError::NoPeer)) <==> (other_r matches Err(SocketError::NoPeer)),
        (r matches Err(SocketError::ConnectionClosed)) <==> (other_r matches Err(
            SocketError::ConnectionClosed,
        )),
        final(socket).id == old(socket).id && final(socket).drop == old(socket).drop,
{
}

/// Sending without an address needs some peer, and is then the same as sending to one of them: the
/// one in the answer, or else a closed one.
pub proof fn sending_without_an_address(
    socket: &mut UtpSocket,
    other: &mut UtpSocket,
    buf: &[u8],
    addr: PeerAddr,
    r: Result<(PeerAddr, Vec<Packet>), SocketError>,
    other_r: Result<Vec<Packet>, SocketError>,
)
    requires
        call_ensures(UtpSocket::send_packets, (socket, buf, None::<PeerAddr>), r),
        call_ensures(UtpSocket::send_packets_to, (other, buf, addr), other_r),
        old(socket)@ == old(other)@,
        old(socket).id == old(other).id,
        r is Ok ==> addr == r->Ok_0.0,
    ensures
        (r matches Err(SocketError::NoPeers)) <==> old(socket)@ == Map::<
            PeerAddr,
            PeerView,
        >::empty(),
        r is Ok ==> old(socket)@.contains_key(addr) && other_r is Ok && final(socket)@ == final(other)@ && views(r->Ok_0.1@) == views(other_r->Ok_0@),
        r is Err ==> final(socket)@ == old(socket)@,
        r is Err && !(r matches Err(SocketError::NoPeers)) ==> (r matches Err(
            SocketError::ConnectionClosed,
        )) && exists|a: PeerAddr| #[trigger]
            old(socket)@.contains_key(a) && old(socket)@[a].state == SocketState::Closed,
        final(socket).id == old(socket).id && final(socket).drop == old(socket).drop,
{
    let peers = old(socket)@;
    if peers.is_empty() {
        assert(peers =~= Map::<PeerAddr, PeerView>::empty());
    }
}

} // verus!
