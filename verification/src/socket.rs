//! A socket: its peers, what it sends to them, and how it takes in what they send.
use crate::addr::PeerAddr;
use crate::error::{ParseError, SocketError};
use crate::numbers::{are_numbers_of, visited_in_order};
use crate::packet::{bare_packet, Packet, PacketType, PacketView};
use crate::peers::PeerTable;
use crate::reaction::{
    after_packet, answer, can_react, is_admissible, is_open, is_reaction, prepare_reply, react,
    Reaction,
};
use crate::selective_ack::{
    is_lost_list, is_readable, is_selective_ack, lost_seq_nrs, selective_ack,
};
use crate::state::{
    fresh_peer, packets_by_number, packets_in_line, PeerView, SocketState, UtpSocketState,
};
use crate::time::Timestamp;
use crate::wire::{decoding, trailing_bytes_are_payload};
use std::collections::BTreeMap;
use vstd::prelude::*;
use vstd::slice::slice_subrange;
use vstd::std_specs::iter::IteratorSpec;

verus! {

/// How much payload a packet carries at most, in bytes.
pub const BUF_SIZE: usize = 6;

/// The size of the buffer into which a socket receives, in bytes.
pub const RECV_BUF_SIZE: usize = 26;

/// A socket without its connection to the network.
pub struct UtpSocket {
    pub peers: PeerTable,
    /// The number by which this socket names itself to its peers.
    pub id: u16,
    /// Whether incoming packets may be dropped, to simulate loss.
    pub drop: bool,
}

/// What became of a datagram.
#[derive(Debug)]
pub enum Received {
    /// It was dropped.
    Lost,
    /// It was handed to the peer.
    Handled(Reaction),
}

impl View for UtpSocket {
    type V = Map<PeerAddr, PeerView>;

    open spec fn view(&self) -> Map<PeerAddr, PeerView> {
        self.peers@
    }
}

/// The request of the socket `id` for a connection.
pub open spec fn syn(id: u16) -> PacketView {
    PacketView { ty: PacketType::Syn, connection_id: id, seq_nr: 1, ..bare_packet(Seq::empty()) }
}

/// A peer that the socket `id` has asked for a connection.
pub open spec fn connecting_peer(sender_id: u16, addr: PeerAddr, id: u16) -> PeerView {
    PeerView {
        state: SocketState::SynSent,
        connected_to: Some(addr),
        sent_window: Map::<u16, PacketView>::empty().insert(1, syn(id)),
        ..fresh_peer(sender_id)
    }
}

/// Into how many packets `len` bytes are split.
pub open spec fn chunk_count(len: nat) -> nat {
    (len + BUF_SIZE - 1) as nat / BUF_SIZE as nat
}

/// The part of `data` that goes into packet `i`.
pub open spec fn chunk(data: Seq<u8>, i: int) -> Seq<u8> {
    data.subrange(
        i * BUF_SIZE,
        if (i + 1) * BUF_SIZE <= data.len() {
            (i + 1) * BUF_SIZE
        } else {
            data.len() as int
        },
    )
}

/// The number that follows `seq_nr` by `i`, in the circle of sequence numbers.
pub open spec fn number_after(seq_nr: u16, i: int) -> u16 {
    ((seq_nr + i) % 65536) as u16
}

/// Packet `i` of those that carry `data` from the socket `id` to `peer`.
pub open spec fn data_packet(id: u16, peer: PeerView, data: Seq<u8>, i: int) -> PacketView {
    PacketView {
        connection_id: id,
        seq_nr: number_after(peer.seq_nr, i),
        ack_nr: peer.ack_nr,
        ..bare_packet(chunk(data, i))
    }
}

/// The window of sent packets once the first `n` packets that carry `data` are in it.
pub open spec fn window_after(id: u16, peer: PeerView, data: Seq<u8>, n: nat) -> Map<
    u16,
    PacketView,
>
    decreases n,
{
    if n == 0 {
        peer.sent_window
    } else {
        window_after(id, peer, data, (n - 1) as nat).insert(
            number_after(peer.seq_nr, n - 1),
            data_packet(id, peer, data, n - 1),
        )
    }
}

/// The peer once the first `n` packets that carry `data` are under way.
pub open spec fn after_sending(id: u16, peer: PeerView, data: Seq<u8>, n: nat) -> PeerView {
    PeerView {
        seq_nr: number_after(peer.seq_nr, n as int),
        sent_window: window_after(id, peer, data, n),
        ..peer
    }
}

/// The packets of a window with numbers from `from` on, in the order of the numbers.
pub open spec fn window_from(window: Map<u16, PacketView>, from: int) -> Seq<PacketView>
    decreases 65536 - from,
{
    if from > u16::MAX {
        Seq::empty()
    } else if window.contains_key(from as u16) {
        seq![window[from as u16]] + window_from(window, from + 1)
    } else {
        window_from(window, from + 1)
    }
}

/// What the socket `id` with the peers `before` does and answers when `data` is to be sent to
/// `addr`.
pub open spec fn is_sending(
    id: u16,
    before: Map<PeerAddr, PeerView>,
    after: Map<PeerAddr, PeerView>,
    data: Seq<u8>,
    addr: PeerAddr,
    r: Result<Vec<Packet>, SocketError>,
) -> bool {
    if !before.contains_key(addr) {
        (r matches Err(SocketError::NoPeer)) && after == before
    } else if before[addr].state == SocketState::Closed {
        (r matches Err(SocketError::ConnectionClosed)) && after == before
    } else {
        let peer = after_sending(id, before[addr], data, chunk_count(data.len()));
        &&& r matches Ok(packets)
        &&& after == before.insert(addr, peer)
        &&& packets_in_line(packets@) == window_from(peer.sent_window, 0)
    }
}

/// As [`is_sending`], with the address in the answer.
pub open spec fn is_sending_to(
    id: u16,
    before: Map<PeerAddr, PeerView>,
    after: Map<PeerAddr, PeerView>,
    data: Seq<u8>,
    addr: PeerAddr,
    r: Result<(PeerAddr, Vec<Packet>), SocketError>,
) -> bool {
    match r {
        Ok((a, packets)) => a == addr && is_sending(id, before, after, data, addr, Ok(packets)),
        Err(e) => is_sending(id, before, after, data, addr, Err(e)),
    }
}

/// As [`is_sending_to`], to some peer among `before`.
pub open spec fn is_sending_to_some(
    id: u16,
    before: Map<PeerAddr, PeerView>,
    after: Map<PeerAddr, PeerView>,
    data: Seq<u8>,
    r: Result<(PeerAddr, Vec<Packet>), SocketError>,
) -> bool {
    exists|a: PeerAddr| #[trigger]
        before.contains_key(a) && is_sending_to(id, before, after, data, a, r)
}

/// The peer that a packet with the connection id `id` from `addr` is for.
pub open spec fn peer_at(peers: Map<PeerAddr, PeerView>, addr: PeerAddr, id: u16) -> PeerView {
    if peers.contains_key(addr) {
        peers[addr]
    } else {
        PeerView { connected_to: Some(addr), ..fresh_peer(id) }
    }
}

/// A peer with `packet` among what it has sent.
pub open spec fn with_incoming(peer: PeerView, packet: PacketView) -> PeerView {
    PeerView { incoming_buffer: peer.incoming_buffer.push(packet), ..peer }
}

/// Whether a packet is refused by a peer in this state.
pub open spec fn is_refused(state: SocketState, ty: PacketType) -> bool {
    match ty {
        PacketType::Syn => false,
        PacketType::State => state != SocketState::SynSent && state != SocketState::Connected,
        PacketType::Reset => true,
        _ => !is_open(state),
    }
}

/// Whether `x` is what follows from `packet`; from a refused one nothing does.
pub open spec fn is_effect(
    id: u16,
    peer: PeerView,
    packet: PacketView,
    now: Timestamp,
    x: Reaction,
) -> bool {
    if is_refused(peer.state, packet.ty) {
        x.reply is None && x.lost@.len() == 0
    } else {
        is_reaction(id, peer, packet, now, Ok(x))
    }
}

/// Whether the socket drops `packet`, if chance says so.
pub open spec fn drops(drop: bool, packet: PacketView, lost: bool) -> bool {
    drop && packet.seq_nr != 1 && lost
}

/// Whether the first `len` bytes of `buf`, coming from `addr`, are no packet, or one that is
/// dropped, or one to which the peer can react.
pub open spec fn is_receivable(
    drop: bool,
    peers: Map<PeerAddr, PeerView>,
    buf: Seq<u8>,
    len: int,
    addr: PeerAddr,
    lost: bool,
) -> bool {
    decoding(buf.subrange(0, len)) matches Ok(p) ==> drops(drop, p, lost) || is_admissible(
        peer_at(peers, addr, p.connection_id),
        decoding(buf)->Ok_0,
    )
}

proof fn window_is_in_order(window: Map<u16, PacketView>, keys: Seq<u16>, i: int, from: int)
    requires
        0 <= i <= keys.len(),
        0 <= from <= 65536,
        forall|a: int, b: int| 0 <= a < b < keys.len() ==> keys[a] < keys[b],
        forall|k: u16| window.contains_key(k) ==> keys.contains(k),
        forall|a: int| 0 <= a < keys.len() ==> window.contains_key(#[trigger] keys[a]),
        forall|a: int| 0 <= a < i ==> #[trigger] keys[a] < from,
        forall|a: int| i <= a < keys.len() ==> #[trigger] keys[a] >= from,
    ensures
        window_from(window, from) == keys.subrange(i, keys.len() as int).map_values(
            |k: u16| window[k],
        ),
    decreases 65536 - from,
{
    let rest = keys.subrange(i, keys.len() as int).map_values(|k: u16| window[k]);
    if from > u16::MAX {
        assert(i == keys.len()) by {
            if i < keys.len() {
                assert(keys[i] >= from);
            }
        }
        assert(rest =~= Seq::empty());
    } else if window.contains_key(from as u16) {
        assert(keys.contains(from as u16));
        let a = choose|a: int| 0 <= a < keys.len() && keys[a] == from as u16;
        assert(a == i) by {
            assert(a >= i);
            if i < a {
                assert(keys[i] < keys[a]);
            }
        }
        assert forall|b: int| i + 1 <= b < keys.len() implies #[trigger] keys[b] >= from + 1 by {
            assert(keys[i] < keys[b]);
        }
        window_is_in_order(window, keys, i + 1, from + 1);
        assert(rest =~= seq![window[from as u16]] + keys.subrange(
            i + 1,
            keys.len() as int,
        ).map_values(|k: u16| window[k]));
    } else {
        assert forall|b: int| i <= b < keys.len() implies #[trigger] keys[b] >= from + 1 by {
            assert(window.contains_key(keys[b]));
        }
        window_is_in_order(window, keys, i, from + 1);
    }
}

/// The packets of a window, in the order of their numbers.
fn window_packets(window: &BTreeMap<u16, Packet>) -> (packets: Vec<Packet>)
    ensures
        packets_in_line(packets@) == window_from(packets_by_number(window@), 0),
{
    let entries = window.iter();
    let ghost keys: Seq<u16> = entries.remaining().map_values(|kv: (&u16, &Packet)| *kv.0);
    let ghost view = packets_by_number(window@);
    proof {
        visited_in_order(window, entries, keys);
    }
    let mut packets: Vec<Packet> = Vec::new();
    for (_seq_nr, packet) in it: entries
        invariant
            it.seq() == entries.remaining(),
            keys.len() == it.seq().len(),
            view == packets_by_number(window@),
            are_numbers_of(keys, window@),
            forall|i: int|
                0 <= i < keys.len() ==> *(#[trigger] it.seq()[i]).0 == keys[i] && *it.seq()[i].1
                    == window@[keys[i]],
            packets.len() == it.index(),
            forall|i: int| 0 <= i < packets.len() ==> (#[trigger] packets@[i])@ == view[keys[i]],
    {
        assert(window@.contains_key(keys[it.index()]));
        packets.push(packet.clone());
    }
    proof {
        assert forall|k: u16| view.contains_key(k) implies keys.contains(k) by {
            assert(window@.contains_key(k));
        }
        assert forall|a: int| 0 <= a < keys.len() implies view.contains_key(#[trigger] keys[a]) by {
            assert(window@.contains_key(keys[a]));
        }
        window_is_in_order(view, keys, 0, 0);
        assert(packets_in_line(packets@) =~= keys.subrange(0, keys.len() as int).map_values(
            |k: u16| view[k],
        ));
    }
    packets
}

/// Puts packets that carry `data` into the peer's window of sent packets.
fn queue(id: u16, data: &[u8], peer: &mut UtpSocketState)
    ensures
        final(peer)@ == after_sending(id, old(peer)@, data@, chunk_count(data@.len())),
{
    let mut at: usize = 0;
    let ghost mut n: nat = 0;
    assert(peer@ =~= after_sending(id, old(peer)@, data@, n));
    while at < data.len()
        invariant
            at <= data@.len(),
            at < data@.len() ==> at == n * BUF_SIZE,
            at == data@.len() ==> n == chunk_count(data@.len()),
            peer@ == after_sending(id, old(peer)@, data@, n),
        decreases data@.len() - at,
    {
        let ghost before = peer@;
        let end: usize = if data.len() - at < BUF_SIZE {
            data.len()
        } else {
            at + BUF_SIZE
        };
        let mut packet = Packet::with_payload(slice_subrange(data, at, end));
        packet.set_seq_nr(peer.seq_nr);
        packet.set_ack_nr(peer.ack_nr);
        packet.set_connection_id(id);
        assert(packet@ =~= data_packet(id, old(peer)@, data@, n as int));
        let ghost sent = packet@;
        let seq_nr: u16 = peer.seq_nr;
        peer.sent_window.insert(seq_nr, packet);
        assert(packets_by_number(peer.sent_window@) =~= before.sent_window.insert(seq_nr, sent));
        peer.seq_nr = peer.seq_nr.wrapping_add(1);
        at = end;
        proof {
            n = n + 1;
            assert(peer.seq_nr == number_after(old(peer)@.seq_nr, n as int));
            assert(peer@ =~= after_sending(id, old(peer)@, data@, n));
        }
    }
}

impl UtpSocket {
    /// Each peer has a state of its own.
    pub open spec fn wf(&self) -> bool {
        self.peers.wf()
    }

    /// A socket without peers.
    pub fn new(id: u16, drop: bool) -> (socket: UtpSocket)
        ensures
            socket.wf(),
            socket@ == Map::<PeerAddr, PeerView>::empty(),
            socket.id == id,
            socket.drop == drop,
    {
        UtpSocket { peers: PeerTable::new(), id, drop }
    }

    /// Asks for a connection to `addr`, unless there is one: hands back the `Syn` packet that is
    /// to be sent.
    pub fn connect(&mut self, addr: PeerAddr, sender_id: u16) -> (r: Result<Packet, SocketError>)
        requires
            old(self).wf(),
        ensures
            final(self).wf(),
            final(self).id == old(self).id,
            final(self).drop == old(self).drop,
            if old(self)@.contains_key(addr) {
                (r matches Err(SocketError::AlreadyConnected)) && final(self)@ == old(self)@
            } else {
                &&& r matches Ok(packet)
                &&& packet@ == syn(old(self).id)
                &&& final(self)@ == old(self)@.insert(
                    addr,
                    connecting_peer(sender_id, addr, old(self).id),
                )
            },
    {
        if self.peers.contains(addr) {
            return Err(SocketError::AlreadyConnected);
        }
        let mut peer = UtpSocketState::new(sender_id);
        let mut packet = Packet::new();
        packet.set_type(PacketType::Syn);
        packet.set_connection_id(self.id);
        packet.set_seq_nr(peer.seq_nr);
        peer.state = SocketState::SynSent;
        peer.connected_to = Some(addr);
        peer.sent_window.insert(packet.seq_nr(), packet.clone());
        assert(packet@ =~= syn(self.id));
        assert(peer@.sent_window =~= Map::<u16, PacketView>::empty().insert(1, syn(self.id)));
        self.peers.insert(addr, peer);
        Ok(packet)
    }

    /// Puts packets that carry `buf` into the window of the peer at `addr`, and hands back all the
    /// packets in that window, which are to be sent in this order.
    pub fn send_packets_to(&mut self, buf: &[u8], addr: PeerAddr) -> (r: Result<
        Vec<Packet>,
        SocketError,
    >)
        requires
            old(self).wf(),
        ensures
            final(self).wf(),
            final(self).id == old(self).id,
            final(self).drop == old(self).drop,
            is_sending(old(self).id, old(self)@, final(self)@, buf@, addr, r),
    {
        match self.peers.get(addr) {
            None => {
                return Err(SocketError::NoPeer);
            },
            Some(peer) => {
                if peer.state == SocketState::Closed {
                    return Err(SocketError::ConnectionClosed);
                }
            },
        }
        let id: u16 = self.id;
        let peer = self.peers.get_mut(addr);
        queue(id, buf, peer);
        Ok(window_packets(&peer.sent_window))
    }

    /// Puts packets that carry `buf` into the window of the peer at `addr`, or of some peer if no
    /// address is given. Hands back whom the packets in that window are to be sent to, and
    /// the packets in the order in which they are.
    pub fn send_packets(&mut self, buf: &[u8], addr: Option<PeerAddr>) -> (r: Result<
        (PeerAddr, Vec<Packet>),
        SocketError,
    >)
        requires
            old(self).wf(),
        ensures
            final(self).wf(),
            final(self).id == old(self).id,
            final(self).drop == old(self).drop,
            match addr {
                Some(a) => is_sending_to(
                    old(self).id,
                    old(self)@,
                    final(self)@,
                    buf@,
                    a,
                    r,
                ),
                None => if old(self)@.is_empty() {
                    (r matches Err(SocketError::NoPeers)) && final(self)@ == old(self)@
                } else {
                    is_sending_to_some(old(self).id, old(self)@, final(self)@, buf@, r)
                },
            },
    {
        let to = match addr {
            Some(a) => a,
            None => match self.peers.first() {
                Some(a) => a,
                None => {
                    return Err(SocketError::NoPeers);
                },
            },
        };
        assert(addr is None ==> old(self)@.contains_key(to));
        match self.send_packets_to(buf, to) {
            Ok(packets) => Ok((to, packets)),
            Err(e) => Err(e),
        }
    }

    /// The packet that a datagram holds.
    pub fn to_packet(received_data: &[u8]) -> (r: Result<Packet, ParseError>)
        ensures
            match r {
                Ok(p) => decoding(received_data@) == Ok::<PacketView, ParseError>(p@),
                Err(e) => decoding(received_data@) == Err::<PacketView, ParseError>(e),
            },
    {
        Packet::try_from(received_data)
    }

    /// Takes in a datagram of `len` bytes that came from `addr` at the time `now` and stands at the
    /// start of the receive buffer `buf`. The rest of the buffer counts as payload. `lost` is the
    /// outcome of chance that decides whether the packet is dropped, if it may be.
    pub fn recv_packets_from(
        &mut self,
        buf: &[u8],
        len: usize,
        addr: PeerAddr,
        lost: bool,
        now: Timestamp,
    ) -> (r: Result<Received, ParseError>)
        requires
            old(self).wf(),
            len <= buf@.len(),
            is_receivable(old(self).drop, old(self)@, buf@, len as int, addr, lost),
        ensures
            final(self).wf(),
            final(self).id == old(self).id,
            final(self).drop == old(self).drop,
            match decoding(buf@.subrange(0, len as int)) {
                Err(e) => r == Err::<Received, ParseError>(e) && final(self)@ == old(self)@,
                Ok(p) => if drops(old(self).drop, p, lost) {
                    (r matches Ok(Received::Lost)) && final(self)@ == old(self)@
                } else {
                    let packet = decoding(buf@)->Ok_0;
                    let peer = with_incoming(peer_at(old(self)@, addr, p.connection_id), packet);
                    &&& decoding(buf@) is Ok
                    &&& final(self)@ == old(self)@.insert(addr, after_packet(peer, packet, now))
                    &&& r matches Ok(Received::Handled(x))
                    &&& is_effect(old(self).id, peer, packet, now, x)
                },
            },
    {
        let packet = match Self::to_packet(slice_subrange(buf, 0, len)) {
            Ok(packet) => packet,
            Err(e) => {
                return Err(e);
            },
        };
        if self.drop && packet.seq_nr() != 1 && lost {
            return Ok(Received::Lost);
        }
        let ghost first = packet@;
        let mut fresh = UtpSocketState::new(packet.connection_id());
        fresh.connected_to = Some(addr);
        assert(fresh@ =~= PeerView { connected_to: Some(addr), ..fresh_peer(first.connection_id) });
        self.peers.insert_if_absent(addr, fresh);
        proof {
            trailing_bytes_are_payload(buf@.subrange(0, len as int), buf@);
        }
        let packet = match Packet::try_from(buf) {
            Ok(packet) => packet,
            Err(e) => {
                return Err(e);
            },
        };
        let id: u16 = self.id;
        let ghost before = self.peers@[addr];
        let peer = self.peers.get_mut(addr);
        peer.incoming_buffer.push_back(packet.clone());
        assert(peer@.incoming_buffer =~= before.incoming_buffer.push(packet@));
        assert(peer@ =~= with_incoming(before, packet@));
        let r = react(id, &packet, peer, now);
        assert(self@ =~= old(self)@.insert(addr, peer@));
        match r {
            Ok(reaction) => Ok(Received::Handled(reaction)),
            Err(_) => Ok(Received::Handled(Reaction { reply: None, lost: Vec::new() })),
        }
    }

    /// Whether [`UtpSocket::recv_packets_from`] admits the datagram.
    pub fn can_receive(&self, buf: &[u8], len: usize, addr: PeerAddr, lost: bool) -> (receivable:
        bool)
        requires
            self.wf(),
            len <= buf@.len(),
        ensures
            receivable == is_receivable(self.drop, self@, buf@, len as int, addr, lost),
    {
        let packet = match Self::to_packet(slice_subrange(buf, 0, len)) {
            Ok(packet) => packet,
            Err(_) => {
                return true;
            },
        };
        if self.drop && packet.seq_nr() != 1 && lost {
            return true;
        }
        proof {
            trailing_bytes_are_payload(buf@.subrange(0, len as int), buf@);
        }
        let whole = match Packet::try_from(buf) {
            Ok(whole) => whole,
            Err(_) => {
                return true;
            },
        };
        match self.peers.get(addr) {
            Some(peer) => can_react(&whole, peer),
            None => can_react(&whole, &UtpSocketState::new(packet.connection_id())),
        }
    }

    /// Takes the packet that has waited longest out of what the peer at `addr` has sent.
    pub fn next_incoming(&mut self, addr: PeerAddr) -> (packet: Option<Packet>)
        requires
            old(self).wf(),
        ensures
            final(self).wf(),
            final(self).id == old(self).id,
            final(self).drop == old(self).drop,
            if old(self)@.contains_key(addr) && old(self)@[addr].incoming_buffer.len() > 0 {
                let peer = old(self)@[addr];
                &&& packet matches Some(p)
                &&& p@ == peer.incoming_buffer[0]
                &&& final(self)@ == old(self)@.insert(
                    addr,
                    PeerView { incoming_buffer: peer.incoming_buffer.drop_first(), ..peer },
                )
            } else {
                packet is None && final(self)@ == old(self)@
            },
    {
        if !self.peers.contains(addr) {
            return None;
        }
        let ghost before = self.peers@[addr];
        let peer = self.peers.get_mut(addr);
        let packet = peer.incoming_buffer.pop_front();
        assert(packet is Some ==> peer@.incoming_buffer =~= before.incoming_buffer.drop_first());
        assert(packet is None ==> peer@ =~= before);
        assert(packet is None ==> self@ =~= old(self)@);
        packet
    }

    /// Changes the peer's state as `packet` demands, and says what follows at the time `now`.
    pub fn handle_packet(&self, packet: &Packet, peer: &mut UtpSocketState, now: Timestamp) -> (r:
        Result<Reaction, SocketError>)
        requires
            is_admissible(old(peer)@, packet@),
        ensures
            final(peer)@ == after_packet(old(peer)@, packet@, now),
            is_reaction(self.id, old(peer)@, packet@, now, r),
    {
        react(self.id, packet, peer, now)
    }

    /// The selective acknowledgement for what the peer has sent ahead of a gap.
    pub fn build_selective_ack(&self, peer: &UtpSocketState) -> (sack: Vec<u8>)
        ensures
            is_selective_ack(sack@, peer@.out_of_order.dom(), peer@.last_acked),
    {
        assert(peer@.out_of_order.dom() =~= peer.out_of_order@.dom());
        selective_ack(&peer.out_of_order, peer.last_acked)
    }

    /// A packet of type `t` in answer to `packet`, sent at `now`.
    pub fn prepare_reply(
        &self,
        packet: &Packet,
        t: PacketType,
        seq_nr: u16,
        ack_nr: u16,
        now: Timestamp,
    ) -> (resp: Packet)
        ensures
            resp@ == answer(self.id, packet@, t, seq_nr, ack_nr, now),
    {
        prepare_reply(self.id, packet, t, seq_nr, ack_nr, now)
    }

    /// Sets the state of the peer at `addr`.
    pub fn register_peer(&mut self, addr: PeerAddr, peer_state: UtpSocketState)
        requires
            old(self).wf(),
        ensures
            final(self).wf(),
            final(self).id == old(self).id,
            final(self).drop == old(self).drop,
            final(self)@ == old(self)@.insert(addr, peer_state@),
    {
        self.peers.insert(addr, peer_state);
    }

    /// The peer at `addr`.
    pub fn get_peer(&self, addr: PeerAddr) -> (peer: Option<&UtpSocketState>)
        requires
            self.wf(),
        ensures
            match peer {
                Some(p) => self@.contains_key(addr) && p@ == self@[addr],
                None => !self@.contains_key(addr),
            },
    {
        self.peers.get(addr)
    }

    /// The packets below `limit_seq` that `sack` reports as missing after `ack_nr`, in order.
    pub fn get_lost_seq_nr(&self, sack: Vec<u8>, ack_nr: u16, limit_seq: u16) -> (lost: Vec<u16>)
        requires
            is_readable(sack@, ack_nr, limit_seq),
        ensures
            is_lost_list(lost@, sack@, ack_nr, limit_seq),
    {
        lost_seq_nrs(&sack, ack_nr, limit_seq)
    }
}

} // verus!
