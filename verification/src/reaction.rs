//! How a peer's state changes when a packet arrives, and what is answered.
use crate::error::SocketError;
use crate::numbers::visited_in_order;
use crate::packet::{bare_packet, Packet, PacketType, PacketView};
use crate::selective_ack::{
    can_read, is_lost_list, is_readable, is_selective_ack, lost_seq_nrs, selective_ack,
};
use crate::state::{packets_by_number, PeerView, SocketState, UtpSocketState};
use crate::time::{abs_diff, distance, Timestamp};
use std::collections::BTreeMap;
use vstd::prelude::*;
use vstd::std_specs::iter::IteratorSpec;
use vstd::string::*;

verus! {

/// How many acknowledgements of the same packet mean that the next one is lost.
pub const DUPLICATE_ACK_LIMIT: u16 = 3;

/// What follows from a packet.
#[derive(Debug)]
pub struct Reaction {
    /// What is to be sent back.
    pub reply: Option<Packet>,
    /// The packets that the peer reports as missing.
    pub lost: Vec<u16>,
}

/// A packet of type `ty` in answer to `to`, sent at `now` by the socket `id`.
pub open spec fn answer(
    id: u16,
    to: PacketView,
    ty: PacketType,
    seq_nr: u16,
    ack_nr: u16,
    now: Timestamp,
) -> PacketView {
    PacketView {
        ty,
        connection_id: id,
        timestamp: now,
        timestamp_difference: distance(now, to.timestamp),
        seq_nr,
        ack_nr,
        ..bare_packet(Seq::empty())
    }
}

/// The end of the run of numbers in `received` that follows `from` without a gap.
pub open spec fn run_end(received: Set<u16>, from: int) -> int
    decreases u16::MAX - from,
{
    if from < u16::MAX && received.contains((from + 1) as u16) {
        run_end(received, from + 1)
    } else {
        from
    }
}

/// How far the numbers up to `from` reach without a gap, together with `received`.
/// Nothing is taken from `received` as long as it holds a number up to `from`.
pub open spec fn reach(received: Set<u16>, from: u16) -> u16 {
    if exists|k: u16| #[trigger] received.contains(k) && k <= from {
        from
    } else {
        run_end(received, from as int) as u16
    }
}

/// `m` without the numbers above `from` and up to `to`.
pub open spec fn without_run(m: Map<u16, PacketView>, from: u16, to: u16) -> Map<u16, PacketView> {
    Map::new(|k: u16| m.contains_key(k) && !(from < k <= to), |k: u16| m[k])
}

/// Whether payload is exchanged with a peer in this state.
pub open spec fn is_open(state: SocketState) -> bool {
    state == SocketState::Connected || state == SocketState::FinSent
}

/// The peer after an acknowledgement of payload.
pub open spec fn after_ack(peer: PeerView, packet: PacketView, now: Timestamp) -> PeerView {
    if packet.ack_nr == peer.last_acked {
        PeerView { duplicate_ack_count: (peer.duplicate_ack_count + 1) as u16, ..peer }
    } else if packet.ack_nr == peer.last_acked + 1 {
        PeerView {
            last_acked: packet.ack_nr,
            last_acked_timestamp: now,
            duplicate_ack_count: 1,
            sent_window: peer.sent_window.remove(packet.ack_nr),
            ..peer
        }
    } else {
        peer
    }
}

/// The peer after payload.
pub open spec fn after_data(peer: PeerView, packet: PacketView) -> PeerView {
    if packet.seq_nr == peer.last_acked + 1 {
        let end = reach(peer.out_of_order.dom(), packet.seq_nr);
        PeerView {
            last_acked: end,
            seq_nr: (peer.seq_nr + 1) as u16,
            out_of_order: without_run(peer.out_of_order, packet.seq_nr, end),
            ..peer
        }
    } else if packet.seq_nr > peer.last_acked {
        PeerView { out_of_order: peer.out_of_order.insert(packet.seq_nr, packet), ..peer }
    } else {
        peer
    }
}

/// The peer after a `State` packet during the exchange of payload.
pub open spec fn after_state(peer: PeerView, packet: PacketView, now: Timestamp) -> PeerView {
    if packet.ack_nr == peer.last_acked {
        PeerView { duplicate_ack_count: (peer.duplicate_ack_count + 1) as u16, ..peer }
    } else {
        PeerView {
            last_acked: packet.ack_nr,
            last_acked_timestamp: now,
            duplicate_ack_count: 1,
            ..peer
        }
    }
}

/// The peer after the answer to our `Syn`.
pub open spec fn after_syn_answer(peer: PeerView, packet: PacketView, now: Timestamp) -> PeerView {
    PeerView {
        ack_nr: packet.seq_nr,
        seq_nr: ((peer.seq_nr + 1) % 65536) as u16,
        state: SocketState::Connected,
        last_acked: packet.ack_nr,
        last_acked_timestamp: now,
        sent_window: peer.sent_window.remove(packet.seq_nr),
        ..peer
    }
}

/// The peer after any packet.
pub open spec fn after_packet(peer: PeerView, packet: PacketView, now: Timestamp) -> PeerView {
    match packet.ty {
        PacketType::Syn => if peer.state == SocketState::New {
            PeerView { last_acked: packet.seq_nr, state: SocketState::Connected, ..peer }
        } else {
            peer
        },
        PacketType::State => if peer.state == SocketState::SynSent {
            after_syn_answer(peer, packet, now)
        } else if peer.state == SocketState::Connected {
            after_state(peer, packet, now)
        } else {
            peer
        },
        PacketType::Ack => if is_open(peer.state) {
            after_ack(peer, packet, now)
        } else {
            peer
        },
        PacketType::Data => if is_open(peer.state) {
            after_data(peer, packet)
        } else {
            peer
        },
        PacketType::Fin => if is_open(peer.state) {
            PeerView { state: SocketState::Closed, ..peer }
        } else {
            peer
        },
        PacketType::Reset => PeerView { state: SocketState::ResetReceived, ..peer },
    }
}

/// Whether a `State` packet that leaves the peer as `next` means that a packet is lost.
pub open spec fn state_shows_loss(next: PeerView) -> bool {
    !next.sent_window.is_empty() || next.duplicate_ack_count == DUPLICATE_ACK_LIMIT
}

/// Whether the reaction to `packet` stays within the sequence numbers and finds the
/// packet that it has to send again.
pub open spec fn is_admissible(peer: PeerView, packet: PacketView) -> bool {
    match packet.ty {
        PacketType::Ack => is_open(peer.state) ==> {
            let repeated = packet.ack_nr == peer.last_acked;
            let next = packet.ack_nr == peer.last_acked + 1;
            &&& repeated ==> peer.duplicate_ack_count < u16::MAX
            &&& !repeated ==> peer.last_acked < u16::MAX
            &&& (repeated && peer.duplicate_ack_count + 1 >= DUPLICATE_ACK_LIMIT) || (!repeated
                && !next && peer.duplicate_ack_count >= DUPLICATE_ACK_LIMIT) ==> {
                &&& packet.ack_nr < u16::MAX
                &&& peer.sent_window.contains_key((packet.ack_nr + 1) as u16)
            }
            &&& packet.sack matches Some(s) ==> is_readable(s, packet.ack_nr, peer.seq_nr)
        },
        PacketType::Data => is_open(peer.state) ==> {
            &&& peer.last_acked < u16::MAX
            &&& packet.seq_nr == peer.last_acked + 1 ==> {
                &&& peer.seq_nr < u16::MAX
                &&& packet.seq_nr == u16::MAX ==> peer.out_of_order.is_empty()
            }
        },
        PacketType::State => peer.state == SocketState::Connected ==> {
            &&& packet.ack_nr == peer.last_acked ==> peer.duplicate_ack_count < u16::MAX
            &&& state_shows_loss(after_state(peer, packet, Timestamp(0))) ==> {
                &&& packet.ack_nr > 0
                &&& peer.sent_window.contains_key((packet.ack_nr - 1) as u16)
            }
        },
        _ => true,
    }
}

/// Whether `r` answers `expected` and reports no loss.
pub open spec fn replies(r: Result<Reaction, SocketError>, expected: Option<PacketView>) -> bool {
    &&& r matches Ok(x)
    &&& x.lost@.len() == 0
    &&& match x.reply {
        Some(p) => expected == Some(p@),
        None => expected is None,
    }
}

/// Whether `r` is the answer to an acknowledgement of payload that leaves the peer as
/// `next`: from the third acknowledgement of the same packet on, the packet after it
/// is sent again. `lost` lists what a selective acknowledgement reports.
pub open spec fn ack_reaction(
    next: PeerView,
    packet: PacketView,
    r: Result<Reaction, SocketError>,
) -> bool {
    &&& r matches Ok(x)
    &&& match x.reply {
        Some(p) => next.duplicate_ack_count >= DUPLICATE_ACK_LIMIT && p@
            == next.sent_window[(packet.ack_nr + 1) as u16],
        None => next.duplicate_ack_count < DUPLICATE_ACK_LIMIT,
    }
    &&& match packet.sack {
        Some(s) => is_lost_list(x.lost@, s, packet.ack_nr, next.seq_nr),
        None => x.lost@.len() == 0,
    }
}

/// Whether `r` is the answer to payload that leaves the peer as `next`: an `Ack` of
/// the last packet in order, with a selective acknowledgement of the packets ahead of
/// the gap if this packet is one.
pub open spec fn data_reaction(
    id: u16,
    peer: PeerView,
    next: PeerView,
    packet: PacketView,
    now: Timestamp,
    r: Result<Reaction, SocketError>,
) -> bool {
    let ack = answer(id, packet, PacketType::Ack, next.seq_nr, next.last_acked, now);
    &&& r matches Ok(x)
    &&& x.lost@.len() == 0
    &&& x.reply matches Some(p)
    &&& p@ == PacketView { sack: p@.sack, ..ack }
    &&& if packet.seq_nr > peer.last_acked + 1 {
        &&& p@.sack matches Some(s)
        &&& is_selective_ack(s, next.out_of_order.dom(), next.last_acked)
    } else {
        p@.sack is None
    }
}

/// The name of a state.
pub open spec fn state_name(state: SocketState) -> Seq<char> {
    match state {
        SocketState::New => "New"@,
        SocketState::Connected => "Connected"@,
        SocketState::SynSent => "SynSent"@,
        SocketState::FinSent => "FinSent"@,
        SocketState::ResetReceived => "ResetReceived"@,
        SocketState::Closed => "Closed"@,
    }
}

/// The name of a packet type.
pub open spec fn packet_type_name(ty: PacketType) -> Seq<char> {
    match ty {
        PacketType::Data => "Data"@,
        PacketType::Fin => "Fin"@,
        PacketType::State => "State"@,
        PacketType::Reset => "Reset"@,
        PacketType::Syn => "Syn"@,
        PacketType::Ack => "Ack"@,
    }
}

/// What is said of a packet that has no meaning in a state.
pub open spec fn unimplemented_text(state: SocketState, ty: PacketType) -> Seq<char> {
    "Unimplemented handling for ("@ + state_name(state) + ","@ + packet_type_name(ty) + ")"@
}

/// Whether `r` refuses a packet of type `ty` in `state`.
pub open spec fn refuses(
    r: Result<Reaction, SocketError>,
    state: SocketState,
    ty: PacketType,
) -> bool {
    r matches Err(SocketError::Other(text)) && text@ == unimplemented_text(state, ty)
}

/// Whether `r` is the reaction of the socket `id` to `packet`.
pub open spec fn is_reaction(
    id: u16,
    peer: PeerView,
    packet: PacketView,
    now: Timestamp,
    r: Result<Reaction, SocketError>,
) -> bool {
    let next = after_packet(peer, packet, now);
    match packet.ty {
        PacketType::Syn => {
            let ty = if peer.state == SocketState::New {
                PacketType::State
            } else {
                PacketType::Reset
            };
            replies(r, Some(answer(id, packet, ty, packet.seq_nr, packet.seq_nr, now)))
        },
        PacketType::State => if peer.state == SocketState::SynSent {
            replies(r, None)
        } else if peer.state == SocketState::Connected {
            if state_shows_loss(next) {
                replies(r, Some(peer.sent_window[(packet.ack_nr - 1) as u16]))
            } else {
                replies(r, None)
            }
        } else {
            refuses(r, peer.state, packet.ty)
        },
        PacketType::Ack => if is_open(peer.state) {
            ack_reaction(next, packet, r)
        } else {
            refuses(r, peer.state, packet.ty)
        },
        PacketType::Data => if is_open(peer.state) {
            data_reaction(id, peer, next, packet, now, r)
        } else {
            refuses(r, peer.state, packet.ty)
        },
        PacketType::Fin => if is_open(peer.state) {
            replies(
                r,
                Some(answer(id, packet, PacketType::State, packet.seq_nr, packet.seq_nr, now)),
            )
        } else {
            refuses(r, peer.state, packet.ty)
        },
        PacketType::Reset => r matches Err(SocketError::ConnectionReset),
    }
}

proof fn run_end_at(received: Set<u16>, from: int, end: int)
    requires
        0 <= from <= end <= u16::MAX,
        forall|k: u16| from < k <= end ==> received.contains(k),
        end < u16::MAX ==> !received.contains((end + 1) as u16),
    ensures
        run_end(received, from) == end,
    decreases end - from,
{
    if from < end {
        assert(received.contains((from + 1) as u16));
        run_end_at(received, from + 1, end);
    }
}

proof fn reach_at(received: Set<u16>, keys: Seq<u16>, from: u16, end: u16)
    requires
        forall|i: int, j: int| 0 <= i < j < keys.len() ==> keys[i] < keys[j],
        forall|k: u16| received.contains(k) ==> keys.contains(k),
        forall|i: int| 0 <= i < keys.len() ==> received.contains(#[trigger] keys[i]),
        from <= end <= from + keys.len(),
        forall|i: int| 0 <= i < end - from ==> #[trigger] keys[i] == from + 1 + i,
        end < from + keys.len() ==> keys[end - from] != end + 1,
    ensures
        end == reach(received, from),
{
    if end == from && keys.len() > 0 && keys[0] <= from {
        assert(received.contains(keys[0]));
    } else {
        assert forall|k: u16| #[trigger] received.contains(k) implies k > from by {
            let i = choose|i: int| 0 <= i < keys.len() && keys[i] == k;
            assert(keys[0] > from);
            assert(keys[0] <= keys[i]);
        }
        assert forall|k: u16| from < k <= end implies received.contains(k) by {
            assert(keys[k - from - 1] == k);
        }
        if end < u16::MAX && received.contains((end + 1) as u16) {
            let i = choose|i: int| 0 <= i < keys.len() && keys[i] == end + 1;
            assert(i >= end - from);
            assert(keys[end - from] <= keys[i]);
            if end > from {
                assert(keys[end - from - 1] < keys[end - from]);
            }
        }
        run_end_at(received, from as int, end as int);
    }
}

/// How far the numbers up to `from` reach without a gap, together with those received.
fn find_reach(received: &BTreeMap<u16, Packet>, from: u16) -> (end: u16)
    requires
        from == u16::MAX ==> received@.is_empty(),
    ensures
        end == reach(received@.dom(), from),
        from <= end,
{
    let entries = received.iter();
    let ghost keys: Seq<u16> = entries.remaining().map_values(|kv: (&u16, &Packet)| *kv.0);
    let ghost all = received@.dom();
    proof {
        visited_in_order(received, entries, keys);
    }
    let mut end: u16 = from;
    for (seq, _packet) in it: entries
        invariant_except_break
            end == from + it.index(),
            forall|i: int| 0 <= i < it.index() ==> #[trigger] keys[i] == from + 1 + i,
        invariant
            it.seq() == entries.remaining(),
            keys == it.seq().map_values(|kv: (&u16, &Packet)| *kv.0),
            all == received@.dom(),
            from == u16::MAX ==> keys.len() == 0,
            forall|i: int, j: int| 0 <= i < j < keys.len() ==> keys[i] < keys[j],
            forall|k: u16| all.contains(k) ==> keys.contains(k),
            forall|i: int| 0 <= i < keys.len() ==> all.contains(#[trigger] keys[i]),
        ensures
            from <= end <= from + keys.len(),
            forall|i: int| 0 <= i < end - from ==> #[trigger] keys[i] == from + 1 + i,
            end < from + keys.len() ==> keys[end - from] != end + 1,
    {
        assert(keys[it.index()] == *seq);
        assert(it.index() > 0 ==> keys[it.index() - 1] < keys[it.index()]);
        if *seq == end + 1 {
            end = *seq;
        } else {
            break;
        }
    }
    proof {
        reach_at(all, keys, from, end);
    }
    end
}

/// Takes the numbers above `from` and up to `to` out of `m`.
fn remove_run(m: &mut BTreeMap<u16, Packet>, from: u16, to: u16)
    requires
        from <= to,
    ensures
        packets_by_number(final(m)@) == without_run(packets_by_number(old(m)@), from, to),
{
    let mut n: u16 = from;
    assert(packets_by_number(m@) =~= without_run(packets_by_number(old(m)@), from, n));
    while n < to
        invariant
            from <= n <= to,
            packets_by_number(m@) == without_run(packets_by_number(old(m)@), from, n),
        decreases to - n,
    {
        let ghost before = packets_by_number(m@);
        n = n + 1;
        m.remove(&n);
        assert(packets_by_number(m@) =~= before.remove(n));
        assert(packets_by_number(m@) =~= without_run(packets_by_number(old(m)@), from, n));
    }
}

/// A packet of type `t` in answer to `packet`, sent at `now` by the socket `id`.
pub fn prepare_reply(
    id: u16,
    packet: &Packet,
    t: PacketType,
    seq_nr: u16,
    ack_nr: u16,
    now: Timestamp,
) -> (resp: Packet)
    ensures
        resp@ == answer(id, packet@, t, seq_nr, ack_nr, now),
{
    let mut resp = Packet::new();
    resp.set_type(t);
    resp.set_timestamp(now);
    resp.set_timestamp_difference(abs_diff(now, packet.timestamp()));
    resp.set_connection_id(id);
    resp.set_seq_nr(seq_nr);
    resp.set_ack_nr(ack_nr);
    resp
}

fn on_ack(packet: &Packet, peer: &mut UtpSocketState, now: Timestamp) -> (r: Result<
    Reaction,
    SocketError,
>)
    requires
        packet@.ty == PacketType::Ack,
        is_open(old(peer)@.state),
        is_admissible(old(peer)@, packet@),
    ensures
        final(peer)@ == after_ack(old(peer)@, packet@, now),
        ack_reaction(final(peer)@, packet@, r),
{
    let ack_nr: u16 = packet.ack_nr();
    if ack_nr == peer.last_acked {
        peer.duplicate_ack_count = peer.duplicate_ack_count + 1;
    } else if ack_nr == peer.last_acked + 1 {
        peer.last_acked = ack_nr;
        peer.last_acked_timestamp = now;
        peer.duplicate_ack_count = 1;
        peer.sent_window.remove(&ack_nr);
        assert(packets_by_number(peer.sent_window@) =~= old(peer)@.sent_window.remove(ack_nr));
    }
    let reply = if peer.duplicate_ack_count >= DUPLICATE_ACK_LIMIT {
        resend(&peer.sent_window, ack_nr + 1)
    } else {
        None
    };
    let lost = match &packet.sack {
        Some(sack) => lost_seq_nrs(sack, ack_nr, peer.seq_nr),
        None => Vec::new(),
    };
    assert(peer@ =~= after_ack(old(peer)@, packet@, now));
    Ok(Reaction { reply, lost })
}

/// The packet with the given number.
fn resend(window: &BTreeMap<u16, Packet>, seq_nr: u16) -> (p: Option<Packet>)
    requires
        window@.contains_key(seq_nr),
    ensures
        p matches Some(x) && x@ == packets_by_number(window@)[seq_nr],
{
    match window.get(&seq_nr) {
        Some(p) => Some(p.clone()),
        None => None,
    }
}

fn on_data(id: u16, packet: &Packet, peer: &mut UtpSocketState, now: Timestamp) -> (r: Result<
    Reaction,
    SocketError,
>)
    requires
        packet@.ty == PacketType::Data,
        is_open(old(peer)@.state),
        is_admissible(old(peer)@, packet@),
    ensures
        final(peer)@ == after_data(old(peer)@, packet@),
        data_reaction(id, old(peer)@, final(peer)@, packet@, now, r),
{
    let seq_nr: u16 = packet.seq_nr();
    let mut sack: Option<Vec<u8>> = None;
    if seq_nr == peer.last_acked + 1 {
        peer.seq_nr = peer.seq_nr + 1;
        assert(old(peer)@.out_of_order.dom() =~= peer.out_of_order@.dom());
        let end: u16 = find_reach(&peer.out_of_order, seq_nr);
        peer.last_acked = end;
        remove_run(&mut peer.out_of_order, seq_nr, end);
    } else if seq_nr > peer.last_acked {
        peer.out_of_order.insert(seq_nr, packet.clone());
        assert(packets_by_number(peer.out_of_order@) =~= old(peer)@.out_of_order.insert(
            seq_nr,
            packet@,
        ));
        assert(peer@.out_of_order.dom() =~= peer.out_of_order@.dom());
        sack = Some(selective_ack(&peer.out_of_order, peer.last_acked));
    }
    let mut reply = prepare_reply(id, packet, PacketType::Ack, peer.seq_nr, peer.last_acked, now);
    if let Some(sack) = sack {
        reply.set_sack(sack);
    }
    assert(peer@ =~= after_data(old(peer)@, packet@));
    Ok(Reaction { reply: Some(reply), lost: Vec::new() })
}

fn on_state(packet: &Packet, peer: &mut UtpSocketState, now: Timestamp) -> (r: Result<
    Reaction,
    SocketError,
>)
    requires
        packet@.ty == PacketType::State,
        old(peer)@.state == SocketState::Connected,
        is_admissible(old(peer)@, packet@),
    ensures
        final(peer)@ == after_state(old(peer)@, packet@, now),
        if state_shows_loss(final(peer)@) {
            replies(r, Some(old(peer)@.sent_window[(packet@.ack_nr - 1) as u16]))
        } else {
            replies(r, None)
        },
{
    if packet.ack_nr() == peer.last_acked {
        peer.duplicate_ack_count = peer.duplicate_ack_count + 1;
    } else {
        peer.last_acked = packet.ack_nr();
        peer.last_acked_timestamp = now;
        peer.duplicate_ack_count = 1;
    }
    let packet_loss_detected = !peer.sent_window.is_empty() || peer.duplicate_ack_count
        == DUPLICATE_ACK_LIMIT;
    let reply = if packet_loss_detected {
        resend(&peer.sent_window, packet.ack_nr() - 1)
    } else {
        None
    };
    Ok(Reaction { reply, lost: Vec::new() })
}

fn state_text(state: SocketState) -> (text: &'static str)
    ensures
        text@ == state_name(state),
{
    match state {
        SocketState::New => "New",
        SocketState::Connected => "Connected",
        SocketState::SynSent => "SynSent",
        SocketState::FinSent => "FinSent",
        SocketState::ResetReceived => "ResetReceived",
        SocketState::Closed => "Closed",
    }
}

fn packet_type_text(ty: PacketType) -> (text: &'static str)
    ensures
        text@ == packet_type_name(ty),
{
    match ty {
        PacketType::Data => "Data",
        PacketType::Fin => "Fin",
        PacketType::State => "State",
        PacketType::Reset => "Reset",
        PacketType::Syn => "Syn",
        PacketType::Ack => "Ack",
    }
}

/// The refusal of a packet that has no meaning in a state.
fn refuse(state: SocketState, ty: PacketType) -> (r: Result<Reaction, SocketError>)
    ensures
        refuses(r, state, ty),
{
    let mut text: String = "Unimplemented handling for (".to_owned();
    text.append(state_text(state));
    text.append(",");
    text.append(packet_type_text(ty));
    text.append(")");
    Err(SocketError::Other(text))
}

/// Changes the peer's state as `packet` demands and says what follows, for the socket
/// `id` at the time `now`.
pub fn react(id: u16, packet: &Packet, peer: &mut UtpSocketState, now: Timestamp) -> (r: Result<
    Reaction,
    SocketError,
>)
    requires
        is_admissible(old(peer)@, packet@),
    ensures
        final(peer)@ == after_packet(old(peer)@, packet@, now),
        is_reaction(id, old(peer)@, packet@, now, r),
{
    let seq_nr: u16 = packet.seq_nr();
    match (peer.state, packet.get_type()) {
        (SocketState::New, PacketType::Syn) => {
            peer.last_acked = seq_nr;
            peer.state = SocketState::Connected;
            let reply = prepare_reply(id, packet, PacketType::State, seq_nr, seq_nr, now);
            Ok(Reaction { reply: Some(reply), lost: Vec::new() })
        },
        (_, PacketType::Syn) => {
            let reply = prepare_reply(id, packet, PacketType::Reset, seq_nr, seq_nr, now);
            Ok(Reaction { reply: Some(reply), lost: Vec::new() })
        },
        (SocketState::SynSent, PacketType::State) => {
            peer.ack_nr = seq_nr;
            peer.seq_nr = peer.seq_nr.wrapping_add(1);
            peer.state = SocketState::Connected;
            peer.last_acked = packet.ack_nr();
            peer.last_acked_timestamp = now;
            peer.sent_window.remove(&seq_nr);
            assert(packets_by_number(peer.sent_window@) =~= old(peer)@.sent_window.remove(seq_nr));
            Ok(Reaction { reply: None, lost: Vec::new() })
        },
        (SocketState::Connected, PacketType::Ack) | (SocketState::FinSent, PacketType::Ack) => {
            on_ack(packet, peer, now)
        },
        (SocketState::Connected, PacketType::Data) | (SocketState::FinSent, PacketType::Data) => {
            on_data(id, packet, peer, now)
        },
        (SocketState::Connected, PacketType::State) => on_state(packet, peer, now),
        (SocketState::Connected, PacketType::Fin) | (SocketState::FinSent, PacketType::Fin) => {
            let reply = prepare_reply(id, packet, PacketType::State, seq_nr, seq_nr, now);
            peer.state = SocketState::Closed;
            Ok(Reaction { reply: Some(reply), lost: Vec::new() })
        },
        (_, PacketType::Reset) => {
            peer.state = SocketState::ResetReceived;
            Err(SocketError::ConnectionReset)
        },
        (state, ty) => refuse(state, ty),
    }
}

/// Whether [`react`] admits `packet`.
pub fn can_react(packet: &Packet, peer: &UtpSocketState) -> (admissible: bool)
    ensures
        admissible == is_admissible(peer@, packet@),
{
    let ack_nr: u16 = packet.ack_nr();
    let repeated = ack_nr == peer.last_acked;
    match (peer.state, packet.get_type()) {
        (SocketState::Connected, PacketType::Ack) | (SocketState::FinSent, PacketType::Ack) => {
            if repeated && peer.duplicate_ack_count == u16::MAX || !repeated && peer.last_acked
                == u16::MAX {
                return false;
            }
            let duplicates: u16 = if repeated {
                peer.duplicate_ack_count + 1
            } else if ack_nr == peer.last_acked + 1 {
                1
            } else {
                peer.duplicate_ack_count
            };
            if duplicates >= DUPLICATE_ACK_LIMIT && (ack_nr == u16::MAX
                || !peer.sent_window.contains_key(&(ack_nr + 1))) {
                return false;
            }
            match &packet.sack {
                Some(sack) => can_read(sack, ack_nr, peer.seq_nr),
                None => true,
            }
        },
        (SocketState::Connected, PacketType::Data) | (SocketState::FinSent, PacketType::Data) => {
            peer.last_acked < u16::MAX && (packet.seq_nr() != peer.last_acked + 1 || peer.seq_nr
                < u16::MAX && (packet.seq_nr() < u16::MAX || peer.out_of_order.is_empty()))
        },
        (SocketState::Connected, PacketType::State) => {
            if repeated && peer.duplicate_ack_count == u16::MAX {
                return false;
            }
            let duplicates: u16 = if repeated {
                peer.duplicate_ack_count + 1
            } else {
                1
            };
            if peer.sent_window.is_empty() && duplicates != DUPLICATE_ACK_LIMIT {
                return true;
            }
            ack_nr > 0 && peer.sent_window.contains_key(&(ack_nr - 1))
        },
        _ => true,
    }
}

} // verus!
