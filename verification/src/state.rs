//! What a socket keeps about one peer.
use crate::addr::PeerAddr;
use crate::packet::{Packet, PacketView};
use crate::time::{Delay, Timestamp};
use std::collections::{BTreeMap, VecDeque};
use vstd::prelude::*;

verus! {

/// The largest segment, in bytes.
pub const MSS: u32 = 5;

/// The initial congestion window, in segments.
pub const INIT_CWND: u32 = 2;

/// The initial congestion timeout, in milliseconds.
pub const INITIAL_CONGESTION_TIMEOUT: u64 = 500;

/// How many base delays are remembered.
pub const BASE_HISTORY: usize = 10;

/// How often a packet is retransmitted at most.
pub const MAX_RETRANSMISSION_RETRIES: u32 = 5;

/// How far a connection has come.
#[derive(Debug, Clone, Copy, PartialEq, Eq, Structural)]
pub enum SocketState {
    New,
    Connected,
    SynSent,
    FinSent,
    ResetReceived,
    Closed,
}

/// A delay measurement and when it was made.
#[derive(Debug, Clone, Copy, PartialEq, Eq, Structural)]
pub struct DelayDifferenceSample {
    pub received_at: Timestamp,
    pub difference: Delay,
}

/// What a socket keeps about one peer.
#[derive(Debug, Clone)]
pub struct UtpSocketState {
    pub state: SocketState,
    pub seq_nr: u16,
    pub ack_nr: u16,
    pub duplicate_ack_count: u16,
    /// The last number that is acknowledged together with all before it.
    pub last_acked: u16,
    pub last_acked_timestamp: Timestamp,
    pub rtt: i32,
    pub rtt_variance: i32,
    pub curr_window: u32,
    pub cwnd: u32,
    pub max_retransmission_retries: u32,
    /// Packets received and not yet handed on.
    pub incoming_buffer: VecDeque<Packet>,
    /// Packets sent and not yet acknowledged.
    pub sent_window: BTreeMap<u16, Packet>,
    pub unsent_queue: VecDeque<Packet>,
    pub remote_wnd_size: u32,
    pub base_delays: VecDeque<Delay>,
    pub current_delays: VecDeque<DelayDifferenceSample>,
    pub their_delay: Delay,
    pub last_rollover: Timestamp,
    pub congestion_timeout: u64,
    pub connected_to: Option<PeerAddr>,
    pub sender_id: u16,
    /// Packets received ahead of a gap.
    pub out_of_order: BTreeMap<u16, Packet>,
}

/// What a [`UtpSocketState`] holds, as mathematical values.
#[verifier::ext_equal]
pub struct PeerView {
    pub state: SocketState,
    pub seq_nr: u16,
    pub ack_nr: u16,
    pub duplicate_ack_count: u16,
    pub last_acked: u16,
    pub last_acked_timestamp: Timestamp,
    pub rtt: i32,
    pub rtt_variance: i32,
    pub curr_window: u32,
    pub cwnd: u32,
    pub max_retransmission_retries: u32,
    pub incoming_buffer: Seq<PacketView>,
    pub sent_window: Map<u16, PacketView>,
    pub unsent_queue: Seq<PacketView>,
    pub remote_wnd_size: u32,
    pub base_delays: Seq<Delay>,
    pub current_delays: Seq<DelayDifferenceSample>,
    pub their_delay: Delay,
    pub last_rollover: Timestamp,
    pub congestion_timeout: u64,
    pub connected_to: Option<PeerAddr>,
    pub sender_id: u16,
    pub out_of_order: Map<u16, PacketView>,
}

/// The views of a map of packets.
pub open spec fn packets_by_number(m: Map<u16, Packet>) -> Map<u16, PacketView> {
    m.map_values(|p: Packet| p@)
}

/// The views of a list of packets.
pub open spec fn packets_in_line(s: Seq<Packet>) -> Seq<PacketView> {
    s.map_values(|p: Packet| p@)
}

impl View for UtpSocketState {
    type V = PeerView;

    open spec fn view(&self) -> PeerView {
        PeerView {
            state: self.state,
            seq_nr: self.seq_nr,
            ack_nr: self.ack_nr,
            duplicate_ack_count: self.duplicate_ack_count,
            last_acked: self.last_acked,
            last_acked_timestamp: self.last_acked_timestamp,
            rtt: self.rtt,
            rtt_variance: self.rtt_variance,
            curr_window: self.curr_window,
            cwnd: self.cwnd,
            max_retransmission_retries: self.max_retransmission_retries,
            incoming_buffer: packets_in_line(self.incoming_buffer@),
            sent_window: packets_by_number(self.sent_window@),
            unsent_queue: packets_in_line(self.unsent_queue@),
            remote_wnd_size: self.remote_wnd_size,
            base_delays: self.base_delays@,
            current_delays: self.current_delays@,
            their_delay: self.their_delay,
            last_rollover: self.last_rollover,
            congestion_timeout: self.congestion_timeout,
            connected_to: self.connected_to,
            sender_id: self.sender_id,
            out_of_order: packets_by_number(self.out_of_order@),
        }
    }
}

/// A peer from which nothing has been heard and to which nothing has been sent.
pub open spec fn fresh_peer(sender_id: u16) -> PeerView {
    PeerView {
        state: SocketState::New,
        seq_nr: 1,
        ack_nr: 0,
        duplicate_ack_count: 0,
        last_acked: 0,
        last_acked_timestamp: Timestamp(0),
        rtt: 0,
        rtt_variance: 0,
        curr_window: 0,
        cwnd: 10,
        max_retransmission_retries: 5,
        incoming_buffer: Seq::empty(),
        sent_window: Map::empty(),
        unsent_queue: Seq::empty(),
        remote_wnd_size: 0,
        base_delays: Seq::empty(),
        current_delays: Seq::empty(),
        their_delay: Delay(0),
        last_rollover: Timestamp(0),
        congestion_timeout: 500,
        connected_to: None,
        sender_id,
        out_of_order: Map::empty(),
    }
}

impl UtpSocketState {
    /// A peer from which nothing has been heard and to which nothing has been sent.
    pub fn new(sender_id: u16) -> (peer: UtpSocketState)
        ensures
            peer@ == fresh_peer(sender_id),
    {
        let peer = UtpSocketState {
            state: SocketState::New,
            seq_nr: 1,
            ack_nr: 0,
            duplicate_ack_count: 0,
            last_acked: 0,
            last_acked_timestamp: Timestamp(0),
            rtt: 0,
            rtt_variance: 0,
            curr_window: 0,
            cwnd: INIT_CWND * MSS,
            max_retransmission_retries: MAX_RETRANSMISSION_RETRIES,
            incoming_buffer: VecDeque::new(),
            sent_window: BTreeMap::new(),
            unsent_queue: VecDeque::new(),
            remote_wnd_size: 0,
            base_delays: VecDeque::with_capacity(BASE_HISTORY),
            current_delays: VecDeque::new(),
            their_delay: Delay(0),
            last_rollover: Timestamp(0),
            congestion_timeout: INITIAL_CONGESTION_TIMEOUT,
            connected_to: None,
            sender_id,
            out_of_order: BTreeMap::new(),
        };
        assert(peer@ =~= fresh_peer(sender_id));
        peer
    }
}

} // verus!
