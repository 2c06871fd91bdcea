//! What is done about lost packets.
use crate::packet::Packet;
use vstd::prelude::*;

verus! {

/// The handling of packet loss in uTP.
pub trait PacketLossHandler {
    /// Handles a packet loss detected through duplicate acknowledgements or timeouts.
    fn handle_packet_loss(&mut self, lost_packet: Packet);

    /// Resends a lost packet.
    fn resend_lost_packet(&mut self, lost_packet: Packet);

    /// Sends a fast resend request by sending three `State` packets in quick succession.
    fn send_fast_resend_request(&self);

    /// Advances the send window by removing acknowledged packets.
    fn advance_send_window(&mut self);
}

} // verus!
