//! Packets.
use crate::time::{Delay, Timestamp};
use vstd::prelude::*;
use vstd::slice::slice_to_vec;

verus! {

/// What a packet is for.
#[derive(Debug, Clone, Copy, PartialEq, Eq, Structural)]
pub enum PacketType {
    /// Carries payload.
    Data,
    /// Asks to close the connection.
    Fin,
    /// Acknowledges a `Syn` or a `Fin`.
    State,
    /// Terminates the connection at once.
    Reset,
    /// Asks to open a connection.
    Syn,
    /// Acknowledges payload.
    Ack,
}

/// The extension that a packet carries.
#[derive(Debug, Clone, Copy, PartialEq, Eq, Structural)]
pub enum ExtensionType {
    /// No extension.
    Absent,
    /// A selective acknowledgement.
    SelectiveAck,
}

/// A packet.
#[derive(Debug)]
pub struct Packet {
    pub ty: PacketType,
    pub connection_id: u16,
    pub timestamp: Timestamp,
    pub timestamp_difference: Delay,
    pub wnd_size: u32,
    pub seq_nr: u16,
    pub ack_nr: u16,
    pub sack: Option<Vec<u8>>,
    pub payload: Vec<u8>,
}

/// What a [`Packet`] holds, as mathematical values.
#[verifier::ext_equal]
pub struct PacketView {
    pub ty: PacketType,
    pub connection_id: u16,
    pub timestamp: Timestamp,
    pub timestamp_difference: Delay,
    pub wnd_size: u32,
    pub seq_nr: u16,
    pub ack_nr: u16,
    pub sack: Option<Seq<u8>>,
    pub payload: Seq<u8>,
}

/// The bytes of an optional vector.
pub open spec fn optional_bytes(v: Option<Vec<u8>>) -> Option<Seq<u8>> {
    match v {
        Some(b) => Some(b@),
        None => None,
    }
}

impl View for Packet {
    type V = PacketView;

    open spec fn view(&self) -> PacketView {
        PacketView {
            ty: self.ty,
            connection_id: self.connection_id,
            timestamp: self.timestamp,
            timestamp_difference: self.timestamp_difference,
            wnd_size: self.wnd_size,
            seq_nr: self.seq_nr,
            ack_nr: self.ack_nr,
            sack: optional_bytes(self.sack),
            payload: self.payload@,
        }
    }
}

impl Clone for Packet {
    fn clone(&self) -> (p: Self)
        ensures
            p@ == self@,
    {
        let sack = match &self.sack {
            Some(s) => Some(slice_to_vec(s.as_slice())),
            None => None,
        };
        Packet {
            ty: self.ty,
            connection_id: self.connection_id,
            timestamp: self.timestamp,
            timestamp_difference: self.timestamp_difference,
            wnd_size: self.wnd_size,
            seq_nr: self.seq_nr,
            ack_nr: self.ack_nr,
            sack,
            payload: slice_to_vec(self.payload.as_slice()),
        }
    }
}

/// A `Data` packet with the given payload and nothing else set.
pub open spec fn bare_packet(payload: Seq<u8>) -> PacketView {
    PacketView {
        ty: PacketType::Data,
        connection_id: 0,
        timestamp: Timestamp(0),
        timestamp_difference: Delay(0),
        wnd_size: 0,
        seq_nr: 0,
        ack_nr: 0,
        sack: None,
        payload,
    }
}

impl Packet {
    /// A `Data` packet without payload and with nothing else set.
    pub fn new() -> (p: Packet)
        ensures
            p@ == bare_packet(Seq::empty()),
    {
        Packet {
            ty: PacketType::Data,
            connection_id: 0,
            timestamp: Timestamp(0),
            timestamp_difference: Delay(0),
            wnd_size: 0,
            seq_nr: 0,
            ack_nr: 0,
            sack: None,
            payload: Vec::new(),
        }
    }

    /// A `Data` packet with the given payload and nothing else set.
    pub fn with_payload(payload: &[u8]) -> (p: Packet)
        ensures
            p@ == bare_packet(payload@),
    {
        let mut p = Packet::new();
        p.payload = slice_to_vec(payload);
        p
    }

    pub fn get_type(&self) -> (ty: PacketType)
        ensures
            ty == self@.ty,
    {
        self.ty
    }

    pub fn set_type(&mut self, ty: PacketType)
        ensures
            final(self)@ == (PacketView { ty, ..old(self)@ }),
    {
        self.ty = ty;
    }

    pub fn connection_id(&self) -> (id: u16)
        ensures
            id == self@.connection_id,
    {
        self.connection_id
    }

    pub fn set_connection_id(&mut self, connection_id: u16)
        ensures
            final(self)@ == (PacketView { connection_id, ..old(self)@ }),
    {
        self.connection_id = connection_id;
    }

    pub fn seq_nr(&self) -> (nr: u16)
        ensures
            nr == self@.seq_nr,
    {
        self.seq_nr
    }

    pub fn set_seq_nr(&mut self, seq_nr: u16)
        ensures
            final(self)@ == (PacketView { seq_nr, ..old(self)@ }),
    {
        self.seq_nr = seq_nr;
    }

    pub fn ack_nr(&self) -> (nr: u16)
        ensures
            nr == self@.ack_nr,
    {
        self.ack_nr
    }

    pub fn set_ack_nr(&mut self, ack_nr: u16)
        ensures
            final(self)@ == (PacketView { ack_nr, ..old(self)@ }),
    {
        self.ack_nr = ack_nr;
    }

    pub fn timestamp(&self) -> (t: Timestamp)
        ensures
            t == self@.timestamp,
    {
        self.timestamp
    }

    pub fn set_timestamp(&mut self, timestamp: Timestamp)
        ensures
            final(self)@ == (PacketView { timestamp, ..old(self)@ }),
    {
        self.timestamp = timestamp;
    }

    pub fn set_timestamp_difference(&mut self, timestamp_difference: Delay)
        ensures
            final(self)@ == (PacketView { timestamp_difference, ..old(self)@ }),
    {
        self.timestamp_difference = timestamp_difference;
    }

    /// Which extension the packet carries.
    pub fn get_extension_type(&self) -> (ext: ExtensionType)
        ensures
            ext == ExtensionType::SelectiveAck <==> self@.sack is Some,
            ext == ExtensionType::Absent <==> self@.sack is None,
    {
        match &self.sack {
            Some(_) => ExtensionType::SelectiveAck,
            None => ExtensionType::Absent,
        }
    }

    /// The selective acknowledgement that the packet carries.
    pub fn get_sack(&self) -> (sack: Option<Vec<u8>>)
        ensures
            optional_bytes(sack) == self@.sack,
    {
        match &self.sack {
            Some(s) => Some(slice_to_vec(s.as_slice())),
            None => None,
        }
    }

    /// Makes the packet carry the given selective acknowledgement.
    pub fn set_sack(&mut self, sack: Vec<u8>)
        ensures
            final(self)@ == (PacketView { sack: Some(sack@), ..old(self)@ }),
    {
        self.sack = Some(sack);
    }
}

} // verus!
