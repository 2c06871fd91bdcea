//! Errors of the packet parser and of the socket.
use vstd::prelude::*;

verus! {

/// Why a datagram is not a packet.
#[derive(Debug, Clone, Copy, PartialEq, Eq, Structural)]
pub enum ParseError {
    /// The datagram ends inside the header or before an announced extension.
    InvalidPacketLength,
    /// An extension is empty, not a multiple of 32 bits long, or longer than the datagram.
    InvalidExtensionLength,
    /// The version in the header is not 1.
    UnsupportedVersion,
    /// The packet type in the header is not one that exists.
    InvalidPacketType(u8),
}

/// Why the socket refuses a request or a packet.
#[derive(Debug, Clone)]
pub enum SocketError {
    /// A connection to this peer exists already.
    AlreadyConnected,
    /// No connection to this peer exists.
    NoPeer,
    /// No connection to any peer exists.
    NoPeers,
    /// The connection has been closed.
    ConnectionClosed,
    /// The peer has reset the connection.
    ConnectionReset,
    /// Anything else, in words.
    Other(String),
}

} // verus!
