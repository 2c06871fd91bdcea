//! A uTP (micro transport protocol) endpoint without the I/O: packets and their
//! wire format, the state kept for each peer, the reaction to every incoming
//! packet, selective acknowledgements, and the buffering of reads.
//!
//! Sockets, clocks and randomness are left to the caller, who hands in plain
//! values and sends what comes back.
pub mod ack_laws;
pub mod addr;
pub mod connection_laws;
pub mod data_laws;
pub mod error;
pub mod laws;
pub mod numbers;
pub mod packet;
pub mod packet_loss_handler;
pub mod peers;
pub mod reaction;
pub mod reading_laws;
pub mod receiving_laws;
pub mod selective_ack;
pub mod selective_ack_laws;
pub mod sending_laws;
pub mod socket;
pub mod state;
pub mod stream;
pub mod time;
pub mod utp_stream;
pub mod value_laws;
pub mod wire;
pub mod wire_laws;
