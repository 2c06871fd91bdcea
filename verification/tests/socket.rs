use std::collections::BTreeMap;
use std::ops::Range;
use utp::addr::PeerAddr;
use utp::error::{ParseError, SocketError};
use utp::packet::{ExtensionType, Packet, PacketType};
use utp::reaction::{can_react, Reaction};
use utp::socket::{Received, UtpSocket, BUF_SIZE, RECV_BUF_SIZE};
use utp::state::{SocketState, UtpSocketState};
use utp::time::{Delay, Timestamp};

const NOW: Timestamp = Timestamp(1_000);

fn addr(port: u16) -> PeerAddr {
    PeerAddr { version: 4, ip: 0x7f00_0001, port, flow_info: 0, scope_id: 0 }
}

fn create_test_packet(
    packet_type: PacketType,
    seq_nr: u16,
    ack_nr: u16,
    connection_id: u16,
) -> Packet {
    let mut packet = Packet::new();
    packet.set_type(packet_type);
    packet.set_seq_nr(seq_nr);
    packet.set_ack_nr(ack_nr);
    packet.set_connection_id(connection_id);
    packet
}

fn create_socket(at: PeerAddr) -> UtpSocket {
    let mut socket = UtpSocket::new(7, false);
    let mut peer_state = UtpSocketState::new(1);
    peer_state.state = SocketState::Connected;
    socket.register_peer(at, peer_state);
    socket
}

fn numbers(packets: &BTreeMap<u16, Packet>) -> Vec<u16> {
    packets.keys().copied().collect()
}

fn reply_of(r: Result<Reaction, SocketError>) -> Packet {
    r.unwrap().reply.unwrap()
}

#[test]
fn test_packet_transfer() {
    let server_addr = addr(8080);
    let server = create_socket(server_addr);
    let client_addr = addr(8081);
    let client = create_socket(client_addr);
    let mut client_peer = client.get_peer(client_addr).unwrap().clone();
    let mut server_peer = server.get_peer(server_addr).unwrap().clone();

    for seq_nr in 0..8 {
        let data_packet =
            create_test_packet(PacketType::Data, seq_nr, client_peer.last_acked, seq_nr);
        client_peer.sent_window.insert(seq_nr, data_packet.clone());
        let _ = server.handle_packet(&data_packet, &mut server_peer, NOW);
    }

    let ack_packets = vec![
        create_test_packet(PacketType::Ack, 0, 1, 1),
        create_test_packet(PacketType::Ack, 1, 2, 1),
        create_test_packet(PacketType::Ack, 2, 3, 1),
        create_test_packet(PacketType::Ack, 3, 4, 1),
        create_test_packet(PacketType::Ack, 4, 5, 1),
        create_test_packet(PacketType::Ack, 5, 6, 1),
        create_test_packet(PacketType::Ack, 6, 7, 1),
        create_test_packet(PacketType::Ack, 7, 8, 1),
    ];

    for ack in ack_packets {
        let _ = client.handle_packet(&ack, &mut client_peer, NOW);
    }

    assert!(!client_peer.sent_window.contains_key(&3));
    assert!(!client_peer.sent_window.contains_key(&4));
    assert!(!client_peer.sent_window.contains_key(&5));
    assert!(!client_peer.sent_window.contains_key(&6));
    assert_eq!(numbers(&client_peer.sent_window), vec![0]);
    assert_eq!(client_peer.last_acked, 8);
    assert_eq!(server_peer.last_acked, 7);
    assert_eq!(server_peer.seq_nr, 8);
}

#[test]
fn test_build_selective_ack() {
    let server_addr = addr(8080);
    let server = create_socket(server_addr);
    let mut server_peer = server.get_peer(server_addr).unwrap().clone();

    server_peer.ack_nr = 3;
    let last_ack = 3;

    let mut send_packets = |range: Range<u16>| {
        for seq_nr in range {
            let data_packet = create_test_packet(PacketType::Data, seq_nr, last_ack, 1);
            server_peer.incoming_buffer.push_back(data_packet.clone());
            let _ = server.handle_packet(&data_packet, &mut server_peer, NOW);
        }
    };

    send_packets(0..4);
    send_packets(5..10);
    send_packets(15..23);

    let sack = server.build_selective_ack(&mut server_peer);
    assert_eq!(4, sack.len());
    assert_eq!(sack, vec![0b0011_1110, 0b1111_1000, 0b0000_0111, 0]);

    let mut packet = create_test_packet(PacketType::Ack, 0, 1, 1);
    packet.set_sack(sack.clone());

    let retrieved_sack = packet.get_sack();
    assert_eq!(retrieved_sack, Some(sack.clone()));
    assert_eq!(packet.get_extension_type(), ExtensionType::SelectiveAck);

    let lost_packets = server.get_lost_seq_nr(sack, last_ack, 23);
    assert_eq!(lost_packets, vec![4, 10, 11, 12, 13, 14]);
}

#[test]
fn unacknowledged_packets_stay_in_the_window() {
    let server_addr = addr(8080);
    let client_addr = addr(8081);
    let client = create_socket(client_addr);
    let server = create_socket(server_addr);
    let mut server_peer = server.get_peer(server_addr).unwrap().clone();
    let mut client_peer = client.get_peer(client_addr).unwrap().clone();

    for range in [0..4, 5..10, 15..23] {
        for seq_nr in range {
            let data_packet = create_test_packet(
                PacketType::Data,
                seq_nr,
                client_peer.last_acked,
                client_peer.sender_id,
            );
            client_peer.sent_window.insert(seq_nr, data_packet.clone());
            server_peer.incoming_buffer.push_back(data_packet.clone());
            let _ = server.handle_packet(&data_packet, &mut server_peer, NOW);
        }
    }
    assert_eq!(4, server.build_selective_ack(&server_peer).len());

    for (seq_nr, ack_nr) in [(0, 1), (1, 2), (2, 3), (3, 4), (5, 6), (6, 7), (7, 8)] {
        let ack = create_test_packet(PacketType::Ack, seq_nr, ack_nr, 1);
        let _ = client.handle_packet(&ack, &mut client_peer, NOW);
    }
    assert!(client_peer.sent_window.contains_key(&5));
    assert!(client_peer.sent_window.contains_key(&6));
    assert_eq!(client_peer.last_acked, 4);
}

#[test]
fn a_new_peer_has_initial_values() {
    let peer = UtpSocketState::new(42);
    assert_eq!(peer.state, SocketState::New);
    assert_eq!((peer.seq_nr, peer.ack_nr, peer.last_acked), (1, 0, 0));
    assert_eq!(peer.cwnd, 10);
    assert_eq!(peer.max_retransmission_retries, 5);
    assert_eq!(peer.congestion_timeout, 500);
    assert_eq!(peer.sender_id, 42);
    assert!(peer.connected_to.is_none());
    assert!(peer.sent_window.is_empty() && peer.out_of_order.is_empty());
}

#[test]
fn early_packets_are_acknowledged_once_the_gap_closes() {
    let server = create_socket(addr(1));
    let mut peer = server.get_peer(addr(1)).unwrap().clone();
    for (seq_nr, ack_nr) in [(1, 1), (3, 1), (4, 1), (6, 1), (2, 4), (5, 6)] {
        let packet = create_test_packet(PacketType::Data, seq_nr, 0, 1);
        let reply = reply_of(server.handle_packet(&packet, &mut peer, NOW));
        assert_eq!(reply.get_type(), PacketType::Ack);
        assert_eq!(reply.ack_nr(), ack_nr);
        assert_eq!(reply.get_sack().is_some(), seq_nr > ack_nr);
    }
    assert!(peer.out_of_order.is_empty());
    assert_eq!(peer.last_acked, 6);
}

#[test]
fn arrival_order_does_not_matter() {
    let server = create_socket(addr(1));
    let mut ends = vec![];
    for order in [[1, 2, 3, 5, 6], [6, 5, 3, 2, 1], [3, 1, 6, 2, 5], [5, 6, 1, 2, 3]] {
        let mut peer = server.get_peer(addr(1)).unwrap().clone();
        for seq_nr in order {
            let packet = create_test_packet(PacketType::Data, seq_nr, 0, 1);
            server.handle_packet(&packet, &mut peer, NOW).unwrap();
            server.handle_packet(&packet, &mut peer, NOW).unwrap();
        }
        ends.push((peer.last_acked, numbers(&peer.out_of_order)));
    }
    for end in ends {
        assert_eq!(end, (3, vec![5, 6]));
    }
}

#[test]
fn stale_early_packets_hold_up_the_run() {
    let server = create_socket(addr(1));
    let mut peer = server.get_peer(addr(1)).unwrap().clone();
    peer.last_acked = 4;
    for seq_nr in [2, 6] {
        peer.out_of_order.insert(seq_nr, create_test_packet(PacketType::Data, seq_nr, 0, 1));
    }
    let packet = create_test_packet(PacketType::Data, 5, 0, 1);
    assert_eq!(reply_of(server.handle_packet(&packet, &mut peer, NOW)).ack_nr(), 5);
    assert_eq!(numbers(&peer.out_of_order), vec![2, 6]);
}

#[test]
fn old_packets_are_acknowledged_again() {
    let server = create_socket(addr(1));
    let mut peer = server.get_peer(addr(1)).unwrap().clone();
    peer.last_acked = 9;
    let packet = create_test_packet(PacketType::Data, 4, 0, 1);
    let reply = reply_of(server.handle_packet(&packet, &mut peer, NOW));
    assert_eq!((reply.ack_nr(), reply.seq_nr()), (9, 1));
    assert!(reply.get_sack().is_none());
    assert_eq!(reply.get_extension_type(), ExtensionType::Absent);
}

#[test]
fn replies_name_the_socket_and_the_delay() {
    let socket = create_socket(addr(1));
    let mut packet = create_test_packet(PacketType::Data, 1, 0, 99);
    packet.set_timestamp(Timestamp(1_250));
    let reply = socket.prepare_reply(&packet, PacketType::Ack, 3, 2, NOW);
    assert_eq!(reply.connection_id(), 7);
    assert_eq!(reply.timestamp(), NOW);
    assert_eq!(reply.timestamp_difference, Delay(250));
    assert_eq!((reply.seq_nr(), reply.ack_nr()), (3, 2));
    assert_eq!(reply.get_type(), PacketType::Ack);
}

#[test]
fn the_third_ack_of_a_packet_resends_the_next() {
    let client = create_socket(addr(1));
    let mut peer = client.get_peer(addr(1)).unwrap().clone();
    for seq_nr in 1..4 {
        peer.sent_window.insert(seq_nr, create_test_packet(PacketType::Data, seq_nr, 0, 7));
    }
    let ack = create_test_packet(PacketType::Ack, 0, 1, 1);
    assert!(client.handle_packet(&ack, &mut peer, NOW).unwrap().reply.is_none());
    assert_eq!(peer.duplicate_ack_count, 1);
    assert_eq!(peer.last_acked_timestamp, NOW);
    assert!(client.handle_packet(&ack, &mut peer, NOW).unwrap().reply.is_none());
    assert_eq!(reply_of(client.handle_packet(&ack, &mut peer, NOW)).seq_nr(), 2);
    assert_eq!(reply_of(client.handle_packet(&ack, &mut peer, NOW)).seq_nr(), 2);
    assert_eq!(numbers(&peer.sent_window), vec![2, 3]);
}

#[test]
fn the_sender_learns_what_is_missing() {
    let socket = create_socket(addr(1));
    let mut receiver = socket.get_peer(addr(1)).unwrap().clone();
    let mut sender = receiver.clone();
    sender.seq_nr = 8;
    let mut answer = Packet::new();
    for seq_nr in [1, 3, 7] {
        let packet = create_test_packet(PacketType::Data, seq_nr, 0, 1);
        answer = reply_of(socket.handle_packet(&packet, &mut receiver, NOW));
    }
    let reaction = socket.handle_packet(&answer, &mut sender, NOW).unwrap();
    assert_eq!(reaction.lost, vec![2, 4, 5, 6]);
}

#[test]
fn state_packets_resend_the_one_before_while_the_window_is_not_empty() {
    let socket = create_socket(addr(1));
    let mut peer = socket.get_peer(addr(1)).unwrap().clone();
    let state = create_test_packet(PacketType::State, 0, 5, 1);
    assert!(socket.handle_packet(&state, &mut peer, NOW).unwrap().reply.is_none());
    assert_eq!((peer.last_acked, peer.duplicate_ack_count), (5, 1));
    peer.sent_window.insert(4, create_test_packet(PacketType::Data, 4, 0, 7));
    assert_eq!(reply_of(socket.handle_packet(&state, &mut peer, NOW)).seq_nr(), 4);
    assert_eq!(peer.duplicate_ack_count, 2);
}

#[test]
fn fin_closes_and_closed_stays_closed() {
    let mut socket = create_socket(addr(1));
    let mut peer = socket.get_peer(addr(1)).unwrap().clone();
    let fin = create_test_packet(PacketType::Fin, 9, 0, 1);
    let reply = reply_of(socket.handle_packet(&fin, &mut peer, NOW));
    assert_eq!(reply.get_type(), PacketType::State);
    assert_eq!((reply.seq_nr(), reply.ack_nr()), (9, 9));
    assert_eq!(peer.state, SocketState::Closed);
    for ty in [PacketType::Data, PacketType::Ack, PacketType::State, PacketType::Fin] {
        let packet = create_test_packet(ty, 1, 0, 1);
        assert!(socket.handle_packet(&packet, &mut peer, NOW).is_err());
        assert_eq!(peer.state, SocketState::Closed);
    }
    let syn = create_test_packet(PacketType::Syn, 1, 0, 1);
    assert_eq!(
        reply_of(socket.handle_packet(&syn, &mut peer, NOW)).get_type(),
        PacketType::Reset
    );
    assert_eq!(peer.state, SocketState::Closed);
    socket.register_peer(addr(1), peer);
    assert!(matches!(
        socket.send_packets(b"hello", Some(addr(1))),
        Err(SocketError::ConnectionClosed)
    ));
}

#[test]
fn reset_ends_a_connection_in_any_state() {
    let socket = create_socket(addr(1));
    for state in [
        SocketState::New,
        SocketState::Connected,
        SocketState::SynSent,
        SocketState::FinSent,
        SocketState::Closed,
    ] {
        let mut peer = UtpSocketState::new(1);
        peer.state = state;
        let reset = create_test_packet(PacketType::Reset, 1, 0, 1);
        assert!(matches!(
            socket.handle_packet(&reset, &mut peer, NOW),
            Err(SocketError::ConnectionReset)
        ));
        assert_eq!(peer.state, SocketState::ResetReceived);
    }
}

#[test]
fn packets_without_meaning_are_refused_in_words() {
    let socket = create_socket(addr(1));
    let mut peer = UtpSocketState::new(1);
    let fin = create_test_packet(PacketType::Fin, 1, 0, 1);
    match socket.handle_packet(&fin, &mut peer, NOW) {
        Err(SocketError::Other(text)) => {
            assert_eq!(text, "Unimplemented handling for (New,Fin)")
        }
        _ => panic!("accepted"),
    }
    peer.state = SocketState::FinSent;
    let state = create_test_packet(PacketType::State, 1, 0, 1);
    match socket.handle_packet(&state, &mut peer, NOW) {
        Err(SocketError::Other(text)) => {
            assert_eq!(text, "Unimplemented handling for (FinSent,State)")
        }
        _ => panic!("accepted"),
    }
}

#[test]
fn inadmissible_packets_are_recognised() {
    let mut peer = UtpSocketState::new(1);
    peer.state = SocketState::Connected;
    let first = create_test_packet(PacketType::Data, 1, 0, 1);
    assert!(can_react(&first, &peer));
    peer.last_acked = u16::MAX;
    assert!(!can_react(&first, &peer));
    peer.last_acked = 3;
    peer.duplicate_ack_count = 2;
    let ack = create_test_packet(PacketType::Ack, 0, 3, 1);
    assert!(!can_react(&ack, &peer));
    peer.sent_window.insert(4, first.clone());
    assert!(can_react(&ack, &peer));
    let mut sack = create_test_packet(PacketType::Ack, 0, 5, 1);
    sack.set_sack(vec![0, 0, 0, 0]);
    assert!(can_react(&sack, &peer));
    peer.last_acked = u16::MAX - 4;
    peer.seq_nr = u16::MAX;
    peer.duplicate_ack_count = 0;
    sack.set_ack_nr(u16::MAX - 3);
    sack.set_sack(vec![0xff, 0, 0, 0]);
    assert!(!can_react(&sack, &peer));
    let state = create_test_packet(PacketType::State, 0, 0, 1);
    assert!(!can_react(&state, &peer));
}

#[test]
fn a_second_connection_is_refused() {
    let mut socket = UtpSocket::new(7, false);
    let syn = socket.connect(addr(1), 5).unwrap();
    assert_eq!(syn.get_type(), PacketType::Syn);
    assert_eq!((syn.connection_id(), syn.seq_nr(), syn.ack_nr()), (7, 1, 0));
    let peer = socket.get_peer(addr(1)).unwrap();
    assert_eq!(peer.state, SocketState::SynSent);
    assert_eq!(peer.sender_id, 5);
    assert_eq!(peer.connected_to, Some(addr(1)));
    assert_eq!(numbers(&peer.sent_window), vec![1]);
    assert!(matches!(socket.connect(addr(1), 6), Err(SocketError::AlreadyConnected)));
    assert_eq!(socket.get_peer(addr(1)).unwrap().sender_id, 5);
    assert!(socket.connect(addr(2), 6).is_ok());
    assert!(socket.get_peer(addr(3)).is_none());
}

#[test]
fn sending_splits_and_sends_the_whole_window() {
    let mut socket = create_socket(addr(1));
    let (to, packets) = socket.send_packets(b"hello world!!", Some(addr(1))).unwrap();
    assert_eq!(to, addr(1));
    let sent: Vec<(u16, Vec<u8>)> =
        packets.iter().map(|p| (p.seq_nr(), p.payload.clone())).collect();
    assert_eq!(
        sent,
        vec![(1, b"hello ".to_vec()), (2, b"world!".to_vec()), (3, b"!".to_vec())]
    );
    assert!(packets.iter().all(|p| p.connection_id() == 7 && p.payload.len() <= BUF_SIZE));
    let (to, packets) = socket.send_packets(b"more", None).unwrap();
    assert_eq!(to, addr(1));
    assert_eq!(packets.iter().map(|p| p.seq_nr()).collect::<Vec<u16>>(), vec![1, 2, 3, 4]);
    assert_eq!(socket.get_peer(addr(1)).unwrap().seq_nr, 5);
    let (_, packets) = socket.send_packets(b"", None).unwrap();
    assert_eq!(packets.len(), 4);
}

#[test]
fn sequence_numbers_wrap_around_when_sending() {
    let mut socket = UtpSocket::new(7, false);
    let mut peer = UtpSocketState::new(1);
    peer.state = SocketState::Connected;
    peer.seq_nr = u16::MAX;
    socket.register_peer(addr(1), peer);
    let packets = socket.send_packets_to(b"abcdefgh", addr(1)).unwrap();
    let sent: Vec<(u16, Vec<u8>)> =
        packets.iter().map(|p| (p.seq_nr(), p.payload.clone())).collect();
    assert_eq!(sent, vec![(0, b"gh".to_vec()), (u16::MAX, b"abcdef".to_vec())]);
    assert_eq!(socket.get_peer(addr(1)).unwrap().seq_nr, 1);
}

#[test]
fn sending_needs_a_peer() {
    let mut socket = UtpSocket::new(7, false);
    assert!(matches!(socket.send_packets(b"x", None), Err(SocketError::NoPeers)));
    assert!(matches!(socket.send_packets(b"x", Some(addr(1))), Err(SocketError::NoPeer)));
}

fn deliver(to: &mut UtpSocket, packet: &Packet, from: PeerAddr) -> Option<Packet> {
    let bytes = packet.to_bytes().unwrap();
    let mut buf = [0u8; RECV_BUF_SIZE];
    buf[..bytes.len()].copy_from_slice(&bytes);
    assert!(to.can_receive(&buf, bytes.len(), from, false));
    match to.recv_packets_from(&buf, bytes.len(), from, false, NOW).unwrap() {
        Received::Handled(reaction) => reaction.reply,
        Received::Lost => panic!("dropped"),
    }
}

#[test]
fn a_connection_from_handshake_to_acknowledgement() {
    let mut client = UtpSocket::new(7, false);
    let mut server = UtpSocket::new(8, false);
    let (client_addr, server_addr) = (addr(1), addr(2));

    let syn = client.connect(server_addr, 3).unwrap();
    let state = deliver(&mut server, &syn, client_addr).unwrap();
    assert_eq!(state.get_type(), PacketType::State);
    assert!(deliver(&mut client, &state, server_addr).is_none());
    assert_eq!(client.get_peer(server_addr).unwrap().state, SocketState::Connected);
    assert_eq!(server.get_peer(client_addr).unwrap().state, SocketState::Connected);
    assert!(client.get_peer(server_addr).unwrap().sent_window.is_empty());
    assert_eq!(server.get_peer(client_addr).unwrap().sender_id, 7);
    assert_eq!(server.get_peer(client_addr).unwrap().connected_to, Some(client_addr));

    let packets = client.send_packets_to(b"ping", server_addr).unwrap();
    assert_eq!(packets.len(), 1);
    assert_eq!(packets[0].seq_nr(), 2);
    let ack = deliver(&mut server, &packets[0], client_addr).unwrap();
    assert_eq!(ack.ack_nr(), 2);
    assert!(deliver(&mut client, &ack, server_addr).is_none());
    assert!(client.get_peer(server_addr).unwrap().sent_window.is_empty());

    assert_eq!(server.next_incoming(client_addr).unwrap().get_type(), PacketType::Syn);
    let data = server.next_incoming(client_addr).unwrap();
    assert_eq!(data.payload, b"ping\0\0".to_vec());
    assert!(server.next_incoming(client_addr).is_none());
    assert!(server.next_incoming(addr(9)).is_none());
}

#[test]
fn the_rest_of_the_buffer_counts_as_payload() {
    let mut server = create_socket(addr(1));
    let packet = create_test_packet(PacketType::Data, 1, 0, 1);
    let bytes = packet.to_bytes().unwrap();
    let mut buf = [0x55u8; RECV_BUF_SIZE];
    buf[..bytes.len()].copy_from_slice(&bytes);
    assert!(matches!(
        server.recv_packets_from(&buf, bytes.len(), addr(1), false, NOW),
        Ok(Received::Handled(_))
    ));
    assert_eq!(server.next_incoming(addr(1)).unwrap().payload, vec![0x55u8; 6]);
}

#[test]
fn packets_can_be_dropped_but_not_the_first() {
    let mut server = UtpSocket::new(8, true);
    let syn = create_test_packet(PacketType::Syn, 1, 0, 7).to_bytes().unwrap();
    assert!(matches!(
        server.recv_packets_from(&syn, 20, addr(1), true, NOW),
        Ok(Received::Handled(_))
    ));
    let data = create_test_packet(PacketType::Data, 2, 0, 7).to_bytes().unwrap();
    assert!(matches!(
        server.recv_packets_from(&data, 20, addr(1), true, NOW),
        Ok(Received::Lost)
    ));
    assert_eq!(server.get_peer(addr(1)).unwrap().last_acked, 1);
    assert!(matches!(
        server.recv_packets_from(&data, 20, addr(1), false, NOW),
        Ok(Received::Handled(_))
    ));
    assert_eq!(server.get_peer(addr(1)).unwrap().last_acked, 2);
    let mut strict = UtpSocket::new(8, false);
    assert!(matches!(
        strict.recv_packets_from(&data, 20, addr(1), true, NOW),
        Ok(Received::Handled(_))
    ));
}

#[test]
fn refused_packets_are_received_without_an_answer() {
    let mut server = UtpSocket::new(8, false);
    let data = create_test_packet(PacketType::Data, 2, 0, 7).to_bytes().unwrap();
    match server.recv_packets_from(&data, 20, addr(1), false, NOW) {
        Ok(Received::Handled(reaction)) => {
            assert!(reaction.reply.is_none() && reaction.lost.is_empty())
        }
        _ => panic!("not handled"),
    }
    assert_eq!(server.get_peer(addr(1)).unwrap().state, SocketState::New);
    assert!(server.next_incoming(addr(1)).is_some());
}

#[test]
fn datagrams_that_are_no_packets_leave_no_trace() {
    let mut server = UtpSocket::new(8, false);
    assert!(matches!(
        server.recv_packets_from(&[0u8; 26], 4, addr(1), false, NOW),
        Err(ParseError::InvalidPacketLength)
    ));
    assert!(server.get_peer(addr(1)).is_none());
    assert!(server.can_receive(&[0u8; 26], 4, addr(1), false));
}

#[test]
fn packets_leave_the_rest_alone() {
    let socket = create_socket(addr(1));
    for ty in [PacketType::Data, PacketType::Ack, PacketType::Fin, PacketType::Reset] {
        let mut peer = socket.get_peer(addr(1)).unwrap().clone();
        peer.connected_to = Some(addr(1));
        peer.incoming_buffer.push_back(create_test_packet(PacketType::Data, 9, 0, 1));
        let _ = socket.handle_packet(&create_test_packet(ty, 1, 1, 5), &mut peer, NOW);
        assert_eq!((peer.sender_id, peer.connected_to), (1, Some(addr(1))));
        assert_eq!(peer.incoming_buffer.len(), 1);
        assert_eq!((peer.rtt, peer.rtt_variance, peer.cwnd), (0, 0, 10));
        assert_eq!((peer.curr_window, peer.remote_wnd_size, peer.congestion_timeout), (0, 0, 500));
        assert!(peer.unsent_queue.is_empty() && peer.base_delays.is_empty());
    }
}

#[test]
fn a_message_of_several_packets_is_delivered() {
    let mut client = UtpSocket::new(7, false);
    let mut server = UtpSocket::new(8, false);
    let (client_addr, server_addr) = (addr(1), addr(2));
    let syn = client.connect(server_addr, 3).unwrap();
    let state = deliver(&mut server, &syn, client_addr).unwrap();
    deliver(&mut client, &state, server_addr);
    server.next_incoming(client_addr);

    let message = b"eighteen bytes now";
    let packets = client.send_packets_to(message, server_addr).unwrap();
    assert_eq!(packets.len(), 3);
    let mut acks = vec![];
    for packet in &packets {
        acks.push(deliver(&mut server, packet, client_addr).unwrap());
    }
    assert_eq!(acks.iter().map(|a| a.ack_nr()).collect::<Vec<u16>>(), vec![2, 3, 4]);
    for ack in &acks {
        assert!(deliver(&mut client, ack, server_addr).is_none());
    }
    assert!(client.get_peer(server_addr).unwrap().sent_window.is_empty());
    let mut read = vec![];
    while let Some(packet) = server.next_incoming(client_addr) {
        read.extend_from_slice(&packet.payload);
    }
    assert_eq!(read, message.to_vec());
}

#[test]
fn peers_of_both_kinds_of_address_are_kept_apart() {
    let mut socket = UtpSocket::new(7, false);
    let v4 = addr(1);
    let v6 = PeerAddr { version: 6, ..v4 };
    let scoped = PeerAddr { scope_id: 3, ..v6 };
    for (at, sender_id) in [(v4, 1), (v6, 2), (scoped, 3), (v4, 4)] {
        socket.register_peer(at, UtpSocketState::new(sender_id));
    }
    assert_eq!(socket.get_peer(v4).unwrap().sender_id, 4);
    assert_eq!(socket.get_peer(v6).unwrap().sender_id, 2);
    assert_eq!(socket.get_peer(scoped).unwrap().sender_id, 3);
}

#[test]
fn a_message_with_a_short_last_part_is_delivered() {
    let mut client = create_socket(addr(2));
    let mut server = create_socket(addr(1));
    let message = b"twenty-two bytes here.";
    let packets = client.send_packets_to(message, addr(2)).unwrap();
    assert_eq!(packets.len(), 4);
    let mut read = vec![];
    for packet in &packets {
        let bytes = packet.to_bytes().unwrap();
        let mut buf = [0x55u8; RECV_BUF_SIZE];
        buf[..bytes.len()].copy_from_slice(&bytes);
        let received = server.recv_packets_from(&buf, bytes.len(), addr(1), false, NOW).unwrap();
        let ack = match received {
            Received::Handled(reaction) => reaction.reply.unwrap(),
            Received::Lost => panic!("dropped"),
        };
        assert_eq!(ack.ack_nr(), packet.seq_nr());
        let arrived = server.next_incoming(addr(1)).unwrap();
        assert_eq!(arrived.payload.len(), BUF_SIZE);
        read.extend_from_slice(&arrived.payload[..packet.payload.len()]);
        assert!(deliver(&mut client, &ack, addr(2)).is_none());
    }
    assert_eq!(read, message.to_vec());
    assert!(client.get_peer(addr(2)).unwrap().sent_window.is_empty());
}

#[test]
fn a_peer_that_is_set_again_has_the_new_state_alone() {
    let mut socket = UtpSocket::new(7, false);
    for sender_id in 1..5 {
        socket.register_peer(addr(1), UtpSocketState::new(sender_id));
        socket.register_peer(addr(2), UtpSocketState::new(10 * sender_id));
    }
    assert_eq!(socket.get_peer(addr(1)).unwrap().sender_id, 4);
    assert_eq!(socket.get_peer(addr(2)).unwrap().sender_id, 40);
    assert!(matches!(socket.connect(addr(1), 9), Err(SocketError::AlreadyConnected)));
}
