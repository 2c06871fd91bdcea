use utp::error::ParseError;
use utp::packet::{Packet, PacketType};
use utp::socket::UtpSocket;
use utp::time::{abs_diff, Delay, Timestamp};

fn sample() -> Packet {
    let mut packet = Packet::with_payload(b"hey");
    packet.set_type(PacketType::Ack);
    packet.set_connection_id(0x0102);
    packet.set_timestamp(Timestamp(0x0a0b_0c0d));
    packet.set_timestamp_difference(Delay(0x0102_0304));
    packet.wnd_size = 0xffee_ddcc;
    packet.set_seq_nr(0x1122);
    packet.set_ack_nr(0x3344);
    packet
}

fn same(a: &Packet, b: &Packet) -> bool {
    a.ty == b.ty
        && a.connection_id == b.connection_id
        && a.timestamp == b.timestamp
        && a.timestamp_difference == b.timestamp_difference
        && a.wnd_size == b.wnd_size
        && a.seq_nr == b.seq_nr
        && a.ack_nr == b.ack_nr
        && a.sack == b.sack
        && a.payload == b.payload
}

#[test]
fn the_header_is_big_endian() {
    let bytes = sample().to_bytes().unwrap();
    assert_eq!(
        bytes,
        vec![
            0x51, 0, 1, 2, 0x0a, 0x0b, 0x0c, 0x0d, 1, 2, 3, 4, 0xff, 0xee, 0xdd, 0xcc, 0x11, 0x22,
            0x33, 0x44, b'h', b'e', b'y'
        ]
    );
}

#[test]
fn what_is_written_is_read_back() {
    for ty in [
        PacketType::Data,
        PacketType::Fin,
        PacketType::State,
        PacketType::Reset,
        PacketType::Syn,
        PacketType::Ack,
    ] {
        let mut packet = sample();
        packet.set_type(ty);
        let read = Packet::try_from(&packet.to_bytes().unwrap()).unwrap();
        assert!(same(&packet, &read));
        packet.set_sack(vec![1, 2, 3, 4, 5, 6, 7, 8]);
        let bytes = packet.to_bytes().unwrap();
        assert_eq!(&bytes[20..30], &[0, 8, 1, 2, 3, 4, 5, 6, 7, 8]);
        assert!(same(&packet, &UtpSocket::to_packet(&bytes).unwrap()));
    }
}

#[test]
fn a_copy_is_the_same_packet() {
    let mut packet = sample();
    packet.set_sack(vec![9, 9, 9, 9]);
    assert!(same(&packet, &packet.clone()));
}

#[test]
fn unknown_extensions_are_skipped() {
    let mut bytes = sample().to_bytes().unwrap();
    bytes[1] = 7;
    let extensions = [1, 4, 0, 0, 0, 0, 0, 4, 1, 2, 3, 4];
    for (i, b) in extensions.iter().enumerate() {
        bytes.insert(20 + i, *b);
    }
    let packet = Packet::try_from(&bytes).unwrap();
    assert_eq!(packet.get_sack(), Some(vec![1, 2, 3, 4]));
    assert_eq!(packet.payload, b"hey".to_vec());
}

#[test]
fn datagrams_that_are_no_packets() {
    let good = sample().to_bytes().unwrap();
    let error = |bytes: &[u8]| Packet::try_from(bytes).err();
    assert_eq!(error(&good[..19]), Some(ParseError::InvalidPacketLength));
    assert_eq!(error(&good[..20]), None);
    let mut bytes = good.clone();
    bytes[0] = 0x52;
    assert_eq!(error(&bytes), Some(ParseError::UnsupportedVersion));
    bytes[0] = 0x61;
    assert_eq!(error(&bytes), Some(ParseError::InvalidPacketType(6)));
    bytes[0] = 0x51;
    bytes[1] = 1;
    assert_eq!(error(&bytes[..21]), Some(ParseError::InvalidPacketLength));
    assert_eq!(error(&bytes), Some(ParseError::InvalidExtensionLength));
    bytes[20] = 0;
    bytes[21] = 0;
    assert_eq!(error(&bytes), Some(ParseError::InvalidExtensionLength));
    bytes[21] = 4;
    assert_eq!(error(&bytes), Some(ParseError::InvalidExtensionLength));
    bytes.extend_from_slice(&[0, 0, 0]);
    assert_eq!(error(&bytes), None);
}

#[test]
fn trailing_bytes_lengthen_the_payload() {
    let mut packet = sample();
    packet.set_sack(vec![1, 0, 0, 0]);
    let mut bytes = packet.to_bytes().unwrap();
    bytes.extend_from_slice(b" you");
    let read = Packet::try_from(&bytes).unwrap();
    assert_eq!(read.payload, b"hey you".to_vec());
    assert_eq!(read.get_sack(), Some(vec![1, 0, 0, 0]));
}

#[test]
fn some_selective_acks_cannot_be_written() {
    let mut packet = sample();
    for len in [0, 3, 256] {
        packet.set_sack(vec![0; len]);
        assert!(packet.to_bytes().is_none());
    }
    packet.set_sack(vec![0; 252]);
    assert_eq!(packet.to_bytes().unwrap().len(), 20 + 2 + 252 + 3);
}

#[test]
fn distances_in_time() {
    assert_eq!(abs_diff(Timestamp(5), Timestamp(12)), Delay(7));
    assert_eq!(abs_diff(Timestamp(12), Timestamp(5)), Delay(7));
    assert_eq!(abs_diff(Timestamp(u32::MAX), Timestamp(0)), Delay(u32::MAX));
}
