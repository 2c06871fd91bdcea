use bytes::{Bytes, BytesMut};
use utp::stream::read_chunk;
use utp::utp_stream::{receive_buffer, stops_receiver, take_datagram, ReadBuffer};

#[test]
fn a_datagram_is_read_in_pieces() {
    let mut buffer = ReadBuffer::new();
    assert!(buffer.read_remaining(4).is_none());
    assert_eq!(buffer.read_datagram(Bytes::from("hello world"), 4), Bytes::from("hell"));
    assert_eq!(buffer.remaining, Some(Bytes::from("o world")));
    assert_eq!(buffer.read_remaining(0), Some(Bytes::new()));
    assert_eq!(buffer.read_remaining(3), Some(Bytes::from("o w")));
    assert_eq!(buffer.read_remaining(100), Some(Bytes::from("orld")));
    assert_eq!(buffer.remaining, None);
    assert!(buffer.read_remaining(4).is_none());
}

#[test]
fn a_datagram_that_fits_is_read_at_once() {
    let mut buffer = ReadBuffer::new();
    assert_eq!(buffer.read_datagram(Bytes::from("hi"), 2), Bytes::from("hi"));
    assert_eq!(buffer.remaining, None);
}

#[test]
fn datagrams_are_taken_out_of_the_buffer() {
    let mut buf = BytesMut::from(&b"abcdef"[..]);
    assert_eq!(take_datagram(&mut buf, 4), Bytes::from("abcd"));
    assert_eq!(&buf[..], b"ef");
    assert_eq!(receive_buffer().len(), 0);
}

#[test]
fn packets_are_cut_to_the_room_of_the_reader() {
    assert_eq!(read_chunk(b"hello", 3), b"hel".to_vec());
    assert_eq!(read_chunk(b"hello", 5), b"hello".to_vec());
    assert_eq!(read_chunk(b"hello", 9), b"hello".to_vec());
}

#[test]
fn shutting_down_stops_the_receiver_unless_it_has_stopped() {
    assert!(stops_receiver(None));
    assert!(stops_receiver(Some(false)));
    assert!(!stops_receiver(Some(true)));
}

#[test]
fn datagrams_are_read_one_after_the_other() {
    let mut waiting = vec![Bytes::from("ef"), Bytes::new(), Bytes::from("abcd")];
    let mut buffer = ReadBuffer::new();
    let mut reads: Vec<Vec<u8>> = vec![];
    for room in [3, 3, 0, 5, 1, 1] {
        let read = match buffer.read_remaining(room) {
            Some(rest) => rest,
            None => match waiting.pop() {
                Some(datagram) => buffer.read_datagram(datagram, room),
                None => Bytes::new(),
            },
        };
        reads.push(read.to_vec());
    }
    assert_eq!(
        reads,
        vec![
            b"abc".to_vec(),
            b"d".to_vec(),
            b"".to_vec(),
            b"ef".to_vec(),
            b"".to_vec(),
            b"".to_vec()
        ]
    );
    assert!(waiting.is_empty() && buffer.remaining.is_none());
}
