use std::collections::BTreeMap;
use utp::packet::Packet;
use utp::selective_ack::{can_read, lost_seq_nrs, selective_ack};

fn received(numbers: &[u16]) -> BTreeMap<u16, Packet> {
    numbers.iter().map(|n| (*n, Packet::new())).collect()
}

#[test]
fn fields_are_as_short_as_they_can_be() {
    assert_eq!(selective_ack(&received(&[]), 3), Vec::<u8>::new());
    assert_eq!(selective_ack(&received(&[1, 2, 3]), 3), Vec::<u8>::new());
    assert_eq!(selective_ack(&received(&[4]), 3), vec![1, 0, 0, 0]);
    assert_eq!(selective_ack(&received(&[35]), 3), vec![0, 0, 0, 0x80]);
    assert_eq!(selective_ack(&received(&[36]), 3), vec![0, 0, 0, 0, 1, 0, 0, 0]);
    assert_eq!(selective_ack(&received(&[u16::MAX]), 0).len(), 8192);
}

#[test]
fn a_reader_finds_what_is_missing() {
    let field = selective_ack(&received(&[6, 7, 12, 40]), 4);
    let missing: Vec<u16> = (5..40).filter(|n| ![6, 7, 12].contains(n)).collect();
    assert_eq!(lost_seq_nrs(&field, 4, 40), missing);
    assert_eq!(lost_seq_nrs(&field, 4, 9), vec![5, 8]);
    assert_eq!(lost_seq_nrs(&field, 4, 4), Vec::<u16>::new());
}

#[test]
fn readability_ends_with_the_sequence_numbers() {
    assert!(can_read(&vec![0, 0, 0, 0], 10, 20));
    assert!(can_read(&vec![0, 0, 0, 0], u16::MAX - 3, u16::MAX - 1));
    assert!(!can_read(&vec![0xff, 0, 0, 0], u16::MAX - 3, u16::MAX - 1));
    assert!(can_read(&vec![0xff, 0xff, 0xff, 0xff], u16::MAX - 3, 5));
}
