//! Method streams and GPFIFO rings, read word by word with the codec handed in.

use lib::fetch::PushBytes;
use lib::methods::{decode_methods, decode_pushbuffer, gpfifo_live_entries, words};

fn le(words: &[u32]) -> Vec<u8> {
    words.iter().flat_map(|w| w.to_le_bytes()).collect()
}

/// A toy codec: the low byte of a header is its argument count.
fn low_byte(h: u32) -> usize {
    (h & 0xFF) as usize
}

#[test]
fn words_are_little_endian_and_a_partial_word_is_dropped() {
    let mut bytes = le(&[0x0403_0201, 0xDEAD_BEEF]);
    bytes.extend_from_slice(&[9, 9, 9]);
    assert_eq!(words(&bytes), vec![0x0403_0201, 0xDEAD_BEEF]);
    assert_eq!(words(&vec![1, 2, 3]), Vec::<u32>::new());
}

#[test]
fn each_header_takes_the_arguments_its_codec_counts() {
    let bytes = le(&[0x1000_0002, 7, 8, 0x2000_0000, 0x3000_0001, 9]);
    assert_eq!(
        decode_methods(&low_byte, &bytes),
        vec![(0x1000_0002, vec![7, 8]), (0x2000_0000, vec![]), (0x3000_0001, vec![9])]
    );
}

#[test]
fn a_count_that_runs_off_the_end_takes_what_is_left() {
    let bytes = le(&[0x0000_00FF, 1, 2]);
    assert_eq!(decode_methods(&low_byte, &bytes), vec![(0xFF, vec![1, 2])]);
    assert_eq!(decode_methods(&low_byte, &Vec::new()), Vec::<(u32, Vec<u32>)>::new());
}

#[test]
fn a_blank_page_decodes_to_one_empty_method_per_word() {
    let page = vec![0u8; 64];
    let methods = decode_methods(&|_h: u32| 0usize, &page);
    assert_eq!(methods.len(), 16);
    assert!(methods.iter().all(|(h, args)| *h == 0 && args.is_empty()));
}

#[test]
fn a_pushbuffer_decodes_range_by_range() {
    // The second range's header asks for two words but its range holds one: a method never
    // reaches into the next range.
    let bytes = PushBytes { ranges: vec![le(&[0x0000_0001, 5]), le(&[0x0000_0002, 6]), le(&[0])] };
    assert_eq!(
        decode_pushbuffer(&low_byte, &bytes),
        vec![(1, vec![5]), (2, vec![6]), (0, vec![])]
    );
}

fn non_zero(e: Vec<u8>) -> bool {
    e.iter().any(|b| *b != 0)
}

#[test]
fn the_ring_is_live_up_to_the_first_empty_entry() {
    let mut ring = vec![0u8; 32];
    ring[0] = 1;
    ring[9] = 2;
    ring[24] = 3; // written, but after the first empty entry
    assert_eq!(gpfifo_live_entries(8, &non_zero, &ring), 2);
}

#[test]
fn a_full_ring_counts_every_whole_entry() {
    let ring = vec![1u8; 30];
    assert_eq!(gpfifo_live_entries(8, &non_zero, &ring), 3);
    assert_eq!(gpfifo_live_entries(8, &non_zero, &vec![1u8; 7]), 0);
}

#[test]
fn a_codec_without_a_stride_has_no_live_entries() {
    assert_eq!(gpfifo_live_entries(0, &non_zero, &vec![1u8; 16]), 0);
}
