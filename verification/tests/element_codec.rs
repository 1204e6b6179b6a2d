//! The element codec: layouts, bounds, the checksum, and what a receive reads back out of
//! what a send built.

use lib::element::{
    bytes_to_elements, checksum32, decode_message, encode_message, max_elements,
    peek_elem_count, peek_len, peek_seq_num, ElementLayout, MsgLen, OutgoingRpc, TransportHdr,
};
use lib::fault::{GspFault, LayoutError};

const SIGNATURE: u32 = 0x4356_5253;
const HEADER_VERSION: u32 = 0x0300_0000;

/// The 48-byte element with `elemCount@40`.
fn older() -> ElementLayout {
    ElementLayout::new(48, 32, 36, Some(40), TransportHdr::NoTransport).unwrap()
}

/// The 16-byte element with MCTP/NVDM transport words.
fn newer() -> ElementLayout {
    ElementLayout::new(
        16,
        8,
        12,
        None,
        TransportHdr::Mctp { header_off: 0, header_word: 0x0000_c801, nvdm_off: 4, nvdm_word: 0x0010_de7e },
    )
    .unwrap()
}

fn rpc(function: u32, sequence: u32, payload: Vec<u8>) -> OutgoingRpc {
    OutgoingRpc { function, sequence, rpc_result: 0, rpc_result_private: 0, payload }
}

fn le(b: &[u8], at: usize) -> u32 {
    u32::from_le_bytes([b[at], b[at + 1], b[at + 2], b[at + 3]])
}

#[test]
fn a_layout_refuses_a_header_too_small() {
    assert_eq!(
        ElementLayout::new(4, 0, 4, None, TransportHdr::NoTransport),
        Err(LayoutError::HeaderTooSmall { hdr_size: 4 })
    );
}

#[test]
fn a_layout_refuses_a_field_outside_its_header() {
    assert_eq!(
        ElementLayout::new(16, 8, 14, None, TransportHdr::NoTransport),
        Err(LayoutError::FieldOutsideHeader { offset: 14, hdr_size: 16 })
    );
}

#[test]
fn a_layout_refuses_overlapping_fields() {
    assert_eq!(
        ElementLayout::new(48, 32, 34, None, TransportHdr::NoTransport),
        Err(LayoutError::FieldsOverlap { a: 32, b: 34 })
    );
    assert_eq!(
        ElementLayout::new(48, 32, 36, Some(36), TransportHdr::NoTransport),
        Err(LayoutError::FieldsOverlap { a: 36, b: 36 })
    );
}

#[test]
fn a_layout_keeps_its_fields() {
    let l = older();
    assert_eq!(l.hdr_size(), 48);
    assert_eq!(l.checksum_off(), 32);
    assert_eq!(l.seqnum_off(), 36);
    assert_eq!(l.elem_count_off(), Some(40));
    assert_eq!(l.transport(), TransportHdr::NoTransport);
    assert_eq!(newer().elem_count_off(), None);
}

#[test]
fn bytes_to_elements_rounds_up() {
    assert_eq!(bytes_to_elements(80, 256), 1);
    assert_eq!(bytes_to_elements(256, 256), 1);
    assert_eq!(bytes_to_elements(257, 256), 2);
    assert_eq!(bytes_to_elements(0, 256), 0);
    assert_eq!(bytes_to_elements(100, 0), 0);
}

#[test]
fn max_elements_is_the_staging_bound() {
    assert_eq!(max_elements(256, 4096), 16);
    assert_eq!(max_elements(300, 4096), 13);
    assert_eq!(max_elements(0, 4096), 0);
}

#[test]
fn the_checksum_folds_whole_words_to_the_next_boundary() {
    let mut b = vec![0u8; 16];
    b[0..8].copy_from_slice(&0x1111_2222_3333_4444u64.to_le_bytes());
    b[8..16].copy_from_slice(&0x0000_0001_0000_0002u64.to_le_bytes());
    // fold = 0x1111_2223_3333_4446, reduced = 0x1111_2223 ^ 0x3333_4446
    assert_eq!(checksum32(&b, 16), 0x1111_2223 ^ 0x3333_4446);
    // a coverage of 9 reads on to 16
    assert_eq!(checksum32(&b, 9), 0x1111_2223 ^ 0x3333_4446);
    // a coverage of 8 stops at the first word
    assert_eq!(checksum32(&b, 8), 0x1111_2222 ^ 0x3333_4444);
    // the fold never reads past the buffer, and a partial word does not count
    assert_eq!(checksum32(&b[..12], 16), 0x1111_2222 ^ 0x3333_4444);
    assert_eq!(checksum32(&[], 8), 0);
}

#[test]
fn msg_len_bounds_the_declared_length() {
    let l = older();
    let m = MsgLen::new(80, &l, 256, 4096).unwrap();
    assert_eq!(m.rpc_length(), 80);
    assert_eq!(m.msg_len(), 128);
    assert_eq!(m.elements(), 1);
    assert_eq!(m.element_size_min(), 256);
    assert_eq!(
        MsgLen::new(31, &l, 256, 4096),
        Err(GspFault::MsgLenOutOfRange { declared: 31, min: 32, max: 4048 })
    );
    assert_eq!(
        MsgLen::new(4049, &l, 256, 4096),
        Err(GspFault::MsgLenOutOfRange { declared: 4049, min: 32, max: 4048 })
    );
}

#[test]
fn an_encoded_element_carries_its_fields_and_folds_to_zero() {
    let l = older();
    let run = encode_message(&l, HEADER_VERSION, SIGNATURE, 256, 4096, 7, &rpc(0x1001, 3, vec![1, 2, 3])).unwrap();
    assert_eq!(run.len(), 256);
    assert_eq!(le(&run, 36), 7, "seqNum");
    assert_eq!(le(&run, 40), 1, "elemCount");
    assert_eq!(le(&run, 48), HEADER_VERSION);
    assert_eq!(le(&run, 52), SIGNATURE);
    assert_eq!(le(&run, 56), 35, "rpc.length is the envelope plus the body");
    assert_eq!(le(&run, 60), 0x1001);
    assert_eq!(le(&run, 72), 3, "rpc.sequence");
    assert_eq!(&run[80..83], &[1, 2, 3]);
    assert!(run[83..].iter().all(|b| *b == 0), "the tail is zeroed");
    assert_eq!(checksum32(&run, 48 + 35), 0);
}

#[test]
fn a_large_message_spans_several_elements() {
    let l = older();
    let run = encode_message(&l, HEADER_VERSION, SIGNATURE, 256, 4096, 0, &rpc(5, 0, vec![0xab; 600])).unwrap();
    // 48 + 32 + 600 = 680 bytes: three elements
    assert_eq!(run.len(), 768);
    assert_eq!(le(&run, 40), 3);
    assert_eq!(checksum32(&run, 680), 0);
}

#[test]
fn encode_refuses_a_payload_past_the_staging_buffer() {
    let l = older();
    assert_eq!(
        encode_message(&l, HEADER_VERSION, SIGNATURE, 256, 4096, 0, &rpc(5, 0, vec![0; 4017])),
        Err(GspFault::MsgLenOutOfRange { declared: 4049, min: 32, max: 4048 })
    );
}

#[test]
fn encode_refuses_a_zero_element_size() {
    let l = older();
    assert_eq!(
        encode_message(&l, HEADER_VERSION, SIGNATURE, 0, 4096, 0, &rpc(5, 0, vec![])),
        Err(GspFault::ElementCountOutOfRange { count: 0, max: 0 })
    );
}

#[test]
fn encode_refuses_a_run_past_the_element_bound() {
    let l = older();
    // 300-byte elements: 13 fit 4096, but a 4048-byte message needs 14
    assert_eq!(
        encode_message(&l, HEADER_VERSION, SIGNATURE, 300, 4096, 0, &rpc(5, 0, vec![0; 4016])),
        Err(GspFault::ElementCountOutOfRange { count: 14, max: 13 })
    );
}

#[test]
fn the_transport_words_are_stamped_where_the_layout_has_them() {
    let l = newer();
    let run = encode_message(&l, HEADER_VERSION, SIGNATURE, 256, 4096, 9, &rpc(1, 2, vec![])).unwrap();
    assert_eq!(le(&run, 0), 0x0000_c801);
    assert_eq!(le(&run, 4), 0x0010_de7e);
    assert_eq!(le(&run, 12), 9);
    assert_eq!(le(&run, 16 + 8), 32);
    assert_eq!(checksum32(&run, 48), 0);
}

#[test]
fn peeks_read_the_first_element_without_validating_it() {
    let l = older();
    let run = encode_message(&l, HEADER_VERSION, SIGNATURE, 256, 4096, 11, &rpc(5, 0, vec![0; 600])).unwrap();
    let first = &run[..256];
    let len = peek_len(&l, first, 256, 4096).unwrap();
    assert_eq!(len.rpc_length(), 632);
    assert_eq!(len.elements(), 3);
    assert_eq!(peek_elem_count(&l, first), Ok(Some(3)));
    assert_eq!(peek_seq_num(&l, first), Ok(11));
    assert_eq!(peek_elem_count(&newer(), first), Ok(None));
    assert_eq!(peek_len(&l, &first[..40], 256, 4096), Err(GspFault::Truncated { need: 60, have: 40 }));
    assert_eq!(peek_seq_num(&l, &first[..38]), Err(GspFault::Truncated { need: 40, have: 38 }));
    assert_eq!(peek_elem_count(&l, &first[..42]), Err(GspFault::Truncated { need: 44, have: 42 }));
}

#[test]
fn decode_gives_back_what_encode_built() {
    for (l, es) in [(older(), 256u32), (newer(), 256u32), (older(), 64u32)] {
        let payload: Vec<u8> = (0..200u32).map(|i| i as u8).collect();
        let run = encode_message(&l, HEADER_VERSION, SIGNATURE, es, 4096, 42, &rpc(0x77, 5, payload.clone())).unwrap();
        let len = peek_len(&l, &run[..es as usize], es, 4096).unwrap();
        let msg = decode_message(&l, &run, len, 42).unwrap();
        assert_eq!(msg.seq_num, 42);
        assert_eq!(msg.payload, payload);
        assert_eq!(msg.elements, len.elements());
        assert_eq!(le(&msg.envelope, 0), HEADER_VERSION);
        assert_eq!(le(&msg.envelope, 4), SIGNATURE);
        assert_eq!(le(&msg.envelope, 8), 232);
        assert_eq!(le(&msg.envelope, 12), 0x77);
        assert_eq!(le(&msg.envelope, 24), 5);
        assert!(msg.delivered.len() >= msg.payload.len());
        assert_eq!(&msg.delivered[..200], &payload[..]);
    }
}

#[test]
fn decode_refuses_a_corrupted_checksum() {
    let l = older();
    let mut run = encode_message(&l, HEADER_VERSION, SIGNATURE, 256, 4096, 1, &rpc(5, 0, vec![9; 10])).unwrap();
    let len = peek_len(&l, &run[..256], 256, 4096).unwrap();
    run[80] ^= 0x01;
    assert_eq!(decode_message(&l, &run, len, 1), Err(GspFault::ChecksumMismatch { folded: 0x01 }));
}

#[test]
fn decode_refuses_a_sequence_gap() {
    let l = older();
    let run = encode_message(&l, HEADER_VERSION, SIGNATURE, 256, 4096, 4, &rpc(5, 0, vec![])).unwrap();
    let len = peek_len(&l, &run[..256], 256, 4096).unwrap();
    assert_eq!(decode_message(&l, &run, len, 3), Err(GspFault::SeqNumGap { expected: 3, got: 4 }));
}

#[test]
fn decode_refuses_a_foreign_transport_word() {
    let l = newer();
    let other = ElementLayout::new(
        16,
        8,
        12,
        None,
        TransportHdr::Mctp { header_off: 0, header_word: 0x0000_c802, nvdm_off: 4, nvdm_word: 0x0010_de7e },
    )
    .unwrap();
    let run = encode_message(&other, HEADER_VERSION, SIGNATURE, 256, 4096, 0, &rpc(5, 0, vec![])).unwrap();
    let len = peek_len(&l, &run[..256], 256, 4096).unwrap();
    assert_eq!(
        decode_message(&l, &run, len, 0),
        Err(GspFault::TransportHeaderInvalid { offset: 0, found: 0x0000_c802, expected: 0x0000_c801 })
    );
}

#[test]
fn decode_refuses_a_short_run() {
    let l = older();
    let run = encode_message(&l, HEADER_VERSION, SIGNATURE, 256, 4096, 0, &rpc(5, 0, vec![0; 600])).unwrap();
    let len = peek_len(&l, &run[..256], 256, 4096).unwrap();
    assert_eq!(decode_message(&l, &run[..512], len, 0), Err(GspFault::Truncated { need: 680, have: 512 }));
}

#[test]
fn the_delivered_body_stops_at_the_submitted_elements() {
    let l = older();
    let run = encode_message(&l, HEADER_VERSION, SIGNATURE, 256, 4096, 0, &rpc(5, 0, vec![1; 10])).unwrap();
    let len = peek_len(&l, &run[..256], 256, 4096).unwrap();
    let mut longer = run.clone();
    longer.extend_from_slice(&[0xee; 256]);
    let msg = decode_message(&l, &longer, len, 0).unwrap();
    assert_eq!(msg.payload.len(), 10);
    assert_eq!(msg.delivered.len(), 256 - 80, "bounded by one element, not by the caller's buffer");
}
