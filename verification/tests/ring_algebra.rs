//! The ring algebra: counts, slots, free and available space, the published header and
//! the guest's acceptance predicate.

use lib::fault::{GspFault, RxLinkCode};
use lib::ring::{
    available_elements, free_elements, rx_link_check, MsgCount, MsgqAbi, TxCursor, TxHeader,
};

fn abi() -> MsgqAbi {
    MsgqAbi { version: 0, msg_size_min: 16, swap_rx_flag: 1, region_page_size: 4096 }
}

fn header() -> TxHeader {
    TxHeader {
        version: 0,
        size: 0x800,
        msg_size: 0x100,
        msg_count: 7,
        write_ptr: 0,
        flags: 1,
        rx_hdr_off: 32,
        entry_off: 0x100,
    }
}

#[test]
fn a_zero_count_is_refused() {
    assert_eq!(MsgCount::new(0), Err(GspFault::MsgCountZero));
    let c = MsgCount::new(7).unwrap();
    assert_eq!(c.get(), 7);
    assert_eq!(c.slot(9).index(), 2);
    assert_eq!(c.slot(6).index(), 6);
}

#[test]
fn an_empty_ring_has_all_but_one_free() {
    let c = MsgCount::new(8).unwrap();
    assert_eq!(free_elements(3, 3, c), Ok(7));
    assert_eq!(available_elements(3, 3, c), Ok(0));
}

#[test]
fn a_full_ring_has_none_free() {
    let c = MsgCount::new(8).unwrap();
    assert_eq!(free_elements(3, 2, c), Ok(0));
    assert_eq!(available_elements(2, 3, c), Ok(7));
}

#[test]
fn free_plus_available_is_one_short_of_the_ring() {
    let c = MsgCount::new(8).unwrap();
    for r in 0..8 {
        for w in 0..8 {
            assert_eq!(free_elements(r, w, c).unwrap() + available_elements(w, r, c).unwrap(), 7);
        }
    }
}

#[test]
fn out_of_range_pointers_are_named() {
    let c = MsgCount::new(8).unwrap();
    assert_eq!(free_elements(8, 0, c), Err(GspFault::PeerReadPtrOutOfRange { value: 8, count: 8 }));
    assert_eq!(
        available_elements(9, 0, c),
        Err(GspFault::PeerWritePtrOutOfRange { value: 9, count: 8 })
    );
}

#[test]
fn a_huge_ring_does_not_overflow_the_free_count() {
    let c = MsgCount::new(u32::MAX).unwrap();
    assert_eq!(free_elements(u32::MAX - 1, 0, c), Ok(u32::MAX - 2));
    assert_eq!(available_elements(u32::MAX - 1, 0, c), Ok(u32::MAX - 1));
}

#[test]
fn a_fresh_cursor_has_all_but_one_free() {
    assert_eq!(TxCursor::fresh(MsgCount::new(7).unwrap()), TxCursor { write_ptr: 0, free_cache: 6 });
}

#[test]
fn a_header_round_trips_through_its_bytes() {
    let h = header();
    let b = h.encode();
    assert_eq!(&b[0..4], &0u32.to_le_bytes());
    assert_eq!(&b[4..8], &0x800u32.to_le_bytes());
    assert_eq!(&b[28..32], &0x100u32.to_le_bytes());
    assert_eq!(TxHeader::decode(&b), Ok(h));
    assert_eq!(TxHeader::decode(&b[..31]), Err(GspFault::Truncated { need: 32, have: 31 }));
}

#[test]
fn the_guests_predicate_accepts_its_own_header() {
    let h = header();
    assert_eq!(rx_link_check(&h, 32, 0x800, 0x100, &abi()), Ok(()));
}

#[test]
fn the_guests_predicate_names_each_rejection() {
    let h = header();
    let a = abi();
    assert_eq!(rx_link_check(&h, 32, 0x800, 8, &a), Err(RxLinkCode::MsgSizeBelowMin));
    assert_eq!(rx_link_check(&h, 32, 0x80, 0x100, &a), Err(RxLinkCode::MsgSizeAboveQueue));
    assert_eq!(
        rx_link_check(&TxHeader { entry_off: 0x780, ..h }, 32, 0x800, 0x100, &a),
        Err(RxLinkCode::EntryOffTooLarge)
    );
    assert_eq!(rx_link_check(&TxHeader { size: 0x900, ..h }, 32, 0x800, 0x100, &a), Err(RxLinkCode::SizeMismatch));
    assert_eq!(
        rx_link_check(&TxHeader { msg_size: 0x80, ..h }, 32, 0x800, 0x100, &a),
        Err(RxLinkCode::MsgSizeMismatch)
    );
    assert_eq!(rx_link_check(&TxHeader { version: 1, ..h }, 32, 0x800, 0x100, &a), Err(RxLinkCode::VersionMismatch));
    assert_eq!(
        rx_link_check(&TxHeader { msg_count: 6, ..h }, 32, 0x800, 0x100, &a),
        Err(RxLinkCode::DerivedFieldsMismatch)
    );
    assert_eq!(RxLinkCode::SizeMismatch.code(), -7);
    assert_eq!(RxLinkCode::DerivedFieldsMismatch.code(), -10);
    assert_eq!(RxLinkCode::NullBackingStore.code(), -5);
}
