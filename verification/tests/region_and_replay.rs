//! The region map resolved through its own page table, and the replay projection built
//! forward from a binding.

use std::collections::BTreeMap;

use lib::element::{encode_message, ElementLayout, OutgoingRpc, TransportHdr};
use lib::fault::{GspFault, RamRefused, RegionError};
use lib::ram::{GuestRam, RegionMap};
use lib::replay::{digest, Observation, ObservationLog, Projection, QueueId, RecordingRam};
use lib::ring::{MsgqAbi, MsgqGeometry, TxHeader};

struct MapRam {
    bytes: BTreeMap<u64, u8>,
}

impl MapRam {
    fn new() -> MapRam {
        MapRam { bytes: BTreeMap::new() }
    }
    fn fill(&mut self, gpa: u64, data: &[u8]) {
        for (i, b) in data.iter().enumerate() {
            self.bytes.insert(gpa + i as u64, *b);
        }
    }
    fn zero(&mut self, gpa: u64, len: u64) {
        for i in 0..len {
            self.bytes.insert(gpa + i, 0);
        }
    }
}

impl GuestRam for MapRam {
    fn memory(&self) -> vstd::map::Map<vstd::prelude::int, u8> {
        unreachable!("guest memory as a map exists only in proofs")
    }

    fn writable(&self) -> vstd::set::Set<vstd::prelude::int> {
        unreachable!("the writable addresses as a set exist only in proofs")
    }

    fn read(&mut self, gpa: u64, buf: &mut [u8]) -> Result<(), RamRefused> {
        for i in 0..buf.len() {
            match self.bytes.get(&(gpa + i as u64)) {
                Some(b) => buf[i] = *b,
                None => return Err(RamRefused { gpa, len: buf.len() }),
            }
        }
        Ok(())
    }
    fn write(&mut self, gpa: u64, bytes: &[u8]) -> Result<(), RamRefused> {
        for i in 0..bytes.len() {
            if !self.bytes.contains_key(&(gpa + i as u64)) {
                return Err(RamRefused { gpa, len: bytes.len() });
            }
        }
        self.fill(gpa, bytes);
        Ok(())
    }
}

#[test]
fn a_page_list_is_validated() {
    assert_eq!(
        RegionMap::from_pages(3000, vec![0]),
        Err(GspFault::RegionMalformed(RegionError::BadPageSize { page_size: 3000 }))
    );
    assert_eq!(
        RegionMap::from_pages(4096, vec![]),
        Err(GspFault::RegionMalformed(RegionError::NoEntries))
    );
    assert_eq!(
        RegionMap::from_pages(4096, vec![0x1000, 0x2010, 0x3001]),
        Err(GspFault::RegionMalformed(RegionError::UnalignedEntry { index: 1, value: 0x2010 }))
    );
    let m = RegionMap::from_pages(4096, vec![0x5000, 0x1000]).unwrap();
    assert_eq!(m.len(), 8192);
    assert!(!m.is_empty());
}

#[test]
fn runs_follow_the_pages_not_the_base() {
    let m = RegionMap::from_pages(4096, vec![0x5000, 0x1000]).unwrap();
    assert_eq!(m.runs(0xff0, 0x20), Ok(vec![(0x5ff0, 0x10), (0x1000, 0x10)]));
    assert_eq!(m.runs(0x10, 4), Ok(vec![(0x5010, 4)]));
    assert_eq!(m.runs(0, 0x2000), Ok(vec![(0x5000, 0x1000), (0x1000, 0x1000)]));
    assert_eq!(
        m.runs(0x1ffe, 4),
        Err(GspFault::RegionOutOfRange { offset: 0x1ffe, len: 4, region_len: 0x2000 })
    );
}

#[test]
fn a_region_read_gives_back_a_region_write_across_a_page_crossing() {
    let mut ram = MapRam::new();
    ram.zero(0x5000, 0x1000);
    ram.zero(0x1000, 0x1000);
    let m = RegionMap::from_pages(4096, vec![0x5000, 0x1000]).unwrap();
    let data: Vec<u8> = (0..64u8).collect();
    m.write(&mut ram, 0xfe0, &data).unwrap();
    assert_eq!(ram.bytes[&0x5fe0], 0);
    assert_eq!(ram.bytes[&0x5fff], 31);
    assert_eq!(ram.bytes[&0x1000], 32);
    let mut back = vec![0u8; 64];
    m.read(&mut ram, 0xfe0, &mut back).unwrap();
    assert_eq!(back, data);
    m.write_u32(&mut ram, 0xffe, 0xdead_beef).unwrap();
    assert_eq!(m.read_u32(&mut ram, 0xffe), Ok(0xdead_beef));
    assert_eq!(
        m.write_u32(&mut ram, 0x1ffd, 1),
        Err(GspFault::RegionOutOfRange { offset: 0x1ffd, len: 4, region_len: 0x2000 })
    );
}

#[test]
fn a_refused_ram_access_is_named() {
    let mut ram = MapRam::new();
    ram.zero(0x5000, 0x1000);
    let m = RegionMap::from_pages(4096, vec![0x5000, 0x1000]).unwrap();
    let mut buf = [0u8; 8];
    assert!(matches!(m.read(&mut ram, 0xffc, &mut buf), Err(GspFault::GuestRam(_))));
}

#[test]
fn a_region_table_is_loaded_through_its_own_pages() {
    let mut ram = MapRam::new();
    // 64-byte pages hold eight entries each; the table spans two of its own pages.
    ram.zero(0x1000, 64);
    ram.zero(0x2000, 64);
    let pages: Vec<u64> = (0..10u64).map(|k| if k == 1 { 0x2000 } else if k == 0 { 0x1000 } else { 0x8000 + 64 * k }).collect();
    for (k, p) in pages.iter().enumerate().take(8) {
        ram.fill(0x1000 + 8 * k as u64, &p.to_le_bytes());
    }
    for (k, p) in pages.iter().enumerate().skip(8) {
        ram.fill(0x2000 + 8 * (k as u64 - 8), &p.to_le_bytes());
    }
    let m = RegionMap::load(&mut ram, 0x1000, 10, 64, 16).unwrap();
    assert_eq!(m.len(), 640);
    assert_eq!(m.runs(64 * 9, 4), Ok(vec![(0x8000 + 64 * 9, 4)]));
    assert_eq!(
        RegionMap::load(&mut ram, 0x1000, 10, 64, 8),
        Err(GspFault::RegionMalformed(RegionError::TooManyEntries { declared: 10, max: 8 }))
    );
    assert_eq!(
        RegionMap::load(&mut ram, 0x1000, 0, 64, 8),
        Err(GspFault::RegionMalformed(RegionError::NoEntries))
    );
    assert_eq!(
        RegionMap::load(&mut ram, 0x1000, 2, 48, 8),
        Err(GspFault::RegionMalformed(RegionError::BadPageSize { page_size: 48 }))
    );
    ram.fill(0x1000 + 8 * 3, &0x8001u64.to_le_bytes());
    assert_eq!(
        RegionMap::load(&mut ram, 0x1000, 10, 64, 16),
        Err(GspFault::RegionMalformed(RegionError::UnalignedEntry { index: 3, value: 0x8001 }))
    );
}

#[test]
fn the_digest_is_fnv1a() {
    assert_eq!(digest(b""), 0xcbf2_9ce4_8422_2325);
    assert_eq!(digest(b"a"), 0xaf63_dc4c_8601_ec8c);
    assert_eq!(digest(b"foobar"), 0x8594_4171_f739_67e8);
    assert_ne!(digest(&[1, 2]), digest(&[2, 1]));
}

fn header() -> TxHeader {
    TxHeader {
        version: 0,
        size: 0x800,
        msg_size: 0x100,
        msg_count: 7,
        write_ptr: 0,
        flags: 1,
        rx_hdr_off: 32,
        entry_off: 0x100,
    }
}

fn bound(ram: &mut MapRam) -> MsgqGeometry {
    ram.zero(0x10000, 0x1000);
    ram.zero(0x30000, 0x1000);
    ram.fill(0x10100, &header().encode());
    let region = RegionMap::from_pages(4096, vec![0x10000, 0x30000]).unwrap();
    let abi = MsgqAbi { version: 0, msg_size_min: 16, swap_rx_flag: 1, region_page_size: 4096 };
    MsgqGeometry::bind(ram, region, 0x100, 0x1000, &abi).unwrap()
}

#[test]
fn a_geometry_binds_from_the_guests_own_header() {
    let mut ram = MapRam::new();
    let g = bound(&mut ram);
    assert_eq!(g.published_header(), header());
    assert_eq!(g.msg_count().get(), 7);
    assert_eq!(g.element_size(), 0x100);
    assert_eq!(g.cmd_write_ptr_off(), 0x110);
    assert_eq!(g.stat_write_ptr_off(), 0x1010);
    assert_eq!(g.peer_stat_read_ptr_off(), 0x120);
    assert_eq!(g.cmd_read_ptr_ack_off(), 0x1020);
    assert_eq!(g.cmd_element_off(g.msg_count().slot(2)), 0x400);
    assert_eq!(g.stat_element_off(g.msg_count().slot(9)), 0x1300);
    assert_eq!(g.region().len(), 0x2000);
}

#[test]
fn a_geometry_refuses_what_the_guest_would_refuse() {
    let mut ram = MapRam::new();
    ram.zero(0x10000, 0x1000);
    ram.zero(0x30000, 0x1000);
    ram.fill(0x10100, &TxHeader { flags: 0, ..header() }.encode());
    let region = RegionMap::from_pages(4096, vec![0x10000, 0x30000]).unwrap();
    let abi = MsgqAbi { version: 0, msg_size_min: 16, swap_rx_flag: 1, region_page_size: 4096 };
    assert_eq!(
        MsgqGeometry::bind(&mut ram, region, 0x100, 0x1000, &abi),
        Err(GspFault::SwapRxNotAgreed { flags: 0 })
    );
    ram.fill(0x10100, &TxHeader { msg_count: 0, ..header() }.encode());
    let region = RegionMap::from_pages(4096, vec![0x10000, 0x30000]).unwrap();
    assert_eq!(MsgqGeometry::bind(&mut ram, region, 0x100, 0x1000, &abi), Err(GspFault::MsgCountZero));
    ram.fill(0x10100, &TxHeader { msg_count: 6, ..header() }.encode());
    let region = RegionMap::from_pages(4096, vec![0x10000, 0x30000]).unwrap();
    assert!(matches!(
        MsgqGeometry::bind(&mut ram, region, 0x100, 0x1000, &abi),
        Err(GspFault::GeometryRejected(lib::fault::RxLinkCode::DerivedFieldsMismatch))
    ));
    ram.fill(0x10100, &header().encode());
    let region = RegionMap::from_pages(4096, vec![0x10000, 0x30000]).unwrap();
    assert_eq!(
        MsgqGeometry::bind(&mut ram, region, 0x100, 0x1900, &abi),
        Err(GspFault::RegionOutOfRange { offset: 0x1900, len: 0x800, region_len: 0x2000 })
    );
}

#[test]
fn the_projection_observes_what_we_publish() {
    let mut ram = MapRam::new();
    let g = bound(&mut ram);
    let layout = ElementLayout::new(48, 32, 36, Some(40), TransportHdr::NoTransport).unwrap();
    let p = Projection::new(&g, layout).unwrap();
    // the status header
    assert_eq!(
        p.classify(0x30000, &header().encode()),
        Some(Observation::TxHeaderPublished { queue: QueueId::Status, hdr: header() })
    );
    // the status write pointer
    assert_eq!(
        p.classify(0x30010, &3u32.to_le_bytes()),
        Some(Observation::WritePtrAdvanced { queue: QueueId::Status, value: 3 })
    );
    // our command-queue acknowledgement
    assert_eq!(
        p.classify(0x30020, &2u32.to_le_bytes()),
        Some(Observation::ReadPtrAcked { queue: QueueId::Command, value: 2 })
    );
    // a posted status element, in slot 1
    let rpc = OutgoingRpc { function: 0x1001, sequence: 4, rpc_result: 0, rpc_result_private: 0, payload: vec![5; 12] };
    let run = encode_message(&layout, 0x0300_0000, 0x4356_5253, 0x100, 4096, 9, &rpc).unwrap();
    assert_eq!(
        p.classify(0x30200, &run),
        Some(Observation::ElementPosted {
            slot: 1,
            seq_num: 9,
            function: 0x1001,
            sequence: 4,
            rpc_result: 0,
            rpc_length: 44,
            payload_digest: digest(&[5; 12]),
        })
    );
    // a write we did not make is nothing
    assert_eq!(p.classify(0x10110, &1u32.to_le_bytes()), None);
    assert_eq!(p.classify(0x30200, &run[..100]), None);
}

#[test]
fn a_log_counts_each_kind_and_names_the_ones_never_seen() {
    let mut log = ObservationLog::new();
    assert_eq!(
        log.unseen_kinds(),
        vec!["TxHeaderPublished", "ElementPosted", "ReadPtrAcked", "WritePtrAdvanced", "IrqRaised", "Refused"]
    );
    log.push(Observation::ReadPtrAcked { queue: QueueId::Command, value: 1 });
    log.push(Observation::WritePtrAdvanced { queue: QueueId::Status, value: 2 });
    log.push(Observation::ReadPtrAcked { queue: QueueId::Command, value: 3 });
    assert_eq!(log.count("ReadPtrAcked"), 2);
    assert_eq!(log.count("WritePtrAdvanced"), 1);
    assert_eq!(log.count("ElementPosted"), 0);
    assert_eq!(log.count("Nonsense"), 0);
    assert_eq!(log.items().len(), 3);
    assert_eq!(log.items()[1], Observation::WritePtrAdvanced { queue: QueueId::Status, value: 2 });
    assert_eq!(log.unseen_kinds(), vec!["TxHeaderPublished", "ElementPosted", "IrqRaised", "Refused"]);
    assert!(log.refusals().is_empty());
}

#[test]
fn a_refusal_is_logged_by_its_name() {
    let mut rec = RecordingRam::new(MapRam::new());
    rec.refused(&GspFault::QueueNotBound);
    rec.log.push(Observation::IrqRaised);
    rec.refused(&GspFault::NoGspModel);
    assert_eq!(rec.log.refusals(), vec!["GspFault::QueueNotBound", "GspFault::NoGspModel"]);
    assert_eq!(rec.log.count("Refused"), 2);
    assert_eq!(rec.log.count("IrqRaised"), 1);
    assert_eq!(rec.log.count("ElementPosted"), 0);
    assert_eq!(rec.reads + rec.writes, 0);
}

#[test]
fn a_recording_ram_counts_every_access_and_logs_what_the_guest_could_notice() {
    let mut ram = MapRam::new();
    let g = bound(&mut ram);
    let layout = ElementLayout::new(48, 32, 36, Some(40), TransportHdr::NoTransport).unwrap();
    let p = Projection::new(&g, layout).unwrap();
    let mut rec = RecordingRam::new(ram);
    // Without a projection nothing is decoded.
    rec.write(0x30010, &3u32.to_le_bytes()).unwrap();
    assert!(rec.log.items().is_empty());
    let mut rec = rec.with_projection(p);
    rec.write(0x30010, &4u32.to_le_bytes()).unwrap();
    rec.write(0x30020, &2u32.to_le_bytes()).unwrap();
    let mut buf = [0u8; 4];
    rec.read(0x30010, &mut buf).unwrap();
    assert_eq!(buf, 4u32.to_le_bytes());
    // A refused write reaches nothing and notices nothing.
    assert!(rec.write(0x9_0000_0000, &[1, 2, 3, 4]).is_err());
    assert_eq!(rec.writes, 4);
    assert_eq!(rec.reads, 1);
    assert_eq!(
        rec.log.items(),
        &[
            Observation::WritePtrAdvanced { queue: QueueId::Status, value: 4 },
            Observation::ReadPtrAcked { queue: QueueId::Command, value: 2 },
        ]
    );
}
