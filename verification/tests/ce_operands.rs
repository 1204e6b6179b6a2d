//! Copy-engine operands resolved in the channel's own table: pieces cut at the table's
//! boundaries, each classified by where its bytes live, and the request partitioned where
//! either operand changes.

use lib::aperture::Aperture;
use lib::ce::{CeExecutor, CeWork, Representability as R};
use lib::forwarding::{AddressFault, FwdFault, HostHandle};
use lib::operands::{partition_ce, representability_of, TableOperands};
use lib::partition::{CeSource, CpuOperand, CpuPlane, OperandRun, PhysTarget};
use lib::table::{BackingBytes, Binding, BindingTable, HostMapping, RegionKind, Span, TableEntry};

const PDB: u64 = 0x4E60_0000;

fn host_backed(phys: u64) -> Binding {
    Binding {
        phys,
        aperture: Aperture::SysmemCoherent,
        kind: RegionKind::RealGpuMemory,
        host: Some(HostMapping {
            host_va: 0,
            memory: HostHandle { proc: 1, gpu: 0, raw: 1 },
            bytes: BackingBytes::SoleBacking,
        }),
    }
}

fn fabricated(phys: u64, aperture: Aperture) -> Binding {
    Binding { phys, aperture, kind: RegionKind::FakeFramebuffer, host: None }
}

fn table() -> BindingTable {
    BindingTable {
        entries: vec![
            TableEntry { start: 0x1000, len: 0x100, binding: host_backed(0x9000) },
            TableEntry { start: 0x1200, len: 0x100, binding: fabricated(0x40_0000, Aperture::Vidmem) },
        ],
    }
}

#[test]
fn a_range_is_cut_at_the_tables_boundaries() {
    let spans = table().spans(0x1080, 0x200);
    assert_eq!(
        spans,
        vec![
            Span { start: 0x1080, len: 0x80, bound: Some((host_backed(0x9000), 0x80)) },
            Span { start: 0x1100, len: 0x100, bound: None },
            Span { start: 0x1200, len: 0x80, bound: Some((fabricated(0x40_0000, Aperture::Vidmem), 0)) },
        ]
    );
}

#[test]
fn a_range_off_the_top_is_clipped_never_wrapped() {
    let spans = table().spans(u64::MAX - 0xf, 0x100);
    assert_eq!(spans, vec![Span { start: u64::MAX - 0xf, len: 0x10, bound: None }]);
    assert!(table().spans(0x5000, 0).is_empty());
}

#[test]
fn each_run_is_classified_by_where_its_bytes_live() {
    let t = table();
    let ops = TableOperands::new(Some(&t), Some(PDB));
    let runs = ops.resolve_runs(0x1080, 0x200).unwrap();
    assert_eq!(
        runs,
        vec![
            OperandRun { start: 0x1080, len: 0x80, kind: R::HostBacked, place: None },
            OperandRun { start: 0x1100, len: 0x100, kind: R::Untracked, place: None },
            OperandRun {
                start: 0x1200,
                len: 0x80,
                kind: R::Fabricated,
                place: Some(CpuOperand { plane: CpuPlane::Fb, addr: 0x40_0000 }),
            },
        ]
    );
    let untracked = TableOperands::new(None, Some(PDB));
    assert_eq!(
        untracked.resolve_runs(0x1080, 0x200).unwrap(),
        vec![OperandRun { start: 0x1080, len: 0x200, kind: R::Untracked, place: None }]
    );
}

#[test]
fn a_fabricated_peer_operand_is_refused_by_name() {
    assert_eq!(
        representability_of(Some(fabricated(0, Aperture::Peer)), 0, 0x1234),
        Err(FwdFault::CePeerOperand { addr: 0x1234 })
    );
    assert_eq!(
        representability_of(Some(fabricated(0x10, Aperture::SysmemCoherent)), 0x8, 0),
        Ok((R::Fabricated, Some(CpuOperand { plane: CpuPlane::GuestRam, addr: 0x18 })))
    );
}

#[test]
fn a_point_query_never_answers_with_a_hole() {
    let t = table();
    let ops = TableOperands::new(Some(&t), Some(PDB));
    assert_eq!(
        ops.resolve_word(0x1210),
        Ok(CpuOperand { plane: CpuPlane::Fb, addr: 0x40_0010 })
    );
    assert_eq!(
        ops.resolve_word(0x1100),
        Err(FwdFault::Address(AddressFault::Miss { pdb: PDB, va: 0x1100 }))
    );
    assert_eq!(TableOperands::new(Some(&t), None).resolve_word(0x1210), Err(FwdFault::CeNoTable { va: 0x1210 }));
}

#[test]
fn a_copy_is_partitioned_where_either_operand_changes() {
    let t = table();
    let ops = TableOperands::new(Some(&t), Some(PDB));
    let spans = partition_ce(
        &ops,
        0x1080,
        true,
        PhysTarget::LocalFb,
        0x7000,
        false,
        PhysTarget::CoherentSysmem,
        0x200,
        CeWork::Copy,
    )
    .unwrap();
    assert_eq!(spans.len(), 3);
    assert_eq!((spans[0].sub.dst, spans[0].sub.len), (0x1080, 0x80));
    assert_eq!(spans[0].sub.src, CeSource::Address(0x7000));
    assert_eq!(spans[0].src_kind, Some(R::PhysicalOperand));
    assert_eq!(spans[0].sub.by, CeExecutor::Ours);
    assert_eq!(spans[1].dst_kind, R::Untracked);
    assert_eq!(spans[2].dst_place, Some(CpuOperand { plane: CpuPlane::Fb, addr: 0x40_0000 }));
    assert_eq!(spans[2].src_place, Some(CpuOperand { plane: CpuPlane::GuestRam, addr: 0x7180 }));
}

#[test]
fn a_scrub_of_an_untracked_range_goes_to_the_host_engine() {
    let ops = TableOperands::new(None, None);
    let spans =
        partition_ce(&ops, 0x1000, true, PhysTarget::LocalFb, 0, true, PhysTarget::LocalFb, 0x100, CeWork::Scrub)
            .unwrap();
    assert_eq!(spans.len(), 1);
    assert_eq!(spans[0].sub.src, CeSource::Constant(0));
    assert_eq!(spans[0].sub.by, CeExecutor::HostCe);
    assert!(partition_ce(&ops, 0x1000, true, PhysTarget::LocalFb, 0, true, PhysTarget::LocalFb, 0, CeWork::Scrub)
        .unwrap()
        .is_empty());
    assert_eq!(
        partition_ce(&ops, 0x1000, false, PhysTarget::Peer, 0, true, PhysTarget::LocalFb, 8, CeWork::Scrub),
        Err(FwdFault::CePeerOperand { addr: 0x1000 })
    );
}
