//! The range algebra: a copy-engine request cut where either operand's representability
//! changes, engines chosen per piece, neighbours on the same engine merged.

use lib::aperture::Aperture;
use lib::ce::{CeExecutor, CeWork, Representability as R};
use lib::partition::{
    partition_runs, physical_operand_runs, plane_follows, CeSource, CePeerOperand, CeTooFragmented,
    CpuOperand, CpuPlane, DeclaredResidency, OperandRun, PhysTarget, MAX_CE_SPANS,
};

fn run(start: u64, len: u64, kind: R, place: Option<CpuOperand>) -> OperandRun {
    OperandRun { start, len, kind, place }
}

fn fb(addr: u64) -> Option<CpuOperand> {
    Some(CpuOperand { plane: CpuPlane::Fb, addr })
}

#[test]
fn a_uniform_copy_is_one_span() {
    let dst = vec![run(0x1000, 0x100, R::HostBacked, None)];
    let src = vec![run(0x9000, 0x100, R::HostBacked, None)];
    let spans = partition_runs(0x1000, 0x9000, 0x100, CeWork::Copy, &dst, &src).unwrap();
    assert_eq!(spans.len(), 1);
    assert_eq!(spans[0].sub.dst, 0x1000);
    assert_eq!(spans[0].sub.src, CeSource::Address(0x9000));
    assert_eq!(spans[0].sub.len, 0x100);
    assert_eq!(spans[0].sub.by, CeExecutor::HostCe);
}

#[test]
fn a_copy_is_cut_where_either_end_changes() {
    // dst: [0,0x100) host-backed, [0x100,0x200) fabricated
    // src: [0,0x80) host-backed, [0x80,0x200) host-backed but a different run
    let dst = vec![
        run(0x1000, 0x100, R::HostBacked, None),
        run(0x1100, 0x100, R::Fabricated, fb(0x5000)),
    ];
    let src = vec![
        run(0x9000, 0x80, R::HostBacked, None),
        run(0x9080, 0x180, R::Fabricated, fb(0x7000)),
    ];
    let spans = partition_runs(0x1000, 0x9000, 0x200, CeWork::Copy, &dst, &src).unwrap();
    let cuts: Vec<(u64, u64, CeExecutor)> = spans.iter().map(|s| (s.sub.dst, s.sub.len, s.sub.by)).collect();
    assert_eq!(
        cuts,
        vec![
            (0x1000, 0x80, CeExecutor::HostCe),
            (0x1080, 0x80, CeExecutor::Ours),
            (0x1100, 0x100, CeExecutor::Ours),
        ]
    );
    assert_eq!(spans[1].src_kind, Some(R::Fabricated));
    assert_eq!(spans[1].src_place, fb(0x7000));
    assert_eq!(spans[2].dst_place, fb(0x5000));
    assert_eq!(spans[2].src_place, fb(0x7080), "the place advances with the cut");
}

#[test]
fn contiguous_places_on_one_engine_merge() {
    let dst = vec![run(0x1000, 0x100, R::Fabricated, fb(0x5000)), run(0x1100, 0x100, R::Fabricated, fb(0x5100))];
    let spans = partition_runs(0x1000, 0, 0x200, CeWork::Scrub, &dst, &vec![]).unwrap();
    assert_eq!(spans.len(), 1);
    assert_eq!(spans[0].sub.len, 0x200);
    assert_eq!(spans[0].sub.src, CeSource::Constant(0));
    assert_eq!(spans[0].src_kind, None);
}

#[test]
fn non_adjacent_backings_never_merge() {
    let dst = vec![run(0x1000, 0x100, R::Fabricated, fb(0x5000)), run(0x1100, 0x100, R::Fabricated, fb(0x9000))];
    let spans = partition_runs(0x1000, 0, 0x200, CeWork::Fill { pattern: 0xab }, &dst, &vec![]).unwrap();
    assert_eq!(spans.len(), 2, "a merge would run off the end of the first backing");
    assert_eq!(spans[1].sub.src, CeSource::Constant(0xab));
    assert!(!plane_follows(fb(0x5000), fb(0x9000), 0x100));
    assert!(plane_follows(fb(0x5000), fb(0x5100), 0x100));
    assert!(plane_follows(None, None, 7));
}

#[test]
fn a_clipped_source_reads_nothing_past_its_end() {
    let dst = vec![run(0x1000, 0x200, R::HostBacked, None)];
    let src = vec![run(0x9000, 0x100, R::HostBacked, None)];
    let spans = partition_runs(0x1000, 0x9000, 0x200, CeWork::Copy, &dst, &src).unwrap();
    assert_eq!(spans.len(), 2);
    assert_eq!(spans[1].src_kind, Some(R::Untracked));
    assert_eq!(spans[1].sub.by, CeExecutor::HostCe);
    assert_eq!(spans[1].sub.src, CeSource::Address(0x9100));
}

#[test]
fn an_empty_destination_is_no_work() {
    assert_eq!(partition_runs(0, 0, 0x100, CeWork::Copy, &vec![], &vec![]), Ok(vec![]));
}

#[test]
fn a_too_fragmented_request_is_refused_not_truncated() {
    let dst: Vec<OperandRun> = (0..(MAX_CE_SPANS as u64 + 1))
        .map(|k| run(k * 2, 2, if k % 2 == 0 { R::HostBacked } else { R::Fabricated }, None))
        .collect();
    let len = 2 * (MAX_CE_SPANS as u64 + 1);
    assert_eq!(
        partition_runs(0, 0, len, CeWork::Scrub, &dst, &vec![]),
        Err(CeTooFragmented { dst: 0, len })
    );
    let fits: Vec<OperandRun> = dst[..MAX_CE_SPANS].to_vec();
    assert_eq!(partition_runs(0, 0, len - 2, CeWork::Scrub, &fits, &vec![]).unwrap().len(), MAX_CE_SPANS);
}

#[test]
fn a_physical_operand_is_one_run_in_its_declared_plane() {
    assert_eq!(
        physical_operand_runs(0x4000, PhysTarget::LocalFb, 0x80),
        Ok(vec![run(0x4000, 0x80, R::PhysicalOperand, fb(0x4000))])
    );
    assert_eq!(
        physical_operand_runs(0x4000, PhysTarget::CoherentSysmem, 0x80),
        Ok(vec![run(0x4000, 0x80, R::PhysicalOperand, Some(CpuOperand { plane: CpuPlane::GuestRam, addr: 0x4000 }))])
    );
    assert_eq!(physical_operand_runs(0x4000, PhysTarget::Peer, 0x80), Err(CePeerOperand { addr: 0x4000 }));
    assert_eq!(physical_operand_runs(0x4000, PhysTarget::Peer, 0), Ok(vec![]));
}

#[test]
fn the_declared_residency_reads_only_the_declaration() {
    let d = DeclaredResidency;
    assert_eq!(d.residency_of_physical(PhysTarget::NonCoherentSysmem, 0), Some(CpuPlane::GuestRam));
    assert_eq!(d.residency_of_aperture(Aperture::Vidmem, 0), Some(CpuPlane::Fb));
    assert_eq!(d.residency_of_aperture(Aperture::Peer, 0), None);
}
