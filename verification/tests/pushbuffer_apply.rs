//! Applying a decoded pushbuffer: each launch partitioned and classified, completions
//! released behind their bytes and handed back to observe, a fault cancel refusing the
//! whole submission.

use lib::aperture::Aperture;
use lib::ce::{CeExecutor, CeWork, Representability as R};
use lib::forwarding::FwdFault;
use lib::partition::{CeGuestRelease, CeSource, PhysTarget};
use lib::plans::{ChannelView, ProcView, RingDecl, VasView};
use lib::ptplan::{PtState, SweepState};
use lib::pushbuffer::{
    apply_pushbuffer, ce_destination, classify_destination, latch_pt_writes, CeCompletion,
    CeOperands, PtOwner, PtWrite, PushMethod,
};
use lib::table::{Binding, BindingTable, RegionKind, TableEntry};

const GPU: u32 = 0;
const PDB: u64 = 0x4E60_0000;
const PID: u32 = 1;
const CID: u32 = 1;

fn guest_ram(start: u64, len: u64, phys: u64) -> TableEntry {
    TableEntry {
        start,
        len,
        binding: Binding { phys, aperture: Aperture::SysmemCoherent, kind: RegionKind::GuestPhysDma, host: None },
    }
}

fn proc_with(vas_pdb: Option<u64>, entries: Vec<TableEntry>) -> ProcView {
    ProcView {
        id: PID,
        system: false,
        retired: false,
        arenas: vec![GPU],
        isolates: vec![GPU],
        wanted: Vec::new(),
        vases: vec![VasView {
            gpu: GPU,
            pdb: PDB,
            host_vas: None,
            table: BindingTable { entries },
            pins: Vec::new(),
            blocks: Vec::new(),
        }],
        channels: vec![ChannelView {
            chan: CID,
            gpu: GPU,
            vas_pdb,
            host_channel: None,
            host_token: None,
            engine: 7,
            ring: RingDecl::NoNode,
            userd_fb: None,
            engine_objects: Vec::new(),
        }],
        requested: Vec::new(),
        scheduled: Vec::new(),
        last_token: None,
    }
}

fn launch(dst: u64, dst_is_virtual: bool, len: u64, completion: Option<CeCompletion>) -> PushMethod {
    PushMethod::CeLaunchDma {
        dst,
        src: 0x7000_0000,
        len,
        dst_is_virtual,
        src_is_virtual: true,
        dst_target: PhysTarget::LocalFb,
        src_target: PhysTarget::LocalFb,
        work: CeWork::Copy,
        completion,
    }
}

#[test]
fn methods_that_move_no_bytes_are_recorded_in_order() {
    let p = proc_with(Some(PDB), Vec::new());
    let methods = vec![
        PushMethod::SetObject,
        PushMethod::Opaque,
        PushMethod::TlbInvalidate { pdb: 5, membar: true },
        PushMethod::SemRelease { addr: 0x10, payload: 0x3 },
        PushMethod::CeRelease { completion: CeCompletion { addr: 0x20, payload: 7 } },
    ];
    let (r, keys) = apply_pushbuffer(&p, CID, &methods, &vec![None; 5]);
    let out = r.unwrap();
    assert_eq!(out.opaque, 1);
    assert_eq!(out.invalidates, vec![(5, true)]);
    assert_eq!(out.sem_releases, vec![(0x10, 3), (0x20, 7)]);
    assert_eq!(out.ce_releases, 1);
    assert!(out.ce_spans.is_empty());
    assert_eq!(out.data_copies, 0);
    assert_eq!(keys, vec![0x13, 0x27]);
}

#[test]
fn a_fault_cancel_refuses_the_submission_and_keeps_the_keys_before_it() {
    let p = proc_with(Some(PDB), Vec::new());
    let methods = vec![
        PushMethod::SemRelease { addr: 0x10, payload: 0x3 },
        PushMethod::UvmSwFaultMethod { method: 0x5A0 },
        PushMethod::SemRelease { addr: 0x40, payload: 0x1 },
    ];
    let (r, keys) = apply_pushbuffer(&p, CID, &methods, &vec![None; 3]);
    assert_eq!(r, Err(FwdFault::UvmFaultMethodWithoutFaultDelivery { method: 0x5A0 }));
    assert_eq!(keys, vec![0x13]);
}

#[test]
fn an_untracked_copy_is_forwarded_with_the_guests_release_on_it() {
    let p = proc_with(Some(PDB), Vec::new());
    let c = CeCompletion { addr: 0xABC0, payload: 9 };
    let (r, keys) = apply_pushbuffer(&p, CID, &vec![launch(0x5000_0000, true, 0x100, Some(c))], &vec![None]);
    let out = r.unwrap();
    assert_eq!(out.c_execute_host_ce, 1);
    assert_eq!(out.c_execute_ours, 0);
    assert_eq!(out.data_copies, 1);
    assert!(out.pt_writes.is_empty());
    assert_eq!(out.ce_spans.len(), 1);
    let span = out.ce_spans[0];
    assert_eq!(span.sub.dst, 0x5000_0000);
    assert_eq!(span.sub.src, CeSource::Address(0x7000_0000));
    assert_eq!(span.sub.len, 0x100);
    assert_eq!(span.sub.by, CeExecutor::HostCe);
    assert_eq!(span.dst_kind, R::Untracked);
    assert_eq!(span.sub.guest_release, Some(CeGuestRelease { va: 0xABC0, payload: 9 }));
    assert_eq!(out.sem_releases, vec![(0xABC0, 9)]);
    assert_eq!(keys, vec![0xABC0 ^ 9]);
}

#[test]
fn a_release_too_wide_for_one_word_is_not_attached() {
    let p = proc_with(Some(PDB), Vec::new());
    let c = CeCompletion { addr: 0xABC0, payload: 1 << 32 };
    let (r, _) = apply_pushbuffer(&p, CID, &vec![launch(0x5000_0000, true, 0x100, Some(c))], &vec![None]);
    let out = r.unwrap();
    assert_eq!(out.ce_spans[0].sub.guest_release, None);
    assert_eq!(out.sem_releases, vec![(0xABC0, 1 << 32)]);
}

#[test]
fn a_write_into_an_owned_page_table_page_is_latched_for_its_owner() {
    let p = proc_with(Some(PDB), Vec::new());
    let c = CeCompletion { addr: 0x100, payload: 1 };
    let (r, _) = apply_pushbuffer(&p, CID, &vec![launch(0x2_3456, false, 8, Some(c))], &vec![Some((3, 0x9000))]);
    let out = r.unwrap();
    assert_eq!(
        out.pt_writes,
        vec![PtWrite { gpu: GPU, page: 0x2_3000, aperture: Aperture::Vidmem, owner: 3, owner_pdb: 0x9000, bytes: 8 }]
    );
    assert_eq!(out.data_copies, 0);
    // A physical destination is not a host engine's to run, so the release rides nothing.
    assert_eq!(out.ce_spans.len(), 1);
    assert_eq!(out.ce_spans[0].sub.by, CeExecutor::Ours);
    assert_eq!(out.ce_spans[0].sub.guest_release, None);
    // The baseline counts the submitter and the operand forms: a physical operand is ours.
    assert_eq!(out.c_execute_ours, 1);
}

#[test]
fn a_virtual_destination_with_no_address_space_is_refused() {
    let p = proc_with(None, Vec::new());
    let (r, keys) = apply_pushbuffer(&p, CID, &vec![launch(0x5000_0000, true, 0x100, None)], &vec![None]);
    assert_eq!(r, Err(FwdFault::NoVas(CID)));
    assert!(keys.is_empty());
}

#[test]
fn a_retired_process_or_an_unknown_channel_is_refused_first() {
    let mut p = proc_with(Some(PDB), Vec::new());
    assert_eq!(apply_pushbuffer(&p, 9, &vec![PushMethod::Opaque], &vec![None]).0, Err(FwdFault::NoVas(9)));
    p.retired = true;
    assert_eq!(
        apply_pushbuffer(&p, CID, &vec![PushMethod::Opaque], &vec![None]).0,
        Err(FwdFault::RetiredProc(PID))
    );
}

#[test]
fn a_destination_resolves_in_the_channels_own_table() {
    let p = proc_with(Some(PDB), vec![guest_ram(0x1000, 0x1000, 0x8_0000)]);
    assert_eq!(
        ce_destination(&p, CID, 0x1234, true),
        Ok(Some((0x8_0234, Aperture::SysmemCoherent)))
    );
    assert_eq!(ce_destination(&p, CID, 0x9000, true), Ok(None));
    assert_eq!(ce_destination(&p, CID, 0x9000, false), Ok(Some((0x9000, Aperture::Vidmem))));
    assert_eq!(ce_destination(&p, 4, 0x9000, false), Err(FwdFault::NoVas(4)));
    let no_vas = proc_with(Some(0x1111_0000), Vec::new());
    assert_eq!(
        ce_destination(&no_vas, CID, 0x1234, true),
        Err(FwdFault::UnknownPdb { gpu: GPU, pdb: 0x1111_0000 })
    );
}

#[test]
fn the_page_table_question_is_asked_of_the_resolved_address() {
    assert_eq!(classify_destination(None, Some((3, 4))), CeOperands::VaOperand { phys: 0 });
    assert_eq!(
        classify_destination(Some((0x1_2345, Aperture::Vidmem)), None),
        CeOperands::VaOperand { phys: 0x1_2345 }
    );
    assert_eq!(
        classify_destination(Some((0x1_2345, Aperture::Vidmem)), Some((3, 4))),
        CeOperands::PhysOperand { page: 0x1_2000, aperture: Aperture::Vidmem, owner: 3, owner_pdb: 4 }
    );
}

fn space(gpu: u32, pdb: u64, pt_pages: Vec<u64>) -> PtState {
    PtState {
        gpu,
        pdb,
        pt_pages,
        pt_meta: Vec::new(),
        witnessed: Vec::new(),
        sweep: SweepState { sweeps: 1, truncated: false, dirty: false },
    }
}

fn write(owner: u32, owner_pdb: u64, page: u64) -> PtWrite {
    PtWrite { gpu: GPU, page, aperture: Aperture::Vidmem, owner, owner_pdb, bytes: 8 }
}

#[test]
fn latched_writes_dirty_their_owners_pages_once_each() {
    let mut owners = vec![
        PtOwner { proc: 1, retired: false, spaces: vec![space(GPU, 0x1000, vec![0x5000]), space(GPU, 0x2000, Vec::new())] },
        PtOwner { proc: 2, retired: true, spaces: vec![space(GPU, 0x1000, Vec::new())] },
        PtOwner { proc: 3, retired: false, spaces: vec![space(GPU, 0x1000, Vec::new())] },
    ];
    latch_pt_writes(
        &mut owners,
        &vec![
            write(1, 0x2000, 0x7000),
            write(1, 0x1000, 0x5000),
            write(1, 0x1000, 0x6000),
            write(2, 0x1000, 0x9000),
            write(3, 0x1000, 0x8000),
            write(4, 0x1000, 0xA000),
            write(3, 0x3000, 0xB000),
            write(1, 0x2000, 0x7000),
        ],
    );
    assert_eq!(owners[0].spaces[0].pt_pages, vec![0x5000, 0x6000]);
    assert_eq!(owners[0].spaces[1].pt_pages, vec![0x7000]);
    // A retired owner's pages died with it; an unknown owner or space takes nothing.
    assert!(owners[1].spaces[0].pt_pages.is_empty());
    assert_eq!(owners[2].spaces[0].pt_pages, vec![0x8000]);
    assert_eq!(owners[2].spaces.len(), 1);
    assert!(!owners[0].spaces[0].sweep.dirty);
}
