//! Framebuffer leaves: a blank host twin of the guest's framebuffer is never bound, and a
//! joined leaf is bound only once the guest's view of it is installed — then read back.

use lib::aperture::{Aperture, FbLeafBacking};
use lib::fbleaf::{adopt_joined_fb_leaf, commit_back_fb_leaf};
use lib::forwarding::{FwdFault, HostHandle, Stale};
use lib::plans::{plan_back_fb_leaf, ProcView, VasView, VerbReply};
use lib::table::{BackingBytes, Binding, BindingTable, RegionKind, RegionKindFault, TableEntry};

const GPU: u32 = 0;
const PDB: u64 = 0x4E60_0000;
const PID: u32 = 1;

fn handle(raw: u64) -> HostHandle {
    HostHandle { proc: PID, gpu: GPU, raw }
}

fn declared_leaf() -> TableEntry {
    TableEntry {
        start: 0x2_0000,
        len: 0x2_0000,
        binding: Binding { phys: 0x40_0000, aperture: Aperture::Vidmem, kind: RegionKind::FakeFramebuffer, host: None },
    }
}

fn proc_with(entries: Vec<TableEntry>) -> ProcView {
    ProcView {
        id: PID,
        system: false,
        retired: false,
        arenas: vec![GPU],
        isolates: vec![GPU],
        wanted: Vec::new(),
        vases: vec![VasView {
            gpu: GPU,
            pdb: PDB,
            host_vas: None,
            table: BindingTable { entries },
            pins: Vec::new(),
            blocks: Vec::new(),
        }],
        channels: Vec::new(),
        requested: Vec::new(),
        scheduled: Vec::new(),
        last_token: None,
    }
}

#[test]
fn a_blank_host_twin_is_refused_and_the_declared_row_kept() {
    let mut p = proc_with(vec![declared_leaf()]);
    let planned = plan_back_fb_leaf(&p, GPU, PDB, 0x2_0000, 0x2_0000, 0x40_0000, FbLeafBacking::Vidmem).unwrap();
    let reply = VerbReply::Published { host_vas: Some(handle(1)), memory: handle(2), host_va: 0x2_0000 };
    let refusal = commit_back_fb_leaf(&mut p, &planned.plan, Some(reply)).unwrap_err();
    assert_eq!(
        refusal.fault,
        FwdFault::RegionKindRefused { va: 0x2_0000, fault: RegionKindFault::FakeFbAtRealGpuVa }
    );
    assert_eq!(refusal.orphans.unmap, vec![(handle(1), 0x2_0000)]);
    assert_eq!(refusal.orphans.free, vec![handle(2)]);
    assert_eq!(p.vases[0].table.entries, vec![declared_leaf()]);
    assert_eq!(p.vases[0].host_vas, Some(handle(1)));
}

#[test]
fn a_joined_leaf_is_bound_after_the_view_is_installed_and_then_replayed() {
    let mut p = proc_with(vec![declared_leaf()]);
    let planned = plan_back_fb_leaf(&p, GPU, PDB, 0x2_0000, 0x2_0000, 0x40_0000, FbLeafBacking::Joined).unwrap();
    let reply = VerbReply::FbLeafJoined { host_vas: Some(handle(1)), backing: 42, memory: handle(2), host_va: 0x2_0000 };
    let out = commit_back_fb_leaf(&mut p, &planned.plan, Some(reply)).unwrap();
    assert_eq!(out.backing, Some(42));
    assert!(!out.already);
    assert_eq!(p.vases[0].table.entries, vec![declared_leaf()]);
    adopt_joined_fb_leaf(&mut p, &planned.plan, 0x2_0000, handle(2)).unwrap();
    let (b, off) = p.vases[0].table.resolve(PDB, 0x2_1000).unwrap();
    assert_eq!(off, 0x1000);
    assert_eq!(b.kind, RegionKind::RealGpuMemory);
    assert_eq!(b.host.unwrap().bytes, BackingBytes::JoinsGuestWindow);
    assert_eq!(p.vases[0].table.entries.len(), 1);
    let again = plan_back_fb_leaf(&p, GPU, PDB, 0x2_0000, 0x2_0000, 0x40_0000, FbLeafBacking::Joined).unwrap();
    assert_eq!(again.verbs, None);
    assert_eq!(again.plan.existing, Some((0x2_0000, handle(2))));
    let replayed = commit_back_fb_leaf(&mut p, &again.plan, None).unwrap();
    assert!(replayed.already);
    assert_eq!(replayed.backing, None);
}

#[test]
fn a_joined_leaf_without_a_host_address_space_cannot_be_adopted() {
    let mut p = proc_with(vec![declared_leaf()]);
    let planned = plan_back_fb_leaf(&p, GPU, PDB, 0x2_0000, 0x2_0000, 0x40_0000, FbLeafBacking::Joined).unwrap();
    let refusal = adopt_joined_fb_leaf(&mut p, &planned.plan, 0x2_0000, handle(2)).unwrap_err();
    assert_eq!(refusal.fault, FwdFault::Stale(Stale::Rebound));
    assert!(refusal.orphans.unmap.is_empty() && refusal.orphans.free.is_empty());
    p.retired = true;
    let refusal = adopt_joined_fb_leaf(&mut p, &planned.plan, 0x2_0000, handle(2)).unwrap_err();
    assert_eq!(refusal.fault, FwdFault::Stale(Stale::Proc(PID)));
}
