//! The plan phase of the forwarding plane, and the translation walk it plans reads with:
//! each refusal named, each replay answered from core state, each plan the host work the
//! state calls for.

use lib::aperture::{Aperture, FbLeafBacking};
use lib::forwarding::{AddressFault, FwdFault, GuestRamPinOverlap, HostHandle, IsolateId, Stale};
use lib::ce::ChannelOrigin;
use lib::plans::{
    gate_working_set_in, resolve_in, unpublish_backing, commit_pin_guest_ram, commit_publish, overlapping_pin, plan_back_fb_leaf, plan_doorbell,
    plan_gpfifo_ring, plan_pin_guest_ram, plan_publish, plan_pushbuffer, ChannelView,
    DoorbellRoute, GuestRamGrant, GuestRamPin, ProcView, RingDecl, RingPlanLook, VasView, Verb,
    VerbReply, MAX_GPFIFO_RING_BYTES, MAX_PUSH_RANGE_BYTES,
};
use lib::routes::{RingLook, VidmemRoute};
use lib::table::{
    push_range_gpas, BackingBytes, Binding, BindingTable, HostMapping, PushRange, PushSrc,
    RegionKind, TableEntry,
};

const GPU: u32 = 0;
const PDB: u64 = 0x4E60_0000;
const PID: u32 = 1;

fn handle(raw: u64) -> HostHandle {
    HostHandle { proc: PID, gpu: GPU, raw }
}

fn sysmem(start: u64, len: u64, phys: u64) -> TableEntry {
    TableEntry {
        start,
        len,
        binding: Binding {
            phys,
            aperture: Aperture::SysmemCoherent,
            kind: RegionKind::GuestPhysDma,
            host: None,
        },
    }
}

fn vidmem(start: u64, len: u64, phys: u64) -> TableEntry {
    TableEntry {
        start,
        len,
        binding: Binding { phys, aperture: Aperture::Vidmem, kind: RegionKind::FakeFramebuffer, host: None },
    }
}

fn published(start: u64, len: u64, phys: u64, host_va: u64, bytes: BackingBytes) -> TableEntry {
    TableEntry {
        start,
        len,
        binding: Binding {
            phys,
            aperture: Aperture::SysmemCoherent,
            kind: RegionKind::RealGpuMemory,
            host: Some(HostMapping { host_va, memory: handle(0x77), bytes }),
        },
    }
}

fn vas(entries: Vec<TableEntry>) -> VasView {
    VasView {
        gpu: GPU,
        pdb: PDB,
        host_vas: None,
        table: BindingTable { entries },
        pins: Vec::new(),
        blocks: Vec::new(),
    }
}

fn channel(chan: u32) -> ChannelView {
    ChannelView {
        chan,
        gpu: GPU,
        vas_pdb: Some(PDB),
        host_channel: None,
        host_token: None,
        engine: 7,
        ring: RingDecl::NoNode,
        userd_fb: None,
        engine_objects: Vec::new(),
    }
}

fn proc_with(vases: Vec<VasView>, channels: Vec<ChannelView>) -> ProcView {
    ProcView {
        id: PID,
        system: false,
        retired: false,
        arenas: vec![GPU],
        isolates: vec![GPU],
        wanted: Vec::new(),
        vases,
        channels,
        requested: Vec::new(),
        scheduled: Vec::new(),
        last_token: None,
    }
}

// ---- the translation walk ----------------------------------------------------------

#[test]
fn a_range_across_two_bindings_is_two_runs() {
    let t = BindingTable { entries: vec![sysmem(0x1000, 0x100, 0x8000), sysmem(0x1100, 0x100, 0x2000)] };
    let r = PushRange { va: 0x1080, len: 0x100 };
    let runs = push_range_gpas(&t, PDB, &r, 0x100, VidmemRoute::Refuse).unwrap();
    assert_eq!(runs.len(), 2);
    assert_eq!(runs[0].src, PushSrc::Gpa(0x8080));
    assert_eq!((runs[0].at, runs[0].take), (0, 0x80));
    assert_eq!(runs[1].src, PushSrc::Gpa(0x2000));
    assert_eq!((runs[1].at, runs[1].take), (0x80, 0x80));
}

#[test]
fn the_runs_tile_the_range_exactly() {
    let t = BindingTable {
        entries: vec![sysmem(0, 0x10, 0x100), sysmem(0x10, 0x7, 0x200), sysmem(0x17, 0x100, 0x300)],
    };
    let r = PushRange { va: 0x3, len: 0x40 };
    let runs = push_range_gpas(&t, PDB, &r, 0x40, VidmemRoute::Refuse).unwrap();
    let mut next = 0usize;
    for run in &runs {
        assert_eq!(run.at, next);
        assert!(run.take > 0);
        next += run.take;
    }
    assert_eq!(next, 0x40);
}

#[test]
fn an_unbound_address_is_a_miss_naming_it() {
    let t = BindingTable { entries: vec![sysmem(0x1000, 0x100, 0x8000)] };
    let r = PushRange { va: 0x1080, len: 0x100 };
    assert_eq!(
        push_range_gpas(&t, PDB, &r, 0x100, VidmemRoute::Refuse),
        Err(FwdFault::Address(AddressFault::Miss { pdb: PDB, va: 0x1100 }))
    );
}

#[test]
fn vidmem_is_read_from_our_framebuffer_only_when_routed_there() {
    let t = BindingTable { entries: vec![vidmem(0x4000, 0x1000, 0x20_0000)] };
    let r = PushRange { va: 0x4010, len: 0x20 };
    assert_eq!(
        push_range_gpas(&t, PDB, &r, 0x20, VidmemRoute::Refuse),
        Err(FwdFault::PushbufferAperture { va: 0x4010, aperture: Aperture::Vidmem })
    );
    let runs = push_range_gpas(&t, PDB, &r, 0x20, VidmemRoute::OwnFramebuffer).unwrap();
    assert_eq!(runs.len(), 1);
    assert_eq!(runs[0].src, PushSrc::Fb { phys: 0x20_0010, va: 0x4010 });
}

#[test]
fn peer_memory_is_never_read() {
    let mut e = sysmem(0x4000, 0x1000, 0);
    e.binding.aperture = Aperture::Peer;
    let t = BindingTable { entries: vec![e] };
    let r = PushRange { va: 0x4000, len: 8 };
    assert_eq!(
        push_range_gpas(&t, PDB, &r, 8, VidmemRoute::OwnFramebuffer),
        Err(FwdFault::PushbufferAperture { va: 0x4000, aperture: Aperture::Peer })
    );
}

#[test]
fn a_range_off_the_top_of_the_address_space_is_malformed() {
    let t = BindingTable { entries: vec![sysmem(u64::MAX - 0xf, 0x10, 0)] };
    let r = PushRange { va: u64::MAX - 0xf, len: 0x20 };
    assert_eq!(
        push_range_gpas(&t, PDB, &r, 0x20, VidmemRoute::Refuse),
        Err(FwdFault::Address(AddressFault::Malformed { pdb: PDB, va: u64::MAX - 0xf }))
    );
}

#[test]
fn a_bind_is_read_back_and_an_overlapping_one_refused() {
    let mut t = BindingTable { entries: Vec::new() };
    let b = sysmem(0, 0, 0x9000).binding;
    assert_eq!(t.bind(PDB, 0x1000, 0x100, b), Ok(()));
    assert_eq!(t.resolve(PDB, 0x1010), Ok((b, 0x10)));
    assert_eq!(t.bind(PDB, 0x10ff, 0x10, b), Err(AddressFault::Overlap { pdb: PDB, va: 0x10ff }));
    assert_eq!(t.bind(PDB, 0x2000, 0, b), Err(AddressFault::Malformed { pdb: PDB, va: 0x2000 }));
    assert_eq!(t.resolve(PDB, 0x1100), Err(AddressFault::Miss { pdb: PDB, va: 0x1100 }));
}

// ---- publication -------------------------------------------------------------------

#[test]
fn a_publication_is_planned_at_the_guests_own_address() {
    let p = proc_with(vec![vas(Vec::new())], Vec::new());
    let planned = plan_publish(&p, GPU, PDB, 0x10_0000, 0x2000).unwrap();
    assert_eq!(planned.plan.va, 0x10_0000);
    assert_eq!(planned.verbs, Some(Verb::Publish { host_vas: None, len: 0x2000, at: 0x10_0000 }));
}

#[test]
fn a_publication_refuses_in_order() {
    let mut p = proc_with(vec![vas(vec![sysmem(0x10_0000, 0x1000, 0)])], Vec::new());
    assert_eq!(
        plan_publish(&p, GPU, PDB, 0x10_0000, 0x1000).unwrap_err(),
        FwdFault::Address(AddressFault::Overlap { pdb: PDB, va: 0x10_0000 })
    );
    assert_eq!(
        plan_publish(&p, GPU, PDB + 1, 0x10_0000, 0x1000).unwrap_err(),
        FwdFault::UnknownPdb { gpu: GPU, pdb: PDB + 1 }
    );
    p.isolates.clear();
    assert_eq!(plan_publish(&p, GPU, PDB, 0, 1).unwrap_err(), FwdFault::NoTarget { proc: PID, gpu: GPU });
    p.wanted.push(GPU);
    assert_eq!(
        plan_publish(&p, GPU, PDB, 0, 1).unwrap_err(),
        FwdFault::IsolatePending { proc: PID, gpu: GPU }
    );
    p.arenas.clear();
    assert_eq!(plan_publish(&p, GPU, PDB, 0, 1).unwrap_err(), FwdFault::NoTarget { proc: PID, gpu: GPU });
    p.system = true;
    assert_eq!(plan_publish(&p, GPU, PDB, 0, 1).unwrap_err(), FwdFault::SystemDataPlane);
    p.retired = true;
    assert_eq!(plan_publish(&p, GPU, PDB, 0, 1).unwrap_err(), FwdFault::RetiredProc(PID));
}

#[test]
fn a_committed_publication_takes_its_address() {
    let mut p = proc_with(vec![vas(Vec::new())], Vec::new());
    let planned = plan_publish(&p, GPU, PDB, 0x10_0000, 0x2000).unwrap();
    let reply = VerbReply::Published { host_vas: Some(handle(1)), memory: handle(2), host_va: 0x10_0000 };
    let out = commit_publish(&mut p, &planned.plan, reply, Some(0x4000_0000)).unwrap();
    assert_eq!(out.gpa, 0x4000_0000);
    assert_eq!(p.vases[0].host_vas, Some(handle(1)));
    assert_eq!(p.vases[0].blocks, vec![(0x10_0000, 0x4000_0000, 0x2000)]);
    let (b, off) = p.vases[0].table.resolve(PDB, 0x10_0010).unwrap();
    assert_eq!((b.phys, off, b.kind), (0x4000_0000, 0x10, RegionKind::RealGpuMemory));
    assert_eq!(
        plan_publish(&p, GPU, PDB, 0x10_0000, 0x10).unwrap_err(),
        FwdFault::Address(AddressFault::Overlap { pdb: PDB, va: 0x10_0000 })
    );
}

#[test]
fn a_publication_commit_refuses_what_moved() {
    let mut p = proc_with(vec![vas(Vec::new())], Vec::new());
    let planned = plan_publish(&p, GPU, PDB, 0x10_0000, 0x2000).unwrap();
    // A sibling materialized the host address space in the gap.
    p.vases[0].host_vas = Some(handle(9));
    let reply = VerbReply::Published { host_vas: Some(handle(1)), memory: handle(2), host_va: 0x10_0000 };
    let refusal = commit_publish(&mut p, &planned.plan, reply.clone(), Some(0x4000_0000)).unwrap_err();
    assert_eq!(refusal.fault, FwdFault::Stale(Stale::Rebound));
    assert!(refusal.retry);
    assert_eq!(refusal.orphans.free, vec![handle(1), handle(2)]);
    // A foreign object is not ours to free.
    p.vases[0].host_vas = None;
    let foreign = HostHandle { proc: 5, gpu: GPU, raw: 2 };
    let reply = VerbReply::Published { host_vas: Some(handle(1)), memory: foreign, host_va: 0x10_0000 };
    let refusal = commit_publish(&mut p, &planned.plan, reply, Some(0x4000_0000)).unwrap_err();
    assert_eq!(
        refusal.fault,
        FwdFault::ForeignBacking { isolate: IsolateId { proc: PID, gpu: GPU }, memory: foreign }
    );
    assert_eq!(refusal.orphans.free, vec![handle(1)]);
    // An arena that cannot carve leaves the adopted host address space adopted.
    let reply = VerbReply::Published { host_vas: Some(handle(1)), memory: handle(2), host_va: 0x10_0000 };
    let refusal = commit_publish(&mut p, &planned.plan, reply, None).unwrap_err();
    assert_eq!(refusal.fault, FwdFault::Arena);
    assert_eq!(p.vases[0].host_vas, Some(handle(1)));
    assert!(p.vases[0].table.entries.is_empty());
}

// ---- guest-RAM pins ----------------------------------------------------------------

fn pin(base: u64, len: u64) -> GuestRamPin {
    GuestRamPin { base, len, host_va: base, memory: handle(0x50), mapped: 0 }
}

#[test]
fn the_nearest_pin_in_the_way_is_named() {
    let mut v = vas(Vec::new());
    v.pins = vec![pin(0x1000, 0x1000), pin(0x4000, 0x1000)];
    assert_eq!(
        overlapping_pin(&v, 0x1800, 0x100),
        Some(GuestRamPinOverlap { va: 0x1800, requested: 0x100, existing_base: 0x1000, existing_len: 0x1000, free_prefix: 0 })
    );
    assert_eq!(
        overlapping_pin(&v, 0x3000, 0x2000),
        Some(GuestRamPinOverlap { va: 0x3000, requested: 0x2000, existing_base: 0x4000, existing_len: 0x1000, free_prefix: 0x1000 })
    );
    assert_eq!(overlapping_pin(&v, 0x2000, 0x2000), None);
    assert_eq!(overlapping_pin(&v, 0x1800, 0), None);
}

#[test]
fn a_pin_is_planned_committed_and_then_replayed() {
    let mut p = proc_with(vec![vas(vec![sysmem(0x8000, 0x4000, 0x1_0000)])], Vec::new());
    let grant = GuestRamGrant { len: 0x2000, descriptor: 3 };
    let planned = plan_pin_guest_ram(&p, GPU, PDB, 0x8000, grant).unwrap();
    assert_eq!(planned.verbs, Some(Verb::PinGuestRam { host_vas: None, grant, at: 0x8000 }));
    let reply = VerbReply::GuestRamPinned { host_vas: Some(handle(1)), mapped: 5, memory: handle(2), host_va: 0x8000 };
    let out = commit_pin_guest_ram(&mut p, &planned.plan, Some(reply)).unwrap();
    assert!(!out.already);
    assert_eq!(out.described, 0x2000);
    let again = plan_pin_guest_ram(&p, GPU, PDB, 0x8000, grant).unwrap();
    assert_eq!(again.verbs, None);
    assert_eq!(again.plan.existing, Some(GuestRamPin { base: 0x8000, len: 0x2000, host_va: 0x8000, memory: handle(2), mapped: 5 }));
    let replayed = commit_pin_guest_ram(&mut p, &again.plan, None).unwrap();
    assert!(replayed.already);
    let longer = GuestRamGrant { len: 0x3000, descriptor: 3 };
    assert_eq!(
        plan_pin_guest_ram(&p, GPU, PDB, 0x8000, longer).unwrap_err(),
        FwdFault::GuestRamPinTooShort { va: 0x8000, described: 0x2000, requested: 0x3000 }
    );
    assert_eq!(
        plan_pin_guest_ram(&p, GPU, PDB, 0x9000, grant).unwrap_err(),
        FwdFault::GuestRamPinOverlaps(GuestRamPinOverlap {
            va: 0x9000,
            requested: 0x2000,
            existing_base: 0x8000,
            existing_len: 0x2000,
            free_prefix: 0,
        })
    );
}

#[test]
fn pins_stay_in_base_order() {
    let mut p = proc_with(vec![vas(vec![sysmem(0, 0x10_0000, 0)])], Vec::new());
    p.vases[0].host_vas = Some(handle(1));
    for base in [0x8000u64, 0x2000, 0x5000] {
        let grant = GuestRamGrant { len: 0x1000, descriptor: 0 };
        let planned = plan_pin_guest_ram(&p, GPU, PDB, base, grant).unwrap();
        let reply = VerbReply::GuestRamPinned { host_vas: None, mapped: 0, memory: handle(2), host_va: base };
        commit_pin_guest_ram(&mut p, &planned.plan, Some(reply)).unwrap();
    }
    let bases: Vec<u64> = p.vases[0].pins.iter().map(|q| q.base).collect();
    assert_eq!(bases, vec![0x2000, 0x5000, 0x8000]);
}

#[test]
fn a_pin_refuses_what_is_not_guest_ram() {
    let mut entries = vec![vidmem(0x1000, 0x1000, 0)];
    entries.push(published(0x3000, 0x1000, 0, 0x3000, BackingBytes::SoleBacking));
    let p = proc_with(vec![vas(entries)], Vec::new());
    let grant = GuestRamGrant { len: 0x100, descriptor: 0 };
    assert_eq!(
        plan_pin_guest_ram(&p, GPU, PDB, 0x1000, grant).unwrap_err(),
        FwdFault::GuestRamNotSysmem { va: 0x1000, aperture: Aperture::Vidmem }
    );
    assert_eq!(
        plan_pin_guest_ram(&p, GPU, PDB, 0x3000, grant).unwrap_err(),
        FwdFault::GuestRamAddressTaken { va: 0x3000, host_va: 0x3000 }
    );
    assert_eq!(
        plan_pin_guest_ram(&p, GPU, PDB, 0x6000, grant).unwrap_err(),
        FwdFault::Address(AddressFault::Miss { pdb: PDB, va: 0x6000 })
    );
}

#[test]
fn a_pin_commit_refuses_a_stale_process() {
    let mut p = proc_with(vec![vas(vec![sysmem(0x8000, 0x4000, 0)])], Vec::new());
    let grant = GuestRamGrant { len: 0x1000, descriptor: 0 };
    let planned = plan_pin_guest_ram(&p, GPU, PDB, 0x8000, grant).unwrap();
    p.retired = true;
    let reply = VerbReply::GuestRamPinned { host_vas: Some(handle(1)), mapped: 0, memory: handle(2), host_va: 0x8000 };
    let refusal = commit_pin_guest_ram(&mut p, &planned.plan, Some(reply)).unwrap_err();
    assert_eq!(refusal.fault, FwdFault::Stale(Stale::Proc(PID)));
    assert!(!refusal.retry);
    assert_eq!(refusal.orphans.unmap, vec![(handle(1), 0x8000)]);
    assert_eq!(refusal.orphans.free, vec![handle(1), handle(2)]);
}

// ---- framebuffer leaves ------------------------------------------------------------

#[test]
fn a_framebuffer_leaf_off_the_granule_is_refused_by_name() {
    let p = proc_with(vec![vas(Vec::new())], Vec::new());
    assert_eq!(
        plan_back_fb_leaf(&p, GPU, PDB, 0x1_0000, 0x8000, 0, FbLeafBacking::Vidmem).unwrap_err(),
        FwdFault::FbLeafGranularity { va: 0x1_0000, len: 0x8000 }
    );
    assert_eq!(
        plan_back_fb_leaf(&p, GPU, PDB, 0x1_8000, 0x1_0000, 0, FbLeafBacking::Vidmem).unwrap_err(),
        FwdFault::FbLeafGranularity { va: 0x1_8000, len: 0x1_0000 }
    );
}

#[test]
fn a_framebuffer_leaf_plans_the_chain_it_was_asked_for() {
    let p = proc_with(vec![vas(Vec::new())], Vec::new());
    let v = plan_back_fb_leaf(&p, GPU, PDB, 0x2_0000, 0x2_0000, 0x40_0000, FbLeafBacking::Vidmem).unwrap();
    assert_eq!(v.verbs, Some(Verb::PublishVidmem { host_vas: None, len: 0x2_0000, at: 0x2_0000 }));
    let j = plan_back_fb_leaf(&p, GPU, PDB, 0x2_0000, 0x2_0000, 0x40_0000, FbLeafBacking::Joined).unwrap();
    assert_eq!(j.verbs, Some(Verb::JoinFbLeaf { host_vas: None, len: 0x2_0000, at: 0x2_0000, phys: 0x40_0000 }));
}

#[test]
fn a_framebuffer_leaf_must_agree_with_the_table() {
    let p = proc_with(vec![vas(vec![vidmem(0x2_0000, 0x2_0000, 0x40_0000)])], Vec::new());
    assert_eq!(
        plan_back_fb_leaf(&p, GPU, PDB, 0x2_0000, 0x1_0000, 0x40_0000, FbLeafBacking::Vidmem).unwrap_err(),
        FwdFault::FbLeafExtent { va: 0x2_0000, len: 0x1_0000, tabled: (0x2_0000, 0x2_0000) }
    );
    assert_eq!(
        plan_back_fb_leaf(&p, GPU, PDB, 0x2_0000, 0x2_0000, 0x50_0000, FbLeafBacking::Vidmem).unwrap_err(),
        FwdFault::FbLeafDisagrees {
            va: 0x2_0000,
            walked: (0x50_0000, Aperture::Vidmem),
            tabled: (0x40_0000, Aperture::Vidmem),
        }
    );
    let mut e = vidmem(0x2_0000, 0x2_0000, 0x40_0000);
    e.binding.kind = RegionKind::RealGpuMemory;
    e.binding.host = Some(HostMapping { host_va: 0x2_0000, memory: handle(4), bytes: BackingBytes::ShadowsGuestMemory });
    let p = proc_with(vec![vas(vec![e])], Vec::new());
    let replay = plan_back_fb_leaf(&p, GPU, PDB, 0x2_0000, 0x2_0000, 0x40_0000, FbLeafBacking::Vidmem).unwrap();
    assert_eq!(replay.verbs, None);
    assert_eq!(replay.plan.existing, Some((0x2_0000, handle(4))));
}

// ---- doorbells ---------------------------------------------------------------------

fn route(chan: u32) -> DoorbellRoute {
    DoorbellRoute { proc: PID, chan, gpu: GPU, vchid: 9, runlist: 0, token: 0xabcd }
}

#[test]
fn a_doorbell_waits_for_the_guest_to_ask_for_scheduling() {
    let mut p = proc_with(vec![vas(Vec::new())], vec![channel(3)]);
    assert_eq!(
        plan_doorbell(&p, &route(3), &Vec::new()).unwrap_err(),
        FwdFault::NotScheduled { chan: 3, vchid: 9 }
    );
    p.requested.push(3);
    let planned = plan_doorbell(&p, &route(3), &Vec::new()).unwrap();
    assert!(planned.plan.schedule);
    assert_eq!(
        planned.verbs,
        Some(Verb::Doorbell { host_vas: None, channel: None, engine: 7, schedule: true })
    );
}

#[test]
fn a_doorbell_refuses_an_ungated_working_set() {
    let mut p = proc_with(
        vec![vas(vec![published(0x1000, 0x1000, 0, 0x1000, BackingBytes::SoleBacking), sysmem(0x2000, 0x1000, 0)])],
        vec![channel(3)],
    );
    p.requested.push(3);
    assert!(plan_doorbell(&p, &route(3), &vec![0x1000, 0x1800]).is_ok());
    assert_eq!(
        plan_doorbell(&p, &route(3), &vec![0x1000, 0x2000, 0x9000]).unwrap_err(),
        FwdFault::Address(AddressFault::Miss { pdb: PDB, va: 0x2000 })
    );
    assert_eq!(
        plan_doorbell(&p, &route(4), &Vec::new()).unwrap_err(),
        FwdFault::UnknownVchid { gpu: GPU, vchid: 9 }
    );
    let mut c = channel(5);
    c.vas_pdb = None;
    p.channels.push(c);
    p.requested.push(5);
    assert_eq!(plan_doorbell(&p, &route(5), &Vec::new()).unwrap_err(), FwdFault::NoVas(5));
}

// ---- rings and pushbuffers ---------------------------------------------------------

#[test]
fn a_ring_that_is_not_there_is_named() {
    let mut p = proc_with(vec![vas(vec![sysmem(0x10_0000, 0x4_0000, 0x80_0000)])], vec![channel(1)]);
    assert_eq!(plan_gpfifo_ring(&p, 1, false), Ok(RingPlanLook::Absent(RingLook::NoChannelNode)));
    p.channels[0].ring = RingDecl::Undeclared;
    assert_eq!(plan_gpfifo_ring(&p, 1, false), Ok(RingPlanLook::Absent(RingLook::NoRingDeclared)));
    p.channels[0].ring = RingDecl::Declared { va: 0x10_0000, entries: 0 };
    assert_eq!(
        plan_gpfifo_ring(&p, 1, false),
        Ok(RingPlanLook::Absent(RingLook::RingDeclaredEmpty { va: 0x10_0000, entries: 0 }))
    );
    p.channels[0].ring = RingDecl::Declared { va: 0x90_0000, entries: 128 };
    assert_eq!(
        plan_gpfifo_ring(&p, 1, false),
        Ok(RingPlanLook::Absent(RingLook::RingVaUnbound { va: 0x90_0000 }))
    );
    p.channels[0].vas_pdb = None;
    assert_eq!(plan_gpfifo_ring(&p, 1, false), Ok(RingPlanLook::Absent(RingLook::NoAddressSpace)));
}

#[test]
fn a_ring_is_read_as_far_as_it_is_mapped_and_no_further_than_the_bound() {
    let mut p = proc_with(vec![vas(vec![sysmem(0x10_0000, 0x4_0000, 0x80_0000)])], vec![channel(1)]);
    p.channels[0].ring = RingDecl::Declared { va: 0x13_f000, entries: 1 << 20 };
    match plan_gpfifo_ring(&p, 1, false).unwrap() {
        RingPlanLook::Planned(plan) => {
            assert_eq!(plan.len, 0x1000);
            assert_eq!(plan.runs.len(), 1);
            assert_eq!(plan.runs[0].src, PushSrc::Gpa(0x83_f000));
        }
        other => panic!("expected a ring, got {other:?}"),
    }
    p.channels[0].ring = RingDecl::Declared { va: 0x10_0000, entries: 1 << 20 };
    match plan_gpfifo_ring(&p, 1, false).unwrap() {
        RingPlanLook::Planned(plan) => assert_eq!(plan.len, MAX_GPFIFO_RING_BYTES),
        other => panic!("expected a ring, got {other:?}"),
    }
}

#[test]
fn a_pushbuffer_range_is_clamped_to_its_bound() {
    let p = proc_with(vec![vas(vec![sysmem(0, 0x100_0000, 0x1000_0000)])], vec![channel(1)]);
    let ranges = vec![PushRange { va: 0x1000, len: 0x40 }, PushRange { va: 0x2000, len: 1 << 30 }];
    let plan = plan_pushbuffer(&p, 1, &ranges, false).unwrap();
    assert_eq!(plan.len(), 2);
    assert_eq!(plan.ranges[0].len, 0x40);
    assert_eq!(plan.ranges[1].len, MAX_PUSH_RANGE_BYTES);
    assert!(!plan.touches_fb());
    let mut c = channel(2);
    c.vas_pdb = None;
    let p = proc_with(vec![vas(Vec::new())], vec![c]);
    assert_eq!(plan_pushbuffer(&p, 2, &ranges, false).unwrap_err(), FwdFault::NoVas(2));
}

#[test]
fn a_vidmem_pushbuffer_is_planned_out_of_our_framebuffer() {
    let p = proc_with(vec![vas(vec![vidmem(0, 0x1000, 0x5000)])], vec![channel(1)]);
    let ranges = vec![PushRange { va: 0x10, len: 0x20 }];
    assert_eq!(
        plan_pushbuffer(&p, 1, &ranges, false).unwrap_err(),
        FwdFault::PushbufferAperture { va: 0x10, aperture: Aperture::Vidmem }
    );
    let plan = plan_pushbuffer(&p, 1, &ranges, true).unwrap();
    assert!(plan.touches_fb());
    assert!(!plan.is_empty());
}

// ---- names -------------------------------------------------------------------------

#[test]
fn a_fault_is_named_by_its_variant_and_a_delegated_one_by_which_it_is() {
    assert_eq!(FwdFault::RetiredProc(1).fault_tag(), "FwdFault::RetiredProc");
    assert_eq!(FwdFault::NotScheduled { chan: 1, vchid: 2 }.fault_tag(), "FwdFault::NotScheduled");
    assert_eq!(FwdFault::SystemDataPlane.fault_tag(), "FwdFault::SystemDataPlane");
    assert_eq!(FwdFault::Stale(Stale::Rebound).fault_tag(), "Stale::Rebound");
    assert_eq!(FwdFault::Stale(Stale::Vas { gpu: 0, pdb: 1 }).fault_tag(), "Stale::Vas");
    assert_eq!(
        FwdFault::Address(AddressFault::Miss { pdb: 1, va: 2 }).fault_tag(),
        "AddressFault::Miss"
    );
}

#[test]
fn the_system_process_is_the_guest_kernel() {
    let mut p = proc_with(Vec::new(), Vec::new());
    assert_eq!(ChannelOrigin::of(&p), ChannelOrigin::User);
    p.system = true;
    assert_eq!(ChannelOrigin::of(&p), ChannelOrigin::GuestKernel);
}

#[test]
fn an_address_resolves_in_its_own_address_space_only() {
    let p = proc_with(vec![vas(vec![sysmem(0x1000, 0x100, 0x8000)])], Vec::new());
    let (b, off) = resolve_in(&p, GPU, PDB, 0x1010).unwrap();
    assert_eq!((b.phys, off), (0x8000, 0x10));
    assert_eq!(resolve_in(&p, GPU + 1, PDB, 0x1010).unwrap_err(), FwdFault::UnknownPdb { gpu: GPU + 1, pdb: PDB });
    assert_eq!(
        resolve_in(&p, GPU, PDB, 0x2000).unwrap_err(),
        FwdFault::Address(AddressFault::Miss { pdb: PDB, va: 0x2000 })
    );
}

#[test]
fn unpublishing_undoes_a_publication() {
    let mut p = proc_with(vec![vas(vec![sysmem(0x1000, 0x100, 0x8000)])], Vec::new());
    let before = p.vases[0].table.clone();
    let planned = plan_publish(&p, GPU, PDB, 0x10_0000, 0x2000).unwrap();
    let reply = VerbReply::Published { host_vas: Some(handle(1)), memory: handle(2), host_va: 0x10_0000 };
    commit_publish(&mut p, &planned.plan, reply, Some(0x4000_0000)).unwrap();
    let orphans = unpublish_backing(&mut p, GPU, PDB, 0x10_0000, true).unwrap();
    assert_eq!(orphans.unmap, vec![(handle(1), 0x10_0000)]);
    assert_eq!(orphans.free, vec![handle(2)]);
    assert_eq!(p.vases[0].table, before);
    assert!(p.vases[0].blocks.is_empty());
    assert_eq!(
        unpublish_backing(&mut p, GPU, PDB, 0x10_0000, true).unwrap_err(),
        FwdFault::Address(AddressFault::Miss { pdb: PDB, va: 0x10_0000 })
    );
    assert!(plan_publish(&p, GPU, PDB, 0x10_0000, 0x2000).is_ok());
}

#[test]
fn the_gate_query_admits_only_host_published_addresses() {
    let p = proc_with(
        vec![vas(vec![
            published(0x1000, 0x1000, 0x9000, 0x7000_0000, BackingBytes::SoleBacking),
            sysmem(0x4000, 0x1000, 0x8_0000),
        ])],
        vec![channel(1)],
    );
    assert_eq!(gate_working_set_in(&p, 1, &vec![0x1000, 0x1800]), Ok(()));
    assert_eq!(gate_working_set_in(&p, 1, &Vec::new()), Ok(()));
    assert_eq!(
        gate_working_set_in(&p, 1, &vec![0x1000, 0x4000, 0x9000]),
        Err(FwdFault::Address(AddressFault::Miss { pdb: PDB, va: 0x4000 }))
    );
    assert_eq!(gate_working_set_in(&p, 2, &vec![0x1000]), Err(FwdFault::NoVas(2)));
    let mut no_decl = channel(3);
    no_decl.vas_pdb = None;
    let q = proc_with(Vec::new(), vec![no_decl, channel(1)]);
    assert_eq!(gate_working_set_in(&q, 3, &vec![0x1000]), Err(FwdFault::NoVas(3)));
    assert_eq!(gate_working_set_in(&q, 1, &vec![0x1000]), Err(FwdFault::UnknownPdb { gpu: GPU, pdb: PDB }));
}
