//! The commit phase: what the host work materialized is adopted as a compare-and-swap, a
//! sibling that won is answered with a retry, and what a commit adopted is what the next
//! plan reads.

use lib::aperture::Aperture;
use lib::ce::{CeExecutor, Representability};
use lib::engine::{
    adopted_guest_userd, commit_doorbell, commit_engine_object, plan_engine_object,
    EngineObjectRoute,
};
use lib::forwarding::{FwdFault, HostHandle, Stale};
use lib::partition::{CeSource, CeSpan, CeSubCopy};
use lib::plans::{
    plan_doorbell, AdoptedGuestRing, AdoptedGuestUserd, ChannelView, DoorbellRoute, ProcView,
    RingDecl, VasView, Verb, VerbReply,
};
use lib::spine::SpineView;
use lib::submit::{commit_ce, commit_control, plan_ce, plan_control, CeForwarded};
use lib::table::{BackingBytes, Binding, BindingTable, HostMapping, RegionKind, TableEntry};

const GPU: u32 = 0;
const PDB: u64 = 0x4E60_0000;
const PID: u32 = 1;

fn handle(raw: u64) -> HostHandle {
    HostHandle { proc: PID, gpu: GPU, raw }
}

fn joined_ring(start: u64, len: u64, phys: u64) -> TableEntry {
    TableEntry {
        start,
        len,
        binding: Binding {
            phys,
            aperture: Aperture::Vidmem,
            kind: RegionKind::RealGpuMemory,
            host: Some(HostMapping { host_va: start, memory: handle(0x60), bytes: BackingBytes::JoinsGuestWindow }),
        },
    }
}

fn proc_with(entries: Vec<TableEntry>, host_vas: Option<HostHandle>) -> ProcView {
    ProcView {
        id: PID,
        system: false,
        retired: false,
        arenas: vec![GPU],
        isolates: vec![GPU],
        wanted: Vec::new(),
        vases: vec![VasView {
            gpu: GPU,
            pdb: PDB,
            host_vas,
            table: BindingTable { entries },
            pins: Vec::new(),
            blocks: Vec::new(),
        }],
        channels: vec![ChannelView {
            chan: 3,
            gpu: GPU,
            vas_pdb: Some(PDB),
            host_channel: None,
            host_token: None,
            engine: 7,
            ring: RingDecl::Declared { va: 0x20_1000, entries: 64 },
            userd_fb: Some(0x40_2000),
            engine_objects: Vec::new(),
        }],
        requested: vec![3],
        scheduled: Vec::new(),
        last_token: None,
    }
}

/// A spine whose doorbell route map sends this GPU's vChid 9 to `(process, channel)`.
fn spine_to(route: (u32, u32)) -> SpineView {
    SpineView {
        by_vchid: vec![((GPU, 9), route)],
        condemned_vchid: Vec::new(),
        by_pdb: Vec::new(),
        condemned_pdb: Vec::new(),
    }
}

fn eroute() -> EngineObjectRoute {
    EngineObjectRoute { proc: PID, chan: 3, gpu: GPU, vchid: 9, engine: 7 }
}

// ---- engine objects ----------------------------------------------------------------

#[test]
fn a_materializing_allocation_adopts_the_guests_own_ring() {
    let p = proc_with(vec![joined_ring(0x20_0000, 0x1_0000, 0x40_0000)], Some(handle(1)));
    let planned = plan_engine_object(&p, &eroute(), 0xc86f, &vec![1, 2, 3]).unwrap();
    assert_eq!(planned.plan.replay, None);
    assert_eq!(
        planned.verbs,
        Some(Verb::EngineObject {
            host_vas: Some(handle(1)),
            channel: None,
            engine: 7,
            class: 0xc86f,
            params: vec![1, 2, 3],
            adopt: Some(AdoptedGuestRing {
                memory: handle(0x60),
                ring_va: 0x20_0000,
                gp_fifo_va: 0x20_1000,
                gp_fifo_entries: 64,
                userd: Some(AdoptedGuestUserd { memory: handle(0x60), offset: 0x2000 }),
            }),
        })
    );
}

#[test]
fn a_userd_slot_must_lie_wholly_in_the_binding() {
    let b = joined_ring(0x20_0000, 0x1_0000, 0x40_0000).binding;
    assert_eq!(adopted_guest_userd(&b, 0x1_0000, handle(1), Some(0x40_fe00)), Some(AdoptedGuestUserd { memory: handle(1), offset: 0xfe00 }));
    assert_eq!(adopted_guest_userd(&b, 0x1_0000, handle(1), Some(0x40_fe01)), None);
    assert_eq!(adopted_guest_userd(&b, 0x1_0000, handle(1), Some(0x3f_ffff)), None);
    assert_eq!(adopted_guest_userd(&b, 0x1_0000, handle(1), None), None);
}

#[test]
fn an_allocated_class_is_replayed_from_core_state() {
    let mut p = proc_with(vec![joined_ring(0x20_0000, 0x1_0000, 0x40_0000)], Some(handle(1)));
    let planned = plan_engine_object(&p, &eroute(), 0xc86f, &Vec::new()).unwrap();
    let reply = VerbReply::EngineObject { host_vas: None, channel: Some((handle(2), 0x55)), object: handle(3) };
    let out = commit_engine_object(&spine_to((PID, 3)), &mut p, &planned.plan, Some(reply)).unwrap();
    assert!(out.materialized_channel);
    assert!(!out.reused);
    assert_eq!(p.channels[0].host_channel, Some(handle(2)));
    assert_eq!(p.channels[0].engine_objects, vec![(0xc86f, handle(3))]);
    let again = plan_engine_object(&p, &eroute(), 0xc86f, &Vec::new()).unwrap();
    assert_eq!(again.verbs, None);
    assert_eq!(again.plan.replay, Some(handle(3)));
    let replayed = commit_engine_object(&spine_to((PID, 3)), &mut p, &again.plan, None).unwrap();
    assert!(replayed.reused);
    assert_eq!(replayed.host_object, handle(3));
}

#[test]
fn a_sibling_that_won_the_class_is_answered_with_a_retry() {
    let mut p = proc_with(Vec::new(), Some(handle(1)));
    p.channels[0].host_channel = Some(handle(2));
    p.channels[0].host_token = Some(0x55);
    let planned = plan_engine_object(&p, &eroute(), 0xc86f, &Vec::new()).unwrap();
    p.channels[0].engine_objects.push((0xc86f, handle(8)));
    let reply = VerbReply::EngineObject { host_vas: None, channel: None, object: handle(3) };
    let refusal = commit_engine_object(&spine_to((PID, 3)), &mut p, &planned.plan, Some(reply)).unwrap_err();
    assert_eq!(refusal.fault, FwdFault::Stale(Stale::Rebound));
    assert!(refusal.retry);
    assert_eq!(refusal.orphans.free, vec![handle(3)]);
}

#[test]
fn a_moved_route_refuses_without_retry() {
    let mut p = proc_with(Vec::new(), Some(handle(1)));
    let planned = plan_engine_object(&p, &eroute(), 0xc86f, &Vec::new()).unwrap();
    let reply = VerbReply::EngineObject { host_vas: None, channel: Some((handle(2), 0x55)), object: handle(3) };
    let refusal = commit_engine_object(&spine_to((PID, 4)), &mut p, &planned.plan, Some(reply)).unwrap_err();
    assert_eq!(refusal.fault, FwdFault::Stale(Stale::Route { gpu: GPU, vchid: 9 }));
    assert!(!refusal.retry);
    assert_eq!(refusal.orphans.free, vec![handle(3), handle(2)]);
    assert_eq!(p.channels[0].host_channel, None);
}

#[test]
fn an_allocation_without_handles_or_an_address_space_is_refused() {
    let mut p = proc_with(Vec::new(), None);
    p.channels[0].vas_pdb = None;
    assert_eq!(plan_engine_object(&p, &eroute(), 1, &Vec::new()).unwrap_err(), FwdFault::NoVas(3));
    p.isolates.clear();
    assert_eq!(
        plan_engine_object(&p, &eroute(), 1, &Vec::new()).unwrap_err(),
        FwdFault::NoTarget { proc: PID, gpu: GPU }
    );
}

// ---- doorbells ---------------------------------------------------------------------

fn droute() -> DoorbellRoute {
    DoorbellRoute { proc: PID, chan: 3, gpu: GPU, vchid: 9, runlist: 0, token: 0xabcd }
}

#[test]
fn a_committed_doorbell_is_remembered() {
    let mut p = proc_with(Vec::new(), Some(handle(1)));
    let planned = plan_doorbell(&p, &droute(), &Vec::new()).unwrap();
    assert!(planned.plan.schedule);
    let reply = VerbReply::Doorbell { host_vas: None, channel: Some((handle(2), 0x55)), scheduled: true };
    let out = commit_doorbell(&spine_to((PID, 3)), &mut p, &planned.plan, reply).unwrap();
    assert_eq!(out.host_token, 0x55);
    assert!(out.scheduled_now);
    assert_eq!(out.engine, 7);
    assert_eq!(p.scheduled, vec![3]);
    assert_eq!(p.last_token, Some(0xabcd));
    let again = plan_doorbell(&p, &droute(), &Vec::new()).unwrap();
    assert!(!again.plan.schedule);
    assert_eq!(again.plan.channel, Some((handle(2), 0x55)));
    assert_eq!(again.verbs, Some(Verb::Doorbell { host_vas: None, channel: Some((handle(2), 0x55)), engine: 7, schedule: false }));
}

#[test]
fn a_doorbell_commit_that_lost_the_channel_keeps_the_adopted_address_space() {
    let mut p = proc_with(Vec::new(), None);
    let planned = plan_doorbell(&p, &droute(), &Vec::new()).unwrap();
    p.channels[0].host_channel = Some(handle(9));
    let reply = VerbReply::Doorbell { host_vas: Some(handle(1)), channel: Some((handle(2), 0x55)), scheduled: true };
    let refusal = commit_doorbell(&spine_to((PID, 3)), &mut p, &planned.plan, reply).unwrap_err();
    assert_eq!(refusal.fault, FwdFault::Stale(Stale::Rebound));
    assert_eq!(refusal.orphans.free, vec![handle(2), handle(1)]);
    assert_eq!(p.vases[0].host_vas, Some(handle(1)));
    assert!(p.scheduled.is_empty());
}

// ---- controls and copies -----------------------------------------------------------

#[test]
fn a_control_answer_is_copied_over_the_guests_payload() {
    let p = proc_with(Vec::new(), None);
    let obj = handle(4);
    let planned = plan_control(&p, GPU, obj, 0x2080_0101, &vec![9, 9, 9, 9]).unwrap();
    assert_eq!(planned.verbs, Some(Verb::Control { obj, cmd: 0x2080_0101, payload: vec![9, 9, 9, 9] }));
    let mut payload = vec![9u8, 9, 9, 9];
    commit_control(&p, &planned.plan, VerbReply::Control { payload: vec![1, 2] }, &mut payload).unwrap();
    assert_eq!(payload, vec![1, 2, 9, 9]);
    let mut payload = vec![9u8, 9];
    commit_control(&p, &planned.plan, VerbReply::Control { payload: vec![1, 2, 3, 4] }, &mut payload).unwrap();
    assert_eq!(payload, vec![1, 2]);
    let mut gone = p.clone();
    gone.isolates.clear();
    let refusal = commit_control(&gone, &planned.plan, VerbReply::Control { payload: vec![1] }, &mut payload).unwrap_err();
    assert_eq!(refusal.fault, FwdFault::Stale(Stale::Target { proc: PID, gpu: GPU }));
    assert_eq!(payload, vec![1, 2]);
}

fn span(dst: u64, len: u64, by: CeExecutor) -> CeSpan {
    CeSpan {
        sub: CeSubCopy { dst, src: CeSource::Constant(0), len, by, guest_release: None },
        dst_kind: Representability::HostBacked,
        src_kind: None,
        dst_place: None,
        src_place: None,
    }
}

#[test]
fn a_copy_runs_only_in_an_existing_host_address_space() {
    let p = proc_with(Vec::new(), None);
    let spans = vec![span(0x1000, 0x100, CeExecutor::HostCe)];
    assert_eq!(plan_ce(&p, 3, &spans).unwrap_err(), FwdFault::NoHostVas { chan: 3, pdb: PDB });
    assert_eq!(plan_ce(&p, 4, &spans).unwrap_err(), FwdFault::UnknownChannel { proc: PID, chan: 4 });
    let empty = plan_ce(&p, 3, &Vec::new()).unwrap();
    assert_eq!(empty.verbs, None);
    assert_eq!(empty.plan.subs, 0);
}

#[test]
fn a_copy_is_split_and_its_commit_reports_the_executors() {
    let mut p = proc_with(Vec::new(), Some(handle(1)));
    let spans = vec![span(0x1000, 0x100, CeExecutor::HostCe), span(0x1100, 0x80, CeExecutor::Ours)];
    let planned = plan_ce(&p, 3, &spans).unwrap();
    assert_eq!(
        planned.verbs,
        Some(Verb::CeSplit { vas: handle(1), subs: vec![spans[0].sub, spans[1].sub] })
    );
    let out = commit_ce(&p, &planned.plan, Some(VerbReply::CeSplit { host_ce: 1, ours: 1 })).unwrap();
    assert_eq!(out, CeForwarded { proc: PID, chan: 3, host_ce: 1, ours: 1 });
    assert!(out.reached_hardware());
    p.vases[0].host_vas = Some(handle(5));
    assert_eq!(
        commit_ce(&p, &planned.plan, Some(VerbReply::CeSplit { host_ce: 1, ours: 1 })).unwrap_err().fault,
        FwdFault::Stale(Stale::Vas { gpu: GPU, pdb: PDB })
    );
}

#[test]
fn the_spine_routes_a_doorbell_by_gpu_and_vchid() {
    let spine = spine_to((PID, 3));
    assert_eq!(spine.route(GPU, 9), Some((PID, 3)));
    assert_eq!(spine.route(GPU, 8), None);
    assert_eq!(spine.route(GPU + 1, 9), None);
}

#[test]
fn commits_keep_every_address_space_and_channel_under_its_key() {
    let mut p = proc_with(vec![joined_ring(0x20_0000, 0x1_0000, 0x40_0000)], None);
    let keys = |p: &ProcView| {
        (
            p.vases.iter().map(|v| (v.gpu, v.pdb)).collect::<Vec<_>>(),
            p.channels.iter().map(|c| c.chan).collect::<Vec<_>>(),
        )
    };
    let before = keys(&p);
    let planned = plan_doorbell(&p, &droute(), &Vec::new()).unwrap();
    let reply = VerbReply::Doorbell { host_vas: Some(handle(1)), channel: Some((handle(2), 0x55)), scheduled: true };
    commit_doorbell(&spine_to((PID, 3)), &mut p, &planned.plan, reply).unwrap();
    assert_eq!(keys(&p), before);
    let planned = plan_engine_object(&p, &eroute(), 0xc86f, &Vec::new()).unwrap();
    let reply = VerbReply::EngineObject { host_vas: None, channel: None, object: handle(3) };
    commit_engine_object(&spine_to((PID, 3)), &mut p, &planned.plan, Some(reply)).unwrap();
    assert_eq!(keys(&p), before);
}
