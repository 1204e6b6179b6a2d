//! **Engine objects and doorbells: the commits that adopt a materialized channel.** An
//! engine object is allocated on the host channel that backs a guest channel, and a
//! doorbell rings it; a channel with no host handles yet is materialized by the same host
//! work, adopting the guest's own ring where the guest's framebuffer window already is the
//! host's object. A second allocation of a class the channel already has is answered from
//! core state. Materialization is a compare-and-swap across the lock-free gap: a sibling
//! that materialized the same object first wins, and the loser re-plans.
use crate::aperture::Aperture;
use crate::forwarding::{FwdFault, HostHandle, Stale};
use crate::plans::{
    chan_pos, holds, lemma_chan_pos, spec_plan_doorbell, DoorbellPlan, DoorbellRoute, missing_isolate, refused, spec_channel, spec_missing_isolate, spec_vas,
    same_keys, vas_pos, AdoptedGuestRing, AdoptedGuestUserd, ChannelView, Orphans, Planned, ProcView,
    Refusal, RingDecl, Verb, VerbReply,
};
use crate::spine::{lookup, SpineView};
use crate::table::{spec_binding_at, BackingBytes, Binding};
use vstd::prelude::*;

verus! {

/// Where an engine-object allocation routed.
#[derive(Debug, Clone, Copy, PartialEq, Eq)]
pub struct EngineObjectRoute {
    /// The owning process.
    pub proc: u32,
    /// The channel.
    pub chan: u32,
    /// The GPU the allocation targeted.
    pub gpu: u32,
    /// The channel's vChid.
    pub vchid: u32,
    /// The engine the class belongs to.
    pub engine: u32,
}

/// What [`plan_engine_object`] hands its commit.
#[derive(Debug, Clone, Copy, PartialEq, Eq)]
pub struct EngineObjectPlan {
    /// The owning process.
    pub proc: u32,
    /// The channel.
    pub chan: u32,
    /// The GPU the allocation targeted.
    pub gpu: u32,
    /// The channel's own target GPU.
    pub cgpu: u32,
    /// The channel's vChid.
    pub vchid: u32,
    /// The engine.
    pub engine: u32,
    /// The object's class.
    pub class: u32,
    /// The channel's declared address space.
    pub vas_pdb: Option<u64>,
    /// The channel's host handles as seen at plan time.
    pub channel: Option<(HostHandle, u64)>,
    /// The host object already allocated for this class: the idempotent replay.
    pub replay: Option<HostHandle>,
}

/// What one engine-object allocation produced.
#[derive(Debug, Clone, Copy, PartialEq, Eq)]
pub struct EngineObjectForwarded {
    /// The engine.
    pub engine: u32,
    /// The host object.
    pub host_object: HostHandle,
    /// Whether this allocation materialized the channel.
    pub materialized_channel: bool,
    /// Whether the object was found already allocated.
    pub reused: bool,
}

/// The bytes of one USERD slot.
pub const USERD_SLOT_BYTES: u64 = 512;

/// The USERD slot a ring binding carries: the channel's declared USERD must be in the
/// framebuffer, the binding must be vidmem, and the whole slot must lie inside the
/// binding's `len` bytes from its physical start.
pub open spec fn spec_adopted_guest_userd(
    b: Binding,
    len: u64,
    memory: HostHandle,
    userd_fb: Option<u64>,
) -> Option<AdoptedGuestUserd> {
    match userd_fb {
        None => None,
        Some(base) => if b.aperture != Aperture::Vidmem || base < b.phys {
            None
        } else {
            let offset = (base - b.phys) as u64;
            if offset + USERD_SLOT_BYTES > u64::MAX || offset + USERD_SLOT_BYTES > len {
                None
            } else {
                Some(AdoptedGuestUserd { memory, offset })
            }
        },
    }
}

/// The USERD slot inside the ring's binding `b` of `len` bytes (see
/// [`spec_adopted_guest_userd`]).
pub fn adopted_guest_userd(b: &Binding, len: u64, memory: HostHandle, userd_fb: Option<u64>) -> (r:
    Option<AdoptedGuestUserd>)
    ensures
        r == spec_adopted_guest_userd(*b, len, memory, userd_fb),
{
    let base = match userd_fb {
        Some(base) => base,
        None => {
            return None;
        },
    };
    match b.aperture {
        Aperture::Vidmem => {},
        _ => {
            return None;
        },
    }
    if base < b.phys {
        return None;
    }
    let offset = base - b.phys;
    if offset > u64::MAX - USERD_SLOT_BYTES {
        return None;
    }
    if offset + USERD_SLOT_BYTES > len {
        return None;
    }
    Some(AdoptedGuestUserd { memory, offset })
}

/// The guest ring a channel being materialized adopts: its declared ring must be bound in
/// its address space to a host object that *is* the guest's own framebuffer window —
/// never a blank twin, never the range's only memory.
pub open spec fn spec_adopted_guest_ring(p: ProcView, c: ChannelView, cgpu: u32) -> Option<
    AdoptedGuestRing,
> {
    match c.ring {
        RingDecl::Declared { va, entries } => match c.vas_pdb {
            None => None,
            Some(pdb) => match spec_vas(p, cgpu, pdb) {
                None => None,
                Some(v) => match spec_binding_at(v.table.entries@, va) {
                    None => None,
                    Some(e) => match e.binding.host {
                        None => None,
                        Some(h) => if h.bytes != BackingBytes::JoinsGuestWindow {
                            None
                        } else {
                            Some(
                                AdoptedGuestRing {
                                    memory: h.memory,
                                    ring_va: e.start,
                                    gp_fifo_va: va,
                                    gp_fifo_entries: entries,
                                    userd: spec_adopted_guest_userd(
                                        e.binding,
                                        e.len,
                                        h.memory,
                                        c.userd_fb,
                                    ),
                                },
                            )
                        },
                    },
                },
            },
        },
        _ => None,
    }
}

/// The guest ring channel `c` adopts when it is materialized on `cgpu` (see
/// [`spec_adopted_guest_ring`]).
pub fn adopted_guest_ring(p: &ProcView, c: &ChannelView, cgpu: u32) -> (r: Option<AdoptedGuestRing>)
    ensures
        r == spec_adopted_guest_ring(*p, *c, cgpu),
{
    let (va, entries) = match c.ring {
        RingDecl::Declared { va, entries } => (va, entries),
        _ => {
            return None;
        },
    };
    let pdb = match c.vas_pdb {
        Some(pdb) => pdb,
        None => {
            return None;
        },
    };
    let v = match p.vas(cgpu, pdb) {
        Some(v) => v,
        None => {
            return None;
        },
    };
    let e = match v.table.binding_at(va) {
        Some(e) => e,
        None => {
            return None;
        },
    };
    let h = match e.binding.host {
        Some(h) => h,
        None => {
            return None;
        },
    };
    match h.bytes {
        BackingBytes::JoinsGuestWindow => {},
        _ => {
            return None;
        },
    }
    Some(
        AdoptedGuestRing {
            memory: h.memory,
            ring_va: e.start,
            gp_fifo_va: va,
            gp_fifo_entries: entries,
            userd: adopted_guest_userd(&e.binding, e.len, h.memory, c.userd_fb),
        },
    )
}

/// The first engine object at or after position `i` of class `class`.
pub open spec fn object_from(s: Seq<(u32, HostHandle)>, class: u32, i: int) -> Option<HostHandle>
    decreases s.len() - i,
{
    if i < 0 || i >= s.len() {
        None
    } else if s[i].0 == class {
        Some(s[i].1)
    } else {
        object_from(s, class, i + 1)
    }
}

/// The channel's engine object of class `class`.
pub open spec fn spec_object_of(c: ChannelView, class: u32) -> Option<HostHandle> {
    object_from(c.engine_objects@, class, 0)
}

/// The engine object of class `class` already on channel `c`.
pub fn object_of(c: &ChannelView, class: u32) -> (r: Option<HostHandle>)
    ensures
        r == spec_object_of(*c, class),
{
    let mut i: usize = 0;
    while i < c.engine_objects.len()
        invariant
            i <= c.engine_objects.len(),
            object_from(c.engine_objects@, class, 0) == object_from(
                c.engine_objects@,
                class,
                i as int,
            ),
        decreases c.engine_objects.len() - i,
    {
        if c.engine_objects[i].0 == class {
            return Some(c.engine_objects[i].1);
        }
        i = i + 1;
    }
    None
}

/// The channel's host handles, where it has both.
pub open spec fn handles_of(c: ChannelView) -> Option<(HostHandle, u64)> {
    if c.host_channel is Some && c.host_token is Some {
        Some((c.host_channel->0, c.host_token->0))
    } else {
        None
    }
}

/// The plan of an engine-object allocation, as the plan and — where there is host work —
/// the verb's `(host_vas, channel, engine, class, adopt)`; the verb also carries the
/// guest's parameters unchanged. The process must be live and own the channel, and the
/// channel's GPU must have an isolate. On a channel with host handles, a class already
/// allocated is replayed with no host work. A channel without host handles is
/// materialized, which needs its declared address space.
pub open spec fn spec_plan_engine_object(p: ProcView, route: EngineObjectRoute, class: u32) -> Result<
    (
        EngineObjectPlan,
        Option<(Option<HostHandle>, Option<(HostHandle, u64)>, u32, u32, Option<AdoptedGuestRing>)>,
    ),
    FwdFault,
> {
    let cid = route.chan;
    if p.retired {
        Err(FwdFault::RetiredProc(route.proc))
    } else {
        match spec_channel(p, cid) {
            None => Err(FwdFault::UnknownVchid { gpu: route.gpu, vchid: route.vchid }),
            Some(c) => {
                let cgpu = c.gpu;
                let channel = handles_of(c);
                let replay = if channel is Some {
                    spec_object_of(c, class)
                } else {
                    None
                };
                if !p.isolates@.contains(cgpu) {
                    Err(spec_missing_isolate(p, cgpu))
                } else if channel is None && c.vas_pdb is None {
                    Err(FwdFault::NoVas(cid))
                } else if channel is None && spec_vas(p, cgpu, c.vas_pdb->0) is None {
                    Err(FwdFault::UnknownPdb { gpu: cgpu, pdb: c.vas_pdb->0 })
                } else {
                    let host_vas = if channel is None {
                        spec_vas(p, cgpu, c.vas_pdb->0)->0.host_vas
                    } else {
                        None
                    };
                    let plan = EngineObjectPlan {
                        proc: route.proc,
                        chan: cid,
                        gpu: route.gpu,
                        cgpu,
                        vchid: route.vchid,
                        engine: route.engine,
                        class,
                        vas_pdb: c.vas_pdb,
                        channel,
                        replay,
                    };
                    if replay is Some {
                        Ok((plan, None))
                    } else {
                        let adopt = if channel is None {
                            spec_adopted_guest_ring(p, c, cgpu)
                        } else {
                            None
                        };
                        Ok((plan, Some((host_vas, channel, c.engine, class, adopt))))
                    }
                }
            },
        }
    }
}

/// Whether `v` is the engine-object verb with these fields and parameters `params`.
pub open spec fn engine_verb_is(
    v: Option<Verb>,
    hv: Option<HostHandle>,
    ch: Option<(HostHandle, u64)>,
    eng: u32,
    cls: u32,
    adopt: Option<AdoptedGuestRing>,
    params: Seq<u8>,
) -> bool {
    match v {
        Some(Verb::EngineObject { host_vas, channel, engine, class, params: q, adopt: a }) => {
            host_vas == hv && channel == ch && engine == eng && class == cls && a == adopt && q@
                == params
        },
        _ => false,
    }
}

/// Plan allocating an engine object of class `class` with the guest's parameters
/// `params` (see [`spec_plan_engine_object`]).
pub fn plan_engine_object(
    p: &ProcView,
    route: &EngineObjectRoute,
    class: u32,
    params: &Vec<u8>,
) -> (r: Result<Planned<EngineObjectPlan>, FwdFault>)
    ensures
        match spec_plan_engine_object(*p, *route, class) {
            Ok((plan, None)) => r == Ok::<Planned<EngineObjectPlan>, FwdFault>(
                Planned { plan, verbs: None },
            ),
            Ok((plan, Some((hv, ch, eng, cls, adopt)))) => r matches Ok(planned) && (planned.plan
                == plan && engine_verb_is(planned.verbs, hv, ch, eng, cls, adopt, params@)),
            Err(f) => r == Err::<Planned<EngineObjectPlan>, FwdFault>(f),
        },
{
    let cid = route.chan;
    if p.retired {
        return Err(FwdFault::RetiredProc(route.proc));
    }
    let c = match p.channel(cid) {
        Some(c) => c,
        None => {
            return Err(FwdFault::UnknownVchid { gpu: route.gpu, vchid: route.vchid });
        },
    };
    let cgpu = c.gpu;
    if !holds(&p.isolates, cgpu) {
        return Err(missing_isolate(p, cgpu));
    }
    let channel = match (c.host_channel, c.host_token) {
        (Some(h), Some(t)) => Some((h, t)),
        _ => None,
    };
    let replay = if channel.is_some() {
        object_of(c, class)
    } else {
        None
    };
    let host_vas = if channel.is_none() {
        let pdb = match c.vas_pdb {
            Some(pdb) => pdb,
            None => {
                return Err(FwdFault::NoVas(cid));
            },
        };
        match p.vas(cgpu, pdb) {
            Some(v) => v.host_vas,
            None => {
                return Err(FwdFault::UnknownPdb { gpu: cgpu, pdb });
            },
        }
    } else {
        None
    };
    let plan = EngineObjectPlan {
        proc: route.proc,
        chan: cid,
        gpu: route.gpu,
        cgpu,
        vchid: route.vchid,
        engine: route.engine,
        class,
        vas_pdb: c.vas_pdb,
        channel,
        replay,
    };
    let verbs = if replay.is_some() {
        None
    } else {
        let adopt = if channel.is_none() {
            adopted_guest_ring(p, c, cgpu)
        } else {
            None
        };
        Some(
            Verb::EngineObject {
                host_vas,
                channel,
                engine: c.engine,
                class,
                params: params.clone(),
                adopt,
            },
        )
    };
    Ok(Planned { plan, verbs })
}


/// How far adopting what a plan's host work materialized gets before it refuses, with
/// the staleness it refuses for: `(0, Some(_))` before any state changed; `(1, Some(_))`
/// after adopting a fresh host address space, refusing on the channel's handles;
/// `(2, None)` when both are adopted. The process must still be the planner and live, the
/// doorbell route must still map `(gpu, vchid)` to this channel, and the channel must
/// exist; a fresh host address space needs the address space to exist without one; fresh
/// channel handles need the channel to have none, and without them the channel's handles
/// must still be the plan's.
pub open spec fn adopt_stage(
    p: ProcView,
    a: Adoption,
    fresh_vas: Option<HostHandle>,
    fresh_chan: Option<(HostHandle, u64)>,
    routed: Option<(u32, u32)>,
) -> (nat, Option<Stale>) {
    if p.retired || p.id != a.proc {
        (0, Some(Stale::Proc(a.proc)))
    } else if routed != Some((a.proc, a.chan)) {
        (0, Some(Stale::Route { gpu: a.gpu, vchid: a.vchid }))
    } else {
        match spec_channel(p, a.chan) {
            None => (0, Some(Stale::Channel(a.chan))),
            Some(c) => if fresh_vas is Some && spec_vas(p, a.cgpu, a.vas_pdb->0) is None {
                (0, Some(Stale::Vas { gpu: a.cgpu, pdb: a.vas_pdb->0 }))
            } else if fresh_vas is Some && spec_vas(p, a.cgpu, a.vas_pdb->0)->0.host_vas is Some {
                (0, Some(Stale::Rebound))
            } else if fresh_chan is Some && c.host_channel is Some {
                (1, Some(Stale::Rebound))
            } else if fresh_chan is None && handles_of(c) != a.channel {
                (1, Some(Stale::Rebound))
            } else {
                (2, None)
            },
        }
    }
}

/// The identities a commit that adopts a materialized channel re-validates against.
#[derive(Debug, Clone, Copy, PartialEq, Eq)]
pub struct Adoption {
    /// The planning process.
    pub proc: u32,
    /// The channel.
    pub chan: u32,
    /// The GPU the route was keyed on.
    pub gpu: u32,
    /// The vChid the route was keyed on.
    pub vchid: u32,
    /// The channel's own target GPU.
    pub cgpu: u32,
    /// The channel's declared address space.
    pub vas_pdb: Option<u64>,
    /// The channel's host handles as seen at plan time.
    pub channel: Option<(HostHandle, u64)>,
}

/// The adoption identities of an engine-object plan.
pub open spec fn engine_adoption(plan: EngineObjectPlan) -> Adoption {
    Adoption {
        proc: plan.proc,
        chan: plan.chan,
        gpu: plan.gpu,
        vchid: plan.vchid,
        cgpu: plan.cgpu,
        vas_pdb: plan.vas_pdb,
        channel: plan.channel,
    }
}

/// How far an engine-object commit gets: the adoption stages, then `(2, Some(Rebound))`
/// when a fresh object's class is already taken, or `(3, None)` when it adopts everything.
pub open spec fn engine_commit_stage(
    p: ProcView,
    plan: EngineObjectPlan,
    fresh_vas: Option<HostHandle>,
    fresh_chan: Option<(HostHandle, u64)>,
    routed: Option<(u32, u32)>,
) -> (nat, Option<Stale>) {
    let (st, stale) = adopt_stage(p, engine_adoption(plan), fresh_vas, fresh_chan, routed);
    if st < 2 {
        (st, stale)
    } else if plan.replay is None && spec_object_of(spec_channel(p, plan.chan)->0, plan.class)
        is Some {
        (2, Some(Stale::Rebound))
    } else {
        (3, None)
    }
}

/// A channel's host channel, of its handle pair.
pub open spec fn pair_handle(x: (HostHandle, u64)) -> HostHandle {
    x.0
}

/// A channel's doorbell token, of its handle pair.
pub open spec fn pair_token(x: (HostHandle, u64)) -> u64 {
    x.1
}

/// The objects an engine-object commit releases if it refuses: the object it allocated,
/// then any channel and host address space it materialized.
pub open spec fn engine_orphans(
    plan: EngineObjectPlan,
    fresh_vas: Option<HostHandle>,
    fresh_chan: Option<(HostHandle, u64)>,
    object: HostHandle,
) -> Seq<HostHandle> {
    let a: Seq<HostHandle> = if plan.replay is None { seq![object] } else { Seq::empty() };
    a + materialized(fresh_vas, fresh_chan)
}

/// The channel and host address space a work materialized, in release order.
pub open spec fn materialized(fresh_vas: Option<HostHandle>, fresh_chan: Option<(HostHandle, u64)>) -> Seq<
    HostHandle,
> {
    let b: Seq<HostHandle> = if fresh_chan is Some {
        seq![pair_handle(fresh_chan->0)]
    } else {
        Seq::empty()
    };
    let c: Seq<HostHandle> = if fresh_vas is Some { seq![fresh_vas->0] } else { Seq::empty() };
    b + c
}

/// Whether `new` is `old` with, at most: address space `kv` given host address space
/// `vas` (when `Some`); channel `kc` given host handles `handles` (when `Some`) and the
/// engine object `added` (when `Some`); `sched` added to the scheduled channels (when
/// `Some` and not already there); and the last token set to `token` (when `Some`).
pub open spec fn commit_state(
    old: ProcView,
    new: ProcView,
    kv: int,
    vas: Option<HostHandle>,
    kc: int,
    handles: Option<(HostHandle, u64)>,
    added: Option<(u32, HostHandle)>,
    sched: Option<u32>,
    token: Option<u64>,
) -> bool {
    &&& new.id == old.id && new.system == old.system && new.retired == old.retired
    &&& new.arenas == old.arenas && new.isolates == old.isolates && new.wanted == old.wanted
    &&& new.requested == old.requested
    &&& new.scheduled@ == (if sched is Some && !old.scheduled@.contains(sched->0) {
        old.scheduled@.push(sched->0)
    } else {
        old.scheduled@
    })
    &&& new.last_token == (if token is Some { token } else { old.last_token })
    &&& new.vases@.len() == old.vases@.len()
    &&& forall|j: int|
        0 <= j < old.vases@.len() && !(vas is Some && j == kv) ==> new.vases@[j]
            == old.vases@[j]
    &&& vas is Some ==> {
        &&& 0 <= kv < old.vases@.len()
        &&& new.vases@[kv].gpu == old.vases@[kv].gpu && new.vases@[kv].pdb == old.vases@[kv].pdb
        &&& new.vases@[kv].table == old.vases@[kv].table && new.vases@[kv].pins
            == old.vases@[kv].pins
        &&& new.vases@[kv].host_vas == vas
    }
    &&& new.channels@.len() == old.channels@.len()
    &&& forall|j: int|
        0 <= j < old.channels@.len() && j != kc ==> new.channels@[j] == old.channels@[j]
    &&& 0 <= kc < old.channels@.len() ==> {
        let o = old.channels@[kc];
        let n = new.channels@[kc];
        &&& n.chan == o.chan && n.gpu == o.gpu && n.vas_pdb == o.vas_pdb && n.engine == o.engine
        &&& n.ring == o.ring && n.userd_fb == o.userd_fb
        &&& n.host_channel == (if handles is Some {
            Some(pair_handle(handles->0))
        } else {
            o.host_channel
        })
        &&& n.host_token == (if handles is Some {
            Some(pair_token(handles->0))
        } else {
            o.host_token
        })
        &&& n.engine_objects@ == (if added is Some {
            o.engine_objects@.push(added->0)
        } else {
            o.engine_objects@
        })
    }
}

/// Adopt what a plan's host work materialized (see [`adopt_stage`]): a fresh host address
/// space, then fresh channel handles. On success the channel's position is returned with
/// `free`; on refusal `free` is what the refusal releases.
fn adopt_materialized(
    p: &mut ProcView,
    a: &Adoption,
    fresh_vas: Option<HostHandle>,
    fresh_chan: Option<(HostHandle, u64)>,
    routed: Option<(u32, u32)>,
    free: Vec<HostHandle>,
) -> (r: Result<(usize, Vec<HostHandle>), Refusal>)
    requires
        fresh_vas is Some ==> a.vas_pdb is Some,
    ensures
        same_keys(*old(p), *final(p)),
        ({
            let (stage, stale) = adopt_stage(*old(p), *a, fresh_vas, fresh_chan, routed);
            let kv = vas_pos(old(p).vases@, a.cgpu, a.vas_pdb->0, 0)->0;
            let kc = chan_pos(old(p).channels@, a.chan, 0);
            &&& match stale {
                Some(what) => r matches Err(f) && refused(
                    f,
                    FwdFault::Stale(what),
                    Seq::empty(),
                    free@,
                    what == Stale::Rebound,
                ),
                None => r matches Ok((k, back)) && kc == Some(k as int) && back@ == free@,
            }
            &&& stage == 0 ==> *final(p) == *old(p)
            &&& stage > 0 ==> commit_state(
                *old(p),
                *final(p),
                kv,
                fresh_vas,
                kc->0,
                if stage >= 2 { fresh_chan } else { None },
                None,
                None,
                None,
            )
        }),
{
    if p.retired || p.id != a.proc {
        return Err(
            Refusal {
                fault: FwdFault::Stale(Stale::Proc(a.proc)),
                orphans: Orphans { unmap: Vec::new(), free },
                retry: false,
            },
        );
    }
    let route_ok = match routed {
        Some((rp, rc)) => rp == a.proc && rc == a.chan,
        None => false,
    };
    if !route_ok {
        return Err(
            Refusal {
                fault: FwdFault::Stale(Stale::Route { gpu: a.gpu, vchid: a.vchid }),
                orphans: Orphans { unmap: Vec::new(), free },
                retry: false,
            },
        );
    }
    let kc = match p.channel_position(a.chan) {
        Some(k) => k,
        None => {
            return Err(
                Refusal {
                    fault: FwdFault::Stale(Stale::Channel(a.chan)),
                    orphans: Orphans { unmap: Vec::new(), free },
                    retry: false,
                },
            );
        },
    };
    let ghost p0 = *p;
    if let Some(fresh) = fresh_vas {
        let pdb = match a.vas_pdb {
            Some(pdb) => pdb,
            None => {
                proof {
                    assert(false);
                }
                0
            },
        };
        let kv = match p.vas_position(a.cgpu, pdb) {
            Some(k) => k,
            None => {
                return Err(
                    Refusal {
                        fault: FwdFault::Stale(Stale::Vas { gpu: a.cgpu, pdb }),
                        orphans: Orphans { unmap: Vec::new(), free },
                        retry: false,
                    },
                );
            },
        };
        if p.vases[kv].host_vas.is_some() {
            return Err(
                Refusal {
                    fault: FwdFault::Stale(Stale::Rebound),
                    orphans: Orphans { unmap: Vec::new(), free },
                    retry: true,
                },
            );
        }
        let mut v = p.vases.remove(kv);
        v.host_vas = Some(fresh);
        p.vases.insert(kv, v);
        proof {
            assert(p.vases@ =~= p0.vases@.update(kv as int, v));
        }
    }
    let ghost p1 = *p;
    let mut c = p.channels.remove(kc);
    match fresh_chan {
        Some((hc, ht)) => {
            if c.host_channel.is_some() {
                p.channels.insert(kc, c);
                proof {
                    assert(p.channels@ =~= p1.channels@);
                }
                return Err(
                    Refusal {
                        fault: FwdFault::Stale(Stale::Rebound),
                        orphans: Orphans { unmap: Vec::new(), free },
                        retry: true,
                    },
                );
            }
            c.host_channel = Some(hc);
            c.host_token = Some(ht);
        },
        None => {
            let same = match (c.host_channel, c.host_token, a.channel) {
                (Some(h), Some(t), Some((ph, pt))) => h == ph && t == pt,
                (Some(_), Some(_), None) => false,
                (_, _, Some(_)) => false,
                _ => true,
            };
            if !same {
                p.channels.insert(kc, c);
                proof {
                    assert(p.channels@ =~= p1.channels@);
                }
                return Err(
                    Refusal {
                        fault: FwdFault::Stale(Stale::Rebound),
                        orphans: Orphans { unmap: Vec::new(), free },
                        retry: true,
                    },
                );
            }
        },
    }
    p.channels.insert(kc, c);
    Ok((kc, free))
}

/// Commit an engine-object allocation: adopt what the work materialized (see
/// [`adopt_stage`], against what the spine's doorbell route map holds for the plan's GPU
/// and vChid now), then record the fresh object under its class — and a later refusal leaves
/// what an earlier stage adopted adopted.
pub fn commit_engine_object(
    spine: &SpineView,
    p: &mut ProcView,
    plan: &EngineObjectPlan,
    reply: Option<VerbReply>,
) -> (r: Result<EngineObjectForwarded, Refusal>)
    requires
        plan.replay is Some ==> reply is None,
        plan.replay is None ==> reply matches Some(VerbReply::EngineObject { .. }),
        reply matches Some(VerbReply::EngineObject { host_vas: Some(_), .. }) ==> plan.vas_pdb
            is Some,
    ensures
        same_keys(*old(p), *final(p)),
        ({
            let (fresh_vas, fresh_chan, object) = match reply {
                Some(VerbReply::EngineObject { host_vas, channel, object }) => (
                    host_vas,
                    channel,
                    object,
                ),
                _ => (None, None, plan.replay->0),
            };
            let (stage, stale) = engine_commit_stage(
                *old(p),
                *plan,
                fresh_vas,
                fresh_chan,
                lookup(spine.by_vchid@, (plan.gpu, plan.vchid)),
            );
            let kv = vas_pos(old(p).vases@, plan.cgpu, plan.vas_pdb->0, 0)->0;
            let kc = chan_pos(old(p).channels@, plan.chan, 0)->0;
            &&& match stale {
                Some(what) => r matches Err(f) && refused(
                    f,
                    FwdFault::Stale(what),
                    Seq::empty(),
                    engine_orphans(*plan, fresh_vas, fresh_chan, object),
                    what == Stale::Rebound,
                ),
                None => r == Ok::<EngineObjectForwarded, Refusal>(
                    EngineObjectForwarded {
                        engine: plan.engine,
                        host_object: object,
                        materialized_channel: fresh_chan is Some,
                        reused: plan.replay is Some,
                    },
                ),
            }
            &&& stage == 0 ==> *final(p) == *old(p)
            &&& stage > 0 ==> commit_state(
                *old(p),
                *final(p),
                kv,
                fresh_vas,
                kc,
                if stage >= 2 { fresh_chan } else { None },
                if stage == 3 && plan.replay is None { Some((plan.class, object)) } else { None },
                None,
                None,
            )
        }),
{
    let routed = spine.route(plan.gpu, plan.vchid);
    let (fresh_vas, fresh_chan, object) = match reply {
        Some(VerbReply::EngineObject { host_vas, channel, object }) => (host_vas, channel, object),
        _ => match plan.replay {
            Some(o) => (None, None, o),
            None => {
                proof {
                    assert(false);
                }
                return Err(
                    Refusal {
                        fault: FwdFault::SystemDataPlane,
                        orphans: Orphans { unmap: Vec::new(), free: Vec::new() },
                        retry: false,
                    },
                );
            },
        },
    };
    let mut free: Vec<HostHandle> = Vec::new();
    if plan.replay.is_none() {
        free.push(object);
    }
    if let Some((h, _)) = fresh_chan {
        free.push(h);
    }
    if let Some(h) = fresh_vas {
        free.push(h);
    }
    proof {
        assert(free@ =~= engine_orphans(*plan, fresh_vas, fresh_chan, object));
    }
    let a = Adoption {
        proc: plan.proc,
        chan: plan.chan,
        gpu: plan.gpu,
        vchid: plan.vchid,
        cgpu: plan.cgpu,
        vas_pdb: plan.vas_pdb,
        channel: plan.channel,
    };
    let ghost p0 = *p;
    proof {
        lemma_chan_pos(p0.channels@, plan.chan, 0);
    }
    let (kc, free) = match adopt_materialized(p, &a, fresh_vas, fresh_chan, routed, free) {
        Ok(x) => x,
        Err(f) => {
            return Err(f);
        },
    };
    if plan.replay.is_none() {
        let ghost p1 = *p;
        let mut c = p.channels.remove(kc);
        if object_of(&c, plan.class).is_some() {
            p.channels.insert(kc, c);
            proof {
                assert(p.channels@ =~= p1.channels@);
            }
            return Err(
                Refusal {
                    fault: FwdFault::Stale(Stale::Rebound),
                    orphans: Orphans { unmap: Vec::new(), free },
                    retry: true,
                },
            );
        }
        c.engine_objects.push((plan.class, object));
        p.channels.insert(kc, c);
        proof {
            assert(p.channels@ =~= p1.channels@.update(kc as int, c));
        }
    }
    Ok(
        EngineObjectForwarded {
            engine: plan.engine,
            host_object: object,
            materialized_channel: fresh_chan.is_some(),
            reused: plan.replay.is_some(),
        },
    )
}

/// Two channel lists with the same ids, position by position, find the same position for
/// every id.
pub proof fn lemma_chan_pos_same_ids(a: Seq<ChannelView>, b: Seq<ChannelView>, chan: u32, i: int)
    requires
        a.len() == b.len(),
        forall|j: int| 0 <= j < a.len() ==> a[j].chan == b[j].chan,
    ensures
        chan_pos(a, chan, i) == chan_pos(b, chan, i),
    decreases a.len() - i,
{
    if 0 <= i < a.len() {
        lemma_chan_pos_same_ids(a, b, chan, i + 1);
    }
}

/// An object appended under a class no earlier object has is what a lookup of that class
/// finds.
pub proof fn lemma_object_appended(s: Seq<(u32, HostHandle)>, class: u32, object: HostHandle, i: int)
    requires
        0 <= i <= s.len(),
        object_from(s, class, i) is None,
    ensures
        object_from(s.push((class, object)), class, i) == Some(object),
    decreases s.len() - i,
{
    let t = s.push((class, object));
    if i < s.len() {
        assert(t[i] == s[i]);
        lemma_object_appended(s, class, object, i + 1);
    } else {
        assert(t[i] == (class, object));
    }
}

/// An allocated class is answered from core state: once an engine object has been
/// committed on a channel (its channel materialized by the same work where it had no
/// host handles), planning that class on that channel again replays the object with no
/// host work.
pub proof fn law_allocated_class_is_replayed(
    old: ProcView,
    new: ProcView,
    route: EngineObjectRoute,
    class: u32,
    fresh_vas: Option<HostHandle>,
    fresh_chan: Option<(HostHandle, u64)>,
    object: HostHandle,
    routed: Option<(u32, u32)>,
)
    requires
        spec_plan_engine_object(old, route, class) matches Ok((plan, Some(_))) && (plan.channel
            is None ==> fresh_chan is Some) && engine_commit_stage(
            old,
            plan,
            fresh_vas,
            fresh_chan,
            routed,
        ) == (3nat, None::<Stale>) && commit_state(
            old,
            new,
            vas_pos(old.vases@, plan.cgpu, plan.vas_pdb->0, 0)->0,
            fresh_vas,
            chan_pos(old.channels@, plan.chan, 0)->0,
            fresh_chan,
            Some((class, object)),
            None,
            None,
        ),
    ensures
        spec_plan_engine_object(new, route, class) matches Ok((again, None)) && again.replay
            == Some(object),
{
    let kc = chan_pos(old.channels@, route.chan, 0)->0;
    lemma_chan_pos(old.channels@, route.chan, 0);
    assert forall|j: int| 0 <= j < old.channels@.len() implies old.channels@[j].chan
        == new.channels@[j].chan by {}
    lemma_chan_pos_same_ids(old.channels@, new.channels@, route.chan, 0);
    let o = old.channels@[kc];
    let n = new.channels@[kc];
    assert(object_from(o.engine_objects@, class, 0) is None);
    lemma_object_appended(o.engine_objects@, class, object, 0);
    assert(n.engine_objects@ == o.engine_objects@.push((class, object)));
    assert(handles_of(n) is Some);
}


/// What one doorbell commit produced.
#[derive(Debug, Clone, Copy, PartialEq, Eq)]
pub struct DoorbellOutcome {
    /// The owning process.
    pub proc: u32,
    /// The channel.
    pub chan: u32,
    /// The host doorbell token the channel now rings with.
    pub host_token: u64,
    /// Whether this doorbell scheduled the channel.
    pub scheduled_now: bool,
    /// The channel's engine.
    pub engine: u32,
}

/// The adoption identities of a doorbell plan.
pub open spec fn doorbell_adoption(plan: DoorbellPlan) -> Adoption {
    Adoption {
        proc: plan.proc,
        chan: plan.chan,
        gpu: plan.gpu,
        vchid: plan.vchid,
        cgpu: plan.cgpu,
        vas_pdb: plan.vas_pdb,
        channel: plan.channel,
    }
}

/// Commit a rung doorbell: adopt what the work materialized (see [`adopt_stage`], against
/// what the spine's doorbell route map holds for the plan's GPU and vChid now), then
/// record the channel as scheduled where the work scheduled it, and the token as the
/// process's last.
pub fn commit_doorbell(
    spine: &SpineView,
    p: &mut ProcView,
    plan: &DoorbellPlan,
    reply: VerbReply,
) -> (r: Result<DoorbellOutcome, Refusal>)
    requires
        reply matches VerbReply::Doorbell { host_vas, channel, .. } && (host_vas is Some
            ==> plan.vas_pdb is Some) && (plan.channel is None ==> channel is Some),
    ensures
        same_keys(*old(p), *final(p)),
        ({
            let (fresh_vas, fresh_chan, scheduled) = match reply {
                VerbReply::Doorbell { host_vas, channel, scheduled } => (
                    host_vas,
                    channel,
                    scheduled,
                ),
                _ => (None, None, false),
            };
            let (stage, stale) = adopt_stage(
                *old(p),
                doorbell_adoption(*plan),
                fresh_vas,
                fresh_chan,
                lookup(spine.by_vchid@, (plan.gpu, plan.vchid)),
            );
            let kv = vas_pos(old(p).vases@, plan.cgpu, plan.vas_pdb->0, 0)->0;
            let kc = chan_pos(old(p).channels@, plan.chan, 0)->0;
            &&& match stale {
                Some(what) => r matches Err(f) && refused(
                    f,
                    FwdFault::Stale(what),
                    Seq::empty(),
                    materialized(fresh_vas, fresh_chan),
                    what == Stale::Rebound,
                ),
                None => r == Ok::<DoorbellOutcome, Refusal>(
                    DoorbellOutcome {
                        proc: plan.proc,
                        chan: plan.chan,
                        host_token: if fresh_chan is Some {
                            pair_token(fresh_chan->0)
                        } else {
                            pair_token(plan.channel->0)
                        },
                        scheduled_now: scheduled,
                        engine: old(p).channels@[kc].engine,
                    },
                ),
            }
            &&& stage == 0 ==> *final(p) == *old(p)
            &&& stage == 1 ==> commit_state(
                *old(p),
                *final(p),
                kv,
                fresh_vas,
                kc,
                None,
                None,
                None,
                None,
            )
            &&& stage == 2 ==> commit_state(
                *old(p),
                *final(p),
                kv,
                fresh_vas,
                kc,
                fresh_chan,
                None,
                if scheduled { Some(plan.chan) } else { None },
                Some(plan.token),
            )
        }),
{
    let routed = spine.route(plan.gpu, plan.vchid);
    let (fresh_vas, fresh_chan, scheduled) = match reply {
        VerbReply::Doorbell { host_vas, channel, scheduled } => (host_vas, channel, scheduled),
        _ => {
            proof {
                assert(false);
            }
            (None, None, false)
        },
    };
    let mut free: Vec<HostHandle> = Vec::new();
    if let Some((h, _)) = fresh_chan {
        free.push(h);
    }
    if let Some(h) = fresh_vas {
        free.push(h);
    }
    proof {
        assert(free@ =~= materialized(fresh_vas, fresh_chan));
    }
    let a = Adoption {
        proc: plan.proc,
        chan: plan.chan,
        gpu: plan.gpu,
        vchid: plan.vchid,
        cgpu: plan.cgpu,
        vas_pdb: plan.vas_pdb,
        channel: plan.channel,
    };
    let ghost p0 = *p;
    proof {
        lemma_chan_pos(p0.channels@, plan.chan, 0);
    }
    let (kc, _free) = match adopt_materialized(p, &a, fresh_vas, fresh_chan, routed, free) {
        Ok(x) => x,
        Err(f) => {
            return Err(f);
        },
    };
    if scheduled && !holds(&p.scheduled, plan.chan) {
        p.scheduled.push(plan.chan);
    }
    p.last_token = Some(plan.token);
    let host_token = match p.channels[kc].host_token {
        Some(t) => t,
        None => {
            proof {
                assert(false);
            }
            0
        },
    };
    Ok(
        DoorbellOutcome {
            proc: plan.proc,
            chan: plan.chan,
            host_token,
            scheduled_now: scheduled,
            engine: p.channels[kc].engine,
        },
    )
}


/// A doorbell commit is remembered: after a doorbell that scheduled its channel (and
/// materialized it, where it had no host handles) has been committed, the next doorbell
/// on that channel plans no scheduling, and rings the handles the commit adopted.
pub proof fn law_committed_doorbell_is_remembered(
    old: ProcView,
    new: ProcView,
    route: DoorbellRoute,
    ws: Seq<u64>,
    fresh_vas: Option<HostHandle>,
    fresh_chan: Option<(HostHandle, u64)>,
    routed: Option<(u32, u32)>,
    next: Seq<u64>,
)
    requires
        spec_plan_doorbell(old, route, ws) matches Ok(planned) && (planned.plan.channel is None
            ==> fresh_chan is Some) && adopt_stage(
            old,
            doorbell_adoption(planned.plan),
            fresh_vas,
            fresh_chan,
            routed,
        ) == (2nat, None::<Stale>) && commit_state(
            old,
            new,
            vas_pos(old.vases@, planned.plan.cgpu, planned.plan.vas_pdb->0, 0)->0,
            fresh_vas,
            chan_pos(old.channels@, route.chan, 0)->0,
            fresh_chan,
            None,
            Some(route.chan),
            Some(route.token),
        ),
    ensures
        spec_plan_doorbell(new, route, next) matches Ok(again) ==> {
            &&& !again.plan.schedule
            &&& again.plan.channel == (if fresh_chan is Some {
                fresh_chan
            } else {
                spec_plan_doorbell(old, route, ws)->Ok_0.plan.channel
            })
        },
{
    let kc = chan_pos(old.channels@, route.chan, 0)->0;
    lemma_chan_pos(old.channels@, route.chan, 0);
    assert forall|j: int| 0 <= j < old.channels@.len() implies old.channels@[j].chan
        == new.channels@[j].chan by {}
    lemma_chan_pos_same_ids(old.channels@, new.channels@, route.chan, 0);
    if !old.scheduled@.contains(route.chan) {
        assert(new.scheduled@[new.scheduled@.len() - 1] == route.chan);
    }
    assert(new.scheduled@.contains(route.chan));
}

} // verus!
