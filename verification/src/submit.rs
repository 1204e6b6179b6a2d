//! **Controls and partitioned copies: the plans and commits that materialize nothing.** A
//! control runs on a host object through the process's isolate and hands its answer back
//! into the guest's payload; a partitioned copy runs in the channel's host address space,
//! which must already exist — an empty one is never invented to point an engine at.
use crate::forwarding::{FwdFault, HostHandle, Stale};
use crate::partition::{CeSpan, CeSubCopy};
use crate::plans::{
    chan_pos, holds, missing_isolate, spec_channel, spec_missing_isolate, spec_vas, Orphans,
    Planned, ProcView, Refusal, Verb, VerbReply,
};
use vstd::prelude::*;

verus! {

/// What [`plan_control`] hands its commit.
#[derive(Debug, Clone, Copy, PartialEq, Eq)]
pub struct ControlPlan {
    /// The owning process.
    pub proc: u32,
    /// The target GPU.
    pub gpu: u32,
    /// The host object.
    pub obj: HostHandle,
    /// The control.
    pub cmd: u32,
}

/// The plan of a forwarded control: the process must be live and have an isolate on the
/// target GPU. The control and the guest's payload travel unchanged.
pub open spec fn spec_plan_control(p: ProcView, gpu: u32, obj: HostHandle, cmd: u32) -> Result<
    ControlPlan,
    FwdFault,
> {
    if p.retired {
        Err(FwdFault::RetiredProc(p.id))
    } else if !p.isolates@.contains(gpu) {
        Err(spec_missing_isolate(p, gpu))
    } else {
        Ok(ControlPlan { proc: p.id, gpu, obj, cmd })
    }
}

/// Plan forwarding control `cmd` on `obj` with the guest's `payload` (see
/// [`spec_plan_control`]).
pub fn plan_control(p: &ProcView, gpu: u32, obj: HostHandle, cmd: u32, payload: &Vec<u8>) -> (r:
    Result<Planned<ControlPlan>, FwdFault>)
    ensures
        match spec_plan_control(*p, gpu, obj, cmd) {
            Ok(plan) => r matches Ok(planned) && planned.plan == plan && (planned.verbs matches Some(
                Verb::Control { obj: o, cmd: c, payload: q },
            ) && o == obj && c == cmd && q@ == payload@),
            Err(f) => r == Err::<Planned<ControlPlan>, FwdFault>(f),
        },
{
    if p.retired {
        return Err(FwdFault::RetiredProc(p.id));
    }
    if !holds(&p.isolates, gpu) {
        return Err(missing_isolate(p, gpu));
    }
    Ok(
        Planned {
            plan: ControlPlan { proc: p.id, gpu, obj, cmd },
            verbs: Some(Verb::Control { obj, cmd, payload: payload.clone() }),
        },
    )
}

/// The guest's payload after a control answered `out`: as much of the answer as fits,
/// over the front of what the guest sent.
pub open spec fn answered(payload: Seq<u8>, out: Seq<u8>) -> Seq<u8> {
    let n = if payload.len() < out.len() { payload.len() } else { out.len() };
    out.subrange(0, n as int) + payload.subrange(n as int, payload.len() as int)
}

/// Commit a control: the process must still be the planner and live, and still have the
/// isolate; then the answer is copied into the guest's payload. A refusal has nothing to
/// release.
pub fn commit_control(p: &ProcView, plan: &ControlPlan, reply: VerbReply, payload: &mut Vec<u8>) -> (r:
    Result<(), Refusal>)
    requires
        reply is Control,
    ensures
        ({
            let out = match reply {
                VerbReply::Control { payload: out } => out@,
                _ => Seq::empty(),
            };
            if p.retired || p.id != plan.proc {
                r matches Err(f) && f.fault == FwdFault::Stale(Stale::Proc(plan.proc))
                    && f.orphans.unmap@.len() == 0 && f.orphans.free@.len() == 0 && !f.retry
                    && final(payload)@ == old(payload)@
            } else if !p.isolates@.contains(plan.gpu) {
                r matches Err(f) && f.fault == FwdFault::Stale(
                    Stale::Target { proc: plan.proc, gpu: plan.gpu },
                ) && f.orphans.unmap@.len() == 0 && f.orphans.free@.len() == 0 && !f.retry
                    && final(payload)@ == old(payload)@
            } else {
                r is Ok && final(payload)@ == answered(old(payload)@, out)
            }
        }),
{
    let out = match reply {
        VerbReply::Control { payload: out } => out,
        _ => {
            proof {
                assert(false);
            }
            Vec::new()
        },
    };
    if p.retired || p.id != plan.proc {
        return Err(
            Refusal {
                fault: FwdFault::Stale(Stale::Proc(plan.proc)),
                orphans: Orphans { unmap: Vec::new(), free: Vec::new() },
                retry: false,
            },
        );
    }
    if !holds(&p.isolates, plan.gpu) {
        return Err(
            Refusal {
                fault: FwdFault::Stale(Stale::Target { proc: plan.proc, gpu: plan.gpu }),
                orphans: Orphans { unmap: Vec::new(), free: Vec::new() },
                retry: false,
            },
        );
    }
    let n = if payload.len() < out.len() {
        payload.len()
    } else {
        out.len()
    };
    let ghost before = payload@;
    let mut i: usize = 0;
    while i < n
        invariant
            i <= n,
            n <= payload.len(),
            n <= out.len(),
            n == (if before.len() < out@.len() { before.len() } else { out@.len() }),
            payload@.len() == before.len(),
            forall|j: int| 0 <= j < i ==> payload@[j] == out@[j],
            forall|j: int| i <= j < before.len() ==> payload@[j] == before[j],
        decreases n - i,
    {
        payload.set(i, out[i]);
        i = i + 1;
    }
    proof {
        assert(payload@ =~= answered(before, out@));
    }
    Ok(())
}

/// The host work of a partitioned copy in host address space `vas`: the sub-copies in
/// order, or nothing for an empty partition.
pub fn plan_ce_split(vas: HostHandle, spans: &Vec<CeSpan>) -> (r: Option<Verb>)
    ensures
        spans@.len() == 0 ==> r is None,
        spans@.len() > 0 ==> (r matches Some(Verb::CeSplit { vas: v, subs }) && v == vas && subs@
            == spans@.map_values(|s: CeSpan| s.sub)),
{
    if spans.len() == 0 {
        return None;
    }
    let mut subs: Vec<CeSubCopy> = Vec::new();
    let mut i: usize = 0;
    while i < spans.len()
        invariant
            i <= spans.len(),
            subs@ == spans@.subrange(0, i as int).map_values(|s: CeSpan| s.sub),
        decreases spans.len() - i,
    {
        subs.push(spans[i].sub);
        i = i + 1;
        proof {
            assert(spans@.subrange(0, i as int).map_values(|s: CeSpan| s.sub) =~= spans@.subrange(
                0,
                (i - 1) as int,
            ).map_values(|s: CeSpan| s.sub).push(spans@[i - 1].sub));
        }
    }
    proof {
        assert(spans@.subrange(0, spans@.len() as int) =~= spans@);
    }
    Some(Verb::CeSplit { vas, subs })
}

/// What [`plan_ce`] hands its commit.
#[derive(Debug, Clone, Copy, PartialEq, Eq)]
pub struct CePlan {
    /// The owning process.
    pub proc: u32,
    /// The channel.
    pub chan: u32,
    /// The channel's own target GPU.
    pub gpu: u32,
    /// The address space the copy runs in.
    pub pdb: Option<u64>,
    /// Its host address space.
    pub host_vas: Option<HostHandle>,
    /// How many sub-copies were planned.
    pub subs: usize,
}

/// The plan of running a partitioned copy on channel `cid`: the process must be live and
/// own the channel. An empty partition plans nothing. Otherwise the channel's GPU needs an
/// isolate, and the channel a declared address space that exists and has a host address
/// space.
pub open spec fn spec_plan_ce(p: ProcView, cid: u32, n: nat) -> Result<CePlan, FwdFault> {
    if p.retired {
        Err(FwdFault::RetiredProc(p.id))
    } else {
        match spec_channel(p, cid) {
            None => Err(FwdFault::UnknownChannel { proc: p.id, chan: cid }),
            Some(c) => if n == 0 {
                Ok(
                    CePlan {
                        proc: p.id,
                        chan: cid,
                        gpu: c.gpu,
                        pdb: c.vas_pdb,
                        host_vas: None,
                        subs: 0,
                    },
                )
            } else if !p.isolates@.contains(c.gpu) {
                Err(spec_missing_isolate(p, c.gpu))
            } else {
                match c.vas_pdb {
                    None => Err(FwdFault::NoVas(cid)),
                    Some(pdb) => match spec_vas(p, c.gpu, pdb) {
                        None => Err(FwdFault::UnknownPdb { gpu: c.gpu, pdb }),
                        Some(v) => match v.host_vas {
                            None => Err(FwdFault::NoHostVas { chan: cid, pdb }),
                            Some(h) => Ok(
                                CePlan {
                                    proc: p.id,
                                    chan: cid,
                                    gpu: c.gpu,
                                    pdb: Some(pdb),
                                    host_vas: Some(h),
                                    subs: n as usize,
                                },
                            ),
                        },
                    },
                }
            },
        }
    }
}

/// Plan running the partitioned copy `spans` on channel `cid` (see [`spec_plan_ce`]); the
/// host work is [`plan_ce_split`]'s.
pub fn plan_ce(p: &ProcView, cid: u32, spans: &Vec<CeSpan>) -> (r: Result<Planned<CePlan>, FwdFault>)
    ensures
        match spec_plan_ce(*p, cid, spans@.len()) {
            Ok(plan) => r matches Ok(planned) && planned.plan == plan && (spans@.len() == 0
                ==> planned.verbs is None) && (spans@.len() > 0 ==> (planned.verbs matches Some(
                Verb::CeSplit { vas, subs },
            ) && Some(vas) == plan.host_vas && subs@ == spans@.map_values(|s: CeSpan| s.sub))),
            Err(f) => r == Err::<Planned<CePlan>, FwdFault>(f),
        },
{
    if p.retired {
        return Err(FwdFault::RetiredProc(p.id));
    }
    let c = match p.channel(cid) {
        Some(c) => c,
        None => {
            return Err(FwdFault::UnknownChannel { proc: p.id, chan: cid });
        },
    };
    if spans.len() == 0 {
        return Ok(
            Planned {
                plan: CePlan {
                    proc: p.id,
                    chan: cid,
                    gpu: c.gpu,
                    pdb: c.vas_pdb,
                    host_vas: None,
                    subs: 0,
                },
                verbs: None,
            },
        );
    }
    if !holds(&p.isolates, c.gpu) {
        return Err(missing_isolate(p, c.gpu));
    }
    let pdb = match c.vas_pdb {
        Some(pdb) => pdb,
        None => {
            return Err(FwdFault::NoVas(cid));
        },
    };
    let v = match p.vas(c.gpu, pdb) {
        Some(v) => v,
        None => {
            return Err(FwdFault::UnknownPdb { gpu: c.gpu, pdb });
        },
    };
    let host_vas = match v.host_vas {
        Some(h) => h,
        None => {
            return Err(FwdFault::NoHostVas { chan: cid, pdb });
        },
    };
    let verbs = plan_ce_split(host_vas, spans);
    Ok(
        Planned {
            plan: CePlan {
                proc: p.id,
                chan: cid,
                gpu: c.gpu,
                pdb: Some(pdb),
                host_vas: Some(host_vas),
                subs: spans.len(),
            },
            verbs,
        },
    )
}

/// What one partitioned copy did: how many sub-copies each executor ran.
#[derive(Debug, Clone, Copy, PartialEq, Eq)]
pub struct CeForwarded {
    /// The owning process.
    pub proc: u32,
    /// The channel.
    pub chan: u32,
    /// Sub-copies the host copy engine ran.
    pub host_ce: usize,
    /// Sub-copies our executor ran.
    pub ours: usize,
}

impl CeForwarded {
    /// Whether any of the copy reached real hardware.
    pub fn reached_hardware(&self) -> (r: bool)
        ensures
            r == (self.host_ce > 0),
    {
        self.host_ce > 0
    }
}

/// Why a copy's commit refuses, if it does: the process must still be the planner and
/// live, the channel must exist, and the address space the copy ran in must still exist
/// with the same host address space.
pub open spec fn ce_commit_refusal(p: ProcView, plan: CePlan) -> Option<Stale> {
    if p.retired || p.id != plan.proc {
        Some(Stale::Proc(plan.proc))
    } else if chan_pos(p.channels@, plan.chan, 0) is None {
        Some(Stale::Channel(plan.chan))
    } else if plan.pdb is Some && plan.host_vas is Some && (spec_vas(p, plan.gpu, plan.pdb->0) is None
        || spec_vas(p, plan.gpu, plan.pdb->0)->0.host_vas != plan.host_vas) {
        Some(Stale::Vas { gpu: plan.gpu, pdb: plan.pdb->0 })
    } else {
        None
    }
}

/// Commit a partitioned copy (see [`ce_commit_refusal`]): a refusal has nothing to
/// release; otherwise report what each executor ran — nothing, for an empty partition.
pub fn commit_ce(p: &ProcView, plan: &CePlan, reply: Option<VerbReply>) -> (r: Result<
    CeForwarded,
    Refusal,
>)
    requires
        reply is None || reply matches Some(VerbReply::CeSplit { .. }),
    ensures
        match ce_commit_refusal(*p, *plan) {
            Some(what) => r matches Err(f) && f.fault == FwdFault::Stale(what)
                && f.orphans.unmap@.len() == 0 && f.orphans.free@.len() == 0 && !f.retry,
            None => r == Ok::<CeForwarded, Refusal>(
                match reply {
                    Some(VerbReply::CeSplit { host_ce, ours }) => CeForwarded {
                        proc: plan.proc,
                        chan: plan.chan,
                        host_ce,
                        ours,
                    },
                    _ => CeForwarded { proc: plan.proc, chan: plan.chan, host_ce: 0, ours: 0 },
                },
            ),
        },
{
    let (host_ce, ours) = match reply {
        Some(VerbReply::CeSplit { host_ce, ours }) => (host_ce, ours),
        _ => (0, 0),
    };
    let bare = |what: Stale| -> (f: Refusal)
        ensures
            f.fault == FwdFault::Stale(what) && f.orphans.unmap@.len() == 0
                && f.orphans.free@.len() == 0 && !f.retry,
        { Refusal { fault: FwdFault::Stale(what), orphans: Orphans { unmap: Vec::new(), free: Vec::new() }, retry: false } };
    if p.retired || p.id != plan.proc {
        return Err(bare(Stale::Proc(plan.proc)));
    }
    if p.channel_position(plan.chan).is_none() {
        return Err(bare(Stale::Channel(plan.chan)));
    }
    if let (Some(pdb), Some(host_vas)) = (plan.pdb, plan.host_vas) {
        let same = match p.vas(plan.gpu, pdb) {
            Some(v) => match v.host_vas {
                Some(h) => h == host_vas,
                None => false,
            },
            None => false,
        };
        if !same {
            return Err(bare(Stale::Vas { gpu: plan.gpu, pdb }));
        }
    }
    Ok(CeForwarded { proc: plan.proc, chan: plan.chan, host_ce, ours })
}

} // verus!
