//! **Committing a framebuffer leaf.** Both chains end in one bind: the leaf is re-checked
//! against the table at the later instant (same extent, the walk's vidmem at the walk's
//! offset, nothing host-published there yet), the binding is made by the one constructor
//! that can attach a host object — which refuses a blank host twin of the guest's own
//! framebuffer outright — and only then is the guest-declared row replaced. The joined
//! chain binds only after the guest's view has been installed, so the commit adopts and
//! stops, and the bind comes later.
use crate::aperture::{Aperture, FbLeafBacking};
use crate::forwarding::{AddressFault, FwdFault, HostHandle, IsolateId, Stale};
use crate::plans::{
    holds, refused, same_keys, spec_vas, vas_pos, BackFbLeafPlan, Orphans, ProcView, Refusal, VasView,
    VerbReply,
};
use crate::table::{
    law_bound_range_resolves, spec_resolve, Binding, RegionKind,
    bind_refusal, real_gpu_memory, spec_binding_at, spec_real_gpu_memory, spec_unbind,
    BackingBytes, HostMapping, TableEntry,
};
use vstd::prelude::*;

verus! {

/// What one framebuffer-leaf backing produced.
#[derive(Debug, Clone, Copy, PartialEq, Eq)]
pub struct FbLeafBacked {
    /// Where the host object was placed: the leaf's own guest address.
    pub host_va: u64,
    /// The host object.
    pub memory: HostHandle,
    /// Whether the leaf was found already backed.
    pub already: bool,
    /// The backing the VMM maps as the guest's own view — only for a joined leaf, and
    /// only on the call that did the work.
    pub backing: Option<u64>,
}

/// What the chain that made the memory says its bytes are.
pub open spec fn bytes_of(how: FbLeafBacking) -> BackingBytes {
    match how {
        FbLeafBacking::Vidmem => BackingBytes::ShadowsGuestMemory,
        FbLeafBacking::Joined => BackingBytes::JoinsGuestWindow,
    }
}

/// The bind at the end of both chains, on table `t`: `(refusal, table after)` with the
/// refusal as `(fault, retry)`. A row already at the leaf must have the leaf's extent, be
/// the walk's vidmem at the walk's offset, and not be host-published (that one a sibling
/// may have won: re-plan); the binding must be constructible; the guest-declared row is
/// then replaced by it. A bind that is still refused leaves the row removed: binding the
/// old row back over the same range meets the same refusal.
pub open spec fn fb_leaf_bind(
    t: Seq<TableEntry>,
    plan: BackFbLeafPlan,
    host_va: u64,
    memory: HostHandle,
) -> (Option<(FwdFault, bool)>, Seq<TableEntry>) {
    let found = spec_binding_at(t, plan.va);
    if found is Some && (found->0.start != plan.va || found->0.len != plan.len) {
        (
            Some(
                (
                    FwdFault::FbLeafExtent {
                        va: plan.va,
                        len: plan.len,
                        tabled: (found->0.start, found->0.len),
                    },
                    false,
                ),
            ),
            t,
        )
    } else if found is Some && (found->0.binding.aperture != Aperture::Vidmem
        || found->0.binding.phys != plan.phys) {
        (
            Some(
                (
                    FwdFault::FbLeafDisagrees {
                        va: plan.va,
                        walked: (plan.phys, Aperture::Vidmem),
                        tabled: (found->0.binding.phys, found->0.binding.aperture),
                    },
                    false,
                ),
            ),
            t,
        )
    } else if found is Some && found->0.binding.host is Some {
        (
            Some(
                (
                    FwdFault::GuestRamAddressTaken {
                        va: plan.va,
                        host_va: found->0.binding.host->0.host_va,
                    },
                    true,
                ),
            ),
            t,
        )
    } else {
        match spec_real_gpu_memory(
            plan.phys,
            Aperture::Vidmem,
            HostMapping { host_va, memory, bytes: bytes_of(plan.how) },
        ) {
            Err(f) => (Some((FwdFault::RegionKindRefused { va: plan.va, fault: f }, false)), t),
            Ok(b) => {
                let t1 = if found is Some { spec_unbind(t, plan.va) } else { t };
                match bind_refusal(t1, plan.pdb, plan.va, plan.len) {
                    None => (None, t1.push(TableEntry { start: plan.va, len: plan.len, binding: b })),
                    Some(e) => (Some((FwdFault::Address(e), false)), t1),
                }
            },
        }
    }
}

/// Whether `new` is `old` with only the table of its address space `k` (to `t`) and its
/// host address space (to `hv`) changed.
pub open spec fn leaf_state(old: ProcView, new: ProcView, k: int, hv: Option<HostHandle>, t: Seq<TableEntry>) -> bool {
    &&& 0 <= k < old.vases@.len()
    &&& new.id == old.id && new.system == old.system && new.retired == old.retired
    &&& new.arenas == old.arenas && new.isolates == old.isolates && new.wanted == old.wanted
    &&& new.channels == old.channels && new.requested == old.requested
    &&& new.scheduled == old.scheduled && new.last_token == old.last_token
    &&& new.vases@.len() == old.vases@.len()
    &&& forall|j: int| 0 <= j < old.vases@.len() && j != k ==> new.vases@[j] == old.vases@[j]
    &&& new.vases@[k].gpu == old.vases@[k].gpu && new.vases@[k].pdb == old.vases@[k].pdb
    &&& new.vases@[k].pins == old.vases@[k].pins && new.vases@[k].blocks == old.vases@[k].blocks
    &&& new.vases@[k].host_vas == hv
    &&& new.vases@[k].table.entries@ == t
}

/// The bind at the end of both chains, in address space `v` (see [`fb_leaf_bind`]); a
/// refusal unmaps `host_va` from `vas_used` and frees `memory`.
fn bind_backed_fb_leaf(
    v: &mut VasView,
    plan: &BackFbLeafPlan,
    host_va: u64,
    memory: HostHandle,
    vas_used: HostHandle,
) -> (r: Result<(), Refusal>)
    ensures
        ({
            let (refusal, t) = fb_leaf_bind(old(v).table.entries@, *plan, host_va, memory);
            &&& final(v).table.entries@ == t
            &&& final(v).gpu == old(v).gpu && final(v).pdb == old(v).pdb && final(v).host_vas
                == old(v).host_vas && final(v).pins == old(v).pins && final(v).blocks
                == old(v).blocks
            &&& match refusal {
                Some((fault, retry)) => r matches Err(f) && refused(
                    f,
                    fault,
                    seq![(vas_used, host_va)],
                    seq![memory],
                    retry,
                ),
                None => r is Ok,
            }
        }),
{
    let unmap = vec![(vas_used, host_va)];
    let free = vec![memory];
    proof {
        assert(unmap@ =~= seq![(vas_used, host_va)]);
        assert(free@ =~= seq![memory]);
    }
    let previous = match v.table.binding_at(plan.va) {
        None => None,
        Some(e) => {
            if e.start != plan.va || e.len != plan.len {
                return Err(
                    Refusal {
                        fault: FwdFault::FbLeafExtent {
                            va: plan.va,
                            len: plan.len,
                            tabled: (e.start, e.len),
                        },
                        orphans: Orphans { unmap, free },
                        retry: false,
                    },
                );
            }
            let vid = match e.binding.aperture {
                Aperture::Vidmem => true,
                _ => false,
            };
            if !vid || e.binding.phys != plan.phys {
                return Err(
                    Refusal {
                        fault: FwdFault::FbLeafDisagrees {
                            va: plan.va,
                            walked: (plan.phys, Aperture::Vidmem),
                            tabled: (e.binding.phys, e.binding.aperture),
                        },
                        orphans: Orphans { unmap, free },
                        retry: false,
                    },
                );
            }
            if let Some(h) = e.binding.host {
                return Err(
                    Refusal {
                        fault: FwdFault::GuestRamAddressTaken { va: plan.va, host_va: h.host_va },
                        orphans: Orphans { unmap, free },
                        retry: true,
                    },
                );
            }
            Some(e.binding)
        },
    };
    let bytes = match plan.how {
        FbLeafBacking::Vidmem => BackingBytes::ShadowsGuestMemory,
        FbLeafBacking::Joined => BackingBytes::JoinsGuestWindow,
    };
    let binding = match real_gpu_memory(
        plan.phys,
        Aperture::Vidmem,
        HostMapping { host_va, memory, bytes },
    ) {
        Ok(b) => b,
        Err(fault) => {
            return Err(
                Refusal {
                    fault: FwdFault::RegionKindRefused { va: plan.va, fault },
                    orphans: Orphans { unmap, free },
                    retry: false,
                },
            );
        },
    };
    if previous.is_some() {
        let _ = v.table.unbind(plan.va);
    }
    match v.table.bind(plan.pdb, plan.va, plan.len, binding) {
        Ok(()) => Ok(()),
        Err(e) => {
            if let Some(b) = previous {
                let _ = v.table.bind(plan.pdb, plan.va, plan.len, b);
            }
            Err(Refusal { fault: FwdFault::Address(e), orphans: Orphans { unmap, free }, retry: false })
        },
    }
}

/// How a leaf's commit refuses before its bind, with the stage it reached: stage 0 before
/// any state changed, stage 1 after adopting a fresh host address space. The process must
/// still be the planner and live; the memory must be this isolate's; the address space
/// must exist; a host address space the plan did not see must not have appeared, and one
/// it saw must still be there.
pub open spec fn leaf_commit_refusal(
    p: ProcView,
    plan: BackFbLeafPlan,
    fresh_vas: Option<HostHandle>,
    memory: HostHandle,
    host_va: u64,
) -> Option<(FwdFault, Seq<(HostHandle, u64)>, Seq<HostHandle>, bool)> {
    let vas_used = if fresh_vas is Some { fresh_vas->0 } else { plan.host_vas->0 };
    let unmap = seq![(vas_used, host_va)];
    let all = if fresh_vas is Some { seq![fresh_vas->0, memory] } else { seq![memory] };
    let isolate = IsolateId { proc: p.id, gpu: plan.gpu };
    if p.retired || p.id != plan.proc {
        Some((FwdFault::Stale(Stale::Proc(plan.proc)), unmap, all, false))
    } else if !(memory.proc == isolate.proc && memory.gpu == isolate.gpu) {
        Some(
            (
                FwdFault::ForeignBacking { isolate, memory },
                unmap,
                if fresh_vas is Some { seq![fresh_vas->0] } else { Seq::empty() },
                false,
            ),
        )
    } else {
        match spec_vas(p, plan.gpu, plan.pdb) {
            None => Some((FwdFault::Stale(Stale::Vas { gpu: plan.gpu, pdb: plan.pdb }), unmap, all, false)),
            Some(v) => if fresh_vas is Some && v.host_vas is Some {
                Some((FwdFault::Stale(Stale::Rebound), unmap, all, true))
            } else if fresh_vas is None && v.host_vas != plan.host_vas {
                Some((FwdFault::Stale(Stale::Rebound), unmap, seq![memory], true))
            } else {
                None
            },
        }
    }
}

/// Commit a framebuffer leaf: a replay reports the live placement; otherwise the reply is
/// re-validated (see [`leaf_commit_refusal`]), a fresh host address space adopted, and then
/// a vidmem leaf is bound now (see [`fb_leaf_bind`]) while a joined leaf stops, handing
/// back the backing for the guest's view — its bind is [`adopt_joined_fb_leaf`].
pub fn commit_back_fb_leaf(p: &mut ProcView, plan: &BackFbLeafPlan, reply: Option<VerbReply>) -> (r:
    Result<FbLeafBacked, Refusal>)
    requires
        plan.existing is Some ==> reply is None,
        plan.existing is None ==> match (plan.how, reply) {
            (FbLeafBacking::Vidmem, Some(VerbReply::Published { host_vas, .. })) => (host_vas
                is Some <==> plan.host_vas is None),
            (FbLeafBacking::Joined, Some(VerbReply::FbLeafJoined { host_vas, .. })) => (host_vas
                is Some <==> plan.host_vas is None),
            _ => false,
        },
    ensures
        same_keys(*old(p), *final(p)),
        plan.existing matches Some((hva, mem)) ==> r == Ok::<FbLeafBacked, Refusal>(
            FbLeafBacked { host_va: hva, memory: mem, already: true, backing: None },
        ) && *final(p) == *old(p),
        plan.existing is None ==> ({
            let (fresh_vas, memory, host_va, backing) = match reply {
                Some(VerbReply::Published { host_vas, memory, host_va }) => (
                    host_vas,
                    memory,
                    host_va,
                    None,
                ),
                Some(VerbReply::FbLeafJoined { host_vas, backing, memory, host_va }) => (
                    host_vas,
                    memory,
                    host_va,
                    Some(backing),
                ),
                _ => (None, plan.host_vas->0, 0, None),
            };
            let k = vas_pos(old(p).vases@, plan.gpu, plan.pdb, 0)->0;
            let v = old(p).vases@[k];
            let hv = if fresh_vas is Some { fresh_vas } else { v.host_vas };
            let vas_used = if fresh_vas is Some { fresh_vas->0 } else { plan.host_vas->0 };
            let done = FbLeafBacked { host_va, memory, already: false, backing };
            match leaf_commit_refusal(*old(p), *plan, fresh_vas, memory, host_va) {
                Some((fault, unmap, free, retry)) => r matches Err(f) && refused(
                    f,
                    fault,
                    unmap,
                    free,
                    retry,
                ) && *final(p) == *old(p),
                None => if plan.how is Joined {
                    r == Ok::<FbLeafBacked, Refusal>(done) && leaf_state(
                        *old(p),
                        *final(p),
                        k,
                        hv,
                        v.table.entries@,
                    )
                } else {
                    let (refusal, t) = fb_leaf_bind(v.table.entries@, *plan, host_va, memory);
                    &&& leaf_state(*old(p), *final(p), k, hv, t)
                    &&& match refusal {
                        Some((fault, retry)) => r matches Err(f) && refused(
                            f,
                            fault,
                            seq![(vas_used, host_va)],
                            seq![memory],
                            retry,
                        ),
                        None => r == Ok::<FbLeafBacked, Refusal>(done),
                    }
                },
            }
        }),
{
    if let Some((host_va, memory)) = plan.existing {
        return Ok(FbLeafBacked { host_va, memory, already: true, backing: None });
    }
    let (fresh_vas, memory, host_va, backing) = match reply {
        Some(VerbReply::Published { host_vas, memory, host_va }) => (host_vas, memory, host_va, None),
        Some(VerbReply::FbLeafJoined { host_vas, backing, memory, host_va }) => (
            host_vas,
            memory,
            host_va,
            Some(backing),
        ),
        _ => {
            proof {
                assert(false);
            }
            return Err(
                Refusal {
                    fault: FwdFault::SystemDataPlane,
                    orphans: Orphans { unmap: Vec::new(), free: Vec::new() },
                    retry: false,
                },
            );
        },
    };
    let vas_used = match fresh_vas {
        Some(h) => h,
        None => match plan.host_vas {
            Some(h) => h,
            None => {
                proof {
                    assert(false);
                }
                memory
            },
        },
    };
    let unmap = vec![(vas_used, host_va)];
    let all = match fresh_vas {
        Some(h) => vec![h, memory],
        None => vec![memory],
    };
    let only_memory = vec![memory];
    proof {
        assert(unmap@ =~= seq![(vas_used, host_va)]);
        assert(only_memory@ =~= seq![memory]);
        if fresh_vas is Some {
            assert(all@ =~= seq![fresh_vas->0, memory]);
        } else {
            assert(all@ =~= seq![memory]);
        }
    }
    if p.retired || p.id != plan.proc {
        return Err(
            Refusal {
                fault: FwdFault::Stale(Stale::Proc(plan.proc)),
                orphans: Orphans { unmap, free: all },
                retry: false,
            },
        );
    }
    let isolate = IsolateId { proc: p.id, gpu: plan.gpu };
    if !memory.belongs_to(isolate) {
        let mut ours: Vec<HostHandle> = Vec::new();
        if let Some(h) = fresh_vas {
            ours.push(h);
        }
        proof {
            if fresh_vas is Some {
                assert(ours@ =~= seq![fresh_vas->0]);
            } else {
                assert(ours@ =~= Seq::<HostHandle>::empty());
            }
        }
        return Err(
            Refusal {
                fault: FwdFault::ForeignBacking { isolate, memory },
                orphans: Orphans { unmap, free: ours },
                retry: false,
            },
        );
    }
    let k = match p.vas_position(plan.gpu, plan.pdb) {
        Some(k) => k,
        None => {
            return Err(
                Refusal {
                    fault: FwdFault::Stale(Stale::Vas { gpu: plan.gpu, pdb: plan.pdb }),
                    orphans: Orphans { unmap, free: all },
                    retry: false,
                },
            );
        },
    };
    match fresh_vas {
        Some(_) => {
            if p.vases[k].host_vas.is_some() {
                return Err(
                    Refusal {
                        fault: FwdFault::Stale(Stale::Rebound),
                        orphans: Orphans { unmap, free: all },
                        retry: true,
                    },
                );
            }
        },
        None => {
            let same = match (p.vases[k].host_vas, plan.host_vas) {
                (Some(a), Some(b)) => a == b,
                (None, None) => true,
                _ => false,
            };
            if !same {
                return Err(
                    Refusal {
                        fault: FwdFault::Stale(Stale::Rebound),
                        orphans: Orphans { unmap, free: only_memory },
                        retry: true,
                    },
                );
            }
        },
    }
    let ghost p0 = *p;
    let mut v = p.vases.remove(k);
    if let Some(h) = fresh_vas {
        v.host_vas = Some(h);
    }
    let joined = match plan.how {
        FbLeafBacking::Joined => true,
        FbLeafBacking::Vidmem => false,
    };
    if joined {
        p.vases.insert(k, v);
        proof {
            assert(p.vases@ =~= p0.vases@.update(k as int, v));
        }
        return Ok(FbLeafBacked { host_va, memory, already: false, backing });
    }
    let bound = bind_backed_fb_leaf(&mut v, plan, host_va, memory, vas_used);
    p.vases.insert(k, v);
    proof {
        assert(p.vases@ =~= p0.vases@.update(k as int, v));
    }
    match bound {
        Ok(()) => Ok(FbLeafBacked { host_va, memory, already: false, backing }),
        Err(f) => Err(f),
    }
}

/// Bind a joined leaf once the guest's view of it is installed: the process must still be
/// the planner and live, its address space must still exist and have a host address space
/// (without one the refusal has nothing of ours to unmap from), and then the leaf is bound
/// as the commit would have (see [`fb_leaf_bind`]).
pub fn adopt_joined_fb_leaf(p: &mut ProcView, plan: &BackFbLeafPlan, host_va: u64, memory: HostHandle) -> (r:
    Result<(), Refusal>)
    ensures
        same_keys(*old(p), *final(p)),
        ({
            let gone = if plan.host_vas is Some {
                (seq![(plan.host_vas->0, host_va)], seq![memory])
            } else {
                (Seq::empty(), Seq::empty())
            };
            if old(p).retired || old(p).id != plan.proc {
                r matches Err(f) && refused(f, FwdFault::Stale(Stale::Proc(plan.proc)), gone.0, gone.1, false)
                    && *final(p) == *old(p)
            } else {
                match spec_vas(*old(p), plan.gpu, plan.pdb) {
                    None => r matches Err(f) && refused(
                        f,
                        FwdFault::Stale(Stale::Vas { gpu: plan.gpu, pdb: plan.pdb }),
                        gone.0,
                        gone.1,
                        false,
                    ) && *final(p) == *old(p),
                    Some(v) => match v.host_vas {
                        None => r matches Err(f) && refused(
                            f,
                            FwdFault::Stale(Stale::Rebound),
                            Seq::empty(),
                            Seq::empty(),
                            false,
                        ) && *final(p) == *old(p),
                        Some(vas_used) => {
                            let k = vas_pos(old(p).vases@, plan.gpu, plan.pdb, 0)->0;
                            let (refusal, t) = fb_leaf_bind(v.table.entries@, *plan, host_va, memory);
                            &&& leaf_state(*old(p), *final(p), k, v.host_vas, t)
                            &&& match refusal {
                                Some((fault, retry)) => r matches Err(f) && refused(
                                    f,
                                    fault,
                                    seq![(vas_used, host_va)],
                                    seq![memory],
                                    retry,
                                ),
                                None => r is Ok,
                            }
                        },
                    },
                }
            }
        }),
{
    let (gone_unmap, gone_free) = match plan.host_vas {
        Some(h) => (vec![(h, host_va)], vec![memory]),
        None => (Vec::new(), Vec::new()),
    };
    proof {
        if plan.host_vas is Some {
            assert(gone_unmap@ =~= seq![(plan.host_vas->0, host_va)]);
            assert(gone_free@ =~= seq![memory]);
        } else {
            assert(gone_unmap@ =~= Seq::<(HostHandle, u64)>::empty());
            assert(gone_free@ =~= Seq::<HostHandle>::empty());
        }
    }
    if p.retired || p.id != plan.proc {
        return Err(
            Refusal {
                fault: FwdFault::Stale(Stale::Proc(plan.proc)),
                orphans: Orphans { unmap: gone_unmap, free: gone_free },
                retry: false,
            },
        );
    }
    let k = match p.vas_position(plan.gpu, plan.pdb) {
        Some(k) => k,
        None => {
            return Err(
                Refusal {
                    fault: FwdFault::Stale(Stale::Vas { gpu: plan.gpu, pdb: plan.pdb }),
                    orphans: Orphans { unmap: gone_unmap, free: gone_free },
                    retry: false,
                },
            );
        },
    };
    let vas_used = match p.vases[k].host_vas {
        Some(h) => h,
        None => {
            return Err(
                Refusal {
                    fault: FwdFault::Stale(Stale::Rebound),
                    orphans: Orphans { unmap: Vec::new(), free: Vec::new() },
                    retry: false,
                },
            );
        },
    };
    let ghost p0 = *p;
    let mut v = p.vases.remove(k);
    let bound = bind_backed_fb_leaf(&mut v, plan, host_va, memory, vas_used);
    p.vases.insert(k, v);
    proof {
        assert(p.vases@ =~= p0.vases@.update(k as int, v));
    }
    bound
}


/// No blank host twin is ever bound: a vidmem-chain leaf's bind refuses, whatever the
/// table holds, and leaves the table as it was — the guest-declared row is never dropped
/// for a refusal.
pub proof fn law_a_blank_twin_is_never_bound(
    t: Seq<TableEntry>,
    plan: BackFbLeafPlan,
    host_va: u64,
    memory: HostHandle,
)
    requires
        plan.how is Vidmem,
    ensures
        fb_leaf_bind(t, plan, host_va, memory).0 is Some,
        fb_leaf_bind(t, plan, host_va, memory).1 == t,
{
}

/// A joined leaf that binds is read back: its address then resolves to host memory at
/// the guest's own address, one memory joined to the guest's window, at the walk's
/// offset.
pub proof fn law_bound_leaf_resolves(
    t: Seq<TableEntry>,
    plan: BackFbLeafPlan,
    host_va: u64,
    memory: HostHandle,
    off: u64,
)
    requires
        fb_leaf_bind(t, plan, host_va, memory).0 is None,
        off < plan.len,
    ensures
        spec_resolve(fb_leaf_bind(t, plan, host_va, memory).1, plan.pdb, (plan.va + off) as u64)
            == Ok::<(Binding, u64), AddressFault>(
            (
                Binding {
                    phys: plan.phys,
                    aperture: Aperture::Vidmem,
                    kind: RegionKind::RealGpuMemory,
                    host: Some(HostMapping { host_va, memory, bytes: BackingBytes::JoinsGuestWindow }),
                },
                off,
            ),
        ),
{
    let found = spec_binding_at(t, plan.va);
    let t1 = if found is Some { spec_unbind(t, plan.va) } else { t };
    let b = Binding {
        phys: plan.phys,
        aperture: Aperture::Vidmem,
        kind: RegionKind::RealGpuMemory,
        host: Some(HostMapping { host_va, memory, bytes: BackingBytes::JoinsGuestWindow }),
    };
    law_bound_range_resolves(t1, plan.pdb, plan.va, plan.len, b, off);
}

} // verus!
