//! **Routing through the device's spine.** The spine's maps are the forward projection of
//! what the guest allocated: a doorbell's vChid routes to a process's channel, an address
//! space's PDB to its process. A miss is a fault, and a key whose component was condemned
//! is refused by that name rather than as unknown. What only the architecture can compute
//! — a token's decoding, a class's engine, a parent's facts in the RM graph — is handed in.
use crate::engine::EngineObjectRoute;
use crate::forwarding::FwdFault;
use crate::plans::DoorbellRoute;
use crate::routes::EngineParentMiss;
use vstd::prelude::*;

verus! {

/// The spine's routing maps, as plain facts.
#[derive(Debug, Clone, PartialEq, Eq)]
pub struct SpineView {
    /// `(gpu, vchid)` to `(process, channel)`.
    pub by_vchid: Vec<((u32, u32), (u32, u32))>,
    /// `(gpu, vchid)` keys of condemned components, with their labels.
    pub condemned_vchid: Vec<((u32, u32), u32)>,
    /// `(gpu, pdb)` to process.
    pub by_pdb: Vec<((u32, u64), u32)>,
    /// `(gpu, pdb)` keys of condemned components, with their labels.
    pub condemned_pdb: Vec<((u32, u64), u32)>,
}

/// The first value at or after position `i` of the pairs `s` keyed `k`.
pub open spec fn lookup_from<K, V>(s: Seq<(K, V)>, k: K, i: int) -> Option<V>
    decreases s.len() - i,
{
    if i < 0 || i >= s.len() {
        None
    } else if s[i].0 == k {
        Some(s[i].1)
    } else {
        lookup_from(s, k, i + 1)
    }
}

/// The value of the pairs `s` keyed `k`.
pub open spec fn lookup<K, V>(s: Seq<(K, V)>, k: K) -> Option<V> {
    lookup_from(s, k, 0)
}

/// The process and channel `(gpu, vchid)` routes to.
fn route_of_vchid(s: &Vec<((u32, u32), (u32, u32))>, k: (u32, u32)) -> (r: Option<(u32, u32)>)
    ensures
        r == lookup(s@, k),
{
    let mut i: usize = 0;
    while i < s.len()
        invariant
            i <= s.len(),
            lookup_from(s@, k, 0) == lookup_from(s@, k, i as int),
        decreases s.len() - i,
    {
        if s[i].0.0 == k.0 && s[i].0.1 == k.1 {
            return Some(s[i].1);
        }
        i = i + 1;
    }
    None
}

impl SpineView {
    /// The process and channel the doorbell route map sends `(gpu, vchid)` to.
    pub fn route(&self, gpu: u32, vchid: u32) -> (r: Option<(u32, u32)>)
        ensures
            r == lookup(self.by_vchid@, (gpu, vchid)),
    {
        route_of_vchid(&self.by_vchid, (gpu, vchid))
    }
}

/// The label `(gpu, vchid)` was condemned under.
fn condemned_vchid(s: &Vec<((u32, u32), u32)>, k: (u32, u32)) -> (r: Option<u32>)
    ensures
        r == lookup(s@, k),
{
    let mut i: usize = 0;
    while i < s.len()
        invariant
            i <= s.len(),
            lookup_from(s@, k, 0) == lookup_from(s@, k, i as int),
        decreases s.len() - i,
    {
        if s[i].0.0 == k.0 && s[i].0.1 == k.1 {
            return Some(s[i].1);
        }
        i = i + 1;
    }
    None
}

/// The value keyed `(gpu, pdb)`.
fn by_pdb_key(s: &Vec<((u32, u64), u32)>, k: (u32, u64)) -> (r: Option<u32>)
    ensures
        r == lookup(s@, k),
{
    let mut i: usize = 0;
    while i < s.len()
        invariant
            i <= s.len(),
            lookup_from(s@, k, 0) == lookup_from(s@, k, i as int),
        decreases s.len() - i,
    {
        if s[i].0.0 == k.0 && s[i].0.1 == k.1 {
            return Some(s[i].1);
        }
        i = i + 1;
    }
    None
}

/// A vChid that routes nowhere: condemned by name, or unknown on this GPU.
pub open spec fn spec_vchid_miss(spine: SpineView, gpu: u32, vchid: u32) -> FwdFault {
    match lookup(spine.condemned_vchid@, (gpu, vchid)) {
        Some(anchor) => FwdFault::Condemned { anchor },
        None => FwdFault::UnknownVchid { gpu, vchid },
    }
}

/// Name a vChid that routes nowhere (see [`spec_vchid_miss`]).
pub fn vchid_miss(spine: &SpineView, gpu: u32, vchid: u32) -> (r: FwdFault)
    ensures
        r == spec_vchid_miss(*spine, gpu, vchid),
{
    match condemned_vchid(&spine.condemned_vchid, (gpu, vchid)) {
        Some(anchor) => FwdFault::Condemned { anchor },
        None => FwdFault::UnknownVchid { gpu, vchid },
    }
}

/// Route the address space `pdb` on GPU `target` to its process: a live key routes; a
/// condemned one is refused by that name; any other is unknown.
pub fn route_pdb(spine: &SpineView, target: u32, pdb: u64) -> (r: Result<u32, FwdFault>)
    ensures
        r == match lookup(spine.by_pdb@, (target, pdb)) {
            Some(pid) => Ok(pid),
            None => match lookup(spine.condemned_pdb@, (target, pdb)) {
                Some(anchor) => Err(FwdFault::Condemned { anchor }),
                None => Err(FwdFault::UnknownPdb { gpu: target, pdb }),
            },
        },
{
    if let Some(pid) = by_pdb_key(&spine.by_pdb, (target, pdb)) {
        return Ok(pid);
    }
    match by_pdb_key(&spine.condemned_pdb, (target, pdb)) {
        Some(anchor) => Err(FwdFault::Condemned { anchor }),
        None => Err(FwdFault::UnknownPdb { gpu: target, pdb }),
    }
}

/// Route a doorbell that trapped on `target_gpu` with `token`, which the architecture
/// decoded to `decoded` as `(vchid, runlist)` — `None` when the token is not one of its
/// own. A malformed token and a vChid that routes nowhere are refused.
pub fn route_doorbell(spine: &SpineView, target_gpu: u32, token: u64, decoded: Option<(u32, u32)>) -> (r:
    Result<DoorbellRoute, FwdFault>)
    ensures
        r == match decoded {
            None => Err(FwdFault::MalformedToken { token }),
            Some((vchid, runlist)) => match lookup(spine.by_vchid@, (target_gpu, vchid)) {
                Some((proc, chan)) => Ok(
                    DoorbellRoute { proc, chan, gpu: target_gpu, vchid, runlist, token },
                ),
                None => Err(spec_vchid_miss(*spine, target_gpu, vchid)),
            },
        },
{
    let (vchid, runlist) = match decoded {
        Some(d) => d,
        None => {
            return Err(FwdFault::MalformedToken { token });
        },
    };
    match route_of_vchid(&spine.by_vchid, (target_gpu, vchid)) {
        Some((proc, chan)) => Ok(DoorbellRoute { proc, chan, gpu: target_gpu, vchid, runlist, token }),
        None => Err(vchid_miss(spine, target_gpu, vchid)),
    }
}

/// Route an engine-object allocation of `class` on the channel `(target_gpu, vchid)`;
/// `engine` is the architecture's engine for the class, `None` when it is no engine's.
pub fn route_engine_object(
    spine: &SpineView,
    target_gpu: u32,
    vchid: u32,
    class: u32,
    engine: Option<u32>,
) -> (r: Result<EngineObjectRoute, FwdFault>)
    ensures
        r == match engine {
            None => Err(FwdFault::NotAnEngine(class)),
            Some(engine) => match lookup(spine.by_vchid@, (target_gpu, vchid)) {
                Some((proc, chan)) => Ok(EngineObjectRoute { proc, chan, gpu: target_gpu, vchid, engine }),
                None => Err(spec_vchid_miss(*spine, target_gpu, vchid)),
            },
        },
{
    let engine = match engine {
        Some(e) => e,
        None => {
            return Err(FwdFault::NotAnEngine(class));
        },
    };
    match route_of_vchid(&spine.by_vchid, (target_gpu, vchid)) {
        Some((proc, chan)) => Ok(EngineObjectRoute { proc, chan, gpu: target_gpu, vchid, engine }),
        None => Err(vchid_miss(spine, target_gpu, vchid)),
    }
}

/// What the RM graph knows of an allocation's parent object.
#[derive(Debug, Clone, Copy, PartialEq, Eq)]
pub enum ParentFacts {
    /// No object at `(client, parent)`.
    NoNode,
    /// The parent exists and is not a channel.
    NotAChannel,
    /// The parent is a channel: its target GPU, where its device ancestor resolved, and
    /// the vChid its USERD flags name, where they name one.
    Channel {
        /// The target GPU.
        gpu: Option<u32>,
        /// The vChid.
        vchid: Option<u32>,
    },
}

/// Route an engine-object allocation of `class` by its parent `(client, parent)`, whose
/// facts are `facts`: the class must be an engine's, and each hop that declines is
/// refused by name — never defaulted to GPU 0 or to a guessed channel.
pub fn route_engine_object_by_parent(
    spine: &SpineView,
    client: u32,
    parent: u32,
    class: u32,
    engine: Option<u32>,
    facts: ParentFacts,
) -> (r: Result<EngineObjectRoute, FwdFault>)
    ensures
        r == match engine {
            None => Err(FwdFault::NotAnEngine(class)),
            Some(e) => match facts {
                ParentFacts::NoNode => Err(
                    FwdFault::EngineObjectParent { client, object: parent, why: EngineParentMiss::NoNode },
                ),
                ParentFacts::NotAChannel => Err(
                    FwdFault::EngineObjectParent {
                        client,
                        object: parent,
                        why: EngineParentMiss::NotAChannel,
                    },
                ),
                ParentFacts::Channel { gpu, vchid } => match (gpu, vchid) {
                    (None, _) => Err(
                        FwdFault::EngineObjectParent {
                            client,
                            object: parent,
                            why: EngineParentMiss::NoTarget,
                        },
                    ),
                    (Some(_), None) => Err(
                        FwdFault::EngineObjectParent {
                            client,
                            object: parent,
                            why: EngineParentMiss::UnnamedVchid,
                        },
                    ),
                    (Some(g), Some(v)) => match lookup(spine.by_vchid@, (g, v)) {
                        Some((proc, chan)) => Ok(
                            EngineObjectRoute { proc, chan, gpu: g, vchid: v, engine: e },
                        ),
                        None => Err(spec_vchid_miss(*spine, g, v)),
                    },
                },
            },
        },
{
    if engine.is_none() {
        return Err(FwdFault::NotAnEngine(class));
    }
    let (gpu, vchid) = match facts {
        ParentFacts::NoNode => {
            return Err(
                FwdFault::EngineObjectParent { client, object: parent, why: EngineParentMiss::NoNode },
            );
        },
        ParentFacts::NotAChannel => {
            return Err(
                FwdFault::EngineObjectParent {
                    client,
                    object: parent,
                    why: EngineParentMiss::NotAChannel,
                },
            );
        },
        ParentFacts::Channel { gpu, vchid } => (gpu, vchid),
    };
    let gpu = match gpu {
        Some(g) => g,
        None => {
            return Err(
                FwdFault::EngineObjectParent { client, object: parent, why: EngineParentMiss::NoTarget },
            );
        },
    };
    let vchid = match vchid {
        Some(v) => v,
        None => {
            return Err(
                FwdFault::EngineObjectParent {
                    client,
                    object: parent,
                    why: EngineParentMiss::UnnamedVchid,
                },
            );
        },
    };
    route_engine_object(spine, gpu, vchid, class, engine)
}

} // verus!
