//! **The plan phase of the forwarding plane.** A verb-issuing operation is split in three:
//! a *plan*, under the process's lock, reads core state, decides, and emits the host work
//! to do plus the identities its commit will re-validate; the work runs with no lock held;
//! the *commit* re-validates and applies. A plan is a pure read: it refuses before any
//! host object exists, so a refusal here has nothing to release.
//!
//! A process is given to a plan as a [`ProcView`]: the facts of its state that the
//! decisions read, as plain values.
use crate::aperture::{Aperture, FbLeafBacking};
use crate::partition::CeSubCopy;
use crate::forwarding::{AddressFault, FwdFault, GuestRamPinOverlap, HostHandle, IsolateId, Stale};
use crate::routes::{RingLook, VidmemRoute};
use crate::table::{
    law_bound_range_resolves, bind_refusal, lemma_start_pos, spec_unbind, start_pos, push_range_gpas, push_walk, spec_binding_at, spec_resolve, BackingBytes, Binding,
    BindingTable, HostMapping, PushRange, PushRun, PushSrc, RegionKind, TableEntry,
};
use vstd::prelude::*;

verus! {

/// A range of the guest's own pages described to the host at a base address.
#[derive(Debug, Clone, Copy, PartialEq, Eq)]
pub struct GuestRamPin {
    /// The base address.
    pub base: u64,
    /// How many bytes are described.
    pub len: u64,
    /// Where the host placed them.
    pub host_va: u64,
    /// The descriptor object the host built over them.
    pub memory: HostHandle,
    /// The isolate's own window onto the pages.
    pub mapped: u64,
}

/// An address space of a process on one target GPU.
#[derive(Debug, Clone, PartialEq, Eq)]
pub struct VasView {
    /// The target GPU.
    pub gpu: u32,
    /// The address space's PDB.
    pub pdb: u64,
    /// Its host address space, once anything in it has been host-published.
    pub host_vas: Option<HostHandle>,
    /// Its bindings.
    pub table: BindingTable,
    /// Its live guest-RAM pins, by strictly increasing base.
    pub pins: Vec<GuestRamPin>,
    /// The arena blocks backing its published ranges, as `(guest address, guest-physical
    /// address, length)`, one per guest address.
    pub blocks: Vec<(u64, u64, u64)>,
}

/// What the RM graph records about a channel's GPFIFO ring.
#[derive(Debug, Clone, Copy, PartialEq, Eq)]
pub enum RingDecl {
    /// The channel's resource has no node in the graph.
    NoNode,
    /// The node declares no ring.
    Undeclared,
    /// The node declares a ring.
    Declared {
        /// The ring's address.
        va: u64,
        /// Its entry count.
        entries: u32,
    },
}

/// A channel of a process.
#[derive(Debug, Clone, PartialEq, Eq)]
pub struct ChannelView {
    /// The channel's process-local id.
    pub chan: u32,
    /// The channel's own target GPU.
    pub gpu: u32,
    /// The address space it declared, if any.
    pub vas_pdb: Option<u64>,
    /// Its host channel, once materialized.
    pub host_channel: Option<HostHandle>,
    /// Its host doorbell token, once materialized.
    pub host_token: Option<u64>,
    /// Its engine, as the graph derived it; carried into the host work, never decided on.
    pub engine: u32,
    /// Its ring.
    pub ring: RingDecl,
    /// The framebuffer offset of its declared USERD, where that resolved into the
    /// framebuffer.
    pub userd_fb: Option<u64>,
    /// The engine objects already allocated on its host channel, by class.
    pub engine_objects: Vec<(u32, HostHandle)>,
}

/// The facts of a process's state that the plans read.
#[derive(Debug, Clone, PartialEq, Eq)]
pub struct ProcView {
    /// The process id.
    pub id: u32,
    /// Whether this is the device's own system process.
    pub system: bool,
    /// Whether it is retired.
    pub retired: bool,
    /// The target GPUs it has an arena on.
    pub arenas: Vec<u32>,
    /// The target GPUs it has an isolate on.
    pub isolates: Vec<u32>,
    /// The target GPUs an isolate has been asked for.
    pub wanted: Vec<u32>,
    /// Its address spaces.
    pub vases: Vec<VasView>,
    /// Its channels.
    pub channels: Vec<ChannelView>,
    /// The channels the guest has asked to be schedulable.
    pub requested: Vec<u32>,
    /// The channels already scheduled.
    pub scheduled: Vec<u32>,
    /// The last doorbell token this process rang, kept for replaying a poll kick.
    pub last_token: Option<u64>,
}

/// The position of the first address space at or after position `i` keyed `(gpu, pdb)`.
pub open spec fn vas_pos(s: Seq<VasView>, gpu: u32, pdb: u64, i: int) -> Option<int>
    decreases s.len() - i,
{
    if i < 0 || i >= s.len() {
        None
    } else if s[i].gpu == gpu && s[i].pdb == pdb {
        Some(i)
    } else {
        vas_pos(s, gpu, pdb, i + 1)
    }
}

/// What [`vas_pos`] finds is an address space with that key.
pub proof fn lemma_vas_pos(s: Seq<VasView>, gpu: u32, pdb: u64, i: int)
    ensures
        vas_pos(s, gpu, pdb, i) matches Some(k) ==> 0 <= i <= k < s.len() && s[k].gpu == gpu
            && s[k].pdb == pdb,
    decreases s.len() - i,
{
    if 0 <= i < s.len() && !(s[i].gpu == gpu && s[i].pdb == pdb) {
        lemma_vas_pos(s, gpu, pdb, i + 1);
    }
}

/// The process's address space keyed `(gpu, pdb)`.
pub open spec fn spec_vas(p: ProcView, gpu: u32, pdb: u64) -> Option<VasView> {
    match vas_pos(p.vases@, gpu, pdb, 0) {
        Some(k) => Some(p.vases@[k]),
        None => None,
    }
}

/// The position of the first channel at or after position `i` with id `chan`.
pub open spec fn chan_pos(s: Seq<ChannelView>, chan: u32, i: int) -> Option<int>
    decreases s.len() - i,
{
    if i < 0 || i >= s.len() {
        None
    } else if s[i].chan == chan {
        Some(i)
    } else {
        chan_pos(s, chan, i + 1)
    }
}

/// What [`chan_pos`] finds is a channel with that id.
pub proof fn lemma_chan_pos(s: Seq<ChannelView>, chan: u32, i: int)
    ensures
        chan_pos(s, chan, i) matches Some(k) ==> 0 <= i <= k < s.len() && s[k].chan == chan,
    decreases s.len() - i,
{
    if 0 <= i < s.len() && s[i].chan != chan {
        lemma_chan_pos(s, chan, i + 1);
    }
}

/// The process's channel `chan`.
pub open spec fn spec_channel(p: ProcView, chan: u32) -> Option<ChannelView> {
    match chan_pos(p.channels@, chan, 0) {
        Some(k) => Some(p.channels@[k]),
        None => None,
    }
}

impl ProcView {
    /// No two address spaces share a `(gpu, pdb)` key and no two channels share an id —
    /// the process's tables are maps.
    pub open spec fn keys_unique(&self) -> bool {
        &&& forall|i: int, j: int|
            0 <= i < j < self.vases@.len() ==> !(#[trigger] self.vases@[i].gpu
                == #[trigger] self.vases@[j].gpu && self.vases@[i].pdb == self.vases@[j].pdb)
        &&& forall|i: int, j: int|
            0 <= i < j < self.channels@.len() ==> #[trigger] self.channels@[i].chan
                != #[trigger] self.channels@[j].chan
    }
}

/// `new` holds the address spaces and channels of `old`, position by position under the
/// same keys.
pub open spec fn same_keys(old: ProcView, new: ProcView) -> bool {
    &&& new.vases@.len() == old.vases@.len()
    &&& forall|j: int|
        0 <= j < old.vases@.len() ==> #[trigger] new.vases@[j].gpu == old.vases@[j].gpu
            && new.vases@[j].pdb == old.vases@[j].pdb
    &&& new.channels@.len() == old.channels@.len()
    &&& forall|j: int| 0 <= j < old.channels@.len() ==> #[trigger] new.channels@[j].chan == old.channels@[j].chan
}

/// **A process's tables stay maps**: a step that keeps every address space and channel
/// under its key keeps the keys unique.
pub proof fn law_same_keys_stay_unique(old: ProcView, new: ProcView)
    requires
        old.keys_unique(),
        same_keys(old, new),
    ensures
        new.keys_unique(),
{
    assert forall|i: int, j: int| 0 <= i < j < new.vases@.len() implies !(
    #[trigger] new.vases@[i].gpu == #[trigger] new.vases@[j].gpu && new.vases@[i].pdb
        == new.vases@[j].pdb) by {
        assert(new.vases@[i].gpu == old.vases@[i].gpu);
        assert(new.vases@[j].gpu == old.vases@[j].gpu);
    }
    assert forall|i: int, j: int| 0 <= i < j < new.channels@.len() implies #[trigger] new.channels@[i].chan
        != #[trigger] new.channels@[j].chan by {
        assert(new.channels@[i].chan == old.channels@[i].chan);
        assert(new.channels@[j].chan == old.channels@[j].chan);
    }
}

/// Whether `v` holds `x`.
pub fn holds(v: &Vec<u32>, x: u32) -> (r: bool)
    ensures
        r == v@.contains(x),
{
    let mut i: usize = 0;
    while i < v.len()
        invariant
            i <= v.len(),
            forall|j: int| 0 <= j < i ==> v@[j] != x,
        decreases v.len() - i,
    {
        if v[i] == x {
            return true;
        }
        i = i + 1;
    }
    false
}

impl ProcView {
    /// Where the address space keyed `(gpu, pdb)` stands.
    pub fn vas_position(&self, gpu: u32, pdb: u64) -> (r: Option<usize>)
        ensures
            match r {
                Some(k) => vas_pos(self.vases@, gpu, pdb, 0) == Some(k as int) && k
                    < self.vases.len(),
                None => vas_pos(self.vases@, gpu, pdb, 0) is None,
            },
    {
        proof {
            lemma_vas_pos(self.vases@, gpu, pdb, 0);
        }
        let mut i: usize = 0;
        while i < self.vases.len()
            invariant
                i <= self.vases.len(),
                vas_pos(self.vases@, gpu, pdb, 0) == vas_pos(self.vases@, gpu, pdb, i as int),
            decreases self.vases.len() - i,
        {
            if self.vases[i].gpu == gpu && self.vases[i].pdb == pdb {
                return Some(i);
            }
            i = i + 1;
        }
        None
    }

    /// The address space keyed `(gpu, pdb)`.
    pub fn vas(&self, gpu: u32, pdb: u64) -> (r: Option<&VasView>)
        ensures
            match r {
                Some(v) => spec_vas(*self, gpu, pdb) == Some(*v),
                None => spec_vas(*self, gpu, pdb) is None,
            },
    {
        match self.vas_position(gpu, pdb) {
            Some(k) => Some(&self.vases[k]),
            None => None,
        }
    }

    /// Where the channel `chan` stands.
    pub fn channel_position(&self, chan: u32) -> (r: Option<usize>)
        ensures
            match r {
                Some(k) => chan_pos(self.channels@, chan, 0) == Some(k as int) && k
                    < self.channels.len(),
                None => chan_pos(self.channels@, chan, 0) is None,
            },
    {
        proof {
            lemma_chan_pos(self.channels@, chan, 0);
        }
        let mut i: usize = 0;
        while i < self.channels.len()
            invariant
                i <= self.channels.len(),
                chan_pos(self.channels@, chan, 0) == chan_pos(self.channels@, chan, i as int),
            decreases self.channels.len() - i,
        {
            if self.channels[i].chan == chan {
                return Some(i);
            }
            i = i + 1;
        }
        None
    }

    /// The channel `chan`.
    pub fn channel(&self, chan: u32) -> (r: Option<&ChannelView>)
        ensures
            match r {
                Some(c) => spec_channel(*self, chan) == Some(*c),
                None => spec_channel(*self, chan) is None,
            },
    {
        match self.channel_position(chan) {
            Some(k) => Some(&self.channels[k]),
            None => None,
        }
    }
}

/// Which absence a missing isolate is: one was asked for and is being spawned (defer and
/// re-plan), or none ever was (an inconsistency).
pub open spec fn spec_missing_isolate(p: ProcView, gpu: u32) -> FwdFault {
    if p.wanted@.contains(gpu) {
        FwdFault::IsolatePending { proc: p.id, gpu }
    } else {
        FwdFault::NoTarget { proc: p.id, gpu }
    }
}

/// Name the absence of `p`'s isolate on `gpu`.
pub fn missing_isolate(p: &ProcView, gpu: u32) -> (r: FwdFault)
    ensures
        r == spec_missing_isolate(*p, gpu),
{
    if holds(&p.wanted, gpu) {
        FwdFault::IsolatePending { proc: p.id, gpu }
    } else {
        FwdFault::NoTarget { proc: p.id, gpu }
    }
}

/// What the host is asked to do for one plan.
#[derive(Debug, Clone, PartialEq, Eq)]
pub enum Verb {
    /// Mint host sysmem and map it at the guest's own address (allocating the host
    /// address space first where `host_vas` is `None`).
    Publish {
        /// The address space's host address space, if it has one.
        host_vas: Option<HostHandle>,
        /// The length.
        len: u64,
        /// The guest address it is mapped at.
        at: u64,
    },
    /// Mint host vidmem at the guest's own address.
    PublishVidmem {
        /// The address space's host address space, if it has one.
        host_vas: Option<HostHandle>,
        /// The length.
        len: u64,
        /// The guest address.
        at: u64,
    },
    /// Join a framebuffer leaf: one fabricated backing, placed at the leaf's address.
    JoinFbLeaf {
        /// The address space's host address space, if it has one.
        host_vas: Option<HostHandle>,
        /// The length.
        len: u64,
        /// The guest address.
        at: u64,
        /// The leaf's framebuffer offset.
        phys: u64,
    },
    /// Describe the guest's own pages to the host at the guest's address.
    PinGuestRam {
        /// The address space's host address space, if it has one.
        host_vas: Option<HostHandle>,
        /// The VMM's grant, carried whole.
        grant: GuestRamGrant,
        /// The guest address.
        at: u64,
    },
    /// Ring a channel's doorbell, materializing and scheduling it first where needed.
    Doorbell {
        /// The host address space a channel is materialized in, where one must be.
        host_vas: Option<HostHandle>,
        /// The channel's host handles, where it already has them.
        channel: Option<(HostHandle, u64)>,
        /// The channel's engine.
        engine: u32,
        /// Whether the channel must be scheduled first.
        schedule: bool,
    },
    /// Run a control on a host object.
    Control {
        /// The object.
        obj: HostHandle,
        /// The control.
        cmd: u32,
        /// The guest's payload, carried unchanged.
        payload: Vec<u8>,
    },
    /// Run a partitioned copy in the host address space `vas`.
    CeSplit {
        /// The host address space.
        vas: HostHandle,
        /// The sub-copies, in order.
        subs: Vec<CeSubCopy>,
    },
    /// Allocate an engine object on a channel, materializing the channel first where it
    /// has no host handles.
    EngineObject {
        /// The host address space a channel is materialized in, where one must be.
        host_vas: Option<HostHandle>,
        /// The channel's host handles, where it already has them.
        channel: Option<(HostHandle, u64)>,
        /// The channel's engine.
        engine: u32,
        /// The object's class.
        class: u32,
        /// The guest's allocation parameters, carried unchanged.
        params: Vec<u8>,
        /// The guest's own ring, where a materialized channel adopts it.
        adopt: Option<AdoptedGuestRing>,
    },
}

/// A guest USERD slot a materialized channel adopts: the host object and the offset into
/// it.
#[derive(Debug, Clone, Copy, PartialEq, Eq)]
pub struct AdoptedGuestUserd {
    /// The host object the slot lives in.
    pub memory: HostHandle,
    /// The slot's offset into it.
    pub offset: u64,
}

/// The guest's own GPFIFO ring, adopted by a materialized channel instead of a blank one.
#[derive(Debug, Clone, Copy, PartialEq, Eq)]
pub struct AdoptedGuestRing {
    /// The host object the ring lives in.
    pub memory: HostHandle,
    /// The start of the binding that holds it.
    pub ring_va: u64,
    /// The ring's own address.
    pub gp_fifo_va: u64,
    /// Its entry count.
    pub gp_fifo_entries: u32,
    /// The channel's USERD slot in the same object, where it is there.
    pub userd: Option<AdoptedGuestUserd>,
}

/// The VMM's statement of which guest pages back a range: routed whole, never
/// re-derived.
#[derive(Debug, Clone, Copy, PartialEq, Eq)]
pub struct GuestRamGrant {
    /// How many bytes it grants.
    pub len: u64,
    /// The VMM's own description of the pages.
    pub descriptor: u64,
}

/// A plan's product: the identities its commit re-validates, and the host work — `None`
/// when the plan resolved entirely from core state and no worker is needed.
#[derive(Debug, Clone, PartialEq, Eq)]
pub struct Planned<P> {
    /// The plan.
    pub plan: P,
    /// The host work, if any.
    pub verbs: Option<Verb>,
}

/// What [`plan_publish`] hands its commit.
#[derive(Debug, Clone, Copy, PartialEq, Eq)]
pub struct PublishPlan {
    /// The owning process.
    pub proc: u32,
    /// The target GPU.
    pub gpu: u32,
    /// The address space.
    pub pdb: u64,
    /// The guest address being backed.
    pub va: u64,
    /// The length.
    pub len: u64,
    /// The host address space as seen at plan time.
    pub host_vas: Option<HostHandle>,
}

/// The plan of a backing publication: a retired process, the system process, an unknown
/// address space, a missing arena or isolate, and an address already bound are refused,
/// in that order; otherwise the publication is planned at the guest's own address.
pub open spec fn spec_plan_publish(p: ProcView, gpu: u32, pdb: u64, va: u64, len: u64) -> Result<
    Planned<PublishPlan>,
    FwdFault,
> {
    if p.retired {
        Err(FwdFault::RetiredProc(p.id))
    } else if p.system {
        Err(FwdFault::SystemDataPlane)
    } else {
        match spec_vas(p, gpu, pdb) {
            None => Err(FwdFault::UnknownPdb { gpu, pdb }),
            Some(v) => if !p.arenas@.contains(gpu) {
                Err(FwdFault::NoTarget { proc: p.id, gpu })
            } else if !p.isolates@.contains(gpu) {
                Err(spec_missing_isolate(p, gpu))
            } else if spec_resolve(v.table.entries@, pdb, va) is Ok {
                Err(FwdFault::Address(AddressFault::Overlap { pdb, va }))
            } else {
                Ok(
                    Planned {
                        plan: PublishPlan { proc: p.id, gpu, pdb, va, len, host_vas: v.host_vas },
                        verbs: Some(Verb::Publish { host_vas: v.host_vas, len, at: va }),
                    },
                )
            },
        }
    }
}

/// Plan backing `[va, va+len)` in the address space `(gpu, pdb)` of `p` with host sysmem.
pub fn plan_publish(p: &ProcView, gpu: u32, pdb: u64, va: u64, len: u64) -> (r: Result<
    Planned<PublishPlan>,
    FwdFault,
>)
    ensures
        r == spec_plan_publish(*p, gpu, pdb, va, len),
{
    if p.retired {
        return Err(FwdFault::RetiredProc(p.id));
    }
    if p.system {
        return Err(FwdFault::SystemDataPlane);
    }
    let v = match p.vas(gpu, pdb) {
        Some(v) => v,
        None => {
            return Err(FwdFault::UnknownPdb { gpu, pdb });
        },
    };
    if !holds(&p.arenas, gpu) {
        return Err(FwdFault::NoTarget { proc: p.id, gpu });
    }
    if !holds(&p.isolates, gpu) {
        return Err(missing_isolate(p, gpu));
    }
    if v.table.resolve(pdb, va).is_ok() {
        return Err(FwdFault::Address(AddressFault::Overlap { pdb, va }));
    }
    Ok(
        Planned {
            plan: PublishPlan { proc: p.id, gpu, pdb, va, len, host_vas: v.host_vas },
            verbs: Some(Verb::Publish { host_vas: v.host_vas, len, at: va }),
        },
    )
}


/// `a + b`, saturating at the top of the address space.
pub open spec fn sat_add_u64(a: u64, b: u64) -> u64 {
    if a + b > u64::MAX {
        u64::MAX
    } else {
        (a + b) as u64
    }
}

/// The last of the first `n` pins whose base lies below `va` — with bases increasing, the
/// nearest pin starting below it.
pub open spec fn last_below(s: Seq<GuestRamPin>, va: u64, n: int) -> Option<int>
    decreases n,
{
    if n <= 0 || n > s.len() {
        None
    } else if s[n - 1].base < va {
        Some(n - 1)
    } else {
        last_below(s, va, n - 1)
    }
}

/// The first pin at or after position `i` whose base is at or above `va` — with bases
/// increasing, the nearest pin starting at or above it.
pub open spec fn first_at_or_above(s: Seq<GuestRamPin>, va: u64, i: int) -> Option<int>
    decreases s.len() - i,
{
    if i < 0 || i >= s.len() {
        None
    } else if s[i].base >= va {
        Some(i)
    } else {
        first_at_or_above(s, va, i + 1)
    }
}

/// The first pin at or after position `i` based exactly at `va`.
pub open spec fn pin_from(s: Seq<GuestRamPin>, va: u64, i: int) -> Option<GuestRamPin>
    decreases s.len() - i,
{
    if i < 0 || i >= s.len() {
        None
    } else if s[i].base == va {
        Some(s[i])
    } else {
        pin_from(s, va, i + 1)
    }
}

/// The live pin based at `va`.
pub open spec fn spec_pin_at(s: Seq<GuestRamPin>, va: u64) -> Option<GuestRamPin> {
    pin_from(s, va, 0)
}

/// The collision report for a request `[va, va+len)` against `pin`.
pub open spec fn overlap_with(va: u64, len: u64, pin: GuestRamPin, free_prefix: u64) -> GuestRamPinOverlap {
    GuestRamPinOverlap {
        va,
        requested: len,
        existing_base: pin.base,
        existing_len: pin.len,
        free_prefix,
    }
}

/// The live pin in the way of `[va, va+len)`, nearest first: one starting below `va` and
/// reaching into the request leaves no clear prefix; otherwise one starting inside the
/// request leaves the bytes below it clear. An empty request collides with nothing.
pub open spec fn spec_overlapping_pin(s: Seq<GuestRamPin>, va: u64, len: u64) -> Option<
    GuestRamPinOverlap,
> {
    if len == 0 {
        None
    } else {
        let end = sat_add_u64(va, len);
        let below = last_below(s, va, s.len() as int);
        if below is Some && sat_add_u64(s[below->0].base, s[below->0].len) > va {
            Some(overlap_with(va, len, s[below->0], 0))
        } else {
            match first_at_or_above(s, va, 0) {
                Some(j) => if s[j].base < end {
                    Some(overlap_with(va, len, s[j], (s[j].base - va) as u64))
                } else {
                    None
                },
                None => None,
            }
        }
    }
}

/// What [`last_below`] finds starts below `va`.
pub proof fn lemma_last_below(s: Seq<GuestRamPin>, va: u64, n: int)
    ensures
        last_below(s, va, n) matches Some(i) ==> 0 <= i < n <= s.len() && s[i].base < va,
    decreases n,
{
    if 0 < n <= s.len() && s[n - 1].base >= va {
        lemma_last_below(s, va, n - 1);
    }
}

/// What [`first_at_or_above`] finds starts at or above `va`.
pub proof fn lemma_first_at_or_above(s: Seq<GuestRamPin>, va: u64, i: int)
    ensures
        first_at_or_above(s, va, i) matches Some(j) ==> 0 <= i <= j < s.len() && s[j].base >= va,
    decreases s.len() - i,
{
    if 0 <= i < s.len() && s[i].base < va {
        lemma_first_at_or_above(s, va, i + 1);
    }
}

/// The live pin that collides with `[va, va+len)`, if any (see [`spec_overlapping_pin`]).
pub fn overlapping_pin(vas: &VasView, va: u64, len: u64) -> (r: Option<GuestRamPinOverlap>)
    ensures
        r == spec_overlapping_pin(vas.pins@, va, len),
{
    if len == 0 {
        return None;
    }
    let ghost s = vas.pins@;
    proof {
        lemma_last_below(s, va, s.len() as int);
        lemma_first_at_or_above(s, va, 0);
    }
    let end = if va > u64::MAX - len {
        u64::MAX
    } else {
        va + len
    };
    let mut below: Option<usize> = None;
    let mut above: Option<usize> = None;
    let mut i: usize = 0;
    while i < vas.pins.len()
        invariant
            i <= vas.pins.len(),
            s == vas.pins@,
            match below {
                Some(b) => last_below(s, va, i as int) == Some(b as int),
                None => last_below(s, va, i as int) is None,
            },
            match above {
                Some(a) => a < i && first_at_or_above(s, va, 0) == Some(a as int),
                None => first_at_or_above(s, va, 0) == first_at_or_above(s, va, i as int),
            },
        decreases vas.pins.len() - i,
    {
        if vas.pins[i].base < va {
            below = Some(i);
        } else if above.is_none() {
            above = Some(i);
        }
        i = i + 1;
    }
    if let Some(b) = below {
        let pin = vas.pins[b];
        let reach = if pin.base > u64::MAX - pin.len {
            u64::MAX
        } else {
            pin.base + pin.len
        };
        if reach > va {
            return Some(
                GuestRamPinOverlap {
                    va,
                    requested: len,
                    existing_base: pin.base,
                    existing_len: pin.len,
                    free_prefix: 0,
                },
            );
        }
    }
    match above {
        Some(a) => {
            let pin = vas.pins[a];
            if pin.base < end {
                Some(
                    GuestRamPinOverlap {
                        va,
                        requested: len,
                        existing_base: pin.base,
                        existing_len: pin.len,
                        free_prefix: pin.base - va,
                    },
                )
            } else {
                None
            }
        },
        None => None,
    }
}

/// The live pin based exactly at `va`.
pub fn pin_at(vas: &VasView, va: u64) -> (r: Option<GuestRamPin>)
    ensures
        r == spec_pin_at(vas.pins@, va),
{
    let mut i: usize = 0;
    while i < vas.pins.len()
        invariant
            i <= vas.pins.len(),
            pin_from(vas.pins@, va, 0) == pin_from(vas.pins@, va, i as int),
        decreases vas.pins.len() - i,
    {
        if vas.pins[i].base == va {
            return Some(vas.pins[i]);
        }
        i = i + 1;
    }
    None
}


/// What [`plan_pin_guest_ram`] hands its commit.
#[derive(Debug, Clone, Copy, PartialEq, Eq)]
pub struct PinGuestRamPlan {
    /// The owning process.
    pub proc: u32,
    /// The target GPU.
    pub gpu: u32,
    /// The address space.
    pub pdb: u64,
    /// The guest address the pages must be reachable at.
    pub va: u64,
    /// The VMM's grant.
    pub grant: GuestRamGrant,
    /// The host address space as seen at plan time.
    pub host_vas: Option<HostHandle>,
    /// The live pin this plan found at `va`: the idempotent replay.
    pub existing: Option<GuestRamPin>,
}

/// Whether `ap` is host system memory.
pub open spec fn is_sysmem(ap: Aperture) -> bool {
    ap == Aperture::SysmemCoherent || ap == Aperture::SysmemNonCoherent
}

/// The plan of a guest-RAM pin. After the process checks, a live pin at `va` that
/// describes at least the grant is replayed with no host work and one that describes
/// less is refused; otherwise a pin in the way is refused, and the address must resolve
/// to sysmem that is not already host-published.
pub open spec fn spec_plan_pin_guest_ram(
    p: ProcView,
    gpu: u32,
    pdb: u64,
    va: u64,
    grant: GuestRamGrant,
) -> Result<Planned<PinGuestRamPlan>, FwdFault> {
    if p.retired {
        Err(FwdFault::RetiredProc(p.id))
    } else if p.system {
        Err(FwdFault::SystemDataPlane)
    } else {
        match spec_vas(p, gpu, pdb) {
            None => Err(FwdFault::UnknownPdb { gpu, pdb }),
            Some(v) => if !p.isolates@.contains(gpu) {
                Err(spec_missing_isolate(p, gpu))
            } else {
                let plan = PinGuestRamPlan {
                    proc: p.id,
                    gpu,
                    pdb,
                    va,
                    grant,
                    host_vas: v.host_vas,
                    existing: None,
                };
                match spec_pin_at(v.pins@, va) {
                    Some(e) => if e.len < grant.len {
                        Err(
                            FwdFault::GuestRamPinTooShort {
                                va,
                                described: e.len,
                                requested: grant.len,
                            },
                        )
                    } else {
                        Ok(Planned { plan: PinGuestRamPlan { existing: Some(e), ..plan }, verbs: None })
                    },
                    None => match spec_overlapping_pin(v.pins@, va, grant.len) {
                        Some(o) => Err(FwdFault::GuestRamPinOverlaps(o)),
                        None => match spec_resolve(v.table.entries@, pdb, va) {
                            Err(f) => Err(FwdFault::Address(f)),
                            Ok((b, _)) => if !is_sysmem(b.aperture) {
                                Err(FwdFault::GuestRamNotSysmem { va, aperture: b.aperture })
                            } else {
                                match b.host {
                                    Some(h) => Err(
                                        FwdFault::GuestRamAddressTaken { va, host_va: h.host_va },
                                    ),
                                    None => Ok(
                                        Planned {
                                            plan,
                                            verbs: Some(
                                                Verb::PinGuestRam {
                                                    host_vas: v.host_vas,
                                                    grant,
                                                    at: va,
                                                },
                                            ),
                                        },
                                    ),
                                }
                            },
                        },
                    },
                }
            },
        }
    }
}

/// Plan pinning the guest's own pages named by `grant` into the host address space at
/// `va` (see [`spec_plan_pin_guest_ram`]). The grant's offset and length are routed, never
/// checked against anything but the extent already described at this base.
pub fn plan_pin_guest_ram(
    p: &ProcView,
    gpu: u32,
    pdb: u64,
    va: u64,
    grant: GuestRamGrant,
) -> (r: Result<Planned<PinGuestRamPlan>, FwdFault>)
    ensures
        r == spec_plan_pin_guest_ram(*p, gpu, pdb, va, grant),
{
    if p.retired {
        return Err(FwdFault::RetiredProc(p.id));
    }
    if p.system {
        return Err(FwdFault::SystemDataPlane);
    }
    let v = match p.vas(gpu, pdb) {
        Some(v) => v,
        None => {
            return Err(FwdFault::UnknownPdb { gpu, pdb });
        },
    };
    if !holds(&p.isolates, gpu) {
        return Err(missing_isolate(p, gpu));
    }
    if let Some(e) = pin_at(v, va) {
        if e.len < grant.len {
            return Err(
                FwdFault::GuestRamPinTooShort { va, described: e.len, requested: grant.len },
            );
        }
        return Ok(
            Planned {
                plan: PinGuestRamPlan {
                    proc: p.id,
                    gpu,
                    pdb,
                    va,
                    grant,
                    host_vas: v.host_vas,
                    existing: Some(e),
                },
                verbs: None,
            },
        );
    }
    if let Some(o) = overlapping_pin(v, va, grant.len) {
        return Err(FwdFault::GuestRamPinOverlaps(o));
    }
    let b = match v.table.resolve(pdb, va) {
        Ok((b, _)) => b,
        Err(f) => {
            return Err(FwdFault::Address(f));
        },
    };
    match b.aperture {
        Aperture::SysmemCoherent | Aperture::SysmemNonCoherent => {},
        _ => {
            return Err(FwdFault::GuestRamNotSysmem { va, aperture: b.aperture });
        },
    }
    if let Some(h) = b.host {
        return Err(FwdFault::GuestRamAddressTaken { va, host_va: h.host_va });
    }
    Ok(
        Planned {
            plan: PinGuestRamPlan {
                proc: p.id,
                gpu,
                pdb,
                va,
                grant,
                host_vas: v.host_vas,
                existing: None,
            },
            verbs: Some(Verb::PinGuestRam { host_vas: v.host_vas, grant, at: va }),
        },
    )
}


/// Host objects a refused commit could not adopt: mappings to undo and objects to free,
/// in release order.
#[derive(Debug, Clone, PartialEq, Eq)]
pub struct Orphans {
    /// `(host address space, host address)` mappings to undo.
    pub unmap: Vec<(HostHandle, u64)>,
    /// Objects to free.
    pub free: Vec<HostHandle>,
}

/// A commit's loud refusal: why, what it could not adopt, and whether to re-plan from the
/// top (the world moved toward an answer) or surface the fault (the target is gone).
#[derive(Debug, Clone, PartialEq, Eq)]
pub struct Refusal {
    /// The fault to surface if this is not retried.
    pub fault: FwdFault,
    /// What the caller must release.
    pub orphans: Orphans,
    /// Whether re-planning is the resolution.
    pub retry: bool,
}

/// Whether `f` is the refusal `(fault, unmap, free, retry)`.
pub open spec fn refused(
    f: Refusal,
    fault: FwdFault,
    unmap: Seq<(HostHandle, u64)>,
    free: Seq<HostHandle>,
    retry: bool,
) -> bool {
    f.fault == fault && f.orphans.unmap@ == unmap && f.orphans.free@ == free && f.retry == retry
}

/// What the host work of a plan answered.
#[derive(Debug, Clone, PartialEq, Eq)]
pub enum VerbReply {
    /// A control ran; its answer payload.
    Control {
        /// The payload the host answered with.
        payload: Vec<u8>,
    },
    /// A partitioned copy ran: how many sub-copies each executor took.
    CeSplit {
        /// Sub-copies the host copy engine ran.
        host_ce: usize,
        /// Sub-copies our executor ran.
        ours: usize,
    },
    /// An engine object was allocated.
    EngineObject {
        /// The host address space, where the work allocated one.
        host_vas: Option<HostHandle>,
        /// The channel's host handles, where the work materialized it.
        channel: Option<(HostHandle, u64)>,
        /// The engine object.
        object: HostHandle,
    },
    /// Host sysmem was minted and mapped.
    Published {
        /// The host address space, where the work allocated one.
        host_vas: Option<HostHandle>,
        /// The memory object.
        memory: HostHandle,
        /// Where the host mapped it: the guest's own address.
        host_va: u64,
    },
    /// A framebuffer leaf was joined: one memory, exported for the guest's own view.
    FbLeafJoined {
        /// The host address space, where the work allocated one.
        host_vas: Option<HostHandle>,
        /// The backing the VMM maps as the guest's view of the leaf.
        backing: u64,
        /// The memory object.
        memory: HostHandle,
        /// Where the host placed it.
        host_va: u64,
    },
    /// A doorbell was rung.
    Doorbell {
        /// The host address space, where the work allocated one.
        host_vas: Option<HostHandle>,
        /// The channel's host handles, where the work materialized it.
        channel: Option<(HostHandle, u64)>,
        /// Whether the work scheduled the channel.
        scheduled: bool,
    },
    /// A guest-RAM pin was placed.
    GuestRamPinned {
        /// The host address space, where the work allocated one.
        host_vas: Option<HostHandle>,
        /// The isolate's window onto the pages.
        mapped: u64,
        /// The descriptor object.
        memory: HostHandle,
        /// Where the host placed the pages.
        host_va: u64,
    },
}

/// What one guest-RAM pin produced.
#[derive(Debug, Clone, Copy, PartialEq, Eq)]
pub struct GuestRamPinned {
    /// Where the guest's pages are placed in the host address space.
    pub host_va: u64,
    /// The descriptor object.
    pub memory: HostHandle,
    /// Whether the pin was found already live rather than made now.
    pub already: bool,
    /// How many bytes are described at `host_va` after the call.
    pub described: u64,
}

/// The position at or after `i` of the first pin based above `base`: where a pin based at
/// `base` goes to keep the bases increasing.
pub open spec fn insert_pos(s: Seq<GuestRamPin>, base: u64, i: int) -> int
    decreases s.len() - i,
{
    if i < 0 || i >= s.len() {
        s.len() as int
    } else if s[i].base > base {
        i
    } else {
        insert_pos(s, base, i + 1)
    }
}

/// `s` with `pin` added at its place in base order.
pub open spec fn pins_with(s: Seq<GuestRamPin>, pin: GuestRamPin) -> Seq<GuestRamPin> {
    s.insert(insert_pos(s, pin.base, 0), pin)
}

/// [`insert_pos`] is a position in the sequence.
pub proof fn lemma_insert_pos(s: Seq<GuestRamPin>, base: u64, i: int)
    requires
        0 <= i <= s.len(),
    ensures
        i <= insert_pos(s, base, i) <= s.len(),
    decreases s.len() - i,
{
    if i < s.len() && s[i].base <= base {
        lemma_insert_pos(s, base, i + 1);
    }
}

/// Whether `new` is `old` with its address space at position `k` given host address
/// space `host_vas` and pins `pins`, and nothing else changed.
pub open spec fn vas_updated(
    old: ProcView,
    new: ProcView,
    k: int,
    host_vas: Option<HostHandle>,
    pins: Seq<GuestRamPin>,
) -> bool {
    &&& 0 <= k < old.vases@.len()
    &&& new.id == old.id && new.system == old.system && new.retired == old.retired
    &&& new.arenas == old.arenas && new.isolates == old.isolates && new.wanted == old.wanted
    &&& new.channels == old.channels && new.requested == old.requested
    &&& new.scheduled == old.scheduled && new.last_token == old.last_token
    &&& new.vases@.len() == old.vases@.len()
    &&& forall|j: int| 0 <= j < old.vases@.len() && j != k ==> new.vases@[j] == old.vases@[j]
    &&& new.vases@[k].gpu == old.vases@[k].gpu && new.vases@[k].pdb == old.vases@[k].pdb
    &&& new.vases@[k].table == old.vases@[k].table
    &&& new.vases@[k].blocks == old.vases@[k].blocks
    &&& new.vases@[k].host_vas == host_vas
    &&& new.vases@[k].pins@ == pins
}

/// Why a fresh pin's commit refuses, in order, as `(fault, unmap, free, retry)` — `None`
/// when it adopts the reply. The process must still be the planner and live; the
/// descriptor must be this isolate's; the address space must still exist; a host address
/// space a sibling materialized first wins; and a pin a sibling placed at or into the
/// range in the gap wins.
pub open spec fn pin_commit_refusal(
    p: ProcView,
    plan: PinGuestRamPlan,
    fresh_vas: Option<HostHandle>,
    memory: HostHandle,
    host_va: u64,
) -> Option<(FwdFault, Seq<(HostHandle, u64)>, Seq<HostHandle>, bool)> {
    let vas_used = if fresh_vas is Some { fresh_vas->0 } else { plan.host_vas->0 };
    let unmap = seq![(vas_used, host_va)];
    let free = if fresh_vas is Some { seq![fresh_vas->0, memory] } else { seq![memory] };
    let isolate = IsolateId { proc: p.id, gpu: plan.gpu };
    if p.retired || p.id != plan.proc {
        Some((FwdFault::Stale(Stale::Proc(plan.proc)), unmap, free, false))
    } else if !(memory.proc == isolate.proc && memory.gpu == isolate.gpu) {
        Some((FwdFault::ForeignBacking { isolate, memory }, Seq::empty(), Seq::empty(), false))
    } else {
        match spec_vas(p, plan.gpu, plan.pdb) {
            None => Some(
                (FwdFault::Stale(Stale::Vas { gpu: plan.gpu, pdb: plan.pdb }), unmap, free, false),
            ),
            Some(v) => if v.host_vas is Some && fresh_vas is Some && v.host_vas != fresh_vas {
                Some(
                    (
                        FwdFault::Stale(Stale::Rebound),
                        seq![(fresh_vas->0, host_va)],
                        free,
                        true,
                    ),
                )
            } else {
                match spec_pin_at(v.pins@, plan.va) {
                    Some(theirs) => Some(
                        (
                            FwdFault::GuestRamAddressTaken { va: plan.va, host_va: theirs.host_va },
                            unmap,
                            free,
                            true,
                        ),
                    ),
                    None => match spec_overlapping_pin(v.pins@, plan.va, plan.grant.len) {
                        Some(o) => Some((FwdFault::GuestRamPinOverlaps(o), unmap, free, true)),
                        None => None,
                    },
                }
            },
        }
    }
}

/// Commit a guest-RAM pin: a replay reports the live pin; a fresh pin is re-validated
/// against the state now (see [`pin_commit_refusal`]) and then recorded at its base, with
/// the host address space the work allocated adopted where it allocated one.
pub fn commit_pin_guest_ram(p: &mut ProcView, plan: &PinGuestRamPlan, reply: Option<VerbReply>) -> (r:
    Result<GuestRamPinned, Refusal>)
    requires
        plan.existing is Some ==> reply is None,
        plan.existing is None ==> (reply matches Some(VerbReply::GuestRamPinned { host_vas, .. })
            && (host_vas is Some || plan.host_vas is Some)),
    ensures
        same_keys(*old(p), *final(p)),
        plan.existing matches Some(e) ==> (r == Ok::<GuestRamPinned, Refusal>(
            GuestRamPinned { host_va: e.host_va, memory: e.memory, already: true, described: e.len },
        ) && *final(p) == *old(p)),
        reply matches Some(VerbReply::GuestRamPinned { host_vas, mapped, memory, host_va }) ==> {
            match pin_commit_refusal(*old(p), *plan, host_vas, memory, host_va) {
                Some((fault, unmap, free, retry)) => r matches Err(f) && refused(
                    f,
                    fault,
                    unmap,
                    free,
                    retry,
                ) && *final(p) == *old(p),
                None => {
                    let k = vas_pos(old(p).vases@, plan.gpu, plan.pdb, 0)->0;
                    let v = old(p).vases@[k];
                    let pin = GuestRamPin {
                        base: plan.va,
                        len: plan.grant.len,
                        host_va,
                        memory,
                        mapped,
                    };
                    &&& r == Ok::<GuestRamPinned, Refusal>(
                        GuestRamPinned { host_va, memory, already: false, described: plan.grant.len },
                    )
                    &&& vas_updated(
                        *old(p),
                        *final(p),
                        k,
                        if host_vas is Some { host_vas } else { v.host_vas },
                        pins_with(v.pins@, pin),
                    )
                },
            }
        },
{
    if let Some(e) = plan.existing {
        return Ok(
            GuestRamPinned { host_va: e.host_va, memory: e.memory, already: true, described: e.len },
        );
    }
    let (fresh_vas, mapped, memory, host_va) = match reply {
        Some(VerbReply::GuestRamPinned { host_vas, mapped, memory, host_va }) => (
            host_vas,
            mapped,
            memory,
            host_va,
        ),
        _ => {
            proof {
                assert(false);
            }
            return Err(
                Refusal {
                    fault: FwdFault::SystemDataPlane,
                    orphans: Orphans { unmap: Vec::new(), free: Vec::new() },
                    retry: false,
                },
            );
        },
    };
    let vas_used = match fresh_vas {
        Some(h) => h,
        None => match plan.host_vas {
            Some(h) => h,
            None => {
                proof {
                    assert(false);
                }
                memory
            },
        },
    };
    let unmap = vec![(vas_used, host_va)];
    let free = match fresh_vas {
        Some(h) => vec![h, memory],
        None => vec![memory],
    };
    proof {
        assert(unmap@ =~= seq![(vas_used, host_va)]);
        if fresh_vas is Some {
            assert(free@ =~= seq![fresh_vas->0, memory]);
        } else {
            assert(free@ =~= seq![memory]);
        }
    }
    if p.retired || p.id != plan.proc {
        return Err(
            Refusal {
                fault: FwdFault::Stale(Stale::Proc(plan.proc)),
                orphans: Orphans { unmap, free },
                retry: false,
            },
        );
    }
    let isolate = IsolateId { proc: p.id, gpu: plan.gpu };
    if !memory.belongs_to(isolate) {
        return Err(
            Refusal {
                fault: FwdFault::ForeignBacking { isolate, memory },
                orphans: Orphans { unmap: Vec::new(), free: Vec::new() },
                retry: false,
            },
        );
    }
    let k = match p.vas_position(plan.gpu, plan.pdb) {
        Some(k) => k,
        None => {
            return Err(
                Refusal {
                    fault: FwdFault::Stale(Stale::Vas { gpu: plan.gpu, pdb: plan.pdb }),
                    orphans: Orphans { unmap, free },
                    retry: false,
                },
            );
        },
    };
    if let (Some(theirs), Some(ours)) = (p.vases[k].host_vas, fresh_vas) {
        if theirs != ours {
            let unmap_ours = vec![(ours, host_va)];
            proof {
                assert(unmap_ours@ =~= seq![(ours, host_va)]);
            }
            return Err(
                Refusal {
                    fault: FwdFault::Stale(Stale::Rebound),
                    orphans: Orphans { unmap: unmap_ours, free },
                    retry: true,
                },
            );
        }
    }
    if let Some(theirs) = pin_at(&p.vases[k], plan.va) {
        return Err(
            Refusal {
                fault: FwdFault::GuestRamAddressTaken { va: plan.va, host_va: theirs.host_va },
                orphans: Orphans { unmap, free },
                retry: true,
            },
        );
    }
    if let Some(o) = overlapping_pin(&p.vases[k], plan.va, plan.grant.len) {
        return Err(
            Refusal {
                fault: FwdFault::GuestRamPinOverlaps(o),
                orphans: Orphans { unmap, free },
                retry: true,
            },
        );
    }
    let pin = GuestRamPin { base: plan.va, len: plan.grant.len, host_va, memory, mapped };
    let ghost old_p = *p;
    let mut v = p.vases.remove(k);
    if let Some(h) = fresh_vas {
        v.host_vas = Some(h);
    }
    let pos = pin_insert_position(&v.pins, plan.va);
    v.pins.insert(pos, pin);
    p.vases.insert(k, v);
    proof {
        assert(p.vases@ =~= old_p.vases@.update(k as int, v));
    }
    Ok(GuestRamPinned { host_va, memory, already: false, described: plan.grant.len })
}

/// Where a pin based at `base` goes among `pins` to keep the bases increasing.
pub fn pin_insert_position(pins: &Vec<GuestRamPin>, base: u64) -> (r: usize)
    ensures
        r == insert_pos(pins@, base, 0),
        r <= pins.len(),
{
    proof {
        lemma_insert_pos(pins@, base, 0);
    }
    let mut i: usize = 0;
    while i < pins.len()
        invariant
            i <= pins.len(),
            insert_pos(pins@, base, 0) == insert_pos(pins@, base, i as int),
        decreases pins.len() - i,
    {
        if pins[i].base > base {
            return i;
        }
        i = i + 1;
    }
    i
}


/// A lookup that finds nothing from `i` on saw no pin based there.
pub proof fn lemma_pin_from_none(s: Seq<GuestRamPin>, base: u64, i: int)
    requires
        0 <= i,
        pin_from(s, base, i) is None,
    ensures
        forall|j: int| i <= j < s.len() ==> s[j].base != base,
    decreases s.len() - i,
{
    if i < s.len() {
        lemma_pin_from_none(s, base, i + 1);
    }
}

/// A pin added where no pin was based is what a lookup at its base finds.
pub proof fn lemma_inserted_pin_found(s: Seq<GuestRamPin>, pin: GuestRamPin, i: int, at: int)
    requires
        0 <= i,
        0 <= at <= s.len(),
        forall|j: int| 0 <= j < s.len() ==> s[j].base != pin.base,
    ensures
        pin_from(s.insert(at, pin), pin.base, i) == (if i <= at { Some(pin) } else { None::<
            GuestRamPin,
        > }),
    decreases s.len() + 1 - i,
{
    let t = s.insert(at, pin);
    if i < t.len() {
        if i < at {
            assert(t[i] == s[i]);
            lemma_inserted_pin_found(s, pin, i + 1, at);
        } else if i == at {
        } else {
            assert(t[i] == s[i - 1]);
            lemma_inserted_pin_found(s, pin, i + 1, at);
        }
    }
}

/// Two address-space lists with the same keys, position by position, find the same
/// position for every key.
pub proof fn lemma_vas_pos_same_keys(a: Seq<VasView>, b: Seq<VasView>, gpu: u32, pdb: u64, i: int)
    requires
        a.len() == b.len(),
        forall|j: int| 0 <= j < a.len() ==> a[j].gpu == b[j].gpu && a[j].pdb == b[j].pdb,
    ensures
        vas_pos(a, gpu, pdb, i) == vas_pos(b, gpu, pdb, i),
    decreases a.len() - i,
{
    if 0 <= i < a.len() {
        lemma_vas_pos_same_keys(a, b, gpu, pdb, i + 1);
    }
}

/// Pinning is idempotent: once a planned pin has been committed, planning the same grant
/// at the same address again is answered from core state — the live pin, with no host
/// work.
pub proof fn law_committed_pin_is_replayed(
    old: ProcView,
    new: ProcView,
    gpu: u32,
    pdb: u64,
    va: u64,
    grant: GuestRamGrant,
    fresh_vas: Option<HostHandle>,
    mapped: u64,
    memory: HostHandle,
    host_va: u64,
)
    requires
        spec_plan_pin_guest_ram(old, gpu, pdb, va, grant) matches Ok(planned) && planned.verbs
            is Some && pin_commit_refusal(old, planned.plan, fresh_vas, memory, host_va) is None
            && vas_updated(
            old,
            new,
            vas_pos(old.vases@, gpu, pdb, 0)->0,
            if fresh_vas is Some { fresh_vas } else { old.vases@[vas_pos(old.vases@, gpu, pdb, 0)->0].host_vas },
            pins_with(
                old.vases@[vas_pos(old.vases@, gpu, pdb, 0)->0].pins@,
                GuestRamPin { base: va, len: grant.len, host_va, memory, mapped },
            ),
        ),
    ensures
        spec_plan_pin_guest_ram(new, gpu, pdb, va, grant) matches Ok(again) && again.verbs is None
            && again.plan.existing == Some(
            GuestRamPin { base: va, len: grant.len, host_va, memory, mapped },
        ),
{
    let k = vas_pos(old.vases@, gpu, pdb, 0)->0;
    lemma_vas_pos(old.vases@, gpu, pdb, 0);
    lemma_vas_pos_same_keys(old.vases@, new.vases@, gpu, pdb, 0);
    let pin = GuestRamPin { base: va, len: grant.len, host_va, memory, mapped };
    let s = old.vases@[k].pins@;
    lemma_insert_pos(s, va, 0);
    lemma_pin_from_none(s, va, 0);
    lemma_inserted_pin_found(s, pin, 0, insert_pos(s, va, 0));
}


/// The granule a framebuffer leaf must be placed at: the host places a leaf of this
/// size and alignment exactly, and anything else would be rounded past the leaf's end.
pub const FB_LEAF_GRANULE: u64 = 0x1_0000;

/// What [`plan_back_fb_leaf`] hands its commit.
#[derive(Debug, Clone, Copy, PartialEq, Eq)]
pub struct BackFbLeafPlan {
    /// The owning process.
    pub proc: u32,
    /// The target GPU.
    pub gpu: u32,
    /// The address space.
    pub pdb: u64,
    /// The leaf's guest address.
    pub va: u64,
    /// Its length.
    pub len: u64,
    /// The walk's framebuffer offset for it.
    pub phys: u64,
    /// The host address space as seen at plan time.
    pub host_vas: Option<HostHandle>,
    /// The host placement already backing the leaf: the idempotent replay.
    pub existing: Option<(u64, HostHandle)>,
    /// Which chain backs it.
    pub how: FbLeafBacking,
}

/// The plan of backing a framebuffer leaf. After the retired and system checks, a leaf
/// off the granule is refused before any state is read; then the address space, arena
/// and isolate must exist. A binding already at the address must have exactly the leaf's
/// extent and be the walk's vidmem at the walk's offset; if it is host-published the leaf
/// is replayed with no host work, otherwise the chosen chain is planned.
pub open spec fn spec_plan_back_fb_leaf(
    p: ProcView,
    gpu: u32,
    pdb: u64,
    va: u64,
    len: u64,
    phys: u64,
    how: FbLeafBacking,
) -> Result<Planned<BackFbLeafPlan>, FwdFault> {
    if p.retired {
        Err(FwdFault::RetiredProc(p.id))
    } else if p.system {
        Err(FwdFault::SystemDataPlane)
    } else if len < FB_LEAF_GRANULE || len % FB_LEAF_GRANULE != 0 || va % FB_LEAF_GRANULE != 0 {
        Err(FwdFault::FbLeafGranularity { va, len })
    } else {
        match spec_vas(p, gpu, pdb) {
            None => Err(FwdFault::UnknownPdb { gpu, pdb }),
            Some(v) => if !p.arenas@.contains(gpu) {
                Err(FwdFault::NoTarget { proc: p.id, gpu })
            } else if !p.isolates@.contains(gpu) {
                Err(spec_missing_isolate(p, gpu))
            } else {
                let found = spec_binding_at(v.table.entries@, va);
                if found is Some && (found->0.start != va || found->0.len != len) {
                    Err(FwdFault::FbLeafExtent { va, len, tabled: (found->0.start, found->0.len) })
                } else if found is Some && (found->0.binding.aperture != Aperture::Vidmem
                    || found->0.binding.phys != phys) {
                    Err(
                        FwdFault::FbLeafDisagrees {
                            va,
                            walked: (phys, Aperture::Vidmem),
                            tabled: (found->0.binding.phys, found->0.binding.aperture),
                        },
                    )
                } else {
                    let existing = if found is Some && found->0.binding.host is Some {
                        Some(
                            (
                                found->0.binding.host->0.host_va,
                                found->0.binding.host->0.memory,
                            ),
                        )
                    } else {
                        None
                    };
                    let host_vas = v.host_vas;
                    Ok(
                        Planned {
                            plan: BackFbLeafPlan {
                                proc: p.id,
                                gpu,
                                pdb,
                                va,
                                len,
                                phys,
                                host_vas,
                                existing,
                                how,
                            },
                            verbs: if existing is Some {
                                None
                            } else {
                                Some(
                                    match how {
                                        FbLeafBacking::Vidmem => Verb::PublishVidmem {
                                            host_vas,
                                            len,
                                            at: va,
                                        },
                                        FbLeafBacking::Joined => Verb::JoinFbLeaf {
                                            host_vas,
                                            len,
                                            at: va,
                                            phys,
                                        },
                                    },
                                )
                            },
                        },
                    )
                }
            },
        }
    }
}

/// Plan backing the framebuffer leaf `[va, va+len)` at the walk's offset `phys` by the
/// chain `how` (see [`spec_plan_back_fb_leaf`]): one decision, made here, and never a
/// fallback from one chain to the other.
pub fn plan_back_fb_leaf(
    p: &ProcView,
    gpu: u32,
    pdb: u64,
    va: u64,
    len: u64,
    phys: u64,
    how: FbLeafBacking,
) -> (r: Result<Planned<BackFbLeafPlan>, FwdFault>)
    ensures
        r == spec_plan_back_fb_leaf(*p, gpu, pdb, va, len, phys, how),
{
    if p.retired {
        return Err(FwdFault::RetiredProc(p.id));
    }
    if p.system {
        return Err(FwdFault::SystemDataPlane);
    }
    if len < FB_LEAF_GRANULE || len % FB_LEAF_GRANULE != 0 || va % FB_LEAF_GRANULE != 0 {
        return Err(FwdFault::FbLeafGranularity { va, len });
    }
    let v = match p.vas(gpu, pdb) {
        Some(v) => v,
        None => {
            return Err(FwdFault::UnknownPdb { gpu, pdb });
        },
    };
    if !holds(&p.arenas, gpu) {
        return Err(FwdFault::NoTarget { proc: p.id, gpu });
    }
    if !holds(&p.isolates, gpu) {
        return Err(missing_isolate(p, gpu));
    }
    let existing = match v.table.binding_at(va) {
        None => None,
        Some(e) => {
            if e.start != va || e.len != len {
                return Err(FwdFault::FbLeafExtent { va, len, tabled: (e.start, e.len) });
            }
            let vidmem = match e.binding.aperture {
                Aperture::Vidmem => true,
                _ => false,
            };
            if !vidmem || e.binding.phys != phys {
                return Err(
                    FwdFault::FbLeafDisagrees {
                        va,
                        walked: (phys, Aperture::Vidmem),
                        tabled: (e.binding.phys, e.binding.aperture),
                    },
                );
            }
            match e.binding.host {
                Some(h) => Some((h.host_va, h.memory)),
                None => None,
            }
        },
    };
    let host_vas = v.host_vas;
    let verbs = if existing.is_some() {
        None
    } else {
        Some(
            match how {
                FbLeafBacking::Vidmem => Verb::PublishVidmem { host_vas, len, at: va },
                FbLeafBacking::Joined => Verb::JoinFbLeaf { host_vas, len, at: va, phys },
            },
        )
    };
    Ok(
        Planned {
            plan: BackFbLeafPlan { proc: p.id, gpu, pdb, va, len, phys, host_vas, existing, how },
            verbs,
        },
    )
}


/// Whether `va` is host-published in the address space: it resolves, to host memory at
/// the guest's own address that is the range's only memory.
pub open spec fn spec_host_published(t: Seq<TableEntry>, pdb: u64, va: u64) -> bool {
    match spec_resolve(t, pdb, va) {
        Ok((b, _)) => b.kind == RegionKind::RealGpuMemory,
        Err(_) => false,
    }
}

/// Whether a real engine may be pointed at `va`: anything but host-published memory is a
/// miss, whatever the reason.
pub fn ring_admits(table: &BindingTable, pdb: u64, va: u64) -> (r: Result<(), FwdFault>)
    ensures
        r == (if spec_host_published(table.entries@, pdb, va) {
            Ok::<(), FwdFault>(())
        } else {
            Err(FwdFault::Address(AddressFault::Miss { pdb, va }))
        }),
{
    match table.resolve(pdb, va) {
        Ok((b, _)) => match b.kind {
            RegionKind::RealGpuMemory => Ok(()),
            _ => Err(FwdFault::Address(AddressFault::Miss { pdb, va })),
        },
        Err(_) => Err(FwdFault::Address(AddressFault::Miss { pdb, va })),
    }
}

/// Where a doorbell routed: the process and channel, and what the token decoded to.
#[derive(Debug, Clone, Copy, PartialEq, Eq)]
pub struct DoorbellRoute {
    /// The owning process.
    pub proc: u32,
    /// The channel.
    pub chan: u32,
    /// The GPU the doorbell trapped on.
    pub gpu: u32,
    /// The decoded vChid.
    pub vchid: u32,
    /// The decoded runlist.
    pub runlist: u32,
    /// The raw token.
    pub token: u64,
}

/// What [`plan_doorbell`] hands its commit.
#[derive(Debug, Clone, Copy, PartialEq, Eq)]
pub struct DoorbellPlan {
    /// The owning process.
    pub proc: u32,
    /// The channel.
    pub chan: u32,
    /// The GPU the doorbell trapped on.
    pub gpu: u32,
    /// The channel's own target GPU.
    pub cgpu: u32,
    /// The decoded vChid.
    pub vchid: u32,
    /// The raw token.
    pub token: u64,
    /// The channel's declared address space.
    pub vas_pdb: Option<u64>,
    /// The channel's host handles as seen at plan time.
    pub channel: Option<(HostHandle, u64)>,
    /// Whether this submission schedules the channel first.
    pub schedule: bool,
}

/// The first address of the working set from position `i` on that the ring gate does not
/// admit: with an address space, one not host-published in it; without one, any address.
pub open spec fn first_ungated(t: Option<(Seq<TableEntry>, u64)>, ws: Seq<u64>, i: int) -> Option<
    u64,
>
    decreases ws.len() - i,
{
    if i < 0 || i >= ws.len() {
        None
    } else if match t {
        Some((e, pdb)) => !spec_host_published(e, pdb, ws[i]),
        None => true,
    } {
        Some(ws[i])
    } else {
        first_ungated(t, ws, i + 1)
    }
}

/// The ring gate over a whole working set in one address space: the first address that
/// is not host-published names the refusal.
pub fn gate_vas(table: &BindingTable, pdb: u64, working_set: &Vec<u64>) -> (r: Result<(), FwdFault>)
    ensures
        r == match first_ungated(Some((table.entries@, pdb)), working_set@, 0) {
            Some(va) => Err(FwdFault::Address(AddressFault::Miss { pdb, va })),
            None => Ok::<(), FwdFault>(()),
        },
{
    let ghost gate = Some((table.entries@, pdb));
    let mut i: usize = 0;
    while i < working_set.len()
        invariant
            i <= working_set.len(),
            gate == Some((table.entries@, pdb)),
            first_ungated(gate, working_set@, 0) == first_ungated(gate, working_set@, i as int),
        decreases working_set.len() - i,
    {
        match ring_admits(table, pdb, working_set[i]) {
            Ok(()) => {},
            Err(f) => {
                return Err(f);
            },
        }
        i = i + 1;
    }
    Ok(())
}

/// Whether channel `cid` of `p` may have its working set `ws` pointed at by a real engine:
/// the channel, its declared address space and that space's table must all be there, and
/// every address must be host-published in it.
pub open spec fn spec_gate_working_set(p: ProcView, cid: u32, ws: Seq<u64>) -> Result<(), FwdFault> {
    match spec_channel(p, cid) {
        None => Err(FwdFault::NoVas(cid)),
        Some(c) => match c.vas_pdb {
            None => Err(FwdFault::NoVas(cid)),
            Some(pdb) => match spec_vas(p, c.gpu, pdb) {
                None => Err(FwdFault::UnknownPdb { gpu: c.gpu, pdb }),
                Some(v) => match first_ungated(Some((v.table.entries@, pdb)), ws, 0) {
                    Some(va) => Err(FwdFault::Address(AddressFault::Miss { pdb, va })),
                    None => Ok(()),
                },
            },
        },
    }
}

/// The query form of the doorbell's ring gate (see [`spec_gate_working_set`]). It cannot
/// ring anything; every miss is a fault.
pub fn gate_working_set_in(p: &ProcView, cid: u32, working_set: &Vec<u64>) -> (r: Result<(), FwdFault>)
    ensures
        r == spec_gate_working_set(*p, cid, working_set@),
{
    let c = match p.channel(cid) {
        Some(c) => c,
        None => return Err(FwdFault::NoVas(cid)),
    };
    let pdb = match c.vas_pdb {
        Some(pdb) => pdb,
        None => return Err(FwdFault::NoVas(cid)),
    };
    let v = match p.vas(c.gpu, pdb) {
        Some(v) => v,
        None => return Err(FwdFault::UnknownPdb { gpu: c.gpu, pdb }),
    };
    gate_vas(&v.table, pdb, working_set)
}

/// The doorbell's gate and its query form agree: where a doorbell on a channel with a
/// declared address space is planned, the query admits the same working set, and where the
/// doorbell is refused by an address miss, the query is refused by the same miss.
pub proof fn law_gate_query_agrees_with_the_doorbell(p: ProcView, route: DoorbellRoute, ws: Seq<u64>)
    requires
        spec_channel(p, route.chan) matches Some(c) && c.vas_pdb is Some,
    ensures
        spec_plan_doorbell(p, route, ws) is Ok ==> spec_gate_working_set(p, route.chan, ws) is Ok,
        spec_plan_doorbell(p, route, ws) matches Err(FwdFault::Address(m)) ==> spec_gate_working_set(
            p,
            route.chan,
            ws,
        ) == Err::<(), FwdFault>(FwdFault::Address(m)),
{
}

/// The plan of one doorbell. The process must be live and own the channel, the channel's
/// own GPU must have an isolate, and a declared address space must exist. A channel with
/// no host handles yet needs an address space to be materialized in. The guest must have
/// asked for the channel to be schedulable. Then every address of the working set must
/// be host-published, before any host work exists; the first that is not names the
/// refusal.
pub open spec fn spec_plan_doorbell(p: ProcView, route: DoorbellRoute, ws: Seq<u64>) -> Result<
    Planned<DoorbellPlan>,
    FwdFault,
> {
    let cid = route.chan;
    if p.retired {
        Err(FwdFault::RetiredProc(route.proc))
    } else {
        match spec_channel(p, cid) {
            None => Err(FwdFault::UnknownVchid { gpu: route.gpu, vchid: route.vchid }),
            Some(c) => {
                let cgpu = c.gpu;
                let vas = match c.vas_pdb {
                    Some(pdb) => spec_vas(p, cgpu, pdb),
                    None => None,
                };
                let channel = if c.host_channel is Some && c.host_token is Some {
                    Some((c.host_channel->0, c.host_token->0))
                } else {
                    None
                };
                if !p.isolates@.contains(cgpu) {
                    Err(spec_missing_isolate(p, cgpu))
                } else if c.vas_pdb is Some && vas is None {
                    Err(FwdFault::UnknownPdb { gpu: cgpu, pdb: c.vas_pdb->0 })
                } else if channel is None && vas is None {
                    Err(FwdFault::NoVas(cid))
                } else if !p.requested@.contains(cid) {
                    Err(FwdFault::NotScheduled { chan: cid, vchid: route.vchid })
                } else {
                    let gate = match (vas, c.vas_pdb) {
                        (Some(v), Some(pdb)) => Some((v.table.entries@, pdb)),
                        _ => None,
                    };
                    match first_ungated(gate, ws, 0) {
                        Some(va) => Err(
                            match c.vas_pdb {
                                Some(pdb) => FwdFault::Address(AddressFault::Miss { pdb, va }),
                                None => FwdFault::NoVas(cid),
                            },
                        ),
                        None => {
                            let schedule = !p.scheduled@.contains(cid);
                            let host_vas = if channel is None {
                                vas->0.host_vas
                            } else {
                                None
                            };
                            Ok(
                                Planned {
                                    plan: DoorbellPlan {
                                        proc: route.proc,
                                        chan: cid,
                                        gpu: route.gpu,
                                        cgpu,
                                        vchid: route.vchid,
                                        token: route.token,
                                        vas_pdb: c.vas_pdb,
                                        channel,
                                        schedule,
                                    },
                                    verbs: Some(
                                        Verb::Doorbell {
                                            host_vas,
                                            channel,
                                            engine: c.engine,
                                            schedule,
                                        },
                                    ),
                                },
                            )
                        },
                    }
                }
            },
        }
    }
}

/// Plan the doorbell `route` with the ring's working set `working_set` (see
/// [`spec_plan_doorbell`]).
#[verifier::loop_isolation(false)]
pub fn plan_doorbell(p: &ProcView, route: &DoorbellRoute, working_set: &Vec<u64>) -> (r: Result<
    Planned<DoorbellPlan>,
    FwdFault,
>)
    ensures
        r == spec_plan_doorbell(*p, *route, working_set@),
{
    let cid = route.chan;
    if p.retired {
        return Err(FwdFault::RetiredProc(route.proc));
    }
    let c = match p.channel(cid) {
        Some(c) => c,
        None => {
            return Err(FwdFault::UnknownVchid { gpu: route.gpu, vchid: route.vchid });
        },
    };
    let cgpu = c.gpu;
    if !holds(&p.isolates, cgpu) {
        return Err(missing_isolate(p, cgpu));
    }
    let vas = match c.vas_pdb {
        Some(pdb) => match p.vas(cgpu, pdb) {
            Some(v) => Some(v),
            None => {
                return Err(FwdFault::UnknownPdb { gpu: cgpu, pdb });
            },
        },
        None => None,
    };
    let channel = match (c.host_channel, c.host_token) {
        (Some(h), Some(t)) => Some((h, t)),
        _ => None,
    };
    let host_vas = if channel.is_none() {
        match vas {
            Some(v) => v.host_vas,
            None => {
                return Err(FwdFault::NoVas(cid));
            },
        }
    } else {
        None
    };
    if !holds(&p.requested, cid) {
        return Err(FwdFault::NotScheduled { chan: cid, vchid: route.vchid });
    }
    let schedule = !holds(&p.scheduled, cid);
    let ghost gate = match (vas, c.vas_pdb) {
        (Some(v), Some(pdb)) => Some((v.table.entries@, pdb)),
        _ => None,
    };
    let mut i: usize = 0;
    while i < working_set.len()
        invariant
            i <= working_set.len(),
            first_ungated(gate, working_set@, 0) == first_ungated(gate, working_set@, i as int),
            gate == match (vas, c.vas_pdb) {
                (Some(v), Some(pdb)) => Some((v.table.entries@, pdb)),
                _ => None::<(Seq<TableEntry>, u64)>,
            },
        decreases working_set.len() - i,
    {
        let va = working_set[i];
        let admitted = match (vas, c.vas_pdb) {
            (Some(v), Some(pdb)) => ring_admits(&v.table, pdb, va).is_ok(),
            _ => false,
        };
        if !admitted {
            return Err(
                match c.vas_pdb {
                    Some(pdb) => FwdFault::Address(AddressFault::Miss { pdb, va }),
                    None => FwdFault::NoVas(cid),
                },
            );
        }
        i = i + 1;
    }
    Ok(
        Planned {
            plan: DoorbellPlan {
                proc: route.proc,
                chan: cid,
                gpu: route.gpu,
                cgpu,
                vchid: route.vchid,
                token: route.token,
                vas_pdb: c.vas_pdb,
                channel,
                schedule,
            },
            verbs: Some(Verb::Doorbell { host_vas, channel, engine: c.engine, schedule }),
        },
    )
}


/// The most of one channel's GPFIFO ring read for a single doorbell: a bound of ours on a
/// length the guest chooses.
pub const MAX_GPFIFO_RING_BYTES: usize = 0x1_0000;

/// A ring read's translated runs and its length.
#[derive(Debug, Clone, PartialEq, Eq)]
pub struct RingPlan {
    /// The runs.
    pub runs: Vec<PushRun>,
    /// The number of ring bytes to read.
    pub len: usize,
}

/// What planning a ring read found: runs to read, or the named reason there is no ring.
#[derive(Debug, Clone, PartialEq, Eq)]
pub enum RingPlanLook {
    /// The ring, translated.
    Planned(RingPlan),
    /// No ring, and why.
    Absent(RingLook),
}

/// The route a vidmem range takes under the switch `vidmem`.
pub open spec fn route_of(vidmem: bool) -> VidmemRoute {
    if vidmem {
        VidmemRoute::OwnFramebuffer
    } else {
        VidmemRoute::Refuse
    }
}

/// The plan of reading a channel's GPFIFO ring: `Ok(Ok((runs, len)))` when there is a
/// ring to read, `Ok(Err(look))` naming why there is none. Nothing declared, a ring
/// declared empty, no address space, and an unbound ring address are facts about the
/// guest, not faults. The ring is read as far as its binding reaches, up to
/// [`MAX_GPFIFO_RING_BYTES`] — never as far as the guest's entry count claims.
pub open spec fn spec_plan_gpfifo_ring(p: ProcView, cid: u32, vidmem: bool) -> Result<
    Result<(Seq<PushRun>, usize), RingLook>,
    FwdFault,
> {
    if p.retired {
        Err(FwdFault::RetiredProc(p.id))
    } else {
        match spec_channel(p, cid) {
            None => Err(FwdFault::NoVas(cid)),
            Some(c) => match c.ring {
                RingDecl::NoNode => Ok(Err(RingLook::NoChannelNode)),
                RingDecl::Undeclared => Ok(Err(RingLook::NoRingDeclared)),
                RingDecl::Declared { va, entries } => if va == 0 || entries == 0 {
                    Ok(Err(RingLook::RingDeclaredEmpty { va, entries }))
                } else {
                    match c.vas_pdb {
                        None => Ok(Err(RingLook::NoAddressSpace)),
                        Some(pdb) => match spec_vas(p, c.gpu, pdb) {
                            None => Err(FwdFault::UnknownPdb { gpu: c.gpu, pdb }),
                            Some(v) => match spec_binding_at(v.table.entries@, va) {
                                None => Ok(Err(RingLook::RingVaUnbound { va })),
                                Some(e) => {
                                    let mapped = e.start + e.len - va;
                                    let len = if mapped < MAX_GPFIFO_RING_BYTES {
                                        mapped
                                    } else {
                                        MAX_GPFIFO_RING_BYTES as int
                                    };
                                    if len <= 0 {
                                        Ok(Err(RingLook::RingMappedZero { va }))
                                    } else {
                                        match push_walk(
                                            v.table.entries@,
                                            pdb,
                                            PushRange { va, len: len as u64 },
                                            len as nat,
                                            route_of(vidmem),
                                            0,
                                            0,
                                        ) {
                                            Ok(runs) => Ok(Ok((runs, len as usize))),
                                            Err(f) => Err(f),
                                        }
                                    }
                                },
                            },
                        },
                    }
                },
            },
        }
    }
}

/// Plan reading channel `cid`'s GPFIFO ring (see [`spec_plan_gpfifo_ring`]); `vidmem`
/// lets a ring in vidmem be read out of our own framebuffer.
pub fn plan_gpfifo_ring(p: &ProcView, cid: u32, vidmem: bool) -> (r: Result<RingPlanLook, FwdFault>)
    ensures
        match spec_plan_gpfifo_ring(*p, cid, vidmem) {
            Ok(Ok((runs, len))) => r matches Ok(RingPlanLook::Planned(plan)) && plan.runs@ == runs
                && plan.len == len,
            Ok(Err(look)) => r == Ok::<RingPlanLook, FwdFault>(RingPlanLook::Absent(look)),
            Err(f) => r == Err::<RingPlanLook, FwdFault>(f),
        },
{
    if p.retired {
        return Err(FwdFault::RetiredProc(p.id));
    }
    let c = match p.channel(cid) {
        Some(c) => c,
        None => {
            return Err(FwdFault::NoVas(cid));
        },
    };
    let (va, entries) = match c.ring {
        RingDecl::NoNode => {
            return Ok(RingPlanLook::Absent(RingLook::NoChannelNode));
        },
        RingDecl::Undeclared => {
            return Ok(RingPlanLook::Absent(RingLook::NoRingDeclared));
        },
        RingDecl::Declared { va, entries } => (va, entries),
    };
    if va == 0 || entries == 0 {
        return Ok(RingPlanLook::Absent(RingLook::RingDeclaredEmpty { va, entries }));
    }
    let pdb = match c.vas_pdb {
        Some(pdb) => pdb,
        None => {
            return Ok(RingPlanLook::Absent(RingLook::NoAddressSpace));
        },
    };
    let v = match p.vas(c.gpu, pdb) {
        Some(v) => v,
        None => {
            return Err(FwdFault::UnknownPdb { gpu: c.gpu, pdb });
        },
    };
    let e = match v.table.binding_at(va) {
        Some(e) => e,
        None => {
            return Ok(RingPlanLook::Absent(RingLook::RingVaUnbound { va }));
        },
    };
    let off = va - e.start;
    let mapped: u64 = if e.len > off {
        e.len - off
    } else {
        0
    };
    let len: usize = if mapped < MAX_GPFIFO_RING_BYTES as u64 {
        mapped as usize
    } else {
        MAX_GPFIFO_RING_BYTES
    };
    if len == 0 {
        return Ok(RingPlanLook::Absent(RingLook::RingMappedZero { va }));
    }
    let route = if vidmem {
        VidmemRoute::OwnFramebuffer
    } else {
        VidmemRoute::Refuse
    };
    let range = PushRange { va, len: len as u64 };
    match push_range_gpas(&v.table, pdb, &range, len, route) {
        Ok(runs) => Ok(RingPlanLook::Planned(RingPlan { runs, len })),
        Err(f) => Err(f),
    }
}


/// The most of one pushbuffer range read: a hostile length is a bounded read.
pub const MAX_PUSH_RANGE_BYTES: usize = 0x10_0000;

/// The most read across all of one submission's ranges.
pub const MAX_PUSH_TOTAL_BYTES: usize = 0x80_0000;

/// One range of a pushbuffer read: how many bytes, and the runs they are read from.
#[derive(Debug, Clone, PartialEq, Eq)]
pub struct PlannedRange {
    /// The bytes to read.
    pub len: usize,
    /// Where they are read from.
    pub runs: Vec<PushRun>,
}

/// One pushbuffer read's translated runs, range by range: a method stream is decoded per
/// range, never across a range boundary.
#[derive(Debug, Clone, PartialEq, Eq)]
pub struct PushPlan {
    /// The ranges that survived the budget, in order.
    pub ranges: Vec<PlannedRange>,
}

/// The bytes read of a range declaring `declared` bytes when `total` have been read:
/// capped per range and by what is left of the budget.
pub open spec fn clamp_len(declared: u64, total: nat) -> nat {
    let a = (declared as usize) as nat;
    let b = if a < MAX_PUSH_RANGE_BYTES { a } else { MAX_PUSH_RANGE_BYTES as nat };
    let left = (MAX_PUSH_TOTAL_BYTES - total) as nat;
    if b < left {
        b
    } else {
        left
    }
}

/// The plan of ranges `i..` with `total` bytes already planned: each range clamped and
/// translated, until the ranges or the budget run out, or a translation refuses.
pub open spec fn push_plan(
    t: Seq<TableEntry>,
    pdb: u64,
    rs: Seq<PushRange>,
    route: VidmemRoute,
    i: int,
    total: nat,
) -> Result<Seq<(nat, Seq<PushRun>)>, FwdFault>
    decreases rs.len() - i,
{
    if i < 0 || i >= rs.len() || total >= MAX_PUSH_TOTAL_BYTES {
        Ok(Seq::empty())
    } else {
        let len = clamp_len(rs[i].len, total);
        match push_walk(t, pdb, rs[i], len, route, 0, 0) {
            Err(e) => Err(e),
            Ok(runs) => match push_plan(t, pdb, rs, route, i + 1, total + len) {
                Ok(rest) => Ok(seq![(len, runs)] + rest),
                Err(e) => Err(e),
            },
        }
    }
}

/// Whether the planned ranges `v` are the sequence `s`.
pub open spec fn planned_as(v: Seq<PlannedRange>, s: Seq<(nat, Seq<PushRun>)>) -> bool {
    v.len() == s.len() && forall|k: int|
        #![trigger v[k]]
        0 <= k < v.len() ==> v[k].len == s[k].0 && v[k].runs@ == s[k].1
}

/// The plan of reading a submission's pushbuffer ranges on channel `cid`: the process must
/// be live, the channel must exist and declare an address space, and that space must
/// exist — a range is never read untranslated. Then each range is planned in turn.
pub open spec fn spec_plan_pushbuffer(p: ProcView, cid: u32, rs: Seq<PushRange>, vidmem: bool) -> Result<
    Seq<(nat, Seq<PushRun>)>,
    FwdFault,
> {
    if p.retired {
        Err(FwdFault::RetiredProc(p.id))
    } else {
        match spec_channel(p, cid) {
            None => Err(FwdFault::NoVas(cid)),
            Some(c) => match c.vas_pdb {
                None => Err(FwdFault::NoVas(cid)),
                Some(pdb) => match spec_vas(p, c.gpu, pdb) {
                    None => Err(FwdFault::UnknownPdb { gpu: c.gpu, pdb }),
                    Some(v) => push_plan(v.table.entries@, pdb, rs, route_of(vidmem), 0, 0),
                },
            },
        }
    }
}

/// Planned ranges so far followed by the plan of the rest.
pub open spec fn plan_after(done: Seq<(nat, Seq<PushRun>)>, rest: Result<Seq<(nat, Seq<PushRun>)>, FwdFault>) -> Result<
    Seq<(nat, Seq<PushRun>)>,
    FwdFault,
> {
    match rest {
        Ok(s) => Ok(done + s),
        Err(e) => Err(e),
    }
}

/// Plan reading the pushbuffer ranges `ranges` of channel `cid` (see
/// [`spec_plan_pushbuffer`]); `vidmem` lets vidmem ranges be read out of our own
/// framebuffer.
#[verifier::loop_isolation(false)]
pub fn plan_pushbuffer(p: &ProcView, cid: u32, ranges: &Vec<PushRange>, vidmem: bool) -> (r: Result<
    PushPlan,
    FwdFault,
>)
    ensures
        match spec_plan_pushbuffer(*p, cid, ranges@, vidmem) {
            Ok(s) => r matches Ok(plan) && planned_as(plan.ranges@, s),
            Err(f) => r == Err::<PushPlan, FwdFault>(f),
        },
{
    if p.retired {
        return Err(FwdFault::RetiredProc(p.id));
    }
    let c = match p.channel(cid) {
        Some(c) => c,
        None => {
            return Err(FwdFault::NoVas(cid));
        },
    };
    let pdb = match c.vas_pdb {
        Some(pdb) => pdb,
        None => {
            return Err(FwdFault::NoVas(cid));
        },
    };
    let v = match p.vas(c.gpu, pdb) {
        Some(v) => v,
        None => {
            return Err(FwdFault::UnknownPdb { gpu: c.gpu, pdb });
        },
    };
    let route = if vidmem {
        VidmemRoute::OwnFramebuffer
    } else {
        VidmemRoute::Refuse
    };
    let ghost t = v.table.entries@;
    let ghost rs = ranges@;
    let ghost mut done: Seq<(nat, Seq<PushRun>)> = Seq::empty();
    let mut out: Vec<PlannedRange> = Vec::new();
    let mut total: usize = 0;
    let mut i: usize = 0;
    while i < ranges.len()
        invariant
            i <= ranges.len(),
            total <= MAX_PUSH_TOTAL_BYTES,
            rs == ranges@,
            t == v.table.entries@,
            route == route_of(vidmem),
            planned_as(out@, done),
            push_plan(t, pdb, rs, route, 0, 0) == plan_after(
                done,
                push_plan(t, pdb, rs, route, i as int, total as nat),
            ),
        decreases ranges.len() - i,
    {
        if total >= MAX_PUSH_TOTAL_BYTES {
            break;
        }
        let r = ranges[i];
        let declared = #[verifier::truncate] (r.len as usize);
        let capped = if declared < MAX_PUSH_RANGE_BYTES {
            declared
        } else {
            MAX_PUSH_RANGE_BYTES
        };
        let left = MAX_PUSH_TOTAL_BYTES - total;
        let len = if capped < left {
            capped
        } else {
            left
        };
        let runs = match push_range_gpas(&v.table, pdb, &r, len, route) {
            Ok(runs) => runs,
            Err(f) => {
                return Err(f);
            },
        };
        let ghost old_out = out@;
        let ghost old_done = done;
        let ghost item = (len as nat, runs@);
        proof {
            assert(len as nat == clamp_len(rs[i as int].len, total as nat));
            match push_plan(t, pdb, rs, route, i + 1, (total + len) as nat) {
                Ok(rest) => {
                    assert(done + (seq![item] + rest) =~= done.push(item) + rest);
                },
                Err(_) => {},
            }
            done = done.push(item);
        }
        out.push(PlannedRange { len, runs });
        total = total + len;
        i = i + 1;
        proof {
            assert forall|k: int| 0 <= k < out@.len() implies #[trigger] out@[k].len == done[k].0
                && out@[k].runs@ == done[k].1 by {
                if k < old_out.len() {
                    assert(out@[k] == old_out[k]);
                    assert(done[k] == old_done[k]);
                    assert(old_out[k].runs@ == old_done[k].1 && old_out[k].len == old_done[k].0);
                } else {
                    assert(done[k] == item);
                }
            }
            assert(out@.len() == done.len());
            assert(planned_as(out@, done));
        }
    }
    proof {
        assert(done + Seq::<(nat, Seq<PushRun>)>::empty() =~= done);
    }
    Ok(PushPlan { ranges: out })
}

impl PushPlan {
    /// How many ranges survived the budget.
    pub fn len(&self) -> (r: usize)
        ensures
            r == self.ranges@.len(),
    {
        self.ranges.len()
    }

    /// Whether the budget left nothing to read.
    pub fn is_empty(&self) -> (r: bool)
        ensures
            r == (self.ranges@.len() == 0),
    {
        self.ranges.len() == 0
    }

    /// Whether any planned run reads our own framebuffer rather than guest RAM.
    pub fn touches_fb(&self) -> (r: bool)
        ensures
            r == exists|k: int, j: int|
                0 <= k < self.ranges@.len() && 0 <= j < self.ranges@[k].runs@.len()
                    && #[trigger] self.ranges@[k].runs@[j].src is Fb,
    {
        let mut k: usize = 0;
        while k < self.ranges.len()
            invariant
                k <= self.ranges.len(),
                forall|a: int, j: int|
                    0 <= a < k && 0 <= j < self.ranges@[a].runs@.len() ==> !(
                    #[trigger] self.ranges@[a].runs@[j].src is Fb),
            decreases self.ranges.len() - k,
        {
            let runs = &self.ranges[k].runs;
            let mut j: usize = 0;
            while j < runs.len()
                invariant
                    k < self.ranges.len(),
                    j <= runs.len(),
                    runs@ == self.ranges@[k as int].runs@,
                    forall|a: int, b: int|
                        0 <= a < k && 0 <= b < self.ranges@[a].runs@.len() ==> !(
                        #[trigger] self.ranges@[a].runs@[b].src is Fb),
                    forall|b: int| 0 <= b < j ==> !(#[trigger] runs@[b].src is Fb),
                decreases runs.len() - j,
            {
                match runs[j].src {
                    PushSrc::Fb { .. } => {
                        return true;
                    },
                    PushSrc::Gpa(_) => {},
                }
                j = j + 1;
            }
            k = k + 1;
        }
        false
    }
}


/// What one backing publication produced.
#[derive(Debug, Clone, Copy, PartialEq, Eq)]
pub struct Published {
    /// The guest-physical address carved from the process's arena.
    pub gpa: u64,
    /// The host address the range is reachable at: the guest's own.
    pub host_va: u64,
    /// The host memory object backing it.
    pub memory: HostHandle,
}

/// The binding a publication records: real GPU memory, host sysmem carved at `gpa`, and
/// the range's only memory.
pub open spec fn published_binding(gpa: u64, host_va: u64, memory: HostHandle) -> Binding {
    Binding {
        phys: gpa,
        aperture: Aperture::SysmemCoherent,
        kind: RegionKind::RealGpuMemory,
        host: Some(HostMapping { host_va, memory, bytes: BackingBytes::SoleBacking }),
    }
}

/// The blocks `s` with the block `(va, gpa, len)` recorded under its guest address.
pub open spec fn blocks_with(s: Seq<(u64, u64, u64)>, b: (u64, u64, u64)) -> Seq<(u64, u64, u64)> {
    match block_pos(s, b.0, 0) {
        Some(k) => s.update(k, b),
        None => s.push(b),
    }
}

/// The position at or after `i` of the block recorded under guest address `va`.
pub open spec fn block_pos(s: Seq<(u64, u64, u64)>, va: u64, i: int) -> Option<int>
    decreases s.len() - i,
{
    if i < 0 || i >= s.len() {
        None
    } else if s[i].0 == va {
        Some(i)
    } else {
        block_pos(s, va, i + 1)
    }
}

/// What [`block_pos`] finds is a block under that address.
pub proof fn lemma_block_pos(s: Seq<(u64, u64, u64)>, va: u64, i: int)
    ensures
        block_pos(s, va, i) matches Some(k) ==> 0 <= i <= k < s.len() && s[k].0 == va,
    decreases s.len() - i,
{
    if 0 <= i < s.len() && s[i].0 != va {
        lemma_block_pos(s, va, i + 1);
    }
}

/// How far a publication's commit gets before it refuses, as `(stage, refusal)` with the
/// refusal `(fault, unmap, free, retry)`: stage 0 refuses before any state changed, stage
/// 1 after adopting a fresh host address space, stage 2 publishes. The process must still
/// be the planner and live; the memory must be this isolate's; the address space must
/// exist; a host address space the plan did not see must not have appeared (one the plan
/// saw must still be there); the arena must exist and carve the range; and the table must
/// take the binding.
pub open spec fn publish_commit(
    p: ProcView,
    plan: PublishPlan,
    fresh_vas: Option<HostHandle>,
    memory: HostHandle,
    host_va: u64,
    carved: Option<u64>,
) -> (nat, Option<(FwdFault, Seq<(HostHandle, u64)>, Seq<HostHandle>, bool)>) {
    let vas_used = if fresh_vas is Some { fresh_vas->0 } else { plan.host_vas->0 };
    let unmap = seq![(vas_used, host_va)];
    let all = if fresh_vas is Some { seq![fresh_vas->0, memory] } else { seq![memory] };
    let isolate = IsolateId { proc: p.id, gpu: plan.gpu };
    if p.retired || p.id != plan.proc {
        (0, Some((FwdFault::Stale(Stale::Proc(plan.proc)), unmap, all, false)))
    } else if !(memory.proc == isolate.proc && memory.gpu == isolate.gpu) {
        (
            0,
            Some(
                (
                    FwdFault::ForeignBacking { isolate, memory },
                    unmap,
                    if fresh_vas is Some { seq![fresh_vas->0] } else { Seq::empty() },
                    false,
                ),
            ),
        )
    } else {
        match spec_vas(p, plan.gpu, plan.pdb) {
            None => (
                0,
                Some((FwdFault::Stale(Stale::Vas { gpu: plan.gpu, pdb: plan.pdb }), unmap, all, false)),
            ),
            Some(v) => if fresh_vas is Some && v.host_vas is Some {
                (0, Some((FwdFault::Stale(Stale::Rebound), unmap, all, true)))
            } else if fresh_vas is None && v.host_vas != plan.host_vas {
                (0, Some((FwdFault::Stale(Stale::Rebound), unmap, seq![memory], true)))
            } else {
                let st: nat = if fresh_vas is Some { 1 } else { 0 };
                if !p.arenas@.contains(plan.gpu) {
                    (
                        st,
                        Some(
                            (
                                FwdFault::Stale(Stale::Target { proc: p.id, gpu: plan.gpu }),
                                unmap,
                                seq![memory],
                                false,
                            ),
                        ),
                    )
                } else if carved is None {
                    (st, Some((FwdFault::Arena, unmap, seq![memory], false)))
                } else {
                    match bind_refusal(v.table.entries@, plan.pdb, plan.va, plan.len) {
                        Some(e) => (st, Some((FwdFault::Address(e), unmap, seq![memory], false))),
                        None => (2, None),
                    }
                }
            },
        }
    }
}

/// Commit a backing publication: re-validate (see [`publish_commit`]), then bind the
/// guest's range to the memory, carved at the guest-physical address `carved` — what the
/// process's arena cuts for the range, or `None` when it cannot — and keep the block
/// beside the binding. A later refusal leaves an adopted host address space adopted.
pub fn commit_publish(
    p: &mut ProcView,
    plan: &PublishPlan,
    reply: VerbReply,
    carved: Option<u64>,
) -> (r: Result<Published, Refusal>)
    requires
        reply matches VerbReply::Published { host_vas, .. } && (host_vas is Some <==> plan.host_vas
            is None),
    ensures
        same_keys(*old(p), *final(p)),
        ({
            let (fresh_vas, memory, host_va) = match reply {
                VerbReply::Published { host_vas, memory, host_va } => (host_vas, memory, host_va),
                _ => (None, plan.host_vas->0, 0),
            };
            let (stage, refusal) = publish_commit(*old(p), *plan, fresh_vas, memory, host_va, carved);
            let k = vas_pos(old(p).vases@, plan.gpu, plan.pdb, 0)->0;
            let v = old(p).vases@[k];
            let hv = if fresh_vas is Some { fresh_vas } else { v.host_vas };
            &&& match refusal {
                Some((fault, unmap, free, retry)) => r matches Err(f) && refused(
                    f,
                    fault,
                    unmap,
                    free,
                    retry,
                ),
                None => r == Ok::<Published, Refusal>(
                    Published { gpa: carved->0, host_va, memory },
                ),
            }
            &&& stage == 0 ==> *final(p) == *old(p)
            &&& stage == 1 ==> vas_updated(*old(p), *final(p), k, hv, v.pins@)
            &&& stage == 2 ==> {
                &&& new_vas_published(*old(p), *final(p), k, hv)
                &&& final(p).vases@[k].table.entries@ == v.table.entries@.push(
                    TableEntry {
                        start: plan.va,
                        len: plan.len,
                        binding: published_binding(carved->0, host_va, memory),
                    },
                )
                &&& final(p).vases@[k].blocks@ == blocks_with(
                    v.blocks@,
                    (plan.va, carved->0, plan.len),
                )
            }
        }),
{
    let (fresh_vas, memory, host_va) = match reply {
        VerbReply::Published { host_vas, memory, host_va } => (host_vas, memory, host_va),
        _ => {
            proof {
                assert(false);
            }
            return Err(
                Refusal {
                    fault: FwdFault::SystemDataPlane,
                    orphans: Orphans { unmap: Vec::new(), free: Vec::new() },
                    retry: false,
                },
            );
        },
    };
    let vas_used = match fresh_vas {
        Some(h) => h,
        None => match plan.host_vas {
            Some(h) => h,
            None => {
                proof {
                    assert(false);
                }
                memory
            },
        },
    };
    let unmap = vec![(vas_used, host_va)];
    let all = match fresh_vas {
        Some(h) => vec![h, memory],
        None => vec![memory],
    };
    let only_memory = vec![memory];
    proof {
        assert(unmap@ =~= seq![(vas_used, host_va)]);
        assert(only_memory@ =~= seq![memory]);
        if fresh_vas is Some {
            assert(all@ =~= seq![fresh_vas->0, memory]);
        } else {
            assert(all@ =~= seq![memory]);
        }
    }
    if p.retired || p.id != plan.proc {
        return Err(
            Refusal {
                fault: FwdFault::Stale(Stale::Proc(plan.proc)),
                orphans: Orphans { unmap, free: all },
                retry: false,
            },
        );
    }
    let isolate = IsolateId { proc: p.id, gpu: plan.gpu };
    if !memory.belongs_to(isolate) {
        let mut ours: Vec<HostHandle> = Vec::new();
        if let Some(h) = fresh_vas {
            ours.push(h);
        }
        proof {
            if fresh_vas is Some {
                assert(ours@ =~= seq![fresh_vas->0]);
            } else {
                assert(ours@ =~= Seq::<HostHandle>::empty());
            }
        }
        return Err(
            Refusal {
                fault: FwdFault::ForeignBacking { isolate, memory },
                orphans: Orphans { unmap, free: ours },
                retry: false,
            },
        );
    }
    let k = match p.vas_position(plan.gpu, plan.pdb) {
        Some(k) => k,
        None => {
            return Err(
                Refusal {
                    fault: FwdFault::Stale(Stale::Vas { gpu: plan.gpu, pdb: plan.pdb }),
                    orphans: Orphans { unmap, free: all },
                    retry: false,
                },
            );
        },
    };
    let ghost p0 = *p;
    match fresh_vas {
        Some(_) => {
            if p.vases[k].host_vas.is_some() {
                return Err(
                    Refusal {
                        fault: FwdFault::Stale(Stale::Rebound),
                        orphans: Orphans { unmap, free: all },
                        retry: true,
                    },
                );
            }
        },
        None => {
            let same = match (p.vases[k].host_vas, plan.host_vas) {
                (Some(a), Some(b)) => a == b,
                (None, None) => true,
                _ => false,
            };
            if !same {
                return Err(
                    Refusal {
                        fault: FwdFault::Stale(Stale::Rebound),
                        orphans: Orphans { unmap, free: only_memory },
                        retry: true,
                    },
                );
            }
        },
    }
    let refusal = if !holds(&p.arenas, plan.gpu) {
        Some(FwdFault::Stale(Stale::Target { proc: p.id, gpu: plan.gpu }))
    } else {
        match carved {
            None => Some(FwdFault::Arena),
            Some(_) => match p.vases[k].table.refuses_bind(plan.pdb, plan.va, plan.len) {
                Some(e) => Some(FwdFault::Address(e)),
                None => None,
            },
        }
    };
    if let Some(fault) = refusal {
        if let Some(h) = fresh_vas {
            let mut v = p.vases.remove(k);
            v.host_vas = Some(h);
            p.vases.insert(k, v);
            proof {
                assert(p.vases@ =~= p0.vases@.update(k as int, v));
            }
        }
        return Err(Refusal { fault, orphans: Orphans { unmap, free: only_memory }, retry: false });
    }
    let gpa = match carved {
        Some(g) => g,
        None => {
            proof {
                assert(false);
            }
            0
        },
    };
    let mut v = p.vases.remove(k);
    if let Some(h) = fresh_vas {
        v.host_vas = Some(h);
    }
    let binding = Binding {
        phys: gpa,
        aperture: Aperture::SysmemCoherent,
        kind: RegionKind::RealGpuMemory,
        host: Some(HostMapping { host_va, memory, bytes: BackingBytes::SoleBacking }),
    };
    let bound = v.table.bind(plan.pdb, plan.va, plan.len, binding);
    proof {
        assert(bound is Ok);
    }
    record_block(&mut v.blocks, (plan.va, gpa, plan.len));
    p.vases.insert(k, v);
    proof {
        assert(p.vases@ =~= p0.vases@.update(k as int, v));
    }
    Ok(Published { gpa, host_va, memory })
}

/// Whether `new` is `old` with address space `k` given host address space `hv` (its table
/// and blocks described separately), and nothing else changed.
pub open spec fn new_vas_published(old: ProcView, new: ProcView, k: int, hv: Option<HostHandle>) -> bool {
    &&& 0 <= k < old.vases@.len()
    &&& new.id == old.id && new.system == old.system && new.retired == old.retired
    &&& new.arenas == old.arenas && new.isolates == old.isolates && new.wanted == old.wanted
    &&& new.channels == old.channels && new.requested == old.requested
    &&& new.scheduled == old.scheduled && new.last_token == old.last_token
    &&& new.vases@.len() == old.vases@.len()
    &&& forall|j: int| 0 <= j < old.vases@.len() && j != k ==> new.vases@[j] == old.vases@[j]
    &&& new.vases@[k].gpu == old.vases@[k].gpu && new.vases@[k].pdb == old.vases@[k].pdb
    &&& new.vases@[k].pins == old.vases@[k].pins
    &&& new.vases@[k].host_vas == hv
}

/// Record the block `b` under its guest address.
pub fn record_block(blocks: &mut Vec<(u64, u64, u64)>, b: (u64, u64, u64))
    ensures
        final(blocks)@ == blocks_with(old(blocks)@, b),
{
    proof {
        lemma_block_pos(old(blocks)@, b.0, 0);
    }
    let mut i: usize = 0;
    while i < blocks.len()
        invariant
            i <= blocks.len(),
            blocks@ == old(blocks)@,
            block_pos(blocks@, b.0, 0) == block_pos(blocks@, b.0, i as int),
        decreases blocks.len() - i,
    {
        if blocks[i].0 == b.0 {
            blocks.set(i, b);
            return;
        }
        i = i + 1;
    }
    blocks.push(b);
}


/// Address identity: once a publication has been committed, its address is taken — a
/// second publication at it is refused by the plan, before any host work exists.
pub proof fn law_published_address_is_taken(
    old: ProcView,
    new: ProcView,
    gpu: u32,
    pdb: u64,
    va: u64,
    len: u64,
    fresh_vas: Option<HostHandle>,
    memory: HostHandle,
    host_va: u64,
    carved: Option<u64>,
    again_len: u64,
)
    requires
        spec_plan_publish(old, gpu, pdb, va, len) matches Ok(planned) && publish_commit(
            old,
            planned.plan,
            fresh_vas,
            memory,
            host_va,
            carved,
        ).0 == 2 && new_vas_published(
            old,
            new,
            vas_pos(old.vases@, gpu, pdb, 0)->0,
            if fresh_vas is Some { fresh_vas } else { spec_vas(old, gpu, pdb)->0.host_vas },
        ) && new.vases@[vas_pos(old.vases@, gpu, pdb, 0)->0].table.entries@ == spec_vas(
            old,
            gpu,
            pdb,
        )->0.table.entries@.push(
            TableEntry { start: va, len, binding: published_binding(carved->0, host_va, memory) },
        ),
    ensures
        spec_plan_publish(new, gpu, pdb, va, again_len) == Err::<Planned<PublishPlan>, FwdFault>(
            FwdFault::Address(AddressFault::Overlap { pdb, va }),
        ),
{
    let k = vas_pos(old.vases@, gpu, pdb, 0)->0;
    lemma_vas_pos(old.vases@, gpu, pdb, 0);
    assert forall|j: int| 0 <= j < old.vases@.len() implies old.vases@[j].gpu
        == new.vases@[j].gpu && old.vases@[j].pdb == new.vases@[j].pdb by {}
    lemma_vas_pos_same_keys(old.vases@, new.vases@, gpu, pdb, 0);
    let t = old.vases@[k].table.entries@;
    law_bound_range_resolves(t, pdb, va, len, published_binding(carved->0, host_va, memory), 0);
    assert((va + 0) as u64 == va);
}


/// Resolve `va` in `p`'s address space `(gpu, pdb)`: its binding and the offset into it.
/// An unknown address space and a miss are refused by name.
pub fn resolve_in(p: &ProcView, gpu: u32, pdb: u64, va: u64) -> (r: Result<(Binding, u64), FwdFault>)
    ensures
        r == match spec_vas(*p, gpu, pdb) {
            None => Err(FwdFault::UnknownPdb { gpu, pdb }),
            Some(v) => match spec_resolve(v.table.entries@, pdb, va) {
                Ok(x) => Ok(x),
                Err(f) => Err(FwdFault::Address(f)),
            },
        },
{
    let v = match p.vas(gpu, pdb) {
        Some(v) => v,
        None => {
            return Err(FwdFault::UnknownPdb { gpu, pdb });
        },
    };
    match v.table.resolve(pdb, va) {
        Ok(x) => Ok(x),
        Err(f) => Err(FwdFault::Address(f)),
    }
}


/// What unpublishing the range at `va` in `p`'s address space `(gpu, pdb)` does:
/// `(refusal, changed, orphans)`. The arena and the address space must exist, and a block
/// must be recorded at `va` — otherwise nothing changes. Then the block and the binding at
/// `va` are dropped; an arena that does not take the block back (`freed` false) is a
/// stale target, after the drop. The orphans are the host mapping to undo and the object
/// to free, where the range was host-published in a host address space.
pub open spec fn spec_unpublish(p: ProcView, gpu: u32, pdb: u64, va: u64, freed: bool) -> (
    Option<FwdFault>,
    bool,
    Seq<(HostHandle, u64)>,
    Seq<HostHandle>,
) {
    if !p.arenas@.contains(gpu) {
        (Some(FwdFault::NoTarget { proc: p.id, gpu }), false, Seq::empty(), Seq::empty())
    } else {
        match spec_vas(p, gpu, pdb) {
            None => (Some(FwdFault::UnknownPdb { gpu, pdb }), false, Seq::empty(), Seq::empty()),
            Some(v) => if block_pos(v.blocks@, va, 0) is None {
                (
                    Some(FwdFault::Address(AddressFault::Miss { pdb, va })),
                    false,
                    Seq::empty(),
                    Seq::empty(),
                )
            } else if !freed {
                (Some(FwdFault::Stale(Stale::Target { proc: p.id, gpu })), true, Seq::empty(), Seq::empty())
            } else {
                let t = v.table.entries@;
                let backing = match start_pos(t, va, 0) {
                    Some(k) => t[k].binding.host,
                    None => None,
                };
                if v.host_vas is Some && backing is Some {
                    (
                        None,
                        true,
                        seq![(v.host_vas->0, backing->0.host_va)],
                        seq![backing->0.memory],
                    )
                } else {
                    (None, true, Seq::empty(), Seq::empty())
                }
            },
        }
    }
}

/// Undo a publication at `va` (see [`spec_unpublish`]); `freed` is whether the process's
/// arena takes the range's block back.
pub fn unpublish_backing(p: &mut ProcView, gpu: u32, pdb: u64, va: u64, freed: bool) -> (r: Result<
    Orphans,
    FwdFault,
>)
    ensures
        same_keys(*old(p), *final(p)),
        ({
            let (refusal, changed, unmap, free) = spec_unpublish(*old(p), gpu, pdb, va, freed);
            let k = vas_pos(old(p).vases@, gpu, pdb, 0)->0;
            let v = old(p).vases@[k];
            &&& match refusal {
                Some(f) => r == Err::<Orphans, FwdFault>(f),
                None => r matches Ok(o) && o.unmap@ == unmap && o.free@ == free,
            }
            &&& !changed ==> *final(p) == *old(p)
            &&& changed ==> {
                &&& new_vas_published(*old(p), *final(p), k, v.host_vas)
                &&& final(p).vases@[k].table.entries@ == spec_unbind(v.table.entries@, va)
                &&& final(p).vases@[k].blocks@ == v.blocks@.remove(block_pos(v.blocks@, va, 0)->0)
            }
        }),
{
    if !holds(&p.arenas, gpu) {
        return Err(FwdFault::NoTarget { proc: p.id, gpu });
    }
    let k = match p.vas_position(gpu, pdb) {
        Some(k) => k,
        None => {
            return Err(FwdFault::UnknownPdb { gpu, pdb });
        },
    };
    let kb = match block_position(&p.vases[k].blocks, va) {
        Some(kb) => kb,
        None => {
            return Err(FwdFault::Address(AddressFault::Miss { pdb, va }));
        },
    };
    let ghost p0 = *p;
    proof {
        lemma_start_pos(p0.vases@[k as int].table.entries@, va, 0);
    }
    let mut v = p.vases.remove(k);
    let _block = v.blocks.remove(kb);
    let host_vas = v.host_vas;
    let backing = match v.table.unbind(va) {
        Some((_, b)) => b.host,
        None => None,
    };
    p.vases.insert(k, v);
    proof {
        assert(p.vases@ =~= p0.vases@.update(k as int, v));
    }
    if !freed {
        return Err(FwdFault::Stale(Stale::Target { proc: p.id, gpu }));
    }
    let mut out = Orphans { unmap: Vec::new(), free: Vec::new() };
    if let (Some(hv), Some(h)) = (host_vas, backing) {
        out.unmap.push((hv, h.host_va));
        out.free.push(h.memory);
        proof {
            assert(out.unmap@ =~= seq![(hv, h.host_va)]);
            assert(out.free@ =~= seq![h.memory]);
        }
    }
    Ok(out)
}

/// Where the block recorded at `va` stands.
pub fn block_position(blocks: &Vec<(u64, u64, u64)>, va: u64) -> (r: Option<usize>)
    ensures
        match r {
            Some(k) => block_pos(blocks@, va, 0) == Some(k as int) && k < blocks.len(),
            None => block_pos(blocks@, va, 0) is None,
        },
{
    proof {
        lemma_block_pos(blocks@, va, 0);
    }
    let mut i: usize = 0;
    while i < blocks.len()
        invariant
            i <= blocks.len(),
            block_pos(blocks@, va, 0) == block_pos(blocks@, va, i as int),
        decreases blocks.len() - i,
    {
        if blocks[i].0 == va {
            return Some(i);
        }
        i = i + 1;
    }
    None
}


/// A range appended where none started at `va` is the one found starting there.
pub proof fn lemma_start_pos_appended(t: Seq<TableEntry>, e: TableEntry, va: u64, i: int)
    requires
        0 <= i <= t.len(),
        e.start == va,
        forall|j: int| 0 <= j < t.len() ==> #[trigger] t[j].start != va,
    ensures
        start_pos(t.push(e), va, i) == Some(t.len() as int),
    decreases t.len() - i,
{
    if i < t.len() {
        assert(t.push(e)[i] == t[i]);
        lemma_start_pos_appended(t, e, va, i + 1);
    } else {
        assert(t.push(e)[i] == e);
    }
}

/// A block appended where none was recorded at its address is the one found there.
pub proof fn lemma_block_pos_appended(s: Seq<(u64, u64, u64)>, b: (u64, u64, u64), i: int)
    requires
        0 <= i <= s.len(),
        block_pos(s, b.0, i) is None,
    ensures
        block_pos(s.push(b), b.0, i) == Some(s.len() as int),
    decreases s.len() - i,
{
    if i < s.len() {
        assert(s.push(b)[i] == s[i]);
        lemma_block_pos_appended(s, b, i + 1);
    } else {
        assert(s.push(b)[i] == b);
    }
}

/// Unpublishing undoes publishing: after a publication at `va` has been committed (where
/// no block was recorded at `va` before), unpublishing it succeeds, hands back exactly the
/// host mapping and the object the publication made, and leaves the address space's
/// table and blocks as they were before the publication.
pub proof fn law_unpublish_undoes_publish(
    old: ProcView,
    mid: ProcView,
    gpu: u32,
    pdb: u64,
    va: u64,
    len: u64,
    fresh_vas: Option<HostHandle>,
    memory: HostHandle,
    host_va: u64,
    carved: Option<u64>,
)
    requires
        spec_plan_publish(old, gpu, pdb, va, len) matches Ok(planned) && (fresh_vas is Some
            <==> planned.plan.host_vas is None) && publish_commit(
            old,
            planned.plan,
            fresh_vas,
            memory,
            host_va,
            carved,
        ).0 == 2,
        new_vas_published(
            old,
            mid,
            vas_pos(old.vases@, gpu, pdb, 0)->0,
            if fresh_vas is Some { fresh_vas } else { spec_vas(old, gpu, pdb)->0.host_vas },
        ),
        mid.vases@[vas_pos(old.vases@, gpu, pdb, 0)->0].table.entries@ == spec_vas(
            old,
            gpu,
            pdb,
        )->0.table.entries@.push(
            TableEntry { start: va, len, binding: published_binding(carved->0, host_va, memory) },
        ),
        mid.vases@[vas_pos(old.vases@, gpu, pdb, 0)->0].blocks@ == blocks_with(
            spec_vas(old, gpu, pdb)->0.blocks@,
            (va, carved->0, len),
        ),
        block_pos(spec_vas(old, gpu, pdb)->0.blocks@, va, 0) is None,
        crate::table::no_empty_range(spec_vas(old, gpu, pdb)->0.table.entries@),
    ensures
        ({
            let k = vas_pos(old.vases@, gpu, pdb, 0)->0;
            let hv = if fresh_vas is Some { fresh_vas->0 } else { old.vases@[k].host_vas->0 };
            let (refusal, changed, unmap, free) = spec_unpublish(mid, gpu, pdb, va, true);
            &&& refusal is None && changed
            &&& unmap == seq![(hv, host_va)]
            &&& free == seq![memory]
            &&& spec_unbind(mid.vases@[k].table.entries@, va) == old.vases@[k].table.entries@
            &&& mid.vases@[k].blocks@.remove(block_pos(mid.vases@[k].blocks@, va, 0)->0)
                == old.vases@[k].blocks@
        }),
{
    let k = vas_pos(old.vases@, gpu, pdb, 0)->0;
    lemma_vas_pos(old.vases@, gpu, pdb, 0);
    assert forall|j: int| 0 <= j < old.vases@.len() implies old.vases@[j].gpu
        == mid.vases@[j].gpu && old.vases@[j].pdb == mid.vases@[j].pdb by {}
    lemma_vas_pos_same_keys(old.vases@, mid.vases@, gpu, pdb, 0);
    let v = old.vases@[k];
    let t = v.table.entries@;
    let e = TableEntry { start: va, len, binding: published_binding(carved->0, host_va, memory) };
    assert forall|j: int| 0 <= j < t.len() implies #[trigger] t[j].start != va by {
        assert(!crate::table::meets(t[j], va, len));
        assert(t[j].len > 0);
    }
    lemma_start_pos_appended(t, e, va, 0);
    assert(t.push(e).remove(t.len() as int) =~= t);
    let b = v.blocks@;
    lemma_block_pos_appended(b, (va, carved->0, len), 0);
    assert(b.push((va, carved->0, len)).remove(b.len() as int) =~= b);
}

/// `r`, a table lookup's result, is real GPU memory the host published.
pub open spec fn resolves_to_real(r: Result<(Binding, u64), AddressFault>) -> bool {
    r is Ok && r->Ok_0.0.kind == RegionKind::RealGpuMemory
}

/// The ring gate's verdict on one address: it admits `va` exactly when `va` resolves in
/// the table to real GPU memory the host published — a fabricated framebuffer page or a
/// guest-physical DMA range is a miss, as is an address the table does not hold.
pub proof fn law_ring_admits_only_real_memory(t: Seq<TableEntry>, pdb: u64, va: u64)
    ensures
        spec_host_published(t, pdb, va) <==> resolves_to_real(spec_resolve(t, pdb, va)),
        spec_resolve(t, pdb, va) is Ok && (spec_resolve(t, pdb, va)->Ok_0.0.kind
            == RegionKind::FakeFramebuffer || spec_resolve(t, pdb, va)->Ok_0.0.kind
            == RegionKind::GuestPhysDma) ==> !spec_host_published(t, pdb, va),
{
}

/// No address of the working set from position `i` on is refused exactly when each of
/// them resolves to real GPU memory.
proof fn lemma_first_ungated_none(e: Seq<TableEntry>, pdb: u64, ws: Seq<u64>, i: int)
    requires
        0 <= i <= ws.len(),
    ensures
        first_ungated(Some((e, pdb)), ws, i) is None <==> forall|k: int|
            i <= k < ws.len() ==> #[trigger] resolves_to_real(spec_resolve(e, pdb, ws[k])),
    decreases ws.len() - i,
{
    if i < ws.len() {
        lemma_first_ungated_none(e, pdb, ws, i + 1);
        law_ring_admits_only_real_memory(e, pdb, ws[i]);
        if first_ungated(Some((e, pdb)), ws, i) is None {
            assert forall|k: int| i <= k < ws.len() implies #[trigger] resolves_to_real(
                spec_resolve(e, pdb, ws[k]),
            ) by {
                if k > i {
                    law_ring_admits_only_real_memory(e, pdb, ws[k]);
                }
            }
        }
    }
}

/// **The doorbell's ring gate admits only real GPU memory**: where it admits a working
/// set, the channel has an address space and every address of the set resolves there to
/// real GPU memory; and where some address of the set resolves to anything else — a page
/// of our emulated framebuffer, a guest-physical DMA range — or not at all, the doorbell
/// is refused with an address miss.
pub proof fn law_ring_gate_admits_only_real_memory(p: ProcView, cid: u32, ws: Seq<u64>)
    ensures
        ({
            let c = spec_channel(p, cid)->Some_0;
            let pdb = c.vas_pdb->Some_0;
            let v = spec_vas(p, c.gpu, pdb)->Some_0;
            let space = spec_channel(p, cid) is Some && c.vas_pdb is Some && spec_vas(p, c.gpu, pdb) is Some;
            &&& spec_gate_working_set(p, cid, ws) is Ok ==> space && forall|k: int|
                0 <= k < ws.len() ==> #[trigger] resolves_to_real(spec_resolve(v.table.entries@, pdb, ws[k]))
            &&& (space && exists|k: int|
                0 <= k < ws.len() && !#[trigger] resolves_to_real(spec_resolve(v.table.entries@, pdb, ws[k])))
                ==> (spec_gate_working_set(p, cid, ws) is Err && spec_gate_working_set(p, cid, ws)->Err_0
                is Address && spec_gate_working_set(p, cid, ws)->Err_0->Address_0 is Miss)
        }),
{
    match spec_channel(p, cid) {
        Some(c) => match c.vas_pdb {
            Some(pdb) => match spec_vas(p, c.gpu, pdb) {
                Some(v) => {
                    lemma_first_ungated_none(v.table.entries@, pdb, ws, 0);
                },
                None => {},
            },
            None => {},
        },
        None => {},
    }
}

/// **Guest RAM is either sysmem aperture**: after the process checks, where no pin sits at
/// `va` or in the way of the grant and `va` resolves to a binding the host has not
/// published whose aperture is sysmem — coherent or not — the pin is planned, with the
/// pin as its host work; and a refusal for not being sysmem names a video-memory or peer
/// aperture.
pub proof fn law_pin_accepts_either_sysmem(p: ProcView, gpu: u32, pdb: u64, va: u64, grant: GuestRamGrant)
    ensures
        ({
            let v = spec_vas(p, gpu, pdb)->Some_0;
            let b = spec_resolve(v.table.entries@, pdb, va)->Ok_0.0;
            let r = spec_plan_pin_guest_ram(p, gpu, pdb, va, grant);
            &&& (!p.retired && !p.system && spec_vas(p, gpu, pdb) is Some && p.isolates@.contains(gpu)
                && spec_pin_at(v.pins@, va) is None && spec_overlapping_pin(v.pins@, va, grant.len) is None
                && spec_resolve(v.table.entries@, pdb, va) is Ok && (b.aperture == Aperture::SysmemCoherent
                || b.aperture == Aperture::SysmemNonCoherent) && b.host is None) ==> (r is Ok
                && r->Ok_0.verbs == Some(Verb::PinGuestRam { host_vas: v.host_vas, grant, at: va })
                && r->Ok_0.plan.existing is None)
            &&& (r is Err && r->Err_0 is GuestRamNotSysmem) ==> (r->Err_0->GuestRamNotSysmem_aperture
                == Aperture::Vidmem || r->Err_0->GuestRamNotSysmem_aperture == Aperture::Peer)
        }),
{
}

/// **A bound address is never published over**: a publication is planned only at an
/// address its address space's table does not resolve, at any offset of any binding; and
/// after the process checks, an address that does resolve is refused as an overlap.
pub proof fn law_publish_only_unbound(p: ProcView, gpu: u32, pdb: u64, va: u64, len: u64)
    ensures
        ({
            let v = spec_vas(p, gpu, pdb)->Some_0;
            let r = spec_plan_publish(p, gpu, pdb, va, len);
            &&& r is Ok ==> (spec_vas(p, gpu, pdb) is Some && spec_resolve(v.table.entries@, pdb, va) is Err)
            &&& (!p.retired && !p.system && spec_vas(p, gpu, pdb) is Some && p.arenas@.contains(gpu)
                && p.isolates@.contains(gpu) && spec_resolve(v.table.entries@, pdb, va) is Ok) ==> r
                == Err::<Planned<PublishPlan>, FwdFault>(FwdFault::Address(AddressFault::Overlap { pdb, va }))
        }),
{
}

} // verus!
