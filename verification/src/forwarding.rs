//! **The forwarding plane's refusals.** Loud by design: a routing miss is never resolved
//! by guessing, and each distinct absence carries its own name and the identities it
//! concerns. Identities are plain integers here: a GPU, a process, a channel and a vChid
//! are `u32`s, a PDB and a GPU virtual address are `u64`s.
use crate::aperture::Aperture;
use crate::routes::EngineParentMiss;
use vstd::prelude::*;

verus! {

/// A host object, scoped to the isolate (process and GPU) that minted it.
#[derive(Debug, Clone, Copy, PartialEq, Eq, Structural)]
pub struct HostHandle {
    /// The process whose isolate minted it.
    pub proc: u32,
    /// The GPU that isolate serves.
    pub gpu: u32,
    /// The isolate's own name for the object.
    pub raw: u64,
}

/// One isolate: a process's own host context on one target GPU.
#[derive(Debug, Clone, Copy, PartialEq, Eq)]
pub struct IsolateId {
    /// The owning process.
    pub proc: u32,
    /// The target GPU.
    pub gpu: u32,
}

impl HostHandle {
    /// Whether this object was minted in `isolate`'s namespace.
    pub fn belongs_to(&self, isolate: IsolateId) -> (r: bool)
        ensures
            r == (self.proc == isolate.proc && self.gpu == isolate.gpu),
    {
        self.proc == isolate.proc && self.gpu == isolate.gpu
    }
}

/// Why an address-table lookup or bind refused.
#[derive(Debug, Clone, Copy, PartialEq, Eq)]
pub enum AddressFault {
    /// No binding covers the address: the table is the guest's TLB, and a miss is a fault.
    Miss {
        /// The address space.
        pdb: u64,
        /// The address that resolved to nothing.
        va: u64,
    },
    /// The address is already bound.
    Overlap {
        /// The address space.
        pdb: u64,
        /// The address that is taken.
        va: u64,
    },
    /// The range or its translation runs off the top of the address space.
    Malformed {
        /// The address space.
        pdb: u64,
        /// The address at which the arithmetic failed.
        va: u64,
    },
}

/// The two shapes of "the world moved" between a plan and its commit.
#[derive(Debug, Clone, Copy, PartialEq, Eq)]
pub enum Stale {
    /// The planning process is retired, or the commit is applied to another process.
    Proc(u32),
    /// The channel the plan named is gone.
    Channel(u32),
    /// The address space the plan named is gone.
    Vas {
        /// The target GPU.
        gpu: u32,
        /// The address space.
        pdb: u64,
    },
    /// The doorbell route moved.
    Route {
        /// The target GPU.
        gpu: u32,
        /// The vChid.
        vchid: u32,
    },
    /// A sibling materialized the same host object first: converging, so re-plan.
    Rebound,
    /// The target's arena or isolate is gone.
    Target {
        /// The process.
        proc: u32,
        /// The target GPU.
        gpu: u32,
    },
}

/// What a guest-RAM pin collision carries: the combination the caller acts on.
#[derive(Debug, Clone, Copy, PartialEq, Eq)]
pub struct GuestRamPinOverlap {
    /// The base address that was asked for.
    pub va: u64,
    /// How many bytes the request named.
    pub requested: u64,
    /// The base of the pin in the way.
    pub existing_base: u64,
    /// How many bytes that pin describes.
    pub existing_len: u64,
    /// How much of the request is clear of it: the distance to the pin when the pin
    /// starts inside the request, and zero when it starts below and reaches in — no
    /// progress is possible at this base then.
    pub free_prefix: u64,
}

/// Forwarding-plane faults.
#[derive(Debug, Clone, Copy, PartialEq, Eq)]
pub enum FwdFault {
    /// The doorbell token did not decode for this architecture.
    MalformedToken {
        /// The raw token.
        token: u64,
    },
    /// The decoded vChid has no registered channel on the GPU whose doorbell trapped.
    UnknownVchid {
        /// The target GPU.
        gpu: u32,
        /// The decoded vChid.
        vchid: u32,
    },
    /// The routed process exists but is retired.
    RetiredProc(u32),
    /// The key belongs to a component whose worker was lost: forbidden, not unknown —
    /// sticky-fatal, so the guest is never handed a zeroed backing for its data.
    Condemned {
        /// The condemned component's label (its smallest client handle).
        anchor: u32,
    },
    /// The channel is bound to no declared address space: no space is guessed.
    NoVas(u32),
    /// The guest has not asked for this channel to be scheduled, so nothing it submits
    /// is planned.
    NotScheduled {
        /// The channel.
        chan: u32,
        /// Its vChid.
        vchid: u32,
    },
    /// A process-local channel slot the process does not have.
    UnknownChannel {
        /// The process.
        proc: u32,
        /// The channel.
        chan: u32,
    },
    /// The isolate is present and will never serve a verb again.
    IsolateRetired {
        /// The process.
        proc: u32,
        /// The target GPU.
        gpu: u32,
    },
    /// An isolate was asked for and is still being spawned: defer and re-plan.
    IsolatePending {
        /// The process.
        proc: u32,
        /// The target GPU.
        gpu: u32,
    },
    /// The channel's address space has never been given a host address space.
    NoHostVas {
        /// The channel.
        chan: u32,
        /// The address space.
        pdb: u64,
    },
    /// A guest-RAM pin was asked for at an address whose backing is not guest RAM.
    GuestRamNotSysmem {
        /// The address.
        va: u64,
        /// The aperture its binding names.
        aperture: Aperture,
    },
    /// A guest-RAM pin was asked for at an address that is already host-published.
    GuestRamAddressTaken {
        /// The address.
        va: u64,
        /// Where the host already placed it.
        host_va: u64,
    },
    /// A live pin at this base describes fewer bytes than the request names.
    GuestRamPinTooShort {
        /// The base.
        va: u64,
        /// What the live pin describes.
        described: u64,
        /// What was asked for.
        requested: u64,
    },
    /// A live pin elsewhere reaches into the requested range.
    GuestRamPinOverlaps(GuestRamPinOverlap),
    /// The address table and the page-table walk disagree about a leaf.
    FbLeafDisagrees {
        /// The leaf's address.
        va: u64,
        /// What the walk found: physical address and aperture.
        walked: (u64, Aperture),
        /// What the table holds.
        tabled: (u64, Aperture),
    },
    /// A framebuffer leaf whose length or base the host cannot place exactly.
    FbLeafGranularity {
        /// The leaf's address.
        va: u64,
        /// Its length.
        len: u64,
    },
    /// The table already binds a range at this address with another extent.
    FbLeafExtent {
        /// The leaf's address.
        va: u64,
        /// Its length.
        len: u64,
        /// The tabled range: start and length.
        tabled: (u64, u64),
    },
    /// A copy too fragmented to partition within the span bound.
    CeTooFragmented {
        /// The destination.
        dst: u64,
        /// The declared length.
        len: u64,
    },
    /// A copy operand in another GPU's memory: neither host-representable nor ours.
    CePeerOperand {
        /// The operand's address.
        addr: u64,
    },
    /// A point query on a channel with no address table.
    CeNoTable {
        /// The address asked about.
        va: u64,
    },
    /// The address space the process declared is unknown on this GPU.
    UnknownPdb {
        /// The target GPU.
        gpu: u32,
        /// The address space.
        pdb: u64,
    },
    /// No isolate for this process and GPU, and none was ever asked for.
    NoTarget {
        /// The process.
        proc: u32,
        /// The target GPU.
        gpu: u32,
    },
    /// An address-table refusal.
    Address(AddressFault),
    /// The process's arena could not carve the range.
    Arena,
    /// Reading guest memory failed.
    GpaRead {
        /// The guest-physical address.
        gpa: u64,
    },
    /// The guest-physical address is not RAM.
    NonRamGpa {
        /// The guest-physical address.
        gpa: u64,
    },
    /// A pushbuffer or ring range resolved into memory that guest-RAM reads cannot reach.
    PushbufferAperture {
        /// The address.
        va: u64,
        /// The aperture it resolved into.
        aperture: Aperture,
    },
    /// A ring page in our framebuffer that was never written.
    RingFbNeverWritten {
        /// The ring address.
        va: u64,
        /// The framebuffer offset.
        phys: u64,
    },
    /// A region's kind could not be decided truthfully at the bind.
    RegionKindRefused {
        /// The address being bound.
        va: u64,
        /// Why.
        fault: crate::table::RegionKindFault,
    },
    /// One pushbuffer range cut into more spans than the bound allows.
    PushTooFragmented {
        /// The range's address.
        va: u64,
        /// The range's declared length.
        len: u64,
    },
    /// The class is not an engine.
    NotAnEngine(u32),
    /// An engine-object allocation whose parent could not be routed.
    EngineObjectParent {
        /// The client handle.
        client: u32,
        /// The object handle.
        object: u32,
        /// Which hop declined.
        why: EngineParentMiss,
    },
    /// Every worker of the isolate is in flight.
    PoolSaturated {
        /// The process.
        proc: u32,
        /// The target GPU.
        gpu: u32,
    },
    /// The world moved between a plan and its commit.
    Stale(Stale),
    /// The system process serves the device's own bring-up, never the data plane.
    SystemDataPlane,
    /// A host object from another isolate's namespace arrived at a commit.
    ForeignBacking {
        /// The isolate the commit belongs to.
        isolate: IsolateId,
        /// The object that is not its own.
        memory: HostHandle,
    },
    /// A fault-cancel method from the guest's own pushbuffer, which this plane cannot
    /// deliver: the submission is refused whole rather than run with the cancel dropped.
    UvmFaultMethodWithoutFaultDelivery {
        /// The method address, as the guest wrote it.
        method: u32,
    },
}


/// The stable trace name of a staleness: `Stale::` and its variant — a staleness is
/// named by which identity moved, never collapsed into one name.
pub open spec fn spec_stale_tag(s: Stale) -> Seq<char> {
    match s {
        Stale::Proc(_) => "Stale::Proc"@,
        Stale::Channel(_) => "Stale::Channel"@,
        Stale::Vas { .. } => "Stale::Vas"@,
        Stale::Route { .. } => "Stale::Route"@,
        Stale::Rebound => "Stale::Rebound"@,
        Stale::Target { .. } => "Stale::Target"@,
    }
}

impl Stale {
    /// A stable name for the staleness, for the trace vocabulary.
    pub fn fault_tag(&self) -> (r: &'static str)
        ensures
            r@ == spec_stale_tag(*self),
    {
        match self {
            Stale::Proc(_) => "Stale::Proc",
            Stale::Channel(_) => "Stale::Channel",
            Stale::Vas { .. } => "Stale::Vas",
            Stale::Route { .. } => "Stale::Route",
            Stale::Rebound => "Stale::Rebound",
            Stale::Target { .. } => "Stale::Target",
        }
    }
}

/// The stable trace name of an address-table refusal: `AddressFault::` and its variant.
pub open spec fn spec_address_tag(f: AddressFault) -> Seq<char> {
    match f {
        AddressFault::Miss { .. } => "AddressFault::Miss"@,
        AddressFault::Overlap { .. } => "AddressFault::Overlap"@,
        AddressFault::Malformed { .. } => "AddressFault::Malformed"@,
    }
}

impl AddressFault {
    /// A stable name for the refusal, for the trace vocabulary.
    pub fn fault_tag(&self) -> (r: &'static str)
        ensures
            r@ == spec_address_tag(*self),
    {
        match self {
            AddressFault::Miss { .. } => "AddressFault::Miss",
            AddressFault::Overlap { .. } => "AddressFault::Overlap",
            AddressFault::Malformed { .. } => "AddressFault::Malformed",
        }
    }
}

/// The stable trace name of a forwarding fault: `FwdFault::` and the variant's name, except
/// that an address fault and a staleness are named by *which* one they are.
pub open spec fn spec_fwd_fault_tag(f: FwdFault) -> Seq<char> {
    match f {
        FwdFault::MalformedToken { .. } => "FwdFault::MalformedToken"@,
        FwdFault::UnknownVchid { .. } => "FwdFault::UnknownVchid"@,
        FwdFault::RetiredProc(_) => "FwdFault::RetiredProc"@,
        FwdFault::Condemned { .. } => "FwdFault::Condemned"@,
        FwdFault::NoVas(_) => "FwdFault::NoVas"@,
        FwdFault::NotScheduled { .. } => "FwdFault::NotScheduled"@,
        FwdFault::UnknownChannel { .. } => "FwdFault::UnknownChannel"@,
        FwdFault::IsolateRetired { .. } => "FwdFault::IsolateRetired"@,
        FwdFault::IsolatePending { .. } => "FwdFault::IsolatePending"@,
        FwdFault::NoHostVas { .. } => "FwdFault::NoHostVas"@,
        FwdFault::GuestRamNotSysmem { .. } => "FwdFault::GuestRamNotSysmem"@,
        FwdFault::GuestRamAddressTaken { .. } => "FwdFault::GuestRamAddressTaken"@,
        FwdFault::GuestRamPinTooShort { .. } => "FwdFault::GuestRamPinTooShort"@,
        FwdFault::GuestRamPinOverlaps(_) => "FwdFault::GuestRamPinOverlaps"@,
        FwdFault::FbLeafDisagrees { .. } => "FwdFault::FbLeafDisagrees"@,
        FwdFault::FbLeafGranularity { .. } => "FwdFault::FbLeafGranularity"@,
        FwdFault::FbLeafExtent { .. } => "FwdFault::FbLeafExtent"@,
        FwdFault::CeTooFragmented { .. } => "FwdFault::CeTooFragmented"@,
        FwdFault::CePeerOperand { .. } => "FwdFault::CePeerOperand"@,
        FwdFault::CeNoTable { .. } => "FwdFault::CeNoTable"@,
        FwdFault::UnknownPdb { .. } => "FwdFault::UnknownPdb"@,
        FwdFault::NoTarget { .. } => "FwdFault::NoTarget"@,
        FwdFault::Address(a) => spec_address_tag(a),
        FwdFault::Arena => "FwdFault::Arena"@,
        FwdFault::GpaRead { .. } => "FwdFault::GpaRead"@,
        FwdFault::NonRamGpa { .. } => "FwdFault::NonRamGpa"@,
        FwdFault::PushbufferAperture { .. } => "FwdFault::PushbufferAperture"@,
        FwdFault::RingFbNeverWritten { .. } => "FwdFault::RingFbNeverWritten"@,
        FwdFault::RegionKindRefused { .. } => "FwdFault::RegionKindRefused"@,
        FwdFault::PushTooFragmented { .. } => "FwdFault::PushTooFragmented"@,
        FwdFault::NotAnEngine(_) => "FwdFault::NotAnEngine"@,
        FwdFault::EngineObjectParent { .. } => "FwdFault::EngineObjectParent"@,
        FwdFault::PoolSaturated { .. } => "FwdFault::PoolSaturated"@,
        FwdFault::Stale(st) => spec_stale_tag(st),
        FwdFault::SystemDataPlane => "FwdFault::SystemDataPlane"@,
        FwdFault::ForeignBacking { .. } => "FwdFault::ForeignBacking"@,
        FwdFault::UvmFaultMethodWithoutFaultDelivery { .. } => "FwdFault::UvmFaultMethodWithoutFaultDelivery"@,
    }
}

impl FwdFault {
    /// A stable name for the fault, for the trace vocabulary. Exhaustive by construction:
    /// a new variant fails the build until it is named.
    pub fn fault_tag(&self) -> (r: &'static str)
        ensures
            r@ == spec_fwd_fault_tag(*self),
    {
        match self {
            FwdFault::MalformedToken { .. } => "FwdFault::MalformedToken",
            FwdFault::UnknownVchid { .. } => "FwdFault::UnknownVchid",
            FwdFault::RetiredProc(_) => "FwdFault::RetiredProc",
            FwdFault::Condemned { .. } => "FwdFault::Condemned",
            FwdFault::NoVas(_) => "FwdFault::NoVas",
            FwdFault::NotScheduled { .. } => "FwdFault::NotScheduled",
            FwdFault::UnknownChannel { .. } => "FwdFault::UnknownChannel",
            FwdFault::IsolateRetired { .. } => "FwdFault::IsolateRetired",
            FwdFault::IsolatePending { .. } => "FwdFault::IsolatePending",
            FwdFault::NoHostVas { .. } => "FwdFault::NoHostVas",
            FwdFault::GuestRamNotSysmem { .. } => "FwdFault::GuestRamNotSysmem",
            FwdFault::GuestRamAddressTaken { .. } => "FwdFault::GuestRamAddressTaken",
            FwdFault::GuestRamPinTooShort { .. } => "FwdFault::GuestRamPinTooShort",
            FwdFault::GuestRamPinOverlaps(_) => "FwdFault::GuestRamPinOverlaps",
            FwdFault::FbLeafDisagrees { .. } => "FwdFault::FbLeafDisagrees",
            FwdFault::FbLeafGranularity { .. } => "FwdFault::FbLeafGranularity",
            FwdFault::FbLeafExtent { .. } => "FwdFault::FbLeafExtent",
            FwdFault::CeTooFragmented { .. } => "FwdFault::CeTooFragmented",
            FwdFault::CePeerOperand { .. } => "FwdFault::CePeerOperand",
            FwdFault::CeNoTable { .. } => "FwdFault::CeNoTable",
            FwdFault::UnknownPdb { .. } => "FwdFault::UnknownPdb",
            FwdFault::NoTarget { .. } => "FwdFault::NoTarget",
            FwdFault::Address(a) => a.fault_tag(),
            FwdFault::Arena => "FwdFault::Arena",
            FwdFault::GpaRead { .. } => "FwdFault::GpaRead",
            FwdFault::NonRamGpa { .. } => "FwdFault::NonRamGpa",
            FwdFault::PushbufferAperture { .. } => "FwdFault::PushbufferAperture",
            FwdFault::RingFbNeverWritten { .. } => "FwdFault::RingFbNeverWritten",
            FwdFault::RegionKindRefused { .. } => "FwdFault::RegionKindRefused",
            FwdFault::PushTooFragmented { .. } => "FwdFault::PushTooFragmented",
            FwdFault::NotAnEngine(_) => "FwdFault::NotAnEngine",
            FwdFault::EngineObjectParent { .. } => "FwdFault::EngineObjectParent",
            FwdFault::PoolSaturated { .. } => "FwdFault::PoolSaturated",
            FwdFault::Stale(st) => st.fault_tag(),
            FwdFault::SystemDataPlane => "FwdFault::SystemDataPlane",
            FwdFault::ForeignBacking { .. } => "FwdFault::ForeignBacking",
            FwdFault::UvmFaultMethodWithoutFaultDelivery { .. } => "FwdFault::UvmFaultMethodWithoutFaultDelivery",
        }
    }
}

} // verus!
