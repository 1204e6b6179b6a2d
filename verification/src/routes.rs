//! The named outcomes of the forwarding plane's routing decisions. Each absence has a
//! name: an `Option` would collapse different facts about the guest into one silence.
use vstd::prelude::*;

verus! {

/// How a control routed through the forward/acknowledge split.
#[derive(Debug, Clone, Copy, PartialEq, Eq)]
pub enum ControlRoute {
    /// Forwarded to the host through the owning process's isolate: the RPC *is* the
    /// userspace operation.
    Forwarded,
    /// A GSP-internal control with no unprivileged equivalent: acknowledged to the guest,
    /// nothing done on the host — its effect is already achieved by the forwarding.
    AckOnly,
}

/// Which hop of routing an engine-object allocation by its parent declined — different
/// facts, never collapsed into one "unroutable".
#[derive(Debug, Clone, Copy, PartialEq, Eq)]
pub enum EngineParentMiss {
    /// No object at `(client, hParent)` in the RM graph at all.
    NoNode,
    /// The parent exists and is not a channel — never walked through.
    NotAChannel,
    /// The channel's device ancestor has not resolved, so the allocation names no target
    /// GPU. Deferred, never defaulted to GPU 0.
    NoTarget,
    /// The channel names no channel id for this architecture.
    UnnamedVchid,
}

/// Whether a vidmem pushbuffer range may be read out of the emulated framebuffer this
/// device already serves. Refusing is the default, so no call site reaches the other arm
/// without opting in.
#[derive(Debug, Clone, Copy, PartialEq, Eq)]
pub enum VidmemRoute {
    /// A vidmem range is refused, exactly as before this switch existed.
    Refuse,
    /// Read vidmem ranges out of our own framebuffer.
    OwnFramebuffer,
}

impl Default for VidmemRoute {
    fn default() -> (r: VidmemRoute)
        ensures
            r == VidmemRoute::Refuse,
    {
        VidmemRoute::Refuse
    }
}

/// What reading a channel's GPFIFO ring found — the ring, or the **named** reason there
/// is none.
#[derive(Debug, Clone, PartialEq, Eq)]
pub enum RingLook {
    /// The mapped prefix of the ring, as bytes. Never empty.
    Ring(Vec<u8>),
    /// The channel's resource has no node in the RM graph.
    NoChannelNode,
    /// The node exists and declares no ring at all.
    NoRingDeclared,
    /// A ring was declared, and declared empty.
    RingDeclaredEmpty {
        /// The declared ring address.
        va: u64,
        /// The declared entry count.
        entries: u32,
    },
    /// The channel has no address space, so this table is not the one its ring lives in.
    NoAddressSpace,
    /// The ring's own address is not bound in the channel's address table.
    RingVaUnbound {
        /// The declared ring address that resolved to nothing.
        va: u64,
    },
    /// The address is bound, but the binding ends at or before it.
    RingMappedZero {
        /// The declared ring address.
        va: u64,
    },
}

/// The stable tag of each outcome: the variant, never a derived judgement.
pub open spec fn spec_ring_look_tag(l: RingLook) -> Seq<char> {
    match l {
        RingLook::Ring(_) => "RING"@,
        RingLook::NoChannelNode => "NO-CHANNEL-NODE"@,
        RingLook::NoRingDeclared => "NO-RING-DECLARED"@,
        RingLook::RingDeclaredEmpty { .. } => "RING-DECLARED-EMPTY"@,
        RingLook::NoAddressSpace => "NO-ADDRESS-SPACE"@,
        RingLook::RingVaUnbound { .. } => "RING-VA-UNBOUND"@,
        RingLook::RingMappedZero { .. } => "RING-MAPPED-ZERO"@,
    }
}

impl RingLook {
    /// A short, stable tag naming this outcome, for a diagnostic line: a reader can tell
    /// which absence happened without the printer having decided what it means.
    pub fn tag(&self) -> (r: &'static str)
        ensures
            r@ == spec_ring_look_tag(*self),
    {
        match self {
            RingLook::Ring(_) => "RING",
            RingLook::NoChannelNode => "NO-CHANNEL-NODE",
            RingLook::NoRingDeclared => "NO-RING-DECLARED",
            RingLook::RingDeclaredEmpty { .. } => "RING-DECLARED-EMPTY",
            RingLook::NoAddressSpace => "NO-ADDRESS-SPACE",
            RingLook::RingVaUnbound { .. } => "RING-VA-UNBOUND",
            RingLook::RingMappedZero { .. } => "RING-MAPPED-ZERO",
        }
    }
}

/// Which completion arm a channel's engine signals through.
#[derive(Debug, Clone, Copy, PartialEq, Eq)]
pub enum CompletionArm {
    /// A semaphore write on a shared or published page.
    SharedSema,
    /// A mapped coherent fence the GPU writes and the guest worker reads with no syscall.
    MappedFence,
}

/// Why one address space is being swept. Reported, never inferred.
#[derive(Debug, Clone, Copy, PartialEq, Eq, PartialOrd, Ord)]
pub enum SweepReason {
    /// It has never been swept: a fresh address space has no picture at all.
    NeverSwept,
    /// Its last sweep hit the budget. Ranked above `Dirty`: a truncated walk produced no
    /// leaves, a strictly worse picture than a stale one.
    Truncated,
    /// The guest wrote a page-table page this address space's sweep is tracking.
    Dirty,
}

/// How a commit admits the pages a pass decoded.
#[derive(Debug, Clone, Copy, PartialEq, Eq)]
pub enum Admit {
    /// A leaf binds iff its page is reachable **and** the guest was seen to write it.
    Witnessed,
    /// Pages reached by a descent from the address space's own installed root are
    /// admitted, witnessed or not — only for a whole-space sweep from the root.
    Swept,
}

/// **A truncated picture is never current**: an address space that has been swept but
/// whose last sweep hit the budget is swept again, as truncated, whether or not it is
/// dirty; a space is skipped exactly when it has been swept, completely, and is clean;
/// a never-swept space is always swept first; and a clean, complete but dirtied space is
/// swept as dirty.
pub proof fn law_sweep_reasons(sweeps: u64, truncated: bool, dirty: bool)
    ensures
        sweeps > 0 && truncated ==> spec_sweep_reason(sweeps, truncated, dirty) == Some(
            SweepReason::Truncated,
        ),
        spec_sweep_reason(sweeps, truncated, dirty) is None <==> (sweeps > 0 && !truncated
            && !dirty),
        sweeps == 0 ==> spec_sweep_reason(sweeps, truncated, dirty) == Some(
            SweepReason::NeverSwept,
        ),
        sweeps > 0 && !truncated && dirty ==> spec_sweep_reason(sweeps, truncated, dirty)
            == Some(SweepReason::Dirty),
{
}

/// Why an address space with this sweep history needs a sweep, by rank — or `None` when
/// its picture is current and it is skipped.
pub open spec fn spec_sweep_reason(sweeps: u64, truncated: bool, dirty: bool) -> Option<
    SweepReason,
> {
    if sweeps == 0 {
        Some(SweepReason::NeverSwept)
    } else if truncated {
        Some(SweepReason::Truncated)
    } else if dirty {
        Some(SweepReason::Dirty)
    } else {
        None
    }
}

/// Decide whether (and why) an address space is swept: never swept, then truncated, then
/// dirty; otherwise its picture is current.
pub fn sweep_reason(sweeps: u64, truncated: bool, dirty: bool) -> (r: Option<SweepReason>)
    ensures
        r == spec_sweep_reason(sweeps, truncated, dirty),
{
    if sweeps == 0 {
        Some(SweepReason::NeverSwept)
    } else if truncated {
        Some(SweepReason::Truncated)
    } else if dirty {
        Some(SweepReason::Dirty)
    } else {
        None
    }
}

} // verus!
