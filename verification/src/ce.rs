//! **Who runs a copy-engine operation.** The criterion is a property of the *address*
//! an operand lives at, not of who submitted the work: an operand the host can express to
//! a real engine may go to one, and an operand in memory we fabricated may not.
use crate::plans::ProcView;
use vstd::prelude::*;

verus! {

/// What one copy-engine launch does.
#[derive(Debug, Clone, Copy, PartialEq, Eq)]
pub enum CeWork {
    /// Copy from a source operand.
    Copy,
    /// Zero the destination.
    Scrub,
    /// Fill the destination with a pattern.
    Fill {
        /// The pattern.
        pattern: u32,
    },
}

/// Which engine executes a (sub-)copy.
#[derive(Debug, Clone, Copy, PartialEq, Eq, Structural, Hash)]
pub enum CeExecutor {
    /// A real host copy engine, on the isolate's own channel.
    HostCe,
    /// Our own executor, on the bytes we hold.
    Ours,
}

/// Who submitted a copy-engine command.
#[derive(Debug, Clone, Copy, PartialEq, Eq)]
pub enum ChannelOrigin {
    /// A user process's channel — the user-observable copy-engine data path.
    User,
    /// The guest kernel's own channel — its copy utilities, the scrubber, UVM.
    GuestKernel,
}

/// Where a copy-engine operand's address lives — a property of the address alone.
#[derive(Debug, Clone, Copy, PartialEq, Eq, Structural, PartialOrd, Ord, Hash)]
pub enum Representability {
    /// Host-published in the owning address space at the identical address, and the
    /// range's only memory: a real engine can be pointed at the guest's own number.
    HostBacked,
    /// Declared, with nothing host-side behind it: it lives in memory we invented, and a
    /// real engine pointed here resolves nothing.
    Fabricated,
    /// The command named a physical address, so no GPU VA denotes it at all.
    PhysicalOperand,
    /// No binding covers the range: forwarded, never guessed into a capture. Populating
    /// the address table moves work *off* the hardware arm, not onto it.
    Untracked,
}

impl ChannelOrigin {
    /// The origin of a channel owned by `p`: the device's system process is the guest
    /// kernel's own component; every other process is a user's.
    pub fn of(p: &ProcView) -> (r: ChannelOrigin)
        ensures
            r == (if p.system { ChannelOrigin::GuestKernel } else { ChannelOrigin::User }),
    {
        if p.system {
            ChannelOrigin::GuestKernel
        } else {
            ChannelOrigin::User
        }
    }
}

/// The engine an address of kind `r` may be pointed at.
pub open spec fn spec_executor(r: Representability) -> CeExecutor {
    match r {
        Representability::HostBacked | Representability::Untracked => CeExecutor::HostCe,
        Representability::Fabricated | Representability::PhysicalOperand => CeExecutor::Ours,
    }
}

impl Representability {
    /// Which engine may be pointed at an address of this kind. Neither the work kind nor
    /// who submitted it is consulted.
    pub fn executor(self) -> (r: CeExecutor)
        ensures
            r == spec_executor(self),
    {
        match self {
            Representability::HostBacked | Representability::Untracked => CeExecutor::HostCe,
            Representability::Fabricated | Representability::PhysicalOperand => CeExecutor::Ours,
        }
    }
}

/// The engine for a sub-copy whose destination is of kind `dst` and whose source (if it
/// has one) is of kind `src`: hardware only where **both** ends can be expressed to it.
pub open spec fn spec_span_executor(dst: Representability, src: Option<Representability>) -> CeExecutor {
    match src {
        Some(s) => if spec_executor(dst) == CeExecutor::HostCe && spec_executor(s)
            == CeExecutor::HostCe {
            CeExecutor::HostCe
        } else {
            CeExecutor::Ours
        },
        None => spec_executor(dst),
    }
}

/// The engine for one sub-copy, from both of its ends.
pub fn span_executor(dst: Representability, src: Option<Representability>) -> (r: CeExecutor)
    ensures
        r == spec_span_executor(dst, src),
{
    match src {
        Some(s) => match (dst.executor(), s.executor()) {
            (CeExecutor::HostCe, CeExecutor::HostCe) => CeExecutor::HostCe,
            _ => CeExecutor::Ours,
        },
        None => dst.executor(),
    }
}

/// The baseline predicate the address criterion replaced: a plain copy between two
/// virtual operands on a user channel goes to the host engine, and everything else is
/// ours.
pub open spec fn spec_ce_executor_c(
    work: CeWork,
    origin: ChannelOrigin,
    src_is_virtual: bool,
    dst_is_virtual: bool,
) -> CeExecutor {
    if work is Copy && src_is_virtual && dst_is_virtual && origin == ChannelOrigin::User {
        CeExecutor::HostCe
    } else {
        CeExecutor::Ours
    }
}

/// The baseline execute predicate — who submitted the work and what form its operands
/// took — kept so each departure of the address criterion from it is a value a test
/// reads.
pub fn ce_executor_c(
    work: CeWork,
    origin: ChannelOrigin,
    src_is_virtual: bool,
    dst_is_virtual: bool,
) -> (r: CeExecutor)
    ensures
        r == spec_ce_executor_c(work, origin, src_is_virtual, dst_is_virtual),
{
    let plain_copy = match work {
        CeWork::Copy => true,
        _ => false,
    };
    let user = match origin {
        ChannelOrigin::User => true,
        ChannelOrigin::GuestKernel => false,
    };
    if plain_copy && src_is_virtual && dst_is_virtual && user {
        CeExecutor::HostCe
    } else {
        CeExecutor::Ours
    }
}

/// An unrepresentable end keeps a sub-copy off the hardware, whichever end it is.
pub proof fn law_unrepresentable_end_stays_ours(dst: Representability, src: Representability)
    ensures
        spec_executor(dst) == CeExecutor::Ours ==> spec_span_executor(dst, Some(src))
            == CeExecutor::Ours,
        spec_executor(src) == CeExecutor::Ours ==> spec_span_executor(dst, Some(src))
            == CeExecutor::Ours,
        spec_span_executor(dst, Some(src)) == spec_span_executor(src, Some(dst)),
{
}

} // verus!
