//! **The aperture is what the guest settled.** Which chain backs a framebuffer leaf is
//! decided by what the guest's own page tables declared about it, and by nothing else.
use vstd::prelude::*;

verus! {

/// Where a GPU page-table entry says its page lives.
#[derive(Debug, Clone, Copy, PartialEq, Eq)]
pub enum Aperture {
    /// Device memory — the GPU's own framebuffer.
    Vidmem,
    /// Host system memory, snooped by the GPU.
    SysmemCoherent,
    /// Host system memory, not snooped.
    SysmemNonCoherent,
    /// Another GPU's framebuffer.
    Peer,
}

/// What the guest declared about where a leaf's bytes live.
#[derive(Debug, Clone, Copy, PartialEq, Eq)]
pub enum DeclaredPlacement {
    /// The guest's PTEs name an aperture.
    Aperture(Aperture),
    /// Managed (UVM) memory: residency migrates, and the host driver owns it, so no
    /// aperture is asserted at all.
    Managed,
    /// Nothing was found. Never read as "assume device memory".
    Undeclared,
}

/// Which chain a framebuffer leaf is materialized by — alternatives, never layers: a leaf
/// served by both would have two host objects at one VA.
#[derive(Debug, Clone, Copy, PartialEq, Eq)]
pub enum FbLeafBacking {
    /// Real host vidmem at the guest's own VA, with no CPU view.
    Vidmem,
    /// One memory: a fabricated backing, mapped in the isolate, placed at the leaf's VA
    /// and mapped by the VMM as the guest's view of the same range. The leaf becomes host
    /// sysmem.
    Joined,
}

/// The arm a declaration asks for: device memory where the guest's PTEs say device
/// memory, and the joined sysmem arm for everything else — declared sysmem stays sysmem,
/// managed memory is never pinned, and "not found" never becomes "device memory".
pub open spec fn spec_backing_for(declared: DeclaredPlacement) -> FbLeafBacking {
    match declared {
        DeclaredPlacement::Aperture(Aperture::Vidmem) => FbLeafBacking::Vidmem,
        _ => FbLeafBacking::Joined,
    }
}

/// Whether backing a leaf with `backing` honours what the guest declared about it: a
/// declared aperture must be matched (vidmem by the vidmem arm, sysmem by the joined
/// arm); a managed or undeclared leaf asserted nothing, so nothing contradicts it.
pub open spec fn spec_honours_declaration(
    declared: DeclaredPlacement,
    backing: FbLeafBacking,
) -> bool {
    match declared {
        DeclaredPlacement::Aperture(Aperture::Vidmem) => backing == FbLeafBacking::Vidmem,
        DeclaredPlacement::Aperture(_) => backing == FbLeafBacking::Joined,
        DeclaredPlacement::Managed | DeclaredPlacement::Undeclared => true,
    }
}

/// Choose the backing arm for a leaf from its declared placement.
pub fn backing_for(declared: DeclaredPlacement) -> (r: FbLeafBacking)
    ensures
        r == spec_backing_for(declared),
{
    match declared {
        DeclaredPlacement::Aperture(Aperture::Vidmem) => FbLeafBacking::Vidmem,
        _ => FbLeafBacking::Joined,
    }
}

/// Check a backing against the declaration it must honour.
pub fn honours_declaration(declared: DeclaredPlacement, backing: FbLeafBacking) -> (r: bool)
    ensures
        r == spec_honours_declaration(declared, backing),
{
    match declared {
        DeclaredPlacement::Aperture(Aperture::Vidmem) => match backing {
            FbLeafBacking::Vidmem => true,
            FbLeafBacking::Joined => false,
        },
        DeclaredPlacement::Aperture(_) => match backing {
            FbLeafBacking::Vidmem => false,
            FbLeafBacking::Joined => true,
        },
        DeclaredPlacement::Managed | DeclaredPlacement::Undeclared => true,
    }
}

/// The chosen arm always honours the declaration that chose it.
pub proof fn law_chosen_backing_honours_declaration(declared: DeclaredPlacement)
    ensures
        spec_honours_declaration(declared, spec_backing_for(declared)),
{
}

/// The conformance check is not vacuous: every declared aperture has an arm that
/// contradicts it, and only a managed or undeclared leaf is honoured by both arms.
pub proof fn law_declared_aperture_can_be_contradicted(declared: DeclaredPlacement)
    ensures
        declared is Aperture <==> exists|b: FbLeafBacking| !spec_honours_declaration(declared, b),
{
    if declared is Aperture {
        let wrong = if spec_backing_for(declared) == FbLeafBacking::Vidmem {
            FbLeafBacking::Joined
        } else {
            FbLeafBacking::Vidmem
        };
        assert(!spec_honours_declaration(declared, wrong));
    }
}

} // verus!
