//! The aperture is what the guest settled: the choice of backing arm, checked against the
//! declaration that chose it.

use lib::aperture::{
    backing_for, honours_declaration, Aperture, DeclaredPlacement as D, FbLeafBacking as B,
};

#[test]
fn every_declaration_gets_the_arm_the_guest_asked_for() {
    let table: &[(D, B, &str)] = &[
        (
            D::Aperture(Aperture::Vidmem),
            B::Vidmem,
            "the guest's PTEs say device memory, so the leaf is device memory",
        ),
        (D::Aperture(Aperture::SysmemCoherent), B::Joined, "declared sysmem stays sysmem"),
        (
            D::Aperture(Aperture::SysmemNonCoherent),
            B::Joined,
            "declared sysmem stays sysmem, coherency notwithstanding",
        ),
        (
            D::Aperture(Aperture::Peer),
            B::Joined,
            "peer memory is on another GPU and neither arm expresses it",
        ),
        (
            D::Managed,
            B::Joined,
            "the UVM exception: residency migrates, so we assert no aperture at all",
        ),
        (
            D::Undeclared,
            B::Joined,
            "conservative: 'not found' must never become 'assume device memory'",
        ),
    ];
    for (declared, want, why) in table {
        assert_eq!(backing_for(*declared), *want, "{declared:?}: {why}");
    }
}

#[test]
fn the_chosen_arm_always_honours_the_declaration_that_chose_it() {
    for d in [
        D::Aperture(Aperture::Vidmem),
        D::Aperture(Aperture::SysmemCoherent),
        D::Aperture(Aperture::SysmemNonCoherent),
        D::Aperture(Aperture::Peer),
        D::Managed,
        D::Undeclared,
    ] {
        assert!(
            honours_declaration(d, backing_for(d)),
            "{d:?}: backing_for chose an arm its own conformance predicate rejects"
        );
    }
}

#[test]
fn a_backing_that_contradicts_the_declaration_is_detected() {
    assert!(!honours_declaration(D::Aperture(Aperture::Vidmem), B::Joined));
    assert!(!honours_declaration(D::Aperture(Aperture::SysmemCoherent), B::Vidmem));
}

#[test]
fn an_undeclared_leaf_is_vacuously_conformant_in_both_arms() {
    for b in [B::Vidmem, B::Joined] {
        assert!(
            honours_declaration(D::Undeclared, b),
            "an undeclared leaf asserted nothing, so nothing can contradict it"
        );
        assert!(
            honours_declaration(D::Managed, b),
            "UVM residency is the host driver's; we assert no aperture to be wrong about"
        );
    }
}

#[test]
fn the_uvm_exception_never_asserts_an_aperture() {
    assert_eq!(backing_for(D::Managed), B::Joined);
}

#[test]
fn every_declared_aperture_has_a_contradicting_arm() {
    for a in [
        Aperture::Vidmem,
        Aperture::SysmemCoherent,
        Aperture::SysmemNonCoherent,
        Aperture::Peer,
    ] {
        let d = D::Aperture(a);
        assert!(!honours_declaration(d, B::Vidmem) || !honours_declaration(d, B::Joined));
    }
}
