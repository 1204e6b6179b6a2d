//! Executor choice, routing outcomes, and the fault vocabulary.

use lib::ce::{ce_executor_c, span_executor, CeExecutor, CeWork, ChannelOrigin, Representability as R};
use lib::fault::{GspFault, RxLinkCode};
use lib::routes::{sweep_reason, RingLook, SweepReason, VidmemRoute};

#[test]
fn the_executor_is_a_property_of_the_address() {
    assert_eq!(R::HostBacked.executor(), CeExecutor::HostCe);
    assert_eq!(R::Untracked.executor(), CeExecutor::HostCe);
    assert_eq!(R::Fabricated.executor(), CeExecutor::Ours);
    assert_eq!(R::PhysicalOperand.executor(), CeExecutor::Ours);
}

#[test]
fn both_ends_must_be_expressible_for_hardware() {
    assert_eq!(span_executor(R::HostBacked, Some(R::HostBacked)), CeExecutor::HostCe);
    assert_eq!(span_executor(R::HostBacked, Some(R::Fabricated)), CeExecutor::Ours);
    assert_eq!(span_executor(R::PhysicalOperand, Some(R::Untracked)), CeExecutor::Ours);
    assert_eq!(span_executor(R::Untracked, None), CeExecutor::HostCe);
    assert_eq!(span_executor(R::Fabricated, None), CeExecutor::Ours);
}

#[test]
fn the_baseline_predicate_keys_on_who_submitted() {
    assert_eq!(ce_executor_c(CeWork::Copy, ChannelOrigin::User, true, true), CeExecutor::HostCe);
    assert_eq!(ce_executor_c(CeWork::Copy, ChannelOrigin::GuestKernel, true, true), CeExecutor::Ours);
    assert_eq!(ce_executor_c(CeWork::Copy, ChannelOrigin::User, false, true), CeExecutor::Ours);
    assert_eq!(ce_executor_c(CeWork::Scrub, ChannelOrigin::User, true, true), CeExecutor::Ours);
    assert_eq!(ce_executor_c(CeWork::Fill { pattern: 7 }, ChannelOrigin::User, true, true), CeExecutor::Ours);
}

#[test]
fn every_ring_absence_has_its_own_tag() {
    let looks = [
        RingLook::Ring(vec![1]),
        RingLook::NoChannelNode,
        RingLook::NoRingDeclared,
        RingLook::RingDeclaredEmpty { va: 0, entries: 0 },
        RingLook::NoAddressSpace,
        RingLook::RingVaUnbound { va: 0x1000 },
        RingLook::RingMappedZero { va: 0x1000 },
    ];
    let tags: Vec<&str> = looks.iter().map(|l| l.tag()).collect();
    assert_eq!(
        tags,
        vec![
            "RING",
            "NO-CHANNEL-NODE",
            "NO-RING-DECLARED",
            "RING-DECLARED-EMPTY",
            "NO-ADDRESS-SPACE",
            "RING-VA-UNBOUND",
            "RING-MAPPED-ZERO"
        ]
    );
}

#[test]
fn vidmem_is_refused_by_default() {
    assert_eq!(VidmemRoute::default(), VidmemRoute::Refuse);
}

#[test]
fn a_sweep_reason_is_ranked() {
    assert_eq!(sweep_reason(0, true, true), Some(SweepReason::NeverSwept));
    assert_eq!(sweep_reason(3, true, true), Some(SweepReason::Truncated));
    assert_eq!(sweep_reason(3, false, true), Some(SweepReason::Dirty));
    assert_eq!(sweep_reason(3, false, false), None);
    assert!(SweepReason::NeverSwept < SweepReason::Truncated);
    assert!(SweepReason::Truncated < SweepReason::Dirty);
}

#[test]
fn every_fault_has_a_stable_tag() {
    assert_eq!(GspFault::QueueNotBound.fault_tag(), "GspFault::QueueNotBound");
    assert_eq!(GspFault::SeqNumGap { expected: 1, got: 2 }.fault_tag(), "GspFault::SeqNumGap");
    assert_eq!(
        GspFault::GeometryRejected(RxLinkCode::SizeMismatch).fault_tag(),
        "GspFault::GeometryRejected"
    );
    assert_eq!(
        GspFault::DeclaredHeaderSizeMismatch { declared: 1, expected: 2 }.fault_tag(),
        "GspFault::DeclaredHeaderSizeMismatch"
    );
}
