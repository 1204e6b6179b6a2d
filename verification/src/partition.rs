//! **The range algebra**: partition one copy-engine request into the maximal sub-copies
//! over which both operands' representability is constant.
//!
//! A copy has two ends, and a sub-copy may go to real hardware only if **both** can be
//! expressed to it. So the destination's partition and the source's partition are
//! intersected — cut at every boundary either one introduces — and each piece gets the
//! engine its two kinds allow. Adjacent pieces that ended up on the same engine, with the
//! same evidence and contiguous places, are merged into one instruction.
use vstd::prelude::*;

use crate::aperture::Aperture;
use crate::ce::{span_executor, spec_span_executor, CeExecutor, CeWork, Representability};

verus! {

/// The CPU-reachable store an operand's bytes live in.
#[derive(Debug, Clone, Copy, PartialEq, Eq, Structural)]
pub enum CpuPlane {
    /// The emulated framebuffer.
    Fb,
    /// Guest RAM.
    GuestRam,
}

/// An operand as the CPU reaches it: the store its bytes live in, and the address they
/// are at **in that store** — not the GPU virtual address the engine is given.
#[derive(Debug, Clone, Copy, PartialEq, Eq, Structural)]
pub struct CpuOperand {
    /// The store.
    pub plane: CpuPlane,
    /// The address within the store.
    pub addr: u64,
}

/// What a physical copy-engine operand's `_TARGET` declared.
#[derive(Debug, Clone, Copy, PartialEq, Eq)]
pub enum PhysTarget {
    /// The local framebuffer.
    LocalFb,
    /// Coherent system memory.
    CoherentSysmem,
    /// Non-coherent system memory.
    NonCoherentSysmem,
    /// Another GPU's framebuffer.
    Peer,
}

/// The static residency oracle: where an operand's bytes are, read from what the guest
/// *declared* about it and nothing else. A peer operand has no plane this device backs.
#[derive(Debug, Clone, Copy, PartialEq, Eq, Default)]
pub struct DeclaredResidency;

/// The plane a physical operand's declared target names.
pub open spec fn spec_plane_of_target(target: PhysTarget) -> Option<CpuPlane> {
    match target {
        PhysTarget::LocalFb => Some(CpuPlane::Fb),
        PhysTarget::CoherentSysmem | PhysTarget::NonCoherentSysmem => Some(CpuPlane::GuestRam),
        PhysTarget::Peer => None,
    }
}

/// The plane a declared-but-unpublished binding's aperture names.
pub open spec fn spec_plane_of_aperture(aperture: Aperture) -> Option<CpuPlane> {
    match aperture {
        Aperture::Vidmem => Some(CpuPlane::Fb),
        Aperture::SysmemCoherent | Aperture::SysmemNonCoherent => Some(CpuPlane::GuestRam),
        Aperture::Peer => None,
    }
}

impl DeclaredResidency {
    /// `_LOCAL_FB` → the emulated framebuffer, sysmem → guest RAM, peer → not ours.
    /// `addr` is unread by this oracle.
    pub fn residency_of_physical(&self, target: PhysTarget, addr: u64) -> (r: Option<CpuPlane>)
        ensures
            r == spec_plane_of_target(target),
    {
        match target {
            PhysTarget::LocalFb => Some(CpuPlane::Fb),
            PhysTarget::CoherentSysmem | PhysTarget::NonCoherentSysmem => Some(CpuPlane::GuestRam),
            PhysTarget::Peer => None,
        }
    }

    /// A vidmem binding is a page of the emulated framebuffer, a sysmem binding is guest
    /// RAM, a peer binding is not ours. `addr` is unread by this oracle.
    pub fn residency_of_aperture(&self, aperture: Aperture, addr: u64) -> (r: Option<CpuPlane>)
        ensures
            r == spec_plane_of_aperture(aperture),
    {
        match aperture {
            Aperture::Vidmem => Some(CpuPlane::Fb),
            Aperture::SysmemCoherent | Aperture::SysmemNonCoherent => Some(CpuPlane::GuestRam),
            Aperture::Peer => None,
        }
    }
}

/// **Only video memory is our framebuffer**: a declared binding's aperture names the
/// emulated framebuffer exactly when it is `Vidmem`, names guest RAM exactly when it is
/// either sysmem aperture, coherent or not, and names no plane of ours for a peer — and a
/// physical operand's target agrees with the aperture of the same memory.
pub proof fn law_planes_of_apertures(a: Aperture)
    ensures
        spec_plane_of_aperture(a) == Some(CpuPlane::Fb) <==> a == Aperture::Vidmem,
        spec_plane_of_aperture(a) == Some(CpuPlane::GuestRam) <==> (a == Aperture::SysmemCoherent
            || a == Aperture::SysmemNonCoherent),
        spec_plane_of_aperture(a) is None <==> a == Aperture::Peer,
        spec_plane_of_aperture(Aperture::Vidmem) == spec_plane_of_target(PhysTarget::LocalFb),
        spec_plane_of_aperture(Aperture::SysmemCoherent) == spec_plane_of_target(
            PhysTarget::CoherentSysmem,
        ),
        spec_plane_of_aperture(Aperture::SysmemNonCoherent) == spec_plane_of_target(
            PhysTarget::NonCoherentSysmem,
        ),
        spec_plane_of_aperture(Aperture::Peer) == spec_plane_of_target(PhysTarget::Peer),
        spec_plane_of_target(PhysTarget::NonCoherentSysmem) == Some(CpuPlane::GuestRam),
        spec_plane_of_target(PhysTarget::CoherentSysmem) == Some(CpuPlane::GuestRam),
        spec_plane_of_target(PhysTarget::LocalFb) == Some(CpuPlane::Fb),
{
}

/// One run of an operand's partition: where it starts in the operand's own space, how
/// long it is, its kind, and — where our executor would reach it — its place.
#[derive(Debug, Clone, Copy, PartialEq, Eq)]
pub struct OperandRun {
    /// The run's start, in the operand's own address space.
    pub start: u64,
    /// The run's length in bytes.
    pub len: u64,
    /// Where the run's addresses live.
    pub kind: Representability,
    /// The run's first byte as the CPU reaches it, where it does.
    pub place: Option<CpuOperand>,
}

/// Where a sub-copy's bytes come from.
#[derive(Debug, Clone, Copy, PartialEq, Eq)]
pub enum CeSource {
    /// A source operand at this address.
    Address(u64),
    /// A constant: a scrub writes zero, a fill its pattern.
    Constant(u32),
}

/// One instruction for the isolate.
#[derive(Debug, Clone, Copy, PartialEq, Eq)]
pub struct CeSubCopy {
    /// The destination, as the engine is given it.
    pub dst: u64,
    /// The source.
    pub src: CeSource,
    /// The length in bytes.
    pub len: u64,
    /// Which engine executes it.
    pub by: CeExecutor,
    /// The guest's own completion, written by the engine once this copy's bytes have
    /// moved — `None` but on the last span of a launch that declared one.
    pub guest_release: Option<CeGuestRelease>,
}

/// A guest completion handed to the engine: one 32-bit word written at a guest address.
#[derive(Debug, Clone, Copy, PartialEq, Eq)]
pub struct CeGuestRelease {
    /// The guest address the release is written at.
    pub va: u64,
    /// The word written.
    pub payload: u32,
}

/// One sub-range of a partitioned request: the instruction, plus the evidence that chose
/// its engine, so a test can ask *why* without re-implementing the classifier.
#[derive(Debug, Clone, Copy, PartialEq, Eq)]
pub struct CeSpan {
    /// The instruction.
    pub sub: CeSubCopy,
    /// Where the destination address lives.
    pub dst_kind: Representability,
    /// Where the source address lives — `None` for a scrub or a fill.
    pub src_kind: Option<Representability>,
    /// The destination as the CPU reaches it, where it does.
    pub dst_place: Option<CpuOperand>,
    /// The source as the CPU reaches it, where it does.
    pub src_place: Option<CpuOperand>,
}

/// Upper bound on the sub-copies one request may partition into. Exceeding it is a loud
/// refusal, never a truncation: a partition that stops early drops the tail of a copy.
pub const MAX_CE_SPANS: usize = 4096;

/// A request too fragmented to partition within [`MAX_CE_SPANS`].
#[derive(Debug, Clone, Copy, PartialEq, Eq)]
pub struct CeTooFragmented {
    /// The request's destination.
    pub dst: u64,
    /// The request's declared length.
    pub len: u64,
}

/// `x + n`, modulo 2^64.
pub open spec fn wrap_add(x: u64, n: int) -> u64 {
    ((x + n) % 0x1_0000_0000_0000_0000) as u64
}

/// A place `n` bytes further on; no place stays no place.
pub open spec fn advance(p: Option<CpuOperand>, n: int) -> Option<CpuOperand> {
    match p {
        Some(c) => Some(CpuOperand { plane: c.plane, addr: wrap_add(c.addr, n) }),
        None => None,
    }
}

/// `next` starts where `prev`, `prev_len` bytes long, ends: both absent, or the same
/// plane and the next address.
pub open spec fn spec_plane_follows(
    prev: Option<CpuOperand>,
    next: Option<CpuOperand>,
    prev_len: u64,
) -> bool {
    match (prev, next) {
        (None, None) => true,
        (Some(a), Some(b)) => a.plane == b.plane && wrap_add(a.addr, prev_len as int) == b.addr,
        _ => false,
    }
}

/// Whether one place starts where the other ends.
pub fn plane_follows(prev: Option<CpuOperand>, next: Option<CpuOperand>, prev_len: u64) -> (r:
    bool)
    ensures
        r == spec_plane_follows(prev, next, prev_len),
{
    match (prev, next) {
        (None, None) => true,
        (Some(a), Some(b)) => a.plane == b.plane && a.addr.wrapping_add(prev_len) == b.addr,
        _ => false,
    }
}

/// The bytes the first `i` runs cover.
pub open spec fn prefix(runs: Seq<OperandRun>, i: nat) -> nat
    decreases i,
{
    if i == 0 || runs.len() == 0 {
        0
    } else {
        (runs[0].len + prefix(runs.drop_first(), (i - 1) as nat)) as nat
    }
}

/// The bytes all runs cover.
pub open spec fn total(runs: Seq<OperandRun>) -> nat {
    prefix(runs, runs.len())
}

/// Every run covers at least one byte.
pub open spec fn positive(runs: Seq<OperandRun>) -> bool {
    forall|i: int| 0 <= i < runs.len() ==> #[trigger] runs[i].len > 0
}

/// The index of the run offset `o` falls in.
pub open spec fn run_at(runs: Seq<OperandRun>, o: nat) -> nat
    decreases runs.len(),
{
    if runs.len() == 0 {
        0
    } else if o < runs[0].len {
        0
    } else {
        1 + run_at(runs.drop_first(), (o - runs[0].len) as nat)
    }
}

/// Where destination byte `o` of the request lives.
pub open spec fn dst_kind_at(runs: Seq<OperandRun>, o: nat) -> Representability {
    runs[run_at(runs, o) as int].kind
}

/// Destination byte `o` as the CPU reaches it.
pub open spec fn dst_place_at(runs: Seq<OperandRun>, o: nat) -> Option<CpuOperand> {
    let i = run_at(runs, o);
    advance(runs[i as int].place, o - prefix(runs, i))
}

/// Where source byte `o` lives: nothing for a request without a source, and untracked past
/// the end of a clipped source partition — a source that reads nothing is forwardable,
/// never a silent shortening of the destination.
pub open spec fn src_kind_at(runs: Seq<OperandRun>, has_src: bool, o: nat) -> Option<
    Representability,
> {
    if !has_src {
        None
    } else if o < total(runs) {
        Some(runs[run_at(runs, o) as int].kind)
    } else {
        Some(Representability::Untracked)
    }
}

/// Source byte `o` as the CPU reaches it.
pub open spec fn src_place_at(runs: Seq<OperandRun>, has_src: bool, o: nat) -> Option<
    CpuOperand,
> {
    if !has_src || o >= total(runs) {
        None
    } else {
        let i = run_at(runs, o);
        advance(runs[i as int].place, o - prefix(runs, i))
    }
}

/// The source of the sub-copy that starts `at` bytes into the request.
pub open spec fn source_at(work: CeWork, src: u64, at: nat) -> CeSource {
    match work {
        CeWork::Copy => CeSource::Address(wrap_add(src, at as int)),
        CeWork::Scrub => CeSource::Constant(0),
        CeWork::Fill { pattern } => CeSource::Constant(pattern),
    }
}

/// The bytes the first `k` spans cover — where span `k` starts.
pub open spec fn span_offset(spans: Seq<CeSpan>, k: nat) -> nat
    decreases k,
{
    if k == 0 || spans.len() == 0 {
        0
    } else {
        (spans[0].sub.len + span_offset(spans.drop_first(), (k - 1) as nat)) as nat
    }
}

/// The request the partition is of.
pub struct CeRequest {
    /// The destination.
    pub dst: u64,
    /// The source, for a copy.
    pub src: u64,
    /// What the launch does.
    pub work: CeWork,
    /// The destination's partition.
    pub dst_runs: Seq<OperandRun>,
    /// The source's partition, for a copy.
    pub src_runs: Seq<OperandRun>,
}

/// A span that starts `at` bytes into request `q` describes exactly the bytes it covers:
/// its instruction addresses them, its engine is the one both ends' kinds allow, and
/// every byte it covers has the kinds it records and lives at the places it records,
/// advanced by the byte's distance into it.
pub open spec fn span_faithful(q: CeRequest, s: CeSpan, at: nat) -> bool {
    let has_src = q.work is Copy;
    &&& s.sub.len > 0
    &&& s.sub.guest_release is None
    &&& s.sub.dst == wrap_add(q.dst, at as int)
    &&& s.sub.src == source_at(q.work, q.src, at)
    &&& s.sub.by == spec_span_executor(s.dst_kind, s.src_kind)
    &&& forall|o: nat|
        #![trigger dst_kind_at(q.dst_runs, o)]
        #![trigger src_kind_at(q.src_runs, has_src, o)]
        #![trigger dst_place_at(q.dst_runs, o)]
        #![trigger src_place_at(q.src_runs, has_src, o)]
        at <= o < at + s.sub.len ==> dst_kind_at(q.dst_runs, o) == s.dst_kind && src_kind_at(
            q.src_runs,
            has_src,
            o,
        ) == s.src_kind && dst_place_at(q.dst_runs, o) == advance(s.dst_place, o - at)
            && src_place_at(q.src_runs, has_src, o) == advance(s.src_place, o - at)
}

/// Two adjacent spans could be one instruction: the same engine and evidence, and places
/// and destinations that continue.
pub open spec fn mergeable(a: CeSpan, b: CeSpan) -> bool {
    &&& a.sub.by == b.sub.by
    &&& a.dst_kind == b.dst_kind
    &&& a.src_kind == b.src_kind
    &&& spec_plane_follows(a.dst_place, b.dst_place, a.sub.len)
    &&& spec_plane_follows(a.src_place, b.src_place, a.sub.len)
    &&& wrap_add(a.sub.dst, a.sub.len as int) == b.sub.dst
}

/// `spans` is a partition of request `q`: consecutive spans tile the destination's whole
/// extent from its start, each describes exactly the bytes it covers, and no two
/// neighbours could have been one instruction.
pub open spec fn partitions(q: CeRequest, spans: Seq<CeSpan>) -> bool {
    &&& span_offset(spans, spans.len()) == total(q.dst_runs)
    &&& forall|k: int| 0 <= k < spans.len() ==> span_faithful(q, #[trigger] spans[k], span_offset(spans, k as nat))
    &&& forall|k: int| 0 <= k < spans.len() - 1 ==> !mergeable(#[trigger] spans[k], spans[k + 1])
}

/// Offset `o` is where a run of either operand ends.
pub open spec fn is_boundary(q: CeRequest, o: nat) -> bool {
    ||| exists|i: nat| 1 <= i <= q.dst_runs.len() && prefix(q.dst_runs, i) == o
    ||| (q.work is Copy && exists|j: nat| 1 <= j <= q.src_runs.len() && prefix(q.src_runs, j) == o)
}

/// The request is cut by at least `m` run boundaries strictly inside its extent, so it
/// needs more than `m` pieces before any merge.
pub open spec fn cut_at_least(q: CeRequest, m: nat) -> bool {
    exists|cuts: Seq<nat>|
        #![trigger cuts.len()]
        cuts.len() == m && (forall|i: int|
            0 <= i < m ==> 0 < #[trigger] cuts[i] < total(q.dst_runs) && is_boundary(q, cuts[i]))
            && (forall|i: int, j: int| 0 <= i < j < m ==> cuts[i] < cuts[j])
}

/// A partition covers its first run and then the rest.
pub proof fn lemma_total_cons(runs: Seq<OperandRun>)
    requires
        runs.len() > 0,
    ensures
        total(runs) == runs[0].len + total(runs.drop_first()),
{
}

/// Covering one more run adds its length.
proof fn lemma_prefix_step(runs: Seq<OperandRun>, i: nat)
    requires
        i < runs.len(),
    ensures
        prefix(runs, i + 1) == prefix(runs, i) + runs[i as int].len,
    decreases i,
{
    let t = runs.drop_first();
    assert(prefix(runs, i + 1) == runs[0].len + prefix(t, i));
    if i > 0 {
        lemma_prefix_step(t, (i - 1) as nat);
        assert(t[(i - 1) as int] == runs[i as int]);
        assert(prefix(runs, i) == runs[0].len + prefix(t, (i - 1) as nat));
    } else {
        assert(prefix(t, 0) == 0);
    }
}

/// Covering more runs never covers less.
proof fn lemma_prefix_mono(runs: Seq<OperandRun>, i: nat, j: nat)
    requires
        i <= j <= runs.len(),
    ensures
        prefix(runs, i) <= prefix(runs, j),
    decreases j - i,
{
    if i < j {
        lemma_prefix_mono(runs, i, (j - 1) as nat);
        lemma_prefix_step(runs, (j - 1) as nat);
    }
}

/// An offset inside run `i` is found in run `i`.
proof fn lemma_run_at(runs: Seq<OperandRun>, i: nat, o: nat)
    requires
        positive(runs),
        i < runs.len(),
        prefix(runs, i) <= o < prefix(runs, i) + runs[i as int].len,
    ensures
        run_at(runs, o) == i,
    decreases i,
{
    if i > 0 {
        let t = runs.drop_first();
        assert forall|k: int| 0 <= k < t.len() implies #[trigger] t[k].len > 0 by {
            assert(t[k] == runs[k + 1]);
        }
        assert(t[(i - 1) as int] == runs[i as int]);
        lemma_run_at(t, (i - 1) as nat, (o - runs[0].len) as nat);
    }
}

/// Covering one more span adds its length.
proof fn lemma_span_offset_step(spans: Seq<CeSpan>, k: nat)
    requires
        k < spans.len(),
    ensures
        span_offset(spans, k + 1) == span_offset(spans, k) + spans[k as int].sub.len,
    decreases k,
{
    let t = spans.drop_first();
    assert(span_offset(spans, k + 1) == spans[0].sub.len + span_offset(t, k));
    if k > 0 {
        lemma_span_offset_step(t, (k - 1) as nat);
        assert(t[(k - 1) as int] == spans[k as int]);
        assert(span_offset(spans, k) == spans[0].sub.len + span_offset(t, (k - 1) as nat));
    } else {
        assert(span_offset(t, 0) == 0);
    }
}

/// Appending a span leaves every earlier span's start where it was.
proof fn lemma_span_offset_push(spans: Seq<CeSpan>, x: CeSpan, k: nat)
    requires
        k <= spans.len(),
    ensures
        span_offset(spans.push(x), k) == span_offset(spans, k),
    decreases k,
{
    if k > 0 {
        assert(spans.push(x).drop_first() =~= spans.drop_first().push(x));
        lemma_span_offset_push(spans.drop_first(), x, (k - 1) as nat);
    }
}

/// Replacing span `i` leaves the starts of spans up to `i` where they were.
proof fn lemma_span_offset_update(spans: Seq<CeSpan>, i: nat, x: CeSpan, k: nat)
    requires
        i < spans.len(),
        k <= i,
    ensures
        span_offset(spans.update(i as int, x), k) == span_offset(spans, k),
    decreases k,
{
    if k > 0 {
        assert(spans.update(i as int, x).drop_first() =~= spans.drop_first().update(i - 1, x));
        lemma_span_offset_update(spans.drop_first(), (i - 1) as nat, x, (k - 1) as nat);
    }
}

/// Spans of positive length start strictly later, one after another.
proof fn lemma_span_offset_mono(spans: Seq<CeSpan>, i: nat, j: nat)
    requires
        i < j <= spans.len(),
        forall|k: int| 0 <= k < spans.len() ==> #[trigger] spans[k].sub.len > 0,
    ensures
        span_offset(spans, i) < span_offset(spans, j),
    decreases j - i,
{
    lemma_span_offset_step(spans, (j - 1) as nat);
    if i < j - 1 {
        lemma_span_offset_mono(spans, i, (j - 1) as nat);
    }
}

/// Advancing twice is advancing by the sum.
proof fn lemma_advance_twice(p: Option<CpuOperand>, a: int, b: int)
    requires
        0 <= a,
        0 <= b,
    ensures
        advance(advance(p, a), b) == advance(p, a + b),
{
    match p {
        Some(c) => {
            lemma_wrap_twice(c.addr, a, b);
        },
        None => {},
    }
}

/// Adding twice, modulo 2^64, is adding the sum.
proof fn lemma_wrap_twice(x: u64, a: int, b: int)
    requires
        0 <= a,
        0 <= b,
    ensures
        wrap_add(wrap_add(x, a), b) == wrap_add(x, a + b),
{
    let m = 0x1_0000_0000_0000_0000int;
    vstd::arithmetic::div_mod::lemma_add_mod_noop_right(b, x + a, m);
    assert(((x + a) % m) + b == b + ((x + a) % m));
    assert(x + a + b == b + (x + a));
}

/// The request a call describes.
pub open spec fn request(
    dst: u64,
    src: u64,
    work: CeWork,
    dst_runs: Seq<OperandRun>,
    src_runs: Seq<OperandRun>,
) -> CeRequest {
    CeRequest { dst, src, work, dst_runs, src_runs }
}

/// The bytes the destination's runs cover, summed.
pub fn extent(runs: &Vec<OperandRun>) -> (r: u64)
    requires
        total(runs@) <= u64::MAX,
    ensures
        r == total(runs@),
{
    let mut sum: u64 = 0;
    let mut i: usize = 0;
    while i < runs.len()
        invariant
            i <= runs@.len(),
            total(runs@) <= u64::MAX,
            sum == prefix(runs@, i as nat),
        decreases runs@.len() - i,
    {
        proof {
            lemma_prefix_step(runs@, i as nat);
            lemma_prefix_mono(runs@, (i + 1) as nat, runs@.len());
        }
        sum = sum + runs[i].len;
        i = i + 1;
    }
    sum
}

/// A place `n` bytes further on.
fn advance_place(p: Option<CpuOperand>, n: u64) -> (r: Option<CpuOperand>)
    ensures
        r == advance(p, n as int),
{
    match p {
        Some(c) => Some(CpuOperand { plane: c.plane, addr: c.addr.wrapping_add(n) }),
        None => None,
    }
}

/// The pieces cut so far each describe exactly the bytes they cover, and each ends where
/// a run of one operand ends, or at the end of the request.
#[verifier::opaque]
pub open spec fn pieces_ok(q: CeRequest, out: Seq<CeSpan>, eff: nat) -> bool {
    &&& forall|k: int|
        0 <= k < out.len() ==> span_faithful(q, #[trigger] out[k], span_offset(out, k as nat))
    &&& forall|k: int|
        0 <= k < out.len() ==> span_offset(out, (k + 1) as nat) == eff || is_boundary(
            q,
            #[trigger] span_offset(out, (k + 1) as nat),
        )
}

/// The spans merged so far each describe exactly the bytes they cover, and no two
/// neighbours could have been one instruction.
#[verifier::opaque]
pub open spec fn merged_ok(q: CeRequest, merged: Seq<CeSpan>) -> bool {
    &&& forall|k: int|
        0 <= k < merged.len() ==> span_faithful(
            q,
            #[trigger] merged[k],
            span_offset(merged, k as nat),
        )
    &&& forall|k: int| 0 <= k < merged.len() - 1 ==> !mergeable(#[trigger] merged[k], merged[k + 1])
}

/// Appending a faithful piece that ends at a boundary (or the end) keeps the pieces good.
proof fn lemma_pieces_push(q: CeRequest, out: Seq<CeSpan>, piece: CeSpan, eff: nat)
    requires
        pieces_ok(q, out, eff),
        span_faithful(q, piece, span_offset(out, out.len())),
        span_offset(out, out.len()) + piece.sub.len == eff || is_boundary(
            q,
            (span_offset(out, out.len()) + piece.sub.len) as nat,
        ),
    ensures
        pieces_ok(q, out.push(piece), eff),
        span_offset(out.push(piece), out.len() + 1) == span_offset(out, out.len()) + piece.sub.len,
{
    reveal(pieces_ok);
    let o2 = out.push(piece);
    assert forall|k: int| 0 <= k <= out.len() implies #[trigger] span_offset(o2, k as nat)
        == span_offset(out, k as nat) by {
        lemma_span_offset_push(out, piece, k as nat);
    }
    lemma_span_offset_step(o2, out.len());
    assert forall|k: int| 0 <= k < o2.len() implies span_faithful(
        q,
        #[trigger] o2[k],
        span_offset(o2, k as nat),
    ) by {
        if k < out.len() {
            assert(o2[k] == out[k]);
        }
    }
    assert forall|k: int| 0 <= k < o2.len() implies span_offset(o2, (k + 1) as nat) == eff
        || is_boundary(q, #[trigger] span_offset(o2, (k + 1) as nat)) by {
        if k < out.len() {
            assert(span_offset(o2, (k + 1) as nat) == span_offset(out, (k + 1) as nat));
        }
    }
}

/// Good pieces all have positive length.
proof fn lemma_pieces_positive(q: CeRequest, out: Seq<CeSpan>, eff: nat)
    requires
        pieces_ok(q, out, eff),
    ensures
        forall|k: int| 0 <= k < out.len() ==> #[trigger] out[k].sub.len > 0,
{
    reveal(pieces_ok);
    assert forall|k: int| 0 <= k < out.len() implies #[trigger] out[k].sub.len > 0 by {
        assert(span_faithful(q, out[k], span_offset(out, k as nat)));
    }
}

/// `MAX_CE_SPANS` good pieces that stop short of the end witness that the request is cut
/// at least that many times.
proof fn lemma_too_fragmented(q: CeRequest, out: Seq<CeSpan>, eff: nat)
    requires
        pieces_ok(q, out, eff),
        out.len() == MAX_CE_SPANS,
        span_offset(out, out.len()) < eff,
        eff == total(q.dst_runs),
    ensures
        cut_at_least(q, MAX_CE_SPANS as nat),
{
    lemma_pieces_positive(q, out, eff);
    reveal(pieces_ok);
    let m = MAX_CE_SPANS as int;
    let cuts = Seq::new(MAX_CE_SPANS as nat, |k: int| span_offset(out, (k + 1) as nat));
    assert forall|i: int| 0 <= i < m implies 0 < #[trigger] cuts[i] < total(q.dst_runs)
        && is_boundary(q, cuts[i]) by {
        lemma_span_offset_mono(out, 0, (i + 1) as nat);
        if i + 1 < m {
            lemma_span_offset_mono(out, (i + 1) as nat, m as nat);
        }
        assert(cuts[i] == span_offset(out, (i + 1) as nat));
    }
    assert forall|i: int, j: int| 0 <= i < j < m implies cuts[i] < cuts[j] by {
        lemma_span_offset_mono(out, (i + 1) as nat, (j + 1) as nat);
    }
    assert(cuts.len() == m);
}

/// The piece cut at `off` within destination run `di` (entered `dc` bytes in) and, for a
/// copy, source run `si` (entered `sc` bytes in) or past the source's end, describes
/// exactly the bytes it covers.
proof fn lemma_piece_faithful(
    q: CeRequest,
    di: nat,
    dc: nat,
    si: nat,
    sc: nat,
    off: nat,
    piece: CeSpan,
)
    requires
        positive(q.dst_runs),
        positive(q.src_runs),
        di < q.dst_runs.len(),
        off == prefix(q.dst_runs, di) + dc,
        piece.sub.len > 0,
        piece.sub.guest_release is None,
        dc + piece.sub.len <= q.dst_runs[di as int].len,
        piece.dst_kind == q.dst_runs[di as int].kind,
        piece.dst_place == advance(q.dst_runs[di as int].place, dc as int),
        piece.sub.dst == wrap_add(q.dst, off as int),
        piece.sub.src == source_at(q.work, q.src, off),
        piece.sub.by == spec_span_executor(piece.dst_kind, piece.src_kind),
        !(q.work is Copy) ==> piece.src_kind is None && piece.src_place is None,
        q.work is Copy && si < q.src_runs.len() ==> off == prefix(q.src_runs, si) + sc && sc
            + piece.sub.len <= q.src_runs[si as int].len && piece.src_kind == Some(
            q.src_runs[si as int].kind,
        ) && piece.src_place == advance(q.src_runs[si as int].place, sc as int),
        q.work is Copy && si >= q.src_runs.len() ==> off >= total(q.src_runs) && piece.src_kind
            == Some(Representability::Untracked) && piece.src_place is None,
    ensures
        span_faithful(q, piece, off),
{
    let has_src = q.work is Copy;
    assert forall|o: nat| off <= o < off + piece.sub.len implies dst_kind_at(q.dst_runs, o)
        == piece.dst_kind && dst_place_at(q.dst_runs, o) == advance(
        piece.dst_place,
        o - off,
    ) by {
        lemma_run_at(q.dst_runs, di, o);
        lemma_advance_twice(q.dst_runs[di as int].place, dc as int, o - off);
    }
    assert forall|o: nat| off <= o < off + piece.sub.len implies src_kind_at(
        q.src_runs,
        has_src,
        o,
    ) == piece.src_kind && src_place_at(q.src_runs, has_src, o) == advance(
        piece.src_place,
        o - off,
    ) by {
        if has_src && si < q.src_runs.len() {
            lemma_run_at(q.src_runs, si, o);
            lemma_prefix_step(q.src_runs, si);
            lemma_prefix_mono(q.src_runs, si + 1, q.src_runs.len());
            lemma_advance_twice(q.src_runs[si as int].place, sc as int, o - off);
        }
    }
}

/// Every run boundary up to `off` is where one of the pieces cut so far ends.
#[verifier::opaque]
pub open spec fn ends_cover(q: CeRequest, out: Seq<CeSpan>, off: nat) -> bool {
    forall|b: nat|
        #![trigger is_boundary(q, b)]
        0 < b <= off && is_boundary(q, b) ==> exists|k: int|
            0 <= k < out.len() && #[trigger] span_offset(out, (k + 1) as nat) == b
}

/// A piece that lies within one run of each operand adds its end, and only its end, to
/// the boundaries covered.
proof fn lemma_cover_push(
    q: CeRequest,
    out: Seq<CeSpan>,
    piece: CeSpan,
    off: nat,
    di: nat,
    si: nat,
)
    requires
        ends_cover(q, out, off),
        span_offset(out, out.len()) == off,
        di < q.dst_runs.len(),
        prefix(q.dst_runs, di) <= off,
        off + piece.sub.len <= prefix(q.dst_runs, di + 1),
        q.work is Copy && si < q.src_runs.len() ==> prefix(q.src_runs, si) <= off && off
            + piece.sub.len <= prefix(q.src_runs, si + 1),
        q.work is Copy && si >= q.src_runs.len() ==> total(q.src_runs) <= off,
    ensures
        ends_cover(q, out.push(piece), (off + piece.sub.len) as nat),
{
    reveal(ends_cover);
    let o2 = out.push(piece);
    let end = off + piece.sub.len;
    lemma_span_offset_step(o2, out.len());
    lemma_span_offset_push(out, piece, out.len());
    assert forall|b: nat| 0 < b <= end && is_boundary(q, b) implies exists|k: int|
        0 <= k < o2.len() && #[trigger] span_offset(o2, (k + 1) as nat) == b by {
        if b <= off {
            let k = choose|k: int| 0 <= k < out.len() && #[trigger] span_offset(out, (k + 1) as nat) == b;
            lemma_span_offset_push(out, piece, (k + 1) as nat);
            assert(span_offset(o2, (k + 1) as nat) == b);
        } else {
            if b < end {
                if exists|i: nat| 1 <= i <= q.dst_runs.len() && prefix(q.dst_runs, i) == b {
                    let i = choose|i: nat| 1 <= i <= q.dst_runs.len() && prefix(q.dst_runs, i) == b;
                    if i <= di {
                        lemma_prefix_mono(q.dst_runs, i, di);
                    } else {
                        lemma_prefix_mono(q.dst_runs, di + 1, i);
                    }
                } else {
                    let j = choose|j: nat| 1 <= j <= q.src_runs.len() && prefix(q.src_runs, j) == b;
                    if si < q.src_runs.len() {
                        if j <= si {
                            lemma_prefix_mono(q.src_runs, j, si);
                        } else {
                            lemma_prefix_mono(q.src_runs, si + 1, j);
                        }
                    } else {
                        lemma_prefix_mono(q.src_runs, j, q.src_runs.len());
                    }
                }
            }
            assert(b == end);
            assert(span_offset(o2, (out.len() + 1) as nat) == b);
        }
    }
}

/// Cut offsets that all fall on ends of a strictly increasing sequence of piece ends,
/// in order, are matched by strictly increasing piece indices, the `i`-th at least `i`.
proof fn lemma_cut_indices(out: Seq<CeSpan>, cuts: Seq<nat>, ks: Seq<int>, i: int)
    requires
        forall|k: int| 0 <= k < out.len() ==> #[trigger] out[k].sub.len > 0,
        ks.len() == cuts.len(),
        0 <= i < cuts.len(),
        forall|a: int, b: int| 0 <= a < b < cuts.len() ==> cuts[a] < cuts[b],
        forall|a: int|
            0 <= a < cuts.len() ==> 0 <= #[trigger] ks[a] < out.len() && span_offset(
                out,
                (ks[a] + 1) as nat,
            ) == cuts[a],
    ensures
        ks[i] >= i,
    decreases i,
{
    if i > 0 {
        lemma_cut_indices(out, cuts, ks, i - 1);
        if ks[i] <= ks[i - 1] {
            if ks[i] < ks[i - 1] {
                lemma_span_offset_mono(out, (ks[i] + 1) as nat, (ks[i - 1] + 1) as nat);
            }
            assert(cuts[i - 1] < cuts[i]);
        }
    }
}

/// At most `MAX_CE_SPANS` pieces that cover every boundary leave no room for that many
/// cuts strictly inside the request.
proof fn lemma_cover_bounds(q: CeRequest, out: Seq<CeSpan>, eff: nat)
    requires
        ends_cover(q, out, eff),
        span_offset(out, out.len()) == eff,
        eff == total(q.dst_runs),
        out.len() <= MAX_CE_SPANS,
        forall|k: int| 0 <= k < out.len() ==> #[trigger] out[k].sub.len > 0,
    ensures
        !cut_at_least(q, MAX_CE_SPANS as nat),
{
    reveal(ends_cover);
    if cut_at_least(q, MAX_CE_SPANS as nat) {
        let m = MAX_CE_SPANS as int;
        let cuts = choose|cuts: Seq<nat>|
            #![trigger cuts.len()]
            cuts.len() == m && (forall|i: int|
                0 <= i < m ==> 0 < #[trigger] cuts[i] < total(q.dst_runs) && is_boundary(q, cuts[i]))
                && (forall|i: int, j: int| 0 <= i < j < m ==> cuts[i] < cuts[j]);
        let ks = Seq::new(
            m as nat,
            |i: int| choose|k: int| 0 <= k < out.len() && #[trigger] span_offset(out, (k + 1) as nat) == cuts[i],
        );
        assert forall|a: int| 0 <= a < m implies 0 <= #[trigger] ks[a] < out.len() && span_offset(
            out,
            (ks[a] + 1) as nat,
        ) == cuts[a] by {
            assert(0 < cuts[a] <= eff && is_boundary(q, cuts[a]));
        }
        lemma_cut_indices(out, cuts, ks, m - 1);
        let k = ks[m - 1];
        if k + 1 < out.len() {
            lemma_span_offset_mono(out, (k + 1) as nat, out.len());
        }
        assert(cuts[m - 1] < eff);
    }
}

/// Partition one copy-engine request, given both operands' partitions into runs.
///
/// The destination decides how much of the request exists at all — a clipped
/// destination clips the whole copy — and a scrub or a fill has no source, so its
/// pieces follow the destination alone. A source partition shorter than the destination
/// leaves the remainder with a source that reads nothing, modelled as untracked.
///
/// Refused as [`CeTooFragmented`] if more than [`MAX_CE_SPANS`] pieces would be needed
/// before merging.
#[verifier::spinoff_prover]
#[verifier::rlimit(40)]
pub fn partition_runs(
    dst: u64,
    src: u64,
    len: u64,
    work: CeWork,
    dst_runs: &Vec<OperandRun>,
    src_runs: &Vec<OperandRun>,
) -> (r: Result<Vec<CeSpan>, CeTooFragmented>)
    requires
        positive(dst_runs@),
        positive(src_runs@),
        total(dst_runs@) <= u64::MAX,
        work is Copy ==> total(src_runs@) <= total(dst_runs@),
    ensures
        ({
            let q = request(dst, src, work, dst_runs@, src_runs@);
            &&& r matches Ok(spans) ==> partitions(q, spans@) && !cut_at_least(
                q,
                MAX_CE_SPANS as nat,
            )
            &&& r matches Err(e) ==> e == CeTooFragmented { dst, len } && cut_at_least(
                q,
                MAX_CE_SPANS as nat,
            )
        }),
{
    let ghost q = request(dst, src, work, dst_runs@, src_runs@);
    let has_src = match work {
        CeWork::Copy => true,
        _ => false,
    };
    let eff = extent(dst_runs);
    let ghost src_total = total(src_runs@);
    let mut out: Vec<CeSpan> = Vec::new();
    let mut off: u64 = 0;
    let mut di: usize = 0;
    let mut dc: u64 = 0;
    let mut si: usize = 0;
    let mut sc: u64 = 0;
    proof {
        reveal(pieces_ok);
        reveal(ends_cover);
        if eff > 0 {
            assert(dst_runs@.len() > 0);
            assert(prefix(dst_runs@, 0) == 0);
            assert(dst_runs@[0].len > 0);
        }
        if has_src && src_runs@.len() > 0 {
            assert(prefix(src_runs@, 0) == 0);
            assert(src_runs@[0].len > 0);
        }
    }
    while off < eff
        invariant
            q == request(dst, src, work, dst_runs@, src_runs@),
            has_src == (work is Copy),
            positive(dst_runs@),
            positive(src_runs@),
            eff == total(dst_runs@),
            src_total == total(src_runs@),
            has_src ==> src_total <= eff,
            off <= eff,
            di <= dst_runs@.len(),
            off < eff ==> di < dst_runs@.len() && off == prefix(dst_runs@, di as nat) + dc && dc
                < dst_runs@[di as int].len,
            has_src ==> si <= src_runs@.len(),
            has_src && si < src_runs@.len() ==> off == prefix(src_runs@, si as nat) + sc && sc
                < src_runs@[si as int].len,
            has_src && si == src_runs@.len() ==> off >= src_total,
            out@.len() <= MAX_CE_SPANS,
            span_offset(out@, out@.len()) == off,
            pieces_ok(q, out@, eff as nat),
            ends_cover(q, out@, off as nat),
        decreases eff - off,
    {
        let run = dst_runs[di];
        let nd = dst_runs.len();
        assert(di < nd);
        let d_left = run.len - dc;
        let d_place = advance_place(run.place, dc);
        let s_left: u64;
        let s_kind: Option<Representability>;
        let s_place: Option<CpuOperand>;
        if !has_src {
            s_left = u64::MAX;
            s_kind = None;
            s_place = None;
        } else if si < src_runs.len() {
            let sr = src_runs[si];
            s_left = sr.len - sc;
            s_kind = Some(sr.kind);
            s_place = advance_place(sr.place, sc);
        } else {
            s_left = eff - off;
            s_kind = Some(Representability::Untracked);
            s_place = None;
        }
        let mut take = d_left;
        if s_left < take {
            take = s_left;
        }
        if eff - off < take {
            take = eff - off;
        }
        if out.len() == MAX_CE_SPANS {
            proof {
                lemma_too_fragmented(q, out@, eff as nat);
            }
            return Err(CeTooFragmented { dst, len });
        }
        let by = span_executor(run.kind, s_kind);
        let source = match work {
            CeWork::Copy => CeSource::Address(src.wrapping_add(off)),
            CeWork::Scrub => CeSource::Constant(0),
            CeWork::Fill { pattern } => CeSource::Constant(pattern),
        };
        let piece = CeSpan {
            sub: CeSubCopy { dst: dst.wrapping_add(off), src: source, len: take, by, guest_release: None },
            dst_kind: run.kind,
            src_kind: s_kind,
            dst_place: d_place,
            src_place: s_place,
        };
        proof {
            lemma_piece_faithful(
                q,
                di as nat,
                dc as nat,
                si as nat,
                sc as nat,
                off as nat,
                piece,
            );
            lemma_prefix_step(dst_runs@, di as nat);
            if take == d_left {
                assert(prefix(dst_runs@, (di + 1) as nat) == off + take);
                assert(is_boundary(q, (off + take) as nat));
            } else if has_src && si < src_runs@.len() && take == s_left {
                lemma_prefix_step(src_runs@, si as nat);
                assert(prefix(src_runs@, (si + 1) as nat) == off + take);
                assert(is_boundary(q, (off + take) as nat));
            }
            lemma_pieces_push(q, out@, piece, eff as nat);
            if has_src && si < src_runs@.len() {
                lemma_prefix_step(src_runs@, si as nat);
            }
            lemma_cover_push(q, out@, piece, off as nat, di as nat, si as nat);
        }
        out.push(piece);
        off = off + take;
        dc = dc + take;
        if dc == run.len {
            di = di + 1;
            dc = 0;
        }
        if has_src && si < src_runs.len() {
            sc = sc + take;
            if sc == src_runs[si].len {
                si = si + 1;
                sc = 0;
            }
        }
        proof {
            if dc == 0 {
                lemma_prefix_step(dst_runs@, (di - 1) as nat);
            }
            if off < eff && di == dst_runs@.len() {
                assert(prefix(dst_runs@, di as nat) == eff);
            }
            if off < eff && di < dst_runs@.len() {
                assert(dst_runs@[di as int].len > 0);
            }
            if has_src && si > 0 && sc == 0 {
                lemma_prefix_step(src_runs@, (si - 1) as nat);
            }
            if has_src && si < src_runs@.len() {
                assert(src_runs@[si as int].len > 0);
            }
            if has_src && si == src_runs@.len() && si > 0 {
                assert(prefix(src_runs@, si as nat) == src_total);
            }
        }
    }
    proof {
        lemma_pieces_positive(q, out@, eff as nat);
        lemma_cover_bounds(q, out@, eff as nat);
        reveal(pieces_ok);
    }
    merge_adjacent(Ghost(q), out)
}

/// Extending the last merged span by a piece that continues it keeps the merge good.
proof fn lemma_merged_grow(q: CeRequest, merged: Seq<CeSpan>, s: CeSpan, grown: CeSpan)
    requires
        merged_ok(q, merged),
        merged.len() > 0,
        span_faithful(q, s, span_offset(merged, merged.len())),
        mergeable(merged.last(), s),
        grown == (CeSpan {
            sub: CeSubCopy { len: (merged.last().sub.len + s.sub.len) as u64, ..merged.last().sub },
            ..merged.last()
        }),
        merged.last().sub.len + s.sub.len <= u64::MAX,
    ensures
        merged_ok(q, merged.update(merged.len() - 1, grown)),
        span_offset(merged.update(merged.len() - 1, grown), merged.len()) == span_offset(
            merged,
            merged.len(),
        ) + s.sub.len,
{
    reveal(merged_ok);
    let n = merged.len();
    let prev = merged.last();
    let m2 = merged.update(n - 1, grown);
    lemma_span_offset_step(merged, (n - 1) as nat);
    let at = span_offset(merged, (n - 1) as nat);
    assert(span_faithful(q, prev, at));
    let q_has = q.work is Copy;
    assert forall|o: nat| at <= o < at + grown.sub.len implies dst_kind_at(q.dst_runs, o)
        == grown.dst_kind && src_kind_at(q.src_runs, q_has, o) == grown.src_kind && dst_place_at(
        q.dst_runs,
        o,
    ) == advance(grown.dst_place, o - at) && src_place_at(q.src_runs, q_has, o) == advance(
        grown.src_place,
        o - at,
    ) by {
        if o >= at + prev.sub.len {
            lemma_advance_twice(prev.dst_place, prev.sub.len as int, o - at - prev.sub.len);
            lemma_advance_twice(prev.src_place, prev.sub.len as int, o - at - prev.sub.len);
        }
    }
    assert(span_faithful(q, grown, at));
    assert forall|k: int| 0 <= k <= n - 1 implies #[trigger] span_offset(m2, k as nat)
        == span_offset(merged, k as nat) by {
        lemma_span_offset_update(merged, (n - 1) as nat, grown, k as nat);
    }
    lemma_span_offset_step(m2, (n - 1) as nat);
    assert forall|k: int| 0 <= k < m2.len() implies span_faithful(
        q,
        #[trigger] m2[k],
        span_offset(m2, k as nat),
    ) by {
        if k < n - 1 {
            assert(m2[k] == merged[k]);
        }
    }
    assert forall|k: int| 0 <= k < m2.len() - 1 implies !mergeable(#[trigger] m2[k], m2[k + 1]) by {
        assert(m2[k] == merged[k]);
        if k + 1 < n - 1 {
            assert(m2[k + 1] == merged[k + 1]);
        } else {
            assert(!mergeable(merged[k], merged[k + 1]));
        }
    }
}

/// Appending a piece that does not continue the last merged span keeps the merge good.
proof fn lemma_merged_push(q: CeRequest, merged: Seq<CeSpan>, s: CeSpan)
    requires
        merged_ok(q, merged),
        span_faithful(q, s, span_offset(merged, merged.len())),
        merged.len() > 0 ==> !mergeable(merged.last(), s),
    ensures
        merged_ok(q, merged.push(s)),
        span_offset(merged.push(s), merged.len() + 1) == span_offset(merged, merged.len())
            + s.sub.len,
{
    reveal(merged_ok);
    let m2 = merged.push(s);
    assert forall|k: int| 0 <= k <= merged.len() implies #[trigger] span_offset(m2, k as nat)
        == span_offset(merged, k as nat) by {
        lemma_span_offset_push(merged, s, k as nat);
    }
    lemma_span_offset_step(m2, merged.len());
    assert forall|k: int| 0 <= k < m2.len() implies span_faithful(
        q,
        #[trigger] m2[k],
        span_offset(m2, k as nat),
    ) by {
        if k < merged.len() {
            assert(m2[k] == merged[k]);
        }
    }
    assert forall|k: int| 0 <= k < m2.len() - 1 implies !mergeable(#[trigger] m2[k], m2[k + 1]) by {
        assert(m2[k] == merged[k]);
        if k + 1 < merged.len() {
            assert(m2[k + 1] == merged[k + 1]);
        }
    }
}

/// Merge adjacent pieces that ended up on the same engine with the same evidence and
/// contiguous places into one instruction; the evidence is kept from the first.
#[verifier::spinoff_prover]
fn merge_adjacent(Ghost(q): Ghost<CeRequest>, out: Vec<CeSpan>) -> (r: Result<
    Vec<CeSpan>,
    CeTooFragmented,
>)
    requires
        span_offset(out@, out@.len()) == total(q.dst_runs),
        total(q.dst_runs) <= u64::MAX,
        forall|k: int|
            0 <= k < out@.len() ==> span_faithful(q, #[trigger] out@[k], span_offset(out@, k as nat)),
    ensures
        r matches Ok(spans) && partitions(q, spans@),
{
    let mut merged: Vec<CeSpan> = Vec::new();
    let mut i: usize = 0;
    proof {
        reveal(merged_ok);
        assert forall|k: int| 0 <= k < out@.len() implies #[trigger] out@[k].sub.len > 0 by {
            assert(span_faithful(q, out@[k], span_offset(out@, k as nat)));
        }
    }
    while i < out.len()
        invariant
            i <= out@.len(),
            span_offset(out@, out@.len()) == total(q.dst_runs),
            total(q.dst_runs) <= u64::MAX,
            forall|k: int|
                0 <= k < out@.len() ==> span_faithful(q, #[trigger] out@[k], span_offset(out@, k as nat)),
            forall|k: int| 0 <= k < out@.len() ==> #[trigger] out@[k].sub.len > 0,
            span_offset(merged@, merged@.len()) == span_offset(out@, i as nat),
            i > 0 ==> merged@.len() > 0,
            merged_ok(q, merged@),
        decreases out@.len() - i,
    {
        let s = out[i];
        proof {
            lemma_span_offset_step(out@, i as nat);
            if i + 1 < out@.len() {
                lemma_span_offset_mono(out@, (i + 1) as nat, out@.len());
            }
            assert(span_faithful(q, s, span_offset(out@, i as nat)));
        }
        let n = merged.len();
        let mut joined = false;
        if n > 0 {
            let prev = merged[n - 1];
            if prev.sub.by == s.sub.by && prev.dst_kind == s.dst_kind && prev.src_kind == s.src_kind
                && plane_follows(prev.dst_place, s.dst_place, prev.sub.len) && plane_follows(
                prev.src_place,
                s.src_place,
                prev.sub.len,
            ) && prev.sub.dst.wrapping_add(prev.sub.len) == s.sub.dst {
                proof {
                    lemma_span_offset_step(merged@, (n - 1) as nat);
                }
                let grown = CeSpan {
                    sub: CeSubCopy { len: prev.sub.len + s.sub.len, ..prev.sub },
                    ..prev
                };
                proof {
                    lemma_merged_grow(q, merged@, s, grown);
                }
                merged.set(n - 1, grown);
                joined = true;
            }
        }
        if !joined {
            proof {
                lemma_merged_push(q, merged@, s);
            }
            merged.push(s);
        }
        i = i + 1;
    }
    proof {
        reveal(merged_ok);
    }
    Ok(merged)
}

/// A copy-engine operand in a peer GPU's memory: neither host-representable nor reachable
/// by our executor.
#[derive(Debug, Clone, Copy, PartialEq, Eq)]
pub struct CePeerOperand {
    /// The operand's address.
    pub addr: u64,
}

/// The partition of a **physical** operand: one run of
/// [`Representability::PhysicalOperand`], whose plane comes from the operand's declared
/// target — nothing to look up, and no sub-range could be anything else. Empty for a
/// zero length; a peer target is refused by name.
pub fn physical_operand_runs(addr: u64, target: PhysTarget, len: u64) -> (r: Result<
    Vec<OperandRun>,
    CePeerOperand,
>)
    ensures
        len == 0 ==> (r matches Ok(v) && v@.len() == 0),
        len > 0 && spec_plane_of_target(target) is None ==> r == Err::<Vec<OperandRun>, CePeerOperand>(
            CePeerOperand { addr },
        ),
        len > 0 ==> (spec_plane_of_target(target) matches Some(plane) ==> (r matches Ok(v) && v@
            == seq![
            OperandRun {
                start: addr,
                len,
                kind: Representability::PhysicalOperand,
                place: Some(CpuOperand { plane, addr }),
            },
        ])),
{
    if len == 0 {
        return Ok(Vec::new());
    }
    let plane = match DeclaredResidency.residency_of_physical(target, addr) {
        Some(p) => p,
        None => {
            return Err(CePeerOperand { addr });
        },
    };
    let mut v: Vec<OperandRun> = Vec::new();
    v.push(
        OperandRun {
            start: addr,
            len,
            kind: Representability::PhysicalOperand,
            place: Some(CpuOperand { plane, addr }),
        },
    );
    Ok(v)
}

} // verus!
