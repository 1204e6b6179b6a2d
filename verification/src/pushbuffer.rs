//! **Applying a decoded pushbuffer to its channel.** The architecture's codec turns a
//! channel's method words into methods, carrying the engine state a copy's operands live
//! in between runs; this module acts on what came out. Each copy-engine launch is decided
//! twice, independently: who executes it — partitioned by the representability of its
//! operands, with the submitter-based baseline counted beside it — and whether it writes a
//! page table, read off its resolved physical destination and the device's ownership index.
//! Completions are recorded behind the bytes they certify, and a fault-cancel method
//! refuses the whole submission.
//!
//! What only the device can answer is handed in: the owner of the page-table page a launch's
//! destination resolved to, looked up for each launch. What only the process's completion
//! queue can do is handed back: the keys to observe, in order.
use crate::aperture::Aperture;
use crate::ce::{spec_ce_executor_c, ce_executor_c, CeExecutor, CeWork, ChannelOrigin};
use crate::forwarding::FwdFault;
use crate::operands::{partition_ce, partition_outcome, spans_result, TableOperands};
use crate::partition::{CeGuestRelease, CeSpan, PhysTarget};
use crate::plans::{spec_channel, spec_vas, ChannelView, ProcView};
use crate::ptplan::{add_member, with_member, with_members, PtState};
use crate::table::spec_resolve;
use vstd::prelude::*;

verus! {

/// A completion a launch or release declares: `payload` is written at `addr`.
#[derive(Debug, Clone, Copy, PartialEq, Eq)]
pub struct CeCompletion {
    /// The guest address the payload is written at.
    pub addr: u64,
    /// The payload.
    pub payload: u64,
}

/// One method as the architecture's codec decoded it.
#[derive(Debug, Clone, Copy, PartialEq, Eq)]
pub enum PushMethod {
    /// An object bound to a subchannel — routing confirmation only.
    SetObject,
    /// A copy-engine launch, its operands accumulated from the runs before it.
    CeLaunchDma {
        /// The destination operand.
        dst: u64,
        /// The source operand.
        src: u64,
        /// Bytes to move.
        len: u64,
        /// Whether the destination is a virtual address.
        dst_is_virtual: bool,
        /// Whether the source is a virtual address.
        src_is_virtual: bool,
        /// Where a physical destination lives.
        dst_target: PhysTarget,
        /// Where a physical source lives.
        src_target: PhysTarget,
        /// What the launch does.
        work: CeWork,
        /// The completion it releases once its bytes have moved.
        completion: Option<CeCompletion>,
    },
    /// A launch that moves no bytes and only releases a completion.
    CeRelease {
        /// The completion.
        completion: CeCompletion,
    },
    /// A host semaphore release.
    SemRelease {
        /// The semaphore's address.
        addr: u64,
        /// The payload.
        payload: u64,
    },
    /// A TLB invalidate, with or without a memory barrier.
    TlbInvalidate {
        /// The address space invalidated.
        pdb: u64,
        /// Whether it carries a barrier.
        membar: bool,
    },
    /// A fault-cancel method the plane cannot deliver.
    UvmSwFaultMethod {
        /// The method address.
        method: u32,
    },
    /// Anything the plane acts on nowhere.
    Opaque,
}

/// What a launch's destination is to the address plane.
#[derive(Debug, Clone, Copy, PartialEq, Eq)]
pub enum CeOperands {
    /// Operands the host MMU resolves: forwarded, not intercepted.
    VaOperand {
        /// The resolved physical destination, or zero where it did not resolve.
        phys: u64,
    },
    /// A write into a page-table page: intercepted.
    PhysOperand {
        /// The 4 KiB page written.
        page: u64,
        /// The aperture the destination resolved through.
        aperture: Aperture,
        /// The process whose address space owns the page.
        owner: u32,
        /// The owning address space.
        owner_pdb: u64,
    },
}

/// One latched page-table write.
#[derive(Debug, Clone, Copy, PartialEq, Eq)]
pub struct PtWrite {
    /// The target GPU.
    pub gpu: u32,
    /// The 4 KiB page-table page.
    pub page: u64,
    /// The aperture the write resolved through.
    pub aperture: Aperture,
    /// The process whose address space owns the page.
    pub owner: u32,
    /// The owning address space.
    pub owner_pdb: u64,
    /// Bytes the copy declared.
    pub bytes: u64,
}

/// Upper bound on the sub-copies one pushbuffer parse may produce, over all its launches.
pub const MAX_CE_SPANS_PER_PARSE: usize = 0x1_0000;

/// What one pushbuffer parse observed.
#[derive(Debug, Clone, PartialEq, Eq)]
pub struct PushbufferOutcome {
    /// Page-table pages the copies wrote, each with the address space that owns it.
    pub pt_writes: Vec<PtWrite>,
    /// Copies whose destination is not a page table: forwarded, not intercepted.
    pub data_copies: usize,
    /// Launches the submitter-based baseline leaves to a host engine.
    pub c_execute_host_ce: usize,
    /// Launches the submitter-based baseline runs itself.
    pub c_execute_ours: usize,
    /// Every launch partitioned by the representability of its operands, in order.
    pub ce_spans: Vec<CeSpan>,
    /// Completions released, in decode order.
    pub sem_releases: Vec<(u64, u64)>,
    /// How many of the releases came from launches that moved no bytes.
    pub ce_releases: usize,
    /// TLB invalidates, with their barrier flag.
    pub invalidates: Vec<(u64, bool)>,
    /// Methods acted on by nothing.
    pub opaque: usize,
}

/// A parse's outcome as values.
#[verifier::ext_equal]
pub struct OutcomeView {
    /// Page-table writes.
    pub pt_writes: Seq<PtWrite>,
    /// Data copies.
    pub data_copies: nat,
    /// Baseline host-engine launches.
    pub c_host: nat,
    /// Baseline own launches.
    pub c_ours: nat,
    /// The partitioned spans.
    pub ce_spans: Seq<CeSpan>,
    /// The releases.
    pub sem_releases: Seq<(u64, u64)>,
    /// Release-only launches.
    pub ce_releases: nat,
    /// The invalidates.
    pub invalidates: Seq<(u64, bool)>,
    /// Opaque methods.
    pub opaque: nat,
}

impl View for PushbufferOutcome {
    type V = OutcomeView;

    open spec fn view(&self) -> OutcomeView {
        OutcomeView {
            pt_writes: self.pt_writes@,
            data_copies: self.data_copies as nat,
            c_host: self.c_execute_host_ce as nat,
            c_ours: self.c_execute_ours as nat,
            ce_spans: self.ce_spans@,
            sem_releases: self.sem_releases@,
            ce_releases: self.ce_releases as nat,
            invalidates: self.invalidates@,
            opaque: self.opaque as nat,
        }
    }
}

/// Nothing observed yet.
pub open spec fn empty_outcome() -> OutcomeView {
    OutcomeView {
        pt_writes: Seq::empty(),
        data_copies: 0,
        c_host: 0,
        c_ours: 0,
        ce_spans: Seq::empty(),
        sem_releases: Seq::empty(),
        ce_releases: 0,
        invalidates: Seq::empty(),
        opaque: 0,
    }
}

impl PushbufferOutcome {
    /// Nothing observed yet.
    pub fn new() -> (r: PushbufferOutcome)
        ensures
            r@ == empty_outcome(),
    {
        PushbufferOutcome {
            pt_writes: Vec::new(),
            data_copies: 0,
            c_execute_host_ce: 0,
            c_execute_ours: 0,
            ce_spans: Vec::new(),
            sem_releases: Vec::new(),
            ce_releases: 0,
            invalidates: Vec::new(),
            opaque: 0,
        }
    }
}

/// The operand resolver of channel `c` of `p`: its own address table, where it declared an
/// address space that `p` still holds; otherwise untracked.
pub open spec fn ops_of(ops: TableOperands, p: ProcView, c: ChannelView) -> bool {
    match c.vas_pdb {
        Some(pdb) => match spec_vas(p, c.gpu, pdb) {
            Some(v) => ops matches TableOperands::Table { table, pdb: q } && *table == v.table
                && q == pdb,
            None => ops is Untracked,
        },
        None => ops is Untracked,
    }
}

/// Where a launch's destination lands: a virtual destination resolved in the issuing
/// channel's own address space — `None` where it does not resolve, which is an ordinary
/// data write into space never modelled, not a fault — and a physical one in the
/// framebuffer as named.
pub open spec fn spec_ce_destination(p: ProcView, c: ChannelView, dst: u64, dst_is_virtual: bool) -> Result<
    Option<(u64, Aperture)>,
    FwdFault,
> {
    if dst_is_virtual {
        match c.vas_pdb {
            None => Err(FwdFault::NoVas(c.chan)),
            Some(pdb) => match spec_vas(p, c.gpu, pdb) {
                None => Err(FwdFault::UnknownPdb { gpu: c.gpu, pdb }),
                Some(v) => match spec_resolve(v.table.entries@, pdb, dst) {
                    Ok((b, off)) => Ok(Some((((b.phys + off) % 0x1_0000_0000_0000_0000) as u64, b.aperture))),
                    Err(_) => Ok(None),
                },
            },
        }
    } else {
        Ok(Some((dst, Aperture::Vidmem)))
    }
}

/// Where the destination of a launch on channel `cid` of `p` lands (see
/// [`spec_ce_destination`]) — what the device's page-table ownership index is asked about.
pub fn ce_destination(p: &ProcView, cid: u32, dst: u64, dst_is_virtual: bool) -> (r: Result<
    Option<(u64, Aperture)>,
    FwdFault,
>)
    ensures
        match spec_channel(*p, cid) {
            None => r == Err::<Option<(u64, Aperture)>, FwdFault>(FwdFault::NoVas(cid)),
            Some(c) => r == spec_ce_destination(*p, c, dst, dst_is_virtual),
        },
{
    let c = match p.channel(cid) {
        Some(c) => c,
        None => return Err(FwdFault::NoVas(cid)),
    };
    destination_in(p, c, dst, dst_is_virtual)
}

fn destination_in(p: &ProcView, c: &ChannelView, dst: u64, dst_is_virtual: bool) -> (r: Result<
    Option<(u64, Aperture)>,
    FwdFault,
>)
    ensures
        r == spec_ce_destination(*p, *c, dst, dst_is_virtual),
{
    if !dst_is_virtual {
        return Ok(Some((dst, Aperture::Vidmem)));
    }
    let pdb = match c.vas_pdb {
        Some(pdb) => pdb,
        None => return Err(FwdFault::NoVas(c.chan)),
    };
    let v = match p.vas(c.gpu, pdb) {
        Some(v) => v,
        None => return Err(FwdFault::UnknownPdb { gpu: c.gpu, pdb }),
    };
    match v.table.resolve(pdb, dst) {
        Ok((b, off)) => Ok(Some((b.phys.wrapping_add(off), b.aperture))),
        Err(_) => Ok(None),
    }
}

/// What a launch's destination is, given where it landed and the owner the device's index
/// answered for that address: a page-table write where an address space owns the page,
/// forwarded data otherwise.
pub open spec fn spec_classify(dest: Option<(u64, Aperture)>, owner: Option<(u32, u64)>) -> CeOperands {
    match dest {
        None => CeOperands::VaOperand { phys: 0 },
        Some((phys, aperture)) => match owner {
            Some((o, opdb)) => CeOperands::PhysOperand {
                page: phys & !0xfffu64,
                aperture,
                owner: o,
                owner_pdb: opdb,
            },
            None => CeOperands::VaOperand { phys },
        },
    }
}

/// Classify a launch's destination (see [`spec_classify`]). Resolution comes first and
/// classification second: the page-table question is asked of the resolved physical
/// address, never of the operand's form.
pub fn classify_destination(dest: Option<(u64, Aperture)>, owner: Option<(u32, u64)>) -> (r: CeOperands)
    ensures
        r == spec_classify(dest, owner),
{
    match dest {
        None => CeOperands::VaOperand { phys: 0 },
        Some((phys, aperture)) => match owner {
            Some((o, opdb)) => CeOperands::PhysOperand {
                page: phys & !0xfffu64,
                aperture,
                owner: o,
                owner_pdb: opdb,
            },
            None => CeOperands::VaOperand { phys },
        },
    }
}

/// The key a completion is observed under on its process's queue.
pub open spec fn completion_key(c: CeCompletion) -> u64 {
    c.addr ^ c.payload
}

/// The spans of a parse after a launch that added `added` of them declared completion
/// `c`: the guest's release rides on the launch's own last span when a host engine runs it
/// and the payload is one word; otherwise nothing is attached.
pub open spec fn with_release(all: Seq<CeSpan>, added: nat, c: CeCompletion) -> Seq<CeSpan> {
    if added > 0 && all.last().sub.by == CeExecutor::HostCe && c.payload <= u32::MAX {
        let last = all.last();
        all.update(
            all.len() - 1,
            CeSpan {
                sub: crate::partition::CeSubCopy {
                    guest_release: Some(CeGuestRelease { va: c.addr, payload: c.payload as u32 }),
                    ..last.sub
                },
                ..last
            },
        )
    } else {
        all
    }
}

/// The outcome after a launch: its baseline executor counted, its spans appended, its
/// destination tallied as data or latched as a page-table write, and its completion
/// released behind its bytes.
pub open spec fn after_launch(
    o: OutcomeView,
    exec: CeExecutor,
    spans: Seq<CeSpan>,
    kind: CeOperands,
    gpu: u32,
    len: u64,
    completion: Option<CeCompletion>,
) -> OutcomeView {
    let counted = if exec == CeExecutor::HostCe {
        OutcomeView { c_host: o.c_host + 1, ..o }
    } else {
        OutcomeView { c_ours: o.c_ours + 1, ..o }
    };
    let classified = match kind {
        CeOperands::VaOperand { .. } => OutcomeView {
            data_copies: counted.data_copies + 1,
            ce_spans: o.ce_spans + spans,
            ..counted
        },
        CeOperands::PhysOperand { page, aperture, owner, owner_pdb } => OutcomeView {
            pt_writes: counted.pt_writes.push(PtWrite { gpu, page, aperture, owner, owner_pdb, bytes: len }),
            ce_spans: o.ce_spans + spans,
            ..counted
        },
    };
    match completion {
        None => classified,
        Some(c) => OutcomeView {
            sem_releases: classified.sem_releases.push((c.addr, c.payload)),
            ce_spans: with_release(classified.ce_spans, spans.len(), c),
            ..classified
        },
    }
}

/// A launch's step, given its partition's result `pr`.
pub open spec fn launch_step(
    p: ProcView,
    c: ChannelView,
    origin: ChannelOrigin,
    o: OutcomeView,
    m: PushMethod,
    owner: Option<(u32, u64)>,
    pr: Result<Seq<CeSpan>, FwdFault>,
    r: Result<(OutcomeView, Option<u64>), FwdFault>,
) -> bool {
    match m {
        PushMethod::CeLaunchDma {
            dst,
            len,
            dst_is_virtual,
            src_is_virtual,
            work,
            completion,
            ..
        } => match pr {
            Err(e) => r == Err::<(OutcomeView, Option<u64>), FwdFault>(e),
            Ok(spans) => if o.ce_spans.len() + spans.len() > MAX_CE_SPANS_PER_PARSE {
                r == Err::<(OutcomeView, Option<u64>), FwdFault>(FwdFault::CeTooFragmented { dst, len })
            } else {
                match spec_ce_destination(p, c, dst, dst_is_virtual) {
                    Err(e) => r == Err::<(OutcomeView, Option<u64>), FwdFault>(e),
                    Ok(dest) => r == Ok::<(OutcomeView, Option<u64>), FwdFault>(
                        (
                            after_launch(
                                o,
                                spec_ce_executor_c(work, origin, src_is_virtual, dst_is_virtual),
                                spans,
                                spec_classify(dest, owner),
                                c.gpu,
                                len,
                                completion,
                            ),
                            match completion {
                                Some(cc) => Some(completion_key(cc)),
                                None => None,
                            },
                        ),
                    ),
                }
            },
        },
        _ => false,
    }
}

/// Applying method `m` to outcome `o` on channel `c` of `p`, through `ops`, gives `r`: the
/// new outcome and the completion key to observe, or the refusal.
pub open spec fn step_outcome(
    ops: TableOperands,
    p: ProcView,
    c: ChannelView,
    origin: ChannelOrigin,
    o: OutcomeView,
    m: PushMethod,
    owner: Option<(u32, u64)>,
    r: Result<(OutcomeView, Option<u64>), FwdFault>,
) -> bool {
    match m {
        PushMethod::SetObject => r == Ok::<(OutcomeView, Option<u64>), FwdFault>((o, None)),
        PushMethod::CeLaunchDma {
            dst,
            src,
            len,
            dst_is_virtual,
            src_is_virtual,
            dst_target,
            src_target,
            work,
            ..
        } => exists|pr: Result<Seq<CeSpan>, FwdFault>|
            partition_outcome(
                ops,
                dst,
                dst_is_virtual,
                dst_target,
                src,
                src_is_virtual,
                src_target,
                len,
                work,
                pr,
            ) && #[trigger] launch_step(p, c, origin, o, m, owner, pr, r),
        PushMethod::CeRelease { completion } => r == Ok::<(OutcomeView, Option<u64>), FwdFault>(
            (
                OutcomeView {
                    sem_releases: o.sem_releases.push((completion.addr, completion.payload)),
                    ce_releases: o.ce_releases + 1,
                    ..o
                },
                Some(completion_key(completion)),
            ),
        ),
        PushMethod::SemRelease { addr, payload } => r == Ok::<(OutcomeView, Option<u64>), FwdFault>(
            (
                OutcomeView { sem_releases: o.sem_releases.push((addr, payload)), ..o },
                Some(addr ^ payload),
            ),
        ),
        PushMethod::TlbInvalidate { pdb, membar } => r == Ok::<(OutcomeView, Option<u64>), FwdFault>(
            (OutcomeView { invalidates: o.invalidates.push((pdb, membar)), ..o }, None),
        ),
        PushMethod::UvmSwFaultMethod { method } => r == Err::<(OutcomeView, Option<u64>), FwdFault>(
            FwdFault::UvmFaultMethodWithoutFaultDelivery { method },
        ),
        PushMethod::Opaque => r == Ok::<(OutcomeView, Option<u64>), FwdFault>(
            (OutcomeView { opaque: o.opaque + 1, ..o }, None),
        ),
    }
}

/// A step's result with the outcome as values.
pub open spec fn step_result(out: PushbufferOutcome, r: Result<Option<u64>, FwdFault>) -> Result<
    (OutcomeView, Option<u64>),
    FwdFault,
> {
    match r {
        Ok(k) => Ok((out@, k)),
        Err(e) => Err(e),
    }
}

/// Every counter of `a` is at most one more than `b`'s, and the spans stay within the
/// parse's bound.
pub open spec fn grows_by_one(b: OutcomeView, a: OutcomeView) -> bool {
    &&& a.data_copies <= b.data_copies + 1
    &&& a.c_host <= b.c_host + 1
    &&& a.c_ours <= b.c_ours + 1
    &&& a.ce_releases <= b.ce_releases + 1
    &&& a.opaque <= b.opaque + 1
    &&& a.ce_spans.len() <= MAX_CE_SPANS_PER_PARSE
}

/// A step counts its launches both ways: by baseline executor and by capture.
pub open spec fn counted_twice(b: OutcomeView, a: OutcomeView, launches: int) -> bool {
    &&& a.c_host + a.c_ours == b.c_host + b.c_ours + launches
    &&& a.data_copies + a.pt_writes.len() == b.data_copies + b.pt_writes.len() + launches
}

/// How many of `ms` are copy-engine launches.
pub open spec fn launches(ms: Seq<PushMethod>) -> nat
    decreases ms.len(),
{
    if ms.len() == 0 {
        0
    } else {
        launches(ms.drop_last()) + if ms.last() is CeLaunchDma {
            1nat
        } else {
            0nat
        }
    }
}

fn apply_method(
    ops: &TableOperands,
    p: &ProcView,
    c: &ChannelView,
    origin: ChannelOrigin,
    out: &mut PushbufferOutcome,
    m: PushMethod,
    owner: Option<(u32, u64)>,
) -> (r: Result<Option<u64>, FwdFault>)
    requires
        old(out).data_copies < usize::MAX,
        old(out).c_execute_host_ce < usize::MAX,
        old(out).c_execute_ours < usize::MAX,
        old(out).ce_releases < usize::MAX,
        old(out).opaque < usize::MAX,
        old(out).ce_spans@.len() <= MAX_CE_SPANS_PER_PARSE,
    ensures
        step_outcome(*ops, *p, *c, origin, old(out)@, m, owner, step_result(*final(out), r)),
        r is Ok ==> grows_by_one(old(out)@, final(out)@),
        r is Ok ==> counted_twice(old(out)@, final(out)@, if m is CeLaunchDma { 1 } else { 0 }),
        r matches Ok(k) ==> final(out)@.sem_releases.len() == old(out)@.sem_releases.len() + if k is Some {
            1int
        } else {
            0int
        },
{
    let ghost o = out@;
    match m {
        PushMethod::SetObject => {
            assert(out@ =~= o);
            Ok(None)
        },
        PushMethod::CeLaunchDma {
            dst,
            src,
            len,
            dst_is_virtual,
            src_is_virtual,
            dst_target,
            src_target,
            work,
            completion,
        } => {
            let exec = ce_executor_c(work, origin, src_is_virtual, dst_is_virtual);
            let pr = partition_ce(
                ops,
                dst,
                dst_is_virtual,
                dst_target,
                src,
                src_is_virtual,
                src_target,
                len,
                work,
            );
            let ghost gpr = spans_result(pr);
            let mut spans = match pr {
                Ok(v) => v,
                Err(e) => {
                    assert(launch_step(*p, *c, origin, o, m, owner, gpr, Err(e)));
                    return Err(e);
                },
            };
            let ghost new_spans = spans@;
            let added = spans.len();
            if spans.len() > MAX_CE_SPANS_PER_PARSE - out.ce_spans.len() {
                let f = FwdFault::CeTooFragmented { dst, len };
                assert(launch_step(*p, *c, origin, o, m, owner, gpr, Err(f)));
                return Err(f);
            }
            let dest = match destination_in(p, c, dst, dst_is_virtual) {
                Ok(d) => d,
                Err(e) => {
                    assert(launch_step(*p, *c, origin, o, m, owner, gpr, Err(e)));
                    return Err(e);
                },
            };
            match exec {
                CeExecutor::HostCe => out.c_execute_host_ce = out.c_execute_host_ce + 1,
                CeExecutor::Ours => out.c_execute_ours = out.c_execute_ours + 1,
            }
            out.ce_spans.append(&mut spans);
            match classify_destination(dest, owner) {
                CeOperands::VaOperand { .. } => out.data_copies = out.data_copies + 1,
                CeOperands::PhysOperand { page, aperture, owner, owner_pdb } => {
                    out.pt_writes.push(PtWrite { gpu: c.gpu, page, aperture, owner, owner_pdb, bytes: len });
                },
            }
            let key = match completion {
                None => None,
                Some(cc) => {
                    out.sem_releases.push((cc.addr, cc.payload));
                    if added > 0 {
                        let k = out.ce_spans.len() - 1;
                        let last = out.ce_spans[k];
                        if last.sub.by == CeExecutor::HostCe && cc.payload <= 0xFFFF_FFFFu64 {
                            let mut sub = last.sub;
                            sub.guest_release = Some(CeGuestRelease { va: cc.addr, payload: cc.payload as u32 });
                            out.ce_spans.set(k, CeSpan { sub, ..last });
                        }
                    }
                    Some(cc.addr ^ cc.payload)
                },
            };
            let ghost after = after_launch(
                o,
                spec_ce_executor_c(work, origin, src_is_virtual, dst_is_virtual),
                new_spans,
                spec_classify(dest, owner),
                c.gpu,
                len,
                completion,
            );
            assert(out@ =~= after);
            assert(launch_step(*p, *c, origin, o, m, owner, gpr, Ok((out@, key))));
            Ok(key)
        },
        PushMethod::CeRelease { completion } => {
            out.sem_releases.push((completion.addr, completion.payload));
            out.ce_releases = out.ce_releases + 1;
            Ok(Some(completion.addr ^ completion.payload))
        },
        PushMethod::SemRelease { addr, payload } => {
            out.sem_releases.push((addr, payload));
            Ok(Some(addr ^ payload))
        },
        PushMethod::TlbInvalidate { pdb, membar } => {
            out.invalidates.push((pdb, membar));
            Ok(None)
        },
        PushMethod::UvmSwFaultMethod { method } => Err(FwdFault::UvmFaultMethodWithoutFaultDelivery { method }),
        PushMethod::Opaque => {
            out.opaque = out.opaque + 1;
            Ok(None)
        },
    }
}

/// The keys of `keys` that are there, in order.
pub open spec fn somes(keys: Seq<Option<u64>>) -> Seq<u64>
    decreases keys.len(),
{
    if keys.len() == 0 {
        Seq::empty()
    } else {
        somes(keys.drop_last()) + match keys.last() {
            Some(k) => seq![k],
            None => Seq::empty(),
        }
    }
}

/// The origin of every channel `p` owns.
pub open spec fn origin_of(p: ProcView) -> ChannelOrigin {
    if p.system {
        ChannelOrigin::GuestKernel
    } else {
        ChannelOrigin::User
    }
}

/// `states` are the outcomes after each of the first `states.len() - 1` methods, from
/// nothing, each step succeeding with the completion key in `keys`.
pub open spec fn folded(
    ops: TableOperands,
    p: ProcView,
    c: ChannelView,
    ms: Seq<PushMethod>,
    owners: Seq<Option<(u32, u64)>>,
    states: Seq<OutcomeView>,
    keys: Seq<Option<u64>>,
) -> bool {
    &&& 1 <= states.len() <= ms.len() + 1
    &&& states[0] == empty_outcome()
    &&& keys.len() == states.len() - 1
    &&& forall|i: int|
        0 <= i < states.len() - 1 ==> step_outcome(
            ops,
            p,
            c,
            origin_of(p),
            #[trigger] states[i],
            ms[i],
            owners[i],
            Ok((states[i + 1], keys[i])),
        )
}

/// Applying the methods `ms` on channel `c` of `p` gives `res`, with the completion keys
/// `obs` to observe in order: every method up to the first refusal is applied to the
/// outcome of those before it, and the refusal, if any, is that method's own.
pub open spec fn applied(
    p: ProcView,
    c: ChannelView,
    ms: Seq<PushMethod>,
    owners: Seq<Option<(u32, u64)>>,
    res: Result<OutcomeView, FwdFault>,
    obs: Seq<u64>,
) -> bool {
    exists|ops: TableOperands, states: Seq<OutcomeView>, keys: Seq<Option<u64>>|
        #![trigger folded(ops, p, c, ms, owners, states, keys)]
        ops_of(ops, p, c) && folded(ops, p, c, ms, owners, states, keys) && obs == somes(keys)
            && match res {
            Ok(v) => states.len() == ms.len() + 1 && v == states.last(),
            Err(f) => states.len() <= ms.len() && step_outcome(
                ops,
                p,
                c,
                origin_of(p),
                states.last(),
                ms[states.len() - 1],
                owners[states.len() - 1],
                Err(f),
            ),
        }
}

/// A parse's result with the outcome as values.
pub open spec fn outcome_result(r: Result<PushbufferOutcome, FwdFault>) -> Result<OutcomeView, FwdFault> {
    match r {
        Ok(o) => Ok(o@),
        Err(e) => Err(e),
    }
}

/// Apply the decoded methods of channel `cid` of `p`, in order, stopping at the first
/// refusal; `owners[k]` is the device's answer for the page-table page method `k`'s
/// destination resolved to (see [`ce_destination`]), and is read only for launches.
///
/// Returns the outcome, and the completion keys to observe on the process's queue in
/// order — each before any later method's work, so a caller that stops at the first key
/// the queue refuses has applied exactly what a parse observing as it went would have.
pub fn apply_pushbuffer(
    p: &ProcView,
    cid: u32,
    methods: &Vec<PushMethod>,
    owners: &Vec<Option<(u32, u64)>>,
) -> (r: (Result<PushbufferOutcome, FwdFault>, Vec<u64>))
    requires
        owners@.len() == methods@.len(),
    ensures
        p.retired ==> r.0 == Err::<PushbufferOutcome, FwdFault>(FwdFault::RetiredProc(p.id))
            && r.1@.len() == 0,
        !p.retired && spec_channel(*p, cid) is None ==> r.0 == Err::<PushbufferOutcome, FwdFault>(
            FwdFault::NoVas(cid),
        ) && r.1@.len() == 0,
        !p.retired ==> (spec_channel(*p, cid) matches Some(c) ==> applied(
            *p,
            c,
            methods@,
            owners@,
            outcome_result(r.0),
            r.1@,
        )),
        r.0 matches Ok(out) ==> {
            &&& out.c_execute_host_ce + out.c_execute_ours == launches(methods@)
            &&& out.data_copies + out.pt_writes@.len() == launches(methods@)
            &&& r.1@.len() == out.sem_releases@.len()
        },
{
    if p.retired {
        return (Err(FwdFault::RetiredProc(p.id)), Vec::new());
    }
    let c = match p.channel(cid) {
        Some(c) => c,
        None => return (Err(FwdFault::NoVas(cid)), Vec::new()),
    };
    let table = match c.vas_pdb {
        Some(pdb) => match p.vas(c.gpu, pdb) {
            Some(v) => Some(&v.table),
            None => None,
        },
        None => None,
    };
    let ops = TableOperands::new(table, c.vas_pdb);
    assert(ops_of(ops, *p, *c));
    let origin = ChannelOrigin::of(p);
    let mut out = PushbufferOutcome::new();
    let mut obs: Vec<u64> = Vec::new();
    let ghost mut states: Seq<OutcomeView> = seq![out@];
    let ghost mut keys: Seq<Option<u64>> = Seq::empty();
    let mut i: usize = 0;
    while i < methods.len()
        invariant
            i <= methods@.len(),
            owners@.len() == methods@.len(),
            origin == origin_of(*p),
            !p.retired,
            spec_channel(*p, cid) == Some(*c),
            ops_of(ops, *p, *c),
            folded(ops, *p, *c, methods@, owners@, states, keys),
            states.len() == i + 1,
            states.last() == out@,
            obs@ == somes(keys),
            out.data_copies <= i,
            out.c_execute_host_ce <= i,
            out.c_execute_ours <= i,
            out.ce_releases <= i,
            out.opaque <= i,
            out.ce_spans@.len() <= MAX_CE_SPANS_PER_PARSE,
            out.c_execute_host_ce + out.c_execute_ours == launches(methods@.take(i as int)),
            out.data_copies + out.pt_writes@.len() == launches(methods@.take(i as int)),
            obs@.len() == out.sem_releases@.len(),
        decreases methods@.len() - i,
    {
        let ghost before = out@;
        let step = apply_method(&ops, p, c, origin, &mut out, methods[i], owners[i]);
        match step {
            Err(f) => {
                assert(applied(*p, *c, methods@, owners@, Err(f), obs@));
                return (Err(f), obs);
            },
            Ok(key) => {
                let ghost old_keys = keys;
                let ghost old_states = states;
                proof {
                    states = states.push(out@);
                    keys = keys.push(key);
                    assert(keys.drop_last() =~= old_keys);
                    assert forall|j: int| 0 <= j < states.len() - 1 implies step_outcome(
                        ops,
                        *p,
                        *c,
                        origin_of(*p),
                        #[trigger] states[j],
                        methods@[j],
                        owners@[j],
                        Ok((states[j + 1], keys[j])),
                    ) by {
                        if j < i {
                            assert(states[j] == old_states[j]);
                            assert(states[j + 1] == old_states[j + 1]);
                        }
                    }
                }
                match key {
                    Some(k) => obs.push(k),
                    None => {},
                }
                proof {
                    assert(obs@ =~= somes(keys));
                    assert(methods@.take(i + 1).drop_last() =~= methods@.take(i as int));
                }
            },
        }
        i = i + 1;
    }
    assert(applied(*p, *c, methods@, owners@, Ok(out@), obs@));
    assert(methods@.take(methods@.len() as int) =~= methods@);
    (Ok(out), obs)
}

/// One process's page-table facts, for routing latched writes to the address space that
/// owns each page.
#[derive(Debug, Clone, PartialEq, Eq)]
pub struct PtOwner {
    /// The process.
    pub proc: u32,
    /// Whether it has retired.
    pub retired: bool,
    /// Its address spaces' page-table facts.
    pub spaces: Vec<PtState>,
}

/// The position of the first process at or after `i` with id `proc`.
pub open spec fn owner_pos(s: Seq<PtOwner>, proc: u32, i: int) -> Option<int>
    decreases s.len() - i,
{
    if i < 0 || i >= s.len() {
        None
    } else if s[i].proc == proc {
        Some(i)
    } else {
        owner_pos(s, proc, i + 1)
    }
}

/// The position of the first address space at or after `i` keyed `(gpu, pdb)`.
pub open spec fn space_pos(s: Seq<PtState>, gpu: u32, pdb: u64, i: int) -> Option<int>
    decreases s.len() - i,
{
    if i < 0 || i >= s.len() {
        None
    } else if s[i].gpu == gpu && s[i].pdb == pdb {
        Some(i)
    } else {
        space_pos(s, gpu, pdb, i + 1)
    }
}

/// The pages of `ws` written into address space `(gpu, pdb)` of process `proc`, in order.
pub open spec fn latched_pages(ws: Seq<PtWrite>, proc: u32, gpu: u32, pdb: u64) -> Seq<u64>
    decreases ws.len(),
{
    if ws.len() == 0 {
        Seq::empty()
    } else {
        let rest = latched_pages(ws.drop_last(), proc, gpu, pdb);
        let w = ws.last();
        if w.owner == proc && w.gpu == gpu && w.owner_pdb == pdb {
            rest.push(w.page)
        } else {
            rest
        }
    }
}

/// Whether address space `j` of process `i` is where the writes keyed to it land: the
/// process is live, and each is the first of its key.
pub open spec fn designated(owners: Seq<PtOwner>, i: int, j: int) -> bool {
    let o = owners[i];
    let sp = o.spaces@[j];
    &&& !o.retired
    &&& owner_pos(owners, o.proc, 0) == Some(i)
    &&& space_pos(o.spaces@, sp.gpu, sp.pdb, 0) == Some(j)
}

/// The pages `ws` latch into address space `j` of process `i`.
pub open spec fn latched_into(owners: Seq<PtOwner>, i: int, j: int, ws: Seq<PtWrite>) -> Seq<u64> {
    if designated(owners, i, j) {
        let sp = owners[i].spaces@[j];
        latched_pages(ws, owners[i].proc, sp.gpu, sp.pdb)
    } else {
        Seq::empty()
    }
}

/// Address space `new` is `old` with `pages` marked dirtied, and nothing else changed.
pub open spec fn space_latched(old: PtState, new: PtState, pages: Seq<u64>) -> bool {
    &&& new.gpu == old.gpu && new.pdb == old.pdb
    &&& new.pt_meta == old.pt_meta && new.witnessed == old.witnessed && new.sweep == old.sweep
    &&& new.pt_pages@ == with_members(old.pt_pages@, pages)
}

/// Process `n` is process `i` of `old` with the writes `ws` latched onto its spaces.
pub open spec fn owner_latched(old: Seq<PtOwner>, n: PtOwner, i: int, ws: Seq<PtWrite>) -> bool {
    &&& n.proc == old[i].proc
    &&& n.retired == old[i].retired
    &&& n.spaces@.len() == old[i].spaces@.len()
    &&& forall|j: int|
        0 <= j < old[i].spaces@.len() ==> space_latched(
            old[i].spaces@[j],
            #[trigger] n.spaces@[j],
            latched_into(old, i, j, ws),
        )
}

/// The processes `new` are `old` with the writes `ws` latched onto their owners.
pub open spec fn owners_latched(old: Seq<PtOwner>, new: Seq<PtOwner>, ws: Seq<PtWrite>) -> bool {
    &&& new.len() == old.len()
    &&& forall|i: int| 0 <= i < old.len() ==> owner_latched(old, #[trigger] new[i], i, ws)
}

proof fn lemma_owner_pos_same(a: Seq<PtOwner>, b: Seq<PtOwner>, proc: u32, i: int)
    requires
        a.len() == b.len(),
        forall|k: int| 0 <= k < a.len() ==> #[trigger] a[k].proc == b[k].proc,
    ensures
        owner_pos(a, proc, i) == owner_pos(b, proc, i),
    decreases a.len() - i,
{
    if 0 <= i < a.len() {
        lemma_owner_pos_same(a, b, proc, i + 1);
    }
}

proof fn lemma_space_pos_same(a: Seq<PtState>, b: Seq<PtState>, gpu: u32, pdb: u64, i: int)
    requires
        a.len() == b.len(),
        forall|k: int| 0 <= k < a.len() ==> #[trigger] a[k].gpu == b[k].gpu && a[k].pdb == b[k].pdb,
    ensures
        space_pos(a, gpu, pdb, i) == space_pos(b, gpu, pdb, i),
    decreases a.len() - i,
{
    if 0 <= i < a.len() {
        lemma_space_pos_same(a, b, gpu, pdb, i + 1);
    }
}

proof fn lemma_owner_pos_is(s: Seq<PtOwner>, proc: u32, i: int)
    requires
        0 <= i,
    ensures
        owner_pos(s, proc, i) matches Some(k) ==> i <= k < s.len() && s[k].proc == proc && forall|m: int|
            i <= m < k ==> #[trigger] s[m].proc != proc,
        owner_pos(s, proc, i) is None ==> forall|m: int| i <= m < s.len() ==> #[trigger] s[m].proc != proc,
    decreases s.len() - i,
{
    if i < s.len() {
        lemma_owner_pos_is(s, proc, i + 1);
    }
}

proof fn lemma_space_pos_is(s: Seq<PtState>, gpu: u32, pdb: u64, i: int)
    requires
        0 <= i,
    ensures
        space_pos(s, gpu, pdb, i) matches Some(k) ==> i <= k < s.len() && s[k].gpu == gpu && s[k].pdb == pdb
            && forall|m: int| i <= m < k ==> !(#[trigger] s[m].gpu == gpu && s[m].pdb == pdb),
        space_pos(s, gpu, pdb, i) is None ==> forall|m: int|
            i <= m < s.len() ==> !(#[trigger] s[m].gpu == gpu && s[m].pdb == pdb),
    decreases s.len() - i,
{
    if i < s.len() {
        lemma_space_pos_is(s, gpu, pdb, i + 1);
    }
}

proof fn lemma_latched_unchanged(o0: Seq<PtOwner>, cur: Seq<PtOwner>, pre: Seq<PtWrite>, next: Seq<PtWrite>)
    requires
        owners_latched(o0, cur, pre),
        forall|i: int, j: int|
            0 <= i < o0.len() && 0 <= j < o0[i].spaces@.len() ==> #[trigger] latched_into(o0, i, j, next)
                == latched_into(o0, i, j, pre),
    ensures
        owners_latched(o0, cur, next),
{
    assert forall|i: int| 0 <= i < o0.len() implies owner_latched(o0, #[trigger] cur[i], i, next) by {
        assert(owner_latched(o0, cur[i], i, pre));
        assert forall|j: int| 0 <= j < o0[i].spaces@.len() implies space_latched(
            o0[i].spaces@[j],
            #[trigger] cur[i].spaces@[j],
            latched_into(o0, i, j, next),
        ) by {
            assert(latched_into(o0, i, j, next) == latched_into(o0, i, j, pre));
        }
    }
}

fn find_owner(owners: &Vec<PtOwner>, proc: u32) -> (r: Option<usize>)
    ensures
        match r {
            Some(x) => owner_pos(owners@, proc, 0) == Some(x as int),
            None => owner_pos(owners@, proc, 0) is None,
        },
{
    let mut i: usize = 0;
    while i < owners.len()
        invariant
            i <= owners@.len(),
            owner_pos(owners@, proc, 0) == owner_pos(owners@, proc, i as int),
        decreases owners@.len() - i,
    {
        if owners[i].proc == proc {
            return Some(i);
        }
        i = i + 1;
    }
    None
}

fn find_space(spaces: &Vec<PtState>, gpu: u32, pdb: u64) -> (r: Option<usize>)
    ensures
        match r {
            Some(x) => space_pos(spaces@, gpu, pdb, 0) == Some(x as int),
            None => space_pos(spaces@, gpu, pdb, 0) is None,
        },
{
    let mut i: usize = 0;
    while i < spaces.len()
        invariant
            i <= spaces@.len(),
            space_pos(spaces@, gpu, pdb, 0) == space_pos(spaces@, gpu, pdb, i as int),
        decreases spaces@.len() - i,
    {
        if spaces[i].gpu == gpu && spaces[i].pdb == pdb {
            return Some(i);
        }
        i = i + 1;
    }
    None
}

/// Route each latched page-table write to the address space that owns it, marking the
/// page dirtied there for the next decode plan. A write whose owner retired in the gap, or
/// whose address space is gone, is dropped: the pages died with it.
pub fn latch_pt_writes(owners: &mut Vec<PtOwner>, writes: &Vec<PtWrite>)
    ensures
        owners_latched(old(owners)@, final(owners)@, writes@),
{
    let ghost o0 = owners@;
    let mut k: usize = 0;
    while k < writes.len()
        invariant
            k <= writes@.len(),
            owners_latched(o0, owners@, writes@.take(k as int)),
        decreases writes@.len() - k,
    {
        let w = writes[k];
        let ghost pre = writes@.take(k as int);
        let ghost next = writes@.take(k + 1);
        proof {
            assert(next.drop_last() =~= pre);
            assert(next.last() == w);
            lemma_owner_pos_same(o0, owners@, w.owner, 0);
            lemma_owner_pos_is(o0, w.owner, 0);
        }
        let ghost cur = owners@;
        match find_owner(owners, w.owner) {
            None => {
                proof {
                    assert forall|i: int, j: int|
                        0 <= i < o0.len() && 0 <= j < o0[i].spaces@.len() implies latched_into(o0, i, j, next)
                            == latched_into(o0, i, j, pre) by {
                        if designated(o0, i, j) {
                            assert(o0[i].proc != w.owner);
                        }
                    }
                    lemma_latched_unchanged(o0, owners@, pre, next);
                }
            },
            Some(oi) => {
                proof {
                    assert(owner_pos(o0, w.owner, 0) == Some(oi as int));
                    assert(owners@[oi as int].proc == o0[oi as int].proc);
                }
                if owners[oi].retired {
                    assert(o0[oi as int].retired);
                    proof {
                        assert forall|i: int, j: int|
                            0 <= i < o0.len() && 0 <= j < o0[i].spaces@.len() implies latched_into(o0, i, j, next)
                                == latched_into(o0, i, j, pre) by {
                            if designated(o0, i, j) && o0[i].proc == w.owner {
                                assert(i == oi);
                            }
                        }
                        lemma_latched_unchanged(o0, owners@, pre, next);
                    }
                } else {
                    proof {
                        lemma_space_pos_same(o0[oi as int].spaces@, owners@[oi as int].spaces@, w.gpu, w.owner_pdb, 0);
                        lemma_space_pos_is(o0[oi as int].spaces@, w.gpu, w.owner_pdb, 0);
                    }
                    match find_space(&owners[oi].spaces, w.gpu, w.owner_pdb) {
                        None => {
                            proof {
                                assert forall|i: int, j: int|
                                    0 <= i < o0.len() && 0 <= j < o0[i].spaces@.len() implies latched_into(
                                        o0,
                                        i,
                                        j,
                                        next,
                                    ) == latched_into(o0, i, j, pre) by {
                                    if designated(o0, i, j) && o0[i].proc == w.owner {
                                        assert(i == oi);
                                        assert(!(o0[i].spaces@[j].gpu == w.gpu && o0[i].spaces@[j].pdb == w.owner_pdb));
                                    }
                                }
                                lemma_latched_unchanged(o0, owners@, pre, next);
                            }
                        },
                        Some(sj) => {
                            let mut owner = owners.remove(oi);
                            let ghost owner0 = owner;
                            let mut st = owner.spaces.remove(sj);
                            let ghost st0 = st;
                            add_member(&mut st.pt_pages, w.page);
                            let ghost st1 = st;
                            owner.spaces.insert(sj, st);
                            let ghost owner1 = owner;
                            owners.insert(oi, owner);
                            proof {
                                assert(owner0 == cur[oi as int]);
                                assert(st0 == cur[oi as int].spaces@[sj as int]);
                                assert(owner1.spaces@ =~= owner0.spaces@.update(sj as int, st1));
                                assert(owners@ =~= cur.update(oi as int, owner1));
                                assert(owner1.proc == owner0.proc && owner1.retired == owner0.retired);
                                assert(designated(o0, oi as int, sj as int));
                                assert forall|i: int| 0 <= i < o0.len() implies owner_latched(o0, #[trigger] owners@[i], i, next) by {
                                    assert(owner_latched(o0, cur[i], i, pre));
                                    if i == oi {
                                        assert(cur[i].proc == o0[i].proc);
                                        assert(owners@[i] == owner1);
                                        assert(owners@[i].proc == o0[i].proc);
                                        assert(owners@[i].retired == o0[i].retired);
                                        assert(owners@[i].spaces@.len() == o0[i].spaces@.len());
                                        assert forall|j: int| 0 <= j < o0[i].spaces@.len() implies space_latched(
                                            o0[i].spaces@[j],
                                            #[trigger] owners@[i].spaces@[j],
                                            latched_into(o0, i, j, next),
                                        ) by {
                                            if j == sj {
                                                assert(owners@[i].spaces@[j] == st1);
                                                assert(space_latched(o0[i].spaces@[j], cur[i].spaces@[j], latched_into(o0, i, j, pre)));
                                                assert(st1.pt_pages@ == with_member(st0.pt_pages@, w.page));
                                                assert(latched_into(o0, i, j, next) == latched_into(o0, i, j, pre).push(w.page));
                                                assert(latched_into(o0, i, j, pre).push(w.page).drop_last()
                                                    =~= latched_into(o0, i, j, pre));
                                            } else {
                                                assert(owners@[i].spaces@[j] == cur[i].spaces@[j]);
                                                if designated(o0, i, j) {
                                                    assert(!(o0[i].spaces@[j].gpu == w.gpu && o0[i].spaces@[j].pdb
                                                        == w.owner_pdb));
                                                }
                                            }
                                        }
                                    } else {
                                        assert(owners@[i] == cur[i]);
                                        assert(cur[i].proc == o0[i].proc);
                                        assert forall|j: int| 0 <= j < o0[i].spaces@.len() implies space_latched(
                                            o0[i].spaces@[j],
                                            #[trigger] owners@[i].spaces@[j],
                                            latched_into(o0, i, j, next),
                                        ) by {
                                            if designated(o0, i, j) {
                                                assert(o0[i].proc != w.owner);
                                            }
                                            assert(latched_into(o0, i, j, next) == latched_into(o0, i, j, pre));
                                            assert(space_latched(o0[i].spaces@[j], cur[i].spaces@[j], latched_into(o0, i, j, pre)));
                                        }
                                    }
                                }
                                assert(owners@.len() == o0.len());
                                assert(owners_latched(o0, owners@, next));
                            }
                        },
                    }
                }
            },
        }
        k = k + 1;
    }
    proof {
        assert(writes@.take(writes@.len() as int) =~= writes@);
    }
}

proof fn lemma_with_members_contains(set: Seq<u64>, xs: Seq<u64>)
    ensures
        forall|x: u64| set.contains(x) ==> #[trigger] with_members(set, xs).contains(x),
        forall|k: int| 0 <= k < xs.len() ==> with_members(set, xs).contains(#[trigger] xs[k]),
    decreases xs.len(),
{
    if xs.len() > 0 {
        let pre = xs.drop_last();
        lemma_with_members_contains(set, pre);
        let w = with_members(set, pre);
        assert forall|x: u64| w.contains(x) implies #[trigger] with_member(w, xs.last()).contains(x) by {
            if !w.contains(xs.last()) {
                let k = choose|k: int| 0 <= k < w.len() && w[k] == x;
                assert(w.push(xs.last())[k] == x);
            }
        }
        assert(with_member(w, xs.last()).contains(xs.last())) by {
            if !w.contains(xs.last()) {
                assert(w.push(xs.last())[w.len() as int] == xs.last());
            }
        }
        assert forall|k: int| 0 <= k < xs.len() implies with_members(set, xs).contains(#[trigger] xs[k]) by {
            if k < xs.len() - 1 {
                assert(xs[k] == pre[k]);
                assert(w.contains(pre[k]));
            }
        }
    }
}

proof fn lemma_latched_contains(ws: Seq<PtWrite>, proc: u32, gpu: u32, pdb: u64, k: int)
    requires
        0 <= k < ws.len(),
        ws[k].owner == proc && ws[k].gpu == gpu && ws[k].owner_pdb == pdb,
    ensures
        latched_pages(ws, proc, gpu, pdb).contains(ws[k].page),
    decreases ws.len(),
{
    let rest = latched_pages(ws.drop_last(), proc, gpu, pdb);
    if k == ws.len() - 1 {
        assert(rest.push(ws[k].page)[rest.len() as int] == ws[k].page);
    } else {
        assert(ws.drop_last()[k] == ws[k]);
        lemma_latched_contains(ws.drop_last(), proc, gpu, pdb, k);
        let m = choose|m: int| 0 <= m < rest.len() && rest[m] == ws[k].page;
        if ws.last().owner == proc && ws.last().gpu == gpu && ws.last().owner_pdb == pdb {
            assert(rest.push(ws.last().page)[m] == ws[k].page);
        }
    }
}

/// A page-table write latched for a live owner leaves its page dirtied in the owning
/// address space, where the next decode plan drains it; and a page already dirtied stays
/// dirtied.
pub proof fn law_a_latched_page_is_dirtied(
    old: Seq<PtOwner>,
    new: Seq<PtOwner>,
    ws: Seq<PtWrite>,
    i: int,
    j: int,
    k: int,
)
    requires
        owners_latched(old, new, ws),
        0 <= i < old.len(),
        0 <= j < old[i].spaces@.len(),
        designated(old, i, j),
        0 <= k < ws.len(),
        ws[k].owner == old[i].proc,
        ws[k].gpu == old[i].spaces@[j].gpu,
        ws[k].owner_pdb == old[i].spaces@[j].pdb,
    ensures
        new[i].spaces@[j].pt_pages@.contains(ws[k].page),
        forall|x: u64| old[i].spaces@[j].pt_pages@.contains(x) ==> #[trigger] new[i].spaces@[j].pt_pages@.contains(x),
{
    let sp = old[i].spaces@[j];
    assert(owner_latched(old, new[i], i, ws));
    lemma_latched_contains(ws, old[i].proc, sp.gpu, sp.pdb, k);
    let pages = latched_pages(ws, old[i].proc, sp.gpu, sp.pdb);
    lemma_with_members_contains(sp.pt_pages@, pages);
    let m = choose|m: int| 0 <= m < pages.len() && pages[m] == ws[k].page;
    assert(with_members(sp.pt_pages@, pages).contains(pages[m]));
}

} // verus!
