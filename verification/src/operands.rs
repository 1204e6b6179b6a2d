//! **Copy-engine operands, resolved in the channel's own address table.** A virtual
//! operand is cut into the maximal runs over which the table's answer is constant; each
//! run is host-backed, fabricated (ours, in a named CPU plane at the binding's own
//! address), or untracked — a hole, which is forwardable, never a fault. A physical
//! operand bypassed the MMU and is one run. The partition of a request is then cut where
//! either operand's runs change.
use crate::ce::{CeWork, Representability};
use crate::forwarding::FwdFault;
use crate::partition::{
    cut_at_least, extent, lemma_total_cons, partition_runs, partitions, physical_operand_runs, positive, request,
    spec_plane_of_aperture, spec_plane_of_target, total, wrap_add, CeSpan, CpuOperand,
    DeclaredResidency, OperandRun, PhysTarget, MAX_CE_SPANS,
};
use crate::table::{
    clipped_end, lemma_span_at, spans_from, spec_resolve, spec_spans, top, Binding, BindingTable,
    RegionKind, Span,
};
use vstd::prelude::*;

verus! {

/// The kind of a resolved run, and its place where it is ours.
pub open spec fn spec_representability_of(binding: Option<Binding>, within: u64, addr: u64) -> Result<
    (Representability, Option<CpuOperand>),
    FwdFault,
> {
    match binding {
        None => Ok((Representability::Untracked, None)),
        Some(b) => if b.kind == RegionKind::RealGpuMemory {
            Ok((Representability::HostBacked, None))
        } else {
            match spec_plane_of_aperture(b.aperture) {
                Some(plane) => Ok(
                    (
                        Representability::Fabricated,
                        Some(CpuOperand { plane, addr: wrap_add(b.phys, within as int) }),
                    ),
                ),
                None => Err(FwdFault::CePeerOperand { addr }),
            }
        },
    }
}

/// Classify one resolved run starting at `addr`, `within` bytes into its binding: host
/// memory at the guest's own address is host-backed; memory we fabricated is ours, in the
/// plane its aperture names, at the binding's address plus `within`; no binding is
/// untracked. A peer aperture is refused by name.
pub fn representability_of(binding: Option<Binding>, within: u64, addr: u64) -> (r: Result<
    (Representability, Option<CpuOperand>),
    FwdFault,
>)
    ensures
        r == spec_representability_of(binding, within, addr),
{
    match binding {
        None => Ok((Representability::Untracked, None)),
        Some(b) => match b.kind {
            RegionKind::RealGpuMemory => Ok((Representability::HostBacked, None)),
            _ => match DeclaredResidency.residency_of_aperture(b.aperture, addr) {
                Some(plane) => Ok(
                    (
                        Representability::Fabricated,
                        Some(CpuOperand { plane, addr: b.phys.wrapping_add(within) }),
                    ),
                ),
                None => Err(FwdFault::CePeerOperand { addr }),
            },
        },
    }
}

/// The run one piece of a range becomes.
pub open spec fn run_of(sp: Span) -> Result<OperandRun, FwdFault> {
    let b = match sp.bound {
        Some((b, _)) => Some(b),
        None => None,
    };
    let within: u64 = match sp.bound {
        Some((_, o)) => o,
        None => 0,
    };
    match spec_representability_of(b, within, sp.start) {
        Ok((kind, place)) => Ok(OperandRun { start: sp.start, len: sp.len, kind, place }),
        Err(e) => Err(e),
    }
}

/// The runs the pieces become, in order; the first piece that is refused names the
/// refusal.
pub open spec fn runs_of(sp: Seq<Span>) -> Result<Seq<OperandRun>, FwdFault>
    decreases sp.len(),
{
    if sp.len() == 0 {
        Ok(Seq::empty())
    } else {
        match run_of(sp[0]) {
            Err(e) => Err(e),
            Ok(r) => match runs_of(sp.drop_first()) {
                Ok(rest) => Ok(seq![r] + rest),
                Err(e) => Err(e),
            },
        }
    }
}

/// The resolver a copy's operands are resolved with: one channel's own address table,
/// keyed by the address space a miss is reported against, or the honest absence of one.
pub enum TableOperands<'a> {
    /// The channel's table.
    Table {
        /// The table.
        table: &'a BindingTable,
        /// Its address space.
        pdb: u64,
    },
    /// The channel has no table: nothing is tracked, so nothing is ours.
    Untracked,
}

impl<'a> TableOperands<'a> {
    /// The resolver for a channel with `table` in address space `pdb` — untracked unless
    /// both are there.
    pub fn new(table: Option<&'a BindingTable>, pdb: Option<u64>) -> (r: TableOperands<'a>)
        ensures
            match (table, pdb) {
                (Some(t), Some(p)) => r matches TableOperands::Table { table: rt, pdb: rp } && *rt
                    == *t && rp == p,
                _ => r is Untracked,
            },
    {
        match (table, pdb) {
            (Some(table), Some(pdb)) => TableOperands::Table { table, pdb },
            _ => TableOperands::Untracked,
        }
    }
}

/// The runs of the virtual range `[addr, addr+len)`: the table's pieces, classified; or,
/// with no table, one untracked run over the clipped range.
pub open spec fn spec_resolve_runs(ops: TableOperands, addr: u64, len: u64) -> Result<
    Seq<OperandRun>,
    FwdFault,
> {
    match ops {
        TableOperands::Table { table, .. } => runs_of(spec_spans(table.entries@, addr, len)),
        TableOperands::Untracked => {
            let eff = clipped_end(addr, len) - addr;
            if eff == 0 {
                Ok(Seq::empty())
            } else {
                Ok(
                    seq![
                        OperandRun {
                            start: addr,
                            len: eff as u64,
                            kind: Representability::Untracked,
                            place: None,
                        },
                    ],
                )
            }
        },
    }
}

/// The CPU's view of one word at `addr`: a hole is never an answer to a point query.
pub open spec fn spec_resolve_word(ops: TableOperands, addr: u64) -> Result<CpuOperand, FwdFault> {
    match ops {
        TableOperands::Table { table, pdb } => match spec_resolve(table.entries@, pdb, addr) {
            Err(f) => Err(FwdFault::Address(f)),
            Ok((b, off)) => {
                let phys = wrap_add(b.phys, off as int);
                match spec_plane_of_aperture(b.aperture) {
                    Some(plane) => Ok(CpuOperand { plane, addr: phys }),
                    None => Err(FwdFault::CePeerOperand { addr: phys }),
                }
            },
        },
        TableOperands::Untracked => Err(FwdFault::CeNoTable { va: addr }),
    }
}

/// The sum of the pieces' lengths.
pub open spec fn span_sum(sp: Seq<Span>) -> int
    decreases sp.len(),
{
    if sp.len() == 0 {
        0
    } else {
        sp[0].len + span_sum(sp.drop_first())
    }
}

/// The pieces of `[pos, end)` are non-empty and cover it exactly.
pub proof fn lemma_spans_cover(t: Seq<crate::table::TableEntry>, pos: int, end: int)
    requires
        0 <= pos <= end <= top(),
        end - pos <= u64::MAX,
    ensures
        span_sum(spans_from(t, pos, end)) == end - pos,
        forall|k: int|
            0 <= k < spans_from(t, pos, end).len() ==> #[trigger] spans_from(t, pos, end)[k].len > 0,
    decreases end - pos,
{
    if pos < end {
        lemma_span_at(t, pos, end);
        let sp = crate::table::span_at(t, pos, end);
        lemma_spans_cover(t, pos + sp.len, end);
        let s = spans_from(t, pos, end);
        let rest = spans_from(t, pos + sp.len, end);
        assert(s == seq![sp] + rest);
        assert(s.drop_first() =~= rest);
        assert forall|k: int| 0 <= k < s.len() implies #[trigger] s[k].len > 0 by {
            if k > 0 {
                assert(s[k] == rest[k - 1]);
            }
        }
    }
}

/// Classifying pieces keeps their lengths: the runs are non-empty where the pieces are,
/// and cover what the pieces cover.
pub proof fn lemma_runs_of(sp: Seq<Span>)
    requires
        forall|k: int| 0 <= k < sp.len() ==> #[trigger] sp[k].len > 0,
    ensures
        runs_of(sp) matches Ok(runs) ==> positive(runs) && total(runs) == span_sum(sp) && runs.len()
            == sp.len(),
    decreases sp.len(),
{
    if sp.len() > 0 {
        assert forall|k: int| 0 <= k < sp.drop_first().len() implies #[trigger] sp.drop_first()[k].len
            > 0 by {
            assert(sp.drop_first()[k] == sp[k + 1]);
        }
        lemma_runs_of(sp.drop_first());
        match runs_of(sp) {
            Ok(runs) => {
                let rest = runs_of(sp.drop_first())->Ok_0;
                let r = run_of(sp[0])->Ok_0;
                assert(runs == seq![r] + rest);
                assert(runs.drop_first() =~= rest);
                assert(total(runs) == r.len + total(rest)) by {
                    crate::partition::lemma_total_cons(runs);
                }
                assert forall|k: int| 0 <= k < runs.len() implies #[trigger] runs[k].len > 0 by {
                    if k > 0 {
                        assert(runs[k] == rest[k - 1]);
                    }
                }
            },
            Err(_) => {},
        }
    }
}

impl<'a> TableOperands<'a> {
    /// Partition the virtual range `[addr, addr+len)` (see [`spec_resolve_runs`]).
    #[verifier::loop_isolation(false)]
    pub fn resolve_runs(&self, addr: u64, len: u64) -> (r: Result<Vec<OperandRun>, FwdFault>)
        ensures
            match spec_resolve_runs(*self, addr, len) {
                Ok(runs) => r matches Ok(v) && v@ == runs,
                Err(e) => r == Err::<Vec<OperandRun>, FwdFault>(e),
            },
    {
        match self {
            TableOperands::Table { table, .. } => {
                let spans = table.spans(addr, len);
                let ghost sp = spans@;
                let mut out: Vec<OperandRun> = Vec::new();
                let mut i: usize = 0;
                proof {
                    assert(sp.subrange(0, sp.len() as int) =~= sp);
                    match runs_of(sp) {
                        Ok(rest) => {
                            assert(out@ + rest =~= rest);
                        },
                        Err(_) => {},
                    }
                }
                while i < spans.len()
                    invariant
                        i <= spans.len(),
                        sp == spans@,
                        runs_of(sp) == match runs_of(sp.subrange(i as int, sp.len() as int)) {
                            Ok(rest) => Ok(out@ + rest),
                            Err(e) => Err(e),
                        },
                    decreases spans.len() - i,
                {
                    let s = spans[i];
                    let (b, within) = match s.bound {
                        Some((b, o)) => (Some(b), o),
                        None => (None, 0),
                    };
                    proof {
                        let tail = sp.subrange(i as int, sp.len() as int);
                        assert(tail[0] == s);
                        assert(tail.drop_first() =~= sp.subrange(i + 1, sp.len() as int));
                    }
                    let (kind, place) = match representability_of(b, within, s.start) {
                        Ok(x) => x,
                        Err(e) => {
                            return Err(e);
                        },
                    };
                    let run = OperandRun { start: s.start, len: s.len, kind, place };
                    proof {
                        match runs_of(sp.subrange(i + 1, sp.len() as int)) {
                            Ok(rest) => {
                                assert(out@ + (seq![run] + rest) =~= out@.push(run) + rest);
                            },
                            Err(_) => {},
                        }
                    }
                    out.push(run);
                    i = i + 1;
                }
                proof {
                    assert(sp.subrange(sp.len() as int, sp.len() as int) =~= Seq::<Span>::empty());
                    assert(out@ + Seq::<OperandRun>::empty() =~= out@);
                }
                Ok(out)
            },
            TableOperands::Untracked => {
                let sum = (addr as u128) + (len as u128);
                let end: u128 = if sum < 0x1_0000_0000_0000_0000 {
                    sum
                } else {
                    0x1_0000_0000_0000_0000
                };
                let eff = (end - addr as u128) as u64;
                let mut v: Vec<OperandRun> = Vec::new();
                if eff > 0 {
                    v.push(
                        OperandRun {
                            start: addr,
                            len: eff,
                            kind: Representability::Untracked,
                            place: None,
                        },
                    );
                }
                proof {
                    if eff > 0 {
                        assert(v@ =~= seq![
                            OperandRun {
                                start: addr,
                                len: eff,
                                kind: Representability::Untracked,
                                place: None,
                            },
                        ]);
                    }
                }
                Ok(v)
            },
        }
    }

    /// Resolve one word at `addr` (see [`spec_resolve_word`]).
    pub fn resolve_word(&self, addr: u64) -> (r: Result<CpuOperand, FwdFault>)
        ensures
            r == spec_resolve_word(*self, addr),
    {
        match self {
            TableOperands::Table { table, pdb } => match table.resolve(*pdb, addr) {
                Err(f) => Err(FwdFault::Address(f)),
                Ok((b, off)) => {
                    let phys = b.phys.wrapping_add(off);
                    match DeclaredResidency.residency_of_aperture(b.aperture, phys) {
                        Some(plane) => Ok(CpuOperand { plane, addr: phys }),
                        None => Err(FwdFault::CePeerOperand { addr: phys }),
                    }
                },
            },
            TableOperands::Untracked => Err(FwdFault::CeNoTable { va: addr }),
        }
    }
}


/// The runs of one operand of `len` bytes: nothing for an empty operand; one physical run
/// for an operand that bypassed the MMU, in the plane its declared target names (a peer
/// target refused); the resolver's runs for a virtual one.
pub open spec fn spec_operand_runs(
    ops: TableOperands,
    addr: u64,
    is_virtual: bool,
    target: PhysTarget,
    len: u64,
) -> Result<Seq<OperandRun>, FwdFault> {
    if len == 0 {
        Ok(Seq::empty())
    } else if !is_virtual {
        match spec_plane_of_target(target) {
            Some(plane) => Ok(
                seq![
                    OperandRun {
                        start: addr,
                        len,
                        kind: Representability::PhysicalOperand,
                        place: Some(CpuOperand { plane, addr }),
                    },
                ],
            ),
            None => Err(FwdFault::CePeerOperand { addr }),
        }
    } else {
        spec_resolve_runs(ops, addr, len)
    }
}

/// An operand's runs are non-empty and cover no more than the operand.
pub proof fn lemma_operand_runs(
    ops: TableOperands,
    addr: u64,
    is_virtual: bool,
    target: PhysTarget,
    len: u64,
)
    ensures
        spec_operand_runs(ops, addr, is_virtual, target, len) matches Ok(runs) ==> positive(runs)
            && total(runs) <= len,
{
    match spec_operand_runs(ops, addr, is_virtual, target, len) {
        Ok(runs) => {
            if len == 0 {
            } else if !is_virtual || ops is Untracked {
                if runs.len() > 0 {
                    lemma_total_cons(runs);
                    assert(runs.drop_first() =~= Seq::<OperandRun>::empty());
                }
            } else {
                let t = ops->table.entries@;
                lemma_spans_cover(t, addr as int, clipped_end(addr, len));
                lemma_runs_of(spec_spans(t, addr, len));
            }
        },
        Err(_) => {},
    }
}

/// The runs of one operand (see [`spec_operand_runs`]).
pub fn operand_runs(
    ops: &TableOperands,
    addr: u64,
    is_virtual: bool,
    target: PhysTarget,
    len: u64,
) -> (r: Result<Vec<OperandRun>, FwdFault>)
    ensures
        match spec_operand_runs(*ops, addr, is_virtual, target, len) {
            Ok(runs) => r matches Ok(v) && v@ == runs,
            Err(e) => r == Err::<Vec<OperandRun>, FwdFault>(e),
        },
{
    if len == 0 {
        return Ok(Vec::new());
    }
    if !is_virtual {
        return match physical_operand_runs(addr, target, len) {
            Ok(v) => Ok(v),
            Err(_) => Err(FwdFault::CePeerOperand { addr }),
        };
    }
    ops.resolve_runs(addr, len)
}

/// What partitioning a copy-engine request through `ops` gives, `r`: the destination's
/// refusal; no spans for a request with nothing to move; the source's refusal; or the
/// partition of the request — refused as too fragmented exactly when the request is cut
/// at least [`MAX_CE_SPANS`] times.
pub open spec fn partition_outcome(
    ops: TableOperands,
    dst: u64,
    dst_is_virtual: bool,
    dst_target: PhysTarget,
    src: u64,
    src_is_virtual: bool,
    src_target: PhysTarget,
    len: u64,
    work: CeWork,
    r: Result<Seq<CeSpan>, FwdFault>,
) -> bool {
    match spec_operand_runs(ops, dst, dst_is_virtual, dst_target, len) {
        Err(e) => r == Err::<Seq<CeSpan>, FwdFault>(e),
        Ok(d) => if total(d) == 0 {
            r matches Ok(v) && v.len() == 0
        } else {
            let s_res = if work is Copy {
                spec_operand_runs(ops, src, src_is_virtual, src_target, total(d) as u64)
            } else {
                Ok(Seq::empty())
            };
            match s_res {
                Err(e) => r == Err::<Seq<CeSpan>, FwdFault>(e),
                Ok(s) => {
                    let q = request(dst, src, work, d, s);
                    &&& r matches Ok(spans) ==> partitions(q, spans) && !cut_at_least(
                        q,
                        MAX_CE_SPANS as nat,
                    )
                    &&& r matches Err(e) ==> e == FwdFault::CeTooFragmented { dst, len }
                        && cut_at_least(q, MAX_CE_SPANS as nat)
                },
            }
        },
    }
}

/// A partition's result as sequences.
pub open spec fn spans_result(r: Result<Vec<CeSpan>, FwdFault>) -> Result<Seq<CeSpan>, FwdFault> {
    match r {
        Ok(v) => Ok(v@),
        Err(e) => Err(e),
    }
}

/// Partition one copy-engine request whose operands resolve through `ops`: the
/// destination's runs decide how much of the request exists at all, a copy's source is
/// resolved over that much, and the request is cut where either operand's runs change
/// (see [`partition_runs`]). A request cut more than [`MAX_CE_SPANS`] times is refused,
/// never truncated.
pub fn partition_ce(
    ops: &TableOperands,
    dst: u64,
    dst_is_virtual: bool,
    dst_target: PhysTarget,
    src: u64,
    src_is_virtual: bool,
    src_target: PhysTarget,
    len: u64,
    work: CeWork,
) -> (r: Result<Vec<CeSpan>, FwdFault>)
    ensures
        partition_outcome(
            *ops,
            dst,
            dst_is_virtual,
            dst_target,
            src,
            src_is_virtual,
            src_target,
            len,
            work,
            spans_result(r),
        ),
{
    proof {
        lemma_operand_runs(*ops, dst, dst_is_virtual, dst_target, len);
    }
    let dst_runs = match operand_runs(ops, dst, dst_is_virtual, dst_target, len) {
        Ok(v) => v,
        Err(e) => {
            return Err(e);
        },
    };
    let eff = extent(&dst_runs);
    if eff == 0 {
        return Ok(Vec::new());
    }
    let src_runs = match work {
        CeWork::Copy => {
            proof {
                lemma_operand_runs(*ops, src, src_is_virtual, src_target, eff);
            }
            match operand_runs(ops, src, src_is_virtual, src_target, eff) {
                Ok(v) => v,
                Err(e) => {
                    return Err(e);
                },
            }
        },
        _ => Vec::new(),
    };
    match partition_runs(dst, src, len, work, &dst_runs, &src_runs) {
        Ok(spans) => Ok(spans),
        Err(_) => Err(FwdFault::CeTooFragmented { dst, len }),
    }
}

} // verus!
