//! **An address space's binding table, and the translation walk over it.** The table is
//! the guest's TLB: an address no binding covers is a fault, never a guess. A range is
//! translated binding by binding, and the aperture of each binding picks the store its
//! bytes are read from — a guest-physical address and a framebuffer offset share a number
//! and nothing else.
use crate::aperture::Aperture;
use crate::forwarding::{AddressFault, FwdFault, HostHandle};
use crate::routes::VidmemRoute;
use vstd::prelude::*;

verus! {

/// What kind of memory a bound range is.
#[derive(Debug, Clone, Copy, PartialEq, Eq)]
pub enum RegionKind {
    /// Host memory at the guest's own address, and the range's only memory: a real
    /// engine can be pointed at it.
    RealGpuMemory,
    /// Memory we fabricated to stand in for the guest's framebuffer.
    FakeFramebuffer,
    /// Guest-physical memory reached by DMA.
    GuestPhysDma,
}

/// What a host object's bytes are, relative to the guest's own view of the range.
#[derive(Debug, Clone, Copy, PartialEq, Eq)]
pub enum BackingBytes {
    /// The range's only memory: the guest has no other path to these bytes.
    SoleBacking,
    /// A blank host twin of memory the guest reaches another way.
    ShadowsGuestMemory,
    /// One memory, also mapped as the guest's own window onto the range.
    JoinsGuestWindow,
}

/// Where the host placed a bound range, and the object behind it.
#[derive(Debug, Clone, Copy, PartialEq, Eq)]
pub struct HostMapping {
    /// The host GPU address.
    pub host_va: u64,
    /// The host memory object.
    pub memory: HostHandle,
    /// What its bytes are.
    pub bytes: BackingBytes,
}

/// What a range is bound to. A binding is host-published exactly when it is real GPU
/// memory.
#[derive(Debug, Clone, Copy, PartialEq, Eq)]
pub struct Binding {
    /// The physical address the range starts at, in the aperture's own space.
    pub phys: u64,
    /// Where the bytes live.
    pub aperture: Aperture,
    /// What kind of memory it is.
    pub kind: RegionKind,
    /// The host mapping, where the range is host-published.
    pub host: Option<HostMapping>,
}

/// One bound range of guest virtual addresses.
#[derive(Debug, Clone, Copy, PartialEq, Eq)]
pub struct TableEntry {
    /// The first address.
    pub start: u64,
    /// The length in bytes.
    pub len: u64,
    /// What it is bound to.
    pub binding: Binding,
}

/// An address space's bindings.
#[derive(Debug, Clone, PartialEq, Eq)]
pub struct BindingTable {
    /// The bound ranges.
    pub entries: Vec<TableEntry>,
}

/// A table binds no empty range: every range it holds came through [`BindingTable::bind`],
/// which refuses one.
pub open spec fn no_empty_range(t: Seq<TableEntry>) -> bool {
    forall|j: int| 0 <= j < t.len() ==> #[trigger] t[j].len > 0
}

/// Whether `e` covers `va`.
pub open spec fn covers(e: TableEntry, va: u64) -> bool {
    e.start <= va && va < e.start + e.len
}

/// The first binding at or after position `i` that covers `va`.
pub open spec fn first_cover(s: Seq<TableEntry>, va: u64, i: int) -> Option<TableEntry>
    decreases s.len() - i,
{
    if i < 0 || i >= s.len() {
        None
    } else if covers(s[i], va) {
        Some(s[i])
    } else {
        first_cover(s, va, i + 1)
    }
}

/// The binding covering `va`, if any.
pub open spec fn spec_binding_at(s: Seq<TableEntry>, va: u64) -> Option<TableEntry> {
    first_cover(s, va, 0)
}

/// A lookup that finds something found a binding that covers the address.
pub proof fn lemma_first_cover_covers(s: Seq<TableEntry>, va: u64, i: int)
    ensures
        first_cover(s, va, i) matches Some(e) ==> covers(e, va),
    decreases s.len() - i,
{
    if 0 <= i < s.len() && !covers(s[i], va) {
        lemma_first_cover_covers(s, va, i + 1);
    }
}

/// What resolving `va` gives: its binding and the offset into it, or a miss.
pub open spec fn spec_resolve(s: Seq<TableEntry>, pdb: u64, va: u64) -> Result<
    (Binding, u64),
    AddressFault,
> {
    match spec_binding_at(s, va) {
        Some(e) => Ok((e.binding, (va - e.start) as u64)),
        None => Err(AddressFault::Miss { pdb, va }),
    }
}

impl BindingTable {
    /// The bound range covering `va`, with its start and length.
    pub fn binding_at(&self, va: u64) -> (r: Option<TableEntry>)
        ensures
            r == spec_binding_at(self.entries@, va),
            r matches Some(e) ==> covers(e, va),
    {
        proof {
            lemma_first_cover_covers(self.entries@, va, 0);
        }
        let mut i: usize = 0;
        while i < self.entries.len()
            invariant
                i <= self.entries.len(),
                first_cover(self.entries@, va, 0) == first_cover(self.entries@, va, i as int),
            decreases self.entries.len() - i,
        {
            let e = self.entries[i];
            if e.start <= va && (va - e.start) < e.len {
                return Some(e);
            }
            i = i + 1;
        }
        None
    }

    /// Resolve `va` in address space `pdb`: the binding and the offset into it, or a miss
    /// naming the address.
    pub fn resolve(&self, pdb: u64, va: u64) -> (r: Result<(Binding, u64), AddressFault>)
        ensures
            r == spec_resolve(self.entries@, pdb, va),
    {
        match self.binding_at(va) {
            Some(e) => Ok((e.binding, va - e.start)),
            None => Err(AddressFault::Miss { pdb, va }),
        }
    }
}


/// One GPFIFO or pushbuffer range: a GPU virtual address in the issuing channel's space.
#[derive(Debug, Clone, Copy, PartialEq, Eq)]
pub struct PushRange {
    /// The range's address.
    pub va: u64,
    /// The range's declared length.
    pub len: u64,
}

/// Where one run of a translated range's bytes is read from — chosen by the binding's
/// aperture, never by a flag a caller remembers.
#[derive(Debug, Clone, Copy, PartialEq, Eq)]
pub enum PushSrc {
    /// A guest-physical address, read from guest RAM.
    Gpa(u64),
    /// An offset into our own framebuffer; `va` is the guest address it translates.
    Fb {
        /// The framebuffer offset.
        phys: u64,
        /// The guest address.
        va: u64,
    },
}

/// One translated run: its source, and where its bytes land in the range's buffer.
#[derive(Debug, Clone, Copy, PartialEq, Eq)]
pub struct PushRun {
    /// Where the bytes are read from.
    pub src: PushSrc,
    /// The run's offset in the range.
    pub at: usize,
    /// The run's length.
    pub take: usize,
}

/// Upper bound on the bindings one range may be read across. Exceeding it is a loud
/// refusal, never a truncation.
pub const MAX_PUSH_SPANS: usize = 4096;

/// Translating the range's byte at offset `at`: the binding covering it supplies the run,
/// which reaches to the binding's end or the range's end, whichever is first.
pub open spec fn push_step(
    t: Seq<TableEntry>,
    pdb: u64,
    r: PushRange,
    len: nat,
    route: VidmemRoute,
    at: nat,
) -> Result<PushRun, FwdFault> {
    if r.va + at > u64::MAX {
        Err(FwdFault::Address(AddressFault::Malformed { pdb, va: r.va }))
    } else {
        let va = (r.va + at) as u64;
        match spec_binding_at(t, va) {
            None => Err(FwdFault::Address(AddressFault::Miss { pdb, va })),
            Some(e) => {
                let ap = e.binding.aperture;
                let sys = ap == Aperture::SysmemCoherent || ap == Aperture::SysmemNonCoherent;
                let vid = ap == Aperture::Vidmem && route == VidmemRoute::OwnFramebuffer;
                let off = va - e.start;
                if !sys && !vid {
                    Err(FwdFault::PushbufferAperture { va, aperture: ap })
                } else if e.binding.phys + off > u64::MAX {
                    Err(FwdFault::Address(AddressFault::Malformed { pdb, va }))
                } else {
                    let phys = (e.binding.phys + off) as u64;
                    let rest = e.len - off;
                    let take = if rest < len - at { rest } else { len - at };
                    Ok(
                        PushRun {
                            src: if vid { PushSrc::Fb { phys, va } } else { PushSrc::Gpa(phys) },
                            at: at as usize,
                            take: take as usize,
                        },
                    )
                }
            },
        }
    }
}

/// The walk from offset `at`, with `count` runs already produced: each step's run, until
/// the range is covered, the first refusal, or a run past the span bound.
pub open spec fn push_walk(
    t: Seq<TableEntry>,
    pdb: u64,
    r: PushRange,
    len: nat,
    route: VidmemRoute,
    at: nat,
    count: nat,
) -> Result<Seq<PushRun>, FwdFault>
    decreases len - at,
{
    if at >= len {
        Ok(Seq::empty())
    } else {
        match push_step(t, pdb, r, len, route, at) {
            Err(e) => Err(e),
            Ok(run) => if count >= MAX_PUSH_SPANS {
                Err(FwdFault::PushTooFragmented { va: r.va, len: r.len })
            } else if run.take == 0 || at + run.take > len {
                Ok(Seq::empty())
            } else {
                match push_walk(t, pdb, r, len, route, (at + run.take) as nat, count + 1) {
                    Ok(rest) => Ok(seq![run] + rest),
                    Err(e) => Err(e),
                }
            },
        }
    }
}

/// `done` followed by what the walk from a later point produces.
pub open spec fn after(done: Seq<PushRun>, rest: Result<Seq<PushRun>, FwdFault>) -> Result<
    Seq<PushRun>,
    FwdFault,
> {
    match rest {
        Ok(s) => Ok(done + s),
        Err(e) => Err(e),
    }
}

/// A step that succeeds consumes at least one byte and no more than remain.
pub proof fn lemma_push_step_advances(
    t: Seq<TableEntry>,
    pdb: u64,
    r: PushRange,
    len: nat,
    route: VidmemRoute,
    at: nat,
)
    requires
        at < len,
        len <= usize::MAX,
    ensures
        push_step(t, pdb, r, len, route, at) matches Ok(run) ==> (run.take > 0 && at + run.take
            <= len && run.at == at),
{
    if r.va + at <= u64::MAX {
        let va = (r.va + at) as u64;
        lemma_first_cover_covers(t, va, 0);
    }
}

/// Translate `len` bytes of range `r` through `table`: one run per binding crossed, each
/// naming the store its bytes live in. Refuses an address that resolves to nothing, an
/// aperture guest-RAM reads cannot reach (vidmem only where `vidmem` routes it to our own
/// framebuffer), a translation that runs off the address space, and a range cut into more
/// than [`MAX_PUSH_SPANS`] runs.
pub fn push_range_gpas(
    table: &BindingTable,
    pdb: u64,
    r: &PushRange,
    len: usize,
    vidmem: VidmemRoute,
) -> (res: Result<Vec<PushRun>, FwdFault>)
    ensures
        match res {
            Ok(v) => push_walk(table.entries@, pdb, *r, len as nat, vidmem, 0, 0) == Ok::<
                Seq<PushRun>,
                FwdFault,
            >(v@),
            Err(e) => push_walk(table.entries@, pdb, *r, len as nat, vidmem, 0, 0) == Err::<
                Seq<PushRun>,
                FwdFault,
            >(e),
        },
{
    let ghost t = table.entries@;
    let mut out: Vec<PushRun> = Vec::new();
    let mut at: usize = 0;
    while at < len
        invariant
            at <= len,
            out.len() <= MAX_PUSH_SPANS,
            push_walk(t, pdb, *r, len as nat, vidmem, 0, 0) == after(
                out@,
                push_walk(t, pdb, *r, len as nat, vidmem, at as nat, out.len() as nat),
            ),
            t == table.entries@,
        decreases len - at,
    {
        proof {
            lemma_push_step_advances(t, pdb, *r, len as nat, vidmem, at as nat);
        }
        let at64 = at as u64;
        if r.va > u64::MAX - at64 {
            return Err(FwdFault::Address(AddressFault::Malformed { pdb, va: r.va }));
        }
        let va = r.va + at64;
        let e = match table.binding_at(va) {
            Some(e) => e,
            None => {
                return Err(FwdFault::Address(AddressFault::Miss { pdb, va }));
            },
        };
        let ap = e.binding.aperture;
        let vid = match ap {
            Aperture::SysmemCoherent | Aperture::SysmemNonCoherent => false,
            Aperture::Vidmem => match vidmem {
                VidmemRoute::OwnFramebuffer => true,
                VidmemRoute::Refuse => {
                    return Err(FwdFault::PushbufferAperture { va, aperture: ap });
                },
            },
            Aperture::Peer => {
                return Err(FwdFault::PushbufferAperture { va, aperture: ap });
            },
        };
        let off = va - e.start;
        if e.binding.phys > u64::MAX - off {
            return Err(FwdFault::Address(AddressFault::Malformed { pdb, va }));
        }
        let phys = e.binding.phys + off;
        let src = if vid {
            PushSrc::Fb { phys, va }
        } else {
            PushSrc::Gpa(phys)
        };
        let rest = e.len - off;
        let remain = (len - at) as u64;
        let take: usize = if rest < remain {
            rest as usize
        } else {
            len - at
        };
        if out.len() == MAX_PUSH_SPANS {
            return Err(FwdFault::PushTooFragmented { va: r.va, len: r.len });
        }
        let run = PushRun { src, at, take };
        proof {
            assert(push_step(t, pdb, *r, len as nat, vidmem, at as nat) == Ok::<PushRun, FwdFault>(
                run,
            ));
            assert(out@.push(run) =~= out@ + seq![run]);
            match push_walk(t, pdb, *r, len as nat, vidmem, (at + take) as nat, (out.len() + 1) as nat) {
                Ok(s) => {
                    assert(out@ + (seq![run] + s) =~= out@.push(run) + s);
                },
                Err(_) => {},
            }
        }
        out.push(run);
        at = at + take;
    }
    proof {
        assert(out@ + Seq::<PushRun>::empty() =~= out@);
    }
    Ok(out)
}


/// Whether `runs` cover the offsets `[from, to)` in order, each run starting where the
/// previous one ended and none empty.
pub open spec fn tiles(runs: Seq<PushRun>, from: nat, to: nat) -> bool
    decreases runs.len(),
{
    if runs.len() == 0 {
        from == to
    } else {
        runs[0].at == from && runs[0].take > 0 && tiles(
            runs.drop_first(),
            (from + runs[0].take) as nat,
            to,
        )
    }
}

proof fn lemma_walk_tiles(
    t: Seq<TableEntry>,
    pdb: u64,
    r: PushRange,
    len: nat,
    route: VidmemRoute,
    at: nat,
    count: nat,
)
    requires
        at <= len,
        len <= usize::MAX,
    ensures
        push_walk(t, pdb, r, len, route, at, count) matches Ok(runs) ==> {
            &&& tiles(runs, at, len)
            &&& count + runs.len() <= MAX_PUSH_SPANS || runs.len() == 0
            &&& forall|k: int|
                0 <= k < runs.len() ==> push_step(t, pdb, r, len, route, #[trigger] runs[k].at as nat)
                    == Ok::<PushRun, FwdFault>(runs[k])
        },
    decreases len - at,
{
    if at < len {
        lemma_push_step_advances(t, pdb, r, len, route, at);
        match push_step(t, pdb, r, len, route, at) {
            Ok(run) => {
                if count < MAX_PUSH_SPANS {
                    let next = (at + run.take) as nat;
                    lemma_walk_tiles(t, pdb, r, len, route, next, count + 1);
                    match push_walk(t, pdb, r, len, route, next, count + 1) {
                        Ok(rest) => {
                            let runs = seq![run] + rest;
                            assert(runs.drop_first() =~= rest);
                            assert forall|k: int| 0 <= k < runs.len() implies push_step(
                                t,
                                pdb,
                                r,
                                len,
                                route,
                                #[trigger] runs[k].at as nat,
                            ) == Ok::<PushRun, FwdFault>(runs[k]) by {
                                if k > 0 {
                                    assert(runs[k] == rest[k - 1]);
                                }
                            }
                        },
                        Err(_) => {},
                    }
                }
            },
            Err(_) => {},
        }
    }
}

/// A translated range is covered exactly: the runs tile `[0, len)` in order, there are at
/// most [`MAX_PUSH_SPANS`] of them, and each is the translation of the byte it starts at.
pub proof fn law_push_runs_tile_the_range(
    t: Seq<TableEntry>,
    pdb: u64,
    r: PushRange,
    len: nat,
    route: VidmemRoute,
)
    requires
        len <= usize::MAX,
    ensures
        push_walk(t, pdb, r, len, route, 0, 0) matches Ok(runs) ==> {
            &&& tiles(runs, 0, len)
            &&& runs.len() <= MAX_PUSH_SPANS
            &&& forall|k: int|
                0 <= k < runs.len() ==> push_step(t, pdb, r, len, route, #[trigger] runs[k].at as nat)
                    == Ok::<PushRun, FwdFault>(runs[k])
        },
{
    lemma_walk_tiles(t, pdb, r, len, route, 0, 0);
}


/// Whether `e` meets the range `[va, va+len)`.
pub open spec fn meets(e: TableEntry, va: u64, len: u64) -> bool {
    e.start < va + len && va < e.start + e.len
}

/// Why binding `[va, va+len)` in address space `pdb` is refused, if it is: an empty range
/// or one running off the address space is malformed, and a range meeting a bound one
/// overlaps it.
pub open spec fn bind_refusal(t: Seq<TableEntry>, pdb: u64, va: u64, len: u64) -> Option<AddressFault> {
    if len == 0 || va + len > u64::MAX + 1 {
        Some(AddressFault::Malformed { pdb, va })
    } else if exists|i: int| 0 <= i < t.len() && meets(#[trigger] t[i], va, len) {
        Some(AddressFault::Overlap { pdb, va })
    } else {
        None
    }
}

impl BindingTable {
    /// Why binding `[va, va+len)` would be refused (see [`bind_refusal`]).
    pub fn refuses_bind(&self, pdb: u64, va: u64, len: u64) -> (r: Option<AddressFault>)
        ensures
            r == bind_refusal(self.entries@, pdb, va, len),
    {
        if len == 0 || va > u64::MAX - (len - 1) {
            return Some(AddressFault::Malformed { pdb, va });
        }
        let mut i: usize = 0;
        while i < self.entries.len()
            invariant
                i <= self.entries.len(),
                len > 0,
                va + len <= u64::MAX + 1,
                forall|j: int| 0 <= j < i ==> !meets(#[trigger] self.entries@[j], va, len),
            decreases self.entries.len() - i,
        {
            let e = self.entries[i];
            let before = (e.start as u128) < (va as u128) + (len as u128);
            let after = (va as u128) < (e.start as u128) + (e.len as u128);
            if before && after {
                return Some(AddressFault::Overlap { pdb, va });
            }
            i = i + 1;
        }
        None
    }

    /// Bind `[va, va+len)` to `binding` (see [`bind_refusal`]); a refused bind leaves the
    /// table as it was.
    pub fn bind(&mut self, pdb: u64, va: u64, len: u64, binding: Binding) -> (r: Result<(), AddressFault>)
        ensures
            match bind_refusal(old(self).entries@, pdb, va, len) {
                Some(f) => r == Err::<(), AddressFault>(f) && *final(self) == *old(self),
                None => r is Ok && final(self).entries@ == old(self).entries@.push(
                    TableEntry { start: va, len, binding },
                ),
            },
    {
        if let Some(f) = self.refuses_bind(pdb, va, len) {
            return Err(f);
        }
        self.entries.push(TableEntry { start: va, len, binding });
        Ok(())
    }
}


/// A range appended where no bound range covered `va`, and covering it, is what a lookup
/// of `va` finds.
pub proof fn lemma_appended_cover(s: Seq<TableEntry>, e: TableEntry, va: u64, i: int)
    requires
        0 <= i <= s.len(),
        forall|j: int| 0 <= j < s.len() ==> !covers(#[trigger] s[j], va),
        covers(e, va),
    ensures
        first_cover(s.push(e), va, i) == Some(e),
    decreases s.len() - i,
{
    let t = s.push(e);
    if i < s.len() {
        assert(t[i] == s[i]);
        lemma_appended_cover(s, e, va, i + 1);
    } else {
        assert(t[i] == e);
    }
}

/// A bind is read back: once `[va, va+len)` has been bound, every address in it resolves
/// to the new binding, at its offset into the range.
pub proof fn law_bound_range_resolves(
    t: Seq<TableEntry>,
    pdb: u64,
    va: u64,
    len: u64,
    binding: Binding,
    off: u64,
)
    requires
        bind_refusal(t, pdb, va, len) is None,
        off < len,
    ensures
        spec_resolve(t.push(TableEntry { start: va, len, binding }), pdb, (va + off) as u64) == Ok::<
            (Binding, u64),
            AddressFault,
        >((binding, off)),
{
    let a = (va + off) as u64;
    let e = TableEntry { start: va, len, binding };
    assert forall|j: int| 0 <= j < t.len() implies !covers(#[trigger] t[j], a) by {
        assert(!meets(t[j], va, len));
    }
    lemma_appended_cover(t, e, a, 0);
}


/// One piece of a range cut at the table's boundaries: where it starts, how long it is,
/// and the binding covering it with the piece's offset into that binding — or nothing, for
/// a piece no binding covers.
#[derive(Debug, Clone, Copy, PartialEq, Eq)]
pub struct Span {
    /// The piece's first address.
    pub start: u64,
    /// Its length.
    pub len: u64,
    /// The binding and the offset into it, where one covers the piece.
    pub bound: Option<(Binding, u64)>,
}

/// The top of the address space, as a bound.
pub open spec fn top() -> int {
    0x1_0000_0000_0000_0000
}

/// The smallest start above `pos` among the bindings from position `i` on — the top of the
/// address space when there is none.
pub open spec fn next_start(s: Seq<TableEntry>, pos: int, i: int) -> int
    decreases s.len() - i,
{
    if i < 0 || i >= s.len() {
        top()
    } else {
        let r = next_start(s, pos, i + 1);
        if s[i].start > pos && s[i].start < r {
            s[i].start as int
        } else {
            r
        }
    }
}

/// The piece starting at `pos` of a range ending at `end`: to the end of the covering
/// binding, or through the gap to the next binding, but never past `end`.
pub open spec fn span_at(t: Seq<TableEntry>, pos: int, end: int) -> Span {
    match spec_binding_at(t, pos as u64) {
        Some(e) => {
            let stop = if e.start + e.len < end { e.start + e.len } else { end };
            Span { start: pos as u64, len: (stop - pos) as u64, bound: Some((e.binding, (pos - e.start) as u64)) }
        },
        None => {
            let n = next_start(t, pos, 0);
            let stop = if n < end { n } else { end };
            Span { start: pos as u64, len: (stop - pos) as u64, bound: None }
        },
    }
}

/// The pieces of `[pos, end)`, in order.
pub open spec fn spans_from(t: Seq<TableEntry>, pos: int, end: int) -> Seq<Span>
    decreases end - pos,
{
    if pos >= end {
        Seq::empty()
    } else {
        let sp = span_at(t, pos, end);
        if sp.len == 0 || pos + sp.len > end {
            Seq::empty()
        } else {
            seq![sp] + spans_from(t, pos + sp.len, end)
        }
    }
}

/// Where a range of `len` bytes at `addr` effectively ends: a range running off the top of
/// the address space is clipped there, never wrapped.
pub open spec fn clipped_end(addr: u64, len: u64) -> int {
    if addr + len < top() {
        addr + len
    } else {
        top()
    }
}

/// The range `[addr, addr+len)` cut into the maximal pieces over which the table's answer
/// is constant, in ascending order.
pub open spec fn spec_spans(t: Seq<TableEntry>, addr: u64, len: u64) -> Seq<Span> {
    spans_from(t, addr as int, clipped_end(addr, len))
}

/// [`next_start`] is above `pos`, and is the start of a binding unless it is the top.
pub proof fn lemma_next_start(s: Seq<TableEntry>, pos: int, i: int)
    requires
        pos < top(),
    ensures
        next_start(s, pos, i) > pos,
        next_start(s, pos, i) <= top(),
    decreases s.len() - i,
{
    if 0 <= i < s.len() {
        lemma_next_start(s, pos, i + 1);
    }
}

/// A piece inside the address space starts where asked and is not empty.
pub proof fn lemma_span_at(t: Seq<TableEntry>, pos: int, end: int)
    requires
        0 <= pos < end <= top(),
        end - pos <= u64::MAX,
    ensures
        span_at(t, pos, end).start == pos,
        pos + span_at(t, pos, end).len <= end,
        span_at(t, pos, end).len > 0,
{
    lemma_first_cover_covers(t, pos as u64, 0);
    lemma_next_start(t, pos, 0);
}

impl BindingTable {
    /// The smallest binding start above `pos`, or the top of the address space.
    pub fn next_start_after(&self, pos: u128) -> (r: u128)
        requires
            pos < top(),
        ensures
            r == next_start(self.entries@, pos as int, 0),
    {
        let mut r: u128 = 0x1_0000_0000_0000_0000;
        let mut i: usize = self.entries.len();
        while i > 0
            invariant
                i <= self.entries.len(),
                r == next_start(self.entries@, pos as int, i as int),
            decreases i,
        {
            i = i - 1;
            let st = self.entries[i].start as u128;
            if st > pos && st < r {
                r = st;
            }
        }
        r
    }

    /// Cut `[addr, addr+len)` at the table's boundaries (see [`spec_spans`]).
    pub fn spans(&self, addr: u64, len: u64) -> (r: Vec<Span>)
        ensures
            r@ == spec_spans(self.entries@, addr, len),
    {
        let sum = (addr as u128) + (len as u128);
        let end: u128 = if sum < 0x1_0000_0000_0000_0000 {
            sum
        } else {
            0x1_0000_0000_0000_0000
        };
        let mut out: Vec<Span> = Vec::new();
        let mut pos: u128 = addr as u128;
        while pos < end
            invariant
                addr <= pos <= end,
                end <= addr + len,
                end == clipped_end(addr, len),
                end <= top(),
                spans_from(self.entries@, addr as int, end as int) == out@ + spans_from(self.entries@, pos as int, end as int),
            decreases end - pos,
        {
            proof {
                lemma_span_at(self.entries@, pos as int, end as int);
                lemma_next_start(self.entries@, pos as int, 0);
                lemma_first_cover_covers(self.entries@, pos as u64, 0);
            }
            let at = pos as u64;
            let sp = match self.binding_at(at) {
                Some(e) => {
                    let e_end = (e.start as u128) + (e.len as u128);
                    let stop = if e_end < end {
                        e_end
                    } else {
                        end
                    };
                    Span { start: at, len: (stop - pos) as u64, bound: Some((e.binding, at - e.start)) }
                },
                None => {
                    let n = self.next_start_after(pos);
                    let stop = if n < end {
                        n
                    } else {
                        end
                    };
                    Span { start: at, len: (stop - pos) as u64, bound: None }
                },
            };
            proof {
                assert(sp == span_at(self.entries@, pos as int, end as int));
                assert(out@.push(sp) + spans_from(self.entries@, pos + sp.len, end as int) =~= out@ + (seq![sp]
                    + spans_from(self.entries@, pos + sp.len, end as int)));
            }
            out.push(sp);
            pos = pos + (sp.len as u128);
        }
        proof {
            assert(out@ + Seq::<Span>::empty() =~= out@);
        }
        out
    }
}


/// Why a region's kind could not be decided truthfully at a bind.
#[derive(Debug, Clone, Copy, PartialEq, Eq)]
pub enum RegionKindFault {
    /// A blank host twin of memory the guest reaches another way may not be mapped at a
    /// real GPU address: the guest would read one memory and the engine another.
    FakeFbAtRealGpuVa,
    /// Another GPU's memory has no kind here.
    PeerHasNoKind,
}

/// The binding of host memory placed at the guest's own address, or why it cannot be one:
/// a shadowing backing is refused outright, and a peer aperture has no kind.
pub open spec fn spec_real_gpu_memory(phys: u64, aperture: Aperture, host: HostMapping) -> Result<
    Binding,
    RegionKindFault,
> {
    if host.bytes == BackingBytes::ShadowsGuestMemory {
        Err(RegionKindFault::FakeFbAtRealGpuVa)
    } else if aperture == Aperture::Peer {
        Err(RegionKindFault::PeerHasNoKind)
    } else {
        Ok(Binding { phys, aperture, kind: RegionKind::RealGpuMemory, host: Some(host) })
    }
}

/// Make the binding of host memory at the guest's own address (see
/// [`spec_real_gpu_memory`]) — the one way a binding comes to carry a host object.
pub fn real_gpu_memory(phys: u64, aperture: Aperture, host: HostMapping) -> (r: Result<
    Binding,
    RegionKindFault,
>)
    ensures
        r == spec_real_gpu_memory(phys, aperture, host),
{
    match host.bytes {
        BackingBytes::ShadowsGuestMemory => {
            return Err(RegionKindFault::FakeFbAtRealGpuVa);
        },
        _ => {},
    }
    match aperture {
        Aperture::Peer => Err(RegionKindFault::PeerHasNoKind),
        _ => Ok(Binding { phys, aperture, kind: RegionKind::RealGpuMemory, host: Some(host) }),
    }
}

/// The position at or after `i` of the first bound range starting at `va`.
pub open spec fn start_pos(t: Seq<TableEntry>, va: u64, i: int) -> Option<int>
    decreases t.len() - i,
{
    if i < 0 || i >= t.len() {
        None
    } else if t[i].start == va {
        Some(i)
    } else {
        start_pos(t, va, i + 1)
    }
}

/// The table with the range starting at `va` removed, where there is one.
pub open spec fn spec_unbind(t: Seq<TableEntry>, va: u64) -> Seq<TableEntry> {
    match start_pos(t, va, 0) {
        Some(k) => t.remove(k),
        None => t,
    }
}

/// What [`start_pos`] finds starts at `va`.
pub proof fn lemma_start_pos(t: Seq<TableEntry>, va: u64, i: int)
    ensures
        start_pos(t, va, i) matches Some(k) ==> 0 <= i <= k < t.len() && t[k].start == va,
    decreases t.len() - i,
{
    if 0 <= i < t.len() && t[i].start != va {
        lemma_start_pos(t, va, i + 1);
    }
}

impl BindingTable {
    /// Remove the range bound at `va`, handing back its length and binding.
    pub fn unbind(&mut self, va: u64) -> (r: Option<(u64, Binding)>)
        ensures
            final(self).entries@ == spec_unbind(old(self).entries@, va),
            match start_pos(old(self).entries@, va, 0) {
                Some(k) => r == Some((old(self).entries@[k].len, old(self).entries@[k].binding)),
                None => r is None,
            },
    {
        proof {
            lemma_start_pos(self.entries@, va, 0);
        }
        let mut i: usize = 0;
        while i < self.entries.len()
            invariant
                i <= self.entries.len(),
                self.entries@ == old(self).entries@,
                start_pos(self.entries@, va, 0) == start_pos(self.entries@, va, i as int),
            decreases self.entries.len() - i,
        {
            if self.entries[i].start == va {
                let e = self.entries.remove(i);
                return Some((e.len, e.binding));
            }
            i = i + 1;
        }
        None
    }
}

} // verus!
