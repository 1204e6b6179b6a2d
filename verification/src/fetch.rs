//! **The fetch phase: a planned read's bytes.** A plan names, run by run, where each slice
//! of a ring or pushbuffer range lives — a guest-physical address or an offset into our own
//! emulated framebuffer. Fetching reads the runs in plan order into one zeroed buffer per
//! range, and refuses at the first run that cannot be read.
//!
//! Guest RAM is read by the embedding before the fetch, one result per guest-physical run;
//! the framebuffer is read during the fetch, through [`FbBytes`].
use crate::aperture::Aperture;
use crate::forwarding::FwdFault;
use crate::plans::{PlannedRange, PushPlan, RingPlan};
use crate::routes::VidmemRoute;
use crate::table::{law_push_runs_tile_the_range, push_walk, tiles, PushRange, PushRun, PushSrc, TableEntry};
use vstd::prelude::*;

verus! {

/// The bytes of our own emulated framebuffer, and whether a page was ever written.
///
/// Residency, not bytes, tells a never-written page from one written with zeros: a store
/// answers an unwritten address with zeros, so only [`FbBytes::page_written`] can tell.
pub trait FbBytes {
    /// Fill `buf` from framebuffer-physical address `phys`; `false` if this store does not
    /// back the range at all.
    fn read(&mut self, phys: u64, buf: &mut Vec<u8>) -> (ok: bool)
        ensures
            final(buf)@.len() == old(buf)@.len(),
    ;

    /// Was the page containing `phys` ever written? `None` from a store that cannot tell,
    /// which is unmeasured and never a no.
    fn page_written(&self, phys: u64) -> Option<bool>;
}

/// A shared, long-lived source of our own framebuffer's bytes — what a device holds, as
/// opposed to [`FbBytes`], which is what one read borrows. Holding one is what turns the
/// framebuffer route on.
pub trait FbSource: Send + Sync {
    /// Fill `buf` from framebuffer-physical address `phys`; `false` if unbacked.
    fn read(&self, phys: u64, buf: &mut Vec<u8>) -> (ok: bool)
        ensures
            final(buf)@.len() == old(buf)@.len(),
    ;

    /// Was the page containing `phys` ever written? `None` = cannot tell.
    fn page_written(&self, phys: u64) -> Option<bool>;
}

/// One read's borrow of an [`FbSource`].
pub struct FbSourceRef<'a, S: FbSource>(pub &'a S);

impl<'a, S: FbSource> FbBytes for FbSourceRef<'a, S> {
    fn read(&mut self, phys: u64, buf: &mut Vec<u8>) -> (ok: bool) {
        self.0.read(phys, buf)
    }

    fn page_written(&self, phys: u64) -> (r: Option<bool>)
        ensures
            call_ensures(S::page_written, (self.0, phys), r),
    {
        self.0.page_written(phys)
    }
}

/// Why a guest-physical read failed, as the VMM reports it.
#[derive(Debug, Clone, Copy, PartialEq, Eq)]
pub enum GuestReadError {
    /// The address is not guest RAM.
    NonRamGpa {
        /// The refused address.
        gpa: u64,
    },
    /// The address is malformed or outside the guest.
    BadGpa {
        /// The refused address.
        gpa: u64,
    },
    /// Any other refusal.
    Other,
}

/// The fault a guest read's refusal becomes: a non-RAM address keeps its own name, since it
/// is the security-relevant one; every other refusal is a failed read.
pub open spec fn spec_guest_read_fault(e: GuestReadError, gpa: u64) -> FwdFault {
    match e {
        GuestReadError::NonRamGpa { gpa: at } => FwdFault::NonRamGpa { gpa: at },
        GuestReadError::BadGpa { gpa: at } => FwdFault::GpaRead { gpa: at },
        GuestReadError::Other => FwdFault::GpaRead { gpa },
    }
}

/// The fault a refused read of `gpa` becomes.
pub fn guest_read_fault(e: GuestReadError, gpa: u64) -> (f: FwdFault)
    ensures
        f == spec_guest_read_fault(e, gpa),
{
    match e {
        GuestReadError::NonRamGpa { gpa: at } => FwdFault::NonRamGpa { gpa: at },
        GuestReadError::BadGpa { gpa: at } => FwdFault::GpaRead { gpa: at },
        GuestReadError::Other => FwdFault::GpaRead { gpa },
    }
}

/// What the embedding read of guest RAM for one run: the run's bytes, or the refusal.
/// For a framebuffer run the entry is not consulted.
pub type GuestRead = Result<Vec<u8>, GuestReadError>;

/// Every run lies inside a buffer of `len` bytes.
pub open spec fn runs_fit(runs: Seq<PushRun>, len: nat) -> bool {
    forall|k: int| 0 <= k < runs.len() ==> #[trigger] runs[k].at + runs[k].take <= len
}

/// The guest reads line up with the runs: one per run, and each guest-physical run's bytes
/// are exactly as long as the run.
pub open spec fn reads_match(runs: Seq<PushRun>, guest: Seq<GuestRead>) -> bool {
    &&& guest.len() == runs.len()
    &&& forall|k: int|
        0 <= k < runs.len() && #[trigger] runs[k].src is Gpa && guest[k] is Ok
            ==> guest[k]->Ok_0@.len() == runs[k].take
}

/// The refusal a run meets whatever the framebuffer store answers: a guest read that
/// failed, or a framebuffer run with no store to serve it.
pub open spec fn run_refusal(run: PushRun, g: GuestRead, fb: bool) -> Option<FwdFault> {
    match run.src {
        PushSrc::Gpa(gpa) => match g {
            Err(e) => Some(spec_guest_read_fault(e, gpa)),
            Ok(_) => None,
        },
        PushSrc::Fb { phys, va } => if fb {
            None
        } else {
            Some(FwdFault::PushbufferAperture { va, aperture: Aperture::Vidmem })
        },
    }
}

/// A refusal the store itself gave for a framebuffer run: it did not back the range, or
/// (where the residency gate is on) the page was never written.
pub open spec fn store_refusal(run: PushRun, f: FwdFault, gate: bool) -> bool {
    match run.src {
        PushSrc::Fb { phys, va } => f == (FwdFault::PushbufferAperture {
            va,
            aperture: Aperture::Vidmem,
        }) || (gate && f == (FwdFault::RingFbNeverWritten { va, phys })),
        PushSrc::Gpa(_) => false,
    }
}

/// None of the first `upto` runs meets a refusal of its own.
pub open spec fn clear_upto(runs: Seq<PushRun>, guest: Seq<GuestRead>, fb: bool, upto: int) -> bool {
    forall|j: int| 0 <= j < upto ==> #[trigger] run_refusal(runs[j], guest[j], fb) is None
}

/// Runs `k` and `j` do not overlap.
pub open spec fn disjoint(a: PushRun, b: PushRun) -> bool {
    a.at + a.take <= b.at || b.at + b.take <= a.at
}

/// No run after `k` (among the first `upto`) overlaps it.
pub open spec fn unshadowed(runs: Seq<PushRun>, k: int, upto: int) -> bool {
    forall|j: int| k < j < upto ==> disjoint(runs[k], #[trigger] runs[j])
}

/// Byte `p` lies in none of the first `upto` runs.
pub open spec fn uncovered(runs: Seq<PushRun>, p: int, upto: int) -> bool {
    forall|j: int| 0 <= j < upto ==> !(#[trigger] runs[j].at <= p && p < runs[j].at + runs[j].take)
}

/// The buffer after the first `upto` runs were read into a zeroed buffer of `len` bytes: a
/// byte no run covers is zero, and a guest-physical run no later run overwrites holds the
/// guest's bytes.
pub open spec fn filled(
    len: nat,
    runs: Seq<PushRun>,
    guest: Seq<GuestRead>,
    upto: int,
    buf: Seq<u8>,
) -> bool {
    &&& buf.len() == len
    &&& forall|p: int| 0 <= p < len && uncovered(runs, p, upto) ==> #[trigger] buf[p] == 0u8
    &&& forall|k: int, q: int|
        #![trigger runs[k], buf[runs[k].at + q]]
        0 <= k < upto && runs[k].src is Gpa && unshadowed(runs, k, upto) && 0 <= q
            < runs[k].take ==> buf[runs[k].at + q] == guest[k]->Ok_0@[q]
}

/// What a fetch of one range that returned `buf` promises.
pub open spec fn fetched(
    len: nat,
    runs: Seq<PushRun>,
    guest: Seq<GuestRead>,
    fb: bool,
    buf: Seq<u8>,
) -> bool {
    &&& clear_upto(runs, guest, fb, runs.len() as int)
    &&& filled(len, runs, guest, runs.len() as int, buf)
}

/// What a fetch of one range that refused with `f` promises: some run refused, and every
/// run before it was clear.
pub open spec fn refused(
    runs: Seq<PushRun>,
    guest: Seq<GuestRead>,
    fb: bool,
    gate: bool,
    f: FwdFault,
) -> bool {
    exists|k: int|
        0 <= k < runs.len() && clear_upto(runs, guest, fb, k) && (run_refusal(
            #[trigger] runs[k],
            guest[k],
            fb,
        ) == Some(f) || (fb && store_refusal(runs[k], f, gate)))
}

/// The exact outcome of fetching one range, given what was read.
pub open spec fn fetch_outcome(
    len: nat,
    runs: Seq<PushRun>,
    guest: Seq<GuestRead>,
    fb: bool,
    gate: bool,
    r: Result<Vec<u8>, FwdFault>,
) -> bool {
    &&& match r {
        Ok(buf) => fetched(len, runs, guest, fb, buf@),
        Err(f) => refused(runs, guest, fb, gate, f),
    }
    &&& !fb ==> (r is Ok <==> clear_upto(runs, guest, fb, runs.len() as int))
}

/// Write `src` into `buf` at `at`, leaving every other byte as it was.
fn write_at(buf: &mut Vec<u8>, at: usize, src: &Vec<u8>)
    requires
        at + src@.len() <= old(buf)@.len(),
    ensures
        final(buf)@.len() == old(buf)@.len(),
        forall|p: int|
            0 <= p < old(buf)@.len() ==> #[trigger] final(buf)@[p] == if at <= p < at + src@.len() {
                src@[p - at]
            } else {
                old(buf)@[p]
            },
{
    let n = buf.len();
    let mut i: usize = 0;
    while i < src.len()
        invariant
            n == old(buf)@.len(),
            i <= src@.len(),
            at + src@.len() <= buf@.len(),
            buf@.len() == old(buf)@.len(),
            forall|p: int|
                0 <= p < old(buf)@.len() ==> #[trigger] buf@[p] == if at <= p < at + i {
                    src@[p - at]
                } else {
                    old(buf)@[p]
                },
        decreases src@.len() - i,
    {
        buf.set(at + i, src[i]);
        i = i + 1;
    }
}

/// Read `runs` into a zeroed buffer of `len` bytes, in order, refusing at the first run
/// that cannot be read. With `gate` on, a framebuffer page the store says was never written
/// is refused before its bytes are read: its zeros would be indistinguishable from a quiet
/// ring's.
fn fetch_runs<F: FbBytes>(
    len: usize,
    runs: &Vec<PushRun>,
    guest: &Vec<GuestRead>,
    fb: &mut Option<&mut F>,
    gate: bool,
) -> (r: Result<Vec<u8>, FwdFault>)
    requires
        runs_fit(runs@, len as nat),
        reads_match(runs@, guest@),
    ensures
        fetch_outcome(len as nat, runs@, guest@, (*old(fb)) is Some, gate, r),
        (*final(fb)) is Some == (*old(fb)) is Some,
{
    let ghost fbp = (*fb) is Some;
    let mut buf: Vec<u8> = vec![0u8; len];
    let mut i: usize = 0;
    while i < runs.len()
        invariant
            i <= runs@.len(),
            runs_fit(runs@, len as nat),
            reads_match(runs@, guest@),
            fbp == (*fb) is Some,
            fbp == (*old(fb)) is Some,
            clear_upto(runs@, guest@, fbp, i as int),
            filled(len as nat, runs@, guest@, i as int, buf@),
        decreases runs@.len() - i,
    {
        let run = runs[i];
        let ghost old_buf = buf@;
        assert(run.at + run.take <= len);
        match run.src {
            PushSrc::Gpa(gpa) => {
                match &guest[i] {
                    Ok(bytes) => {
                        write_at(&mut buf, run.at, bytes);
                    },
                    Err(e) => {
                        let f = guest_read_fault(*e, gpa);
                        assert(run_refusal(runs@[i as int], guest@[i as int], fbp) == Some(f));
                        return Err(f);
                    },
                }
            },
            PushSrc::Fb { phys, va } => {
                match fb {
                    None => {
                        let f = FwdFault::PushbufferAperture { va, aperture: Aperture::Vidmem };
                        assert(run_refusal(runs@[i as int], guest@[i as int], fbp) == Some(f));
                        return Err(f);
                    },
                    Some(store) => {
                        if gate {
                            match store.page_written(phys) {
                                Some(false) => {
                                    let f = FwdFault::RingFbNeverWritten { va, phys };
                                    assert(store_refusal(runs@[i as int], f, gate));
                                    return Err(f);
                                },
                                _ => {},
                            }
                        }
                        let mut tmp: Vec<u8> = vec![0u8; run.take];
                        let ok = store.read(phys, &mut tmp);
                        if !ok {
                            let f = FwdFault::PushbufferAperture { va, aperture: Aperture::Vidmem };
                            assert(store_refusal(runs@[i as int], f, gate));
                            return Err(f);
                        }
                        write_at(&mut buf, run.at, &tmp);
                    },
                }
            },
        }
        proof {
            assert forall|p: int|
                0 <= p < len && uncovered(runs@, p, i + 1) implies #[trigger] buf@[p] == 0u8 by {
                assert(!(runs@[i as int].at <= p && p < runs@[i as int].at + runs@[i as int].take));
                assert(uncovered(runs@, p, i as int));
                assert(old_buf[p] == 0u8);
            }
            assert forall|k: int, q: int|
                #![trigger runs@[k], buf@[runs@[k].at + q]]
                0 <= k < i + 1 && runs@[k].src is Gpa && unshadowed(runs@, k, i + 1) && 0 <= q
                    < runs@[k].take implies buf@[runs@[k].at + q] == guest@[k]->Ok_0@[q] by {
                if k < i {
                    assert(disjoint(runs@[k], runs@[i as int]));
                    assert(unshadowed(runs@, k, i as int));
                    assert(old_buf[runs@[k].at + q] == guest@[k]->Ok_0@[q]);
                }
            }
            assert(clear_upto(runs@, guest@, fbp, i + 1));
        }
        i = i + 1;
    }
    Ok(buf)
}

/// The bytes of a ring read: the runs of `plan`, read in order into one buffer of
/// `plan.len` bytes.
///
/// A framebuffer run is read only if the store is handed in; its page is refused as never
/// written when the store says so, before its bytes are read, and a store that does not
/// back the run refuses it by aperture. With no store, the outcome is fixed by the plan and
/// the guest reads alone: the first run that refuses decides the fault, and if none
/// refuses the buffer holds each guest read at its run and zeros elsewhere.
pub fn fetch_ring_bytes<F: FbBytes>(
    plan: &RingPlan,
    guest: &Vec<GuestRead>,
    fb: Option<&mut F>,
) -> (r: Result<Vec<u8>, FwdFault>)
    requires
        runs_fit(plan.runs@, plan.len as nat),
        reads_match(plan.runs@, guest@),
    ensures
        fetch_outcome(plan.len as nat, plan.runs@, guest@, fb is Some, true, r),
{
    let mut fb = fb;
    fetch_runs(plan.len, &plan.runs, guest, &mut fb, true)
}

/// One pushbuffer read's bytes, per range, in plan order. Raw bytes and nothing else:
/// decoding needs the architecture's method codec.
#[derive(Debug, Clone, PartialEq, Eq)]
pub struct PushBytes {
    /// Each planned range's bytes.
    pub ranges: Vec<Vec<u8>>,
}

/// The guest reads line up with every range of a pushbuffer plan.
pub open spec fn plan_reads_match(ranges: Seq<PlannedRange>, guest: Seq<Vec<GuestRead>>) -> bool {
    &&& guest.len() == ranges.len()
    &&& forall|i: int|
        0 <= i < ranges.len() ==> runs_fit(#[trigger] ranges[i].runs@, ranges[i].len as nat)
            && reads_match(ranges[i].runs@, guest[i]@)
}

/// Range `i` of a pushbuffer plan meets no refusal of its own.
pub open spec fn range_clear(ranges: Seq<PlannedRange>, guest: Seq<Vec<GuestRead>>, fb: bool, i: int) -> bool {
    clear_upto(ranges[i].runs@, guest[i]@, fb, ranges[i].runs@.len() as int)
}

/// The bytes of a pushbuffer read: each planned range fetched in order, as a ring read is
/// but without the residency gate, stopping at the first range that refuses.
///
/// With no store, every framebuffer run refuses by aperture naming the guest's own address,
/// and the outcome is fixed by the plan and the guest reads alone.
pub fn fetch_pushbuffer<F: FbBytes>(
    plan: &PushPlan,
    guest: &Vec<Vec<GuestRead>>,
    store: Option<&mut F>,
) -> (r: Result<PushBytes, FwdFault>)
    requires
        plan_reads_match(plan.ranges@, guest@),
    ensures
        match r {
            Ok(pb) => pb.ranges@.len() == plan.ranges@.len() && forall|i: int|
                0 <= i < plan.ranges@.len() ==> fetched(
                    #[trigger] plan.ranges@[i].len as nat,
                    plan.ranges@[i].runs@,
                    guest@[i]@,
                    store is Some,
                    pb.ranges@[i]@,
                ),
            Err(f) => exists|i: int|
                0 <= i < plan.ranges@.len() && (forall|h: int|
                    0 <= h < i ==> #[trigger] range_clear(plan.ranges@, guest@, store is Some, h)) && refused(
                    #[trigger] plan.ranges@[i].runs@,
                    guest@[i]@,
                    store is Some,
                    false,
                    f,
                ),
        },
        store is None ==> (r is Ok <==> forall|i: int|
            0 <= i < plan.ranges@.len() ==> #[trigger] range_clear(plan.ranges@, guest@, false, i)),
{
    let ghost fbp = store is Some;
    let mut fb = store;
    let mut out: Vec<Vec<u8>> = Vec::new();
    let mut i: usize = 0;
    while i < plan.ranges.len()
        invariant
            i <= plan.ranges@.len(),
            plan_reads_match(plan.ranges@, guest@),
            fbp == fb is Some,
            fbp == (store is Some),
            out@.len() == i,
            forall|h: int| 0 <= h < i ==> #[trigger] range_clear(plan.ranges@, guest@, fbp, h),
            forall|h: int|
                0 <= h < i ==> fetched(
                    #[trigger] plan.ranges@[h].len as nat,
                    plan.ranges@[h].runs@,
                    guest@[h]@,
                    fbp,
                    out@[h]@,
                ),
        decreases plan.ranges@.len() - i,
    {
        let range = &plan.ranges[i];
        assert(runs_fit(plan.ranges@[i as int].runs@, plan.ranges@[i as int].len as nat));
        match fetch_runs(range.len, &range.runs, &guest[i], &mut fb, false) {
            Ok(buf) => {
                out.push(buf);
            },
            Err(f) => {
                assert(refused(plan.ranges@[i as int].runs@, guest@[i as int]@, fbp, false, f));
                assert(!fbp ==> !range_clear(plan.ranges@, guest@, false, i as int));
                assert(forall|h: int| 0 <= h < i ==> #[trigger] range_clear(plan.ranges@, guest@, fbp, h));
return Err(f);
            },
        }
        i = i + 1;
    }
    Ok(PushBytes { ranges: out })
}

/// Runs that tile `[from, to)` fit a buffer of `to` bytes, start no earlier than `from`,
/// and never overlap: every guest-physical run of a planned read keeps its bytes.
pub proof fn lemma_tiled_runs_fit(runs: Seq<PushRun>, from: nat, to: nat)
    requires
        tiles(runs, from, to),
    ensures
        from <= to,
        runs_fit(runs, to),
        forall|k: int| 0 <= k < runs.len() ==> from <= #[trigger] runs[k].at,
        forall|j: int, k: int|
            0 <= j < k < runs.len() ==> disjoint(#[trigger] runs[j], #[trigger] runs[k]),
    decreases runs.len(),
{
    if runs.len() > 0 {
        let rest = runs.drop_first();
        lemma_tiled_runs_fit(rest, (from + runs[0].take) as nat, to);
        assert forall|k: int| 0 <= k < runs.len() implies #[trigger] runs[k].at + runs[k].take
            <= to by {
            if k > 0 {
                assert(runs[k] == rest[k - 1]);
            }
        }
        assert forall|k: int| 0 <= k < runs.len() implies from <= #[trigger] runs[k].at by {
            if k > 0 {
                assert(runs[k] == rest[k - 1]);
            }
        }
        assert forall|j: int, k: int|
            0 <= j < k < runs.len() implies disjoint(#[trigger] runs[j], #[trigger] runs[k]) by {
            assert(runs[k] == rest[k - 1]);
            if j > 0 {
                assert(runs[j] == rest[j - 1]);
            }
        }
    }
}

/// A read translated through an address table can always be fetched: its runs fit the
/// buffer and never overlap, so each guest-physical run's bytes land intact.
pub proof fn law_walked_runs_are_fetchable(
    t: Seq<TableEntry>,
    pdb: u64,
    r: PushRange,
    len: nat,
    route: VidmemRoute,
)
    requires
        len <= usize::MAX,
    ensures
        push_walk(t, pdb, r, len, route, 0, 0) matches Ok(runs) ==> {
            &&& runs_fit(runs, len)
            &&& forall|j: int, k: int|
                0 <= j < k < runs.len() ==> disjoint(#[trigger] runs[j], #[trigger] runs[k])
        },
{
    law_push_runs_tile_the_range(t, pdb, r, len, route);
    if let Ok(runs) = push_walk(t, pdb, r, len, route, 0, 0) {
        lemma_tiled_runs_fit(runs, 0, len);
    }
}

/// Whether every run lies inside a buffer of `len` bytes — what a fetch requires of its
/// plan, for a caller that holds a plan it did not make.
pub fn check_runs_fit(runs: &Vec<PushRun>, len: usize) -> (r: bool)
    ensures
        r == runs_fit(runs@, len as nat),
{
    let mut i: usize = 0;
    while i < runs.len()
        invariant
            i <= runs@.len(),
            forall|k: int| 0 <= k < i ==> #[trigger] runs@[k].at + runs@[k].take <= len,
        decreases runs@.len() - i,
    {
        let run = runs[i];
        if run.at > len || run.take > len - run.at {
            return false;
        }
        i = i + 1;
    }
    true
}

} // verus!
