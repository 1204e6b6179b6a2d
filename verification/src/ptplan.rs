//! **Planning page-table decodes.** The guest's writes to its own page-table pages are the
//! signal that a mapping changed. A decode plan drains each address space's dirtied pages
//! into tasks — consuming the signal, so a page written again later is dirty again — and
//! defers a page whose level is not yet known. A sweep plan re-walks an address space from
//! its root when it has never been swept, when its last sweep was truncated, or when it
//! is dirty; a current picture is skipped.
use crate::aperture::Aperture;
use crate::routes::{spec_sweep_reason, sweep_reason, SweepReason};
use vstd::prelude::*;

verus! {

/// A page-table page, as far as the decoder needs it.
#[derive(Debug, Clone, Copy, PartialEq, Eq)]
pub struct PtPage {
    /// Its physical address.
    pub phys: u64,
    /// Where it lives.
    pub aperture: Aperture,
    /// Its level in the tree, the root being zero.
    pub level: u32,
    /// The first guest address it maps.
    pub vabase: u64,
}

/// One page to decode, in one address space.
#[derive(Debug, Clone, Copy, PartialEq, Eq)]
pub struct PtDecodeTask {
    /// The target GPU.
    pub gpu: u32,
    /// The address space.
    pub pdb: u64,
    /// The page.
    pub page: PtPage,
}

/// An address space's sweep history.
#[derive(Debug, Clone, Copy, PartialEq, Eq)]
pub struct SweepState {
    /// How many sweeps have completed.
    pub sweeps: u64,
    /// Whether the last sweep hit its budget.
    pub truncated: bool,
    /// Whether a page-table page it tracks was written since.
    pub dirty: bool,
}

/// The page-table facts of one address space.
#[derive(Debug, Clone, PartialEq, Eq)]
pub struct PtState {
    /// The target GPU.
    pub gpu: u32,
    /// The address space's PDB.
    pub pdb: u64,
    /// The page-table pages the guest wrote since the last plan, in order.
    pub pt_pages: Vec<u64>,
    /// The pages whose level is known, by physical address.
    pub pt_meta: Vec<(u64, PtPage)>,
    /// The pages seen written, as the reachability tracker's witnesses.
    pub witnessed: Vec<u64>,
    /// The sweep history.
    pub sweep: SweepState,
}

/// The root page of address space `pdb`: its PDB with the low twelve bits cleared.
pub open spec fn root_of(pdb: u64) -> u64 {
    pdb & !0xfffu64
}

/// The root page, as a task's page: vidmem, level zero, mapping from address zero.
pub open spec fn root_page(pdb: u64) -> PtPage {
    PtPage { phys: root_of(pdb), aperture: Aperture::Vidmem, level: 0, vabase: 0 }
}

/// The first known page at or after position `i` with physical address `page`.
pub open spec fn meta_from(s: Seq<(u64, PtPage)>, page: u64, i: int) -> Option<PtPage>
    decreases s.len() - i,
{
    if i < 0 || i >= s.len() {
        None
    } else if s[i].0 == page {
        Some(s[i].1)
    } else {
        meta_from(s, page, i + 1)
    }
}

/// What is known about `page` in `st`: the root always, any other page by its metadata.
pub open spec fn known_page(st: PtState, page: u64) -> Option<PtPage> {
    if page == root_of(st.pdb) {
        Some(root_page(st.pdb))
    } else {
        meta_from(st.pt_meta@, page, 0)
    }
}

/// The decode tasks and deferrals the dirtied pages `pages` of `st` become, in order.
pub open spec fn decode_pages(st: PtState, pages: Seq<u64>) -> (Seq<PtDecodeTask>, Seq<(u32, u64, u64)>)
    decreases pages.len(),
{
    if pages.len() == 0 {
        (Seq::empty(), Seq::empty())
    } else {
        let (t, d) = decode_pages(st, pages.drop_last());
        let page = pages.last();
        match known_page(st, page) {
            Some(p) => (t.push(PtDecodeTask { gpu: st.gpu, pdb: st.pdb, page: p }), d),
            None => (t, d.push((st.gpu, st.pdb, page))),
        }
    }
}

/// Whether any of `pages` is known in `st`.
pub open spec fn any_known(st: PtState, pages: Seq<u64>) -> bool {
    exists|i: int| 0 <= i < pages.len() && known_page(st, #[trigger] pages[i]) is Some
}

/// `set` with `x` added, where it is not already there.
pub open spec fn with_member(set: Seq<u64>, x: u64) -> Seq<u64> {
    if set.contains(x) {
        set
    } else {
        set.push(x)
    }
}

/// `set` with each of `xs` added in order.
pub open spec fn with_members(set: Seq<u64>, xs: Seq<u64>) -> Seq<u64>
    decreases xs.len(),
{
    if xs.len() == 0 {
        set
    } else {
        with_member(with_members(set, xs.drop_last()), xs.last())
    }
}

/// What a decode plan does to one address space: its dirtied pages are drained and
/// witnessed, and it is marked dirty where any of them was known.
pub open spec fn drained(old: PtState, new: PtState) -> bool {
    &&& new.gpu == old.gpu && new.pdb == old.pdb && new.pt_meta == old.pt_meta
    &&& new.pt_pages@.len() == 0
    &&& new.witnessed@ == with_members(old.witnessed@, old.pt_pages@)
    &&& new.sweep == (SweepState { dirty: old.sweep.dirty || any_known(old, old.pt_pages@), ..old.sweep })
}

/// The decode plan of the address spaces `s`, in order.
pub open spec fn decode_plan(s: Seq<PtState>) -> (Seq<PtDecodeTask>, Seq<(u32, u64, u64)>)
    decreases s.len(),
{
    if s.len() == 0 {
        (Seq::empty(), Seq::empty())
    } else {
        let (t, d) = decode_plan(s.drop_last());
        let (t1, d1) = decode_pages(s.last(), s.last().pt_pages@);
        (t + t1, d + d1)
    }
}

/// Drained dirtied pages, as decode tasks.
#[derive(Debug, Clone, PartialEq, Eq)]
pub struct PtDecodePlan {
    /// The pages to decode.
    pub tasks: Vec<PtDecodeTask>,
    /// The pages whose level is unknown, as `(gpu, pdb, page)`: dropped from the dirty
    /// set, to be reached again by a later sweep.
    pub deferred: Vec<(u32, u64, u64)>,
}

/// The known page `page`, by its metadata.
fn meta_of(meta: &Vec<(u64, PtPage)>, page: u64) -> (r: Option<PtPage>)
    ensures
        r == meta_from(meta@, page, 0),
{
    let mut i: usize = 0;
    while i < meta.len()
        invariant
            i <= meta.len(),
            meta_from(meta@, page, 0) == meta_from(meta@, page, i as int),
        decreases meta.len() - i,
    {
        if meta[i].0 == page {
            return Some(meta[i].1);
        }
        i = i + 1;
    }
    None
}

/// Record `x` as a member of `set`.
pub(crate) fn add_member(set: &mut Vec<u64>, x: u64)
    ensures
        final(set)@ == with_member(old(set)@, x),
{
    let mut i: usize = 0;
    while i < set.len()
        invariant
            i <= set.len(),
            set@ == old(set)@,
            forall|j: int| 0 <= j < i ==> set@[j] != x,
        decreases set.len() - i,
    {
        if set[i] == x {
            proof {
                assert(set@.contains(x));
            }
            return;
        }
        i = i + 1;
    }
    set.push(x);
}

/// Drain one address space's dirtied pages (see [`drained`] and [`decode_pages`]).
fn drain_one(st: &mut PtState, tasks: &mut Vec<PtDecodeTask>, deferred: &mut Vec<(u32, u64, u64)>)
    ensures
        drained(*old(st), *final(st)),
        final(tasks)@ == old(tasks)@ + decode_pages(*old(st), old(st).pt_pages@).0,
        final(deferred)@ == old(deferred)@ + decode_pages(*old(st), old(st).pt_pages@).1,
{
    let ghost st0 = *st;
    let mut dirty: Vec<u64> = Vec::new();
    std::mem::swap(&mut dirty, &mut st.pt_pages);
    let root = st.pdb & !0xfffu64;
    let ghost t0 = tasks@;
    let ghost d0 = deferred@;
    let mut i: usize = 0;
    while i < dirty.len()
        invariant
            i <= dirty.len(),
            dirty@ == st0.pt_pages@,
            root == root_of(st0.pdb),
            st.gpu == st0.gpu && st.pdb == st0.pdb && st.pt_meta == st0.pt_meta,
            st.pt_pages@.len() == 0,
            st.witnessed@ == with_members(st0.witnessed@, dirty@.subrange(0, i as int)),
            st.sweep == (SweepState {
                dirty: st0.sweep.dirty || any_known(st0, dirty@.subrange(0, i as int)),
                ..st0.sweep
            }),
            tasks@ == t0 + decode_pages(st0, dirty@.subrange(0, i as int)).0,
            deferred@ == d0 + decode_pages(st0, dirty@.subrange(0, i as int)).1,
        decreases dirty.len() - i,
    {
        let page = dirty[i];
        let ghost pre = dirty@.subrange(0, i as int);
        let ghost next = dirty@.subrange(0, i + 1);
        proof {
            assert(next.drop_last() =~= pre);
            assert(next.last() == page);
        }
        add_member(&mut st.witnessed, page);
        let known = if page == root {
            Some(PtPage { phys: root, aperture: Aperture::Vidmem, level: 0, vabase: 0 })
        } else {
            meta_of(&st.pt_meta, page)
        };
        proof {
            assert(known == known_page(st0, page));
        }
        match known {
            Some(p) => {
                st.sweep.dirty = true;
                tasks.push(PtDecodeTask { gpu: st.gpu, pdb: st.pdb, page: p });
                proof {
                    assert(any_known(st0, next)) by {
                        assert(next[i as int] == page);
                    }
                    assert(t0 + decode_pages(st0, next).0 =~= (t0 + decode_pages(st0, pre).0).push(
                        PtDecodeTask { gpu: st0.gpu, pdb: st0.pdb, page: p },
                    ));
                }
            },
            None => {
                deferred.push((st.gpu, st.pdb, page));
                proof {
                    assert(any_known(st0, next) == any_known(st0, pre)) by {
                        if any_known(st0, next) {
                            let w = choose|w: int| 0 <= w < next.len() && known_page(st0, #[trigger] next[w]) is Some;
                            if w < i {
                                assert(pre[w] == next[w]);
                            }
                        }
                        if any_known(st0, pre) {
                            let w = choose|w: int| 0 <= w < pre.len() && known_page(st0, #[trigger] pre[w]) is Some;
                            assert(next[w] == pre[w]);
                        }
                    }
                    assert(d0 + decode_pages(st0, next).1 =~= (d0 + decode_pages(st0, pre).1).push(
                        (st0.gpu, st0.pdb, page),
                    ));
                }
            },
        }
        i = i + 1;
    }
    proof {
        assert(dirty@.subrange(0, dirty@.len() as int) =~= dirty@);
    }
}

/// Plan decoding every dirtied page-table page of the address spaces `states`, in order
/// (see [`decode_plan`]), draining each space's dirty set (see [`drained`]).
pub fn plan_pt_decode(states: &mut Vec<PtState>) -> (r: PtDecodePlan)
    ensures
        final(states)@.len() == old(states)@.len(),
        forall|k: int| 0 <= k < old(states)@.len() ==> drained(old(states)@[k], #[trigger] final(states)@[k]),
        r.tasks@ == decode_plan(old(states)@).0,
        r.deferred@ == decode_plan(old(states)@).1,
{
    let ghost s0 = states@;
    let mut tasks: Vec<PtDecodeTask> = Vec::new();
    let mut deferred: Vec<(u32, u64, u64)> = Vec::new();
    let mut k: usize = 0;
    while k < states.len()
        invariant
            k <= states.len(),
            states@.len() == s0.len(),
            forall|j: int| 0 <= j < k ==> drained(s0[j], #[trigger] states@[j]),
            forall|j: int| k <= j < s0.len() ==> #[trigger] states@[j] == s0[j],
            tasks@ == decode_plan(s0.subrange(0, k as int)).0,
            deferred@ == decode_plan(s0.subrange(0, k as int)).1,
        decreases states.len() - k,
    {
        let ghost pre = s0.subrange(0, k as int);
        let ghost next = s0.subrange(0, k + 1);
        proof {
            assert(next.drop_last() =~= pre);
            assert(next.last() == s0[k as int]);
        }
        let mut st = states.remove(k);
        drain_one(&mut st, &mut tasks, &mut deferred);
        states.insert(k, st);
        k = k + 1;
    }
    proof {
        assert(s0.subrange(0, s0.len() as int) =~= s0);
    }
    PtDecodePlan { tasks, deferred }
}

/// Whole-address-space sweeps, one per space that needs one.
#[derive(Debug, Clone, PartialEq, Eq)]
pub struct PtSweepPlan {
    /// The sweeps, each from its space's root.
    pub tasks: Vec<PtDecodeTask>,
    /// Why each was planned, index for index.
    pub reasons: Vec<SweepReason>,
    /// How many spaces were current and skipped.
    pub skipped: usize,
}

/// Whether any dirtied page of `st` is one its sweep tracks: the root, or a known page.
pub open spec fn tracks_a_dirtied_page(st: PtState) -> bool {
    exists|i: int|
        0 <= i < st.pt_pages@.len() && (st.pt_pages@[i] == root_of(st.pdb) || meta_from(
            st.pt_meta@,
            #[trigger] st.pt_pages@[i],
            0,
        ) is Some)
}

/// One space's sweep history after a sweep plan looked at it.
pub open spec fn swept_state(st: PtState) -> SweepState {
    SweepState { dirty: st.sweep.dirty || tracks_a_dirtied_page(st), ..st.sweep }
}

/// The sweep plan of the address spaces `s`, in order: `(tasks, reasons, skipped)`.
pub open spec fn sweep_plan(s: Seq<PtState>) -> (Seq<PtDecodeTask>, Seq<SweepReason>, nat)
    decreases s.len(),
{
    if s.len() == 0 {
        (Seq::empty(), Seq::empty(), 0)
    } else {
        let (t, r, n) = sweep_plan(s.drop_last());
        let st = s.last();
        let sw = swept_state(st);
        match spec_sweep_reason(sw.sweeps, sw.truncated, sw.dirty) {
            Some(why) => (
                t.push(PtDecodeTask { gpu: st.gpu, pdb: st.pdb, page: root_page(st.pdb) }),
                r.push(why),
                n,
            ),
            None => (t, r, n + 1),
        }
    }
}

/// Whether `pages` holds a page `st`'s sweep tracks.
fn tracks_dirtied(st: &PtState) -> (r: bool)
    ensures
        r == tracks_a_dirtied_page(*st),
{
    let root = st.pdb & !0xfffu64;
    let mut i: usize = 0;
    while i < st.pt_pages.len()
        invariant
            i <= st.pt_pages.len(),
            root == root_of(st.pdb),
            forall|j: int|
                0 <= j < i ==> !(st.pt_pages@[j] == root_of(st.pdb) || meta_from(
                    st.pt_meta@,
                    #[trigger] st.pt_pages@[j],
                    0,
                ) is Some),
        decreases st.pt_pages.len() - i,
    {
        let p = st.pt_pages[i];
        if p == root || meta_of(&st.pt_meta, p).is_some() {
            return true;
        }
        i = i + 1;
    }
    false
}

/// Plan the sweeps the address spaces `states` need (see [`sweep_plan`]), marking dirty
/// any space one of whose tracked pages was written; the dirty sets are left for the
/// decode plan to drain.
pub fn plan_pt_sweep(states: &mut Vec<PtState>) -> (r: PtSweepPlan)
    ensures
        final(states)@.len() == old(states)@.len(),
        forall|k: int|
            0 <= k < old(states)@.len() ==> {
                let o = old(states)@[k];
                let n = #[trigger] final(states)@[k];
                n.gpu == o.gpu && n.pdb == o.pdb && n.pt_pages == o.pt_pages && n.pt_meta
                    == o.pt_meta && n.witnessed == o.witnessed && n.sweep == swept_state(o)
            },
        r.tasks@ == sweep_plan(old(states)@).0,
        r.reasons@ == sweep_plan(old(states)@).1,
        r.skipped == sweep_plan(old(states)@).2,
{
    let ghost s0 = states@;
    let mut plan = PtSweepPlan { tasks: Vec::new(), reasons: Vec::new(), skipped: 0 };
    let mut k: usize = 0;
    while k < states.len()
        invariant
            k <= states.len(),
            states@.len() == s0.len(),
            forall|j: int|
                0 <= j < k ==> {
                    let o = s0[j];
                    let n = #[trigger] states@[j];
                    n.gpu == o.gpu && n.pdb == o.pdb && n.pt_pages == o.pt_pages && n.pt_meta
                        == o.pt_meta && n.witnessed == o.witnessed && n.sweep == swept_state(o)
                },
            forall|j: int| k <= j < s0.len() ==> #[trigger] states@[j] == s0[j],
            plan.tasks@ == sweep_plan(s0.subrange(0, k as int)).0,
            plan.reasons@ == sweep_plan(s0.subrange(0, k as int)).1,
            plan.skipped == sweep_plan(s0.subrange(0, k as int)).2,
            plan.skipped <= k,
        decreases states.len() - k,
    {
        let ghost pre = s0.subrange(0, k as int);
        let ghost next = s0.subrange(0, k + 1);
        proof {
            assert(next.drop_last() =~= pre);
            assert(next.last() == s0[k as int]);
        }
        let mut st = states.remove(k);
        if tracks_dirtied(&st) {
            st.sweep.dirty = true;
        }
        match sweep_reason(st.sweep.sweeps, st.sweep.truncated, st.sweep.dirty) {
            Some(why) => {
                plan.tasks.push(
                    PtDecodeTask {
                        gpu: st.gpu,
                        pdb: st.pdb,
                        page: PtPage {
                            phys: st.pdb & !0xfffu64,
                            aperture: Aperture::Vidmem,
                            level: 0,
                            vabase: 0,
                        },
                    },
                );
                plan.reasons.push(why);
            },
            None => {
                plan.skipped = plan.skipped + 1;
            },
        }
        states.insert(k, st);
        k = k + 1;
    }
    proof {
        assert(s0.subrange(0, s0.len() as int) =~= s0);
    }
    plan
}


/// A decode plan consumes the guest's signal: once every address space has been drained,
/// planning again finds nothing to decode and nothing to defer until the guest writes a
/// page-table page again.
pub proof fn law_drained_pages_are_consumed(old: Seq<PtState>, new: Seq<PtState>)
    requires
        new.len() == old.len(),
        forall|k: int| 0 <= k < old.len() ==> drained(old[k], #[trigger] new[k]),
    ensures
        decode_plan(new).0.len() == 0,
        decode_plan(new).1.len() == 0,
    decreases new.len(),
{
    if new.len() > 0 {
        let o = old.drop_last();
        let n = new.drop_last();
        assert forall|k: int| 0 <= k < o.len() implies drained(o[k], #[trigger] n[k]) by {
            assert(o[k] == old[k] && n[k] == new[k]);
        }
        law_drained_pages_are_consumed(o, n);
        assert(drained(old[old.len() - 1], new[new.len() - 1]));
        assert(new.last().pt_pages@.len() == 0);
    }
}

/// Upper bound on the page-table pages whose level one address space remembers. The
/// metadata is learned from what the guest's own tables point at, so its size is the
/// guest's to push; reaching the bound is reported, never silently absorbed.
pub const MAX_PT_META: usize = 0x1_0000;

/// What learning one descent's visited pages did.
#[derive(Debug, Clone, PartialEq, Eq)]
pub struct MetaLearned {
    /// Pages whose level was learned.
    pub learned: usize,
    /// Pages refused because the bound was reached.
    pub refused: usize,
    /// The learned pages' physical addresses, in order.
    pub pages: Vec<u64>,
}

/// Learning one visited page into `meta`: the root is a declared fact and is never
/// stored, a page already known keeps what is known of it, and a new page is refused once
/// the bound is reached. The tag is `0` for skipped, `1` for learned, `2` for refused.
pub open spec fn learn_one(meta: Seq<(u64, PtPage)>, root: u64, p: PtPage) -> (Seq<(u64, PtPage)>, u8) {
    if p.phys == root || meta_from(meta, p.phys, 0) is Some {
        (meta, 0)
    } else if meta.len() >= MAX_PT_META {
        (meta, 2)
    } else {
        (meta.push((p.phys, p)), 1)
    }
}

/// Learning the visited pages `vis` in order: the metadata after, how many were learned
/// and refused, and the learned pages.
pub open spec fn learn_all(meta: Seq<(u64, PtPage)>, root: u64, vis: Seq<PtPage>) -> (
    Seq<(u64, PtPage)>,
    nat,
    nat,
    Seq<u64>,
)
    decreases vis.len(),
{
    if vis.len() == 0 {
        (meta, 0, 0, Seq::empty())
    } else {
        let (m, l, r, ps) = learn_all(meta, root, vis.drop_last());
        let (m2, tag) = learn_one(m, root, vis.last());
        (
            m2,
            if tag == 1 { l + 1 } else { l },
            if tag == 2 { r + 1 } else { r },
            if tag == 1 { ps.push(vis.last().phys) } else { ps },
        )
    }
}

/// Remember the level of each page a descent of `st`'s address space visited, forward:
/// the root is skipped, a known page keeps its first answer, and past [`MAX_PT_META`] a new
/// page is refused and counted. Nothing else of `st` changes.
pub fn learn_pt_meta(st: &mut PtState, visited: &Vec<PtPage>) -> (r: MetaLearned)
    ensures
        ({
            let (m, l, rf, ps) = learn_all(old(st).pt_meta@, root_of(old(st).pdb), visited@);
            &&& final(st).pt_meta@ == m
            &&& r.learned == l
            &&& r.refused == rf
            &&& r.pages@ == ps
        }),
        final(st).gpu == old(st).gpu,
        final(st).pdb == old(st).pdb,
        final(st).pt_pages == old(st).pt_pages,
        final(st).witnessed == old(st).witnessed,
        final(st).sweep == old(st).sweep,
{
    let root = st.pdb & !0xfffu64;
    let mut learned: usize = 0;
    let mut refused: usize = 0;
    let mut pages: Vec<u64> = Vec::new();
    let mut i: usize = 0;
    while i < visited.len()
        invariant
            i <= visited@.len(),
            root == root_of(old(st).pdb),
            st.gpu == old(st).gpu,
            st.pdb == old(st).pdb,
            st.pt_pages == old(st).pt_pages,
            st.witnessed == old(st).witnessed,
            st.sweep == old(st).sweep,
            learned <= i,
            refused <= i,
            ({
                let (m, l, rf, ps) = learn_all(old(st).pt_meta@, root, visited@.take(i as int));
                &&& st.pt_meta@ == m
                &&& learned == l
                &&& refused == rf
                &&& pages@ == ps
            }),
        decreases visited@.len() - i,
    {
        let p = visited[i];
        proof {
            assert(visited@.take(i + 1).drop_last() =~= visited@.take(i as int));
            assert(visited@.take(i + 1).last() == p);
        }
        if p.phys == root {
        } else if meta_of(&st.pt_meta, p.phys).is_some() {
        } else if st.pt_meta.len() >= MAX_PT_META {
            refused = refused + 1;
        } else {
            st.pt_meta.push((p.phys, p));
            learned = learned + 1;
            pages.push(p.phys);
        }
        i = i + 1;
    }
    proof {
        assert(visited@.take(visited@.len() as int) =~= visited@);
    }
    MetaLearned { learned, refused, pages }
}

proof fn lemma_meta_push(s: Seq<(u64, PtPage)>, x: (u64, PtPage), k: u64, i: int)
    requires
        0 <= i <= s.len(),
    ensures
        meta_from(s.push(x), k, i) == match meta_from(s, k, i) {
            Some(p) => Some(p),
            None => if x.0 == k {
                Some(x.1)
            } else {
                None
            },
        },
    decreases s.len() - i,
{
    if i < s.len() {
        assert(s.push(x)[i] == s[i]);
        lemma_meta_push(s, x, k, i + 1);
    } else {
        assert(s.push(x)[i] == x);
        assert(meta_from(s.push(x), k, i + 1) is None);
    }
}

/// Learning pages never changes what was known of a page, never grows the metadata past
/// its bound, and — where nothing was refused — leaves every visited page other than the
/// root known.
pub proof fn law_learning_keeps_what_is_known(meta: Seq<(u64, PtPage)>, root: u64, vis: Seq<PtPage>)
    ensures
        ({
            let (m, l, rf, ps) = learn_all(meta, root, vis);
            &&& forall|k: u64| #[trigger] meta_from(meta, k, 0) is Some ==> meta_from(m, k, 0) == meta_from(meta, k, 0)
            &&& meta.len() <= MAX_PT_META ==> m.len() <= MAX_PT_META
            &&& rf == 0 ==> forall|j: int|
                0 <= j < vis.len() && #[trigger] vis[j].phys != root ==> meta_from(m, vis[j].phys, 0) is Some
        }),
    decreases vis.len(),
{
    if vis.len() > 0 {
        let pre = vis.drop_last();
        law_learning_keeps_what_is_known(meta, root, pre);
        let (m, l, rf, ps) = learn_all(meta, root, pre);
        let p = vis.last();
        let (m2, tag) = learn_one(m, root, p);
        assert forall|k: u64| #[trigger] meta_from(m, k, 0) is Some implies meta_from(m2, k, 0) == meta_from(m, k, 0) by {
            if tag == 1 {
                lemma_meta_push(m, (p.phys, p), k, 0);
            }
        }
        if tag == 1 {
            lemma_meta_push(m, (p.phys, p), p.phys, 0);
        }
        let (mf, lf, rff, psf) = learn_all(meta, root, vis);
        if rff == 0 {
            assert forall|j: int| 0 <= j < vis.len() && #[trigger] vis[j].phys != root implies meta_from(mf, vis[j].phys, 0) is Some by {
                if j < vis.len() - 1 {
                    assert(vis[j] == pre[j]);
                    assert(meta_from(m, pre[j].phys, 0) is Some);
                }
            }
        }
    }
}

/// **One address space's sweep plan**: it is skipped, with no task, exactly when it has
/// been swept, its last sweep was complete and none of its tracked pages was dirtied;
/// otherwise it gets one sweep from its root, for the reason of highest rank — never
/// swept, then truncated, then dirty.
pub proof fn law_sweep_plan_of_one_space(st: PtState)
    ensures
        ({
            let sw = swept_state(st);
            let (tasks, reasons, skipped) = sweep_plan(seq![st]);
            let current = sw.sweeps > 0 && !sw.truncated && !sw.dirty;
            &&& current ==> tasks.len() == 0 && reasons.len() == 0 && skipped == 1
            &&& !current ==> skipped == 0 && tasks == seq![
                PtDecodeTask { gpu: st.gpu, pdb: st.pdb, page: root_page(st.pdb) },
            ] && reasons.len() == 1
            &&& sw.sweeps == 0 ==> reasons == seq![SweepReason::NeverSwept]
            &&& sw.sweeps > 0 && sw.truncated ==> reasons == seq![SweepReason::Truncated]
            &&& sw.sweeps > 0 && !sw.truncated && sw.dirty ==> reasons == seq![SweepReason::Dirty]
        }),
{
    let s = seq![st];
    let sw = swept_state(st);
    assert(s.drop_last() =~= Seq::<PtState>::empty());
    assert(s.last() == st);
    assert(sweep_plan(s.drop_last()) == (Seq::<PtDecodeTask>::empty(), Seq::<SweepReason>::empty(), 0nat));
    crate::routes::law_sweep_reasons(sw.sweeps, sw.truncated, sw.dirty);
    let task = PtDecodeTask { gpu: st.gpu, pdb: st.pdb, page: root_page(st.pdb) };
    assert(Seq::<PtDecodeTask>::empty().push(task) =~= seq![task]);
    assert(Seq::<SweepReason>::empty().push(SweepReason::NeverSwept) =~= seq![SweepReason::NeverSwept]);
    assert(Seq::<SweepReason>::empty().push(SweepReason::Truncated) =~= seq![SweepReason::Truncated]);
    assert(Seq::<SweepReason>::empty().push(SweepReason::Dirty) =~= seq![SweepReason::Dirty]);
}

} // verus!
