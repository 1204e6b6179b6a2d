//! The guest-RAM interface, and the **self-describing region** the message queues live in.
//!
//! ## Why one narrow interface
//!
//! Guest-physical access funnels through one narrow interface — two methods, no hypervisor
//! vocabulary — that the device shell implements. It is also what makes the transport
//! checkable with no GPU and no hypervisor: a test implements it over a map.
//!
//! ## The region is NOT contiguous
//!
//! The guest allocates the queues' backing memory non-contiguously, and the first pages
//! of the region are **a page table describing the region itself** — one entry per page,
//! entry 0 being the page the table starts on. Queue offsets are **byte offsets into the
//! region**, not addresses. [`RegionMap`] walks the table; every queue access resolves
//! through it, so a fragmented region is an ordinary case rather than a field failure.
use vstd::prelude::*;

use crate::fault::{GspFault, RamRefused, RegionError};
use crate::wire::{get_u32, get_u64, le_bytes_u32, le_u32, le_u64};

verus! {

/// The `len` bytes of `mem` starting at guest-physical address `gpa`.
pub open spec fn ram_bytes(mem: Map<int, u8>, gpa: int, len: nat) -> Seq<u8> {
    Seq::new(len, |i: int| mem[gpa + i])
}

/// Every byte of `[gpa, gpa + len)` is guest RAM.
pub open spec fn ram_covers(mem: Map<int, u8>, gpa: int, len: nat) -> bool {
    forall|i: int| 0 <= i < len ==> #[trigger] mem.dom().contains(gpa + i)
}

/// The addresses `gpa, gpa + 1, …, gpa + len - 1`.
pub open spec fn linear_addrs(gpa: int, len: nat) -> Seq<int> {
    Seq::new(len, |i: int| gpa + i)
}

/// `mem` after storing `data[k]` at `addrs[k]`, for `k` ascending — so where two
/// addresses coincide, the later byte is the one that stays.
pub open spec fn store(mem: Map<int, u8>, addrs: Seq<int>, data: Seq<u8>) -> Map<int, u8>
    decreases addrs.len(),
{
    if addrs.len() == 0 || data.len() == 0 {
        mem
    } else {
        store(mem.insert(addrs[0], data[0]), addrs.drop_first(), data.drop_first())
    }
}

/// Every address of `addrs` is in `w`.
pub open spec fn all_in(w: Set<int>, addrs: Seq<int>) -> bool {
    forall|i: int| 0 <= i < addrs.len() ==> w.contains(#[trigger] addrs[i])
}

/// Guest physical memory, as this crate is allowed to see it.
///
/// Implemented by the device shell over its one guest-physical access site, and by a test
/// over a map. The contracts below are what every implementation owes, and what the
/// region code is verified against.
pub trait GuestRam {
    /// The bytes of guest RAM, by guest-physical address; an address outside the domain
    /// is not readable guest RAM.
    spec fn memory(&self) -> Map<int, u8>;

    /// The guest-physical addresses that are writable guest RAM; writable guest RAM is
    /// also readable, so a write there also lands in [`GuestRam::memory`]. Neither a read
    /// nor a write changes which addresses are writable.
    spec fn writable(&self) -> Set<int>;

    /// Read `buf.len()` bytes of guest RAM at `gpa`.
    ///
    /// Refused exactly when the range is not readable guest RAM. Never a partial read: an
    /// implementation that cannot fill `buf` entirely refuses. A read changes no byte of
    /// guest RAM.
    fn read(&mut self, gpa: u64, buf: &mut [u8]) -> (r: Result<(), RamRefused>)
        ensures
            final(self).memory() == old(self).memory(),
            final(self).writable() == old(self).writable(),
            final(buf)@.len() == old(buf)@.len(),
            ram_covers(old(self).memory(), gpa as int, old(buf)@.len()) ==> r is Ok,
            r is Ok ==> ram_covers(old(self).memory(), gpa as int, old(buf)@.len()) && final(buf)@ == ram_bytes(old(self).memory(), gpa as int, old(buf)@.len()),
    ;

    /// Write `bytes` to guest RAM at `gpa`.
    ///
    /// Refused only where the range is not writable guest RAM. On success every written
    /// address was guest RAM and now holds its byte; nothing is stated of the bytes after
    /// a refused write. A write makes no address guest RAM and takes none away.
    fn write(&mut self, gpa: u64, bytes: &[u8]) -> (r: Result<(), RamRefused>)
        ensures
            final(self).writable() == old(self).writable(),
            final(self).memory().dom() == old(self).memory().dom(),
            all_in(old(self).writable(), linear_addrs(gpa as int, bytes@.len())) ==> r is Ok,
            r is Ok ==> ram_covers(old(self).memory(), gpa as int, bytes@.len()) && final(self).memory() == store(
                old(self).memory(),
                linear_addrs(gpa as int, bytes@.len()),
                bytes@,
            ),
    ;
}

/// `x` is a power of two: exactly one bit is set.
pub open spec fn is_pow2(x: u64) -> bool {
    x != 0 && x & ((x - 1) as u64) == 0
}

/// `x` sits on a boundary of the power-of-two `ps`: no bit below it is set.
pub open spec fn page_aligned(x: u64, ps: u64) -> bool {
    x & ((ps - 1) as u64) == 0
}

/// Where byte `off` of a region with these pages lives in guest-physical memory.
pub open spec fn page_gpa(pages: Seq<u64>, ps: nat, off: int) -> int {
    pages[off / ps as int] + off % ps as int
}

/// The guest-physical addresses of region bytes `off .. off + len`.
pub open spec fn page_addrs(pages: Seq<u64>, ps: nat, off: int, len: nat) -> Seq<int> {
    Seq::new(len, |i: int| page_gpa(pages, ps, off + i))
}

/// A run's length as a `usize`; a length `usize` cannot hold reads as zero.
pub open spec fn run_len(take: int) -> usize {
    if take <= usize::MAX {
        take as usize
    } else {
        0
    }
}

/// The physically contiguous runs region bytes `[at, end)` decompose into: one per page
/// crossing, in order, each `(guest-physical start, length)`.
pub open spec fn spec_runs(pages: Seq<u64>, ps: nat, at: nat, end: nat) -> Seq<(u64, usize)>
    decreases end - at,
{
    if at >= end || ps == 0 {
        seq![]
    } else {
        let within = at % ps;
        let take: nat = if ps - within < end - at {
            (ps - within) as nat
        } else {
            (end - at) as nat
        };
        seq![((pages[(at / ps) as int] + within) as u64, run_len(take as int))] + spec_runs(
            pages,
            ps,
            at + take,
            end,
        )
    }
}

/// Entries of the self-describing table that fit one page of `ps` bytes.
pub open spec fn entries_per_page(ps: u64) -> nat {
    if ps / 8 > usize::MAX {
        usize::MAX as nat
    } else {
        (ps / 8) as nat
    }
}

/// Entry `k` of a self-describing page table whose first page is at `base`: the `k`-th
/// little-endian `u64` of the table, where the table's page `j > 0` is found through its
/// own entry `j`.
pub open spec fn table_entry(mem: Map<int, u8>, base: u64, per_page: nat, k: nat) -> u64
    decreases k,
{
    if per_page == 0 {
        0
    } else {
        let j = k / per_page;
        let page: u64 = if j == 0 {
            base
        } else if j < k {
            table_entry(mem, base, per_page, j)
        } else {
            0
        };
        le_u64(ram_bytes(mem, page + 8 * (k % per_page), 8), 0)
    }
}

/// The first `n` entries of that table.
pub open spec fn table_entries(mem: Map<int, u8>, base: u64, per_page: nat, n: nat) -> Seq<
    u64,
> {
    Seq::new(n, |k: int| table_entry(mem, base, per_page, k as nat))
}

/// The guest-physical address of the table page that holds entry `k`: `base` for the
/// first page, else the page its own entry names.
pub open spec fn table_page_of(mem: Map<int, u8>, base: u64, per_page: nat, k: nat) -> u64 {
    let j = k / per_page;
    if j == 0 {
        base
    } else if j < k {
        table_entry(mem, base, per_page, j)
    } else {
        0
    }
}

/// Every one of the first `n` entries of the table is guest RAM where the walk reads it.
pub open spec fn table_readable(mem: Map<int, u8>, base: u64, per_page: nat, n: nat) -> bool {
    forall|k: nat|
        k < n ==> #[trigger] ram_covers(
            mem,
            table_page_of(mem, base, per_page, k) + 8 * (k % per_page),
            8,
        )
}

/// A table batch of `take` entries read at `table_page` is guest RAM when the whole table
/// is.
proof fn lemma_batch_covered(
    mem: Map<int, u8>,
    base: u64,
    pp: nat,
    n: nat,
    page_index: nat,
    take: nat,
    table_page: u64,
)
    requires
        table_readable(mem, base, pp, n),
        pp > 0,
        page_index * pp + take <= n,
        take <= pp,
        table_page == (if page_index == 0 {
            base
        } else {
            table_entry(mem, base, pp, page_index)
        }),
        page_index > 0 ==> pp >= 2,
    ensures
        ram_covers(mem, table_page as int, take * 8),
{
    assert forall|b: int| 0 <= b < take * 8 implies #[trigger] mem.dom().contains(
        table_page + b,
    ) by {
        let i = b / 8;
        let k: nat = (page_index * pp + i) as nat;
        assert(0 <= i < take);
        assert(k / pp == page_index) by (nonlinear_arith)
            requires
                k == page_index * pp + i,
                0 <= i < pp,
                pp > 0,
        ;
        assert(k % pp == i) by (nonlinear_arith)
            requires
                k == page_index * pp + i,
                0 <= i < pp,
                pp > 0,
        ;
        assert(page_index > 0 ==> page_index < k) by (nonlinear_arith)
            requires
                k == page_index * pp + i,
                pp >= 2 || page_index == 0,
                i >= 0,
        ;
        assert(table_page_of(mem, base, pp, k) == table_page);
        assert(ram_covers(mem, table_page_of(mem, base, pp, k) + 8 * (k % pp), 8));
        let g = table_page_of(mem, base, pp, k) + 8 * (k % pp);
        assert(mem.dom().contains(g + b % 8));
        assert(g + b % 8 == table_page + b);
    }
}

/// A guest-declared region, resolved through **its own page table**.
///
/// There is no constructor that takes a base address and a length, because that is the
/// shape of the bug this type exists to remove.
#[derive(Debug, PartialEq, Eq)]
pub struct RegionMap {
    page_size: u64,
    pages: Vec<u64>,
}

impl RegionMap {
    #[verifier::type_invariant]
    spec fn well_formed(self) -> bool {
        &&& is_pow2(self.page_size)
        &&& self.pages@.len() > 0
        &&& self.pages@.len() * self.page_size <= u64::MAX
        &&& forall|k: int| 0 <= k < self.pages@.len() ==> page_aligned(
            #[trigger] self.pages@[k],
            self.page_size,
        )
    }

    /// The region's page size.
    pub closed spec fn page_size_spec(&self) -> u64 {
        self.page_size
    }

    /// The region's pages, in region order.
    pub closed spec fn pages_spec(&self) -> Seq<u64> {
        self.pages@
    }

    /// The region's size in bytes.
    pub open spec fn len_spec(&self) -> nat {
        self.pages_spec().len() * (self.page_size_spec() as nat)
    }

    /// Where region byte `off` lives in guest-physical memory.
    pub open spec fn gpa_of(&self, off: int) -> int {
        page_gpa(self.pages_spec(), self.page_size_spec() as nat, off)
    }

    /// The guest-physical addresses of region bytes `off .. off + len`.
    pub open spec fn addrs(&self, off: int, len: nat) -> Seq<int> {
        page_addrs(self.pages_spec(), self.page_size_spec() as nat, off, len)
    }

    /// Every byte of region range `[off, off + len)` is guest RAM in `mem`.
    pub open spec fn covered(&self, mem: Map<int, u8>, off: int, len: nat) -> bool {
        forall|i: int| 0 <= i < len ==> #[trigger] mem.dom().contains(self.gpa_of(off + i))
    }

    /// The bytes of region range `[off, off + len)` in `mem`.
    pub open spec fn bytes(&self, mem: Map<int, u8>, off: int, len: nat) -> Seq<u8> {
        Seq::new(len, |i: int| mem[self.gpa_of(off + i)])
    }

    /// The region is well formed: a power-of-two page size, at least one page, every page
    /// aligned, and a size that fits a `u64`.
    pub open spec fn valid(&self) -> bool {
        &&& is_pow2(self.page_size_spec())
        &&& self.pages_spec().len() > 0
        &&& self.len_spec() <= u64::MAX
        &&& forall|k: int| 0 <= k < self.pages_spec().len() ==> page_aligned(
            #[trigger] self.pages_spec()[k],
            self.page_size_spec(),
        )
    }

    /// Load a region's page table, following the table across its own pages.
    ///
    /// `table_base` is the guest's `sharedMemPhysAddr`, which *is* entry 0 — the physical
    /// address of the page the table starts on. `entry_count` is its
    /// `pageTableEntryCount`. `max_entries` bounds a hostile declaration before any
    /// allocation happens. Entries that fit one page are read linearly from `table_base`;
    /// any further page **of the table** is located through an entry already read.
    ///
    /// A table page that holds fewer than two entries cannot describe its own next page,
    /// and the walk refuses with [`RegionError::NoEntries`] once it needs one.
    ///
    /// The region's length, `entry_count * page_size`, must fit a `u64`: a region that
    /// large has no length to report, so it is a machine limit on the caller rather than a
    /// refusal. Likewise an accepted table's byte size must fit a `usize`.
    pub fn load<R: GuestRam>(
        ram: &mut R,
        table_base: u64,
        entry_count: u32,
        page_size: u64,
        max_entries: u32,
    ) -> (r: Result<RegionMap, GspFault>)
        requires
            entry_count * page_size <= u64::MAX,
            entry_count <= max_entries ==> entry_count * 8 <= usize::MAX,
        ensures
            final(ram).memory() == old(ram).memory(),
            final(ram).writable() == old(ram).writable(),
            !is_pow2(page_size) ==> r == Err::<RegionMap, GspFault>(
                GspFault::RegionMalformed(RegionError::BadPageSize { page_size }),
            ),
            is_pow2(page_size) && entry_count == 0 ==> r == Err::<RegionMap, GspFault>(
                GspFault::RegionMalformed(RegionError::NoEntries),
            ),
            is_pow2(page_size) && entry_count != 0 && entry_count > max_entries ==> r == Err::<
                RegionMap,
                GspFault,
            >(
                GspFault::RegionMalformed(
                    RegionError::TooManyEntries { declared: entry_count, max: max_entries },
                ),
            ),
            r is Err && !(r matches Err(GspFault::RegionMalformed(_))) ==> r matches Err(
                GspFault::GuestRam(_),
            ),
            r matches Err(GspFault::GuestRam(_)) ==> is_pow2(page_size) && 0 < entry_count
                <= max_entries && !table_readable(
                old(ram).memory(),
                table_base,
                entries_per_page(page_size),
                entry_count as nat,
            ),
            r matches Err(GspFault::RegionMalformed(RegionError::NoEntries)) ==> entry_count == 0
                || (is_pow2(page_size) && entry_count <= max_entries && (entries_per_page(
                page_size,
            ) == 0 || (entries_per_page(page_size) == 1 && entry_count > 1))),
            r matches Err(GspFault::RegionMalformed(RegionError::UnalignedEntry { index, value }))
                ==> is_pow2(page_size) && 0 < entry_count <= max_entries && index < entry_count
                && value == table_entry(
                old(ram).memory(),
                table_base,
                entries_per_page(page_size),
                index as nat,
            ) && !page_aligned(value, page_size) && forall|k: nat|
                k < index ==> page_aligned(
                    #[trigger] table_entry(
                        old(ram).memory(),
                        table_base,
                        entries_per_page(page_size),
                        k,
                    ),
                    page_size,
                ),
            r matches Ok(m) ==> is_pow2(page_size) && 0 < entry_count <= max_entries
                && m.valid() && m.page_size_spec() == page_size && m.pages_spec() == table_entries(
                old(ram).memory(),
                table_base,
                entries_per_page(page_size),
                entry_count as nat,
            ),
    {
        if !pow2_u64(page_size) {
            return Err(GspFault::RegionMalformed(RegionError::BadPageSize { page_size }));
        }
        if entry_count == 0 {
            return Err(GspFault::RegionMalformed(RegionError::NoEntries));
        }
        if entry_count > max_entries {
            return Err(
                GspFault::RegionMalformed(
                    RegionError::TooManyEntries { declared: entry_count, max: max_entries },
                ),
            );
        }
        let ghost mem = ram.memory();
        let per_page: usize = if page_size / 8 > usize::MAX as u64 {
            usize::MAX
        } else {
            (page_size / 8) as usize
        };
        let ghost pp = entries_per_page(page_size);
        assert(per_page == pp);
        let want = entry_count as usize;
        let mut pages: Vec<u64> = Vec::new();
        let mut table_page = table_base;
        let mut table_page_index: usize = 0;
        while pages.len() < want
            invariant
                ram.memory() == mem,
                mem == old(ram).memory(),
                ram.writable() == old(ram).writable(),
                entry_count <= max_entries,
                pp == per_page,
                pp == entries_per_page(page_size),
                want == entry_count,
                table_page_index <= want,
                0 < want,
                want * 8 <= usize::MAX,
                is_pow2(page_size),
                pages.len() <= want,
                pages.len() == if table_page_index * per_page < want {
                    table_page_index * per_page
                } else {
                    want as int
                },
                pages.len() < want ==> table_page == (if table_page_index == 0 {
                    table_base
                } else {
                    table_entry(mem, table_base, pp, table_page_index as nat)
                }),
                pages.len() < want && table_page_index > 0 ==> per_page >= 2,
                pages@ == table_entries(mem, table_base, pp, pages@.len()),
                forall|k: int| 0 <= k < pages@.len() ==> page_aligned(
                    #[trigger] pages@[k],
                    page_size,
                ),
            decreases want - pages.len(),
        {
            let take = if per_page < want - pages.len() {
                per_page
            } else {
                want - pages.len()
            };
            proof {
                if pp == 0 {
                    assert(ram_covers(mem, table_page as int, (take * 8) as nat));
                } else if table_readable(mem, table_base, pp, want as nat) {
                    lemma_batch_covered(
                        mem,
                        table_base,
                        pp,
                        want as nat,
                        table_page_index as nat,
                        take as nat,
                        table_page,
                    );
                }
            }
            let mut buf = vec![0u8; take * 8];
            match ram.read(table_page, buf.as_mut_slice()) {
                Ok(()) => {},
                Err(e) => {
                    return Err(GspFault::GuestRam(e));
                },
            }
            let batch_base = pages.len();
            let ghost page_index = table_page_index;
            let mut i: usize = 0;
            while i < take
                invariant
                    ram.memory() == mem,
                    mem == old(ram).memory(),
                    ram.writable() == old(ram).writable(),
                    is_pow2(page_size),
                    0 < entry_count <= max_entries,
                    want == entry_count,
                    pp == per_page,
                    pp == entries_per_page(page_size),
                    take <= per_page,
                    batch_base + take <= want,
                    want * 8 <= usize::MAX,
                    batch_base == page_index * per_page,
                    buf@.len() == take * 8,
                    buf@ == ram_bytes(mem, table_page as int, (take * 8) as nat),
                    table_page == (if page_index == 0 {
                        table_base
                    } else {
                        table_entry(mem, table_base, pp, page_index as nat)
                    }),
                    page_index > 0 ==> per_page >= 2,
                    i <= take,
                    pages.len() == batch_base + i,
                    pages@ == table_entries(mem, table_base, pp, pages@.len()),
                    forall|k: int| 0 <= k < pages@.len() ==> page_aligned(
                        #[trigger] pages@[k],
                        page_size,
                    ),
                decreases take - i,
            {
                let raw = get_u64(buf.as_slice(), 8 * i);
                proof {
                    let k = (batch_base + i) as nat;
                    assert(per_page > 0);
                    assert(k / pp == page_index) by (nonlinear_arith)
                        requires
                            k == page_index * pp + i,
                            i < pp,
                            pp > 0,
                    ;
                    assert(k % pp == i) by (nonlinear_arith)
                        requires
                            k == page_index * pp + i,
                            i < pp,
                            pp > 0,
                    ;
                    assert(page_index > 0 ==> page_index < k) by (nonlinear_arith)
                        requires
                            k == page_index * pp + i,
                            pp >= 2 || page_index == 0,
                    ;
                    assert(ram_bytes(mem, table_page + 8 * (k % pp), 8) =~= buf@.subrange(
                        8 * i as int,
                        8 * i + 8,
                    ));
                    assert(le_u64(buf@, 8 * i as int) == le_u64(
                        buf@.subrange(8 * i as int, 8 * i + 8),
                        0,
                    ));
                    assert(raw == table_entry(mem, table_base, pp, k));
                }
                assert(batch_base + i < want);
                if raw & (page_size - 1) != 0 {
                    proof {
                        assert(!page_aligned(raw, page_size));
                        assert forall|k: nat| k < batch_base + i implies page_aligned(
                            #[trigger] table_entry(mem, table_base, pp, k),
                            page_size,
                        ) by {
                            assert(pages@[k as int] == table_entry(mem, table_base, pp, k));
                        }
                    }
                    return Err(
                        GspFault::RegionMalformed(
                            RegionError::UnalignedEntry { index: batch_base + i, value: raw },
                        ),
                    );
                }
                pages.push(raw);
                assert(pages@ =~= table_entries(mem, table_base, pp, pages@.len()));
                i = i + 1;
            }
            proof {
                assert(page_index == 0 || page_index < want) by (nonlinear_arith)
                    requires
                        page_index == 0 || pp >= 2,
                        page_index * pp <= batch_base,
                        batch_base < want,
                ;
                assert((page_index + 1) * pp == batch_base + pp) by (nonlinear_arith)
                    requires
                        batch_base == page_index * pp,
                ;
            }
            table_page_index = table_page_index + 1;
            proof {
                if pages.len() < want && table_page_index >= pages.len() {
                    assert(pp == 0 || (pp == 1 && want > 1)) by (nonlinear_arith)
                        requires
                            pages.len() == table_page_index * pp,
                            table_page_index >= pages.len(),
                            table_page_index >= 1,
                            pages.len() < want,
                    ;
                }
            }
            if pages.len() < want {
                if table_page_index < pages.len() {
                    table_page = pages[table_page_index];
                } else {
                    assert(pp == 0 || (pp == 1 && want > 1));
                    return Err(GspFault::RegionMalformed(RegionError::NoEntries));
                }
            }
        }
        assert(pages@.len() * page_size <= u64::MAX);
        Ok(RegionMap { page_size, pages })
    }
}

/// Whether `x` is a power of two.
fn pow2_u64(x: u64) -> (r: bool)
    ensures
        r == is_pow2(x),
{
    if x == 0 {
        false
    } else {
        let m = x - 1;
        assert(m == (x - 1) as u64);
        x & m == 0
    }
}


impl Clone for RegionMap {
    fn clone(&self) -> (r: RegionMap)
        ensures
            r.page_size_spec() == self.page_size_spec(),
            r.pages_spec() == self.pages_spec(),
    {
        proof {
            use_type_invariant(self);
        }
        RegionMap { page_size: self.page_size, pages: self.pages.clone() }
    }
}

impl RegionMap {
    /// Build a map directly from a page list. The bounds are the same ones
    /// [`RegionMap::load`] enforces: a power-of-two page size, at least one page, and the
    /// first misaligned entry refused by index. The region's length,
    /// `pages.len() * page_size`, must fit a `u64`, the same machine limit as `load`'s.
    pub fn from_pages(page_size: u64, pages: Vec<u64>) -> (r: Result<RegionMap, GspFault>)
        requires
            pages@.len() * page_size <= u64::MAX,
        ensures
            !is_pow2(page_size) ==> r == Err::<RegionMap, GspFault>(
                GspFault::RegionMalformed(RegionError::BadPageSize { page_size }),
            ),
            is_pow2(page_size) && pages@.len() == 0 ==> r == Err::<RegionMap, GspFault>(
                GspFault::RegionMalformed(RegionError::NoEntries),
            ),
            is_pow2(page_size) && pages@.len() > 0 && (forall|k: int|
                0 <= k < pages@.len() ==> page_aligned(#[trigger] pages@[k], page_size)) ==> (
            r matches Ok(m) && m.valid() && m.page_size_spec() == page_size && m.pages_spec()
                == pages@),
            is_pow2(page_size) && pages@.len() > 0 && !(forall|k: int|
                0 <= k < pages@.len() ==> page_aligned(#[trigger] pages@[k], page_size)) ==> (
            r matches Err(GspFault::RegionMalformed(RegionError::UnalignedEntry { index, value }))
                && index < pages@.len() && value == pages@[index as int] && !page_aligned(
                value,
                page_size,
            ) && forall|k: int| 0 <= k < index ==> page_aligned(#[trigger] pages@[k], page_size)),
    {
        if !pow2_u64(page_size) {
            return Err(GspFault::RegionMalformed(RegionError::BadPageSize { page_size }));
        }
        if pages.len() == 0 {
            return Err(GspFault::RegionMalformed(RegionError::NoEntries));
        }
        let mut index: usize = 0;
        while index < pages.len()
            invariant
                is_pow2(page_size),
                index <= pages@.len(),
                forall|k: int| 0 <= k < index ==> page_aligned(#[trigger] pages@[k], page_size),
            decreases pages@.len() - index,
        {
            let value = pages[index];
            if value & (page_size - 1) != 0 {
                assert(!page_aligned(value, page_size));
                return Err(
                    GspFault::RegionMalformed(RegionError::UnalignedEntry { index, value }),
                );
            }
            index = index + 1;
        }
        Ok(RegionMap { page_size, pages })
    }

    /// The region's total size in bytes.
    pub fn len(&self) -> (r: u64)
        ensures
            self.valid(),
            r == self.len_spec(),
    {
        proof {
            use_type_invariant(self);
        }
        self.pages.len() as u64 * self.page_size
    }

    /// Always false — a [`RegionMap`] cannot be constructed with zero pages.
    pub fn is_empty(&self) -> (r: bool)
        ensures
            self.valid(),
            !r,
            r == (self.len_spec() == 0),
    {
        proof {
            use_type_invariant(self);
            assert(self.pages@.len() * self.page_size > 0) by (nonlinear_arith)
                requires
                    self.pages@.len() > 0,
                    self.page_size > 0,
            ;
        }
        false
    }

    /// The physically contiguous runs `[offset, offset + len)` decomposes into.
    ///
    /// One entry per page crossing; a contiguous region still yields one run per page,
    /// deliberately, so the fragmented case is never a *different* code path. A range that
    /// leaves the region is [`GspFault::RegionOutOfRange`].
    pub fn runs(&self, offset: u64, len: u64) -> (r: Result<Vec<(u64, usize)>, GspFault>)
        ensures
            self.valid(),
            offset + len > self.len_spec() ==> r == Err::<Vec<(u64, usize)>, GspFault>(
                GspFault::RegionOutOfRange {
                    offset,
                    len,
                    region_len: self.len_spec() as u64,
                },
            ),
            offset + len <= self.len_spec() ==> (r matches Ok(v) && v@ == spec_runs(
                self.pages_spec(),
                self.page_size_spec() as nat,
                offset as nat,
                (offset + len) as nat,
            )),
    {
        proof {
            use_type_invariant(self);
        }
        let region_len = self.len();
        if len > u64::MAX - offset {
            return Err(GspFault::RegionOutOfRange { offset, len, region_len });
        }
        let end = offset + len;
        if end > region_len {
            return Err(GspFault::RegionOutOfRange { offset, len, region_len });
        }
        let ps = self.page_size;
        let ghost pages = self.pages@;
        let mut out: Vec<(u64, usize)> = Vec::new();
        let mut at = offset;
        while at < end
            invariant
                self.valid(),
                ps == self.page_size_spec(),
                pages == self.pages_spec(),
                ps > 0,
                offset <= at,
                end <= region_len,
                region_len == pages.len() * ps,
                out@ + spec_runs(pages, ps as nat, at as nat, end as nat) == spec_runs(
                    pages,
                    ps as nat,
                    offset as nat,
                    end as nat,
                ),
            decreases end - at,
        {
            let page = at / ps;
            let within = at % ps;
            let take = if ps - within < end - at {
                ps - within
            } else {
                end - at
            };
            proof {
                assert(page < pages.len()) by (nonlinear_arith)
                    requires
                        page == at / ps,
                        at < pages.len() * ps,
                        ps > 0,
                ;
            }
            let _npages = self.pages.len();
            let base = self.pages[page as usize];
            proof {
                assert(page_aligned(pages[page as int], ps));
                lemma_aligned_room(base, ps, within);
            }
            let run_take: usize = if take <= usize::MAX as u64 {
                take as usize
            } else {
                0
            };
            out.push((base + within, run_take));
            proof {
                let next = spec_runs(pages, ps as nat, (at + take) as nat, end as nat);
                let sw = (at as nat) % (ps as nat);
                assert(sw == within);
                let st: nat = if ps - sw < end - at {
                    (ps - sw) as nat
                } else {
                    (end - at) as nat
                };
                assert(st == take);
                assert(run_len(st as int) == run_take);
                assert(self.pages@ == pages);
                assert(base == pages[page as int]);
                assert(page as int == ((at as nat) / (ps as nat)) as int);
                assert(pages[((at as nat) / (ps as nat)) as int] == base);
                assert(spec_runs(pages, ps as nat, at as nat, end as nat) == seq![
                    ((base + within) as u64, run_take),
                ] + next);
                assert(out@ + next =~= (out@.drop_last() + seq![((base + within) as u64, run_take)])
                    + next);
            }
            at = at + take;
        }
        Ok(out)
    }
}

/// A page boundary has a full page of room after it: adding any in-page offset to an
/// aligned page address cannot leave the `u64` range.
proof fn lemma_aligned_room(base: u64, ps: u64, within: u64)
    requires
        page_aligned(base, ps),
        ps > 0,
        within < ps,
    ensures
        base + within <= u64::MAX,
{
    let m = (ps - 1) as u64;
    assert(base & m == 0 ==> base + m <= 0xffff_ffff_ffff_ffffu64) by (bit_vector);
}


/// Storing two runs one after the other is storing their concatenation.
pub proof fn lemma_store_append(
    mem: Map<int, u8>,
    a1: Seq<int>,
    d1: Seq<u8>,
    a2: Seq<int>,
    d2: Seq<u8>,
)
    requires
        a1.len() == d1.len(),
        a2.len() == d2.len(),
    ensures
        store(mem, a1 + a2, d1 + d2) == store(store(mem, a1, d1), a2, d2),
    decreases a1.len(),
{
    if a1.len() == 0 {
        assert(a1 + a2 =~= a2);
        assert(d1 + d2 =~= d2);
    } else {
        assert((a1 + a2).drop_first() =~= a1.drop_first() + a2);
        assert((d1 + d2).drop_first() =~= d1.drop_first() + d2);
        lemma_store_append(
            mem.insert(a1[0], d1[0]),
            a1.drop_first(),
            d1.drop_first(),
            a2,
            d2,
        );
    }
}

/// Storing at addresses that are all already guest RAM keeps the domain.
pub proof fn lemma_store_dom(mem: Map<int, u8>, addrs: Seq<int>, data: Seq<u8>)
    requires
        forall|i: int| 0 <= i < addrs.len() ==> mem.dom().contains(#[trigger] addrs[i]),
    ensures
        store(mem, addrs, data).dom() == mem.dom(),
    decreases addrs.len(),
{
    if addrs.len() == 0 || data.len() == 0 {
    } else {
        let m2 = mem.insert(addrs[0], data[0]);
        assert(m2.dom() =~= mem.dom());
        assert forall|i: int| 0 <= i < addrs.drop_first().len() implies m2.dom().contains(
            #[trigger] addrs.drop_first()[i],
        ) by {
            assert(addrs.drop_first()[i] == addrs[i + 1]);
        }
        lemma_store_dom(m2, addrs.drop_first(), data.drop_first());
    }
}

/// Storing at distinct addresses leaves each one holding its own byte.
pub proof fn lemma_store_distinct(mem: Map<int, u8>, addrs: Seq<int>, data: Seq<u8>, k: int)
    requires
        addrs.len() == data.len(),
        0 <= k < addrs.len(),
        forall|i: int, j: int|
            0 <= i < addrs.len() && 0 <= j < addrs.len() && i != j ==> addrs[i] != addrs[j],
    ensures
        store(mem, addrs, data).dom().contains(addrs[k]),
        store(mem, addrs, data)[addrs[k]] == data[k],
    decreases addrs.len(),
{
    let m2 = mem.insert(addrs[0], data[0]);
    if k == 0 {
        lemma_store_untouched(m2, addrs.drop_first(), data.drop_first(), addrs[0]);
    } else {
        assert forall|i: int, j: int|
            0 <= i < addrs.drop_first().len() && 0 <= j < addrs.drop_first().len() && i != j
                implies addrs.drop_first()[i] != addrs.drop_first()[j] by {
            assert(addrs[i + 1] != addrs[j + 1]);
        }
        lemma_store_distinct(m2, addrs.drop_first(), data.drop_first(), k - 1);
    }
}

/// An address no store names keeps its byte.
pub proof fn lemma_store_untouched(mem: Map<int, u8>, addrs: Seq<int>, data: Seq<u8>, a: int)
    requires
        forall|i: int| 0 <= i < addrs.len() ==> #[trigger] addrs[i] != a,
    ensures
        store(mem, addrs, data).dom().contains(a) == mem.dom().contains(a),
        mem.dom().contains(a) ==> store(mem, addrs, data)[a] == mem[a],
    decreases addrs.len(),
{
    if addrs.len() == 0 || data.len() == 0 {
    } else {
        assert(addrs[0] != a);
        assert forall|i: int| 0 <= i < addrs.drop_first().len() implies #[trigger] addrs.drop_first()[i]
            != a by {
            assert(addrs.drop_first()[i] == addrs[i + 1]);
        }
        lemma_store_untouched(
            mem.insert(addrs[0], data[0]),
            addrs.drop_first(),
            data.drop_first(),
            a,
        );
    }
}

/// Inside one run, region bytes map to consecutive guest-physical addresses.
proof fn lemma_run_linear(pages: Seq<u64>, ps: nat, at: nat, take: nat, j: int)
    requires
        ps > 0,
        at % ps + take <= ps,
        0 <= j < take,
    ensures
        page_gpa(pages, ps, at + j) == pages[(at / ps) as int] + at % ps + j,
{
    let q = at / ps;
    let w = at % ps;
    vstd::arithmetic::div_mod::lemma_fundamental_div_mod(at as int, ps as int);
    vstd::arithmetic::div_mod::lemma_fundamental_div_mod_converse(
        at + j,
        ps as int,
        q as int,
        w + j,
    );
}

impl RegionMap {
    /// Read `buf.len()` bytes from `offset` within the region, run by run.
    ///
    /// A range that leaves the region is refused before any guest RAM is read; a refused
    /// RAM access is [`GspFault::GuestRam`].
    pub fn read<R: GuestRam>(&self, ram: &mut R, offset: u64, buf: &mut [u8]) -> (r: Result<
        (),
        GspFault,
    >)
        ensures
            self.valid(),
            final(ram).memory() == old(ram).memory(),
            final(ram).writable() == old(ram).writable(),
            final(buf)@.len() == old(buf)@.len(),
            offset + old(buf)@.len() > self.len_spec() ==> r == Err::<(), GspFault>(
                GspFault::RegionOutOfRange {
                    offset,
                    len: old(buf)@.len() as u64,
                    region_len: self.len_spec() as u64,
                },
            ),
            r is Ok ==> offset + old(buf)@.len() <= self.len_spec() && self.covered(
                old(ram).memory(),
                offset as int,
                old(buf)@.len(),
            ) && final(buf)@ == self.bytes(old(ram).memory(), offset as int, old(buf)@.len()),
            r is Err && offset + old(buf)@.len() <= self.len_spec() ==> r matches Err(
                GspFault::GuestRam(_),
            ),
            offset + old(buf)@.len() <= self.len_spec() && self.covered(
                old(ram).memory(),
                offset as int,
                old(buf)@.len(),
            ) ==> r is Ok,
    {
        proof {
            use_type_invariant(self);
        }
        let total = buf.len();
        let runs = match self.runs(offset, total as u64) {
            Ok(v) => v,
            Err(e) => {
                return Err(e);
            },
        };
        let ghost mem = ram.memory();
        let ghost pages = self.pages@;
        let ghost ps = self.page_size as nat;
        let ghost end = (offset + total) as nat;
        let mut done: usize = 0;
        let mut k: usize = 0;
        while k < runs.len()
            invariant
                self.valid(),
                pages == self.pages_spec(),
                ps == self.page_size_spec(),
                ps > 0,
                ram.memory() == mem,
                mem == old(ram).memory(),
                ram.writable() == old(ram).writable(),
                buf@.len() == total,
                total == old(buf)@.len(),
                end == offset + total,
                end <= self.len_spec(),
                k <= runs@.len(),
                done <= total,
                runs@.subrange(k as int, runs@.len() as int) == spec_runs(
                    pages,
                    ps,
                    (offset + done) as nat,
                    end,
                ),
                self.covered(mem, offset as int, done as nat),
                buf@.subrange(0, done as int) == self.bytes(mem, offset as int, done as nat),
            decreases runs@.len() - k,
        {
            let run = runs[k];
            let gpa = run.0;
            let take = run.1;
            let ghost at = (offset + done) as nat;
            let ghost within = at % ps;
            let ghost st: nat = if ps - within < end - at {
                (ps - within) as nat
            } else {
                (end - at) as nat
            };
            proof {
                assert(runs@.subrange(k as int, runs@.len() as int)[0] == run);
                assert(at < end);
                assert(run == ((pages[(at / ps) as int] + within) as u64, run_len(st as int)));
                assert(st as int == take as int);
                assert(pages[(at / ps) as int] + within <= u64::MAX) by {
                    assert(at / ps < pages.len()) by (nonlinear_arith)
                        requires
                            at < pages.len() * ps,
                            ps > 0,
                    ;
                    assert(page_aligned(pages[(at / ps) as int], ps as u64));
                    lemma_aligned_room(pages[(at / ps) as int], ps as u64, within as u64);
                }
            }
            proof {
                if self.covered(mem, offset as int, total as nat) {
                    assert forall|i: int| 0 <= i < take implies #[trigger] mem.dom().contains(
                        gpa + i,
                    ) by {
                        lemma_run_linear(pages, ps, at, take as nat, i);
                        assert(self.gpa_of(offset + (done + i)) == page_gpa(pages, ps, at + i));
                        assert(mem.dom().contains(self.gpa_of(offset + (done + i))));
                    }
                }
            }
            let mut tmp = vec![0u8; take];
            match ram.read(gpa, tmp.as_mut_slice()) {
                Ok(()) => {},
                Err(e) => {
                    return Err(GspFault::GuestRam(e));
                },
            }
            let ghost before = buf@;
            let mut j: usize = 0;
            while j < take
                invariant
                    j <= take,
                    done + take <= total,
                    buf@.len() == total,
                    before.len() == total,
                    tmp@.len() == take,
                    forall|i: int| 0 <= i < done ==> buf@[i] == before[i],
                    forall|i: int| 0 <= i < j ==> #[trigger] buf@[done + i] == tmp@[i],
                decreases take - j,
            {
                buf[done + j] = tmp[j];
                j = j + 1;
            }
            proof {
                assert forall|i: int| 0 <= i < take implies #[trigger] page_gpa(
                    pages,
                    ps,
                    at + i,
                ) == gpa + i by {
                    lemma_run_linear(pages, ps, at, take as nat, i);
                }
                assert(self.covered(mem, offset as int, (done + take) as nat)) by {
                    assert forall|i: int| 0 <= i < done + take implies #[trigger] mem.dom().contains(
                        self.gpa_of(offset + i),
                    ) by {
                        if i >= done {
                            assert(self.gpa_of(offset + i) == page_gpa(pages, ps, at + (i - done)));
                        }
                    }
                }
                assert forall|i: int| 0 <= i < done + take implies #[trigger] buf@[i] == mem[self.gpa_of(
                    offset + i,
                )] by {
                    if i < done {
                        assert(before.subrange(0, done as int)[i] == before[i]);
                    } else {
                        assert(buf@[done + (i - done)] == tmp@[i - done]);
                        assert(self.gpa_of(offset + i) == page_gpa(pages, ps, at + (i - done)));
                    }
                }
                assert(runs@.subrange((k + 1) as int, runs@.len() as int) =~= runs@.subrange(
                    k as int,
                    runs@.len() as int,
                ).drop_first());
            }
            done = done + take;
            k = k + 1;
            proof {
                assert(buf@.subrange(0, done as int) =~= self.bytes(
                    mem,
                    offset as int,
                    done as nat,
                ));
            }
        }
        proof {
            let at = (offset + done) as nat;
            if at < end {
                assert(spec_runs(pages, ps, at, end).len() > 0);
            }
            assert(buf@ =~= buf@.subrange(0, done as int));
        }
        Ok(())
    }
}

impl RegionMap {
    /// Write `bytes` at `offset` within the region, run by run.
    ///
    /// A range that leaves the region is refused before any guest RAM is touched; on
    /// success every byte went to the guest-physical address the region's own table names
    /// for it, in offset order.
    #[verifier::spinoff_prover]
    pub fn write<R: GuestRam>(&self, ram: &mut R, offset: u64, bytes: &[u8]) -> (r: Result<
        (),
        GspFault,
    >)
        ensures
            self.valid(),
            offset + bytes@.len() > self.len_spec() ==> r == Err::<(), GspFault>(
                GspFault::RegionOutOfRange {
                    offset,
                    len: bytes@.len() as u64,
                    region_len: self.len_spec() as u64,
                },
            ) && final(ram).memory() == old(ram).memory(),
            r is Ok ==> offset + bytes@.len() <= self.len_spec() && self.covered(
                old(ram).memory(),
                offset as int,
                bytes@.len(),
            ) && final(ram).memory() == store(
                old(ram).memory(),
                self.addrs(offset as int, bytes@.len()),
                bytes@,
            ),
            r is Err && offset + bytes@.len() <= self.len_spec() ==> r matches Err(
                GspFault::GuestRam(_),
            ),
            final(ram).writable() == old(ram).writable(),
            final(ram).memory().dom() == old(ram).memory().dom(),
            offset + bytes@.len() <= self.len_spec() && all_in(
                old(ram).writable(),
                self.addrs(offset as int, bytes@.len()),
            ) ==> r is Ok,
    {
        proof {
            use_type_invariant(self);
        }
        let total = bytes.len();
        let runs = match self.runs(offset, total as u64) {
            Ok(v) => v,
            Err(e) => {
                return Err(e);
            },
        };
        let ghost mem = ram.memory();
        let ghost pages = self.pages@;
        let ghost ps = self.page_size as nat;
        let ghost end = (offset + total) as nat;
        let mut done: usize = 0;
        let mut k: usize = 0;
        proof {
            assert(self.addrs(offset as int, 0) =~= Seq::<int>::empty());
            assert(bytes@.subrange(0, 0) =~= Seq::<u8>::empty());
        }
        while k < runs.len()
            invariant
                self.valid(),
                pages == self.pages_spec(),
                ps == self.page_size_spec(),
                ps > 0,
                mem == old(ram).memory(),
                ram.writable() == old(ram).writable(),
                ram.memory().dom() == mem.dom(),
                ram.memory() == store(
                    mem,
                    self.addrs(offset as int, done as nat),
                    bytes@.subrange(0, done as int),
                ),
                bytes@.len() == total,
                end == offset + total,
                end <= self.len_spec(),
                k <= runs@.len(),
                done <= total,
                runs@.subrange(k as int, runs@.len() as int) == spec_runs(
                    pages,
                    ps,
                    (offset + done) as nat,
                    end,
                ),
                self.covered(mem, offset as int, done as nat),
            decreases runs@.len() - k,
        {
            let run = runs[k];
            let gpa = run.0;
            let take = run.1;
            let ghost at = (offset + done) as nat;
            let ghost within = at % ps;
            let ghost st: nat = if ps - within < end - at {
                (ps - within) as nat
            } else {
                (end - at) as nat
            };
            proof {
                assert(runs@.subrange(k as int, runs@.len() as int)[0] == run);
                assert(at < end);
                assert(run == ((pages[(at / ps) as int] + within) as u64, run_len(st as int)));
                assert(st as int == take as int);
                assert(pages[(at / ps) as int] + within <= u64::MAX) by {
                    assert(at / ps < pages.len()) by (nonlinear_arith)
                        requires
                            at < pages.len() * ps,
                            ps > 0,
                    ;
                    assert(page_aligned(pages[(at / ps) as int], ps as u64));
                    lemma_aligned_room(pages[(at / ps) as int], ps as u64, within as u64);
                }
            }
            let ghost cur = ram.memory();
            let chunk = &bytes[done..done + take];
            proof {
                if all_in(old(ram).writable(), self.addrs(offset as int, total as nat)) {
                    assert forall|i: int| 0 <= i < take implies old(ram).writable().contains(
                        #[trigger] linear_addrs(gpa as int, take as nat)[i],
                    ) by {
                        lemma_run_linear(pages, ps, at, take as nat, i);
                        assert(self.addrs(offset as int, total as nat)[done + i] == self.gpa_of(
                            offset + (done + i),
                        ));
                    }
                }
            }
            match ram.write(gpa, chunk) {
                Ok(()) => {},
                Err(e) => {
                    return Err(GspFault::GuestRam(e));
                },
            }
            proof {
                assert(chunk@ == bytes@.subrange(done as int, done + take));
                assert(linear_addrs(gpa as int, take as nat) =~= self.addrs(at as int, take as nat))
                    by {
                    assert forall|i: int| 0 <= i < take implies #[trigger] linear_addrs(
                        gpa as int,
                        take as nat,
                    )[i] == self.addrs(at as int, take as nat)[i] by {
                        lemma_run_linear(pages, ps, at, take as nat, i);
                    }
                }
                assert forall|i: int| 0 <= i < take implies cur.dom().contains(
                    #[trigger] linear_addrs(gpa as int, take as nat)[i],
                ) by {
                    assert(cur.dom().contains(gpa + i));
                }
                lemma_store_dom(cur, linear_addrs(gpa as int, take as nat), chunk@);
                lemma_store_append(
                    mem,
                    self.addrs(offset as int, done as nat),
                    bytes@.subrange(0, done as int),
                    self.addrs(at as int, take as nat),
                    chunk@,
                );
                assert(self.addrs(offset as int, done as nat) + self.addrs(at as int, take as nat)
                    =~= self.addrs(offset as int, (done + take) as nat));
                assert(bytes@.subrange(0, done as int) + chunk@ =~= bytes@.subrange(
                    0,
                    (done + take) as int,
                ));
                assert(self.covered(mem, offset as int, (done + take) as nat)) by {
                    assert forall|i: int| 0 <= i < done + take implies #[trigger] mem.dom().contains(
                        self.gpa_of(offset + i),
                    ) by {
                        if i >= done {
                            lemma_run_linear(pages, ps, at, take as nat, i - done);
                            assert(cur.dom().contains(gpa + (i - done)));
                        }
                    }
                }
                assert(runs@.subrange((k + 1) as int, runs@.len() as int) =~= runs@.subrange(
                    k as int,
                    runs@.len() as int,
                ).drop_first());
            }
            done = done + take;
            k = k + 1;
        }
        proof {
            let at = (offset + done) as nat;
            if at < end {
                assert(spec_runs(pages, ps, at, end).len() > 0);
            }
            assert(bytes@ =~= bytes@.subrange(0, done as int));
        }
        Ok(())
    }

    /// Read one little-endian `u32` at `offset`.
    pub fn read_u32<R: GuestRam>(&self, ram: &mut R, offset: u64) -> (r: Result<u32, GspFault>)
        ensures
            self.valid(),
            final(ram).memory() == old(ram).memory(),
            final(ram).writable() == old(ram).writable(),
            offset + 4 > self.len_spec() ==> r == Err::<u32, GspFault>(
                GspFault::RegionOutOfRange {
                    offset,
                    len: 4,
                    region_len: self.len_spec() as u64,
                },
            ),
            r matches Ok(v) ==> offset + 4 <= self.len_spec() && self.covered(
                old(ram).memory(),
                offset as int,
                4,
            ) && v == le_u32(self.bytes(old(ram).memory(), offset as int, 4), 0),
            r is Err && offset + 4 <= self.len_spec() ==> r matches Err(GspFault::GuestRam(_)),
            offset + 4 <= self.len_spec() && self.covered(old(ram).memory(), offset as int, 4)
                ==> r is Ok,
    {
        let mut b = [0u8;4];
        match self.read(ram, offset, &mut b) {
            Ok(()) => {},
            Err(e) => {
                return Err(e);
            },
        }
        Ok(get_u32(&b, 0))
    }

    /// Write one little-endian `u32` at `offset`.
    pub fn write_u32<R: GuestRam>(&self, ram: &mut R, offset: u64, value: u32) -> (r: Result<
        (),
        GspFault,
    >)
        ensures
            self.valid(),
            offset + 4 > self.len_spec() ==> r == Err::<(), GspFault>(
                GspFault::RegionOutOfRange {
                    offset,
                    len: 4,
                    region_len: self.len_spec() as u64,
                },
            ) && final(ram).memory() == old(ram).memory(),
            r is Ok ==> offset + 4 <= self.len_spec() && self.covered(
                old(ram).memory(),
                offset as int,
                4,
            ) && final(ram).memory() == store(
                old(ram).memory(),
                self.addrs(offset as int, 4),
                le_bytes_u32(value),
            ),
            r is Err && offset + 4 <= self.len_spec() ==> r matches Err(GspFault::GuestRam(_)),
            final(ram).writable() == old(ram).writable(),
            final(ram).memory().dom() == old(ram).memory().dom(),
            offset + 4 <= self.len_spec() && all_in(old(ram).writable(), self.addrs(offset as int, 4))
                ==> r is Ok,
    {
        let mut v: Vec<u8> = vec![0u8; 4];
        crate::wire::set_u32(&mut v, 0, value);
        assert(v@ =~= le_bytes_u32(value));
        self.write(ram, offset, v.as_slice())
    }
}

/// **What a region read gives back is what a region write wrote** — wherever the
/// written range's bytes map to distinct guest-physical addresses.
///
/// A guest may describe a region whose table names one physical page twice; there a
/// later byte overwrites an earlier one, and the law is stated without such ranges.
///
/// After a successful [`RegionMap::write`] the range is still covered, so
/// [`RegionMap::read`] of it succeeds and gives back exactly these bytes.
pub proof fn law_region_read_after_write(
    region: RegionMap,
    mem: Map<int, u8>,
    offset: int,
    data: Seq<u8>,
)
    requires
        region.covered(mem, offset, data.len()),
        forall|i: int, j: int|
            0 <= i < data.len() && 0 <= j < data.len() && i != j ==> #[trigger] region.addrs(
                offset,
                data.len(),
            )[i] != #[trigger] region.addrs(offset, data.len())[j],
    ensures
        region.covered(store(mem, region.addrs(offset, data.len()), data), offset, data.len()),
        region.bytes(store(mem, region.addrs(offset, data.len()), data), offset, data.len())
            == data,
{
    let addrs = region.addrs(offset, data.len());
    assert forall|k: int| 0 <= k < data.len() implies store(mem, addrs, data).dom().contains(
        #[trigger] region.gpa_of(offset + k),
    ) && store(mem, addrs, data)[region.gpa_of(offset + k)] == data[k] by {
        lemma_store_distinct(mem, addrs, data, k);
    }
    assert(region.bytes(store(mem, addrs, data), offset, data.len()) =~= data);
}

/// Two distinct page boundaries with in-page offsets never meet.
proof fn lemma_aligned_distinct(a: u64, b: u64, ps: u64, x: u64, y: u64)
    requires
        is_pow2(ps),
        page_aligned(a, ps),
        page_aligned(b, ps),
        a != b,
        x < ps,
        y < ps,
    ensures
        a + x != b + y,
{
    let m = (ps - 1) as u64;
    lemma_aligned_room(a, ps, x);
    lemma_aligned_room(b, ps, y);
    assert(ps != 0 && ps & m == 0 && m == ps - 1 && a & m == 0 && b & m == 0 && x < ps && y < ps
        && a + x <= u64::MAX && b + y <= u64::MAX ==> (a + x == b + y ==> a == b))
        by (bit_vector);
}

/// The pages of `region` are pairwise distinct frames.
pub open spec fn distinct_pages(region: RegionMap) -> bool {
    forall|p: int, q: int|
        0 <= p < q < region.pages_spec().len() ==> #[trigger] region.pages_spec()[p]
            != #[trigger] region.pages_spec()[q]
}

/// **Distinct frames give distinct addresses**: in a region whose pages are pairwise
/// distinct frames, distinct bytes of a range inside it live at distinct guest-physical
/// addresses.
pub proof fn law_distinct_pages_distinct_addrs(region: RegionMap, offset: int, len: nat)
    requires
        region.valid(),
        distinct_pages(region),
        0 <= offset,
        offset + len <= region.len_spec(),
    ensures
        forall|i: int, j: int|
            0 <= i < len && 0 <= j < len && i != j ==> #[trigger] region.addrs(offset, len)[i]
                != #[trigger] region.addrs(offset, len)[j],
{
    let ps = region.page_size_spec() as nat;
    let pages = region.pages_spec();
    assert(ps > 0);
    assert forall|i: int, j: int|
        0 <= i < len && 0 <= j < len && i != j implies #[trigger] region.addrs(offset, len)[i]
            != #[trigger] region.addrs(offset, len)[j] by {
        let oi = offset + i;
        let oj = offset + j;
        let qi = oi / ps as int;
        let qj = oj / ps as int;
        let ri = oi % ps as int;
        let rj = oj % ps as int;
        vstd::arithmetic::div_mod::lemma_fundamental_div_mod(oi, ps as int);
        vstd::arithmetic::div_mod::lemma_fundamental_div_mod(oj, ps as int);
        assert(0 <= qi < pages.len()) by (nonlinear_arith)
            requires
                0 <= oi < pages.len() * ps,
                ps > 0,
                qi == oi / ps as int,
        ;
        assert(0 <= qj < pages.len()) by (nonlinear_arith)
            requires
                0 <= oj < pages.len() * ps,
                ps > 0,
                qj == oj / ps as int,
        ;
        if qi == qj {
            assert(ri != rj);
        } else {
            assert(pages[qi] != pages[qj]) by {
                if qi < qj {
                    assert(pages[qi] != pages[qj]);
                } else {
                    assert(pages[qj] != pages[qi]);
                }
            }
            assert(page_aligned(pages[qi], ps as u64));
            assert(page_aligned(pages[qj], ps as u64));
            lemma_aligned_distinct(pages[qi], pages[qj], ps as u64, ri as u64, rj as u64);
        }
        assert(region.addrs(offset, len)[i] == pages[qi] + ri);
        assert(region.addrs(offset, len)[j] == pages[qj] + rj);
    }
}

/// **A region read after a region write gives the bytes back** in a region whose pages
/// are pairwise distinct frames: the written range stays guest RAM, so
/// [`RegionMap::read`] of it succeeds, and it reads exactly `data`.
pub proof fn law_region_read_after_write_distinct_pages(
    region: RegionMap,
    mem: Map<int, u8>,
    offset: int,
    data: Seq<u8>,
)
    requires
        region.valid(),
        distinct_pages(region),
        0 <= offset,
        offset + data.len() <= region.len_spec(),
        region.covered(mem, offset, data.len()),
    ensures
        region.covered(store(mem, region.addrs(offset, data.len()), data), offset, data.len()),
        region.bytes(store(mem, region.addrs(offset, data.len()), data), offset, data.len())
            == data,
{
    law_distinct_pages_distinct_addrs(region, offset, data.len());
    law_region_read_after_write(region, mem, offset, data);
}

/// **A `u32` read after a `u32` write gives the value back** in a region whose pages are
/// pairwise distinct frames: [`RegionMap::read_u32`] after a successful
/// [`RegionMap::write_u32`] of `v` reads `v`.
pub proof fn law_region_read_u32_after_write_u32(region: RegionMap, mem: Map<int, u8>, offset: int, v: u32)
    requires
        region.valid(),
        distinct_pages(region),
        0 <= offset,
        offset + 4 <= region.len_spec(),
        region.covered(mem, offset, 4),
    ensures
        region.covered(store(mem, region.addrs(offset, 4), le_bytes_u32(v)), offset, 4),
        le_u32(region.bytes(store(mem, region.addrs(offset, 4), le_bytes_u32(v)), offset, 4), 0)
            == v,
{
    law_region_read_after_write_distinct_pages(region, mem, offset, le_bytes_u32(v));
    crate::wire::lemma_le_u32_roundtrip(v);
}

/// A region write leaves every guest-physical address outside its range as it was.
pub proof fn law_region_write_elsewhere(
    region: RegionMap,
    mem: Map<int, u8>,
    offset: int,
    data: Seq<u8>,
    gpa: int,
)
    requires
        forall|i: int| 0 <= i < data.len() ==> #[trigger] region.addrs(offset, data.len())[i] != gpa,
    ensures
        store(mem, region.addrs(offset, data.len()), data).dom().contains(gpa)
            == mem.dom().contains(gpa),
        mem.dom().contains(gpa) ==> store(mem, region.addrs(offset, data.len()), data)[gpa]
            == mem[gpa],
{
    let addrs = region.addrs(offset, data.len());
    lemma_store_untouched(mem, addrs, data, gpa);
}

} // verus!
