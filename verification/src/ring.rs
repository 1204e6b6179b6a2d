//! **The ring algebra.** Geometry, the acceptance predicate, the cursors.
//!
//! Everything here is `msgq`, NVIDIA's chip-agnostic SPSC ring library, reproduced so
//! that "would the guest accept this?" is answerable offline.
//!
//! ## Derive, don't declare
//!
//! Every ring parameter is read out of the header the guest itself wrote. What cannot be
//! derived — `MSGQ_VERSION`, `MSGQ_MSG_SIZE_MIN`, the `MSGQ_FLAGS_SWAP_RX` bit — arrives
//! in a [`MsgqAbi`] value.
//!
//! [`TxHeader`] is eight little-endian `u32`s in a fixed order; its size and the rx
//! header's are consequences of that shape.
use vstd::prelude::*;

use crate::fault::{GspFault, RxLinkCode};
use crate::ram::{GuestRam, RegionMap};
use crate::wire::{get_u32, le_bytes_u32, le_u32, lemma_le_u32_at};

verus! {

/// The constants `msgq` needs that the guest does **not** declare anywhere.
#[derive(Debug, Clone, Copy, PartialEq, Eq)]
pub struct MsgqAbi {
    /// The `MSGQ_VERSION` this driver publishes and requires.
    pub version: u32,
    /// `MSGQ_MSG_SIZE_MIN` — the floor on element size.
    pub msg_size_min: u32,
    /// The `MSGQ_FLAGS_SWAP_RX` bit.
    pub swap_rx_flag: u32,
    /// The stride the shared region's self-describing page table is written in —
    /// `RM_PAGE_SIZE`, a driver constant, and not the host CPU page size.
    pub region_page_size: u32,
}

/// A ring's element count — **never zero, by type**, so a division by it cannot be
/// reached with a zero divisor.
#[derive(Debug, Clone, Copy, PartialEq, Eq, PartialOrd, Ord, Hash)]
pub struct MsgCount(u32);

impl View for MsgCount {
    type V = u32;

    closed spec fn view(&self) -> u32 {
        self.0
    }
}

impl MsgCount {
    #[verifier::type_invariant]
    spec fn nonzero(self) -> bool {
        self.0 > 0
    }

    /// Validate a guest-declared element count.
    pub fn new(n: u32) -> (r: Result<MsgCount, GspFault>)
        ensures
            n == 0 ==> r == Err::<MsgCount, GspFault>(GspFault::MsgCountZero),
            n != 0 ==> (r matches Ok(c) && c@ == n),
    {
        if n == 0 {
            Err(GspFault::MsgCountZero)
        } else {
            Ok(MsgCount(n))
        }
    }

    /// The count.
    pub fn get(self) -> (r: u32)
        ensures
            r == self@,
            r > 0,
    {
        proof {
            use_type_invariant(&self);
        }
        self.0
    }

    /// Reduce a ring position to a slot index. The only modulo in the crate.
    pub fn slot(self, n: u32) -> (r: Slot)
        ensures
            self@ > 0,
            r@ == n % self@,
            r@ < self@,
    {
        let c = self.get();
        Slot(n % c)
    }
}

/// A validated slot index: always `< msgCount` of the count that made it.
#[derive(Debug, Clone, Copy, PartialEq, Eq, PartialOrd, Ord, Hash)]
pub struct Slot(u32);

impl View for Slot {
    type V = u32;

    closed spec fn view(&self) -> u32 {
        self.0
    }
}

impl Slot {
    /// The index.
    pub fn index(self) -> (r: u32)
        ensures
            r == self@,
    {
        self.0
    }
}

/// The `msgqTxHeader` a queue's producer publishes, decoded.
#[derive(Debug, Clone, Copy, PartialEq, Eq, Default)]
pub struct TxHeader {
    /// `version` — must equal [`MsgqAbi::version`] or the peer refuses with `-9`.
    pub version: u32,
    /// `size` — the whole backing store, in bytes.
    pub size: u32,
    /// `msgSize` — one element, in bytes.
    pub msg_size: u32,
    /// `msgCount` — elements in the ring.
    pub msg_count: u32,
    /// `writePtr` — the producer's position, modulo `msgCount`.
    pub write_ptr: u32,
    /// `flags` — carries `MSGQ_FLAGS_SWAP_RX`.
    pub flags: u32,
    /// `rxHdrOff` — where the *consumer's* 4-byte header sits in this backing store.
    pub rx_hdr_off: u32,
    /// `entryOff` — where the elements start in this backing store.
    pub entry_off: u32,
}

/// Field count. The header is exactly this many little-endian `u32`s.
pub const TX_HEADER_WORDS: usize = 8;

/// `sizeof(msgqTxHeader)` — a consequence of [`TX_HEADER_WORDS`].
pub const TX_HEADER_BYTES: usize = 32;

/// Byte offset of `writePtr`, the one field a producer rewrites in place.
pub const TX_HEADER_WRITE_PTR_OFFSET: u64 = 16;

/// `sizeof(msgqRxHeader)` — one `u32`, `readPtr`.
pub const RX_HEADER_BYTES: u32 = 4;

/// The header the first 32 bytes of `b` encode.
pub open spec fn spec_tx_header(b: Seq<u8>) -> TxHeader {
    TxHeader {
        version: le_u32(b, 0),
        size: le_u32(b, 4),
        msg_size: le_u32(b, 8),
        msg_count: le_u32(b, 12),
        write_ptr: le_u32(b, 16),
        flags: le_u32(b, 20),
        rx_hdr_off: le_u32(b, 24),
        entry_off: le_u32(b, 28),
    }
}

/// The 32 bytes a header is published as: its words in field order, little-endian.
pub open spec fn spec_tx_header_bytes(h: TxHeader) -> Seq<u8> {
    le_bytes_u32(h.version) + le_bytes_u32(h.size) + le_bytes_u32(h.msg_size) + le_bytes_u32(
        h.msg_count,
    ) + le_bytes_u32(h.write_ptr) + le_bytes_u32(h.flags) + le_bytes_u32(h.rx_hdr_off)
        + le_bytes_u32(h.entry_off)
}

impl TxHeader {
    /// Decode a header from the guest's backing store.
    ///
    /// Refuses with [`GspFault::Truncated`] if fewer than 32 bytes are supplied.
    pub fn decode(bytes: &[u8]) -> (r: Result<TxHeader, GspFault>)
        ensures
            bytes@.len() < TX_HEADER_BYTES ==> r == Err::<TxHeader, GspFault>(
                GspFault::Truncated { need: TX_HEADER_BYTES, have: bytes@.len() as usize },
            ),
            bytes@.len() >= TX_HEADER_BYTES ==> r == Ok::<TxHeader, GspFault>(
                spec_tx_header(bytes@),
            ),
    {
        if bytes.len() < TX_HEADER_BYTES {
            return Err(GspFault::Truncated { need: TX_HEADER_BYTES, have: bytes.len() });
        }
        Ok(
            TxHeader {
                version: get_u32(bytes, 0),
                size: get_u32(bytes, 4),
                msg_size: get_u32(bytes, 8),
                msg_count: get_u32(bytes, 12),
                write_ptr: get_u32(bytes, 16),
                flags: get_u32(bytes, 20),
                rx_hdr_off: get_u32(bytes, 24),
                entry_off: get_u32(bytes, 28),
            },
        )
    }

    /// Encode a header for publication.
    pub fn encode(&self) -> (out: [u8; 32])
        ensures
            out@ == spec_tx_header_bytes(*self),
    {
        let mut out = [0u8;32];
        put_word(&mut out, 0, self.version);
        put_word(&mut out, 4, self.size);
        put_word(&mut out, 8, self.msg_size);
        put_word(&mut out, 12, self.msg_count);
        put_word(&mut out, 16, self.write_ptr);
        put_word(&mut out, 20, self.flags);
        put_word(&mut out, 24, self.rx_hdr_off);
        put_word(&mut out, 28, self.entry_off);
        assert(out@ =~= spec_tx_header_bytes(*self));
        out
    }
}

/// Store one header word little-endian at `at`; every other byte is kept.
fn put_word(out: &mut [u8; 32], at: usize, v: u32)
    requires
        at + 4 <= 32,
    ensures
        final(out)@ == old(out)@.subrange(0, at as int) + le_bytes_u32(v) + old(out)@.subrange(
            at + 4,
            32,
        ),
{
    out[at] = (v % 0x100) as u8;
    out[at + 1] = ((v / 0x100) % 0x100) as u8;
    out[at + 2] = ((v / 0x1_0000) % 0x100) as u8;
    out[at + 3] = (v / 0x100_0000) as u8;
    assert(out@ =~= old(out)@.subrange(0, at as int) + le_bytes_u32(v) + old(out)@.subrange(
        at + 4,
        32,
    ));
}

/// Decoding what [`TxHeader::encode`] publishes gives back the header published — the
/// two are inverse, word for word.
pub proof fn law_tx_header_roundtrip(h: TxHeader)
    ensures
        spec_tx_header_bytes(h).len() == TX_HEADER_BYTES,
        spec_tx_header(spec_tx_header_bytes(h)) == h,
{
    let b = spec_tx_header_bytes(h);
    assert(b.subrange(0, 4) =~= le_bytes_u32(h.version));
    lemma_le_u32_at(b, 0, h.version);
    assert(b.subrange(4, 8) =~= le_bytes_u32(h.size));
    lemma_le_u32_at(b, 4, h.size);
    assert(b.subrange(8, 12) =~= le_bytes_u32(h.msg_size));
    lemma_le_u32_at(b, 8, h.msg_size);
    assert(b.subrange(12, 16) =~= le_bytes_u32(h.msg_count));
    lemma_le_u32_at(b, 12, h.msg_count);
    assert(b.subrange(16, 20) =~= le_bytes_u32(h.write_ptr));
    lemma_le_u32_at(b, 16, h.write_ptr);
    assert(b.subrange(20, 24) =~= le_bytes_u32(h.flags));
    lemma_le_u32_at(b, 20, h.flags);
    assert(b.subrange(24, 28) =~= le_bytes_u32(h.rx_hdr_off));
    lemma_le_u32_at(b, 24, h.rx_hdr_off);
    assert(b.subrange(28, 32) =~= le_bytes_u32(h.entry_off));
    lemma_le_u32_at(b, 28, h.entry_off);
}

/// `a + b`, clamped at `u32::MAX`.
pub open spec fn sat_add_u32(a: u32, b: u32) -> u32 {
    if a + b > u32::MAX {
        u32::MAX
    } else {
        (a + b) as u32
    }
}

/// The element count the guest derives from `size`, `entryOff` and `msgSize`:
/// `(size - entryOff) / msgSize`, with a clamped subtraction and `0` for a zero divisor.
pub open spec fn derived_msg_count(size: u32, entry_off: u32, msg_size: u32) -> u32 {
    if msg_size == 0 {
        0
    } else if size < entry_off {
        0
    } else {
        ((size - entry_off) / (msg_size as int)) as u32
    }
}

/// The guest's `msgqRxLink` verdict on `published`, check for check and in its order.
pub open spec fn spec_rx_link_check(
    published: TxHeader,
    peer_tx_rx_hdr_off: u32,
    size: u32,
    msg_size: u32,
    abi: MsgqAbi,
) -> Result<(), RxLinkCode> {
    if msg_size < abi.msg_size_min {
        Err(RxLinkCode::MsgSizeBelowMin)
    } else if msg_size > size {
        Err(RxLinkCode::MsgSizeAboveQueue)
    } else if size < sat_add_u32(published.entry_off, msg_size) {
        Err(RxLinkCode::EntryOffTooLarge)
    } else if published.size != size {
        Err(RxLinkCode::SizeMismatch)
    } else if published.msg_size != msg_size {
        Err(RxLinkCode::MsgSizeMismatch)
    } else if published.version != abi.version {
        Err(RxLinkCode::VersionMismatch)
    } else if published.rx_hdr_off < TX_HEADER_BYTES || published.entry_off < sat_add_u32(
        peer_tx_rx_hdr_off,
        RX_HEADER_BYTES,
    ) || published.msg_count != derived_msg_count(size, published.entry_off, msg_size) {
        Err(RxLinkCode::DerivedFieldsMismatch)
    } else {
        Ok(())
    }
}

/// Run the guest's own `msgqRxLink` acceptance predicate against a header we are about
/// to publish.
///
/// Two of the guest's checks are guest-local state (`-1`, `-5`) and cannot be evaluated
/// from here. `peer_tx_rx_hdr_off` is the **command** queue's `rxHdrOff`: check `-10`'s
/// middle term reads the local TX side's value, reproduced as it ships.
pub fn rx_link_check(
    published: &TxHeader,
    peer_tx_rx_hdr_off: u32,
    size: u32,
    msg_size: u32,
    abi: &MsgqAbi,
) -> (r: Result<(), RxLinkCode>)
    ensures
        r == spec_rx_link_check(*published, peer_tx_rx_hdr_off, size, msg_size, *abi),
{
    if msg_size < abi.msg_size_min {
        return Err(RxLinkCode::MsgSizeBelowMin);
    }
    if msg_size > size {
        return Err(RxLinkCode::MsgSizeAboveQueue);
    }
    if size < published.entry_off.saturating_add(msg_size) {
        return Err(RxLinkCode::EntryOffTooLarge);
    }
    if published.size != size {
        return Err(RxLinkCode::SizeMismatch);
    }
    if published.msg_size != msg_size {
        return Err(RxLinkCode::MsgSizeMismatch);
    }
    if published.version != abi.version {
        return Err(RxLinkCode::VersionMismatch);
    }
    let derived_count: u32 = if msg_size == 0 {
        0
    } else {
        size.saturating_sub(published.entry_off) / msg_size
    };
    if published.rx_hdr_off < 32 || published.entry_off < peer_tx_rx_hdr_off.saturating_add(
        RX_HEADER_BYTES,
    ) || published.msg_count != derived_count {
        return Err(RxLinkCode::DerivedFieldsMismatch);
    }
    Ok(())
}

/// Free elements in a ring of `n` we produce into: `readPtr + n - writePtr - 1`, reduced
/// once, or the named refusal of an out-of-range peer read pointer.
pub open spec fn spec_free_elements(read_ptr: u32, write_ptr: u32, n: u32) -> Result<
    u32,
    GspFault,
> {
    if read_ptr >= n {
        Err(GspFault::PeerReadPtrOutOfRange { value: read_ptr, count: n })
    } else {
        let free = read_ptr + n - (write_ptr % n) - 1;
        Ok(
            if free >= n {
                (free - n) as u32
            } else {
                free as u32
            },
        )
    }
}

/// Elements available to consume from a ring of `n`: `writePtr + n - readPtr`, reduced
/// once, **no `-1`**, or the named refusal of an out-of-range peer write pointer.
pub open spec fn spec_available_elements(write_ptr: u32, read_ptr: u32, n: u32) -> Result<
    u32,
    GspFault,
> {
    if write_ptr >= n {
        Err(GspFault::PeerWritePtrOutOfRange { value: write_ptr, count: n })
    } else {
        let avail = write_ptr + n - (read_ptr % n);
        Ok(
            if avail >= n {
                (avail - n) as u32
            } else {
                avail as u32
            },
        )
    }
}

/// Free elements in a ring we produce into, exactly as the peer computes it.
///
/// The `-1` is what keeps a full ring distinguishable from an empty one. The out-of-range
/// guard is a **named fault**, because `readPtr` lives in guest-writable memory. The sum
/// is taken wide, so no ring size can overflow it.
pub fn free_elements(read_ptr: u32, write_ptr: u32, count: MsgCount) -> (r: Result<
    u32,
    GspFault,
>)
    ensures
        r == spec_free_elements(read_ptr, write_ptr, count@),
{
    let n = count.get();
    if read_ptr >= n {
        return Err(GspFault::PeerReadPtrOutOfRange { value: read_ptr, count: n });
    }
    let mut free: u64 = read_ptr as u64 + n as u64 - (write_ptr % n) as u64 - 1;
    if free >= n as u64 {
        free -= n as u64;
    }
    Ok(free as u32)
}

/// Elements available to consume, exactly as the peer computes it. The guard is on the
/// *peer's* `writePtr` — hostile input to us in precisely the way ours is to it. The sum
/// is taken wide, so no ring size can overflow it.
pub fn available_elements(write_ptr: u32, read_ptr: u32, count: MsgCount) -> (r: Result<
    u32,
    GspFault,
>)
    ensures
        r == spec_available_elements(write_ptr, read_ptr, count@),
{
    let n = count.get();
    if write_ptr >= n {
        return Err(GspFault::PeerWritePtrOutOfRange { value: write_ptr, count: n });
    }
    let mut avail: u64 = write_ptr as u64 + n as u64 - (read_ptr % n) as u64;
    if avail >= n as u64 {
        avail -= n as u64;
    }
    Ok(avail as u32)
}

/// For pointers inside a ring of `n`, the producer's free space and the consumer's
/// available count always total `n - 1`: one slot is kept back, so a full ring can never
/// read as an empty one.
pub proof fn law_free_plus_available(read_ptr: u32, write_ptr: u32, n: u32)
    requires
        read_ptr < n,
        write_ptr < n,
    ensures
        spec_free_elements(read_ptr, write_ptr, n) is Ok,
        spec_available_elements(write_ptr, read_ptr, n) is Ok,
        spec_free_elements(read_ptr, write_ptr, n)->Ok_0 + spec_available_elements(
            write_ptr,
            read_ptr,
            n,
        )->Ok_0 == n - 1,
        spec_available_elements(write_ptr, read_ptr, n)->Ok_0 < n,
        spec_free_elements(read_ptr, write_ptr, n)->Ok_0 < n,
{
    assert(write_ptr % n == write_ptr) by {
        vstd::arithmetic::div_mod::lemma_small_mod(write_ptr as nat, n as nat);
    }
    assert(read_ptr % n == read_ptr) by {
        vstd::arithmetic::div_mod::lemma_small_mod(read_ptr as nat, n as nat);
    }
}

/// Our **position** in a ring we produce into (the status queue), binding-scoped.
#[derive(Debug, Clone, Copy, PartialEq, Eq, Default)]
pub struct TxCursor {
    /// Ring position, always `< msgCount`.
    pub write_ptr: u32,
    /// The producer's **cached** free-element count, exactly as `msgq` keeps it: seeded
    /// `msgCount - 1`, consulted first, refreshed from the peer only when short.
    pub free_cache: u32,
}

impl TxCursor {
    /// A cursor for a freshly bound ring: position 0, `msgCount - 1` free.
    pub fn fresh(count: MsgCount) -> (r: TxCursor)
        ensures
            count@ > 0,
            r == (TxCursor { write_ptr: 0, free_cache: (count@ - 1) as u32 }),
    {
        TxCursor { write_ptr: 0, free_cache: count.get() - 1 }
    }
}

/// Our position in a ring we consume from (the command queue). Binding-scoped.
#[derive(Debug, Clone, Copy, PartialEq, Eq, Default)]
pub struct RxCursor {
    /// Ring position, always `< msgCount`.
    pub read_ptr: u32,
}

/// What a bound geometry guarantees, over plain values: the header passed the guest's
/// own acceptance predicate, its element count is the one the guest derives, and both
/// queues fit inside the region.
pub open spec fn geometry_holds(region_len: nat, cmd_off: u64, stat_off: u64, h: TxHeader) -> bool {
    &&& h.write_ptr == 0
    &&& h.msg_count > 0
    &&& h.msg_size > 0
    &&& h.rx_hdr_off >= TX_HEADER_BYTES
    &&& h.rx_hdr_off + RX_HEADER_BYTES <= h.entry_off
    &&& h.entry_off + h.msg_count * h.msg_size <= h.size
    &&& cmd_off + h.size <= region_len
    &&& stat_off + h.size <= region_len
}

/// Why binding fails once the command-queue header `h` has been read, in the order the
/// checks run — or `None` if it binds.
pub open spec fn bind_refusal(
    region_len: nat,
    h: TxHeader,
    cmd_off: u64,
    stat_off: u64,
    abi: MsgqAbi,
) -> Option<GspFault> {
    let published = TxHeader { write_ptr: 0, ..h };
    if h.flags & abi.swap_rx_flag == 0 {
        Some(GspFault::SwapRxNotAgreed { flags: h.flags })
    } else if h.msg_count == 0 {
        Some(GspFault::MsgCountZero)
    } else if spec_rx_link_check(published, h.rx_hdr_off, h.size, h.msg_size, abi) is Err {
        Some(
            GspFault::GeometryRejected(
                spec_rx_link_check(published, h.rx_hdr_off, h.size, h.msg_size, abi)->Err_0,
            ),
        )
    } else if cmd_off + h.size > region_len {
        Some(
            GspFault::RegionOutOfRange {
                offset: cmd_off,
                len: h.size as u64,
                region_len: region_len as u64,
            },
        )
    } else if stat_off + h.size > region_len {
        Some(
            GspFault::RegionOutOfRange {
                offset: stat_off,
                len: h.size as u64,
                region_len: region_len as u64,
            },
        )
    } else {
        None
    }
}

/// The validated geometry of one bound CPU↔GSP queue pair.
///
/// Constructed only by [`MsgqGeometry::bind`], which reads the guest's own command-queue
/// header and checks it with [`rx_link_check`]. Holds a [`RegionMap`], never a base
/// address.
#[derive(Debug, PartialEq, Eq)]
pub struct MsgqGeometry {
    region: RegionMap,
    cmd_off: u64,
    stat_off: u64,
    header: TxHeader,
    msg_count: MsgCount,
}

impl MsgqGeometry {
    #[verifier::type_invariant]
    spec fn bound(self) -> bool {
        &&& self.region.valid()
        &&& self.header.msg_count == self.msg_count@
        &&& geometry_holds(self.region.len_spec(), self.cmd_off, self.stat_off, self.header)
    }

    /// The region the queues live in.
    pub closed spec fn region_spec(&self) -> RegionMap {
        self.region
    }

    /// The guest's `cmdQueueOffset`, a byte offset into the region.
    pub closed spec fn cmd_off_spec(&self) -> u64 {
        self.cmd_off
    }

    /// The guest's `statQueueOffset`, a byte offset into the region.
    pub closed spec fn stat_off_spec(&self) -> u64 {
        self.stat_off
    }

    /// The header this binding publishes for the status queue.
    pub closed spec fn header_spec(&self) -> TxHeader {
        self.header
    }

    /// Everything a bound geometry guarantees.
    pub open spec fn holds(&self) -> bool {
        &&& self.region_spec().valid()
        &&& geometry_holds(
            self.region_spec().len_spec(),
            self.cmd_off_spec(),
            self.stat_off_spec(),
            self.header_spec(),
        )
    }

    /// Read the guest's command-queue header out of the region and validate it.
    ///
    /// `cmd_off`/`stat_off` are the guest's `cmdQueueOffset`/`statQueueOffset` — byte
    /// offsets into the region, not addresses. The header published for the status queue
    /// is the guest's own with `writePtr` reset, which satisfies checks `-7`..`-10` by
    /// construction for whatever parameters the guest chose. Both queues must fit inside
    /// the region, checked once, here.
    pub fn bind<R: GuestRam>(
        ram: &mut R,
        region: RegionMap,
        cmd_off: u64,
        stat_off: u64,
        abi: &MsgqAbi,
    ) -> (r: Result<MsgqGeometry, GspFault>)
        ensures
            final(ram).memory() == old(ram).memory(),
            final(ram).writable() == old(ram).writable(),
            region.valid(),
            cmd_off + TX_HEADER_BYTES > region.len_spec() ==> r == Err::<MsgqGeometry, GspFault>(
                GspFault::RegionOutOfRange {
                    offset: cmd_off,
                    len: TX_HEADER_BYTES as u64,
                    region_len: region.len_spec() as u64,
                },
            ),
            cmd_off + TX_HEADER_BYTES <= region.len_spec() ==> r matches Err(GspFault::GuestRam(_))
                || ({
                let h = spec_tx_header(
                    region.bytes(old(ram).memory(), cmd_off as int, TX_HEADER_BYTES as nat),
                );
                &&& region.covered(old(ram).memory(), cmd_off as int, TX_HEADER_BYTES as nat)
                &&& match bind_refusal(region.len_spec(), h, cmd_off, stat_off, *abi) {
                    Some(e) => r == Err::<MsgqGeometry, GspFault>(e),
                    None => r matches Ok(g) && g.holds() && g.region_spec() == region
                        && g.cmd_off_spec() == cmd_off && g.stat_off_spec() == stat_off
                        && g.header_spec() == (TxHeader { write_ptr: 0, ..h }),
                }
            }),
            cmd_off + TX_HEADER_BYTES <= region.len_spec() && region.covered(
                old(ram).memory(),
                cmd_off as int,
                TX_HEADER_BYTES as nat,
            ) ==> !(r matches Err(GspFault::GuestRam(_))),
    {
        let mut buf = [0u8;32];
        match region.read(ram, cmd_off, &mut buf) {
            Ok(()) => {},
            Err(e) => {
                return Err(e);
            },
        }
        let header = match TxHeader::decode(&buf) {
            Ok(h) => h,
            Err(e) => {
                return Err(e);
            },
        };
        if header.flags & abi.swap_rx_flag == 0 {
            return Err(GspFault::SwapRxNotAgreed { flags: header.flags });
        }
        let msg_count = match MsgCount::new(header.msg_count) {
            Ok(c) => c,
            Err(e) => {
                return Err(e);
            },
        };
        let published = TxHeader { write_ptr: 0, ..header };
        match rx_link_check(&published, header.rx_hdr_off, header.size, header.msg_size, abi) {
            Ok(()) => {},
            Err(c) => {
                return Err(GspFault::GeometryRejected(c));
            },
        }
        let end = header.size as u64;
        match region.runs(cmd_off, end) {
            Ok(_) => {},
            Err(e) => {
                return Err(e);
            },
        }
        match region.runs(stat_off, end) {
            Ok(_) => {},
            Err(e) => {
                return Err(e);
            },
        }
        proof {
            let h = published;
            assert(h.msg_size > 0);
            assert(h.msg_count * h.msg_size <= h.size - h.entry_off) by (nonlinear_arith)
                requires
                    h.msg_size > 0,
                    h.size >= h.entry_off,
                    h.msg_count == (h.size - h.entry_off) / (h.msg_size as int),
            ;
        }
        Ok(MsgqGeometry { region, cmd_off, stat_off, header: published, msg_count })
    }

    /// The header this binding publishes for the status queue.
    pub fn published_header(&self) -> (r: TxHeader)
        ensures
            self.holds(),
            r == self.header_spec(),
    {
        proof {
            use_type_invariant(self);
        }
        self.header
    }

    /// The ring's element count.
    pub fn msg_count(&self) -> (r: MsgCount)
        ensures
            self.holds(),
            r@ == self.header_spec().msg_count,
    {
        proof {
            use_type_invariant(self);
        }
        self.msg_count
    }

    /// One element's size in bytes — also `queueElementSizeMin`.
    pub fn element_size(&self) -> (r: u32)
        ensures
            self.holds(),
            r == self.header_spec().msg_size,
    {
        proof {
            use_type_invariant(self);
        }
        self.header.msg_size
    }

    /// The region the queues live in.
    pub fn region(&self) -> (r: &RegionMap)
        ensures
            self.holds(),
            *r == self.region_spec(),
    {
        proof {
            use_type_invariant(self);
        }
        &self.region
    }

    /// Offset of the guest's command-queue `writePtr`.
    pub fn cmd_write_ptr_off(&self) -> (r: u64)
        ensures
            self.holds(),
            r == self.cmd_off_spec() + TX_HEADER_WRITE_PTR_OFFSET,
    {
        proof {
            use_type_invariant(self);
        }
        self.cmd_off + TX_HEADER_WRITE_PTR_OFFSET
    }

    /// Offset of our status-queue `writePtr`.
    pub fn stat_write_ptr_off(&self) -> (r: u64)
        ensures
            self.holds(),
            r == self.stat_off_spec() + TX_HEADER_WRITE_PTR_OFFSET,
    {
        proof {
            use_type_invariant(self);
        }
        self.stat_off + TX_HEADER_WRITE_PTR_OFFSET
    }

    /// Where the guest publishes **its** consumption of the status queue: with
    /// `MSGQ_FLAGS_SWAP_RX` agreed, each side writes the read pointer into its own backing
    /// store's rx header, and the guest's own store is the command queue.
    pub fn peer_stat_read_ptr_off(&self) -> (r: u64)
        ensures
            self.holds(),
            r == self.cmd_off_spec() + self.header_spec().rx_hdr_off,
    {
        proof {
            use_type_invariant(self);
        }
        self.cmd_off + self.header.rx_hdr_off as u64
    }

    /// Where **we** publish our consumption of the command queue: the status queue's rx
    /// header — the swapped location.
    pub fn cmd_read_ptr_ack_off(&self) -> (r: u64)
        ensures
            self.holds(),
            r == self.stat_off_spec() + self.header_spec().rx_hdr_off,
    {
        proof {
            use_type_invariant(self);
        }
        self.stat_off + self.header.rx_hdr_off as u64
    }

    /// Offset of command-queue element `slot`; the whole element lies inside the region.
    pub fn cmd_element_off(&self, slot: Slot) -> (r: u64)
        requires
            slot@ < self.header_spec().msg_count,
        ensures
            self.holds(),
            r == self.cmd_off_spec() + self.header_spec().entry_off + slot@
                * self.header_spec().msg_size,
            r + self.header_spec().msg_size <= self.region_spec().len_spec(),
    {
        proof {
            use_type_invariant(self);
            lemma_element_room(self.header, slot@);
        }
        self.cmd_off + self.header.entry_off as u64 + slot.index() as u64
            * self.header.msg_size as u64
    }

    /// Offset of status-queue element `slot`; the whole element lies inside the region.
    pub fn stat_element_off(&self, slot: Slot) -> (r: u64)
        requires
            slot@ < self.header_spec().msg_count,
        ensures
            self.holds(),
            r == self.stat_off_spec() + self.header_spec().entry_off + slot@
                * self.header_spec().msg_size,
            r + self.header_spec().msg_size <= self.region_spec().len_spec(),
    {
        proof {
            use_type_invariant(self);
            lemma_element_room(self.header, slot@);
        }
        self.stat_off + self.header.entry_off as u64 + slot.index() as u64
            * self.header.msg_size as u64
    }
}

/// Slot `s` of a ring that fits its header ends inside the backing store.
proof fn lemma_element_room(h: TxHeader, s: u32)
    requires
        s < h.msg_count,
        h.entry_off + h.msg_count * h.msg_size <= h.size,
    ensures
        h.entry_off + s * h.msg_size + h.msg_size <= h.size,
{
    assert(s * h.msg_size + h.msg_size <= h.msg_count * h.msg_size) by (nonlinear_arith)
        requires
            s < h.msg_count,
    ;
}

impl Clone for MsgqGeometry {
    fn clone(&self) -> (r: MsgqGeometry)
        ensures
            r.region_spec().pages_spec() == self.region_spec().pages_spec(),
            r.region_spec().page_size_spec() == self.region_spec().page_size_spec(),
            r.cmd_off_spec() == self.cmd_off_spec(),
            r.stat_off_spec() == self.stat_off_spec(),
            r.header_spec() == self.header_spec(),
    {
        proof {
            use_type_invariant(self);
        }
        MsgqGeometry {
            region: self.region.clone(),
            cmd_off: self.cmd_off,
            stat_off: self.stat_off,
            header: self.header,
            msg_count: self.msg_count,
        }
    }
}

} // verus!
