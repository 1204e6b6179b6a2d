//! **The replay projection.** The differential is over a decoded projection, never over
//! raw bytes: an [`Observation`] carries decoded fields, so a divergence is expressible as
//! a field-level exception with a reason, and bytes no guest reads are excluded by
//! construction.
use vstd::prelude::*;

use crate::element::{ElementLayout, RPC_ENVELOPE_SIZE};
use crate::fault::{spec_fault_tag, GspFault, RamRefused};
use crate::ram::{page_gpa, spec_runs, GuestRam, RegionMap};
use crate::ring::{
    spec_tx_header, MsgqGeometry, TxHeader, TX_HEADER_BYTES, TX_HEADER_WRITE_PTR_OFFSET,
};
use crate::wire::{get_u32, le_u32};

verus! {

/// Which of the two queues an observation is about.
#[derive(Debug, Clone, Copy, PartialEq, Eq, PartialOrd, Ord, Hash)]
pub enum QueueId {
    /// CPU → GSP. The guest produces; we consume.
    Command,
    /// GSP → CPU. We produce; the guest consumes.
    Status,
}

/// One thing a guest could possibly notice.
#[derive(Debug, Clone, PartialEq, Eq)]
pub enum Observation {
    /// We published a queue's tx header — the thing `msgqRxLink` spins on.
    TxHeaderPublished {
        /// Which queue.
        queue: QueueId,
        /// The header, decoded.
        hdr: TxHeader,
    },
    /// We wrote one element into a ring slot.
    ElementPosted {
        /// The slot index.
        slot: u32,
        /// The element's per-message sequence number.
        seq_num: u32,
        /// `rpc.function`.
        function: u32,
        /// `rpc.sequence` — the transaction id.
        sequence: u32,
        /// `rpc.rpc_result`.
        rpc_result: u32,
        /// `rpc.length`, as declared.
        rpc_length: u32,
        /// A change detector over the body — **not** a cryptographic hash; it exists so
        /// a projection can compare payloads without carrying them.
        payload_digest: u64,
    },
    /// We published a consumption pointer.
    ReadPtrAcked {
        /// Which queue's consumption.
        queue: QueueId,
        /// The value published.
        value: u32,
    },
    /// We advanced a producer pointer.
    WritePtrAdvanced {
        /// Which queue's production.
        queue: QueueId,
        /// The value published.
        value: u32,
    },
    /// We announced the status queue.
    IrqRaised,
    /// A refusal, by its stable name — what a replay of a stale bring-up must produce in
    /// place of any posted element.
    Refused {
        /// The refusal's name.
        fault: &'static str,
    },
}

/// The FNV-1a offset basis.
pub const FNV_OFFSET: u64 = 0xcbf2_9ce4_8422_2325;

/// The FNV-1a prime.
pub const FNV_PRIME: u64 = 0x0000_0100_0000_01b3;

/// One FNV-1a step: XOR the byte in, then multiply modulo 2^64.
pub open spec fn fnv_step(h: u64, b: u8) -> u64 {
    (((h ^ (b as u64)) as nat * FNV_PRIME as nat) % 0x1_0000_0000_0000_0000nat) as u64
}

/// FNV-1a over `s`, from the offset basis.
pub open spec fn spec_digest(s: Seq<u8>) -> u64
    decreases s.len(),
{
    if s.len() == 0 {
        FNV_OFFSET
    } else {
        fnv_step(spec_digest(s.drop_last()), s.last())
    }
}

/// FNV-1a over a payload. A change detector, deliberately not a cryptographic hash: it
/// exists so a projection can compare bodies without carrying them.
pub fn digest(bytes: &[u8]) -> (r: u64)
    ensures
        r == spec_digest(bytes@),
{
    let mut h: u64 = FNV_OFFSET;
    let mut i: usize = 0;
    while i < bytes.len()
        invariant
            i <= bytes@.len(),
            h == spec_digest(bytes@.subrange(0, i as int)),
        decreases bytes@.len() - i,
    {
        proof {
            let next = bytes@.subrange(0, i + 1);
            assert(next.drop_last() =~= bytes@.subrange(0, i as int));
            assert(next.last() == bytes@[i as int]);
        }
        h = (h ^ (bytes[i] as u64)).wrapping_mul(FNV_PRIME);
        i = i + 1;
    }
    assert(bytes@.subrange(0, bytes@.len() as int) =~= bytes@);
    h
}

/// The guest-physical starts of the runs region bytes `[off, off + len)` decompose into.
pub open spec fn run_starts(region: RegionMap, off: nat, len: nat) -> Seq<u64> {
    spec_runs(region.pages_spec(), region.page_size_spec() as nat, off, off + len).map_values(
        |r: (u64, usize)| r.0,
    )
}

/// Where status-queue element `i` starts, guest-physically.
pub open spec fn stat_element_gpa(geom: MsgqGeometry, i: u32) -> u64 {
    page_gpa(
        geom.region_spec().pages_spec(),
        geom.region_spec().page_size_spec() as nat,
        geom.stat_off_spec() + geom.header_spec().entry_off + i * geom.header_spec().msg_size,
    ) as u64
}

/// A forward map from the structures we publish to their guest-physical addresses.
///
/// Built **forward** from a bound geometry — every address it knows is one computed on
/// the way in, so a guest write we did not make cannot be mistaken for one we did. A
/// `Projection` deliberately has no reverse resolver.
#[derive(Debug, Clone, PartialEq, Eq)]
pub struct Projection {
    layout: ElementLayout,
    element_size: u32,
    stat_hdr: Vec<u64>,
    stat_write_ptr: Vec<u64>,
    cmd_read_ptr_ack: Vec<u64>,
    stat_elements: Vec<(u32, u64)>,
}

/// The first run start of `runs`, where there is one.
fn first_start(runs: &Vec<(u64, usize)>) -> (r: Option<u64>)
    ensures
        runs@.len() == 0 ==> r is None,
        runs@.len() > 0 ==> r == Some(runs@[0].0),
{
    if runs.len() == 0 {
        None
    } else {
        Some(runs[0].0)
    }
}

/// The starts of `runs`, in order.
fn starts_of(runs: &Vec<(u64, usize)>) -> (r: Vec<u64>)
    ensures
        r@ == runs@.map_values(|x: (u64, usize)| x.0),
{
    let mut out: Vec<u64> = Vec::new();
    let mut i: usize = 0;
    while i < runs.len()
        invariant
            i <= runs@.len(),
            out@ == runs@.subrange(0, i as int).map_values(|x: (u64, usize)| x.0),
        decreases runs@.len() - i,
    {
        out.push(runs[i].0);
        i = i + 1;
        assert(out@ =~= runs@.subrange(0, i as int).map_values(|x: (u64, usize)| x.0));
    }
    assert(runs@.subrange(0, runs@.len() as int) =~= runs@);
    out
}

/// Whether `x` occurs in `v`.
fn holds_addr(v: &Vec<u64>, x: u64) -> (r: bool)
    ensures
        r == v@.contains(x),
{
    let mut i: usize = 0;
    while i < v.len()
        invariant
            i <= v@.len(),
            forall|k: int| 0 <= k < i ==> v@[k] != x,
        decreases v@.len() - i,
    {
        if v[i] == x {
            return true;
        }
        i = i + 1;
    }
    false
}

/// The slot of the first element entry at `gpa`, where there is one.
pub open spec fn slot_at(elements: Seq<(u32, u64)>, gpa: u64) -> Option<u32>
    decreases elements.len(),
{
    if elements.len() == 0 {
        None
    } else if elements[0].1 == gpa {
        Some(elements[0].0)
    } else {
        slot_at(elements.drop_first(), gpa)
    }
}

fn find_slot(elements: &Vec<(u32, u64)>, gpa: u64) -> (r: Option<u32>)
    ensures
        r == slot_at(elements@, gpa),
{
    let mut i: usize = 0;
    assert(elements@.subrange(0, elements@.len() as int) =~= elements@);
    while i < elements.len()
        invariant
            i <= elements@.len(),
            slot_at(elements@, gpa) == slot_at(elements@.subrange(i as int, elements@.len() as int), gpa),
        decreases elements@.len() - i,
    {
        let ghost rest = elements@.subrange(i as int, elements@.len() as int);
        assert(rest.drop_first() =~= elements@.subrange(i + 1, elements@.len() as int));
        if elements[i].1 == gpa {
            return Some(elements[i].0);
        }
        i = i + 1;
    }
    None
}

/// The little-endian word at `off` of `b`, where all four of its bytes are there.
pub open spec fn word_at(b: Seq<u8>, off: int) -> Option<u32> {
    if off + 4 <= b.len() {
        Some(le_u32(b, off))
    } else {
        None
    }
}

fn word(bytes: &[u8], off: usize) -> (r: Option<u32>)
    ensures
        r == word_at(bytes@, off as int),
{
    if off <= bytes.len() && bytes.len() - off >= 4 {
        Some(get_u32(bytes, off))
    } else {
        None
    }
}

/// What a posted status element decodes to: its sequence number and envelope fields, and
/// a digest of the declared body (clipped to the bytes written); `None` where the write
/// is too short to carry them.
pub open spec fn spec_decode_posted(layout: ElementLayout, slot: u32, b: Seq<u8>) -> Option<
    Observation,
> {
    let hdr = layout.hdr_size_spec() as int;
    let seq_num = word_at(b, layout.seqnum_off_spec() as int);
    let rpc_length = word_at(b, hdr + 8);
    let function = word_at(b, hdr + 12);
    let rpc_result = word_at(b, hdr + 16);
    let sequence = word_at(b, hdr + 24);
    if seq_num is None || rpc_length is None || function is None || rpc_result is None
        || sequence is None {
        None
    } else {
        let body_end = if hdr + rpc_length->Some_0 < b.len() {
            hdr + rpc_length->Some_0
        } else {
            b.len() as int
        };
        let body_start = if hdr + RPC_ENVELOPE_SIZE < body_end {
            hdr + RPC_ENVELOPE_SIZE
        } else {
            body_end
        };
        Some(
            Observation::ElementPosted {
                slot,
                seq_num: seq_num->Some_0,
                function: function->Some_0,
                sequence: sequence->Some_0,
                rpc_result: rpc_result->Some_0,
                rpc_length: rpc_length->Some_0,
                payload_digest: spec_digest(b.subrange(body_start, body_end)),
            },
        )
    }
}

fn decode_posted(layout: &ElementLayout, slot: u32, bytes: &[u8]) -> (r: Option<Observation>)
    ensures
        r == spec_decode_posted(*layout, slot, bytes@),
{
    let hdr = layout.hdr_size();
    let len = bytes.len();
    let seq_num = match word(bytes, layout.seqnum_off()) {
        Some(w) => w,
        None => {
            return None;
        },
    };
    if hdr > len || len - hdr < 28 {
        return None;
    }
    let rpc_length = match word(bytes, hdr + 8) {
        Some(w) => w,
        None => {
            return None;
        },
    };
    let function = match word(bytes, hdr + 12) {
        Some(w) => w,
        None => {
            return None;
        },
    };
    let rpc_result = match word(bytes, hdr + 16) {
        Some(w) => w,
        None => {
            return None;
        },
    };
    let sequence = match word(bytes, hdr + 24) {
        Some(w) => w,
        None => {
            return None;
        },
    };
    let body_end = if (rpc_length as usize) < len - hdr {
        hdr + rpc_length as usize
    } else {
        len
    };
    let body_start = if body_end - hdr > 32 {
        hdr + 32
    } else {
        body_end
    };
    let payload_digest = digest(slice_subrange(bytes, body_start, body_end));
    Some(
        Observation::ElementPosted {
            slot,
            seq_num,
            function,
            sequence,
            rpc_result,
            rpc_length,
            payload_digest,
        },
    )
}

/// `s[from..to]`.
fn slice_subrange(s: &[u8], from: usize, to: usize) -> (r: &[u8])
    requires
        from <= to <= s@.len(),
    ensures
        r@ == s@.subrange(from as int, to as int),
{
    vstd::slice::slice_subrange(s, from, to)
}

impl Projection {
    /// The element layout the status elements are decoded under.
    pub closed spec fn layout_spec(&self) -> ElementLayout {
        self.layout
    }

    /// One status element's size: a write of exactly this many bytes may be an element.
    pub closed spec fn element_size_spec(&self) -> u32 {
        self.element_size
    }

    /// The guest-physical starts of the status queue's tx header.
    pub closed spec fn stat_hdr_spec(&self) -> Seq<u64> {
        self.stat_hdr@
    }

    /// The guest-physical starts of the status queue's `writePtr`.
    pub closed spec fn stat_write_ptr_spec(&self) -> Seq<u64> {
        self.stat_write_ptr@
    }

    /// The guest-physical starts of our command-queue consumption pointer.
    pub closed spec fn cmd_read_ptr_ack_spec(&self) -> Seq<u64> {
        self.cmd_read_ptr_ack@
    }

    /// Each status slot with the guest-physical address its element starts at.
    pub closed spec fn stat_elements_spec(&self) -> Seq<(u32, u64)> {
        self.stat_elements@
    }

    /// Build the map for one binding: the pages under the status header, its `writePtr`
    /// and our command-queue read-pointer acknowledgement, and where each status element
    /// starts. A bound geometry fits its region, so this cannot fail.
    pub fn new(geom: &MsgqGeometry, layout: ElementLayout) -> (r: Result<Projection, GspFault>)
        ensures
            r matches Ok(p) && p.layout_spec() == layout && p.element_size_spec()
                == geom.header_spec().msg_size && p.stat_hdr_spec() == run_starts(
                geom.region_spec(),
                geom.stat_off_spec() as nat,
                TX_HEADER_BYTES as nat,
            ) && p.stat_write_ptr_spec() == run_starts(
                geom.region_spec(),
                (geom.stat_off_spec() + TX_HEADER_WRITE_PTR_OFFSET) as nat,
                4,
            ) && p.cmd_read_ptr_ack_spec() == run_starts(
                geom.region_spec(),
                (geom.stat_off_spec() + geom.header_spec().rx_hdr_off) as nat,
                4,
            ) && p.stat_elements_spec() == Seq::new(
                geom.header_spec().msg_count as nat,
                |i: int| (i as u32, stat_element_gpa(*geom, i as u32)),
            ),
    {
        let region = geom.region();
        let stat_off = geom.stat_write_ptr_off() - TX_HEADER_WRITE_PTR_OFFSET;
        let ack_off = geom.cmd_read_ptr_ack_off();
        let wp_off = geom.stat_write_ptr_off();
        let hdr_runs = match region.runs(stat_off, 32) {
            Ok(v) => v,
            Err(e) => {
                return Err(e);
            },
        };
        let wp_runs = match region.runs(wp_off, 4) {
            Ok(v) => v,
            Err(e) => {
                return Err(e);
            },
        };
        let ack_runs = match region.runs(ack_off, 4) {
            Ok(v) => v,
            Err(e) => {
                return Err(e);
            },
        };
        let count = geom.msg_count();
        let n = count.get();
        let mut stat_elements: Vec<(u32, u64)> = Vec::new();
        let mut i: u32 = 0;
        while i < n
            invariant
                geom.holds(),
                *region == geom.region_spec(),
                n == geom.header_spec().msg_count,
                count@ == n,
                i <= n,
                stat_elements@ == Seq::new(
                    i as nat,
                    |k: int| (k as u32, stat_element_gpa(*geom, k as u32)),
                ),
            decreases n - i,
        {
            let slot = count.slot(i);
            assert(slot@ == i) by {
                vstd::arithmetic::div_mod::lemma_small_mod(i as nat, n as nat);
            }
            let off = geom.stat_element_off(slot);
            let runs = match region.runs(off, 1) {
                Ok(v) => v,
                Err(e) => {
                    return Err(e);
                },
            };
            proof {
                let ps = region.page_size_spec() as nat;
                assert(region.valid());
                assert(ps > 0);
                let pages = region.pages_spec();
                let at = off as nat;
                assert(runs@ == spec_runs(pages, ps, at, at + 1));
                assert(spec_runs(pages, ps, at, at + 1)[0].0 == (pages[(at / ps) as int] + at
                    % ps) as u64);
                assert(runs@.len() > 0);
                assert(off == geom.stat_off_spec() + geom.header_spec().entry_off + i
                    * geom.header_spec().msg_size);
                assert(runs@[0].0 == stat_element_gpa(*geom, i));
            }
            match first_start(&runs) {
                Some(gpa) => {
                    stat_elements.push((i, gpa));
                },
                None => {},
            }
            i = i + 1;
            assert(stat_elements@ =~= Seq::new(
                i as nat,
                |k: int| (k as u32, stat_element_gpa(*geom, k as u32)),
            ));
        }
        Ok(
            Projection {
                layout,
                element_size: geom.element_size(),
                stat_hdr: starts_of(&hdr_runs),
                stat_write_ptr: starts_of(&wp_runs),
                cmd_read_ptr_ack: starts_of(&ack_runs),
                stat_elements,
            },
        )
    }
}

/// What one guest-RAM write at `gpa` of `b` decodes to under a projection: a published
/// status header, a status `writePtr` advance, our command-queue read-pointer
/// acknowledgement, or a posted status element — or `None` for a write that is none of
/// the structures the guest reads from us.
pub open spec fn spec_classify(p: Projection, gpa: u64, b: Seq<u8>) -> Option<Observation> {
    if p.stat_hdr_spec().contains(gpa) && b.len() >= TX_HEADER_BYTES {
        Some(Observation::TxHeaderPublished { queue: QueueId::Status, hdr: spec_tx_header(b) })
    } else if b.len() == 4 && p.stat_write_ptr_spec().contains(gpa) {
        Some(Observation::WritePtrAdvanced { queue: QueueId::Status, value: le_u32(b, 0) })
    } else if b.len() == 4 && p.cmd_read_ptr_ack_spec().contains(gpa) {
        Some(Observation::ReadPtrAcked { queue: QueueId::Command, value: le_u32(b, 0) })
    } else if b.len() == p.element_size_spec() {
        match slot_at(p.stat_elements_spec(), gpa) {
            Some(slot) => spec_decode_posted(p.layout_spec(), slot, b),
            None => None,
        }
    } else {
        None
    }
}

impl Projection {
    /// Decode one guest-RAM write into an observation, or `None` if it is not one of the
    /// structures the guest reads from us.
    pub fn classify(&self, gpa: u64, bytes: &[u8]) -> (r: Option<Observation>)
        ensures
            r == spec_classify(*self, gpa, bytes@),
    {
        if holds_addr(&self.stat_hdr, gpa) && bytes.len() >= TX_HEADER_BYTES {
            return match TxHeader::decode(bytes) {
                Ok(hdr) => Some(Observation::TxHeaderPublished { queue: QueueId::Status, hdr }),
                Err(_) => None,
            };
        }
        if bytes.len() == 4 {
            let value = get_u32(bytes, 0);
            if holds_addr(&self.stat_write_ptr, gpa) {
                return Some(Observation::WritePtrAdvanced { queue: QueueId::Status, value });
            }
            if holds_addr(&self.cmd_read_ptr_ack, gpa) {
                return Some(Observation::ReadPtrAcked { queue: QueueId::Command, value });
            }
        }
        if bytes.len() == self.element_size as usize {
            return match find_slot(&self.stat_elements, gpa) {
                Some(slot) => decode_posted(&self.layout, slot, bytes),
                None => None,
            };
        }
        None
    }
}

/// A stable name for each kind of observation, so "which kinds were never seen" is
/// answerable.
pub open spec fn spec_observation_kind(o: Observation) -> Seq<char> {
    match o {
        Observation::TxHeaderPublished { .. } => "TxHeaderPublished"@,
        Observation::ElementPosted { .. } => "ElementPosted"@,
        Observation::ReadPtrAcked { .. } => "ReadPtrAcked"@,
        Observation::WritePtrAdvanced { .. } => "WritePtrAdvanced"@,
        Observation::IrqRaised => "IrqRaised"@,
        Observation::Refused { .. } => "Refused"@,
    }
}

impl Observation {
    /// A stable name for counting, so "which kinds were never seen" is answerable.
    pub fn kind(&self) -> (r: &'static str)
        ensures
            r@ == spec_observation_kind(*self),
    {
        match self {
            Observation::TxHeaderPublished { .. } => "TxHeaderPublished",
            Observation::ElementPosted { .. } => "ElementPosted",
            Observation::ReadPtrAcked { .. } => "ReadPtrAcked",
            Observation::WritePtrAdvanced { .. } => "WritePtrAdvanced",
            Observation::IrqRaised => "IrqRaised",
            Observation::Refused { .. } => "Refused",
        }
    }
}

/// One admissible MUST-DIFFER entry of the differential: the compared artifact's site and
/// behaviour, what is done instead, what a guest would notice, and the independent
/// evidence that makes it a finding rather than a preference.
#[derive(Debug, Clone, Copy, PartialEq, Eq)]
pub struct Divergence {
    /// Stable id.
    pub id: &'static str,
    /// The compared artifact's site.
    pub c_site: &'static str,
    /// What the compared artifact does there.
    pub c_behaviour: &'static str,
    /// What this crate does instead.
    pub our_behaviour: &'static str,
    /// What a guest would notice. Never "none".
    pub guest_visible_consequence: &'static str,
    /// A driver-source citation or a measured trace. Never an aesthetic argument.
    pub independent_oracle: &'static str,
}

/// How many of `s` are of kind `k`.
pub open spec fn count_kind(s: Seq<Observation>, k: Seq<char>) -> nat
    decreases s.len(),
{
    if s.len() == 0 {
        0
    } else {
        count_kind(s.drop_last(), k) + if spec_observation_kind(s.last()) == k {
            1nat
        } else {
            0nat
        }
    }
}

/// Whether `a` and `b` are the same text.
fn same_text(a: &str, b: &str) -> (r: bool)
    ensures
        r == (a@ == b@),
{
    let n = a.unicode_len();
    if n != b.unicode_len() {
        return false;
    }
    let mut i: usize = 0;
    while i < n
        invariant
            n == a@.len() == b@.len(),
            i <= n,
            forall|j: int| 0 <= j < i ==> a@[j] == b@[j],
        decreases n - i,
    {
        if a.get_char(i) != b.get_char(i) {
            return false;
        }
        i = i + 1;
    }
    assert(a@ =~= b@);
    true
}

/// A recorded projection, with the counters that make it falsifiable.
#[derive(Debug, Clone, PartialEq, Eq)]
pub struct ObservationLog {
    items: Vec<Observation>,
}

impl View for ObservationLog {
    type V = Seq<Observation>;

    closed spec fn view(&self) -> Seq<Observation> {
        self.items@
    }
}

/// The refusals among `s`, by name, in order.
pub open spec fn refusals_of(s: Seq<Observation>) -> Seq<&'static str>
    decreases s.len(),
{
    if s.len() == 0 {
        Seq::empty()
    } else {
        refusals_of(s.drop_last()) + match s.last() {
            Observation::Refused { fault } => seq![fault],
            _ => Seq::empty(),
        }
    }
}

/// Every kind of observation, in the order a log reports them.
pub open spec fn all_kinds() -> Seq<Seq<char>> {
    seq![
        "TxHeaderPublished"@,
        "ElementPosted"@,
        "ReadPtrAcked"@,
        "WritePtrAdvanced"@,
        "IrqRaised"@,
        "Refused"@,
    ]
}

impl ObservationLog {
    /// An empty log.
    pub fn new() -> (r: ObservationLog)
        ensures
            r@ == Seq::<Observation>::empty(),
    {
        ObservationLog { items: Vec::new() }
    }

    /// Append.
    pub fn push(&mut self, obs: Observation)
        ensures
            final(self)@ == old(self)@.push(obs),
    {
        self.items.push(obs);
    }

    /// Everything recorded, in order.
    pub fn items(&self) -> (r: &[Observation])
        ensures
            r@ == self@,
    {
        self.items.as_slice()
    }

    /// How many observations of one kind.
    pub fn count(&self, kind: &str) -> (n: usize)
        ensures
            n == count_kind(self@, kind@),
    {
        let mut n: usize = 0;
        let mut i: usize = 0;
        while i < self.items.len()
            invariant
                i <= self.items@.len(),
                n == count_kind(self.items@.take(i as int), kind@),
                n <= i,
            decreases self.items@.len() - i,
        {
            proof {
                assert(self.items@.take(i + 1).drop_last() =~= self.items@.take(i as int));
            }
            if same_text(self.items[i].kind(), kind) {
                n = n + 1;
            }
            i = i + 1;
        }
        proof {
            assert(self.items@.take(self.items@.len() as int) =~= self.items@);
        }
        n
    }

    /// Every refusal's name, in order — the one-line form of a negative-trace assertion.
    pub fn refusals(&self) -> (r: Vec<&'static str>)
        ensures
            r@ == refusals_of(self@),
    {
        let mut out: Vec<&'static str> = Vec::new();
        let mut i: usize = 0;
        while i < self.items.len()
            invariant
                i <= self.items@.len(),
                out@ == refusals_of(self.items@.take(i as int)),
            decreases self.items@.len() - i,
        {
            proof {
                assert(self.items@.take(i + 1).drop_last() =~= self.items@.take(i as int));
            }
            match &self.items[i] {
                Observation::Refused { fault } => out.push(*fault),
                _ => {},
            }
            i = i + 1;
        }
        proof {
            assert(self.items@.take(self.items@.len() as int) =~= self.items@);
        }
        out
    }

    /// The kinds that were never observed, in [`all_kinds`] order: an assertion over a
    /// log whose relevant kind is in this list is measuring nothing.
    pub fn unseen_kinds(&self) -> (r: Vec<&'static str>)
        ensures
            r@.map_values(|s: &'static str| s@) == all_kinds().filter(|k: Seq<char>| count_kind(self@, k) == 0),
    {
        let kinds: [&'static str; 6] = [
            "TxHeaderPublished",
            "ElementPosted",
            "ReadPtrAcked",
            "WritePtrAdvanced",
            "IrqRaised",
            "Refused",
        ];
        proof {
            reveal_strlit("TxHeaderPublished");
            reveal_strlit("ElementPosted");
            reveal_strlit("ReadPtrAcked");
            reveal_strlit("WritePtrAdvanced");
            reveal_strlit("IrqRaised");
            reveal_strlit("Refused");
            assert(kinds@.map_values(|s: &'static str| s@) =~= all_kinds());
        }
        let mut out: Vec<&'static str> = Vec::new();
        let mut i: usize = 0;
        while i < 6
            invariant
                i <= 6,
                kinds@.map_values(|s: &'static str| s@) == all_kinds(),
                out@.map_values(|s: &'static str| s@) == all_kinds().take(i as int).filter(
                    |k: Seq<char>| count_kind(self@, k) == 0,
                ),
            decreases 6 - i,
        {
            let k = kinds[i];
            proof {
                assert(all_kinds().take(i + 1) =~= all_kinds().take(i as int).push(all_kinds()[i as int]));
                assert(kinds@[i as int]@ == all_kinds()[i as int]);
                all_kinds().take(i as int).lemma_filter_push(all_kinds()[i as int], |k: Seq<char>| count_kind(self@, k) == 0);
            }
            if self.count(k) == 0 {
                out.push(k);
                proof {
                    assert(out@.map_values(|s: &'static str| s@) =~= all_kinds().take(i as int).filter(
                        |k: Seq<char>| count_kind(self@, k) == 0,
                    ).push(k@));
                }
            }
            i = i + 1;
        }
        proof {
            assert(all_kinds().take(6) =~= all_kinds());
        }
        out
    }
}

/// A guest RAM that records what is done to it: every read and write counted, and — with a
/// projection attached — every write decoded into the log as what the guest could notice.
pub struct RecordingRam<R: GuestRam> {
    /// The RAM recorded.
    pub inner: R,
    /// The projection writes are decoded through, if any.
    pub projection: Option<Projection>,
    /// Every observation this run produced.
    pub log: ObservationLog,
    /// How many reads were served, modulo 2^64.
    pub reads: usize,
    /// How many writes were served, modulo 2^64.
    pub writes: usize,
}

impl<R: GuestRam> RecordingRam<R> {
    /// Wrap a RAM, with no projection: reads and writes are counted but not decoded.
    pub fn new(inner: R) -> (r: RecordingRam<R>)
        ensures
            r.inner == inner,
            r.projection is None,
            r.log@ == Seq::<Observation>::empty(),
            r.reads == 0,
            r.writes == 0,
    {
        RecordingRam { inner, projection: None, log: ObservationLog::new(), reads: 0, writes: 0 }
    }

    /// Record a refusal into the log, by its stable name.
    pub fn refused(&mut self, fault: &GspFault)
        ensures
            final(self).log@.len() == old(self).log@.len() + 1,
            final(self).log@.drop_last() == old(self).log@,
            final(self).log@.last() matches Observation::Refused { fault: t } && t@ == spec_fault_tag(*fault),
            final(self).inner == old(self).inner,
            final(self).projection == old(self).projection,
            final(self).reads == old(self).reads,
            final(self).writes == old(self).writes,
    {
        let ghost before = self.log@;
        self.log.push(Observation::Refused { fault: fault.fault_tag() });
        assert(self.log@.drop_last() =~= before);
    }

    /// Attach a projection, so writes decode into observations.
    pub fn with_projection(self, p: Projection) -> (r: RecordingRam<R>)
        ensures
            r.projection == Some(p),
            r.inner == self.inner,
            r.log == self.log,
            r.reads == self.reads,
            r.writes == self.writes,
    {
        RecordingRam { projection: Some(p), ..self }
    }
}

impl<R: GuestRam> GuestRam for RecordingRam<R> {
    open spec fn memory(&self) -> Map<int, u8> {
        self.inner.memory()
    }

    open spec fn writable(&self) -> Set<int> {
        self.inner.writable()
    }

    fn read(&mut self, gpa: u64, buf: &mut [u8]) -> (r: Result<(), RamRefused>)
        ensures
            final(self).reads == (if old(self).reads == usize::MAX { 0 } else { old(self).reads + 1 }),
            final(self).writes == old(self).writes,
            final(self).log@ == old(self).log@,
            final(self).projection == old(self).projection,
    {
        self.reads = self.reads.wrapping_add(1);
        self.inner.read(gpa, buf)
    }

    fn write(&mut self, gpa: u64, bytes: &[u8]) -> (r: Result<(), RamRefused>)
        ensures
            final(self).writes == (if old(self).writes == usize::MAX { 0 } else { old(self).writes + 1 }),
            final(self).reads == old(self).reads,
            final(self).projection == old(self).projection,
            r is Err ==> final(self).log@ == old(self).log@,
            r is Ok ==> final(self).log@ == match old(self).projection {
                Some(p) => match spec_classify(p, gpa, bytes@) {
                    Some(o) => old(self).log@.push(o),
                    None => old(self).log@,
                },
                None => old(self).log@,
            },
    {
        self.writes = self.writes.wrapping_add(1);
        match self.inner.write(gpa, bytes) {
            Ok(()) => {},
            Err(e) => {
                return Err(e);
            },
        }
        match &self.projection {
            Some(p) => match p.classify(gpa, bytes) {
                Some(obs) => self.log.push(obs),
                None => {},
            },
            None => {},
        }
        Ok(())
    }
}

} // verus!
