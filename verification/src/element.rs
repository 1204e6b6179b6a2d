//! **The element codec.** Framing, checksum, and the bounds every extent derives from.
//!
//! The element header is a different structure between driver generations — 48 bytes
//! with `elemCount@40` at the older one, 16 bytes with MCTP/NVDM transport words at the
//! newer — so its shape is an [`ElementLayout`] **value** supplied by the ABI layer, and
//! this module carries no offset of its own.
//!
//! ## Checksum
//!
//! A 64-bit XOR fold over little-endian words, reduced to 32 by `hi ^ lo`. The fold runs
//! to the next 8-byte boundary past the declared coverage, which is why the sender
//! zero-pads.
use vstd::prelude::*;

use crate::fault::{GspFault, LayoutError};
use crate::wire::{get_u32, get_u64, le_u32, le_u64, put_u32, set_u32};

verus! {

/// The RPC envelope's size in bytes — eight `u32`s. It is the lower bound on every
/// message's declared length.
pub const RPC_ENVELOPE_SIZE: u32 = 32;

/// Word index of `length` within the RPC envelope — the third of its eight `u32`s.
pub const ENVELOPE_LENGTH_WORD: usize = 2;

/// The transport headers an element carries in front of the RPC envelope.
#[derive(Debug, Clone, Copy, PartialEq, Eq)]
pub enum TransportHdr {
    /// None — the older form. The first bytes are the (unused, zero) confidential-compute
    /// authentication buffers.
    NoTransport,
    /// MCTP over NVDM — the newer form, which the guest **validates** on receive. The
    /// words are carried whole, as the ABI layer assembled them.
    Mctp {
        /// Byte offset of the MCTP transport word.
        header_off: usize,
        /// The word a conforming sender writes there.
        header_word: u32,
        /// Byte offset of the NVDM word.
        nvdm_off: usize,
        /// The word a conforming sender writes there.
        nvdm_word: u32,
    },
}

/// The offsets of an element header's named 4-byte fields, in the order they are
/// validated: checksum, sequence number, element count (where the layout has one), then
/// the two transport words (where it has them).
pub open spec fn layout_fields(
    checksum_off: usize,
    seqnum_off: usize,
    elem_count_off: Option<usize>,
    transport: TransportHdr,
) -> Seq<usize> {
    let base = seq![checksum_off, seqnum_off];
    let with_count = match elem_count_off {
        Some(o) => base.push(o),
        None => base,
    };
    match transport {
        TransportHdr::Mctp { header_off, nvdm_off, .. } => with_count.push(header_off).push(
            nvdm_off,
        ),
        TransportHdr::NoTransport => with_count,
    }
}

/// Two 4-byte fields at `a` and `b` share a byte.
pub open spec fn fields_overlap(a: usize, b: usize) -> bool {
    if a <= b {
        b - a < 4
    } else {
        a - b < 4
    }
}

/// The index of the first field, from `k` on, that does not fit inside `hdr_size` bytes.
pub open spec fn first_outside(fields: Seq<usize>, hdr_size: usize, k: nat) -> Option<nat>
    decreases fields.len() - k,
{
    if k >= fields.len() {
        None
    } else if fields[k as int] + 4 > hdr_size {
        Some(k)
    } else {
        first_outside(fields, hdr_size, k + 1)
    }
}

/// The first overlapping pair `(i, j)`, `i < j`, in order, searching from `(i, j)` on.
pub open spec fn first_overlap(fields: Seq<usize>, i: nat, j: nat) -> Option<(nat, nat)>
    decreases fields.len() - i, fields.len() - j,
{
    if i >= fields.len() {
        None
    } else if j >= fields.len() {
        first_overlap(fields, i + 1, i + 2)
    } else if fields_overlap(fields[i as int], fields[j as int]) {
        Some((i, j))
    } else {
        first_overlap(fields, i, j + 1)
    }
}

/// Why an element header with these fields cannot describe a real element, or `None`.
pub open spec fn layout_refusal(hdr_size: usize, fields: Seq<usize>) -> Option<LayoutError> {
    if hdr_size < 8 {
        Some(LayoutError::HeaderTooSmall { hdr_size })
    } else if first_outside(fields, hdr_size, 0) is Some {
        Some(
            LayoutError::FieldOutsideHeader {
                offset: fields[first_outside(fields, hdr_size, 0)->Some_0 as int],
                hdr_size,
            },
        )
    } else if first_overlap(fields, 0, 1) is Some {
        Some(
            LayoutError::FieldsOverlap {
                a: fields[first_overlap(fields, 0, 1)->Some_0.0 as int],
                b: fields[first_overlap(fields, 0, 1)->Some_0.1 as int],
            },
        )
    } else {
        None
    }
}

/// Where an element's fixed fields live, for one driver version.
///
/// Validated at construction: every field fits inside the header and no two overlap. An
/// `ElementLayout` that cannot describe a real element is unconstructible, so no decode
/// path has to re-check it.
#[derive(Debug, Clone, Copy, PartialEq, Eq)]
pub struct ElementLayout {
    hdr_size: usize,
    checksum_off: usize,
    seqnum_off: usize,
    elem_count_off: Option<usize>,
    transport: TransportHdr,
}

impl ElementLayout {
    #[verifier::type_invariant]
    spec fn described(self) -> bool {
        layout_refusal(
            self.hdr_size,
            layout_fields(self.checksum_off, self.seqnum_off, self.elem_count_off, self.transport),
        ) is None
    }

    /// `queueElementHdrSize` — where the RPC envelope starts inside an element.
    pub closed spec fn hdr_size_spec(&self) -> usize {
        self.hdr_size
    }

    /// Byte offset of `checkSum`.
    pub closed spec fn checksum_off_spec(&self) -> usize {
        self.checksum_off
    }

    /// Byte offset of `seqNum`.
    pub closed spec fn seqnum_off_spec(&self) -> usize {
        self.seqnum_off
    }

    /// Byte offset of `elemCount`, on the versions that have one.
    pub closed spec fn elem_count_off_spec(&self) -> Option<usize> {
        self.elem_count_off
    }

    /// The transport headers this version carries.
    pub closed spec fn transport_spec(&self) -> TransportHdr {
        self.transport
    }

    /// This layout's named fields, in validation order.
    pub open spec fn fields(&self) -> Seq<usize> {
        layout_fields(
            self.checksum_off_spec(),
            self.seqnum_off_spec(),
            self.elem_count_off_spec(),
            self.transport_spec(),
        )
    }

    /// Every field of a constructible layout fits the header, and no two overlap.
    pub open spec fn describes_element(&self) -> bool {
        layout_refusal(self.hdr_size_spec(), self.fields()) is None
    }

    /// Describe an element header.
    ///
    /// `hdr_size` is the **effective** header size, computed at the ABI seam. Refuses with
    /// the first [`LayoutError`] in validation order: a header too small to hold a checksum
    /// and a sequence number, then the first field that escapes it, then the first pair of
    /// fields that share a byte.
    pub fn new(
        hdr_size: usize,
        checksum_off: usize,
        seqnum_off: usize,
        elem_count_off: Option<usize>,
        transport: TransportHdr,
    ) -> (r: Result<ElementLayout, LayoutError>)
        ensures
            ({
                let fields = layout_fields(checksum_off, seqnum_off, elem_count_off, transport);
                match layout_refusal(hdr_size, fields) {
                    Some(e) => r == Err::<ElementLayout, LayoutError>(e),
                    None => r matches Ok(l) && l.hdr_size_spec() == hdr_size
                        && l.checksum_off_spec() == checksum_off && l.seqnum_off_spec()
                        == seqnum_off && l.elem_count_off_spec() == elem_count_off
                        && l.transport_spec() == transport && l.describes_element(),
                }
            }),
    {
        let ghost want = layout_fields(checksum_off, seqnum_off, elem_count_off, transport);
        if hdr_size < 8 {
            return Err(LayoutError::HeaderTooSmall { hdr_size });
        }
        let mut fields: Vec<usize> = Vec::new();
        fields.push(checksum_off);
        fields.push(seqnum_off);
        match elem_count_off {
            Some(o) => {
                fields.push(o);
            },
            None => {},
        }
        match transport {
            TransportHdr::Mctp { header_off, nvdm_off, .. } => {
                fields.push(header_off);
                fields.push(nvdm_off);
            },
            TransportHdr::NoTransport => {},
        }
        assert(fields@ =~= want);
        let mut k: usize = 0;
        while k < fields.len()
            invariant
                fields@ == want,
                want == layout_fields(checksum_off, seqnum_off, elem_count_off, transport),
                hdr_size >= 8,
                k <= fields@.len(),
                first_outside(want, hdr_size, 0) == first_outside(want, hdr_size, k as nat),
            decreases fields@.len() - k,
        {
            let o = fields[k];
            if o > hdr_size - 4 {
                assert(first_outside(want, hdr_size, k as nat) == Some(k as nat));
                return Err(LayoutError::FieldOutsideHeader { offset: o, hdr_size });
            }
            k = k + 1;
        }
        let mut i: usize = 0;
        while i < fields.len()
            invariant
                fields@ == want,
                want == layout_fields(checksum_off, seqnum_off, elem_count_off, transport),
                hdr_size >= 8,
                first_outside(want, hdr_size, 0) is None,
                i <= fields@.len(),
                first_overlap(want, 0, 1) == first_overlap(want, i as nat, (i + 1) as nat),
            decreases fields@.len() - i,
        {
            let a = fields[i];
            let mut j: usize = i + 1;
            while j < fields.len()
                invariant
                    fields@ == want,
                    want == layout_fields(checksum_off, seqnum_off, elem_count_off, transport),
                    hdr_size >= 8,
                    first_outside(want, hdr_size, 0) is None,
                    i < fields@.len(),
                    i < j <= fields@.len(),
                    a == want[i as int],
                    first_overlap(want, 0, 1) == first_overlap(want, i as nat, j as nat),
                decreases fields@.len() - j,
            {
                let b = fields[j];
                let overlap = if a <= b {
                    b - a < 4
                } else {
                    a - b < 4
                };
                if overlap {
                    assert(first_overlap(want, i as nat, j as nat) == Some((i as nat, j as nat)));
                    return Err(LayoutError::FieldsOverlap { a, b });
                }
                j = j + 1;
            }
            i = i + 1;
        }
        Ok(ElementLayout { hdr_size, checksum_off, seqnum_off, elem_count_off, transport })
    }

    /// The layout's fields are where its getters say, and it describes a real element.
    pub fn hdr_size(&self) -> (r: usize)
        ensures
            r == self.hdr_size_spec(),
            self.describes_element(),
    {
        proof {
            use_type_invariant(self);
        }
        self.hdr_size
    }

    /// Byte offset of `checkSum`.
    pub fn checksum_off(&self) -> (r: usize)
        ensures
            r == self.checksum_off_spec(),
            self.describes_element(),
    {
        proof {
            use_type_invariant(self);
        }
        self.checksum_off
    }

    /// Byte offset of `seqNum`.
    pub fn seqnum_off(&self) -> (r: usize)
        ensures
            r == self.seqnum_off_spec(),
            self.describes_element(),
    {
        proof {
            use_type_invariant(self);
        }
        self.seqnum_off
    }

    /// Byte offset of `elemCount`, on the versions that have one; `None` where that
    /// offset holds something else.
    pub fn elem_count_off(&self) -> (r: Option<usize>)
        ensures
            r == self.elem_count_off_spec(),
            self.describes_element(),
    {
        proof {
            use_type_invariant(self);
        }
        self.elem_count_off
    }

    /// The transport headers this version carries.
    pub fn transport(&self) -> (r: TransportHdr)
        ensures
            r == self.transport_spec(),
            self.describes_element(),
    {
        proof {
            use_type_invariant(self);
        }
        self.transport
    }
}

/// Every field of a layout that describes an element fits inside its header.
pub proof fn lemma_fields_fit(l: ElementLayout, k: int)
    requires
        l.describes_element(),
        0 <= k < l.fields().len(),
    ensures
        l.fields()[k] + 4 <= l.hdr_size_spec(),
        l.hdr_size_spec() >= 8,
{
    lemma_first_outside_none(l.fields(), l.hdr_size_spec(), 0, k);
}

proof fn lemma_first_outside_none(fields: Seq<usize>, hdr_size: usize, from: nat, k: int)
    requires
        first_outside(fields, hdr_size, from) is None,
        from <= k < fields.len(),
    ensures
        fields[k] + 4 <= hdr_size,
    decreases k - from,
{
    if from < k {
        lemma_first_outside_none(fields, hdr_size, from + 1, k);
    }
}

/// `ceil(bytes / element_size_min)`, and `0` for a zero element size.
pub open spec fn spec_bytes_to_elements(bytes: u32, element_size_min: u32) -> u32 {
    if element_size_min == 0 {
        0
    } else if bytes % element_size_min == 0 {
        bytes / element_size_min
    } else {
        (bytes / element_size_min + 1) as u32
    }
}

/// `ceil(bytes / e)` elements of `e` bytes hold `bytes`, with less than one element spare.
pub proof fn lemma_elements_cover(bytes: u32, e: u32)
    requires
        e > 0,
    ensures
        spec_bytes_to_elements(bytes, e) * e >= bytes,
        spec_bytes_to_elements(bytes, e) * e < bytes + e,
        bytes % e != 0 ==> bytes / e < bytes,
{
    let q = bytes / e;
    let r = bytes % e;
    vstd::arithmetic::div_mod::lemma_fundamental_div_mod(bytes as int, e as int);
    assert(q * e == e * q) by (nonlinear_arith);
    assert((q + 1) * e == q * e + e) by (nonlinear_arith);
    assert(bytes == q * e + r);
    if r == 0 {
        assert(spec_bytes_to_elements(bytes, e) == q);
    } else {
        assert(q < bytes) by (nonlinear_arith)
            requires
                bytes == q * e + r,
                r > 0,
                e > 0,
                q >= 0,
        ;
        assert(spec_bytes_to_elements(bytes, e) == q + 1);
    }
}

/// `gspMsgQueueBytesToElements` — `ceil(bytes / elementSizeMin)`.
///
/// Returns 0 only for `element_size_min == 0`, which a bound geometry cannot have.
pub fn bytes_to_elements(bytes: u32, element_size_min: u32) -> (r: u32)
    ensures
        r == spec_bytes_to_elements(bytes, element_size_min),
        element_size_min > 0 ==> r * element_size_min >= bytes && r * element_size_min < bytes
            + element_size_min,
{
    if element_size_min == 0 {
        return 0;
    }
    proof {
        lemma_elements_cover(bytes, element_size_min);
    }
    let q = bytes / element_size_min;
    if bytes % element_size_min == 0 {
        q
    } else {
        q + 1
    }
}

/// How many elements one message may occupy before the guest's receive path writes past
/// its own staging allocation: `element_size_max / element_size`, `0` for a zero size.
///
/// This is a bound on **what we may emit into a guest's kernel**, not a lint.
pub fn max_elements(element_size: u32, element_size_max: u32) -> (r: u32)
    ensures
        element_size == 0 ==> r == 0,
        element_size > 0 ==> r == element_size_max / element_size,
        r * element_size <= element_size_max,
{
    if element_size == 0 {
        return 0;
    }
    let q = element_size_max / element_size;
    assert(q * element_size <= element_size_max) by (nonlinear_arith)
        requires
            q == element_size_max / element_size,
            element_size > 0,
    ;
    q
}

/// `len` rounded up to the next multiple of 8.
pub open spec fn round_up8(len: nat) -> nat {
    if len % 8 == 0 {
        len
    } else {
        (len + (8 - len % 8)) as nat
    }
}

/// Where the checksum fold stops: the next 8-byte boundary past the coverage `len`, but
/// never past the buffer.
pub open spec fn fold_end(len: nat, have: nat) -> nat {
    if round_up8(len) < have {
        round_up8(len)
    } else {
        have
    }
}

/// The XOR of the first `n` little-endian 64-bit words of `b`.
pub open spec fn xor_words(b: Seq<u8>, n: nat) -> u64
    decreases n,
{
    if n == 0 {
        0
    } else {
        xor_words(b, (n - 1) as nat) ^ le_u64(b, 8 * (n - 1))
    }
}

/// A 64-bit fold reduced to 32 bits: `hi ^ lo`.
pub open spec fn reduce32(acc: u64) -> u32 {
    ((acc >> 32u64) as u32) ^ (acc as u32)
}

/// `_checkSum32` over the first `len` bytes of `b`: the XOR of every whole 8-byte word up
/// to the next boundary past `len` (bounded by the buffer), reduced to 32 bits.
pub open spec fn spec_checksum32(b: Seq<u8>, len: nat) -> u32 {
    reduce32(xor_words(b, fold_end(len, b.len()) / 8))
}

/// `_checkSum32` — the 64-bit XOR fold, reduced to 32 by `hi ^ lo`.
///
/// `len` is the *declared* coverage; the fold runs to the next 8-byte boundary past it,
/// which is what the driver does and why the sender zero-pads. Only whole words count.
pub fn checksum32(bytes: &[u8], len: usize) -> (r: u32)
    ensures
        r == spec_checksum32(bytes@, len as nat),
{
    let have = bytes.len();
    let end = if len % 8 == 0 {
        if len < have {
            len
        } else {
            have
        }
    } else if len >= have {
        have
    } else {
        let pad = 8 - len % 8;
        if pad < have - len {
            len + pad
        } else {
            have
        }
    };
    assert(end == fold_end(len as nat, bytes@.len()));
    let words = end / 8;
    let mut acc: u64 = 0;
    let mut k: usize = 0;
    while k < words
        invariant
            words == end / 8,
            end <= bytes@.len(),
            k <= words,
            acc == xor_words(bytes@, k as nat),
        decreases words - k,
    {
        acc = acc ^ get_u64(bytes, 8 * k);
        k = k + 1;
    }
    ((acc >> 32u64) as u32) ^ (acc as u32)
}

/// A validated message length: the one bound every extent in the transport derives from.
///
/// The **lower** bound is the RPC envelope's own size, not zero: a zero-length message
/// would silently consume an element and produce garbage upstream.
#[derive(Debug, Clone, Copy, PartialEq, Eq)]
pub struct MsgLen {
    rpc_length: u32,
    msg_len: u32,
    elements: u32,
    element_size_min: u32,
}

/// A header size as a `u32`, or `u32::MAX` where it does not fit one.
pub open spec fn hdr_u32(hdr_size: usize) -> u32 {
    if hdr_size <= u32::MAX {
        hdr_size as u32
    } else {
        u32::MAX
    }
}

/// The largest `rpc.length` the transport allows: `element_size_max - hdr`, clamped at 0.
pub open spec fn max_rpc_length(hdr_size: usize, element_size_max: u32) -> u32 {
    if element_size_max >= hdr_u32(hdr_size) {
        (element_size_max - hdr_u32(hdr_size)) as u32
    } else {
        0
    }
}

impl MsgLen {
    /// The declared `rpc.length`.
    pub closed spec fn rpc_length_spec(&self) -> u32 {
        self.rpc_length
    }

    /// `queueElementHdrSize + rpc.length` — the checksum's coverage.
    pub closed spec fn msg_len_spec(&self) -> u32 {
        self.msg_len
    }

    /// How many elements the message occupies.
    pub closed spec fn elements_spec(&self) -> u32 {
        self.elements
    }

    /// The element width the message was validated against.
    pub closed spec fn element_size_min_spec(&self) -> u32 {
        self.element_size_min
    }

    /// Validate a declared `rpc.length` against the transport's bounds: at least the
    /// envelope, at most what fits one staging buffer after the header.
    pub fn new(
        rpc_length: u32,
        layout: &ElementLayout,
        element_size_min: u32,
        element_size_max: u32,
    ) -> (r: Result<MsgLen, GspFault>)
        ensures
            ({
                let max = max_rpc_length(layout.hdr_size_spec(), element_size_max);
                if rpc_length < RPC_ENVELOPE_SIZE || rpc_length > max {
                    r == Err::<MsgLen, GspFault>(
                        GspFault::MsgLenOutOfRange {
                            declared: rpc_length,
                            min: RPC_ENVELOPE_SIZE,
                            max,
                        },
                    )
                } else {
                    r matches Ok(m) && m.rpc_length_spec() == rpc_length && m.msg_len_spec()
                        == layout.hdr_size_spec() + rpc_length && m.elements_spec()
                        == spec_bytes_to_elements(m.msg_len_spec(), element_size_min)
                        && m.element_size_min_spec() == element_size_min
                }
            }),
    {
        let hdr_size = layout.hdr_size();
        let hdr: u32 = if hdr_size <= u32::MAX as usize {
            hdr_size as u32
        } else {
            u32::MAX
        };
        let max = element_size_max.saturating_sub(hdr);
        if rpc_length < RPC_ENVELOPE_SIZE || rpc_length > max {
            return Err(
                GspFault::MsgLenOutOfRange { declared: rpc_length, min: RPC_ENVELOPE_SIZE, max },
            );
        }
        let msg_len = hdr + rpc_length;
        Ok(
            MsgLen {
                rpc_length,
                msg_len,
                elements: bytes_to_elements(msg_len, element_size_min),
                element_size_min,
            },
        )
    }

    /// The declared `rpc.length`.
    pub fn rpc_length(self) -> (r: u32)
        ensures
            r == self.rpc_length_spec(),
    {
        self.rpc_length
    }

    /// `queueElementHdrSize + rpc.length` — the checksum's coverage.
    pub fn msg_len(self) -> (r: u32)
        ensures
            r == self.msg_len_spec(),
    {
        self.msg_len
    }

    /// How many elements the message occupies.
    pub fn elements(self) -> (r: u32)
        ensures
            r == self.elements_spec(),
    {
        self.elements
    }

    /// `GSP_MSG_QUEUE_ELEMENT_SIZE_MIN` as this message was validated against.
    pub fn element_size_min(self) -> (r: u32)
        ensures
            r == self.element_size_min_spec(),
    {
        self.element_size_min
    }
}

/// Read the declared length out of a message's **first** element: step 1 of the
/// two-phase receive. The envelope itself is not validated here — the declared length
/// may exceed the one element read so far.
pub fn peek_len(layout: &ElementLayout, first: &[u8], element_size: u32, element_size_max: u32) -> (r:
    Result<MsgLen, GspFault>)
    requires
        layout.hdr_size_spec() + 12 <= usize::MAX,
    ensures
        ({
            let at = layout.hdr_size_spec() + ENVELOPE_LENGTH_WORD * 4;
            if first@.len() < at + 4 {
                r == Err::<MsgLen, GspFault>(
                    GspFault::Truncated { need: (at + 4) as usize, have: first@.len() as usize },
                )
            } else {
                let declared = le_u32(first@, at);
                let max = max_rpc_length(layout.hdr_size_spec(), element_size_max);
                if declared < RPC_ENVELOPE_SIZE || declared > max {
                    r == Err::<MsgLen, GspFault>(
                        GspFault::MsgLenOutOfRange { declared, min: RPC_ENVELOPE_SIZE, max },
                    )
                } else {
                    r matches Ok(m) && m.rpc_length_spec() == declared && m.msg_len_spec()
                        == layout.hdr_size_spec() + declared && m.elements_spec()
                        == spec_bytes_to_elements(m.msg_len_spec(), element_size)
                        && m.element_size_min_spec() == element_size
                }
            }
        }),
{
    let hdr = layout.hdr_size();
    let at = hdr + ENVELOPE_LENGTH_WORD * 4;
    if first.len() < at + 4 {
        return Err(GspFault::Truncated { need: at + 4, have: first.len() });
    }
    let declared = get_u32(first, at);
    MsgLen::new(declared, layout, element_size, element_size_max)
}

/// Read the **declared** element count out of a message's first element, on the versions
/// whose layout carries one — the producer's own number for how far the ring moved.
pub fn peek_elem_count(layout: &ElementLayout, first: &[u8]) -> (r: Result<
    Option<u32>,
    GspFault,
>)
    ensures
        layout.elem_count_off_spec() is None ==> r == Ok::<Option<u32>, GspFault>(None),
        layout.elem_count_off_spec() matches Some(at) ==> if first@.len() < at + 4 {
            r == Err::<Option<u32>, GspFault>(
                GspFault::Truncated { need: (at + 4) as usize, have: first@.len() as usize },
            )
        } else {
            r == Ok::<Option<u32>, GspFault>(Some(le_u32(first@, at as int)))
        },
{
    let at = match layout.elem_count_off() {
        Some(at) => at,
        None => {
            return Ok(None);
        },
    };
    proof {
        lemma_fields_fit(*layout, 2);
    }
    if first.len() < at + 4 {
        return Err(GspFault::Truncated { need: at + 4, have: first.len() });
    }
    Ok(Some(get_u32(first, at)))
}

/// Peek the guest's `seqNum` out of a command element without decoding or validating it —
/// a hostile or stale element produces a *number*, never a refusal.
pub fn peek_seq_num(layout: &ElementLayout, first: &[u8]) -> (r: Result<u32, GspFault>)
    ensures
        ({
            let at = layout.seqnum_off_spec();
            if first@.len() < at + 4 {
                r == Err::<u32, GspFault>(
                    GspFault::Truncated { need: (at + 4) as usize, have: first@.len() as usize },
                )
            } else {
                r == Ok::<u32, GspFault>(le_u32(first@, at as int))
            }
        }),
{
    let at = layout.seqnum_off();
    proof {
        lemma_fields_fit(*layout, 1);
    }
    if first.len() < at + 4 {
        return Err(GspFault::Truncated { need: at + 4, have: first.len() });
    }
    Ok(get_u32(first, at))
}

/// The RPC envelope, as we emit it.
#[derive(Debug, Clone, PartialEq, Eq)]
pub struct OutgoingRpc {
    /// `function` — an `NV_VGPU_MSG_FUNCTION_*` / `NV_VGPU_MSG_EVENT_*` id.
    pub function: u32,
    /// `sequence` — the transaction id. A reply echoes the request's.
    pub sequence: u32,
    /// `rpc_result`.
    pub rpc_result: u32,
    /// `rpc_result_private` — the driver reads this one too, so it is set explicitly.
    pub rpc_result_private: u32,
    /// The message body after the 32-byte envelope.
    pub payload: Vec<u8>,
}

/// An RPC message as a value: the envelope fields a sender chooses and the body.
pub struct RpcMessage {
    /// `function`.
    pub function: u32,
    /// `sequence`.
    pub sequence: u32,
    /// `rpc_result`.
    pub rpc_result: u32,
    /// `rpc_result_private`.
    pub rpc_result_private: u32,
    /// The message body after the envelope.
    pub payload: Seq<u8>,
}

impl View for OutgoingRpc {
    type V = RpcMessage;

    open spec fn view(&self) -> RpcMessage {
        RpcMessage {
            function: self.function,
            sequence: self.sequence,
            rpc_result: self.rpc_result,
            rpc_result_private: self.rpc_result_private,
            payload: self.payload@,
        }
    }
}

/// `s` with the words of `words` stored little-endian from `at` on, one after another.
pub open spec fn put_words(s: Seq<u8>, at: int, words: Seq<u32>) -> Seq<u8>
    decreases words.len(),
{
    if words.len() == 0 {
        s
    } else {
        put_words(put_u32(s, at, words[0]), at + 4, words.drop_first())
    }
}

/// `s` with `data` copied in at `at`.
pub open spec fn splice(s: Seq<u8>, at: int, data: Seq<u8>) -> Seq<u8> {
    s.subrange(0, at) + data + s.subrange(at + data.len(), s.len() as int)
}

/// The envelope's eight words in the generated struct's field order: header version,
/// signature, length, function, result, private result, sequence, and the zeroed union.
pub open spec fn envelope_words(
    header_version: u32,
    signature: u32,
    length: u32,
    rpc: RpcMessage,
) -> Seq<u32> {
    seq![
        header_version,
        signature,
        length,
        rpc.function,
        rpc.rpc_result,
        rpc.rpc_result_private,
        rpc.sequence,
        0u32,
    ]
}

/// `s` with the header's fixed fields stamped in: the transport words (where the layout
/// has them), `seqNum`, and `elemCount` (where the layout has one).
pub open spec fn fixed_fields(layout: ElementLayout, s: Seq<u8>, seq_num: u32, elements: u32) -> Seq<
    u8,
> {
    let f1 = match layout.transport_spec() {
        TransportHdr::Mctp { header_off, header_word, nvdm_off, nvdm_word } => put_u32(
            put_u32(s, header_off as int, header_word),
            nvdm_off as int,
            nvdm_word,
        ),
        TransportHdr::NoTransport => s,
    };
    let f2 = put_u32(f1, layout.seqnum_off_spec() as int, seq_num);
    match layout.elem_count_off_spec() {
        Some(o) => put_u32(f2, o as int, elements),
        None => f2,
    }
}

/// Stamp the header's fixed fields into a run at least one header long.
fn put_fixed_fields(buf: &mut Vec<u8>, layout: &ElementLayout, seq_num: u32, elements: u32)
    requires
        layout.hdr_size_spec() <= old(buf)@.len(),
    ensures
        final(buf)@ == fixed_fields(*layout, old(buf)@, seq_num, elements),
        final(buf)@.len() == old(buf)@.len(),
{
    let _hdr = layout.hdr_size();
    match layout.transport() {
        TransportHdr::Mctp { header_off, header_word, nvdm_off, nvdm_word } => {
            proof {
                let n = layout.fields().len();
                assert(layout.fields()[n - 2] == header_off);
                assert(layout.fields()[n - 1] == nvdm_off);
                lemma_fields_fit(*layout, n - 2);
                lemma_fields_fit(*layout, n - 1);
            }
            set_u32(buf, header_off, header_word);
            set_u32(buf, nvdm_off, nvdm_word);
        },
        TransportHdr::NoTransport => {},
    }
    let so = layout.seqnum_off();
    proof {
        lemma_fields_fit(*layout, 1);
    }
    set_u32(buf, so, seq_num);
    match layout.elem_count_off() {
        Some(eo) => {
            proof {
                lemma_fields_fit(*layout, 2);
            }
            set_u32(buf, eo, elements);
        },
        None => {},
    }
}

/// The element run before its checksum is stored: `total` zero bytes with the transport
/// words, `seqNum`, `elemCount` (where the layout has one), the envelope and the payload
/// written in.
pub open spec fn unsummed_frame(
    layout: ElementLayout,
    header_version: u32,
    signature: u32,
    seq_num: u32,
    rpc: RpcMessage,
    rpc_length: u32,
    elements: u32,
    total: nat,
) -> Seq<u8> {
    let f3 = fixed_fields(layout, Seq::new(total, |i: int| 0u8), seq_num, elements);
    let hdr = layout.hdr_size_spec() as int;
    let f4 = put_words(f3, hdr, envelope_words(header_version, signature, rpc_length, rpc));
    splice(f4, hdr + RPC_ENVELOPE_SIZE, rpc.payload)
}

/// What [`encode_message`] produces for these inputs: the refusal, or the whole element
/// run with its checksum stored.
pub open spec fn spec_encode_message(
    layout: ElementLayout,
    header_version: u32,
    signature: u32,
    element_size: u32,
    element_size_max: u32,
    seq_num: u32,
    rpc: RpcMessage,
) -> Result<Seq<u8>, GspFault> {
    let plen = rpc.payload.len();
    if RPC_ENVELOPE_SIZE + plen > u32::MAX {
        Err(
            GspFault::MsgLenOutOfRange {
                declared: u32::MAX,
                min: RPC_ENVELOPE_SIZE,
                max: element_size_max,
            },
        )
    } else {
        let rpc_length = (RPC_ENVELOPE_SIZE + plen) as u32;
        let max = max_rpc_length(layout.hdr_size_spec(), element_size_max);
        if rpc_length > max {
            Err(GspFault::MsgLenOutOfRange { declared: rpc_length, min: RPC_ENVELOPE_SIZE, max })
        } else {
            let msg_len = (layout.hdr_size_spec() + rpc_length) as u32;
            let elements = spec_bytes_to_elements(msg_len, element_size);
            let max_el = if element_size == 0 {
                0
            } else {
                element_size_max / element_size
            };
            let total = elements * element_size;
            if elements > max_el {
                Err(GspFault::ElementCountOutOfRange { count: elements, max: max_el as u32 })
            } else if total > usize::MAX || total < layout.hdr_size_spec() {
                Err(GspFault::ElementCountOutOfRange { count: elements, max: max_el as u32 })
            } else {
                let frame = unsummed_frame(
                    layout,
                    header_version,
                    signature,
                    seq_num,
                    rpc,
                    rpc_length,
                    elements,
                    total as nat,
                );
                Ok(
                    put_u32(
                        frame,
                        layout.checksum_off_spec() as int,
                        spec_checksum32(frame, msg_len as nat),
                    ),
                )
            }
        }
    }
}

/// Store the eight envelope words little-endian from `at` on.
fn put_envelope(buf: &mut Vec<u8>, at: usize, words: &[u32; 8])
    requires
        at + 32 <= old(buf)@.len(),
    ensures
        final(buf)@ == put_words(old(buf)@, at as int, words@),
        final(buf)@.len() == old(buf)@.len(),
{
    let _len = buf.len();
    let ghost start = buf@;
    assert(words@.subrange(0, 8) =~= words@);
    let mut w: usize = 0;
    while w < 8
        invariant
            w <= 8,
            at + 32 <= buf@.len(),
            buf@.len() == start.len(),
            start.len() == _len,
            put_words(start, at as int, words@) == put_words(
                buf@,
                at + 4 * w,
                words@.subrange(w as int, 8),
            ),
        decreases 8 - w,
    {
        proof {
            assert(words@.subrange(w as int, 8).drop_first() =~= words@.subrange(w + 1, 8));
            assert(words@.subrange(w as int, 8)[0] == words@[w as int]);
        }
        set_u32(buf, at + 4 * w, words[w]);
        w = w + 1;
    }
    assert(words@.subrange(8, 8).len() == 0);
}

/// Copy `data` in at `at`.
fn put_bytes(buf: &mut Vec<u8>, at: usize, data: &[u8])
    requires
        at + data@.len() <= old(buf)@.len(),
    ensures
        final(buf)@ == splice(old(buf)@, at as int, data@),
{
    let _len = buf.len();
    let ghost start = buf@;
    let n = data.len();
    let mut i: usize = 0;
    while i < n
        invariant
            i <= n,
            n == data@.len(),
            at + n <= start.len(),
            buf@.len() == start.len(),
            start.len() == _len,
            forall|k: int| 0 <= k < at ==> buf@[k] == start[k],
            forall|k: int| at + n <= k < start.len() ==> buf@[k] == start[k],
            forall|k: int| 0 <= k < i ==> #[trigger] buf@[at + k] == data@[k],
        decreases n - i,
    {
        buf.set(at + i, data[i]);
        i = i + 1;
    }
    assert forall|k: int| 0 <= k < start.len() implies buf@[k] == splice(start, at as int, data@)[k] by {
        if at <= k < at + n {
            assert(buf@[at + (k - at)] == data@[k - at]);
        }
    }
    assert(buf@ =~= splice(start, at as int, data@));
}

/// Build the full element run for one message: `elements * element_size` bytes, zeroed,
/// with every fixed field and a checksum over the declared coverage.
///
/// The steps are the driver's own send path: bound the length, refuse a run that would
/// overrun the guest's receive staging buffer ([`max_elements`]), zero-pad, stamp the
/// transport words or `elemCount` as the layout has them, stamp `seqNum`, write the
/// envelope and the payload, fold, store. `signature` is the envelope's signature word,
/// supplied by the ABI layer with `header_version`.
pub fn encode_message(
    layout: &ElementLayout,
    header_version: u32,
    signature: u32,
    element_size: u32,
    element_size_max: u32,
    seq_num: u32,
    rpc: &OutgoingRpc,
) -> (r: Result<Vec<u8>, GspFault>)
    ensures
        match spec_encode_message(
            *layout,
            header_version,
            signature,
            element_size,
            element_size_max,
            seq_num,
            rpc@,
        ) {
            Ok(frame) => r matches Ok(v) && v@ == frame,
            Err(e) => r == Err::<Vec<u8>, GspFault>(e),
        },
        layout.checksum_off_spec() % 4 == 0 ==> (r matches Ok(v) ==> spec_checksum32(
            v@,
            encoded_msg_len(*layout, rpc@),
        ) == 0),
{
    let hdr = layout.hdr_size();
    proof {
        lemma_fields_fit(*layout, 0);
        lemma_fields_fit(*layout, 1);
    }
    let plen = rpc.payload.len();
    if plen > (u32::MAX - RPC_ENVELOPE_SIZE) as usize {
        return Err(
            GspFault::MsgLenOutOfRange {
                declared: u32::MAX,
                min: RPC_ENVELOPE_SIZE,
                max: element_size_max,
            },
        );
    }
    let rpc_length = RPC_ENVELOPE_SIZE + plen as u32;
    let len = match MsgLen::new(rpc_length, layout, element_size, element_size_max) {
        Ok(l) => l,
        Err(e) => {
            return Err(e);
        },
    };
    let max = max_elements(element_size, element_size_max);
    let elements = len.elements();
    if elements > max {
        return Err(GspFault::ElementCountOutOfRange { count: elements, max });
    }
    let total: usize = match (elements as usize).checked_mul(element_size as usize) {
        Some(t) => {
            if t >= hdr {
                t
            } else {
                return Err(GspFault::ElementCountOutOfRange { count: elements, max });
            }
        },
        None => {
            return Err(GspFault::ElementCountOutOfRange { count: elements, max });
        },
    };
    let msg_len = len.msg_len();
    proof {
        assert(element_size > 0);
        lemma_elements_cover(msg_len, element_size);
        assert(total >= msg_len);
    }
    let mut buf: Vec<u8> = vec![0u8; total];
    assert(buf@ =~= Seq::new(total as nat, |i: int| 0u8));
    put_fixed_fields(&mut buf, layout, seq_num, elements);
    let words: [u32; 8] = [
        header_version,
        signature,
        rpc_length,
        rpc.function,
        rpc.rpc_result,
        rpc.rpc_result_private,
        rpc.sequence,
        0,
    ];
    let ghost ew = envelope_words(header_version, signature, rpc_length, rpc@);
    assert(words@ =~= ew);
    put_envelope(&mut buf, hdr, &words);
    put_bytes(&mut buf, hdr + 32, rpc.payload.as_slice());
    proof {
        assert(buf@ == unsummed_frame(
            *layout,
            header_version,
            signature,
            seq_num,
            rpc@,
            rpc_length,
            elements,
            total as nat,
        ));
    }
    let sum = checksum32(buf.as_slice(), msg_len as usize);
    let co = layout.checksum_off();
    set_u32(&mut buf, co, sum);
    proof {
        if co % 4 == 0 {
            law_encoded_element_folds_to_zero(
                *layout,
                header_version,
                signature,
                element_size,
                element_size_max,
                seq_num,
                rpc@,
            );
        }
    }
    Ok(buf)
}


/// A command decoded out of the guest's command queue.
///
/// The envelope is handed on as its 32 bytes: decoding and validating it is the ABI
/// layer's, which owns its layout.
#[derive(Debug, Clone, PartialEq, Eq)]
pub struct IncomingRpc {
    /// The element sequence number it carried.
    pub seq_num: u32,
    /// The RPC envelope's bytes.
    pub envelope: Vec<u8>,
    /// How many elements it occupied.
    pub elements: u32,
    /// The message body after the envelope, as `rpc.length` **declares** it.
    pub payload: Vec<u8>,
    /// The message body after the envelope, as the **element run delivers** it — a
    /// superset of [`IncomingRpc::payload`], bounded by the run and by the element count
    /// and never by a length the guest declared.
    pub delivered: Vec<u8>,
}

/// Where the delivered body ends: the smaller of the run handed over and the elements the
/// guest submitted, and never before it starts.
pub open spec fn delivered_end(run_len: nat, elements: u32, element_size_min: u32, from: nat) -> nat {
    let submitted = elements * element_size_min;
    let end = if run_len < submitted {
        run_len
    } else {
        submitted as nat
    };
    if end < from {
        from
    } else {
        end
    }
}

/// The first transport word of a run that is not the one a conforming sender writes, or
/// `None` (always, for a layout without transport words).
pub open spec fn transport_refusal(layout: ElementLayout, run: Seq<u8>) -> Option<GspFault> {
    match layout.transport_spec() {
        TransportHdr::Mctp { header_off, header_word, nvdm_off, nvdm_word } => {
            if le_u32(run, header_off as int) != header_word {
                Some(
                    GspFault::TransportHeaderInvalid {
                        offset: header_off,
                        found: le_u32(run, header_off as int),
                        expected: header_word,
                    },
                )
            } else if le_u32(run, nvdm_off as int) != nvdm_word {
                Some(
                    GspFault::TransportHeaderInvalid {
                        offset: nvdm_off,
                        found: le_u32(run, nvdm_off as int),
                        expected: nvdm_word,
                    },
                )
            } else {
                None
            }
        },
        TransportHdr::NoTransport => None,
    }
}

/// Why [`decode_message`] refuses a run, in the driver's order, or `None`: too short for
/// its coverage, a checksum that does not fold to zero, a transport word other than the
/// one a conforming sender writes, a sequence number other than the expected one.
pub open spec fn decode_refusal(
    layout: ElementLayout,
    run: Seq<u8>,
    msg_len: u32,
    expect_seq: u32,
) -> Option<GspFault> {
    let folded = spec_checksum32(run, msg_len as nat);
    let seq = le_u32(run, layout.seqnum_off_spec() as int);
    if run.len() < msg_len {
        Some(GspFault::Truncated { need: msg_len as usize, have: run.len() as usize })
    } else if folded != 0 {
        Some(GspFault::ChecksumMismatch { folded })
    } else if transport_refusal(layout, run) is Some {
        transport_refusal(layout, run)
    } else if seq != expect_seq {
        Some(GspFault::SeqNumGap { expected: expect_seq, got: seq })
    } else {
        None
    }
}

/// The bytes `s[from..to]` as a fresh vector.
fn copy_range(s: &[u8], from: usize, to: usize) -> (r: Vec<u8>)
    requires
        from <= to <= s@.len(),
    ensures
        r@ == s@.subrange(from as int, to as int),
{
    let mut v: Vec<u8> = Vec::new();
    let mut i = from;
    while i < to
        invariant
            from <= i <= to <= s@.len(),
            v@ == s@.subrange(from as int, i as int),
        decreases to - i,
    {
        v.push(s[i]);
        i = i + 1;
        assert(v@ =~= s@.subrange(from as int, i as int));
    }
    v
}

/// Verify and decode a complete element run.
///
/// The checks are the driver's, in the driver's order: the run covers the message, the
/// checksum folds to zero, then the transport headers (where the layout has them), then
/// `seqNum == expect_seq`. `len` is the length [`peek_len`] read out of this run's first
/// element under the same layout.
pub fn decode_message(layout: &ElementLayout, run: &[u8], len: MsgLen, expect_seq: u32) -> (r:
    Result<IncomingRpc, GspFault>)
    requires
        len.msg_len_spec() >= layout.hdr_size_spec() + RPC_ENVELOPE_SIZE,
    ensures
        ({
            let hdr = layout.hdr_size_spec() as int;
            let msg_len = len.msg_len_spec();
            match decode_refusal(*layout, run@, msg_len, expect_seq) {
                Some(e) => r == Err::<IncomingRpc, GspFault>(e),
                None => r matches Ok(m) && m.seq_num == expect_seq && m.elements
                    == len.elements_spec() && m.envelope@ == run@.subrange(
                    hdr,
                    hdr + RPC_ENVELOPE_SIZE,
                ) && m.payload@ == run@.subrange(hdr + RPC_ENVELOPE_SIZE, msg_len as int)
                    && m.delivered@ == run@.subrange(
                    hdr + RPC_ENVELOPE_SIZE,
                    delivered_end(
                        run@.len(),
                        len.elements_spec(),
                        len.element_size_min_spec(),
                        (hdr + RPC_ENVELOPE_SIZE) as nat,
                    ) as int,
                ),
            }
        }),
{
    let msg_len = len.msg_len() as usize;
    if run.len() < msg_len {
        return Err(GspFault::Truncated { need: msg_len, have: run.len() });
    }
    let folded = checksum32(run, msg_len);
    if folded != 0 {
        return Err(GspFault::ChecksumMismatch { folded });
    }
    let hdr = layout.hdr_size();
    match layout.transport() {
        TransportHdr::Mctp { header_off, header_word, nvdm_off, nvdm_word } => {
            proof {
                let n = layout.fields().len();
                assert(layout.fields()[n - 2] == header_off);
                assert(layout.fields()[n - 1] == nvdm_off);
                lemma_fields_fit(*layout, n - 2);
                lemma_fields_fit(*layout, n - 1);
            }
            let found = get_u32(run, header_off);
            if found != header_word {
                return Err(
                    GspFault::TransportHeaderInvalid {
                        offset: header_off,
                        found,
                        expected: header_word,
                    },
                );
            }
            let found = get_u32(run, nvdm_off);
            if found != nvdm_word {
                return Err(
                    GspFault::TransportHeaderInvalid {
                        offset: nvdm_off,
                        found,
                        expected: nvdm_word,
                    },
                );
            }
        },
        TransportHdr::NoTransport => {},
    }
    let so = layout.seqnum_off();
    proof {
        lemma_fields_fit(*layout, 1);
    }
    let seq_num = get_u32(run, so);
    if seq_num != expect_seq {
        return Err(GspFault::SeqNumGap { expected: expect_seq, got: seq_num });
    }
    let from = hdr + 32;
    let envelope = copy_range(run, hdr, from);
    let payload = copy_range(run, from, msg_len);
    let elements = len.elements();
    let esm = len.element_size_min();
    let run_end: usize = match (elements as usize).checked_mul(esm as usize) {
        Some(submitted) => {
            if run.len() < submitted {
                run.len()
            } else {
                submitted
            }
        },
        None => run.len(),
    };
    let end = if run_end < from {
        from
    } else {
        run_end
    };
    let delivered = copy_range(run, from, end);
    Ok(IncomingRpc { seq_num, envelope, elements, payload, delivered })
}

/// No pair of fields, from the pair `(i, j)` on in search order, shares a byte, once the
/// search from there has found none.
proof fn lemma_first_overlap_none(fields: Seq<usize>, i: nat, j: nat, a: int, b: int)
    requires
        first_overlap(fields, i, j) is None,
        i < j,
        b < fields.len(),
        (a == i && j <= b) || (i < a && a < b),
    ensures
        !fields_overlap(fields[a], fields[b]),
    decreases fields.len() - i, fields.len() - j,
{
    if j >= fields.len() {
        lemma_first_overlap_none(fields, i + 1, i + 2, a, b);
    } else if a == i && b == j {
    } else {
        lemma_first_overlap_none(fields, i, j + 1, a, b);
    }
}

/// No two fields of a layout that describes an element share a byte.
pub proof fn lemma_fields_disjoint(l: ElementLayout, a: int, b: int)
    requires
        l.describes_element(),
        0 <= a < b < l.fields().len(),
    ensures
        !fields_overlap(l.fields()[a], l.fields()[b]),
{
    lemma_first_outside_none(l.fields(), l.hdr_size_spec(), 0, a);
    lemma_first_overlap_none(l.fields(), 0, 1, a, b);
}

/// Stored words from `at` on leave every word below `at` as it was.
pub proof fn lemma_put_words_below(s: Seq<u8>, at: int, words: Seq<u32>, w: int)
    requires
        0 <= w,
        w + 4 <= at,
        at + 4 * words.len() <= s.len(),
    ensures
        put_words(s, at, words).len() == s.len(),
        le_u32(put_words(s, at, words), w) == le_u32(s, w),
    decreases words.len(),
{
    if words.len() > 0 {
        let t = put_u32(s, at, words[0]);
        crate::fold::lemma_le_u32_untouched(s, at, words[0], w);
        lemma_put_words_below(t, at + 4, words.drop_first(), w);
    }
}

/// A splice at `at` leaves every word below `at` as it was.
pub proof fn lemma_splice_below(s: Seq<u8>, at: int, data: Seq<u8>, w: int)
    requires
        0 <= w,
        w + 4 <= at,
        at + data.len() <= s.len(),
    ensures
        splice(s, at, data).len() == s.len(),
        le_u32(splice(s, at, data), w) == le_u32(s, w),
{
    let t = splice(s, at, data);
    assert(t[w] == s[w]);
    assert(t[w + 1] == s[w + 1]);
    assert(t[w + 2] == s[w + 2]);
    assert(t[w + 3] == s[w + 3]);
}

/// Stamping the fixed fields leaves a word that shares no byte with any of them (the
/// checksum field aside) as it was.
#[verifier::spinoff_prover]
pub proof fn lemma_fixed_fields_keep(
    l: ElementLayout,
    s: Seq<u8>,
    seq_num: u32,
    elements: u32,
    w: int,
)
    requires
        l.describes_element(),
        l.hdr_size_spec() <= s.len(),
        0 <= w,
        w + 4 <= s.len(),
        forall|k: int| 1 <= k < l.fields().len() ==> !fields_overlap(w as usize, #[trigger] l.fields()[k]),
    ensures
        fixed_fields(l, s, seq_num, elements).len() == s.len(),
        le_u32(fixed_fields(l, s, seq_num, elements), w) == le_u32(s, w),
{
    let n = l.fields().len();
    lemma_fields_fit(l, 1);
    let f1 = match l.transport_spec() {
        TransportHdr::Mctp { header_off, header_word, nvdm_off, nvdm_word } => {
            lemma_fields_fit(l, n - 2);
            lemma_fields_fit(l, n - 1);
            assert(l.fields()[n - 2] == header_off);
            assert(l.fields()[n - 1] == nvdm_off);
            assert(!fields_overlap(w as usize, l.fields()[n - 2]));
            assert(!fields_overlap(w as usize, l.fields()[n - 1]));
            let g = put_u32(s, header_off as int, header_word);
            crate::fold::lemma_le_u32_untouched(s, header_off as int, header_word, w);
            crate::fold::lemma_le_u32_untouched(g, nvdm_off as int, nvdm_word, w);
            put_u32(g, nvdm_off as int, nvdm_word)
        },
        TransportHdr::NoTransport => s,
    };
    assert(!fields_overlap(w as usize, l.fields()[1]));
    crate::fold::lemma_le_u32_untouched(f1, l.seqnum_off_spec() as int, seq_num, w);
    let f2 = put_u32(f1, l.seqnum_off_spec() as int, seq_num);
    match l.elem_count_off_spec() {
        Some(o) => {
            lemma_fields_fit(l, 2);
            assert(l.fields()[2] == o);
            assert(!fields_overlap(w as usize, l.fields()[2]));
            crate::fold::lemma_le_u32_untouched(f2, o as int, elements, w);
        },
        None => {},
    }
}

/// The declared coverage of an encoded message: header, envelope and payload.
pub open spec fn encoded_msg_len(layout: ElementLayout, rpc: RpcMessage) -> nat {
    (layout.hdr_size_spec() + RPC_ENVELOPE_SIZE + rpc.payload.len()) as nat
}

/// An element run [`encode_message`] emits folds to zero over its declared coverage, so
/// the receiver's checksum check accepts it — wherever the layout's `checkSum` field is
/// 4-aligned, as both driver generations have it.
pub proof fn law_encoded_element_folds_to_zero(
    layout: ElementLayout,
    header_version: u32,
    signature: u32,
    element_size: u32,
    element_size_max: u32,
    seq_num: u32,
    rpc: RpcMessage,
)
    requires
        layout.describes_element(),
        layout.checksum_off_spec() % 4 == 0,
        spec_encode_message(
            layout,
            header_version,
            signature,
            element_size,
            element_size_max,
            seq_num,
            rpc,
        ) is Ok,
    ensures
        spec_checksum32(
            spec_encode_message(
                layout,
                header_version,
                signature,
                element_size,
                element_size_max,
                seq_num,
                rpc,
            )->Ok_0,
            encoded_msg_len(layout, rpc),
        ) == 0,
{
    let hdr = layout.hdr_size_spec() as int;
    let plen = rpc.payload.len();
    let rpc_length = (RPC_ENVELOPE_SIZE + plen) as u32;
    let msg_len = (layout.hdr_size_spec() + rpc_length) as u32;
    let elements = spec_bytes_to_elements(msg_len, element_size);
    let total = (elements * element_size) as nat;
    let co = layout.checksum_off_spec() as int;
    lemma_fields_fit(layout, 0);
    assert(layout.fields()[0] == co);
    assert(element_size > 0);
    lemma_elements_cover(msg_len, element_size);
    let zeros = Seq::new(total, |i: int| 0u8);
    assert(le_u32(zeros, co) == 0);
    assert forall|k: int| 1 <= k < layout.fields().len() implies !fields_overlap(
        co as usize,
        #[trigger] layout.fields()[k],
    ) by {
        lemma_fields_disjoint(layout, 0, k);
    }
    lemma_fixed_fields_keep(layout, zeros, seq_num, elements, co);
    let f3 = fixed_fields(layout, zeros, seq_num, elements);
    let ew = envelope_words(header_version, signature, rpc_length, rpc);
    lemma_put_words_below(f3, hdr, ew, co);
    let f4 = put_words(f3, hdr, ew);
    lemma_splice_below(f4, hdr + RPC_ENVELOPE_SIZE, rpc.payload, co);
    let frame = unsummed_frame(
        layout,
        header_version,
        signature,
        seq_num,
        rpc,
        rpc_length,
        elements,
        total,
    );
    assert(le_u32(frame, co) == 0);
    assert(frame.len() == total);
    assert(msg_len as nat == encoded_msg_len(layout, rpc));
    crate::fold::lemma_stored_fold_cancels(frame, co, msg_len as nat);
}

} // verus!
