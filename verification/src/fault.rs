//! Every way this crate refuses, named.
//!
//! Every refusal carries the guest-supplied number that caused it, and no two refusals
//! share a variant "because they are both bad input". A [`GspFault`] is **per-message**:
//! it aborts one service step, and is a return type, never a state.
use vstd::prelude::*;

verus! {

/// A guest-RAM access the host refused. The interface ([`crate::ram::GuestRam`]) reports it
/// without naming the hypervisor's own error type.
#[derive(Debug, Clone, Copy, PartialEq, Eq, PartialOrd, Ord, Hash)]
pub struct RamRefused {
    /// The guest-physical address of the refused access.
    pub gpa: u64,
    /// Its length in bytes.
    pub len: usize,
}

/// The `msgqRxLink` rejection codes, as the **guest's own** predicate spells them.
///
/// The numeric values are the guest's return values ([`RxLinkCode::code`]).
#[derive(Debug, Clone, Copy, PartialEq, Eq, PartialOrd, Ord, Hash)]
pub enum RxLinkCode {
    /// `-1` — handle null, or already linked.
    AlreadyLinked,
    /// `-2` — `msgSize < MSGQ_MSG_SIZE_MIN`.
    MsgSizeBelowMin,
    /// `-3` — `msgSize > size`.
    MsgSizeAboveQueue,
    /// `-5` — null backing store. There is no `-4`.
    NullBackingStore,
    /// `-6` — `size < rx.entryOff + msgSize`.
    EntryOffTooLarge,
    /// `-7` — `rx.size != size`: the signature of a status queue that never received a
    /// tx header.
    SizeMismatch,
    /// `-8` — `rx.msgSize != msgSize`.
    MsgSizeMismatch,
    /// `-9` — `rx.version != MSGQ_VERSION`.
    VersionMismatch,
    /// `-10` — the derived-field triple.
    DerivedFieldsMismatch,
    /// `-11` — the backend read of the peer header failed.
    BackendReadFailed,
    /// `-12` — the backend write of the zeroed read pointer failed.
    BackendWriteFailed,
}

/// The guest's numeric return value for each rejection.
pub open spec fn spec_rx_link_code(c: RxLinkCode) -> int {
    match c {
        RxLinkCode::AlreadyLinked => -1,
        RxLinkCode::MsgSizeBelowMin => -2,
        RxLinkCode::MsgSizeAboveQueue => -3,
        RxLinkCode::NullBackingStore => -5,
        RxLinkCode::EntryOffTooLarge => -6,
        RxLinkCode::SizeMismatch => -7,
        RxLinkCode::MsgSizeMismatch => -8,
        RxLinkCode::VersionMismatch => -9,
        RxLinkCode::DerivedFieldsMismatch => -10,
        RxLinkCode::BackendReadFailed => -11,
        RxLinkCode::BackendWriteFailed => -12,
    }
}

impl RxLinkCode {
    /// The guest's own numeric return value. Kept because a bench log prints the number,
    /// and a test that asserts `-7` should be reading the same number the driver did.
    pub fn code(self) -> (r: i32)
        ensures
            r == spec_rx_link_code(self),
    {
        match self {
            RxLinkCode::AlreadyLinked => -1,
            RxLinkCode::MsgSizeBelowMin => -2,
            RxLinkCode::MsgSizeAboveQueue => -3,
            RxLinkCode::NullBackingStore => -5,
            RxLinkCode::EntryOffTooLarge => -6,
            RxLinkCode::SizeMismatch => -7,
            RxLinkCode::MsgSizeMismatch => -8,
            RxLinkCode::VersionMismatch => -9,
            RxLinkCode::DerivedFieldsMismatch => -10,
            RxLinkCode::BackendReadFailed => -11,
            RxLinkCode::BackendWriteFailed => -12,
        }
    }
}

/// An [`crate::element::ElementLayout`] that could not describe a real element.
#[derive(Debug, Clone, Copy, PartialEq, Eq, PartialOrd, Ord, Hash)]
pub enum LayoutError {
    /// A named field does not fit inside the declared header.
    FieldOutsideHeader {
        /// Byte offset of the offending field.
        offset: usize,
        /// The declared header size it must fit in.
        hdr_size: usize,
    },
    /// Two named fields overlap.
    FieldsOverlap {
        /// The first field's offset.
        a: usize,
        /// The second field's offset.
        b: usize,
    },
    /// The header is too small to hold a checksum and a sequence number.
    HeaderTooSmall {
        /// The declared header size.
        hdr_size: usize,
    },
}

/// Why a region's page table could not be trusted.
#[derive(Debug, Clone, Copy, PartialEq, Eq, PartialOrd, Ord, Hash)]
pub enum RegionError {
    /// The page size is not a non-zero power of two.
    BadPageSize {
        /// The value supplied.
        page_size: u64,
    },
    /// The guest declared zero page-table entries, so the region has no pages.
    NoEntries,
    /// The declared entry count exceeds the bound the caller allows.
    TooManyEntries {
        /// The declared count.
        declared: u32,
        /// The cap.
        max: u32,
    },
    /// A page-table entry is not page-aligned.
    UnalignedEntry {
        /// Which entry.
        index: usize,
        /// Its value.
        value: u64,
    },
}

/// Every refusal the faked GSP's transport can produce.
#[allow(inconsistent_fields)]
#[derive(Debug, Clone, Copy, PartialEq, Eq)]
pub enum GspFault {
    /// The architecture has no GSP register model. There is no default register model,
    /// so a device configured without one refuses loudly rather than serving zeros.
    NoGspModel,
    /// A guest-RAM access was refused.
    GuestRam(RamRefused),
    /// The queue is not bound: there is no geometry, so there is nothing to parse.
    QueueNotBound,
    /// The guest's published geometry failed its own acceptance predicate, so publishing
    /// a matching status header could not have linked.
    GeometryRejected(RxLinkCode),
    /// `msgCount` was zero — refused at decode, so no division by it is ever reached.
    MsgCountZero,
    /// The guest's queue flags do not carry `MSGQ_FLAGS_SWAP_RX`.
    SwapRxNotAgreed {
        /// The flags word the guest published.
        flags: u32,
    },
    /// The guest's read pointer into our status queue is out of range.
    PeerReadPtrOutOfRange {
        /// The value read.
        value: u32,
        /// The ring's element count.
        count: u32,
    },
    /// The guest's write pointer into its command queue is out of range.
    PeerWritePtrOutOfRange {
        /// The value read.
        value: u32,
        /// The ring's element count.
        count: u32,
    },
    /// The status ring cannot take this message without overwriting elements the guest
    /// has not consumed. **Retryable**, not fatal.
    QueueFull {
        /// How many elements the message needs.
        needed: u32,
        /// How many are free.
        free: u32,
    },
    /// A message length outside the bounds the transport allows.
    MsgLenOutOfRange {
        /// The declared `rpc.length`.
        declared: u32,
        /// The lower bound (the RPC envelope's own size).
        min: u32,
        /// The upper bound (`queueElementSizeMax - queueElementHdrSize`).
        max: u32,
    },
    /// An element count that exceeds what the guest's receive staging buffer can hold.
    ElementCountOutOfRange {
        /// The count that was declared (or would have been emitted).
        count: u32,
        /// `queueElementSizeMax / element_size` — what the staging buffer holds.
        max: u32,
    },
    /// The guest's `elemCount` field disagrees with the count its own `rpc.length`
    /// derives.
    ElementCountMismatch {
        /// What the element's `elemCount` field said.
        declared: u32,
        /// What `ceil((hdrSize + rpc.length) / elementSize)` derives.
        derived: u32,
    },
    /// The element's checksum did not fold to zero.
    ChecksumMismatch {
        /// What the fold produced (zero is the only accepted value).
        folded: u32,
    },
    /// The element's sequence number is not the one expected next.
    SeqNumGap {
        /// The sequence number we were expecting.
        expected: u32,
        /// The one the element carried.
        got: u32,
    },
    /// The transport (MCTP/NVDM) header did not carry the expected word.
    TransportHeaderInvalid {
        /// Byte offset of the offending word within the element.
        offset: usize,
        /// The word the guest wrote.
        found: u32,
        /// The word the driver's own encoder produces.
        expected: u32,
    },
    /// A buffer was too short for the structure being read out of it.
    Truncated {
        /// Bytes needed.
        need: usize,
        /// Bytes available.
        have: usize,
    },
    /// The region's self-describing page table could not be used.
    RegionMalformed(RegionError),
    /// An offset/length pair fell outside the region the guest declared.
    RegionOutOfRange {
        /// The byte offset within the region.
        offset: u64,
        /// The access length.
        len: u64,
        /// The region's declared size.
        region_len: u64,
    },
    /// An event may not be posted before the boot handshake has completed.
    NotRunning,
    /// The element layout supplied by the ABI seam is self-inconsistent.
    Layout(LayoutError),
    /// Two entries of the function-id table carry the same wire id.
    DuplicateFunctionCode {
        /// The id that appears twice.
        code: u32,
    },
    /// The LibOS region array carried no `RMARGS` region, so there is nothing to bind to.
    RmargsRegionAbsent {
        /// How many entries were scanned.
        scanned: usize,
    },
    /// The guest declared a `queueElementHdrSize` that disagrees with the layout the
    /// version key selected.
    DeclaredHeaderSizeMismatch {
        /// What the guest declared.
        declared: u64,
        /// What the selected layout says.
        expected: u64,
    },
}

/// The stable trace name of each refusal: `GspFault::` and the variant's name.
pub open spec fn spec_fault_tag(f: GspFault) -> Seq<char> {
    match f {
        GspFault::NoGspModel => "GspFault::NoGspModel"@,
        GspFault::GuestRam(_) => "GspFault::GuestRam"@,
        GspFault::QueueNotBound => "GspFault::QueueNotBound"@,
        GspFault::GeometryRejected(_) => "GspFault::GeometryRejected"@,
        GspFault::MsgCountZero => "GspFault::MsgCountZero"@,
        GspFault::SwapRxNotAgreed { .. } => "GspFault::SwapRxNotAgreed"@,
        GspFault::PeerReadPtrOutOfRange { .. } => "GspFault::PeerReadPtrOutOfRange"@,
        GspFault::PeerWritePtrOutOfRange { .. } => "GspFault::PeerWritePtrOutOfRange"@,
        GspFault::QueueFull { .. } => "GspFault::QueueFull"@,
        GspFault::MsgLenOutOfRange { .. } => "GspFault::MsgLenOutOfRange"@,
        GspFault::ElementCountOutOfRange { .. } => "GspFault::ElementCountOutOfRange"@,
        GspFault::ElementCountMismatch { .. } => "GspFault::ElementCountMismatch"@,
        GspFault::ChecksumMismatch { .. } => "GspFault::ChecksumMismatch"@,
        GspFault::SeqNumGap { .. } => "GspFault::SeqNumGap"@,
        GspFault::TransportHeaderInvalid { .. } => "GspFault::TransportHeaderInvalid"@,
        GspFault::Truncated { .. } => "GspFault::Truncated"@,
        GspFault::RegionMalformed(_) => "GspFault::RegionMalformed"@,
        GspFault::RegionOutOfRange { .. } => "GspFault::RegionOutOfRange"@,
        GspFault::NotRunning => "GspFault::NotRunning"@,
        GspFault::Layout(_) => "GspFault::Layout"@,
        GspFault::DuplicateFunctionCode { .. } => "GspFault::DuplicateFunctionCode"@,
        GspFault::RmargsRegionAbsent { .. } => "GspFault::RmargsRegionAbsent"@,
        GspFault::DeclaredHeaderSizeMismatch { .. } => "GspFault::DeclaredHeaderSizeMismatch"@,
    }
}

impl GspFault {
    /// A stable name for the refusal, for the trace vocabulary. Exhaustive by
    /// construction: a new variant fails the build until it is named.
    pub fn fault_tag(&self) -> (r: &'static str)
        ensures
            r@ == spec_fault_tag(*self),
    {
        match self {
            GspFault::NoGspModel => "GspFault::NoGspModel",
            GspFault::GuestRam(_) => "GspFault::GuestRam",
            GspFault::QueueNotBound => "GspFault::QueueNotBound",
            GspFault::GeometryRejected(_) => "GspFault::GeometryRejected",
            GspFault::MsgCountZero => "GspFault::MsgCountZero",
            GspFault::SwapRxNotAgreed { .. } => "GspFault::SwapRxNotAgreed",
            GspFault::PeerReadPtrOutOfRange { .. } => "GspFault::PeerReadPtrOutOfRange",
            GspFault::PeerWritePtrOutOfRange { .. } => "GspFault::PeerWritePtrOutOfRange",
            GspFault::QueueFull { .. } => "GspFault::QueueFull",
            GspFault::MsgLenOutOfRange { .. } => "GspFault::MsgLenOutOfRange",
            GspFault::ElementCountOutOfRange { .. } => "GspFault::ElementCountOutOfRange",
            GspFault::ElementCountMismatch { .. } => "GspFault::ElementCountMismatch",
            GspFault::ChecksumMismatch { .. } => "GspFault::ChecksumMismatch",
            GspFault::SeqNumGap { .. } => "GspFault::SeqNumGap",
            GspFault::TransportHeaderInvalid { .. } => "GspFault::TransportHeaderInvalid",
            GspFault::Truncated { .. } => "GspFault::Truncated",
            GspFault::RegionMalformed(_) => "GspFault::RegionMalformed",
            GspFault::RegionOutOfRange { .. } => "GspFault::RegionOutOfRange",
            GspFault::NotRunning => "GspFault::NotRunning",
            GspFault::Layout(_) => "GspFault::Layout",
            GspFault::DuplicateFunctionCode { .. } => "GspFault::DuplicateFunctionCode",
            GspFault::RmargsRegionAbsent { .. } => "GspFault::RmargsRegionAbsent",
            GspFault::DeclaredHeaderSizeMismatch { .. } => "GspFault::DeclaredHeaderSizeMismatch",
        }
    }
}

} // verus!
