//! Little-endian words over byte sequences — the one wire discipline every structure in
//! this crate is read and written with. Explicitly little-endian: no layout of any type
//! is assumed, and there is no native- or big-endian conversion anywhere.
use vstd::prelude::*;

verus! {

/// The `u32` stored little-endian at `s[at..at + 4]`.
pub open spec fn le_u32(s: Seq<u8>, at: int) -> u32 {
    (s[at] + s[at + 1] * 0x100 + s[at + 2] * 0x1_0000 + s[at + 3] * 0x100_0000) as u32
}

/// The `u64` stored little-endian at `s[at..at + 8]`.
pub open spec fn le_u64(s: Seq<u8>, at: int) -> u64 {
    (le_u32(s, at) + le_u32(s, at + 4) * 0x1_0000_0000) as u64
}

/// The four little-endian bytes of `v`.
pub open spec fn le_bytes_u32(v: u32) -> Seq<u8> {
    seq![
        (v % 0x100) as u8,
        ((v / 0x100) % 0x100) as u8,
        ((v / 0x1_0000) % 0x100) as u8,
        (v / 0x100_0000) as u8,
    ]
}

/// `s` with the four bytes at `at` replaced by the little-endian bytes of `v`.
pub open spec fn put_u32(s: Seq<u8>, at: int, v: u32) -> Seq<u8> {
    s.subrange(0, at) + le_bytes_u32(v) + s.subrange(at + 4, s.len() as int)
}

/// Decoding the bytes of `v` gives back `v`.
pub proof fn lemma_le_u32_roundtrip(v: u32)
    ensures
        le_u32(le_bytes_u32(v), 0) == v,
{
}

/// Where the bytes of `v` sit at `at`, the word read there is `v`.
pub proof fn lemma_le_u32_at(s: Seq<u8>, at: int, v: u32)
    requires
        0 <= at,
        at + 4 <= s.len(),
        s.subrange(at, at + 4) == le_bytes_u32(v),
    ensures
        le_u32(s, at) == v,
{
    assert(s[at] == s.subrange(at, at + 4)[0]);
    assert(s[at + 1] == s.subrange(at, at + 4)[1]);
    assert(s[at + 2] == s.subrange(at, at + 4)[2]);
    assert(s[at + 3] == s.subrange(at, at + 4)[3]);
    lemma_le_u32_roundtrip(v);
}

/// Read the little-endian `u32` at `at`.
pub fn get_u32(s: &[u8], at: usize) -> (r: u32)
    requires
        at + 4 <= s@.len(),
    ensures
        r == le_u32(s@, at as int),
{
    (s[at] as u32) + (s[at + 1] as u32) * 0x100 + (s[at + 2] as u32) * 0x1_0000 + (s[at + 3]
        as u32) * 0x100_0000
}

/// Read the little-endian `u64` at `at`.
pub fn get_u64(s: &[u8], at: usize) -> (r: u64)
    requires
        at + 8 <= s@.len(),
    ensures
        r == le_u64(s@, at as int),
{
    let _n = s.len();
    let lo = get_u32(s, at) as u64;
    let hi = get_u32(s, at + 4) as u64;
    assert(hi * 0x1_0000_0000 <= 0xffff_ffff_0000_0000) by (nonlinear_arith)
        requires
            hi <= 0xffff_ffff,
    ;
    lo + hi * 0x1_0000_0000
}

/// Store `v` little-endian at `at`.
pub fn set_u32(buf: &mut Vec<u8>, at: usize, v: u32)
    requires
        at + 4 <= old(buf)@.len(),
    ensures
        final(buf)@ == put_u32(old(buf)@, at as int, v),
{
    let _len = buf.len();
    buf.set(at, (v % 0x100) as u8);
    buf.set(at + 1, ((v / 0x100) % 0x100) as u8);
    buf.set(at + 2, ((v / 0x1_0000) % 0x100) as u8);
    buf.set(at + 3, (v / 0x100_0000) as u8);
    assert(buf@ =~= put_u32(old(buf)@, at as int, v));
}

} // verus!
