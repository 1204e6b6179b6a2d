//! Why a stored checksum cancels its own fold.
//!
//! The sender zeroes `checkSum`, folds, and stores the fold in the field it zeroed. The
//! field is 4-aligned, so its bytes fill one half of one 64-bit word; storing `v` there
//! XORs that word with `v` shifted into that half, and `hi ^ lo` takes the shift back out.
//! The fold of the stored element is therefore `fold ^ fold == 0`.
use vstd::prelude::*;

use crate::element::{fold_end, reduce32, spec_checksum32, xor_words};
use crate::wire::{le_u32, le_u64, put_u32};

verus! {

/// A little-endian `u64` is its low word ORed with its high word shifted up.
proof fn lemma_join_words(lo: u32, hi: u32)
    by (bit_vector)
    ensures
        ((lo + hi * 0x1_0000_0000) as u64) == ((lo as u64) | ((hi as u64) << 32u64)),
{
}

/// Storing `v` into a zero low half XORs it in.
proof fn lemma_fill_low(v: u32, hi: u32)
    by (bit_vector)
    ensures
        ((v as u64) | ((hi as u64) << 32u64)) == (((0u32 as u64) | ((hi as u64) << 32u64)) ^ (
        v as u64)),
{
}

/// Storing `v` into a zero high half XORs it in, shifted.
proof fn lemma_fill_high(lo: u32, v: u32)
    by (bit_vector)
    ensures
        ((lo as u64) | ((v as u64) << 32u64)) == (((lo as u64) | ((0u32 as u64) << 32u64)) ^ ((
        v as u64) << 32u64)),
{
}

/// XOR may take its terms in any order.
proof fn lemma_xor_swap(a: u64, b: u64, d: u64)
    by (bit_vector)
    ensures
        (a ^ d) ^ b == (a ^ b) ^ d,
        a ^ (b ^ d) == (a ^ b) ^ d,
{
}

/// `hi ^ lo` takes a word XORed into either half back out as itself.
proof fn lemma_reduce_xor(x: u64, v: u32)
    by (bit_vector)
    ensures
        (((x ^ (v as u64)) >> 32u64) as u32) ^ ((x ^ (v as u64)) as u32) == (((x >> 32u64) as u32)
            ^ (x as u32)) ^ v,
        (((x ^ ((v as u64) << 32u64)) >> 32u64) as u32) ^ ((x ^ ((v as u64) << 32u64)) as u32) == ((
        (x >> 32u64) as u32) ^ (x as u32)) ^ v,
{
}

/// A value XORed with itself is zero.
proof fn lemma_xor_self(v: u32)
    by (bit_vector)
    ensures
        v ^ v == 0u32,
{
}

/// The bytes `put_u32` leaves alone are unchanged.
pub proof fn lemma_put_u32_elsewhere(s: Seq<u8>, at: int, v: u32, k: int)
    requires
        0 <= at,
        at + 4 <= s.len(),
        0 <= k < s.len(),
        k < at || at + 4 <= k,
    ensures
        put_u32(s, at, v).len() == s.len(),
        put_u32(s, at, v)[k] == s[k],
{
}

/// A word read over bytes `put_u32` did not touch is unchanged.
pub proof fn lemma_le_u32_untouched(s: Seq<u8>, at: int, v: u32, w: int)
    requires
        0 <= at,
        at + 4 <= s.len(),
        0 <= w,
        w + 4 <= s.len(),
        w + 4 <= at || at + 4 <= w,
    ensures
        le_u32(put_u32(s, at, v), w) == le_u32(s, w),
{
    lemma_put_u32_elsewhere(s, at, v, w);
    lemma_put_u32_elsewhere(s, at, v, w + 1);
    lemma_put_u32_elsewhere(s, at, v, w + 2);
    lemma_put_u32_elsewhere(s, at, v, w + 3);
}

/// The word `put_u32` wrote reads back as what was written.
pub proof fn lemma_le_u32_put(s: Seq<u8>, at: int, v: u32)
    requires
        0 <= at,
        at + 4 <= s.len(),
    ensures
        le_u32(put_u32(s, at, v), at) == v,
{
    let t = put_u32(s, at, v);
    assert(t.subrange(at, at + 4) =~= crate::wire::le_bytes_u32(v));
    crate::wire::lemma_le_u32_at(t, at, v);
}

/// The 64-bit word that holds a stored 4-aligned field, before and after the store: the
/// new word is the old one XORed with `v` in the field's half.
proof fn lemma_word_of_field(s: Seq<u8>, co: int, v: u32)
    requires
        0 <= co,
        co % 4 == 0,
        (co / 8) * 8 + 8 <= s.len(),
        le_u32(s, co) == 0,
    ensures
        le_u64(put_u32(s, co, v), (co / 8) * 8) == (if co % 8 == 0 {
            le_u64(s, (co / 8) * 8) ^ (v as u64)
        } else {
            le_u64(s, (co / 8) * 8) ^ ((v as u64) << 32u64)
        }),
{
    let w = (co / 8) * 8;
    let t = put_u32(s, co, v);
    lemma_le_u32_put(s, co, v);
    if co % 8 == 0 {
        assert(co == w);
        lemma_le_u32_untouched(s, co, v, w + 4);
        let hi = le_u32(s, w + 4);
        lemma_join_words(v, hi);
        lemma_join_words(0, hi);
        lemma_fill_low(v, hi);
    } else {
        assert(co == w + 4);
        lemma_le_u32_untouched(s, co, v, w);
        let lo = le_u32(s, w);
        lemma_join_words(lo, v);
        lemma_join_words(lo, 0);
        lemma_fill_high(lo, v);
    }
}

/// A 64-bit word that does not hold the stored field is unchanged.
proof fn lemma_other_word(s: Seq<u8>, co: int, v: u32, j: int)
    requires
        0 <= co,
        co % 4 == 0,
        co + 4 <= s.len(),
        0 <= j,
        8 * j + 8 <= s.len(),
        j != co / 8,
    ensures
        le_u64(put_u32(s, co, v), 8 * j) == le_u64(s, 8 * j),
{
    lemma_le_u32_untouched(s, co, v, 8 * j);
    lemma_le_u32_untouched(s, co, v, 8 * j + 4);
}

/// The fold over the first `n` words after the store is the fold before it, XORed with
/// the stored delta once the field's word is among them.
proof fn lemma_fold_after_store(s: Seq<u8>, co: int, v: u32, n: nat, d: u64)
    requires
        0 <= co,
        co % 4 == 0,
        (co / 8) * 8 + 8 <= s.len(),
        8 * n <= s.len(),
        le_u32(s, co) == 0,
        d == (if co % 8 == 0 {
            v as u64
        } else {
            (v as u64) << 32u64
        }),
    ensures
        xor_words(put_u32(s, co, v), n) == (if n > co / 8 {
            xor_words(s, n) ^ d
        } else {
            xor_words(s, n)
        }),
    decreases n,
{
    let t = put_u32(s, co, v);
    if n > 0 {
        let m = (n - 1) as nat;
        lemma_fold_after_store(s, co, v, m, d);
        if m == co / 8 {
            lemma_word_of_field(s, co, v);
            assert(8 * m == (co / 8) * 8);
            lemma_xor_swap(xor_words(s, m), le_u64(s, 8 * m as int), d);
            assert(xor_words(t, n) == xor_words(t, m) ^ le_u64(t, 8 * m as int));
        } else {
            lemma_other_word(s, co, v, m as int);
            if m > co / 8 {
                lemma_xor_swap(xor_words(s, m), le_u64(s, 8 * m as int), d);
            }
        }
    }
}

/// Storing the fold of a frame into its zeroed, 4-aligned checksum field makes the frame
/// fold to zero, wherever the field's word lies inside the folded span.
pub proof fn lemma_stored_fold_cancels(frame: Seq<u8>, co: int, len: nat)
    requires
        0 <= co,
        co % 4 == 0,
        (co / 8) * 8 + 8 <= fold_end(len, frame.len()),
        fold_end(len, frame.len()) <= frame.len(),
        le_u32(frame, co) == 0,
    ensures
        spec_checksum32(put_u32(frame, co, spec_checksum32(frame, len)), len) == 0,
{
    let v = spec_checksum32(frame, len);
    let t = put_u32(frame, co, v);
    let n = fold_end(len, frame.len()) / 8;
    assert(t.len() == frame.len());
    assert(8 * n <= frame.len());
    assert(n > co / 8);
    let d = if co % 8 == 0 {
        v as u64
    } else {
        (v as u64) << 32u64
    };
    lemma_fold_after_store(frame, co, v, n, d);
    let x = xor_words(frame, n);
    lemma_reduce_xor(x, v);
    assert(reduce32(x) == v);
    lemma_xor_self(v);
}

} // verus!
