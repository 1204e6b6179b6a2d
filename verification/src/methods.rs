//! **Method streams and GPFIFO rings, read word by word.** A pushbuffer range is a stream
//! of little-endian 32-bit words: a method header, then as many argument words as the
//! architecture's codec says that header carries. A GPFIFO ring is a run of fixed-stride
//! entries, live up to the first one the codec reads nothing from.
//!
//! The architecture's codec is handed in as a function: how many argument words a header
//! carries, and whether one ring entry names any work. Everything else — the word
//! boundaries, the clamping of a count that runs off the end, the stop rule — is decided
//! here.
use crate::fetch::PushBytes;
use crate::wire::{get_u32, le_u32};
use vstd::prelude::*;

verus! {

/// The little-endian words of `b`; a trailing partial word is not a word.
pub open spec fn words_of(b: Seq<u8>) -> Seq<u32> {
    Seq::new(b.len() / 4, |i: int| le_u32(b, 4 * i))
}

/// The words a decoded stream was made of: each method's header, then its arguments.
pub open spec fn flatten_methods(ms: Seq<(u32, Vec<u32>)>) -> Seq<u32>
    decreases ms.len(),
{
    if ms.len() == 0 {
        Seq::empty()
    } else {
        flatten_methods(ms.drop_last()) + seq![ms.last().0] + ms.last().1@
    }
}

/// Where method `k` of a decoded stream begins in its words.
pub open spec fn method_offset(ms: Seq<(u32, Vec<u32>)>, k: int) -> nat {
    flatten_methods(ms.take(k)).len()
}

/// Method `k` carries as many argument words as the codec said its header carries, or
/// every word left when the count runs off the end.
pub open spec fn method_args_counted<F: Fn(u32) -> usize>(
    method_len: F,
    words: Seq<u32>,
    ms: Seq<(u32, Vec<u32>)>,
    k: int,
) -> bool {
    exists|n: usize|
        call_ensures(method_len, (ms[k].0,), n) && #[trigger] ms[k].1@.len() == if method_offset(
            ms,
            k,
        ) + 1 + n <= words.len() {
            n as int
        } else {
            words.len() - method_offset(ms, k) - 1
        }
}

/// `ms` is `words` decoded as a method stream: the methods account for every word, in
/// order, and each carries the argument count its header called for.
pub open spec fn decodes<F: Fn(u32) -> usize>(
    method_len: F,
    words: Seq<u32>,
    ms: Seq<(u32, Vec<u32>)>,
) -> bool {
    &&& flatten_methods(ms) == words
    &&& forall|k: int| 0 <= k < ms.len() ==> #[trigger] method_args_counted(method_len, words, ms, k)
}

proof fn lemma_flatten_push(ms: Seq<(u32, Vec<u32>)>, m: (u32, Vec<u32>))
    ensures
        flatten_methods(ms.push(m)) == flatten_methods(ms) + seq![m.0] + m.1@,
        forall|k: int| 0 <= k <= ms.len() ==> #[trigger] ms.push(m).take(k) == ms.take(k),
{
    assert(ms.push(m).drop_last() =~= ms);
    assert forall|k: int| 0 <= k <= ms.len() implies #[trigger] ms.push(m).take(k) == ms.take(k) by {
        assert(ms.push(m).take(k) =~= ms.take(k));
    }
}

/// The little-endian words of `bytes`, in order.
pub fn words(bytes: &Vec<u8>) -> (w: Vec<u32>)
    ensures
        w@ == words_of(bytes@),
{
    let len = bytes.len();
    let n = len / 4;
    let mut w: Vec<u32> = Vec::new();
    let mut i: usize = 0;
    while i < n
        invariant
            len == bytes@.len(),
            n == len / 4,
            i <= n,
            w@ == words_of(bytes@).take(i as int),
        decreases n - i,
    {
        assert(4 * i + 4 <= len) by (nonlinear_arith)
            requires
                i < n,
                n == len / 4,
        ;
        let v = get_u32(bytes.as_slice(), 4 * i);
        w.push(v);
        i = i + 1;
        assert(w@ =~= words_of(bytes@).take(i as int));
    }
    assert(w@ =~= words_of(bytes@));
    w
}

/// Decode a byte range of method words into `(header, arguments)` pairs, the argument
/// count of each header as `method_len` gives it. Total on any input: a count that runs
/// off the end takes the words that are left, and every header is consumed, so a bogus
/// count can neither stall the walk nor read past the range.
pub fn decode_methods<F: Fn(u32) -> usize>(method_len: &F, bytes: &Vec<u8>) -> (r: Vec<(u32, Vec<u32>)>)
    requires
        forall|h: u32| method_len.requires((h,)),
    ensures
        decodes(*method_len, words_of(bytes@), r@),
{
    let w = words(bytes);
    let ghost ws = w@;
    let mut out: Vec<(u32, Vec<u32>)> = Vec::new();
    let mut i: usize = 0;
    while i < w.len()
        invariant
            w@ == ws,
            i <= ws.len(),
            forall|h: u32| method_len.requires((h,)),
            flatten_methods(out@) == ws.take(i as int),
            forall|k: int| 0 <= k < out@.len() ==> #[trigger] method_args_counted(*method_len, ws, out@, k),
        decreases ws.len() - i,
    {
        let header = w[i];
        let nargs = method_len(header);
        let start = i + 1;
        let end = if nargs <= w.len() - start {
            start + nargs
        } else {
            w.len()
        };
        let mut args: Vec<u32> = Vec::new();
        let mut j: usize = start;
        while j < end
            invariant
                w@ == ws,
                start <= j <= end <= ws.len(),
                args@ == ws.subrange(start as int, j as int),
            decreases end - j,
        {
            args.push(w[j]);
            j = j + 1;
            assert(args@ =~= ws.subrange(start as int, j as int));
        }
        let ghost before = out@;
        let m = (header, args);
        out.push(m);
        proof {
            lemma_flatten_push(before, m);
            assert(ws.take(end as int) =~= ws.take(i as int) + seq![header] + ws.subrange(
                start as int,
                end as int,
            ));
            assert(before.take(before.len() as int) =~= before);
            assert forall|k: int| 0 <= k < out@.len() implies #[trigger] method_args_counted(
                *method_len,
                ws,
                out@,
                k,
            ) by {
                assert(out@.take(k) == before.take(k));
                if k < before.len() {
                    assert(method_args_counted(*method_len, ws, before, k));
                    assert(out@[k] == before[k]);
                    let n = choose|n: usize|
                        call_ensures(*method_len, (before[k].0,), n) && #[trigger] before[k].1@.len()
                            == if method_offset(before, k) + 1 + n <= ws.len() {
                            n as int
                        } else {
                            ws.len() - method_offset(before, k) - 1
                        };
                    assert(call_ensures(*method_len, (out@[k].0,), n));
                } else {
                    assert(method_offset(out@, k) == i);
                    assert(call_ensures(*method_len, (out@[k].0,), nargs));
                }
            }
        }
        i = end;
    }
    assert(ws.take(ws.len() as int) =~= ws);
    out
}

/// The decoded streams of several ranges, one after another.
pub open spec fn concat_streams(parts: Seq<Seq<(u32, Vec<u32>)>>) -> Seq<(u32, Vec<u32>)>
    decreases parts.len(),
{
    if parts.len() == 0 {
        Seq::empty()
    } else {
        concat_streams(parts.drop_last()) + parts.last()
    }
}

/// Each range's decoded stream, one after another: a method never spans two ranges.
pub open spec fn decodes_ranges<F: Fn(u32) -> usize>(
    method_len: F,
    ranges: Seq<Vec<u8>>,
    r: Seq<(u32, Vec<u32>)>,
) -> bool {
    exists|parts: Seq<Seq<(u32, Vec<u32>)>>|
        #![trigger concat_streams(parts)]
        parts.len() == ranges.len() && concat_streams(parts) == r && forall|i: int|
            0 <= i < ranges.len() ==> decodes(method_len, words_of(#[trigger] ranges[i]@), parts[i])
}

/// The methods of a pushbuffer read, range by range, in plan order. Pure: it touches
/// neither guest memory nor the framebuffer.
pub fn decode_pushbuffer<F: Fn(u32) -> usize>(method_len: &F, bytes: &PushBytes) -> (r: Vec<(u32, Vec<u32>)>)
    requires
        forall|h: u32| method_len.requires((h,)),
    ensures
        decodes_ranges(*method_len, bytes.ranges@, r@),
{
    let mut out: Vec<(u32, Vec<u32>)> = Vec::new();
    let ghost mut parts: Seq<Seq<(u32, Vec<u32>)>> = Seq::empty();
    let mut i: usize = 0;
    while i < bytes.ranges.len()
        invariant
            i <= bytes.ranges@.len(),
            forall|h: u32| method_len.requires((h,)),
            parts.len() == i,
            concat_streams(parts) == out@,
            forall|k: int|
                0 <= k < i ==> decodes(*method_len, words_of(#[trigger] bytes.ranges@[k]@), parts[k]),
        decreases bytes.ranges@.len() - i,
    {
        let mut ms = decode_methods(method_len, &bytes.ranges[i]);
        let ghost got = ms@;
        out.append(&mut ms);
        proof {
            let old_parts = parts;
            parts = parts.push(got);
            assert(parts.drop_last() =~= old_parts);
        }
        i = i + 1;
    }
    assert(decodes_ranges(*method_len, bytes.ranges@, out@));
    out
}

/// Entry `i` of a ring of `stride`-byte entries.
pub open spec fn ring_entry(ring: Seq<u8>, stride: nat, i: nat) -> Seq<u8> {
    ring.subrange((i * stride) as int, ((i + 1) * stride) as int)
}

/// The codec, asked about an entry with these bytes, may answer `work`.
pub open spec fn entry_answers<F: Fn(Vec<u8>) -> bool>(names_work: F, entry: Seq<u8>, work: bool) -> bool {
    exists|e: Vec<u8>| e@ == entry && #[trigger] call_ensures(names_work, (e,), work)
}

/// How many leading entries of `ring` the guest has written: entries of `stride` bytes are
/// read one at a time, and the walk stops at the first one `names_work` says holds no
/// work — an unwritten entry is zero, which is the ring saying "no more", not a malformed
/// entry. A codec that cannot tell its own stride (`stride == 0`) has no live entries.
///
/// Entries are asked about one at a time rather than all at once and counted: a codec that
/// skips entries it cannot read would give a count that is no longer a position.
pub fn gpfifo_live_entries<F: Fn(Vec<u8>) -> bool>(stride: usize, names_work: &F, ring: &Vec<u8>) -> (n: usize)
    requires
        forall|e: Vec<u8>| names_work.requires((e,)),
    ensures
        stride == 0 ==> n == 0,
        stride > 0 ==> {
            &&& n * stride <= ring@.len()
            &&& forall|i: nat| i < n ==> entry_answers(*names_work, #[trigger] ring_entry(ring@, stride as nat, i), true)
            &&& (n + 1) * stride <= ring@.len() ==> entry_answers(
                *names_work,
                ring_entry(ring@, stride as nat, n as nat),
                false,
            )
        },
{
    if stride == 0 {
        return 0;
    }
    let len = ring.len();
    let mut n: usize = 0;
    let mut at: usize = 0;
    while stride <= len - at
        invariant
            stride > 0,
            len == ring@.len(),
            at == n * stride,
            at <= len,
            forall|e: Vec<u8>| names_work.requires((e,)),
            forall|i: nat| i < n ==> entry_answers(*names_work, #[trigger] ring_entry(ring@, stride as nat, i), true),
        decreases len - at,
    {
        let mut entry: Vec<u8> = Vec::new();
        let mut j: usize = at;
        while j < at + stride
            invariant
                at + stride <= len == ring@.len(),
                at <= j <= at + stride,
                entry@ == ring@.subrange(at as int, j as int),
            decreases at + stride - j,
        {
            entry.push(ring[j]);
            j = j + 1;
            assert(entry@ =~= ring@.subrange(at as int, j as int));
        }
        let ghost seen = entry@;
        assert(seen == ring_entry(ring@, stride as nat, n as nat)) by {
            assert((n + 1) * stride == n * stride + stride) by (nonlinear_arith);
        }
        if !names_work(entry) {
            assert(entry_answers(*names_work, ring_entry(ring@, stride as nat, n as nat), false));
            assert((n + 1) * stride == at + stride) by (nonlinear_arith)
                requires
                    at == n * stride,
            ;
            return n;
        }
        assert(entry_answers(*names_work, ring_entry(ring@, stride as nat, n as nat), true));
        assert((n + 1) * stride == at + stride) by (nonlinear_arith)
            requires
                at == n * stride,
        ;
        assert(n <= at) by (nonlinear_arith)
            requires
                at == n * stride,
                stride > 0,
        ;
        n = n + 1;
        at = at + stride;
    }
    assert((n + 1) * stride == at + stride) by (nonlinear_arith)
        requires
            at == n * stride,
    ;
    n
}

} // verus!
