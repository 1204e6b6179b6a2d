//! What the receive path reads back out of an element run the send path built.
use vstd::prelude::*;

use crate::element::{
    decode_refusal, encoded_msg_len, envelope_words, fixed_fields, lemma_elements_cover,
    lemma_fields_disjoint, lemma_fields_fit, lemma_put_words_below, lemma_splice_below,
    law_encoded_element_folds_to_zero, put_words, spec_bytes_to_elements, spec_checksum32,
    spec_encode_message, splice, unsummed_frame, ElementLayout, RpcMessage, TransportHdr,
    RPC_ENVELOPE_SIZE,
};
use crate::fold::{lemma_le_u32_put, lemma_le_u32_untouched, lemma_put_u32_elsewhere};
use crate::replay::{spec_decode_posted, spec_digest, word_at, Observation};
use crate::wire::{le_u32, put_u32};

verus! {

/// Each stored envelope word reads back where it was stored.
proof fn lemma_put_words_at(s: Seq<u8>, at: int, words: Seq<u32>, i: int)
    requires
        0 <= at,
        0 <= i < words.len(),
        at + 4 * words.len() <= s.len(),
    ensures
        le_u32(put_words(s, at, words), at + 4 * i) == words[i],
    decreases words.len(),
{
    let t = put_u32(s, at, words[0]);
    if i == 0 {
        lemma_le_u32_put(s, at, words[0]);
        lemma_put_words_below(t, at + 4, words.drop_first(), at);
    } else {
        lemma_put_words_at(t, at + 4, words.drop_first(), i - 1);
    }
}

/// The stamped fixed fields read back as stamped.
proof fn lemma_fixed_fields_read(l: ElementLayout, s: Seq<u8>, seq_num: u32, elements: u32)
    requires
        l.describes_element(),
        l.hdr_size_spec() <= s.len(),
    ensures
        le_u32(fixed_fields(l, s, seq_num, elements), l.seqnum_off_spec() as int) == seq_num,
        l.elem_count_off_spec() matches Some(o) ==> le_u32(
            fixed_fields(l, s, seq_num, elements),
            o as int,
        ) == elements,
        l.transport_spec() matches TransportHdr::Mctp { header_off, header_word, nvdm_off, nvdm_word }
            ==> le_u32(fixed_fields(l, s, seq_num, elements), header_off as int) == header_word
            && le_u32(fixed_fields(l, s, seq_num, elements), nvdm_off as int) == nvdm_word,
{
    let n = l.fields().len();
    let so = l.seqnum_off_spec() as int;
    lemma_fields_fit(l, 1);
    assert(l.fields()[1] == so);
    if l.transport_spec() is Mctp {
        lemma_fields_fit(l, n - 2);
        lemma_fields_fit(l, n - 1);
    }
    let f1 = match l.transport_spec() {
        TransportHdr::Mctp { header_off, header_word, nvdm_off, nvdm_word } => {
            put_u32(put_u32(s, header_off as int, header_word), nvdm_off as int, nvdm_word)
        },
        TransportHdr::NoTransport => s,
    };
    let f2 = put_u32(f1, so, seq_num);
    lemma_le_u32_put(f1, so, seq_num);
    match l.elem_count_off_spec() {
        Some(o) => {
            lemma_fields_fit(l, 2);
            assert(l.fields()[2] == o);
            lemma_fields_disjoint(l, 1, 2);
            lemma_le_u32_untouched(f2, o as int, elements, so);
            lemma_le_u32_put(f2, o as int, elements);
        },
        None => {},
    }
    match l.transport_spec() {
        TransportHdr::Mctp { header_off, header_word, nvdm_off, nvdm_word } => {
            lemma_fields_fit(l, n - 2);
            lemma_fields_fit(l, n - 1);
            assert(l.fields()[n - 2] == header_off);
            assert(l.fields()[n - 1] == nvdm_off);
            lemma_fields_disjoint(l, n - 2, n - 1);
            lemma_fields_disjoint(l, 1, n - 2);
            lemma_fields_disjoint(l, 1, n - 1);
            let g = put_u32(s, header_off as int, header_word);
            lemma_le_u32_put(s, header_off as int, header_word);
            lemma_le_u32_untouched(g, nvdm_off as int, nvdm_word, header_off as int);
            lemma_le_u32_put(g, nvdm_off as int, nvdm_word);
            lemma_le_u32_untouched(f1, so, seq_num, header_off as int);
            lemma_le_u32_untouched(f1, so, seq_num, nvdm_off as int);
            match l.elem_count_off_spec() {
                Some(o) => {
                    assert(l.fields()[2] == o);
                    lemma_fields_disjoint(l, 2, n - 2);
                    lemma_fields_disjoint(l, 2, n - 1);
                    lemma_le_u32_untouched(f2, o as int, elements, header_off as int);
                    lemma_le_u32_untouched(f2, o as int, elements, nvdm_off as int);
                },
                None => {},
            }
        },
        TransportHdr::NoTransport => {},
    }
}

/// A word below the envelope in the stored run reads as it did in the fixed fields: the
/// envelope, the payload and the checksum (at `co`, sharing no byte with it) leave it be.
proof fn lemma_header_word_survives(
    f3: Seq<u8>,
    hdr: int,
    words: Seq<u32>,
    payload: Seq<u8>,
    co: int,
    sum: u32,
    w: int,
)
    requires
        0 <= w,
        0 <= co,
        w + 4 <= hdr,
        co + 4 <= hdr,
        w + 4 <= co || co + 4 <= w,
        words.len() == 8,
        hdr + 32 + payload.len() <= f3.len(),
    ensures
        le_u32(put_u32(splice(put_words(f3, hdr, words), hdr + 32, payload), co, sum), w)
            == le_u32(f3, w),
{
    lemma_put_words_below(f3, hdr, words, w);
    let f4 = put_words(f3, hdr, words);
    lemma_splice_below(f4, hdr + 32, payload, w);
    lemma_splice_below(f4, hdr + 32, payload, co);
    let frame = splice(f4, hdr + 32, payload);
    lemma_le_u32_untouched(frame, co, sum, w);
}

/// The shape of an encoded run: the unsummed frame with its fold stored at `checkSum`,
/// `total` bytes long, covering the message.
proof fn lemma_encoded_shape(
    layout: ElementLayout,
    header_version: u32,
    signature: u32,
    element_size: u32,
    element_size_max: u32,
    seq_num: u32,
    rpc: RpcMessage,
)
    requires
        layout.describes_element(),
        spec_encode_message(
            layout,
            header_version,
            signature,
            element_size,
            element_size_max,
            seq_num,
            rpc,
        ) is Ok,
    ensures
        ({
            let rpc_length = (RPC_ENVELOPE_SIZE + rpc.payload.len()) as u32;
            let msg_len = (layout.hdr_size_spec() + rpc_length) as u32;
            let elements = spec_bytes_to_elements(msg_len, element_size);
            let total = (elements * element_size) as nat;
            let frame = unsummed_frame(
                layout,
                header_version,
                signature,
                seq_num,
                rpc,
                rpc_length,
                elements,
                total,
            );
            &&& RPC_ENVELOPE_SIZE + rpc.payload.len() <= u32::MAX
            &&& msg_len == encoded_msg_len(layout, rpc)
            &&& element_size > 0
            &&& msg_len <= total
            &&& spec_encode_message(
                layout,
                header_version,
                signature,
                element_size,
                element_size_max,
                seq_num,
                rpc,
            )->Ok_0 == put_u32(
                frame,
                layout.checksum_off_spec() as int,
                spec_checksum32(frame, msg_len as nat),
            )
        }),
{
    let rpc_length = (RPC_ENVELOPE_SIZE + rpc.payload.len()) as u32;
    let msg_len = (layout.hdr_size_spec() + rpc_length) as u32;
    assert(element_size > 0);
    lemma_elements_cover(msg_len, element_size);
}

/// What a frame with any value stored at `checkSum` reads back: the sequence number and
/// transport words as stamped, the element count where the layout has the field, every
/// envelope word, and the payload.
#[verifier::spinoff_prover]
#[verifier::rlimit(40)]
proof fn lemma_frame_reads(
    layout: ElementLayout,
    header_version: u32,
    signature: u32,
    seq_num: u32,
    rpc: RpcMessage,
    rpc_length: u32,
    elements: u32,
    total: nat,
    sum: u32,
)
    requires
        layout.describes_element(),
        rpc_length == RPC_ENVELOPE_SIZE + rpc.payload.len(),
        layout.hdr_size_spec() + rpc_length <= total,
    ensures
        ({
            let hdr = layout.hdr_size_spec() as int;
            let run = put_u32(
                unsummed_frame(
                    layout,
                    header_version,
                    signature,
                    seq_num,
                    rpc,
                    rpc_length,
                    elements,
                    total,
                ),
                layout.checksum_off_spec() as int,
                sum,
            );
            &&& run.len() == total
            &&& le_u32(run, layout.seqnum_off_spec() as int) == seq_num
            &&& layout.transport_spec() matches TransportHdr::Mctp {
                header_off,
                header_word,
                nvdm_off,
                nvdm_word,
            } ==> le_u32(run, header_off as int) == header_word && le_u32(run, nvdm_off as int)
                == nvdm_word
            &&& layout.elem_count_off_spec() matches Some(o) ==> le_u32(run, o as int) == elements
            &&& forall|i: int|
                0 <= i < 8 ==> le_u32(run, hdr + 4 * i) == #[trigger] envelope_words(
                    header_version,
                    signature,
                    rpc_length,
                    rpc,
                )[i]
            &&& run.subrange(hdr + RPC_ENVELOPE_SIZE, hdr + rpc_length) == rpc.payload
        }),
{
    let hdr = layout.hdr_size_spec() as int;
    let plen = rpc.payload.len();
    let co = layout.checksum_off_spec() as int;
    let so = layout.seqnum_off_spec() as int;
    lemma_fields_fit(layout, 0);
    lemma_fields_fit(layout, 1);
    assert(layout.fields()[0] == co);
    assert(layout.fields()[1] == so);
    lemma_fields_disjoint(layout, 0, 1);
    let zeros = Seq::new(total, |i: int| 0u8);
    let f3 = fixed_fields(layout, zeros, seq_num, elements);
    assert forall|k: int| 1 <= k < layout.fields().len() implies !crate::element::fields_overlap(
        hdr as usize,
        #[trigger] layout.fields()[k],
    ) by {
        lemma_fields_fit(layout, k);
    }
    crate::element::lemma_fixed_fields_keep(layout, zeros, seq_num, elements, hdr);
    lemma_fixed_fields_read(layout, zeros, seq_num, elements);
    let ew = envelope_words(header_version, signature, rpc_length, rpc);
    let f4 = put_words(f3, hdr, ew);
    lemma_put_words_below(f3, hdr, ew, so);
    let frame = splice(f4, hdr + 32, rpc.payload);
    lemma_splice_below(f4, hdr + 32, rpc.payload, so);
    let run = put_u32(frame, co, sum);
    // the sequence number
    lemma_header_word_survives(f3, hdr, ew, rpc.payload, co, sum, so);
    // the transport words
    match layout.transport_spec() {
        TransportHdr::Mctp { header_off, header_word, nvdm_off, nvdm_word } => {
            let n = layout.fields().len();
            lemma_fields_fit(layout, n - 2);
            lemma_fields_fit(layout, n - 1);
            assert(layout.fields()[n - 2] == header_off);
            assert(layout.fields()[n - 1] == nvdm_off);
            lemma_fields_disjoint(layout, 0, n - 2);
            lemma_fields_disjoint(layout, 0, n - 1);
            lemma_header_word_survives(f3, hdr, ew, rpc.payload, co, sum, header_off as int);
            lemma_header_word_survives(f3, hdr, ew, rpc.payload, co, sum, nvdm_off as int);
        },
        TransportHdr::NoTransport => {},
    }
    match layout.elem_count_off_spec() {
        Some(o) => {
            lemma_fields_fit(layout, 2);
            assert(layout.fields()[2] == o);
            lemma_fields_disjoint(layout, 0, 2);
            lemma_header_word_survives(f3, hdr, ew, rpc.payload, co, sum, o as int);
        },
        None => {},
    }
    // the envelope words
    assert forall|i: int| 0 <= i < 8 implies le_u32(run, hdr + 4 * i) == #[trigger] ew[i] by {
        lemma_put_words_at(f3, hdr, ew, i);
        lemma_splice_below(f4, hdr + 32, rpc.payload, hdr + 4 * i);
        lemma_le_u32_untouched(frame, co, sum, hdr + 4 * i);
    }
    // the payload
    assert forall|k: int| 0 <= k < plen implies #[trigger] run.subrange(
        hdr + RPC_ENVELOPE_SIZE,
        hdr + rpc_length,
    )[k] == rpc.payload[k] by {
        lemma_put_u32_elsewhere(frame, co, sum, hdr + 32 + k);
    }
    assert(run.subrange(hdr + RPC_ENVELOPE_SIZE, hdr + rpc_length) =~= rpc.payload);
}

/// Decoding what was encoded gives it back.
///
/// The run [`encode_message`](crate::element::encode_message) emits carries, in its first
/// element, the declared length the receive path's [`peek_len`](crate::element::peek_len)
/// reads; against that length and the sequence number it was stamped with,
/// [`decode_message`](crate::element::decode_message) refuses nothing; and the envelope
/// words, the payload, and the element count (where the layout has the field) read back
/// as they were written — wherever `checkSum` is 4-aligned.
pub proof fn law_decode_inverts_encode(
    layout: ElementLayout,
    header_version: u32,
    signature: u32,
    element_size: u32,
    element_size_max: u32,
    seq_num: u32,
    rpc: RpcMessage,
)
    requires
        layout.describes_element(),
        layout.checksum_off_spec() % 4 == 0,
        spec_encode_message(
            layout,
            header_version,
            signature,
            element_size,
            element_size_max,
            seq_num,
            rpc,
        ) is Ok,
    ensures
        ({
            let run = spec_encode_message(
                layout,
                header_version,
                signature,
                element_size,
                element_size_max,
                seq_num,
                rpc,
            )->Ok_0;
            let hdr = layout.hdr_size_spec() as int;
            let rpc_length = (RPC_ENVELOPE_SIZE + rpc.payload.len()) as u32;
            let msg_len = encoded_msg_len(layout, rpc);
            &&& le_u32(run, hdr + 8) == rpc_length
            &&& decode_refusal(layout, run, msg_len as u32, seq_num) is None
            &&& forall|i: int|
                0 <= i < 8 ==> le_u32(run, hdr + 4 * i) == #[trigger] envelope_words(
                    header_version,
                    signature,
                    rpc_length,
                    rpc,
                )[i]
            &&& run.subrange(hdr + RPC_ENVELOPE_SIZE, msg_len as int) == rpc.payload
            &&& layout.elem_count_off_spec() matches Some(o) ==> le_u32(run, o as int)
                == spec_bytes_to_elements(msg_len as u32, element_size)
        }),
{
    let rpc_length = (RPC_ENVELOPE_SIZE + rpc.payload.len()) as u32;
    let msg_len = (layout.hdr_size_spec() + rpc_length) as u32;
    let elements = spec_bytes_to_elements(msg_len, element_size);
    let total = (elements * element_size) as nat;
    let frame = unsummed_frame(
        layout,
        header_version,
        signature,
        seq_num,
        rpc,
        rpc_length,
        elements,
        total,
    );
    let sum = spec_checksum32(frame, msg_len as nat);
    lemma_encoded_shape(
        layout,
        header_version,
        signature,
        element_size,
        element_size_max,
        seq_num,
        rpc,
    );
    law_encoded_element_folds_to_zero(
        layout,
        header_version,
        signature,
        element_size,
        element_size_max,
        seq_num,
        rpc,
    );
    lemma_frame_reads(
        layout,
        header_version,
        signature,
        seq_num,
        rpc,
        rpc_length,
        elements,
        total,
        sum,
    );
    let ew = envelope_words(header_version, signature, rpc_length, rpc);
    assert(ew[2] == rpc_length);
    assert(le_u32(put_u32(frame, layout.checksum_off_spec() as int, sum), layout.hdr_size_spec() + 4 * 2) == ew[2]);
}

/// A stored frame, whatever its checksum, decodes in the projection to the message it
/// frames.
#[verifier::spinoff_prover]
proof fn lemma_frame_observed(
    layout: ElementLayout,
    header_version: u32,
    signature: u32,
    seq_num: u32,
    rpc: RpcMessage,
    rpc_length: u32,
    elements: u32,
    total: nat,
    sum: u32,
    slot: u32,
)
    requires
        layout.describes_element(),
        rpc_length == RPC_ENVELOPE_SIZE + rpc.payload.len(),
        layout.hdr_size_spec() + rpc_length <= total,
    ensures
        spec_decode_posted(
            layout,
            slot,
            put_u32(
                unsummed_frame(
                    layout,
                    header_version,
                    signature,
                    seq_num,
                    rpc,
                    rpc_length,
                    elements,
                    total,
                ),
                layout.checksum_off_spec() as int,
                sum,
            ),
        ) == Some(
            Observation::ElementPosted {
                slot,
                seq_num,
                function: rpc.function,
                sequence: rpc.sequence,
                rpc_result: rpc.rpc_result,
                rpc_length,
                payload_digest: spec_digest(rpc.payload),
            },
        ),
{
    let hdr = layout.hdr_size_spec() as int;
    lemma_frame_reads(
        layout,
        header_version,
        signature,
        seq_num,
        rpc,
        rpc_length,
        elements,
        total,
        sum,
    );
    let frame = unsummed_frame(
        layout,
        header_version,
        signature,
        seq_num,
        rpc,
        rpc_length,
        elements,
        total,
    );
    let run = put_u32(frame, layout.checksum_off_spec() as int, sum);
    let ew = envelope_words(header_version, signature, rpc_length, rpc);
    lemma_fields_fit(layout, 1);
    assert(layout.fields()[1] == layout.seqnum_off_spec());
    assert(le_u32(run, hdr + 4 * 2) == ew[2]);
    assert(le_u32(run, hdr + 4 * 3) == ew[3]);
    assert(le_u32(run, hdr + 4 * 4) == ew[4]);
    assert(le_u32(run, hdr + 4 * 6) == ew[6]);
    assert(word_at(run, layout.seqnum_off_spec() as int) == Some(seq_num));
    assert(word_at(run, hdr + 8) == Some(rpc_length));
    assert(word_at(run, hdr + 12) == Some(rpc.function));
    assert(word_at(run, hdr + 16) == Some(rpc.rpc_result));
    assert(word_at(run, hdr + 24) == Some(rpc.sequence));
    assert(run.subrange(hdr + RPC_ENVELOPE_SIZE, hdr + rpc_length) == rpc.payload);
}

/// The replay projection observes a posted element as the message that was posted: its
/// sequence number, the envelope's function, sequence, result and declared length, and a
/// digest of exactly the payload.
pub proof fn law_posted_element_is_observed_as_sent(
    layout: ElementLayout,
    header_version: u32,
    signature: u32,
    element_size: u32,
    element_size_max: u32,
    seq_num: u32,
    rpc: RpcMessage,
    slot: u32,
)
    requires
        layout.describes_element(),
        spec_encode_message(
            layout,
            header_version,
            signature,
            element_size,
            element_size_max,
            seq_num,
            rpc,
        ) is Ok,
    ensures
        spec_decode_posted(
            layout,
            slot,
            spec_encode_message(
                layout,
                header_version,
                signature,
                element_size,
                element_size_max,
                seq_num,
                rpc,
            )->Ok_0,
        ) == Some(
            Observation::ElementPosted {
                slot,
                seq_num,
                function: rpc.function,
                sequence: rpc.sequence,
                rpc_result: rpc.rpc_result,
                rpc_length: (RPC_ENVELOPE_SIZE + rpc.payload.len()) as u32,
                payload_digest: spec_digest(rpc.payload),
            },
        ),
{
    let rpc_length = (RPC_ENVELOPE_SIZE + rpc.payload.len()) as u32;
    let msg_len = (layout.hdr_size_spec() + rpc_length) as u32;
    let elements = spec_bytes_to_elements(msg_len, element_size);
    let total = (elements * element_size) as nat;
    let frame = unsummed_frame(
        layout,
        header_version,
        signature,
        seq_num,
        rpc,
        rpc_length,
        elements,
        total,
    );
    lemma_encoded_shape(
        layout,
        header_version,
        signature,
        element_size,
        element_size_max,
        seq_num,
        rpc,
    );
    lemma_frame_observed(
        layout,
        header_version,
        signature,
        seq_num,
        rpc,
        rpc_length,
        elements,
        total,
        spec_checksum32(frame, msg_len as nat),
        slot,
    );
}

/// An encoded run is a whole number of elements: `elements * element_size` bytes, where
/// `elements` is the count its coverage derives.
pub proof fn lemma_encoded_len(
    layout: ElementLayout,
    header_version: u32,
    signature: u32,
    element_size: u32,
    element_size_max: u32,
    seq_num: u32,
    rpc: RpcMessage,
)
    requires
        layout.describes_element(),
        spec_encode_message(
            layout,
            header_version,
            signature,
            element_size,
            element_size_max,
            seq_num,
            rpc,
        ) is Ok,
    ensures
        element_size > 0,
        spec_encode_message(
            layout,
            header_version,
            signature,
            element_size,
            element_size_max,
            seq_num,
            rpc,
        )->Ok_0.len() == spec_bytes_to_elements(encoded_msg_len(layout, rpc) as u32, element_size)
            * element_size,
{
    let rpc_length = (RPC_ENVELOPE_SIZE + rpc.payload.len()) as u32;
    let msg_len = (layout.hdr_size_spec() + rpc_length) as u32;
    let elements = spec_bytes_to_elements(msg_len, element_size);
    let total = (elements * element_size) as nat;
    let frame = unsummed_frame(
        layout,
        header_version,
        signature,
        seq_num,
        rpc,
        rpc_length,
        elements,
        total,
    );
    lemma_encoded_shape(
        layout,
        header_version,
        signature,
        element_size,
        element_size_max,
        seq_num,
        rpc,
    );
    lemma_frame_reads(
        layout,
        header_version,
        signature,
        seq_num,
        rpc,
        rpc_length,
        elements,
        total,
        spec_checksum32(frame, msg_len as nat),
    );
}

} // verus!
