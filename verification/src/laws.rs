//! The laws the pipeline obeys, stated over the same spec functions the
//! stages' contracts use: metadata uniformity and final-chunk placement of
//! a demultiplexed stream, rejection of a bad magic tag and of an
//! unsupported sample type, and exact round-trip preservation of header
//! metadata and payload bytes. The backpressure law lives with the channel.

use vstd::prelude::*;
use crate::chunk::{
    AudioV, BinaryV, Endian, spec_code_of_sample_type, spec_sample_type_of_code,
};
use crate::demux::{
    FIXED_HEADER_LEN, SIZE_UNKNOWN, audio_chunks_of, chunk_known, chunk_unknown, spec_demux,
    spec_magic,
};
use crate::error::AuError;
use crate::mux::{mux_body, spec_be_bytes, spec_header_bytes, spec_mux};
use crate::stream::spec_be_u32_at;

verus! {

/// The bytes of each payload chunk, in order.
pub open spec fn pair_datas(prs: Seq<(Seq<u8>, bool)>) -> Seq<Seq<u8>> {
    prs.map_values(|pr: (Seq<u8>, bool)| pr.0)
}

/// The bytes of each binary chunk, in order.
pub open spec fn datas_of(bins: Seq<BinaryV>) -> Seq<Seq<u8>> {
    bins.map_values(|b: BinaryV| b.data)
}

/// The sample bytes the source container carries: everything from the
/// data offset on when the size field is the "unspecified" sentinel, and
/// exactly the declared number of bytes otherwise.
pub open spec fn spec_payload_bytes(input: Seq<u8>) -> Seq<u8> {
    let off = spec_be_u32_at(input, 4);
    let size = spec_be_u32_at(input, 8);
    if size == SIZE_UNKNOWN {
        input.skip(off as int)
    } else {
        input.skip(off as int).take(size as int)
    }
}

/// Chunking a payload of declared size consumes exactly that many bytes:
/// on success there is at least one chunk, exactly the last one is final,
/// and the chunks' bytes concatenate back to the first `rem` payload
/// bytes; on failure no chunk is final.
proof fn lemma_chunk_known_props(p: Seq<u8>, rem: nat, cs: nat)
    requires
        1 <= cs,
    ensures
        ({
            let (prs, e) = chunk_known(p, rem, cs);
            &&& e is None ==> {
                &&& prs.len() >= 1
                &&& rem <= p.len()
                &&& (forall|i: int|
                    0 <= i < prs.len() ==> ((#[trigger] prs[i].1) <==> i == prs.len() - 1))
                &&& pair_datas(prs).flatten() == p.take(rem as int)
            }
            &&& e is Some ==> (forall|i: int| 0 <= i < prs.len() ==> !(#[trigger] prs[i].1))
        }),
    decreases rem,
{
    let want = vstd::math::min(cs as int, rem as int);
    let (prs, e) = chunk_known(p, rem, cs);
    if p.len() < want {
    } else if rem - want == 0 {
        assert(prs == seq![(p.take(want), true)]);
        assert(pair_datas(prs) =~= seq![p.take(want)]);
        pair_datas(prs).lemma_flatten_one_element();
        assert(pair_datas(prs).flatten() == p.take(rem as int));
    } else {
        assert(want == cs);
        let rest = chunk_known(p.skip(want), (rem - want) as nat, cs);
        lemma_chunk_known_props(p.skip(want), (rem - want) as nat, cs);
        assert(prs == seq![(p.take(want), false)] + rest.0);
        assert(prs[0] == (p.take(want), false));
        assert(forall|i: int| 1 <= i < prs.len() ==> prs[i] == rest.0[i - 1]);
        if rest.1 is None {
            assert(rem <= p.len());
            let d = pair_datas(prs);
            assert(d.len() == 1 + rest.0.len());
            assert(d.first() == p.take(want));
            assert(d.drop_first() =~= pair_datas(rest.0));
            assert(d.flatten() == d.first() + d.drop_first().flatten());
            assert(pair_datas(rest.0).flatten() == p.skip(want).take(rem - want));
            assert(p.take(want) + p.skip(want).take(rem - want) =~= p.take(rem as int));
            assert(d.flatten() == p.take(rem as int));
        }
    }
}

/// Chunking a payload of unspecified size consumes all of it: at least
/// one chunk comes out, exactly the last one is final, and the chunks'
/// bytes concatenate back to the whole payload.
proof fn lemma_chunk_unknown_props(p: Seq<u8>, cs: nat)
    requires
        1 <= cs,
    ensures
        ({
            let prs = chunk_unknown(p, cs);
            &&& prs.len() >= 1
            &&& (forall|i: int|
                0 <= i < prs.len() ==> ((#[trigger] prs[i].1) <==> i == prs.len() - 1))
            &&& pair_datas(prs).flatten() == p
        }),
    decreases p.len(),
{
    let prs = chunk_unknown(p, cs);
    if p.len() < cs {
        assert(prs == seq![(p, true)]);
        assert(pair_datas(prs) =~= seq![p]);
        pair_datas(prs).lemma_flatten_one_element();
    } else {
        let rest = chunk_unknown(p.skip(cs as int), cs);
        lemma_chunk_unknown_props(p.skip(cs as int), cs);
        assert(prs == seq![(p.take(cs as int), false)] + rest);
        assert(prs[0] == (p.take(cs as int), false));
        assert(forall|i: int| 1 <= i < prs.len() ==> prs[i] == rest[i - 1]);
        let d = pair_datas(prs);
        assert(d.first() == p.take(cs as int));
        assert(d.drop_first() =~= pair_datas(rest));
        assert(d.flatten() == d.first() + d.drop_first().flatten());
        assert(p.take(cs as int) + p.skip(cs as int) =~= p);
        assert(d.flatten() == p);
    }
}

/// Chunking invariant: every audio chunk of one demultiplexed stream
/// carries the same sample type, sample rate, channel count and byte
/// order; when the run succeeds there is at least one chunk and exactly
/// the last one is final, and when it fails no chunk is final.
pub proof fn lemma_chunking_invariant(input: Seq<u8>)
    ensures
        ({
            let (chunks, e) = spec_demux(input);
            &&& (forall|i: int, j: int|
                0 <= i < chunks.len() && 0 <= j < chunks.len() ==> {
                    &&& (#[trigger] chunks[i]).sample_type == (#[trigger] chunks[j]).sample_type
                    &&& chunks[i].sample_rate == chunks[j].sample_rate
                    &&& chunks[i].channels == chunks[j].channels
                    &&& chunks[i].endian == Endian::Big
                })
            &&& e is None ==> chunks.len() >= 1 && (forall|i: int|
                0 <= i < chunks.len() ==> ((#[trigger] chunks[i]).is_final <==> i == chunks.len()
                    - 1))
            &&& e is Some ==> (forall|i: int|
                0 <= i < chunks.len() ==> !(#[trigger] chunks[i]).is_final)
        }),
{
    let (chunks, e) = spec_demux(input);
    if input.len() < 4 || input.take(4) != spec_magic() || input.len() < FIXED_HEADER_LEN {
    } else {
        let data_offset = spec_be_u32_at(input, 4);
        let data_size = spec_be_u32_at(input, 8);
        let code = spec_be_u32_at(input, 12);
        if data_offset < FIXED_HEADER_LEN || input.len() < data_offset {
        } else {
            let st = spec_sample_type_of_code(code);
            let ch = spec_be_u32_at(input, 20);
            let cs = crate::chunk::spec_chunk_size(st, ch) as nat;
            let payload = input.skip(data_offset as int);
            assert(1 <= cs);
            if data_size == SIZE_UNKNOWN {
                lemma_chunk_unknown_props(payload, cs);
                let prs = chunk_unknown(payload, cs);
                assert(forall|i: int|
                    0 <= i < prs.len() ==> (#[trigger] chunks[i]).is_final == prs[i].1);
            } else {
                lemma_chunk_known_props(payload, data_size as nat, cs);
                let prs = chunk_known(payload, data_size as nat, cs).0;
                assert(forall|i: int|
                    0 <= i < prs.len() ==> (#[trigger] chunks[i]).is_final == prs[i].1);
            }
        }
    }
}

/// Header rejection: an input whose first four bytes are not the magic
/// tag makes the demuxer stop with `BadMagic`, carrying those bytes, and
/// send no audio chunk at all.
pub proof fn lemma_header_rejection(input: Seq<u8>)
    requires
        input.len() >= 4,
        input.take(4) != spec_magic(),
    ensures
        spec_demux(input) == (
            Seq::<AudioV>::empty(),
            Some(AuError::BadMagic(input[0], input[1], input[2], input[3])),
        ),
{
}

/// Unsupported format: a stream whose first chunk's sample type is not in
/// the destination's table makes the muxer stop with
/// `UnsupportedSampleType` before emitting any binary chunk.
pub proof fn lemma_unsupported_rejection(chunks: Seq<AudioV>)
    requires
        chunks.len() >= 1,
        spec_code_of_sample_type(chunks[0].sample_type) is None,
    ensures
        spec_mux(chunks) == (
            Seq::<BinaryV>::empty(),
            Some(AuError::UnsupportedSampleType(chunks[0].sample_type)),
        ),
{
}

/// A stream whose unique final chunk is its last one is forwarded whole:
/// one binary chunk per audio chunk, bytes unchanged, flags carried over,
/// and no error.
proof fn lemma_mux_body_complete(chunks: Seq<AudioV>)
    requires
        chunks.len() >= 1,
        forall|i: int| 0 <= i < chunks.len() ==> ((#[trigger] chunks[i]).is_final <==> i
            == chunks.len() - 1),
    ensures
        ({
            let (bins, e) = mux_body(chunks);
            &&& e is None
            &&& bins.len() == chunks.len()
            &&& (forall|i: int|
                0 <= i < chunks.len() ==> #[trigger] bins[i] == BinaryV {
                    data: chunks[i].data,
                    is_final: chunks[i].is_final,
                })
        }),
    decreases chunks.len(),
{
    let (bins, e) = mux_body(chunks);
    let b = BinaryV { data: chunks[0].data, is_final: chunks[0].is_final };
    if chunks[0].is_final {
        assert(chunks.len() == 1);
        assert(bins == seq![b]);
    } else {
        let tail = chunks.drop_first();
        assert(forall|i: int| 0 <= i < tail.len() ==> tail[i] == chunks[i + 1]);
        lemma_mux_body_complete(tail);
        let rest = mux_body(tail);
        assert(bins == seq![b] + rest.0);
        assert(forall|i: int| 1 <= i < bins.len() ==> bins[i] == rest.0[i - 1]);
    }
}

/// The four big-endian bytes of a value decode back to it.
proof fn lemma_be_roundtrip(x: u32)
    ensures
        spec_be_u32_at(spec_be_bytes(x), 0) == x,
{
    assert(x == (x / 0x100_0000) * 0x100_0000 + ((x / 0x1_0000) % 0x100) * 0x1_0000 + ((x / 0x100)
        % 0x100) * 0x100 + (x % 0x100)) by (bit_vector);
    assert(x / 0x100_0000 < 0x100) by (bit_vector);
}

/// Round-trip preservation: demultiplexing a well-formed source container
/// with a supported format code and multiplexing the resulting chunks
/// succeeds, reproduces the magic tag, the format code, the sample rate
/// and the channel count in the destination header, and carries the
/// payload bytes through unchanged: the payload chunks after the header
/// concatenate to exactly the source's payload bytes.
pub proof fn lemma_round_trip(input: Seq<u8>)
    requires
        spec_demux(input).1 is None,
        spec_code_of_sample_type(spec_sample_type_of_code(spec_be_u32_at(input, 12))) is Some,
    ensures
        ({
            let code = spec_be_u32_at(input, 12);
            let rate = spec_be_u32_at(input, 16);
            let channels = spec_be_u32_at(input, 20);
            let chunks = spec_demux(input).0;
            let bins = spec_mux(chunks).0;
            &&& spec_mux(chunks).1 is None
            &&& bins.len() == chunks.len() + 1
            &&& bins[0] == BinaryV {
                data: spec_header_bytes(code, rate, channels),
                is_final: false,
            }
            &&& bins[0].data.take(4) == spec_magic()
            &&& spec_be_u32_at(bins[0].data, 12) == code
            &&& spec_be_u32_at(bins[0].data, 16) == rate
            &&& spec_be_u32_at(bins[0].data, 20) == channels
            &&& spec_sample_type_of_code(spec_be_u32_at(bins[0].data, 12)) == chunks[0].sample_type
            &&& datas_of(bins.drop_first()).flatten() == spec_payload_bytes(input)
        }),
{
    let data_offset = spec_be_u32_at(input, 4);
    let data_size = spec_be_u32_at(input, 8);
    let code = spec_be_u32_at(input, 12);
    let rate = spec_be_u32_at(input, 16);
    let channels = spec_be_u32_at(input, 20);
    let chunks = spec_demux(input).0;
    let st = spec_sample_type_of_code(code);
    let cs = crate::chunk::spec_chunk_size(st, channels) as nat;
    let payload = input.skip(data_offset as int);
    assert(1 <= cs);

    // The demux run succeeded, so the header parsed and the payload was
    // chunked; recover the chunk pairs and their laws.
    let prs = if data_size == SIZE_UNKNOWN {
        chunk_unknown(payload, cs)
    } else {
        chunk_known(payload, data_size as nat, cs).0
    };
    if data_size == SIZE_UNKNOWN {
        lemma_chunk_unknown_props(payload, cs);
    } else {
        lemma_chunk_known_props(payload, data_size as nat, cs);
    }
    assert(chunks == audio_chunks_of(prs, st, rate, channels));
    assert(chunks.len() == prs.len());
    assert(forall|i: int| 0 <= i < chunks.len() ==> (#[trigger] chunks[i]) == AudioV {
        data: prs[i].0,
        sample_type: st,
        sample_rate: rate,
        channels,
        endian: Endian::Big,
        is_final: prs[i].1,
    });
    assert(chunks.len() >= 1);
    assert(forall|i: int| 0 <= i < chunks.len() ==> ((#[trigger] chunks[i]).is_final <==> i
        == chunks.len() - 1));

    // The supported format code survives the table and its inverse.
    assert(spec_code_of_sample_type(st) == Some(code));
    assert(chunks[0].sample_type == st);

    // The mux run: header, then every chunk forwarded whole.
    lemma_mux_body_complete(chunks);
    let bins = spec_mux(chunks).0;
    let hdr = BinaryV { data: spec_header_bytes(code, rate, channels), is_final: false };
    assert(bins == seq![hdr] + mux_body(chunks).0);
    assert(bins[0] == hdr);
    assert(forall|i: int| 1 <= i < bins.len() ==> #[trigger] bins[i] == BinaryV {
        data: chunks[i - 1].data,
        is_final: chunks[i - 1].is_final,
    });

    // Decoding the header gives back the fields it was built from.
    let h = hdr.data;
    assert(spec_magic().len() == 4);
    assert(spec_be_bytes(FIXED_HEADER_LEN).len() == 4);
    assert(spec_be_bytes(SIZE_UNKNOWN).len() == 4);
    assert(spec_be_bytes(code).len() == 4);
    assert(spec_be_bytes(rate).len() == 4);
    assert(spec_be_bytes(channels).len() == 4);
    assert(h.take(4) =~= spec_magic());
    lemma_be_roundtrip(code);
    lemma_be_roundtrip(rate);
    lemma_be_roundtrip(channels);
    assert(h[12] == spec_be_bytes(code)[0]);
    assert(h[13] == spec_be_bytes(code)[1]);
    assert(h[14] == spec_be_bytes(code)[2]);
    assert(h[15] == spec_be_bytes(code)[3]);
    assert(spec_be_u32_at(h, 12) == code);
    assert(h[16] == spec_be_bytes(rate)[0]);
    assert(h[17] == spec_be_bytes(rate)[1]);
    assert(h[18] == spec_be_bytes(rate)[2]);
    assert(h[19] == spec_be_bytes(rate)[3]);
    assert(spec_be_u32_at(h, 16) == rate);
    assert(h[20] == spec_be_bytes(channels)[0]);
    assert(h[21] == spec_be_bytes(channels)[1]);
    assert(h[22] == spec_be_bytes(channels)[2]);
    assert(h[23] == spec_be_bytes(channels)[3]);
    assert(spec_be_u32_at(h, 20) == channels);

    // The payload chunks after the header concatenate to the source's
    // payload bytes.
    assert(datas_of(bins.drop_first()) =~= pair_datas(prs));
    if data_size == SIZE_UNKNOWN {
        assert(pair_datas(prs).flatten() == payload);
        assert(spec_payload_bytes(input) == payload);
    } else {
        assert(pair_datas(prs).flatten() == payload.take(data_size as int));
        assert(spec_payload_bytes(input) == payload.take(data_size as int));
    }
}

} // verus!
