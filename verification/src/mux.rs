//! The multiplexer: wraps one audio-chunk stream in the destination
//! container, emitting its fixed header first and then every chunk's
//! sample bytes verbatim.

use vstd::prelude::*;
use crate::channel::Channel;
use crate::chunk::{
    Audio, AudioV, Binary, BinaryV, audio_views, binary_views, code_of_sample_type,
    lemma_audio_views_first, lemma_binary_views_empty, lemma_binary_views_push,
    spec_code_of_sample_type,
};
use crate::demux::{FIXED_HEADER_LEN, SIZE_UNKNOWN, spec_magic};
use crate::error::AuError;

verus! {

/// A 32-bit value as four big-endian bytes.
pub open spec fn spec_be_bytes(x: u32) -> Seq<u8> {
    seq![
        (x / 0x100_0000) as u8,
        ((x / 0x1_0000) % 0x100) as u8,
        ((x / 0x100) % 0x100) as u8,
        (x % 0x100) as u8,
    ]
}

/// The destination container's header: magic tag, constant header length,
/// unspecified data size, format code, sample rate, channel count, all
/// big-endian.
pub open spec fn spec_header_bytes(code: u32, rate: u32, channels: u32) -> Seq<u8> {
    spec_magic() + spec_be_bytes(FIXED_HEADER_LEN) + spec_be_bytes(SIZE_UNKNOWN) + spec_be_bytes(
        code,
    ) + spec_be_bytes(rate) + spec_be_bytes(channels)
}

/// The payload half of multiplexing: one binary chunk per audio chunk,
/// bytes unchanged and the end-of-stream flag carried over, stopping
/// right after the final chunk. A stream that ends without a final chunk
/// ends in an error.
pub open spec fn mux_body(chunks: Seq<AudioV>) -> (Seq<BinaryV>, Option<AuError>)
    decreases chunks.len(),
{
    if chunks.len() == 0 {
        (Seq::<BinaryV>::empty(), Some(AuError::UnexpectedEndOfStream))
    } else {
        let b = BinaryV { data: chunks[0].data, is_final: chunks[0].is_final };
        if chunks[0].is_final {
            (seq![b], None::<AuError>)
        } else {
            let rest = mux_body(chunks.drop_first());
            (seq![b] + rest.0, rest.1)
        }
    }
}

/// What multiplexing an audio-chunk stream yields: the binary chunks sent
/// downstream, in order, and the error the stage stopped with, if any.
/// The header is built from the first chunk's metadata; a sample type
/// outside the destination's table is rejected before anything is sent.
pub open spec fn spec_mux(chunks: Seq<AudioV>) -> (Seq<BinaryV>, Option<AuError>) {
    if chunks.len() == 0 {
        (Seq::<BinaryV>::empty(), Some(AuError::UnexpectedEndOfStream))
    } else {
        match spec_code_of_sample_type(chunks[0].sample_type) {
            None => (
                Seq::<BinaryV>::empty(),
                Some(AuError::UnsupportedSampleType(chunks[0].sample_type)),
            ),
            Some(code) => {
                let hdr = BinaryV {
                    data: spec_header_bytes(code, chunks[0].sample_rate, chunks[0].channels),
                    is_final: false,
                };
                let rest = mux_body(chunks);
                (seq![hdr] + rest.0, rest.1)
            },
        }
    }
}

/// Append a 32-bit value as four big-endian bytes.
fn push_be_u32(v: &mut Vec<u8>, x: u32)
    ensures
        final(v)@ == old(v)@ + spec_be_bytes(x),
{
    v.push((x / 0x100_0000) as u8);
    v.push(((x / 0x1_0000) % 0x100) as u8);
    v.push(((x / 0x100) % 0x100) as u8);
    v.push((x % 0x100) as u8);
    proof {
        assert(v@ =~= old(v)@ + spec_be_bytes(x));
    }
}

/// Build the destination header for the given format fields.
fn encode_header(code: u32, rate: u32, channels: u32) -> (h: Vec<u8>)
    ensures
        h@ == spec_header_bytes(code, rate, channels),
        h@.len() == FIXED_HEADER_LEN,
{
    let mut h: Vec<u8> = Vec::new();
    h.push(0x2e);
    h.push(0x73);
    h.push(0x6e);
    h.push(0x64);
    push_be_u32(&mut h, FIXED_HEADER_LEN);
    push_be_u32(&mut h, SIZE_UNKNOWN);
    push_be_u32(&mut h, code);
    push_be_u32(&mut h, rate);
    push_be_u32(&mut h, channels);
    proof {
        assert(h@ =~= spec_header_bytes(code, rate, channels));
    }
    h
}

/// Encodes one audio-chunk stream from a channel into destination-format
/// binary chunks.
pub struct Muxer {
    source: Channel<Audio>,
}

impl Muxer {
    pub closed spec fn wf(&self) -> bool {
        &&& self.source.wf()
        &&& self.source.is_closed()
    }

    /// The audio chunks the muxer has not yet consumed.
    pub closed spec fn input(&self) -> Seq<AudioV> {
        audio_views(self.source@)
    }

    /// The producer must already have closed the channel; its chunks, in
    /// order, are the input stream.
    pub fn new(source: Channel<Audio>) -> (m: Muxer)
        requires
            source.wf(),
            source.is_closed(),
        ensures
            m.wf(),
            m.input() == audio_views(source@),
    {
        Muxer { source }
    }

    /// One full multiplexing pass: the returned chunks are exactly the
    /// binary chunks sent downstream before the run ended, and the
    /// returned error, if any, is what the stage stopped with.
    pub fn run(&mut self) -> (r: (Vec<Binary>, Option<AuError>))
        requires
            old(self).wf(),
        ensures
            final(self).wf(),
            binary_views(r.0@) == spec_mux(old(self).input()).0,
            r.1 == spec_mux(old(self).input()).1,
    {
        let ghost input = audio_views(self.source@);
        let ghost spec_out = spec_mux(input);
        let ghost pre_q = self.source@;

        let first = match self.source.recv() {
            Some(a) => a,
            None => {
                proof {
                    lemma_binary_views_empty();
                }
                return (Vec::new(), Some(AuError::UnexpectedEndOfStream));
            },
        };
        let ghost firstv = first@;
        proof {
            lemma_audio_views_first(pre_q);
            assert(input[0] == firstv);
        }
        let code = match code_of_sample_type(first.sample_type) {
            Some(c) => c,
            None => {
                proof {
                    lemma_binary_views_empty();
                }
                return (Vec::new(), Some(AuError::UnsupportedSampleType(first.sample_type)));
            },
        };

        let mut out: Vec<Binary> = Vec::new();
        let hdr = encode_header(code, first.sample_rate, first.channels);
        let ghost hdrv = BinaryV {
            data: spec_header_bytes(code, firstv.sample_rate, firstv.channels),
            is_final: false,
        };
        out.push(Binary { data: hdr, is_final: false });
        proof {
            lemma_binary_views_empty();
            lemma_binary_views_push(Seq::<Binary>::empty(), out@.last());
            assert(out@ =~= Seq::<Binary>::empty().push(out@.last()));
            assert(binary_views(out@) =~= seq![hdrv]);
        }
        let first_final = first.is_final;
        let ghost out_pre = out@;
        out.push(Binary { data: first.data, is_final: first_final });
        let mut done = first_final;
        proof {
            lemma_binary_views_push(out_pre, out@.last());
            assert(out@.last()@ == BinaryV { data: firstv.data, is_final: firstv.is_final });
            assert(binary_views(out@) =~= seq![hdrv, out@.last()@]);
            let body = mux_body(input);
            assert(spec_out.0 == seq![hdrv] + body.0);
            assert(spec_out.1 == body.1);
            if first_final {
                assert(body == (seq![out@.last()@], None::<AuError>));
                assert(spec_out.0 =~= binary_views(out@));
            } else {
                let rest = mux_body(input.drop_first());
                assert(body.0 == seq![out@.last()@] + rest.0);
                assert(body.1 == rest.1);
                assert(input.drop_first() =~= audio_views(self.source@));
                assert(spec_out.0 =~= binary_views(out@) + rest.0);
            }
        }
        while !done
            invariant
                self.wf(),
                spec_out == spec_mux(old(self).input()),
                !done ==> {
                    &&& spec_out.0 == binary_views(out@) + mux_body(audio_views(self.source@)).0
                    &&& spec_out.1 == mux_body(audio_views(self.source@)).1
                },
                done ==> spec_out.0 == binary_views(out@) && spec_out.1 == None::<AuError>,
            decreases self.source@.len(),
        {
            let ghost q_pre = self.source@;
            let ghost out_pre = out@;
            match self.source.recv() {
                None => {
                    proof {
                        assert(q_pre.len() == 0);
                        assert(audio_views(q_pre) =~= Seq::<AudioV>::empty());
                        assert(mux_body(audio_views(q_pre)).0 =~= Seq::<BinaryV>::empty());
                        assert(spec_out.0 =~= binary_views(out@));
                    }
                    return (out, Some(AuError::UnexpectedEndOfStream));
                },
                Some(a) => {
                    let ghost av = a@;
                    let f = a.is_final;
                    out.push(Binary { data: a.data, is_final: f });
                    if f {
                        done = true;
                    }
                    proof {
                        lemma_audio_views_first(q_pre);
                        lemma_binary_views_push(out_pre, out@.last());
                        let cur = audio_views(q_pre);
                        assert(cur[0] == av);
                        assert(out@.last()@ == BinaryV { data: av.data, is_final: av.is_final });
                        assert(binary_views(out@) == binary_views(out_pre).push(out@.last()@));
                        let body = mux_body(cur);
                        if f {
                            assert(body == (seq![out@.last()@], None::<AuError>));
                            assert(spec_out.0 =~= binary_views(out@));
                        } else {
                            let rest = mux_body(cur.drop_first());
                            assert(body.0 == seq![out@.last()@] + rest.0);
                            assert(body.1 == rest.1);
                            assert(cur.drop_first() =~= audio_views(self.source@));
                            assert(spec_out.0 =~= binary_views(out@) + rest.0);
                        }
                    }
                },
            }
        }
        (out, None)
    }
}

} // verus!
