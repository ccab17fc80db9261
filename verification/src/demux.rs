//! The demultiplexer: parses the source container's header out of a byte
//! stream, then re-chunks the raw sample payload into audio chunks that
//! carry the stream's format metadata.

use vstd::prelude::*;
use crate::channel::Channel;
use crate::chunk::{
    Audio, AudioV, Binary, Endian, SampleType, audio_views, chunk_size, lemma_audio_views_empty,
    lemma_audio_views_push, sample_type_of_code, spec_chunk_size, spec_sample_size_bits,
    spec_sample_type_of_code,
};
use crate::error::AuError;
use crate::stream::{ByteStream, flatten_datas, spec_be_u32_at};

verus! {

/// The source container's four-byte magic tag, `.snd`.
pub open spec fn spec_magic() -> Seq<u8> {
    seq![0x2eu8, 0x73u8, 0x6eu8, 0x64u8]
}

/// The header's data-size field value that means "size unspecified:
/// read until the input is exhausted".
pub const SIZE_UNKNOWN: u32 = 0xFFFF_FFFF;

/// Length of the fixed header fields the demuxer reads.
pub const FIXED_HEADER_LEN: u32 = 24;

/// Split a payload of declared size `rem` into chunks of `cs` bytes (the
/// last one shorter), each paired with its end-of-stream flag. A payload
/// shorter than its declared size stops with an error after the chunks
/// that could still be filled.
pub open spec fn chunk_known(p: Seq<u8>, rem: nat, cs: nat) -> (Seq<(Seq<u8>, bool)>, Option<
    AuError,
>)
    decreases rem,
    when cs >= 1
{
    let want = vstd::math::min(cs as int, rem as int);
    if p.len() < want {
        (Seq::<(Seq<u8>, bool)>::empty(), Some(AuError::UnexpectedEndOfStream))
    } else if rem - want == 0 {
        (seq![(p.take(want), true)], None::<AuError>)
    } else {
        let rest = chunk_known(p.skip(want), (rem - want) as nat, cs);
        (seq![(p.take(want), false)] + rest.0, rest.1)
    }
}

/// Split a payload of unspecified size into chunks of `cs` bytes: the
/// first read that comes back short ends the stream cleanly.
pub open spec fn chunk_unknown(p: Seq<u8>, cs: nat) -> Seq<(Seq<u8>, bool)>
    decreases p.len(),
    when cs >= 1
{
    if p.len() < cs {
        seq![(p, true)]
    } else {
        seq![(p.take(cs as int), false)] + chunk_unknown(p.skip(cs as int), cs)
    }
}

/// Stamp every payload chunk with the stream's metadata.
pub open spec fn audio_chunks_of(
    pairs: Seq<(Seq<u8>, bool)>,
    st: SampleType,
    rate: u32,
    ch: u32,
) -> Seq<AudioV> {
    pairs.map_values(
        |pr: (Seq<u8>, bool)|
            AudioV {
                data: pr.0,
                sample_type: st,
                sample_rate: rate,
                channels: ch,
                endian: Endian::Big,
                is_final: pr.1,
            },
    )
}

proof fn lemma_audio_chunks_of_empty(st: SampleType, rate: u32, ch: u32)
    ensures
        audio_chunks_of(Seq::<(Seq<u8>, bool)>::empty(), st, rate, ch) == Seq::<AudioV>::empty(),
{
    assert(audio_chunks_of(Seq::<(Seq<u8>, bool)>::empty(), st, rate, ch) =~= Seq::<
        AudioV,
    >::empty());
}

/// Mapping the metadata stamp over `seq![pr] + rest` stamps `pr` and then
/// `rest`.
proof fn lemma_audio_chunks_of_cons(
    pr: (Seq<u8>, bool),
    rest: Seq<(Seq<u8>, bool)>,
    st: SampleType,
    rate: u32,
    ch: u32,
)
    ensures
        audio_chunks_of(seq![pr] + rest, st, rate, ch) == seq![
            AudioV {
                data: pr.0,
                sample_type: st,
                sample_rate: rate,
                channels: ch,
                endian: Endian::Big,
                is_final: pr.1,
            },
        ] + audio_chunks_of(rest, st, rate, ch),
{
    assert(audio_chunks_of(seq![pr] + rest, st, rate, ch) =~= seq![
        AudioV {
            data: pr.0,
            sample_type: st,
            sample_rate: rate,
            channels: ch,
            endian: Endian::Big,
            is_final: pr.1,
        },
    ] + audio_chunks_of(rest, st, rate, ch));
}

/// What demultiplexing an input byte stream yields: the audio chunks sent
/// downstream, in order, and the error the stage stopped with, if any.
pub open spec fn spec_demux(input: Seq<u8>) -> (Seq<AudioV>, Option<AuError>) {
    if input.len() < 4 {
        (Seq::<AudioV>::empty(), Some(AuError::UnexpectedEndOfStream))
    } else if input.take(4) != spec_magic() {
        (Seq::<AudioV>::empty(), Some(AuError::BadMagic(input[0], input[1], input[2], input[3])))
    } else if input.len() < FIXED_HEADER_LEN {
        (Seq::<AudioV>::empty(), Some(AuError::UnexpectedEndOfStream))
    } else {
        let data_offset = spec_be_u32_at(input, 4);
        let data_size = spec_be_u32_at(input, 8);
        let code = spec_be_u32_at(input, 12);
        let rate = spec_be_u32_at(input, 16);
        let ch = spec_be_u32_at(input, 20);
        if data_offset < FIXED_HEADER_LEN || input.len() < data_offset {
            (Seq::<AudioV>::empty(), Some(AuError::UnexpectedEndOfStream))
        } else {
            let st = spec_sample_type_of_code(code);
            let cs = spec_chunk_size(st, ch) as nat;
            let payload = input.skip(data_offset as int);
            if data_size == SIZE_UNKNOWN {
                (audio_chunks_of(chunk_unknown(payload, cs), st, rate, ch), None::<AuError>)
            } else {
                let ck = chunk_known(payload, data_size as nat, cs);
                (audio_chunks_of(ck.0, st, rate, ch), ck.1)
            }
        }
    }
}

/// Parses one source-format stream from a channel of binary chunks.
pub struct Demuxer {
    stream: ByteStream,
}

impl Demuxer {
    pub closed spec fn wf(&self) -> bool {
        self.stream.wf()
    }

    /// The bytes the demuxer has not yet consumed.
    pub closed spec fn input(&self) -> Seq<u8> {
        self.stream.remaining()
    }

    /// The producer must already have closed the channel; its chunks, in
    /// order, are the input stream.
    pub fn new(source: Channel<Binary>) -> (d: Demuxer)
        requires
            source.wf(),
            source.is_closed(),
        ensures
            d.wf(),
            d.input() == flatten_datas(source@),
    {
        Demuxer { stream: ByteStream::new(source) }
    }

    /// One full demultiplexing pass: the returned chunks are exactly the
    /// audio chunks sent downstream before the run ended, and the returned
    /// error, if any, is what the stage stopped with.
    pub fn run(&mut self) -> (r: (Vec<Audio>, Option<AuError>))
        requires
            old(self).wf(),
        ensures
            final(self).wf(),
            audio_views(r.0@) == spec_demux(old(self).input()).0,
            r.1 == spec_demux(old(self).input()).1,
    {
        let ghost input = self.stream.remaining();
        let ghost spec_out = spec_demux(input);

        let magic = match self.stream.read_exact(4) {
            Ok(v) => v,
            Err(e) => {
                proof {
                    lemma_audio_views_empty();
                }
                return (Vec::new(), Some(e));
            },
        };
        if !(magic[0] == 0x2e && magic[1] == 0x73 && magic[2] == 0x6e && magic[3] == 0x64) {
            proof {
                assert(magic@ == input.take(4));
                assert(input.take(4) != spec_magic());
                lemma_audio_views_empty();
            }
            return (Vec::new(), Some(AuError::BadMagic(magic[0], magic[1], magic[2], magic[3])));
        }
        proof {
            assert(input.take(4) =~= spec_magic());
        }

        let data_offset = match self.stream.read_be_u32() {
            Ok(x) => x,
            Err(e) => {
                proof {
                    lemma_audio_views_empty();
                }
                return (Vec::new(), Some(e));
            },
        };
        proof {
            assert(self.stream.remaining() =~= input.skip(8));
            assert(data_offset == spec_be_u32_at(input, 4));
        }
        let data_size = match self.stream.read_be_u32() {
            Ok(x) => x,
            Err(e) => {
                proof {
                    lemma_audio_views_empty();
                }
                return (Vec::new(), Some(e));
            },
        };
        proof {
            assert(self.stream.remaining() =~= input.skip(12));
            assert(data_size == spec_be_u32_at(input, 8));
        }
        let code = match self.stream.read_be_u32() {
            Ok(x) => x,
            Err(e) => {
                proof {
                    lemma_audio_views_empty();
                }
                return (Vec::new(), Some(e));
            },
        };
        proof {
            assert(self.stream.remaining() =~= input.skip(16));
            assert(code == spec_be_u32_at(input, 12));
        }
        let rate = match self.stream.read_be_u32() {
            Ok(x) => x,
            Err(e) => {
                proof {
                    lemma_audio_views_empty();
                }
                return (Vec::new(), Some(e));
            },
        };
        proof {
            assert(self.stream.remaining() =~= input.skip(20));
            assert(rate == spec_be_u32_at(input, 16));
        }
        let channels = match self.stream.read_be_u32() {
            Ok(x) => x,
            Err(e) => {
                proof {
                    lemma_audio_views_empty();
                }
                return (Vec::new(), Some(e));
            },
        };
        proof {
            assert(self.stream.remaining() =~= input.skip(24));
            assert(channels == spec_be_u32_at(input, 20));
            assert(input.len() >= 24);
        }

        if data_offset < FIXED_HEADER_LEN {
            proof {
                lemma_audio_views_empty();
            }
            return (Vec::new(), Some(AuError::UnexpectedEndOfStream));
        }
        match self.stream.skip((data_offset - FIXED_HEADER_LEN) as u64) {
            Ok(()) => {},
            Err(e) => {
                proof {
                    assert(input.len() < data_offset);
                    lemma_audio_views_empty();
                }
                return (Vec::new(), Some(e));
            },
        }
        proof {
            assert(input.len() >= data_offset);
            assert(self.stream.remaining() =~= input.skip(data_offset as int));
        }

        let st = sample_type_of_code(code);
        proof {
            assert(spec_sample_size_bits(st) <= 64);
        }
        let cs = chunk_size(st, channels);
        let ghost payload = input.skip(data_offset as int);
        let mut out: Vec<Audio> = Vec::new();
        proof {
            lemma_audio_views_empty();
        }

        if data_size == SIZE_UNKNOWN {
            proof {
                assert(spec_out.0 == audio_chunks_of(
                    chunk_unknown(payload, cs as nat),
                    st,
                    rate,
                    channels,
                ));
                assert(spec_out.1 == None::<AuError>);
            }
            let mut done = false;
            while !done
                invariant
                    self.wf(),
                    1 <= cs,
                    !done ==> spec_out.0 == audio_views(out@) + audio_chunks_of(
                        chunk_unknown(self.stream.remaining(), cs as nat),
                        st,
                        rate,
                        channels,
                    ),
                    done ==> spec_out.0 == audio_views(out@),
                decreases self.stream.remaining().len(), (if done { 0int } else { 1int }),
            {
                let ghost p_cur = self.stream.remaining();
                let ghost out_pre = out@;
                let data = self.stream.read_up_to(cs);
                let is_final = (data.len() as u64) < cs;
                let audio = Audio {
                    data,
                    sample_type: st,
                    sample_rate: rate,
                    channels,
                    endian: Endian::Big,
                    is_final,
                };
                let ghost a = audio@;
                out.push(audio);
                if is_final {
                    done = true;
                }
                proof {
                    lemma_audio_views_push(out_pre, out@.last());
                    assert(out@.last()@ == a);
                    assert(audio_views(out@) == audio_views(out_pre).push(a));
                    if is_final {
                        assert(p_cur.len() < cs);
                        assert(a.data =~= p_cur);
                        assert(chunk_unknown(p_cur, cs as nat) == seq![(p_cur, true)]);
                        assert(audio_chunks_of(chunk_unknown(p_cur, cs as nat), st, rate, channels)
                            =~= seq![a]);
                        assert(spec_out.0 =~= audio_views(out@));
                    } else {
                        assert(p_cur.len() >= cs);
                        assert(a.data =~= p_cur.take(cs as int));
                        assert(self.stream.remaining() =~= p_cur.skip(cs as int));
                        let rest = chunk_unknown(p_cur.skip(cs as int), cs as nat);
                        assert(chunk_unknown(p_cur, cs as nat) == seq![(p_cur.take(cs as int), false)]
                            + rest);
                        lemma_audio_chunks_of_cons(
                            (p_cur.take(cs as int), false),
                            rest,
                            st,
                            rate,
                            channels,
                        );
                        assert(spec_out.0 =~= audio_views(out@) + audio_chunks_of(
                            rest,
                            st,
                            rate,
                            channels,
                        ));
                    }
                }
            }
            return (out, None);
        }

        proof {
            assert(spec_out.0 == audio_chunks_of(
                chunk_known(payload, data_size as nat, cs as nat).0,
                st,
                rate,
                channels,
            ));
            assert(spec_out.1 == chunk_known(payload, data_size as nat, cs as nat).1);
        }
        let mut remaining_bytes: u64 = data_size as u64;
        let mut done = false;
        while !done
            invariant
                self.wf(),
                1 <= cs,
                spec_out == spec_demux(old(self).input()),
                !done ==> {
                    &&& spec_out.0 == audio_views(out@) + audio_chunks_of(
                        chunk_known(self.stream.remaining(), remaining_bytes as nat, cs as nat).0,
                        st,
                        rate,
                        channels,
                    )
                    &&& spec_out.1 == chunk_known(
                        self.stream.remaining(),
                        remaining_bytes as nat,
                        cs as nat,
                    ).1
                },
                done ==> spec_out.0 == audio_views(out@) && spec_out.1 == None::<AuError>,
            decreases remaining_bytes, (if done { 0int } else { 1int }),
        {
            let want: u64 = if cs < remaining_bytes {
                cs
            } else {
                remaining_bytes
            };
            let ghost p_cur = self.stream.remaining();
            let ghost out_pre = out@;
            let ghost ck = chunk_known(p_cur, remaining_bytes as nat, cs as nat);
            let data = self.stream.read_up_to(want);
            if (data.len() as u64) < want {
                proof {
                    assert(p_cur.len() < want);
                    assert(ck.0 =~= Seq::<(Seq<u8>, bool)>::empty());
                    assert(ck.1 == Some(AuError::UnexpectedEndOfStream));
                    lemma_audio_chunks_of_empty(st, rate, channels);
                    assert(spec_out.0 =~= audio_views(out@));
                }
                return (out, Some(AuError::UnexpectedEndOfStream));
            }
            remaining_bytes = remaining_bytes - want;
            let is_final = remaining_bytes == 0;
            let ghost dv = data@;
            let audio = Audio {
                data,
                sample_type: st,
                sample_rate: rate,
                channels,
                endian: Endian::Big,
                is_final,
            };
            let ghost a = audio@;
            out.push(audio);
            if is_final {
                done = true;
            }
            proof {
                assert(p_cur.len() >= want);
                assert(dv =~= p_cur.take(want as int));
                lemma_audio_views_push(out_pre, out@.last());
                assert(out@.last()@ == a);
                assert(audio_views(out@) == audio_views(out_pre).push(a));
                if is_final {
                    assert(ck.0 == seq![(p_cur.take(want as int), true)]);
                    assert(ck.1 == None::<AuError>);
                    assert(audio_chunks_of(ck.0, st, rate, channels) =~= seq![a]);
                    assert(spec_out.0 =~= audio_views(out@));
                } else {
                    assert(self.stream.remaining() =~= p_cur.skip(want as int));
                    let rest = chunk_known(
                        p_cur.skip(want as int),
                        remaining_bytes as nat,
                        cs as nat,
                    );
                    assert(ck.0 == seq![(p_cur.take(want as int), false)] + rest.0);
                    assert(ck.1 == rest.1);
                    lemma_audio_chunks_of_cons(
                        (p_cur.take(want as int), false),
                        rest.0,
                        st,
                        rate,
                        channels,
                    );
                    assert(spec_out.0 =~= audio_views(out@) + audio_chunks_of(
                        rest.0,
                        st,
                        rate,
                        channels,
                    ));
                }
            }
        }
        (out, None)
    }
}

} // verus!
