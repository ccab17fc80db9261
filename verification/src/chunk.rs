//! Chunk types that flow through the pipeline's channels, and the fixed
//! tables that relate container format codes to sample types.

use vstd::prelude::*;

verus! {

/// Numeric encoding of one audio sample: unsigned integer PCM or IEEE
/// floating point, each with its bit depth, or an unrecognised encoding.
#[derive(Clone, Copy, PartialEq, Eq, Structural, Debug)]
pub enum SampleType {
    Unsigned(u32),
    Float(u32),
    Unknown,
}

/// Byte order of multi-byte integer fields.
#[derive(Clone, Copy, PartialEq, Eq, Structural, Debug)]
pub enum Endian {
    Big,
    Little,
}

/// A chunk of raw container bytes. The final chunk of a stream carries
/// `is_final = true`; no chunk follows it.
pub struct Binary {
    pub data: Vec<u8>,
    pub is_final: bool,
}

/// Mathematical model of a `Binary` chunk.
pub ghost struct BinaryV {
    pub data: Seq<u8>,
    pub is_final: bool,
}

impl View for Binary {
    type V = BinaryV;

    open spec fn view(&self) -> BinaryV {
        BinaryV { data: self.data@, is_final: self.is_final }
    }
}

/// A chunk of raw sample bytes together with the stream's format metadata.
pub struct Audio {
    pub data: Vec<u8>,
    pub sample_type: SampleType,
    pub sample_rate: u32,
    pub channels: u32,
    pub endian: Endian,
    pub is_final: bool,
}

/// Mathematical model of an `Audio` chunk.
pub ghost struct AudioV {
    pub data: Seq<u8>,
    pub sample_type: SampleType,
    pub sample_rate: u32,
    pub channels: u32,
    pub endian: Endian,
    pub is_final: bool,
}

impl View for Audio {
    type V = AudioV;

    open spec fn view(&self) -> AudioV {
        AudioV {
            data: self.data@,
            sample_type: self.sample_type,
            sample_rate: self.sample_rate,
            channels: self.channels,
            endian: self.endian,
            is_final: self.is_final,
        }
    }
}

/// The models of a sequence of audio chunks, in order.
pub open spec fn audio_views(s: Seq<Audio>) -> Seq<AudioV> {
    s.map_values(|a: Audio| a@)
}

pub proof fn lemma_audio_views_empty()
    ensures
        audio_views(Seq::<Audio>::empty()) == Seq::<AudioV>::empty(),
{
    assert(audio_views(Seq::<Audio>::empty()) =~= Seq::<AudioV>::empty());
}

pub proof fn lemma_audio_views_push(s: Seq<Audio>, x: Audio)
    ensures
        audio_views(s.push(x)) == audio_views(s).push(x@),
{
    assert(audio_views(s.push(x)) =~= audio_views(s).push(x@));
}

pub proof fn lemma_audio_views_first(s: Seq<Audio>)
    requires
        s.len() > 0,
    ensures
        audio_views(s)[0] == s[0]@,
        audio_views(s).drop_first() == audio_views(s.drop_first()),
{
    assert(audio_views(s).drop_first() =~= audio_views(s.drop_first()));
}

/// The models of a sequence of binary chunks, in order.
pub open spec fn binary_views(s: Seq<Binary>) -> Seq<BinaryV> {
    s.map_values(|b: Binary| b@)
}

pub proof fn lemma_binary_views_empty()
    ensures
        binary_views(Seq::<Binary>::empty()) == Seq::<BinaryV>::empty(),
{
    assert(binary_views(Seq::<Binary>::empty()) =~= Seq::<BinaryV>::empty());
}

pub proof fn lemma_binary_views_push(s: Seq<Binary>, x: Binary)
    ensures
        binary_views(s.push(x)) == binary_views(s).push(x@),
{
    assert(binary_views(s.push(x)) =~= binary_views(s).push(x@));
}

/// The source container's format-code table.
pub open spec fn spec_sample_type_of_code(code: u32) -> SampleType {
    if code == 2 {
        SampleType::Unsigned(8)
    } else if code == 3 {
        SampleType::Unsigned(16)
    } else if code == 4 {
        SampleType::Unsigned(24)
    } else if code == 5 {
        SampleType::Unsigned(32)
    } else if code == 6 {
        SampleType::Float(32)
    } else if code == 7 {
        SampleType::Float(64)
    } else {
        SampleType::Unknown
    }
}

pub fn sample_type_of_code(code: u32) -> (t: SampleType)
    ensures
        t == spec_sample_type_of_code(code),
{
    match code {
        2 => SampleType::Unsigned(8),
        3 => SampleType::Unsigned(16),
        4 => SampleType::Unsigned(24),
        5 => SampleType::Unsigned(32),
        6 => SampleType::Float(32),
        7 => SampleType::Float(64),
        _ => SampleType::Unknown,
    }
}

/// Inverse of the format-code table: `None` for any sample type the
/// destination container cannot encode.
pub open spec fn spec_code_of_sample_type(t: SampleType) -> Option<u32> {
    match t {
        SampleType::Unsigned(b) => if b == 8 {
            Some(2u32)
        } else if b == 16 {
            Some(3u32)
        } else if b == 24 {
            Some(4u32)
        } else if b == 32 {
            Some(5u32)
        } else {
            None
        },
        SampleType::Float(b) => if b == 32 {
            Some(6u32)
        } else if b == 64 {
            Some(7u32)
        } else {
            None
        },
        SampleType::Unknown => None,
    }
}

pub fn code_of_sample_type(t: SampleType) -> (c: Option<u32>)
    ensures
        c == spec_code_of_sample_type(t),
{
    match t {
        SampleType::Unsigned(8u32) => Some(2),
        SampleType::Unsigned(16u32) => Some(3),
        SampleType::Unsigned(24u32) => Some(4),
        SampleType::Unsigned(32u32) => Some(5),
        SampleType::Float(32u32) => Some(6),
        SampleType::Float(64u32) => Some(7),
        _ => None,
    }
}

/// Bit width of one sample of the given type; zero when it is unknown.
pub open spec fn spec_sample_size_bits(t: SampleType) -> u32 {
    match t {
        SampleType::Unsigned(b) => b,
        SampleType::Float(b) => b,
        SampleType::Unknown => 0,
    }
}

pub fn sample_size_bits(t: SampleType) -> (b: u32)
    ensures
        b == spec_sample_size_bits(t),
{
    match t {
        SampleType::Unsigned(b) => b,
        SampleType::Float(b) => b,
        SampleType::Unknown => 0,
    }
}

/// Fallback payload chunk size, used when the sample type or channel count
/// yields a zero-sized frame group (the payload must still stream in
/// finite, non-empty steps).
pub const FALLBACK_CHUNK_BYTES: u64 = 4096;

/// Payload chunk size in bytes: a fixed multiple of one frame group,
/// falling back to a constant when the frame group is empty.
pub open spec fn spec_chunk_size(t: SampleType, channels: u32) -> int {
    let raw = (spec_sample_size_bits(t) * channels / 8) * 1024;
    if raw == 0 {
        FALLBACK_CHUNK_BYTES as int
    } else {
        raw
    }
}

pub fn chunk_size(t: SampleType, channels: u32) -> (s: u64)
    requires
        spec_sample_size_bits(t) <= 64,
    ensures
        s == spec_chunk_size(t, channels),
        1 <= s,
{
    let bits = sample_size_bits(t);
    proof {
        assert(bits as int * channels as int <= 64 * 0xFFFF_FFFF) by (nonlinear_arith)
            requires
                bits <= 64,
                channels <= 0xFFFF_FFFFu32,
        ;
        assert((bits as int * channels as int) / 8 <= 0x8_0000_0000) by (nonlinear_arith)
            requires
                bits as int * channels as int <= 64 * 0xFFFF_FFFF,
        ;
    }
    let raw: u64 = (bits as u64 * channels as u64 / 8) * 1024;
    if raw == 0 {
        FALLBACK_CHUNK_BYTES
    } else {
        raw
    }
}

} // verus!
