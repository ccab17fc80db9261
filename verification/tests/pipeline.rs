use au::channel::Channel;
use au::chunk::{code_of_sample_type, sample_type_of_code, Audio, Binary, Endian, SampleType};
use au::demux::Demuxer;
use au::error::AuError;
use au::mux::Muxer;

fn be32(x: u32) -> [u8; 4] {
    [(x >> 24) as u8, (x >> 16) as u8, (x >> 8) as u8, x as u8]
}

fn header(offset: u32, size: u32, code: u32, rate: u32, channels: u32) -> Vec<u8> {
    let mut v = Vec::new();
    v.extend_from_slice(b".snd");
    v.extend_from_slice(&be32(offset));
    v.extend_from_slice(&be32(size));
    v.extend_from_slice(&be32(code));
    v.extend_from_slice(&be32(rate));
    v.extend_from_slice(&be32(channels));
    v
}

fn payload(n: usize) -> Vec<u8> {
    (0..n).map(|i| (i % 251) as u8).collect()
}

/// Split `bytes` into `block`-sized binary chunks, the last one final,
/// and close the channel, as the file-reading stage would.
fn feed(bytes: &[u8], block: usize) -> Channel<Binary> {
    let n_chunks = if bytes.is_empty() { 1 } else { (bytes.len() + block - 1) / block };
    let mut c = Channel::new(n_chunks);
    let mut i = 0;
    while i < bytes.len() {
        let end = if i + block < bytes.len() { i + block } else { bytes.len() };
        let chunk = Binary { data: bytes[i..end].to_vec(), is_final: end == bytes.len() };
        c.send(chunk).unwrap();
        i = end;
    }
    c.close();
    c
}

fn demux(bytes: &[u8], block: usize) -> (Vec<Audio>, Option<AuError>) {
    Demuxer::new(feed(bytes, block)).run()
}

fn mux(chunks: Vec<Audio>) -> (Vec<Binary>, Option<AuError>) {
    let n = chunks.len().max(1);
    let mut c = Channel::new(n);
    for a in chunks {
        c.send(a).unwrap();
    }
    c.close();
    Muxer::new(c).run()
}

#[test]
fn test_float32() {
    let mut input = header(24, 16384, 6, 8000, 2);
    input.extend_from_slice(&payload(16384));
    let (chunks, err) = demux(&input, 4096);
    assert!(err.is_none());
    let audio = &chunks[0];
    assert_eq!(audio.is_final, false);
    assert_eq!(audio.channels, 2);
    assert_eq!(audio.sample_rate, 8000);
    assert_eq!(audio.endian, Endian::Big);
    assert_eq!(audio.sample_type, SampleType::Float(32));
}

#[test]
fn float32_concrete_scenario() {
    let data = payload(16000);
    let mut input = header(24, 16000, 6, 8000, 2);
    input.extend_from_slice(&data);
    let (chunks, err) = demux(&input, 4096);
    assert!(err.is_none());
    // One frame group is 8 bytes, so chunks hold 8192 bytes each.
    assert_eq!(chunks.len(), 2);
    let total: usize = chunks.iter().map(|a| a.data.len()).sum();
    assert_eq!(total, 16000);
    let mut joined = Vec::new();
    for (i, a) in chunks.iter().enumerate() {
        assert_eq!(a.sample_type, SampleType::Float(32));
        assert_eq!(a.sample_rate, 8000);
        assert_eq!(a.channels, 2);
        assert_eq!(a.endian, Endian::Big);
        assert_eq!(a.is_final, i == chunks.len() - 1);
        joined.extend_from_slice(&a.data);
    }
    assert_eq!(joined, data);
}

#[test]
fn bad_magic_sends_nothing() {
    let mut input = header(24, 100, 6, 8000, 2);
    input[0] = 0x46;
    input[1] = 0x4f;
    input[2] = 0x52;
    input[3] = 0x4d;
    input.extend_from_slice(&payload(100));
    let (chunks, err) = demux(&input, 4096);
    assert_eq!(chunks.len(), 0);
    assert_eq!(err, Some(AuError::BadMagic(0x46, 0x4f, 0x52, 0x4d)));
}

#[test]
fn truncated_header_is_end_of_stream() {
    let input = b".snd\x00\x00";
    let (chunks, err) = demux(input, 4096);
    assert_eq!(chunks.len(), 0);
    assert_eq!(err, Some(AuError::UnexpectedEndOfStream));
}

#[test]
fn vendor_padding_is_skipped() {
    let data = payload(100);
    let mut input = header(32, 100, 2, 44100, 1);
    input.extend_from_slice(&[0xAA; 8]);
    input.extend_from_slice(&data);
    let (chunks, err) = demux(&input, 4096);
    assert!(err.is_none());
    assert_eq!(chunks.len(), 1);
    assert_eq!(chunks[0].sample_type, SampleType::Unsigned(8));
    assert_eq!(chunks[0].sample_rate, 44100);
    assert_eq!(chunks[0].data, data);
    assert!(chunks[0].is_final);
}

#[test]
fn unknown_size_reads_to_exhaustion() {
    let data = payload(5000);
    let mut input = header(24, 0xFFFF_FFFF, 3, 22050, 1);
    input.extend_from_slice(&data);
    let (chunks, err) = demux(&input, 4096);
    // One frame group is 2 bytes, so chunks hold 2048 bytes each; the
    // short read at the end is the clean end of the stream.
    assert!(err.is_none());
    assert_eq!(chunks.len(), 3);
    assert_eq!(chunks[0].data.len(), 2048);
    assert_eq!(chunks[1].data.len(), 2048);
    assert_eq!(chunks[2].data.len(), 904);
    assert!(!chunks[0].is_final);
    assert!(!chunks[1].is_final);
    assert!(chunks[2].is_final);
    let mut joined = Vec::new();
    for a in &chunks {
        joined.extend_from_slice(&a.data);
    }
    assert_eq!(joined, data);
}

#[test]
fn zero_size_yields_one_empty_final_chunk() {
    let input = header(24, 0, 5, 8000, 1);
    let (chunks, err) = demux(&input, 4096);
    assert!(err.is_none());
    assert_eq!(chunks.len(), 1);
    assert_eq!(chunks[0].data.len(), 0);
    assert!(chunks[0].is_final);
}

#[test]
fn payload_shorter_than_declared_fails_mid_stream() {
    let mut input = header(24, 16000, 6, 8000, 2);
    input.extend_from_slice(&payload(10000));
    let (chunks, err) = demux(&input, 4096);
    // The first 8192-byte chunk still went out; the second could not be
    // filled.
    assert_eq!(chunks.len(), 1);
    assert!(!chunks[0].is_final);
    assert_eq!(err, Some(AuError::UnexpectedEndOfStream));
}

#[test]
fn unknown_format_code_parses_but_does_not_encode() {
    let data = payload(100);
    let mut input = header(24, 100, 99, 8000, 1);
    input.extend_from_slice(&data);
    let (chunks, err) = demux(&input, 4096);
    assert!(err.is_none());
    assert_eq!(chunks.len(), 1);
    assert_eq!(chunks[0].sample_type, SampleType::Unknown);
    let (bins, mux_err) = mux(chunks);
    assert_eq!(bins.len(), 0);
    assert_eq!(mux_err, Some(AuError::UnsupportedSampleType(SampleType::Unknown)));
}

#[test]
fn mux_header_bytes_are_exact() {
    let audio = Audio {
        data: vec![1, 2, 3, 4],
        sample_type: SampleType::Float(32),
        sample_rate: 8000,
        channels: 2,
        endian: Endian::Big,
        is_final: true,
    };
    let (bins, err) = mux(vec![audio]);
    assert!(err.is_none());
    assert_eq!(bins.len(), 2);
    let mut expected = Vec::new();
    expected.extend_from_slice(b".snd");
    expected.extend_from_slice(&be32(24));
    expected.extend_from_slice(&be32(0xFFFF_FFFF));
    expected.extend_from_slice(&be32(6));
    expected.extend_from_slice(&be32(8000));
    expected.extend_from_slice(&be32(2));
    assert_eq!(bins[0].data, expected);
    assert!(!bins[0].is_final);
    assert_eq!(bins[1].data, vec![1, 2, 3, 4]);
    assert!(bins[1].is_final);
}

#[test]
fn mux_empty_stream_is_end_of_stream() {
    let (bins, err) = mux(Vec::new());
    assert_eq!(bins.len(), 0);
    assert_eq!(err, Some(AuError::UnexpectedEndOfStream));
}

#[test]
fn mux_stream_without_final_chunk_is_end_of_stream() {
    let audio = Audio {
        data: vec![9, 9],
        sample_type: SampleType::Unsigned(16),
        sample_rate: 8000,
        channels: 1,
        endian: Endian::Big,
        is_final: false,
    };
    let (bins, err) = mux(vec![audio]);
    // Header and the one data chunk went out before the stream ran dry.
    assert_eq!(bins.len(), 2);
    assert_eq!(err, Some(AuError::UnexpectedEndOfStream));
}

#[test]
fn round_trip_preserves_metadata_and_payload() {
    let data = payload(16000);
    let mut input = header(24, 16000, 6, 8000, 2);
    input.extend_from_slice(&data);
    let (chunks, err) = demux(&input, 4096);
    assert!(err.is_none());
    let (bins, mux_err) = mux(chunks);
    assert!(mux_err.is_none());
    assert_eq!(bins.len(), 3);
    let h = &bins[0].data;
    assert_eq!(&h[0..4], b".snd");
    assert_eq!(h[4..8], be32(24));
    assert_eq!(h[8..12], be32(0xFFFF_FFFF));
    assert_eq!(h[12..16], be32(6));
    assert_eq!(h[16..20], be32(8000));
    assert_eq!(h[20..24], be32(2));
    let mut joined = Vec::new();
    for b in &bins[1..] {
        joined.extend_from_slice(&b.data);
    }
    assert_eq!(joined, data);
    assert!(bins.last().unwrap().is_final);
}

#[test]
fn format_code_table_round_trips() {
    for code in 2u32..=7 {
        let t = sample_type_of_code(code);
        assert_eq!(code_of_sample_type(t), Some(code));
    }
    assert_eq!(sample_type_of_code(2), SampleType::Unsigned(8));
    assert_eq!(sample_type_of_code(3), SampleType::Unsigned(16));
    assert_eq!(sample_type_of_code(4), SampleType::Unsigned(24));
    assert_eq!(sample_type_of_code(5), SampleType::Unsigned(32));
    assert_eq!(sample_type_of_code(6), SampleType::Float(32));
    assert_eq!(sample_type_of_code(7), SampleType::Float(64));
    assert_eq!(sample_type_of_code(0), SampleType::Unknown);
    assert_eq!(sample_type_of_code(99), SampleType::Unknown);
    assert_eq!(code_of_sample_type(SampleType::Unknown), None);
    assert_eq!(code_of_sample_type(SampleType::Unsigned(12)), None);
    assert_eq!(code_of_sample_type(SampleType::Float(16)), None);
}
