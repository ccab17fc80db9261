//! Streaming conversion of a headered audio container: a bounded channel
//! moves chunks between pipeline stages, a byte stream view flattens a
//! channel of binary chunks, a demuxer parses the source container into
//! audio chunks, and a muxer re-encodes them into the destination container.

pub mod channel;
pub mod chunk;
pub mod demux;
pub mod error;
pub mod laws;
pub mod mux;
pub mod stream;
