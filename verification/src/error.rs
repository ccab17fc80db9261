//! The errors a pipeline stage can stop with. All are fatal to the stage
//! that detects them; each carries the offending value so the cause of a
//! failure is diagnosable.

use vstd::prelude::*;
use crate::chunk::SampleType;

verus! {

#[derive(Clone, Copy, PartialEq, Eq, Structural, Debug)]
pub enum AuError {
    /// The input's first four bytes, which did not match the magic tag.
    BadMagic(u8, u8, u8, u8),
    /// The byte stream ran out in the middle of a required read.
    UnexpectedEndOfStream,
    /// The sample type the destination container cannot encode.
    UnsupportedSampleType(SampleType),
    /// A send was attempted on a channel whose peer is gone.
    ChannelClosed,
}

} // verus!
