//! Demultiplexer for HEVC byte streams carrying Dolby Vision enhancement
//! data, together with the bit-level codec for the Dolby Vision RPU
//! (Reference Processing Unit) metadata NAL units.
//!
//! The crate splits an Annex-B framed input into three output streams
//! (base layer, enhancement layer, RPU metadata) and can re-encode each
//! RPU on the way through, either untouched or converted to profile 8.1.
use vstd::prelude::*;

pub mod bits;
pub mod demux;
pub mod emulation;
pub mod muxer;
pub mod rpu;

verus! {

/// The error kinds of the whole pipeline.
///
/// `Truncated`: a bit-level read ran past the end of the buffer.
/// `Malformed`: an RPU invariant does not hold, or a variable-length
/// code does not fit the machine word.
/// `Unsupported`: an input format or a conversion mode that the crate
/// does not handle.
/// `NoSink`: a demux pass was configured with no output at all.
#[derive(Clone, Copy, Debug, PartialEq, Eq, Structural)]
pub enum DemuxError {
    Truncated,
    Malformed,
    Unsupported,
    NoSink,
}

/// The recognised input container formats. Only `Raw` (Annex-B HEVC)
/// is supported; `Matroska` is reserved.
#[derive(Clone, Copy, Debug, PartialEq, Eq, Structural)]
pub enum Format {
    Raw,
    Matroska,
}

} // verus!
