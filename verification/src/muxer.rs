//! The muxer configuration: which container format an input pair uses
//! and where the interleaved stream would go. Only the raw Annex-B
//! format is supported; the I/O interleaving itself lives with the
//! caller.
use vstd::prelude::*;

verus! {

use crate::{DemuxError, Format};

/// A mux pass over a base-layer and an enhancement-layer input.
pub struct Muxer {
    pub format: Format,
    pub bl_in: String,
    pub el_in: String,
    pub output: String,
}

impl Muxer {
    pub fn new(format: Format, bl_in: String, el_in: String, output: String) -> (r: Self)
        ensures
            r.format == format,
            r.bl_in == bl_in,
            r.el_in == el_in,
            r.output == output,
    {
        Muxer { format, bl_in, el_in, output }
    }

    /// Decides whether this configuration can be processed: the
    /// Matroska container is reserved and unsupported.
    pub fn process_input(&self, mode: Option<u8>) -> (r: Result<(), DemuxError>)
        ensures
            r == (if self.format == Format::Matroska {
                Err::<(), DemuxError>(DemuxError::Unsupported)
            } else {
                Ok::<(), DemuxError>(())
            }),
    {
        match self.format {
            Format::Matroska => Err(DemuxError::Unsupported),
            _ => Ok(()),
        }
    }
}

} // verus!
