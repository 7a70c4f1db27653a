//! Error taxonomy of the extractor.

use vstd::prelude::*;

verus! {

/// Everything that can go wrong while opening a container or reading
/// samples from it.
///
/// Heuristic-decode misses (no SEI message, no decodable payload, a
/// false-positive rejection) are normal outcomes and never surface here.
#[derive(Debug)]
pub enum Error {
    /// The requested bytes lie beyond the end of the container data
    /// (the in-memory analogue of an unexpected end-of-file).
    Io { message: String },
    /// No video track with usable sample tables was found at open time.
    NoTracksFound,
    /// A box size/offset invariant was violated; carries the walking
    /// context, the box type tag (big-endian fourcc), and the box start
    /// offset.
    Mp4InvalidBox { context: String, box_type: u32, offset: usize, message: String },
    /// One or more of the required sample tables are absent; `missing`
    /// names them.
    Mp4MissingSampleTables { missing: String },
    /// The reconstructed per-sample offset count disagrees with the
    /// sample-size count; reports all three table sizes.
    Mp4InconsistentSampleTables { sample_sizes: usize, sample_offsets: usize, chunk_offsets: usize },
    /// A seek or random-access read targeted a sample index beyond the
    /// valid range.
    SampleIndexOutOfRange { sample_index: usize, total_samples: usize },
}

} // verus!
