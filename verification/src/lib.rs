//! Extracts vendor telemetry records embedded as SEI (Supplemental
//! Enhancement Information) NAL units inside the video track of an
//! ISO-BMFF (MP4) container, as produced by vehicle dashcams.
//!
//! The library works on an in-memory copy of the container bytes:
//! callers read the file and hand the bytes to [`extract::extractor_from_reader`],
//! then pull decoded [`extract::SeiEvent`]s sequentially or by sample index.

pub mod error;
pub mod pb;

pub mod mp4;
pub mod sei;

pub mod extract;

pub use error::Error;
pub use extract::{extractor_from_reader, for_each_sei_metadata, SeiEvent, SeiExtractor};
