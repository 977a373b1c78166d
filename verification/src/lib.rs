//! Extraction of embedded raster images (JPEG, PNG, GIF) from opaque
//! container files.
//!
//! The library scans a raw byte buffer for format-specific header
//! signatures, resolves each candidate image's end offset from the
//! format's footer marker (with positional and capped fallbacks when the
//! footer is missing), probes pixel dimensions without fully decoding the
//! image, and filters out implausibly small candidates.  File and
//! directory handling around the core is left to the caller.

pub mod dims;
pub mod extractor;
pub mod laws;
pub mod scan;
pub mod signatures;
pub mod text;
