//! Decoder for compressed genomic-track data blocks.
//!
//! The library decompresses raw-deflate byte ranges and decodes the
//! decompressed bytes into typed interval records (start, end, score) or
//! zoom/summary aggregates, optionally filtered to a genomic coordinate
//! window.  Results are packed into flat little-endian byte buffers.

pub mod batch;
pub mod error;
pub mod inflate;
pub mod interval;
pub mod summary;
pub mod wire;

pub use batch::{decompress_and_parse_bigwig, decompress_and_parse_summary, inflate_raw_batch};
pub use error::DecodeError;
pub use inflate::{inflate_raw, inflate_raw_unknown_size};
pub use interval::parse_bigwig_block;
pub use summary::parse_summary_block;
