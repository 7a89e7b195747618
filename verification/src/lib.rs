//! Decoder for a sector-aligned archive container: a fixed header, a binary
//! index table of `(offset, length)` records, a filename table of
//! length-prefixed names, and a data section of 2048-byte-aligned payloads.
//! The library decodes an archive held in memory into a list of extracted
//! files, each with a sanitized relative path and its exact payload bytes.

pub mod align;
pub mod archive;
pub mod errors;
pub mod extract;
pub mod header;
pub mod index;
pub mod names;
pub mod paths;
pub mod stream;
