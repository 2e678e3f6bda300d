//! A binary codec for flat files of 16-bit token sequences.
//!
//! Records (ordered sequences of `u16` tokens) are stored back to back as
//! two-byte little-endian values, each record terminated by a fixed two-byte
//! sentinel. The format has no header, no escaping and no length prefixes, so
//! it is lossless only while no token's byte pattern equals the sentinel.

pub mod format;
pub mod laws;
pub mod reader;
pub mod writer;

pub use format::Sentinel;
pub use reader::TokensReader;
pub use writer::TokensWriter;
