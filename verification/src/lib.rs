//! Chunk-level model of PNG-structured files.
//!
//! A file is an eight-byte signature followed by a sequence of records
//! ("chunks"), each carrying a big-endian length, a four-byte type code, a
//! data payload and a CRC-32 checksum over type and data.  This crate holds
//! the verified codec for single chunks, the container model that parses and
//! rebuilds whole files, and the command logic built on both.  Reading and
//! writing actual files is left to callers.

pub mod binary;
pub mod chunk;
pub mod chunk_error;
pub mod chunk_type;
pub mod cli;
pub mod crc32;
pub mod png;
pub mod png_error;
