//! Embedding short messages in PNG files.
//!
//! A PNG file is an eight-byte signature followed by a sequence of chunks.
//! Every chunk carries a length, a four-letter type code, a payload and a
//! CRC-32 checksum over type and payload. This crate models chunk types,
//! chunks and whole files, and proves that parsing and serialising are
//! inverse to each other.

pub mod error;
pub mod bytes;
pub mod checksum;
pub mod text;
pub mod chunk_type;
pub mod chunk;
pub mod png;
pub mod commands;
