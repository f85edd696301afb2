//! A verified engine for a chunk-based binary image container.
//!
//! The format is a fixed 8-byte signature followed by a sequence of chunks,
//! each a big-endian 32-bit length, a 4-byte type tag, `length` bytes of
//! payload, and a 4-byte checksum field. Parsing walks the byte stream until
//! a terminator chunk (`"IEND"`) is seen; serialization writes the chunks
//! back and can splice one extra chunk in immediately after each chunk whose
//! type tag matches a caller-supplied marker.

pub mod chunk;
pub mod codec;
pub mod container;
pub mod reader;
