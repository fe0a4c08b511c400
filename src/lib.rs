//! A growable byte buffer with a read cursor, for sequential big-endian
//! encoding and decoding of integers, raw bytes and strings.
pub mod buffer;
pub mod byte_order;
pub mod encoding;
pub mod laws;
