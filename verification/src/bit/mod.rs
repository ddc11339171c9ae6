//! Bit-level reading and writing engine.
//!
//! Provides [`BitReader`] and [`BitWriter`] for working with arbitrary-width
//! bit fields using MSB-first (big-endian) ordering: the most significant bit
//! of each byte is read/written first, and multi-byte values use big-endian
//! byte order.

pub mod error;
pub mod reader;
pub mod stream;
pub mod writer;

pub use error::{BitError, BitResult};
pub use reader::BitReader;
pub use writer::BitWriter;
