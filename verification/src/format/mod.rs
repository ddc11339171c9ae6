//! Extensible data formatting for fields and bit layouts.
//!
//! Provides the [`FieldFormatter`] trait and [`FormatRegistry`], allowing
//! values to be rendered in different bases (hex, dec, bin, oct), as text
//! (ASCII), as raw bits, or in custom registered formats.

pub mod formatters;
pub mod registry;
pub mod value;

pub use formatters::{
    AsciiFormatter, BinFormatter, DecFormatter, FieldFormatter, HexFormatter, OctFormatter,
    RawBitsFormatter, SmartFormatter,
};
pub use registry::FormatRegistry;
pub use value::{extract_value, FormatContext, FormatId, Value};
