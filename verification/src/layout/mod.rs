//! Bit layout representation and field positioning.
//!
//! Provides types for describing sequences of named bit fields with calculated
//! positions, validating field constraints, and looking up fields by position.
//!
//! - [`BitRange`] — a contiguous half-open range of bits `[offset, end)`.
//! - [`LayoutField`] — a named bit region (name + offset + type).
//! - [`BitLayout`] — an ordered collection of fields with validation.
//! - [`BitLayoutBuilder`] — builder for constructing layouts.

pub mod enum_def;
pub mod error;
pub mod field;
pub mod laws;
pub mod layout;
pub mod model;

pub use error::{LayoutError, LayoutResult};
pub use field::{BitRange, FieldWidth, LayoutField, LengthUnit};
pub use layout::{BitLayout, BitLayoutBuilder};
