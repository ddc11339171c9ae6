//! Bit range and layout field types.
//!
//! All bit offsets are zero-based. Bit ranges use half-open intervals
//! `[offset, offset + width)`. Widths are measured in bits.

use vstd::prelude::*;

pub use super::layout::{FieldType, LayoutField};
pub use super::model::{FieldSpec, TypeSpec};

verus! {

/// A contiguous range of bits using half-open interval `[offset, offset + width)`.
///
/// Given `offset = 3` and `width = 5`, the range covers bits `3, 4, 5, 6, 7`
/// and `end()` returns `8` (exclusive).
#[derive(Debug, Clone, Copy, PartialEq, Eq)]
pub struct BitRange {
    offset: usize,
    width: usize,
}

impl BitRange {
    /// Starting bit of the range.
    pub closed spec fn spec_offset(self) -> nat {
        self.offset as nat
    }

    /// Number of bits in the range.
    pub closed spec fn spec_width(self) -> nat {
        self.width as nat
    }

    /// Creates a new bit range starting at `offset` with the given `width`.
    pub fn new(offset: usize, width: usize) -> (r: Self)
        ensures
            r.spec_offset() == offset,
            r.spec_width() == width,
    {
        BitRange { offset, width }
    }

    /// Starting bit offset (inclusive).
    pub fn offset(&self) -> (r: usize)
        ensures
            r == self.spec_offset(),
    {
        self.offset
    }

    /// Number of bits in this range.
    pub fn width(&self) -> (r: usize)
        ensures
            r == self.spec_width(),
    {
        self.width
    }

    /// Exclusive end position: `offset + width`.
    pub fn end(&self) -> (r: usize)
        requires
            self.spec_offset() + self.spec_width() <= usize::MAX,
        ensures
            r == self.spec_offset() + self.spec_width(),
    {
        self.offset + self.width
    }

    /// Returns `true` if this range contains the given bit offset
    /// (half-open semantics: `offset <= bit < end()`).
    pub fn contains(&self, bit: usize) -> (r: bool)
        ensures
            r == (self.spec_offset() <= bit < self.spec_offset() + self.spec_width()),
    {
        bit >= self.offset && bit - self.offset < self.width
    }

    /// Returns `true` if this range overlaps with `other`.
    pub fn overlaps(&self, other: &BitRange) -> (r: bool)
        ensures
            r == (self.spec_offset() < other.spec_offset() + other.spec_width()
                && other.spec_offset() < self.spec_offset() + self.spec_width()),
    {
        let a = self.offset < other.offset || self.offset - other.offset < other.width;
        let b = other.offset < self.offset || other.offset - self.offset < self.width;
        a && b
    }
}

/// The unit used when interpreting a length field's value.
///
/// When a field's width is derived from another field, the source field's
/// runtime value is interpreted in this unit to compute the target width in bits.
#[derive(Debug, Clone, Copy, PartialEq, Eq)]
pub enum LengthUnit {
    /// The source field value is already in bits.
    Bits,
    /// The source field value is in bytes (multiplied by 8 for bit width).
    Bytes,
}

impl LengthUnit {
    /// How many bits one unit stands for.
    pub open spec fn factor(self) -> nat {
        match self {
            LengthUnit::Bits => 1,
            LengthUnit::Bytes => 8,
        }
    }

    /// Converts a raw value in this unit to a bit count.
    pub fn to_bits(self, value: u64) -> (r: u64)
        requires
            value * self.factor() <= u64::MAX,
        ensures
            r == value * self.factor(),
    {
        match self {
            LengthUnit::Bits => value,
            LengthUnit::Bytes => value * 8,
        }
    }

    /// Converts a raw value in this unit to a bit count, or `None` when the
    /// count does not fit in 64 bits.
    pub(crate) fn checked_to_bits(self, value: u64) -> (r: Option<u64>)
        ensures
            value * self.factor() <= u64::MAX ==> r == Some((value * self.factor()) as u64),
            value * self.factor() > u64::MAX ==> r is None,
    {
        match self {
            LengthUnit::Bits => Some(value),
            LengthUnit::Bytes => value.checked_mul(8),
        }
    }
}

/// The abstract form of a [`FieldWidth`].
pub enum WidthSpec {
    Fixed(nat),
    Derived { source: Seq<char>, unit: LengthUnit },
}

/// Describes how a field's width is determined.
///
/// A field can have a fixed width known at build time, or a variable width
/// whose size is derived from the runtime value of a previously declared field.
#[derive(Debug, PartialEq, Eq)]
pub enum FieldWidth {
    /// A fixed width known at layout-build time.
    Fixed(usize),
    /// Width derived from another field's runtime value.
    ///
    /// The `source_field` must be declared before this field in the layout.
    /// At resolve time, the source field's value (read from data) is converted
    /// via `unit` to compute the width in bits.
    DerivedFrom {
        /// Name of the field whose value determines this field's width.
        source_field: String,
        /// Unit the source value is expressed in.
        unit: LengthUnit,
    },
}

impl View for FieldWidth {
    type V = WidthSpec;

    open spec fn view(&self) -> WidthSpec {
        match self {
            FieldWidth::Fixed(w) => WidthSpec::Fixed(*w as nat),
            FieldWidth::DerivedFrom { source_field, unit } => WidthSpec::Derived {
                source: source_field@,
                unit: *unit,
            },
        }
    }
}

impl WidthSpec {
    /// The fixed width, if any.
    pub open spec fn fixed(self) -> Option<nat> {
        match self {
            WidthSpec::Fixed(w) => Some(w),
            WidthSpec::Derived { .. } => None,
        }
    }
}

impl Clone for FieldWidth {
    fn clone(&self) -> (r: Self)
        ensures
            r@ == self@,
    {
        match self {
            FieldWidth::Fixed(w) => FieldWidth::Fixed(*w),
            FieldWidth::DerivedFrom { source_field, unit } => FieldWidth::DerivedFrom {
                source_field: source_field.clone(),
                unit: *unit,
            },
        }
    }
}

impl FieldWidth {
    /// Returns `true` if this is a fixed width.
    pub fn is_fixed(&self) -> (r: bool)
        ensures
            r == (self@.fixed() is Some),
    {
        match self {
            FieldWidth::Fixed(_) => true,
            FieldWidth::DerivedFrom { .. } => false,
        }
    }

    /// Returns the fixed width value, or `None` if derived.
    pub fn fixed_width(&self) -> (r: Option<usize>)
        ensures
            r matches Some(w) ==> self@.fixed() == Some(w as nat),
            r is None ==> self@.fixed() is None,
    {
        match self {
            FieldWidth::Fixed(w) => Some(*w),
            FieldWidth::DerivedFrom { .. } => None,
        }
    }
}

} // verus!
