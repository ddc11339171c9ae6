//! Error types for layout operations.

use vstd::prelude::*;

use crate::text::{decimal, push_decimal, push_str};

verus! {

/// Errors that can occur during layout construction or validation.
#[derive(Debug, Clone, PartialEq, Eq)]
pub enum LayoutError {
    /// Field name is empty.
    EmptyFieldName,
    /// Field name contains invalid characters (e.g. '.').
    InvalidFieldName {
        /// Name of the field.
        name: String,
    },
    /// Field width is zero.
    ZeroWidth {
        /// Name of the field.
        name: String,
    },
    /// Layout contains duplicate field names.
    DuplicateName {
        /// Name of the field.
        name: String,
    },
    /// Two fields overlap in their bit ranges.
    OverlappingFields {
        /// Name of the existing field.
        existing: String,
        /// Name of the conflicting new field.
        new: String,
    },
    /// Arithmetic overflow when computing offsets or total length.
    ArithmeticOverflow,
    /// A variable-width field references a source field that does not exist.
    UnknownSourceField {
        /// The field with the derived width.
        field: String,
        /// The source field name.
        source: String,
    },
    /// A variable-width field references a source field declared after it.
    ForwardReference {
        /// The field with the derived width.
        field: String,
        /// The source field name.
        source: String,
    },
    /// The source field for a derived width is itself variable-width.
    VariableSourceField {
        /// The field with the derived width.
        field: String,
        /// The source field name.
        source: String,
    },
    /// The source field is too wide (> 64 bits) to read as a length value.
    SourceFieldTooWide {
        /// The field with the derived width.
        field: String,
        /// The source field name.
        source: String,
        /// Width of the source field in bits.
        width: usize,
    },
    /// Not enough data to resolve a variable-width field.
    InsufficientData {
        /// The field with the derived width.
        field: String,
        /// Bits needed to read the source field.
        needed_bits: usize,
        /// Bits available in the data.
        available_bits: usize,
    },
    /// A resolved variable-width field has zero width.
    ResolvedZeroWidth {
        /// The field with the derived width.
        field: String,
    },
}

/// The abstract form of a [`LayoutError`]: names as character sequences.
pub enum LayoutErrorView {
    EmptyFieldName,
    InvalidFieldName { name: Seq<char> },
    ZeroWidth { name: Seq<char> },
    DuplicateName { name: Seq<char> },
    OverlappingFields { existing: Seq<char>, new: Seq<char> },
    ArithmeticOverflow,
    UnknownSourceField { field: Seq<char>, source: Seq<char> },
    ForwardReference { field: Seq<char>, source: Seq<char> },
    VariableSourceField { field: Seq<char>, source: Seq<char> },
    SourceFieldTooWide { field: Seq<char>, source: Seq<char>, width: nat },
    InsufficientData { field: Seq<char>, needed_bits: nat, available_bits: nat },
    ResolvedZeroWidth { field: Seq<char> },
}

impl View for LayoutError {
    type V = LayoutErrorView;

    open spec fn view(&self) -> LayoutErrorView {
        match self {
            LayoutError::EmptyFieldName => LayoutErrorView::EmptyFieldName,
            LayoutError::InvalidFieldName { name } => LayoutErrorView::InvalidFieldName { name: name@ },
            LayoutError::ZeroWidth { name } => LayoutErrorView::ZeroWidth { name: name@ },
            LayoutError::DuplicateName { name } => LayoutErrorView::DuplicateName { name: name@ },
            LayoutError::OverlappingFields { existing, new } => LayoutErrorView::OverlappingFields { existing: existing@, new: new@ },
            LayoutError::ArithmeticOverflow => LayoutErrorView::ArithmeticOverflow,
            LayoutError::UnknownSourceField { field, source } => LayoutErrorView::UnknownSourceField { field: field@, source: source@ },
            LayoutError::ForwardReference { field, source } => LayoutErrorView::ForwardReference { field: field@, source: source@ },
            LayoutError::VariableSourceField { field, source } => LayoutErrorView::VariableSourceField { field: field@, source: source@ },
            LayoutError::SourceFieldTooWide { field, source, width } => LayoutErrorView::SourceFieldTooWide { field: field@, source: source@, width: *width as nat },
            LayoutError::InsufficientData { field, needed_bits, available_bits } => LayoutErrorView::InsufficientData { field: field@, needed_bits: *needed_bits as nat, available_bits: *available_bits as nat },
            LayoutError::ResolvedZeroWidth { field } => LayoutErrorView::ResolvedZeroWidth { field: field@ },
        }
    }
}

impl LayoutErrorView {
    /// The human-readable description of the error.
    pub open spec fn message(self) -> Seq<char> {
        match self {
            LayoutErrorView::EmptyFieldName => "field name must not be empty"@,
            LayoutErrorView::InvalidFieldName { name } => "field name \""@ + name + "\" is invalid (cannot contain '.')"@,
            LayoutErrorView::ZeroWidth { name } => "field \""@ + name + "\" has zero width"@,
            LayoutErrorView::DuplicateName { name } => "duplicate field name \""@ + name + "\""@,
            LayoutErrorView::OverlappingFields { existing, new } => "field \""@ + new + "\" overlaps with \""@ + existing + "\""@,
            LayoutErrorView::ArithmeticOverflow => "layout size overflow"@,
            LayoutErrorView::UnknownSourceField { field, source } => "field \""@ + field + "\" references unknown source field \""@ + source + "\""@,
            LayoutErrorView::ForwardReference { field, source } => "field \""@ + field + "\" references source field \""@ + source + "\" which is declared after it"@,
            LayoutErrorView::VariableSourceField { field, source } => "field \""@ + field + "\" references source field \""@ + source + "\" which is itself variable-width"@,
            LayoutErrorView::SourceFieldTooWide { field, source, width } => "field \""@ + field + "\": source field \""@ + source + "\" is "@ + decimal(width) + " bits wide (max 64)"@,
            LayoutErrorView::InsufficientData { field, needed_bits, available_bits } => "cannot resolve field \""@ + field + "\": need "@ + decimal(needed_bits) + " bits but only "@ + decimal(available_bits) + " available"@,
            LayoutErrorView::ResolvedZeroWidth { field } => "field \""@ + field + "\" resolved to zero width"@,
        }
    }
}

impl LayoutError {
    /// Renders the error as text.
    pub fn to_string(&self) -> (r: String)
        ensures
            r@ == self@.message(),
    {
        let mut s = String::new();
        match self {
            LayoutError::EmptyFieldName => {
                push_str(&mut s, "field name must not be empty");
            },
            LayoutError::InvalidFieldName { name } => {
                push_str(&mut s, "field name \"");
                push_str(&mut s, name.as_str());
                push_str(&mut s, "\" is invalid (cannot contain '.')");
            },
            LayoutError::ZeroWidth { name } => {
                push_str(&mut s, "field \"");
                push_str(&mut s, name.as_str());
                push_str(&mut s, "\" has zero width");
            },
            LayoutError::DuplicateName { name } => {
                push_str(&mut s, "duplicate field name \"");
                push_str(&mut s, name.as_str());
                push_str(&mut s, "\"");
            },
            LayoutError::OverlappingFields { existing, new } => {
                push_str(&mut s, "field \"");
                push_str(&mut s, new.as_str());
                push_str(&mut s, "\" overlaps with \"");
                push_str(&mut s, existing.as_str());
                push_str(&mut s, "\"");
            },
            LayoutError::ArithmeticOverflow => {
                push_str(&mut s, "layout size overflow");
            },
            LayoutError::UnknownSourceField { field, source } => {
                push_str(&mut s, "field \"");
                push_str(&mut s, field.as_str());
                push_str(&mut s, "\" references unknown source field \"");
                push_str(&mut s, source.as_str());
                push_str(&mut s, "\"");
            },
            LayoutError::ForwardReference { field, source } => {
                push_str(&mut s, "field \"");
                push_str(&mut s, field.as_str());
                push_str(&mut s, "\" references source field \"");
                push_str(&mut s, source.as_str());
                push_str(&mut s, "\" which is declared after it");
            },
            LayoutError::VariableSourceField { field, source } => {
                push_str(&mut s, "field \"");
                push_str(&mut s, field.as_str());
                push_str(&mut s, "\" references source field \"");
                push_str(&mut s, source.as_str());
                push_str(&mut s, "\" which is itself variable-width");
            },
            LayoutError::SourceFieldTooWide { field, source, width } => {
                push_str(&mut s, "field \"");
                push_str(&mut s, field.as_str());
                push_str(&mut s, "\": source field \"");
                push_str(&mut s, source.as_str());
                push_str(&mut s, "\" is ");
                push_decimal(&mut s, *width as u128);
                push_str(&mut s, " bits wide (max 64)");
            },
            LayoutError::InsufficientData { field, needed_bits, available_bits } => {
                push_str(&mut s, "cannot resolve field \"");
                push_str(&mut s, field.as_str());
                push_str(&mut s, "\": need ");
                push_decimal(&mut s, *needed_bits as u128);
                push_str(&mut s, " bits but only ");
                push_decimal(&mut s, *available_bits as u128);
                push_str(&mut s, " available");
            },
            LayoutError::ResolvedZeroWidth { field } => {
                push_str(&mut s, "field \"");
                push_str(&mut s, field.as_str());
                push_str(&mut s, "\" resolved to zero width");
            },
        }
        s
    }
}

/// Convenience alias for layout operation results.
pub type LayoutResult<T> = Result<T, LayoutError>;

} // verus!
