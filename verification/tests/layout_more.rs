//! Layout errors, enumerations, nested paths and resolution edge cases.

use std::sync::Arc;

use bpc::layout::enum_def::{EnumDef, EnumVariant};
use bpc::layout::{BitLayout, BitRange, FieldWidth, LayoutError, LayoutField, LengthUnit};

#[test]
fn reject_source_wider_than_64_bits() {
    let err = BitLayout::builder()
        .field("len", 72)
        .field_var("data", "len", LengthUnit::Bits)
        .build()
        .unwrap_err();
    assert_eq!(
        err,
        LayoutError::SourceFieldTooWide { field: "data".into(), source: "len".into(), width: 72 }
    );
    assert_eq!(err.to_string(), "field \"data\": source field \"len\" is 72 bits wide (max 64)");
}

#[test]
fn reject_name_with_dot_before_zero_width() {
    let err = BitLayout::builder().field("a.b", 0).build().unwrap_err();
    assert_eq!(err, LayoutError::InvalidFieldName { name: "a.b".into() });
}

#[test]
fn reject_offset_past_usize() {
    let err = BitLayout::builder().field_at("far", usize::MAX, 2).build().unwrap_err();
    assert_eq!(err, LayoutError::ArithmeticOverflow);
    assert_eq!(err.to_string(), "layout size overflow");
}

#[test]
fn checks_run_in_order() {
    // A duplicate name is reported before an unknown source.
    let err = BitLayout::builder()
        .field("x", 8)
        .field("x", 8)
        .field_var("y", "nope", LengthUnit::Bits)
        .build()
        .unwrap_err();
    assert_eq!(err, LayoutError::DuplicateName { name: "x".into() });
    // The first overlapping pair is the one reported.
    let err = BitLayout::builder()
        .field_at("a", 0, 8)
        .field_at("b", 16, 8)
        .field_at("c", 4, 16)
        .build()
        .unwrap_err();
    assert_eq!(err, LayoutError::OverlappingFields { existing: "a".into(), new: "c".into() });
}

#[test]
fn error_messages_of_each_variant() {
    let m = |e: LayoutError| e.to_string();
    assert_eq!(
        m(LayoutError::InvalidFieldName { name: "a.b".into() }),
        "field name \"a.b\" is invalid (cannot contain '.')"
    );
    assert_eq!(
        m(LayoutError::UnknownSourceField { field: "d".into(), source: "s".into() }),
        "field \"d\" references unknown source field \"s\""
    );
    assert_eq!(
        m(LayoutError::ForwardReference { field: "d".into(), source: "s".into() }),
        "field \"d\" references source field \"s\" which is declared after it"
    );
    assert_eq!(
        m(LayoutError::VariableSourceField { field: "d".into(), source: "s".into() }),
        "field \"d\" references source field \"s\" which is itself variable-width"
    );
    assert_eq!(
        m(LayoutError::InsufficientData { field: "d".into(), needed_bits: 16, available_bits: 8 }),
        "cannot resolve field \"d\": need 16 bits but only 8 available"
    );
    assert_eq!(
        m(LayoutError::ResolvedZeroWidth { field: "d".into() }),
        "field \"d\" resolved to zero width"
    );
}

#[test]
fn enum_definition_errors() {
    let v = |n: &str, x: u64| EnumVariant { name: n.into(), value: x };
    assert_eq!(
        EnumDef::new("E", FieldWidth::Fixed(2), vec![v("a", 4)]).unwrap_err(),
        LayoutError::ArithmeticOverflow
    );
    assert_eq!(
        EnumDef::new("E", FieldWidth::Fixed(8), vec![v("a", 1), v("a", 2)]).unwrap_err(),
        LayoutError::DuplicateName { name: "a".into() }
    );
    assert_eq!(
        EnumDef::new("E", FieldWidth::Fixed(8), vec![v("a", 1), v("b", 1)]).unwrap_err(),
        LayoutError::DuplicateName { name: "value 1".into() }
    );
    let full = EnumDef::new("E", FieldWidth::Fixed(64), vec![v("max", u64::MAX)]).unwrap();
    assert_eq!(full.variant_value("max"), Some(u64::MAX));
    assert_eq!(full.name(), "E");
    assert_eq!(full.variant_value("min"), None);
    let wider = full.with_width(FieldWidth::Fixed(70));
    assert_eq!(wider.width(), &FieldWidth::Fixed(70));
    assert_eq!(wider.variant_name(u64::MAX), Some("max"));
}

#[test]
fn field_enum_with_derived_width_does_not_advance() {
    let e = EnumDef::new(
        "Dyn",
        FieldWidth::DerivedFrom { source_field: "len".into(), unit: LengthUnit::Bits },
        vec![],
    )
    .unwrap();
    let layout = BitLayout::builder()
        .field("len", 8)
        .field_enum("kind", Arc::new(e))
        .field_at("tail", 8, 8)
        .build()
        .unwrap();
    assert!(layout.has_variable_fields());
    assert_eq!(layout.field(1).unwrap().offset(), 8);
    assert_eq!(layout.field(1).unwrap().width(), 0);
    assert_eq!(layout.bit_len(), 16);
}

#[test]
fn find_by_path_misses() {
    let inner = BitLayout::builder().field("a", 4).build().unwrap();
    let layout = BitLayout::builder()
        .field("x", 4)
        .field_layout("in", Arc::new(inner))
        .build()
        .unwrap();
    assert!(layout.find_by_path("x.a").is_none());
    assert!(layout.find_by_path("in.b").is_none());
    assert!(layout.find_by_path("nope.a").is_none());
    assert!(layout.find_by_path("").is_none());
    let (f, abs) = layout.find_by_path("in.a").unwrap();
    assert_eq!((f.name(), abs), ("a", 4));
}

#[test]
fn nested_layout_fields_keep_order_and_clone() {
    let inner = BitLayout::builder().field("a", 4).field("b", 4).build().unwrap();
    let layout = BitLayout::builder()
        .field_layout("one", Arc::new(inner.clone()))
        .field_layout("two", Arc::new(inner))
        .build()
        .unwrap();
    let copy = layout.clone();
    assert_eq!(copy, layout);
    assert_eq!(copy.find_by_path("two.b").unwrap().1, 12);
    assert_eq!(copy.bit_len(), 16);
}

#[test]
fn resolve_insufficient_data_in_nested_layout() {
    let header = BitLayout::builder()
        .field("len", 8)
        .field_var("data", "len", LengthUnit::Bytes)
        .build()
        .unwrap();
    let packet = BitLayout::builder()
        .field("version", 8)
        .field_layout("header", Arc::new(header))
        .build()
        .unwrap();
    // The header's length field is at bits 8..16 of the data.
    assert_eq!(
        packet.resolve(&[1]).unwrap_err(),
        LayoutError::InsufficientData { field: "data".into(), needed_bits: 16, available_bits: 8 }
    );
}

#[test]
fn resolve_enum_keeps_variants() {
    let e = EnumDef::new(
        "Dyn",
        FieldWidth::DerivedFrom { source_field: "len".into(), unit: LengthUnit::Bits },
        vec![EnumVariant { name: "A".into(), value: 1 }],
    )
    .unwrap();
    let layout = BitLayout::builder()
        .field("len", 8)
        .field_enum("kind", Arc::new(e))
        .build()
        .unwrap();
    let resolved = layout.resolve(&[3, 0x20]).unwrap();
    let kind = resolved.field_by_name("kind").unwrap();
    assert_eq!(kind.width(), 3);
    assert_eq!(kind.offset(), 8);
    assert_eq!(resolved.bit_len(), 11);
}

#[test]
fn field_constructors() {
    let f = LayoutField::new("x", BitRange::new(4, 4));
    assert!(!f.is_variable());
    assert!(f.contains(7));
    assert!(!f.contains(8));
    let v = LayoutField::new_variable(
        "v",
        3,
        FieldWidth::DerivedFrom { source_field: "x".into(), unit: LengthUnit::Bytes },
    );
    assert!(v.is_variable());
    assert_eq!(v.width(), 0);
    assert!(!v.contains(3));
    assert_eq!(v.range(), BitRange::new(3, 0));
    assert_eq!(LengthUnit::Bytes.to_bits(0), 0);
}
