//! Bit ranges and layout fields: unit cases.

use bpc::layout::{BitRange, LayoutField};

#[test]
fn bit_range_basics() {
    let r = BitRange::new(3, 5);
    assert_eq!(r.offset(), 3);
    assert_eq!(r.width(), 5);
    assert_eq!(r.end(), 8);
}

#[test]
fn bit_range_contains_half_open() {
    let r = BitRange::new(3, 5);
    assert!(!r.contains(2));
    assert!(r.contains(3));
    assert!(r.contains(4));
    assert!(r.contains(7));
    assert!(!r.contains(8)); // exclusive end
}

#[test]
fn bit_range_contains_at_zero() {
    let r = BitRange::new(0, 3);
    assert!(r.contains(0));
    assert!(r.contains(2));
    assert!(!r.contains(3));
}

#[test]
fn bit_range_overlaps_partial() {
    let a = BitRange::new(0, 8);
    let b = BitRange::new(4, 8);
    assert!(a.overlaps(&b));
    assert!(b.overlaps(&a));
}

#[test]
fn bit_range_no_overlap_adjacent() {
    let a = BitRange::new(0, 8);
    let b = BitRange::new(8, 8);
    assert!(!a.overlaps(&b));
    assert!(!b.overlaps(&a));
}

#[test]
fn bit_range_no_overlap_gap() {
    let a = BitRange::new(0, 4);
    let b = BitRange::new(8, 4);
    assert!(!a.overlaps(&b));
}

#[test]
fn bit_range_overlap_exact() {
    let a = BitRange::new(0, 8);
    let b = BitRange::new(0, 8);
    assert!(a.overlaps(&b));
}

#[test]
fn field_layout_field_accessors() {
    let field = LayoutField::new("version", BitRange::new(0, 3));
    assert_eq!(field.name(), "version");
    assert_eq!(field.offset(), 0);
    assert_eq!(field.width(), 3);
    assert_eq!(field.end(), 3);
}

#[test]
fn layout_field_contains() {
    let field = LayoutField::new("opcode", BitRange::new(3, 5));
    assert!(!field.contains(2));
    assert!(field.contains(3));
    assert!(field.contains(7));
    assert!(!field.contains(8));
}

#[test]
fn layout_field_range_accessor() {
    let range = BitRange::new(10, 20);
    let field = LayoutField::new("data", range);
    assert_eq!(field.range(), range);
}
