//! Formatter outputs, extracted values, and the registry.

use std::sync::Arc;

use bpc::format::{
    extract_value, AsciiFormatter, BinFormatter, DecFormatter, FieldFormatter, FormatContext,
    FormatId, FormatRegistry, HexFormatter, OctFormatter, RawBitsFormatter, SmartFormatter, Value,
};
use bpc::layout::enum_def::{EnumDef, EnumVariant};
use bpc::layout::field::FieldType;
use bpc::layout::{BitLayout, FieldWidth};

fn ctx<'a>(data: &'a [u8], offset: usize, width: usize, v: Option<u64>) -> FormatContext<'a> {
    FormatContext {
        data,
        offset,
        width,
        parsed_value: v.map(Value::Primitive),
        field_type: None,
    }
}

#[test]
fn hex_pads_to_nibbles_and_at_least_one_digit() {
    let data = [0u8; 2];
    assert_eq!(HexFormatter.format(&ctx(&data, 0, 16, Some(0xA4))), "0x00A4");
    assert_eq!(HexFormatter.format(&ctx(&data, 0, 0, Some(0))), "0x0");
    assert_eq!(HexFormatter.format(&ctx(&data, 0, 9, Some(0x1F))), "0x01F");
}

#[test]
fn hex_without_value_past_data_is_unavailable() {
    let data = [0u8; 1];
    assert_eq!(HexFormatter.format(&ctx(&data, 4, 8, None)), "(unavailable)");
}

#[test]
fn dec_without_value_is_unavailable() {
    let data = [0u8; 1];
    assert_eq!(DecFormatter.format(&ctx(&data, 0, 8, None)), "(unavailable)");
    assert_eq!(DecFormatter.format(&ctx(&data, 0, 8, Some(u64::MAX))), "18446744073709551615");
}

#[test]
fn bin_pads_to_width() {
    let data = [0b1010_1111u8];
    assert_eq!(BinFormatter.format(&ctx(&data, 0, 6, Some(5))), "0b000101");
    assert_eq!(BinFormatter.format(&ctx(&data, 0, 0, Some(0))), "0b0");
    assert_eq!(BinFormatter.format(&ctx(&data, 2, 4, None)), "0b1011");
    assert_eq!(BinFormatter.format(&ctx(&data, 6, 4, None)), "(unavailable)");
}

#[test]
fn oct_pads_to_three_bit_digits() {
    let data = [0u8];
    assert_eq!(OctFormatter.format(&ctx(&data, 0, 9, Some(0o755))), "0o755");
    assert_eq!(OctFormatter.format(&ctx(&data, 0, 8, Some(7))), "0o007");
    assert_eq!(OctFormatter.format(&ctx(&data, 0, 8, None)), "(unavailable)");
}

#[test]
fn raw_bits_formatter() {
    let data = [0b1011_0010u8];
    assert_eq!(RawBitsFormatter.format(&ctx(&data, 0, 8, None)), "10110010");
    assert_eq!(RawBitsFormatter.format(&ctx(&data, 3, 3, Some(1))), "100");
    assert_eq!(RawBitsFormatter.format(&ctx(&data, 3, 6, None)), "(unavailable)");
    assert_eq!(RawBitsFormatter.format(&ctx(&data, 8, 0, None)), "");
}

#[test]
fn ascii_of_aligned_bytes_escapes_the_unprintable() {
    let data = [b'H', b'i', b' ', 0x00, 0x7F];
    assert_eq!(AsciiFormatter.format(&ctx(&data, 0, 40, None)), "\"Hi \\x00\\x7F\"");
    assert_eq!(AsciiFormatter.format(&ctx(&data, 8, 8, None)), "\"i\"");
}

#[test]
fn ascii_of_unaligned_field_uses_its_number() {
    let data = [0u8; 1];
    assert_eq!(AsciiFormatter.format(&ctx(&data, 3, 12, Some(0x4142))), "\"AB\"");
    assert_eq!(AsciiFormatter.format(&ctx(&data, 0, 16, Some(0x4142))), "\"AB\"");
    assert_eq!(AsciiFormatter.format(&ctx(&data, 0, 72, Some(0x41))), "\"\\x00\\x00\\x00\\x00\\x00\\x00\\x00A\"");
}

#[test]
fn smart_formatter_by_type() {
    let variants = vec![EnumVariant { name: "IPv4".into(), value: 4 }];
    let e = Arc::new(EnumDef::new("Proto", FieldWidth::Fixed(4), variants).unwrap());
    let ty = FieldType::Enum(e);
    let data = [0u8];
    let mut c = ctx(&data, 0, 4, Some(4));
    c.field_type = Some(&ty);
    assert_eq!(SmartFormatter.format(&c), "IPv4 (4)");
    c.parsed_value = Some(Value::Primitive(5));
    assert_eq!(SmartFormatter.format(&c), "5");
    c.parsed_value = None;
    assert_eq!(SmartFormatter.format(&c), "(unavailable)");

    let inner = BitLayout::builder().field("a", 12).build().unwrap();
    let nested = FieldType::Layout(Arc::new(inner));
    let mut c = ctx(&data, 0, 12, None);
    c.field_type = Some(&nested);
    assert_eq!(SmartFormatter.format(&c), "<nested layout: 12 bits>");

    let plain = ctx(&data, 0, 8, Some(0x2A));
    assert_eq!(SmartFormatter.format(&plain), "0x2A");
    assert_eq!(SmartFormatter.format_compact(&plain), "0x2A");
}

#[test]
fn formatter_ids_and_names() {
    assert_eq!(SmartFormatter.id(), FormatId::new("smart"));
    assert_eq!(SmartFormatter.name(), "Auto/Smart");
    assert_eq!(HexFormatter.name(), "Hex (0x)");
    assert_eq!(DecFormatter.name(), "Decimal");
    assert_eq!(BinFormatter.name(), "Binary (0b)");
    assert_eq!(OctFormatter.name(), "Octal (0o)");
    assert_eq!(AsciiFormatter.name(), "ASCII / Text");
    assert_eq!(RawBitsFormatter.name(), "Raw Bits");
    assert_eq!(RawBitsFormatter.id().as_str(), "raw");
}

#[test]
fn numeric_value_of_each_value_kind() {
    let data = [0u8];
    let mut c = ctx(&data, 0, 8, Some(9));
    assert_eq!(c.numeric_value(), Some(9));
    c.parsed_value = Some(Value::EnumVariant { value: 3, name: None });
    assert_eq!(c.numeric_value(), Some(3));
    c.parsed_value = Some(Value::Nested(vec![]));
    assert_eq!(c.numeric_value(), None);
    c.parsed_value = None;
    assert_eq!(c.numeric_value(), None);
}

#[test]
fn extract_primitive_enum_and_nested_values() {
    let variants = vec![EnumVariant { name: "On".into(), value: 1 }];
    let e = Arc::new(EnumDef::new("Switch", FieldWidth::Fixed(4), variants).unwrap());
    let header = BitLayout::builder().field("hi", 4).field("lo", 4).build().unwrap();
    let layout = BitLayout::builder()
        .field("a", 8)
        .field_enum("sw", e)
        .field_layout("hdr", Arc::new(header))
        .field("far", 64)
        .build()
        .unwrap();
    let data = [0xAB, 0x1F, 0xC3];

    assert_eq!(extract_value(layout.field(0).unwrap(), &data), Some(Value::Primitive(0xAB)));
    assert_eq!(
        extract_value(layout.field(1).unwrap(), &data),
        Some(Value::EnumVariant { value: 1, name: Some("On".to_string()) })
    );
    // The nested fields are read at their own offsets (bits 0 and 4).
    assert_eq!(
        extract_value(layout.field(2).unwrap(), &data),
        Some(Value::Nested(vec![
            ("hi".to_string(), Value::Primitive(0xA)),
            ("lo".to_string(), Value::Primitive(0xB)),
        ]))
    );
    // Past the end of the data.
    assert_eq!(extract_value(layout.field(3).unwrap(), &data), None);
}

#[test]
fn registry_registration_and_lookup() {
    let mut reg = FormatRegistry::new();
    assert!(reg.is_empty());
    assert!(reg.next_format_id(&FormatId::new("hex")).is_none());
    assert!(reg.prev_format_id(&FormatId::new("hex")).is_none());
    reg.register(HexFormatter);
    reg.register_arc(Arc::new(DecFormatter));
    assert_eq!(reg.len(), 2);
    assert_eq!(reg.formatters().len(), 2);
    assert_eq!(reg.get_by_index(1).unwrap().name(), "Decimal");
    assert!(reg.get_by_index(2).is_none());
    assert!(reg.get(&FormatId::new("oct")).is_none());
    // An unknown id counts as the first position.
    assert_eq!(reg.next_format_id(&FormatId::new("oct")).unwrap(), FormatId::new("dec"));
    assert_eq!(reg.prev_format_id(&FormatId::new("hex")).unwrap(), FormatId::new("dec"));
    let copy = reg.clone();
    assert_eq!(copy.len(), 2);
    assert_eq!(copy.get(&FormatId::new("dec")).unwrap().name(), "Decimal");
}

#[test]
fn registering_an_id_again_replaces_the_lookup() {
    let mut reg = FormatRegistry::with_builtins();
    reg.register(SmartFormatter);
    reg.register_arc(Arc::new(BinFormatter));
    assert_eq!(reg.len(), 8);
    // "bin" now finds the last registration, at position 7.
    assert_eq!(reg.next_format_id(&FormatId::new("bin")).unwrap(), FormatId::new("hex"));
    assert_eq!(reg.prev_format_id(&FormatId::new("bin")).unwrap(), FormatId::new("smart"));
}

#[test]
fn next_and_prev_are_inverse_over_builtins() {
    let reg = FormatRegistry::default();
    for id in ["hex", "dec", "bin", "oct", "ascii", "raw"] {
        let id = FormatId::new(id);
        let next = reg.next_format_id(&id).unwrap();
        assert_eq!(reg.prev_format_id(&next).unwrap(), id);
        let prev = reg.prev_format_id(&id).unwrap();
        assert_eq!(reg.next_format_id(&prev).unwrap(), id);
    }
    assert_eq!(reg.next_format_id(&FormatId::new("raw")).unwrap(), FormatId::new("hex"));
}

#[test]
fn format_id_from_string() {
    let id = FormatId::from("custom".to_string());
    assert_eq!(id.as_str(), "custom");
    assert_eq!(id.clone(), FormatId::new("custom"));
}

struct LoudHex;

impl FieldFormatter for LoudHex {
    fn id(&self) -> FormatId {
        FormatId::new("hex")
    }

    fn name(&self) -> &str {
        "Loud hex"
    }

    fn format(&self, _ctx: &FormatContext) -> String {
        "HEX!".to_string()
    }
}

#[test]
fn registering_an_id_again_shadows_the_earlier_formatter() {
    let mut reg = FormatRegistry::with_builtins();
    reg.register(LoudHex);
    assert_eq!(reg.len(), 7);
    assert_eq!(reg.get(&FormatId::new("hex")).unwrap().name(), "Loud hex");
    assert_eq!(reg.get(&FormatId::new("dec")).unwrap().name(), DecFormatter.name());
    assert_eq!(reg.formatters()[6].name(), "Loud hex");
}
