//! The layout view: formats per field, values, scrolling, and its text.

use bpc::format::{FormatId, FormatRegistry, HexFormatter};
use bpc::layout::BitLayout;
use bpc::tui::layout_view::{field_visual_width, scroll_position};
use bpc::tui::render::{border, centered, cursor_summary, place, width_format, Cell, CellStyle};
use bpc::tui::LayoutViewState;

fn demo() -> LayoutViewState {
    let layout = BitLayout::builder().field("ver", 4).field("type", 4).build().unwrap();
    LayoutViewState::new(layout, vec![0xAB])
}

#[test]
fn set_field_format_is_read_back_and_keeps_others() {
    let mut view = demo();
    view.set_field_format("type", FormatId::new("bin"));
    assert_eq!(view.field_format("type").as_str(), "bin");
    assert_eq!(view.field_format("ver").as_str(), "hex");
    view.set_field_format("type", FormatId::new("oct"));
    assert_eq!(view.field_format("type").as_str(), "oct");
    assert_eq!(view.format_field_value("type"), "0o13");
}

#[test]
fn set_global_format_applies_to_fields_without_their_own() {
    let mut view = demo();
    view.set_global_format(FormatId::new("dec"));
    assert_eq!(view.field_format("ver").as_str(), "dec");
    assert_eq!(view.format_field_value("ver"), "10");
}

#[test]
fn format_field_value_errors() {
    let mut view = demo();
    assert_eq!(view.format_field_value("nope"), "(invalid field)");
    view.set_field_format("ver", FormatId::new("smart"));
    assert_eq!(view.format_field_value("ver"), "(unknown format smart)");
}

#[test]
fn empty_registry_falls_back_to_hex_id() {
    let layout = BitLayout::builder().field("x", 8).build().unwrap();
    let mut view = LayoutViewState::with_registry(layout, vec![1], FormatRegistry::new());
    assert_eq!(view.global_format().as_str(), "hex");
    assert_eq!(view.format_field_value("x"), "(unknown format hex)");
    view.toggle_global_format();
    assert_eq!(view.global_format().as_str(), "hex");
    view.format_registry_mut().register(HexFormatter);
    assert_eq!(view.format_registry().len(), 1);
    assert_eq!(view.format_field_value("x"), "0x01");
}

#[test]
fn field_context_of_a_nested_field() {
    let header = BitLayout::builder().field("source", 4).field("dest", 4).build().unwrap();
    let layout = BitLayout::builder()
        .field("version", 8)
        .field_layout("header", std::sync::Arc::new(header))
        .build()
        .unwrap();
    let view = LayoutViewState::new(layout, vec![0x01, 0x5A]);
    let ctx = view.field_context("header.dest").unwrap();
    assert_eq!(ctx.offset, 12);
    assert_eq!(ctx.width, 4);
    assert_eq!(ctx.numeric_value(), Some(0xA));
    assert!(view.field_context("header.none").is_none());
    assert_eq!(view.format_field_value("header.source"), "0x5");
}

#[test]
fn moving_outside_every_field() {
    let layout = BitLayout::builder().field_at("a", 4, 4).field_at("b", 8, 4).build().unwrap();
    let mut view = LayoutViewState::new(layout, vec![0, 0]);
    assert_eq!(view.selected_field_index(), None);
    view.move_next_field();
    assert_eq!(view.cursor_bit(), 0);
    view.move_prev_field();
    assert_eq!(view.cursor_bit(), 8);
    assert_eq!(view.selected_field_index(), Some(1));
    view.move_prev_field();
    assert_eq!(view.cursor_bit(), 4);
}

#[test]
fn toggle_field_format_twice_cycles_on() {
    let mut view = demo();
    view.toggle_selected_field_format();
    view.toggle_selected_field_format();
    assert_eq!(view.field_format("ver").as_str(), "bin");
    assert_eq!(view.format_field_value("ver"), "0b1010");
    view.toggle_global_format();
    assert_eq!(view.field_format("ver").as_str(), "dec");
}

#[test]
fn visual_width_and_scroll_position() {
    let layout = BitLayout::builder().field("version", 3).field("x", 16).build().unwrap();
    let f0 = layout.field(0).unwrap();
    let f1 = layout.field(1).unwrap();
    assert_eq!(field_visual_width(f0, "0x5"), 9);
    assert_eq!(field_visual_width(f1, "0x0000"), 8);
    assert_eq!(field_visual_width(f1, "é"), 5);
    let mut one = BitLayout::builder().field("a", 1).build().unwrap();
    assert_eq!(field_visual_width(one.field(0).unwrap(), ""), 4);
    one = BitLayout::builder().build().unwrap();
    assert!(one.field(0).is_none());

    // Boxes start at column 3, each followed by a separator column.
    assert_eq!(scroll_position(&[10, 10, 10], 0, 0, 20), 0);
    assert_eq!(scroll_position(&[10, 10, 10], 2, 0, 20), 16);
    assert_eq!(scroll_position(&[10, 10, 10], 1, 30, 20), 13);
    assert_eq!(scroll_position(&[10, 10, 10], 1, 5, 20), 5);
    assert_eq!(scroll_position(&[10, 10, 10], 3, 7, 20), 7);
}

#[test]
fn ensure_cursor_visible_scrolls_to_the_selected_field() {
    let mut b = BitLayout::builder();
    for i in 0..20 {
        b = b.field(&format!("field{i}"), 8);
    }
    let mut view = LayoutViewState::new(b.build().unwrap(), vec![0; 20]);
    view.ensure_cursor_visible(30);
    assert_eq!(view.scroll_x(), 0);
    for _ in 0..10 {
        view.move_next_field();
    }
    view.ensure_cursor_visible(30);
    // Ten boxes of 8 columns and their separators come before the selected
    // one, which is 9 columns wide ("field10").
    assert_eq!(view.scroll_x(), 3 + 10 * 9 + 9 + 1 - 30);

    let mut empty = LayoutViewState::new(BitLayout::builder().build().unwrap(), vec![]);
    empty.ensure_cursor_visible(30);
    assert_eq!(empty.scroll_x(), 0);
}

#[test]
fn centered_text_and_borders() {
    assert_eq!(centered("ab", 6), "  ab  ");
    assert_eq!(centered("ab", 5), " ab  ");
    assert_eq!(centered("abcdef", 3), "abcdef");
    assert_eq!(centered("é", 3), " é ");
    assert_eq!(border(&[3, 2], '┌', '┬', '┐'), "  ┌───┬──┐");
    assert_eq!(border(&[], '└', '┴', '┘'), "  └");
}

#[test]
fn detail_texts() {
    let layout = BitLayout::builder().field("a", 8).field("b", 16).build().unwrap();
    assert_eq!(place(layout.field(1).unwrap()), " (Offset: 8, Width: 16b, Range: [8, 24))");
    assert_eq!(cursor_summary(9, 1, Some(false)), "absolute=9  relative=1  value=0");
    assert_eq!(cursor_summary(30, 22, None), "absolute=30  relative=22  value=?");
    assert_eq!(width_format(16, "hex"), "16b [hex]");
}

fn texts(cells: &[Cell]) -> String {
    cells.iter().map(|c| c.text).collect()
}

#[test]
fn bit_line_marks_fields_bytes_and_missing_data() {
    let layout = BitLayout::builder().field("a", 3).field("b", 7).build().unwrap();
    let view = LayoutViewState::new(layout, vec![0b1010_0000]);
    let cells = view.bit_cells();
    assert_eq!(texts(&cells), "101│00000 ········");
    assert_eq!(cells[0].style, CellStyle::Cursor);
    assert_eq!(cells[1].style, CellStyle::Selected);
    assert_eq!(cells[3].style, CellStyle::Boundary);
    assert_eq!(cells[4].style, CellStyle::Plain);
    assert_eq!(cells[10].style, CellStyle::Unavailable);

    let empty = LayoutViewState::new(BitLayout::builder().build().unwrap(), vec![1]);
    assert!(empty.bit_cells().is_empty());
}

#[test]
fn format_labels_name_each_formatter_and_mark_the_chosen_one() {
    let layout = BitLayout::builder().field("x", 8).build().unwrap();
    let mut view = LayoutViewState::new(layout, vec![0xFF]);
    let labels = view.format_labels("x");
    assert_eq!(labels.len(), 6);
    assert_eq!(labels[0], ("Hex (0x): 0xFF".to_string(), true));
    assert_eq!(labels[1], ("Decimal: 255".to_string(), false));
    assert_eq!(labels[2], ("Binary (0b): 0b11111111".to_string(), false));
    assert_eq!(labels.iter().filter(|(_, active)| *active).count(), 1);

    view.toggle_selected_field_format();
    let labels = view.format_labels("x");
    assert!(!labels[0].1);
    assert!(labels[1].1);

    assert!(view.format_labels("missing").is_empty());
}
