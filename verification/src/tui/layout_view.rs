//! State of the layout view: the layout, its data, the cursor, the scroll
//! position, and the formats chosen globally and per field.

use vstd::prelude::*;

use crate::bit::stream::bits_of;
use crate::format::formatters::{formats_to, FieldFormatter};
use crate::format::registry::{builtins, lookup, lemma_lookup, next_position, FormatRegistry};
use crate::format::value::{extract_spec, opt_view, ContextSpec, ValueSpec};
use crate::format::{FormatContext, FormatId};
use crate::layout::layout::views;
use crate::layout::model::{
    bit_index, disjoint, lemma_bit_index, lemma_path_offset, path_lookup, sat_add, FieldSpec,
    LayoutSpec,
};
use crate::layout::{BitLayout, LayoutField};
use crate::text::{decimal, push_decimal, push_str, str_eq};
use vstd::utf8::encode_utf8;
use std::sync::Arc;

verus! {

/// The abstract form of a [`LayoutViewState`].
pub struct ViewSpec {
    pub layout: LayoutSpec,
    pub data: Seq<u8>,
    pub cursor_bit: nat,
    pub scroll_x: u16,
    /// The ids of the registered formats, in order.
    pub formats: Seq<Seq<char>>,
    /// The registered formatters, in the same order.
    pub formatters: Seq<Arc<dyn FieldFormatter>>,
    pub global_format: Seq<char>,
    /// Per-field format choices: field name and format id.
    pub overrides: Seq<(Seq<char>, Seq<char>)>,
}

/// The position of the first override for `name`, from `k` on.
pub open spec fn override_index(ov: Seq<(Seq<char>, Seq<char>)>, name: Seq<char>, k: int) -> Option<
    int,
>
    decreases ov.len() - k,
{
    if k < 0 || k >= ov.len() {
        None
    } else if ov[k].0 == name {
        Some(k)
    } else {
        override_index(ov, name, k + 1)
    }
}

/// `override_index` finds the first override for the name, or shows there is none.
pub proof fn lemma_override_index(ov: Seq<(Seq<char>, Seq<char>)>, name: Seq<char>, k: int)
    requires
        0 <= k,
    ensures
        match override_index(ov, name, k) {
            Some(i) => k <= i < ov.len() && ov[i].0 == name && forall|j: int|
                k <= j < i ==> #[trigger] ov[j].0 != name,
            None => forall|j: int| k <= j < ov.len() ==> #[trigger] ov[j].0 != name,
        },
    decreases ov.len() - k,
{
    if k < ov.len() && ov[k].0 != name {
        lemma_override_index(ov, name, k + 1);
    }
}

/// The format chosen for the field `name`: its own, or the global one.
pub open spec fn format_of(v: ViewSpec, name: Seq<char>) -> Seq<char> {
    match override_index(v.overrides, name, 0) {
        Some(i) => v.overrides[i].1,
        None => v.global_format,
    }
}

/// The overrides with `name` set to `id`: the entry for `name` replaced, or
/// a new entry at the end.
pub open spec fn with_override(
    ov: Seq<(Seq<char>, Seq<char>)>,
    name: Seq<char>,
    id: Seq<char>,
) -> Seq<(Seq<char>, Seq<char>)> {
    match override_index(ov, name, 0) {
        Some(i) => ov.update(i, (name, id)),
        None => ov.push((name, id)),
    }
}

/// The index of the field under the cursor.
pub open spec fn selected(v: ViewSpec) -> Option<int> {
    bit_index(v.layout.fields, v.cursor_bit, 0)
}

/// The cursor after moving to the next field.
pub open spec fn next_field_cursor(v: ViewSpec) -> nat {
    match selected(v) {
        Some(i) => if i + 1 < v.layout.fields.len() {
            v.layout.fields[i + 1].offset
        } else {
            v.cursor_bit
        },
        None => if v.layout.fields.len() > 0 {
            0
        } else {
            v.cursor_bit
        },
    }
}

/// The cursor after moving to the previous field.
pub open spec fn prev_field_cursor(v: ViewSpec) -> nat {
    match selected(v) {
        Some(i) => if i > 0 {
            v.layout.fields[i - 1].offset
        } else {
            v.cursor_bit
        },
        None => if v.layout.fields.len() > 0 {
            v.layout.fields.last().offset
        } else {
            v.cursor_bit
        },
    }
}

/// The cursor after moving to the next bit of the selected field.
pub open spec fn next_bit_cursor(v: ViewSpec) -> nat {
    match selected(v) {
        Some(i) => if v.cursor_bit + 1 < v.layout.fields[i].end() {
            v.cursor_bit + 1
        } else {
            v.cursor_bit
        },
        None => v.cursor_bit,
    }
}

/// The cursor after moving to the previous bit of the selected field.
pub open spec fn prev_bit_cursor(v: ViewSpec) -> nat {
    match selected(v) {
        Some(i) => if v.cursor_bit > v.layout.fields[i].offset {
            (v.cursor_bit - 1) as nat
        } else {
            v.cursor_bit
        },
        None => v.cursor_bit,
    }
}

/// The state after cycling the format of the field under the cursor.
pub open spec fn after_field_toggle(v: ViewSpec) -> ViewSpec {
    match selected(v) {
        Some(i) => if v.formats.len() > 0 {
            let name = v.layout.fields[i].name;
            let next = v.formats[next_position(v.formats, format_of(v, name))];
            ViewSpec { overrides: with_override(v.overrides, name, next), ..v }
        } else {
            v
        },
        None => v,
    }
}

/// The state after cycling the global format; the per-field choices are
/// dropped.
pub open spec fn after_global_toggle(v: ViewSpec) -> ViewSpec {
    if v.formats.len() > 0 {
        ViewSpec {
            global_format: v.formats[next_position(v.formats, v.global_format)],
            overrides: Seq::empty(),
            ..v
        }
    } else {
        v
    }
}

/// The value of bit `bit` of `data`, if it is there.
pub open spec fn bit_of(data: Seq<u8>, bit: nat) -> Option<bool> {
    if bit < data.len() * 8 {
        Some(bits_of(data)[bit as int])
    } else {
        None
    }
}

/// The columns a field takes in the diagram, from the byte lengths of its
/// name, of its width label (`"8b"`) and of its value text: the widest plus
/// 2, at least 4.
pub open spec fn visual_width(name_len: nat, label_len: nat, value_len: nat) -> nat {
    let m = if name_len >= label_len && name_len >= value_len {
        name_len
    } else if label_len >= value_len {
        label_len
    } else {
        value_len
    };
    let w = sat_add(m, 2);
    if w < 4 {
        4
    } else {
        w
    }
}

/// The length in bytes of the UTF-8 form of `s`, as `str::len` gives it.
pub open spec fn byte_len(s: Seq<char>) -> nat {
    encode_utf8(s).len() as usize as nat
}

/// The width label of a field `width` bits wide, such as `"8b"`.
pub open spec fn width_label(width: nat) -> Seq<char> {
    decimal(width) + "b"@
}

/// The column where the `k`-th box of the diagram starts.
pub open spec fn box_start(widths: Seq<usize>, k: int) -> nat
    decreases k,
{
    if k <= 0 {
        3
    } else {
        sat_add(sat_add(box_start(widths, k - 1), widths[k - 1] as nat), 1)
    }
}

/// The scroll position that shows box `selected` of a diagram whose boxes
/// are `widths` wide, in a window `visible` columns wide now scrolled to
/// `scroll`.
pub open spec fn scroll_to_show(widths: Seq<usize>, selected: nat, scroll: u16, visible: u16) -> u16 {
    if selected >= widths.len() {
        scroll
    } else {
        let pos = box_start(widths, selected as int);
        let end = sat_add(sat_add(pos, widths[selected as int] as nat), 1);
        if pos < scroll + 1 {
            (if pos >= 1 {
                pos - 1
            } else {
                0
            }) as u16
        } else if end > scroll + visible {
            (if end >= visible {
                end - visible
            } else {
                0
            }) as u16
        } else {
            scroll
        }
    }
}

/// The widths of the diagram's boxes for fields `fs` whose values read
/// `values`.
pub open spec fn box_widths(fs: Seq<FieldSpec>, values: Seq<Seq<char>>) -> Seq<usize> {
    Seq::new(
        fs.len(),
        |k: int|
            visual_width(
                byte_len(fs[k].name),
                byte_len(width_label(fs[k].width())),
                byte_len(values[k]),
            ) as usize,
    )
}

/// The characters of each text.
pub open spec fn text_views(texts: Seq<String>) -> Seq<Seq<char>> {
    texts.map_values(|t: String| t@)
}

/// The field under the cursor, or the first.
pub open spec fn selected_or_first(v: ViewSpec) -> nat {
    match selected(v) {
        Some(i) => i as nat,
        None => 0,
    }
}

/// The value a formatter is given for field `f` at absolute offset `abs`:
/// the value extracted from `data` (see [`extract_spec`]), when the data's
/// bits can be counted in `usize`.
pub open spec fn context_value(f: FieldSpec, abs: nat, data: Seq<u8>) -> Option<ValueSpec> {
    if data.len() * 8 <= usize::MAX {
        extract_spec(f, data, (abs - f.offset) as nat)
    } else {
        None
    }
}

/// What a formatter is given for field `f` at absolute offset `abs` of the
/// data `data`.
pub open spec fn context_of(f: FieldSpec, abs: nat, data: Seq<u8>) -> ContextSpec {
    ContextSpec {
        data,
        offset: abs,
        width: f.width(),
        value: context_value(f, abs, data),
        ty: Some(f.ty),
    }
}

/// The text of field `path` in the format chosen for it, where that can be
/// told: `"(invalid field)"` if no field has that path, `"(unknown format
/// X)"` if no formatter is registered under the chosen id `X`, and the
/// chosen formatter's text for the field when that formatter describes
/// itself; `None` when it does not.
pub open spec fn field_text(v: ViewSpec, path: Seq<char>) -> Option<Seq<char>> {
    match path_lookup(v.layout, path) {
        None => Some("(invalid field)"@),
        Some((f, abs)) => match lookup(v.formats, format_of(v, path), v.formats.len() as int) {
            None => Some("(unknown format "@ + format_of(v, path) + ")"@),
            Some(k) => if v.formatters[k].obeys_spec() {
                Some(v.formatters[k].format_spec(context_of(f, abs, v.data)))
            } else {
                None
            },
        },
    }
}

/// `t` is a text that formatting the field `path` can give: the one
/// [`field_text`] states, where it states one, and in any case a text that
/// the formatter registered last under the chosen id gives for the
/// field's context.
pub open spec fn shows_text(v: ViewSpec, path: Seq<char>, t: String) -> bool {
    &&& field_text(v, path) matches Some(x) ==> t@ == x
    &&& path_lookup(v.layout, path) matches Some((f, abs)) ==> (lookup(
        v.formats,
        format_of(v, path),
        v.formats.len() as int,
    ) matches Some(k) ==> exists|c: FormatContext|
        c.model() == context_of(f, abs, v.data) && #[trigger] formats_to(&*v.formatters[k], &c, t))
}

/// In disjoint fields, a bit inside field `i` selects field `i`.
proof fn lemma_selects(fs: Seq<FieldSpec>, bit: nat, i: int)
    requires
        disjoint(fs),
        0 <= i < fs.len(),
        fs[i].contains(bit),
    ensures
        bit_index(fs, bit, 0) == Some(i),
{
    lemma_bit_index(fs, bit, 0);
    match bit_index(fs, bit, 0) {
        Some(k) => {
            if k < i {
                assert(fs[k].is_fixed() && fs[i].is_fixed());
                assert(fs[k].overlaps(fs[i]));
            }
        },
        None => {},
    }
}

/// Choosing a format for a field is what that field then shows, and
/// changes no other field's format.
pub proof fn law_field_format_after_set(v: ViewSpec, name: Seq<char>, id: Seq<char>, other: Seq<char>)
    ensures
        format_of(ViewSpec { overrides: with_override(v.overrides, name, id), ..v }, name) == id,
        other != name ==> format_of(
            ViewSpec { overrides: with_override(v.overrides, name, id), ..v },
            other,
        ) == format_of(v, other),
{
    let w = with_override(v.overrides, name, id);
    lemma_override_index(v.overrides, name, 0);
    lemma_override_index(v.overrides, other, 0);
    lemma_override_index(w, name, 0);
    lemma_override_index(w, other, 0);
    match override_index(v.overrides, name, 0) {
        Some(i) => {
            assert(w[i].0 == name);
        },
        None => {
            assert(w[v.overrides.len() as int].0 == name);
        },
    }
    if other != name {
        match override_index(v.overrides, other, 0) {
            Some(i) => {
                assert(w[i] == v.overrides[i]);
            },
            None => {},
        }
        match override_index(w, other, 0) {
            Some(j) => {
                if j < v.overrides.len() {
                    assert(w[j].0 == v.overrides[j].0);
                }
            },
            None => {},
        }
    }
}

/// After the global format is cycled, every field shows the new global
/// format.
pub proof fn law_global_toggle_resets_fields(v: ViewSpec, name: Seq<char>)
    requires
        v.formats.len() > 0,
    ensures
        format_of(after_global_toggle(v), name) == after_global_toggle(v).global_format,
{
}

/// Moving to the next field selects the field after the selected one,
/// when that field has a width and the fields do not overlap.
pub proof fn law_next_field_selects_next(v: ViewSpec, i: int)
    requires
        disjoint(v.layout.fields),
        selected(v) == Some(i),
        i + 1 < v.layout.fields.len(),
        v.layout.fields[i + 1].width() > 0,
    ensures
        selected(ViewSpec { cursor_bit: next_field_cursor(v), ..v }) == Some(i + 1),
{
    lemma_bit_index(v.layout.fields, v.cursor_bit, 0);
    lemma_selects(v.layout.fields, v.layout.fields[i + 1].offset, i + 1);
}

/// Moving to the previous field selects the field before the selected one,
/// when that field has a width and the fields do not overlap.
pub proof fn law_prev_field_selects_prev(v: ViewSpec, i: int)
    requires
        disjoint(v.layout.fields),
        selected(v) == Some(i),
        i > 0,
        v.layout.fields[i - 1].width() > 0,
    ensures
        selected(ViewSpec { cursor_bit: prev_field_cursor(v), ..v }) == Some(i - 1),
{
    lemma_bit_index(v.layout.fields, v.cursor_bit, 0);
    lemma_selects(v.layout.fields, v.layout.fields[i - 1].offset, i - 1);
}

/// Moving between bits keeps the cursor in the selected field, when the
/// fields do not overlap.
pub proof fn law_bit_moves_stay_in_field(v: ViewSpec, i: int)
    requires
        disjoint(v.layout.fields),
        selected(v) == Some(i),
    ensures
        selected(ViewSpec { cursor_bit: next_bit_cursor(v), ..v }) == Some(i),
        selected(ViewSpec { cursor_bit: prev_bit_cursor(v), ..v }) == Some(i),
{
    lemma_bit_index(v.layout.fields, v.cursor_bit, 0);
    lemma_selects(v.layout.fields, next_bit_cursor(v), i);
    lemma_selects(v.layout.fields, prev_bit_cursor(v), i);
}

/// A bit inside some field selects a field.
proof fn lemma_some_field_selects(fs: Seq<FieldSpec>, bit: nat, i: int)
    requires
        0 <= i < fs.len(),
        fs[i].contains(bit),
    ensures
        bit_index(fs, bit, 0) is Some,
{
    lemma_bit_index(fs, bit, 0);
}

/// Every field is at least one bit wide.
pub open spec fn all_wide(fs: Seq<FieldSpec>) -> bool {
    forall|k: int| 0 <= k < fs.len() ==> #[trigger] fs[k].width() > 0
}

/// With the cursor at bit 0, no field is selected in a layout without
/// fields, and the first field is selected where it starts at bit 0 and
/// has a width.
pub proof fn law_start_selection(v: ViewSpec)
    requires
        v.cursor_bit == 0,
    ensures
        v.layout.fields.len() == 0 ==> selected(v) is None,
        v.layout.fields.len() > 0 && v.layout.fields[0].offset == 0 && v.layout.fields[0].width()
            > 0 ==> selected(v) == Some(0int),
{
}

/// Where every field has a width, the cursor stays on a field: moving to
/// the next or previous field or bit, and cycling a format, leave it on
/// one, and it lies before the end of the field it is on.
pub proof fn law_cursor_stays_on_field(v: ViewSpec)
    requires
        all_wide(v.layout.fields),
        selected(v) is Some,
    ensures
        selected(ViewSpec { cursor_bit: next_field_cursor(v), ..v }) is Some,
        selected(ViewSpec { cursor_bit: prev_field_cursor(v), ..v }) is Some,
        selected(ViewSpec { cursor_bit: next_bit_cursor(v), ..v }) is Some,
        selected(ViewSpec { cursor_bit: prev_bit_cursor(v), ..v }) is Some,
        selected(after_field_toggle(v)) == selected(v),
        selected(after_global_toggle(v)) == selected(v),
        selected(v) matches Some(i) && v.cursor_bit < v.layout.fields[i].end(),
{
    let fs = v.layout.fields;
    lemma_bit_index(fs, v.cursor_bit, 0);
    let i = selected(v).unwrap();
    if i + 1 < fs.len() {
        assert(fs[i + 1].width() > 0);
        lemma_some_field_selects(fs, fs[i + 1].offset, i + 1);
    }
    if i > 0 {
        assert(fs[i - 1].width() > 0);
        lemma_some_field_selects(fs, fs[i - 1].offset, i - 1);
    }
    lemma_some_field_selects(fs, next_bit_cursor(v), i);
    lemma_some_field_selects(fs, prev_bit_cursor(v), i);
}

/// State for the layout view in the TUI.
///
/// Tracks the layout, the raw data, the cursor position, the scroll
/// offset, the format registry, and the formats chosen per field and
/// globally.
pub struct LayoutViewState {
    layout: BitLayout,
    data: Vec<u8>,
    cursor_bit: usize,
    scroll_x: u16,
    format_registry: FormatRegistry,
    global_format: FormatId,
    field_formats: Vec<(String, FormatId)>,
}

/// The views of the per-field format choices.
pub open spec fn override_views(v: Seq<(String, FormatId)>) -> Seq<(Seq<char>, Seq<char>)> {
    v.map_values(|e: (String, FormatId)| (e.0@, e.1@))
}

impl View for LayoutViewState {
    type V = ViewSpec;

    closed spec fn view(&self) -> ViewSpec {
        ViewSpec {
            layout: self.layout@,
            data: self.data@,
            cursor_bit: self.cursor_bit as nat,
            scroll_x: self.scroll_x,
            formats: self.format_registry@,
            formatters: self.format_registry.entries(),
            global_format: self.global_format@,
            overrides: override_views(self.field_formats@),
        }
    }
}

/// Computes the columns a field takes in the diagram.
pub fn field_visual_width(field: &LayoutField, val_str: &str) -> (r: usize)
    ensures
        r == visual_width(
            byte_len(field@.name),
            byte_len(width_label(field@.width())),
            byte_len(val_str@),
        ),
{
    let name_len = field.name().len();
    let mut label = String::new();
    push_decimal(&mut label, field.width() as u128);
    push_str(&mut label, "b");
    let label_len = label.as_str().len();
    let val_len = val_str.len();
    let m = if name_len >= label_len && name_len >= val_len {
        name_len
    } else if label_len >= val_len {
        label_len
    } else {
        val_len
    };
    let w = m.saturating_add(2);
    if w < 4 {
        4
    } else {
        w
    }
}

/// The scroll position that shows box `selected` of a diagram whose boxes
/// are `widths` wide, in a window `visible_width` columns wide now scrolled
/// to `scroll_x`.
pub fn scroll_position(widths: &[usize], selected: usize, scroll_x: u16, visible_width: u16) -> (r:
    u16)
    ensures
        r == scroll_to_show(widths@, selected as nat, scroll_x, visible_width),
{
    if selected >= widths.len() {
        return scroll_x;
    }
    let mut pos: usize = 3;
    let mut i: usize = 0;
    while i < selected
        invariant
            selected < widths@.len(),
            i <= selected,
            pos == box_start(widths@, i as int),
        decreases selected - i,
    {
        pos = pos.saturating_add(widths[i]).saturating_add(1);
        i = i + 1;
    }
    let end = pos.saturating_add(widths[selected]).saturating_add(1);
    let vw = visible_width as usize;
    let sx = scroll_x as usize;
    if pos < sx + 1 {
        pos.saturating_sub(1) as u16
    } else if end > sx + vw {
        end.saturating_sub(vw) as u16
    } else {
        scroll_x
    }
}

impl LayoutViewState {
    /// The format registry.
    pub closed spec fn registry(self) -> FormatRegistry {
        self.format_registry
    }

    /// Creates a layout view of `layout` over `data` with the built-in
    /// formatters; the global format is the first of them (hex).
    pub fn new(layout: BitLayout, data: Vec<u8>) -> (r: Self)
        ensures
            r@ == (ViewSpec {
                layout: layout@,
                data: data@,
                cursor_bit: 0,
                scroll_x: 0,
                formats: seq!["hex"@, "dec"@, "bin"@, "oct"@, "ascii"@, "raw"@],
                formatters: r@.formatters,
                global_format: "hex"@,
                overrides: Seq::empty(),
            }),
            builtins(r@.formatters),
            layout@.fields.len() == 0 ==> selected(r@) is None,
            layout@.fields.len() > 0 && layout@.fields[0].offset == 0
                && layout@.fields[0].width() > 0 ==> selected(r@) == Some(0int),
    {
        let r = Self::with_registry(layout, data, FormatRegistry::with_builtins());
        proof {
            law_start_selection(r@);
        }
        r
    }

    /// Creates a layout view with a given format registry; the global format
    /// is the first registered one, or `"hex"` when there is none.
    pub fn with_registry(layout: BitLayout, data: Vec<u8>, format_registry: FormatRegistry) -> (r:
        Self)
        ensures
            r@ == (ViewSpec {
                layout: layout@,
                data: data@,
                cursor_bit: 0,
                scroll_x: 0,
                formats: format_registry@,
                formatters: format_registry.entries(),
                global_format: if format_registry@.len() > 0 {
                    format_registry@[0]
                } else {
                    "hex"@
                },
                overrides: Seq::empty(),
            }),
            r.registry() == format_registry,
    {
        let global_format = match format_registry.id_at(0) {
            Some(id) => id.clone(),
            None => FormatId::new("hex"),
        };
        let r = LayoutViewState {
            layout,
            data,
            cursor_bit: 0,
            scroll_x: 0,
            format_registry,
            global_format,
            field_formats: Vec::new(),
        };
        assert(override_views(r.field_formats@) =~= Seq::empty());
        r
    }

    /// The layout shown.
    pub fn layout(&self) -> (r: &BitLayout)
        ensures
            r@ == self@.layout,
    {
        &self.layout
    }

    /// The raw data shown.
    pub fn data(&self) -> (r: &[u8])
        ensures
            r@ == self@.data,
    {
        self.data.as_slice()
    }

    /// The bit under the cursor.
    pub fn cursor_bit(&self) -> (r: usize)
        ensures
            r == self@.cursor_bit,
    {
        self.cursor_bit
    }

    /// How far the view is scrolled, in columns.
    pub fn scroll_x(&self) -> (r: u16)
        ensures
            r == self@.scroll_x,
    {
        self.scroll_x
    }

    /// The format registry.
    pub fn format_registry(&self) -> (r: &FormatRegistry)
        ensures
            *r == self.registry(),
            r@ == self@.formats,
            r.entries() == self@.formatters,
    {
        &self.format_registry
    }

    /// The format registry, to change it.
    pub fn format_registry_mut(&mut self) -> (r: &mut FormatRegistry)
        ensures
            *r == old(self).registry(),
            final(self).registry() == *final(r),
            final(self)@ == (ViewSpec { formats: final(r)@, formatters: final(r).entries(), ..old(self)@ }),
    {
        &mut self.format_registry
    }

    /// The global format.
    pub fn global_format(&self) -> (r: &FormatId)
        ensures
            r@ == self@.global_format,
    {
        &self.global_format
    }

    /// Sets the global format.
    pub fn set_global_format(&mut self, format_id: FormatId)
        ensures
            final(self)@ == (ViewSpec { global_format: format_id@, ..old(self)@ }),
            final(self).registry() == old(self).registry(),
    {
        self.global_format = format_id;
    }

    /// The position of the format choice for `name`.
    fn override_position(&self, name: &str) -> (r: Option<usize>)
        ensures
            match r {
                Some(i) => override_index(self@.overrides, name@, 0) == Some(i as int),
                None => override_index(self@.overrides, name@, 0) is None,
            },
    {
        let ghost ov = self@.overrides;
        let mut i: usize = 0;
        while i < self.field_formats.len()
            invariant
                i <= self.field_formats@.len(),
                ov == override_views(self.field_formats@),
                override_index(ov, name@, 0) == override_index(ov, name@, i as int),
            decreases self.field_formats@.len() - i,
        {
            assert(ov[i as int] == (self.field_formats@[i as int].0@, self.field_formats@[i as int].1@));
            if str_eq(self.field_formats[i].0.as_str(), name) {
                return Some(i);
            }
            i = i + 1;
        }
        None
    }

    /// The format chosen for the field `name`: its own, or the global one.
    pub fn field_format(&self, name: &str) -> (r: &FormatId)
        ensures
            r@ == format_of(self@, name@),
    {
        proof {
            lemma_override_index(self@.overrides, name@, 0);
        }
        match self.override_position(name) {
            Some(i) => {
                assert(self@.overrides[i as int] == (
                    self.field_formats@[i as int].0@,
                    self.field_formats@[i as int].1@,
                ));
                &self.field_formats[i].1
            },
            None => &self.global_format,
        }
    }

    /// Chooses the format of the field `name`.
    pub fn set_field_format(&mut self, name: &str, format_id: FormatId)
        ensures
            final(self)@ == (ViewSpec {
                overrides: with_override(old(self)@.overrides, name@, format_id@),
                ..old(self)@
            }),
            final(self).registry() == old(self).registry(),
    {
        proof {
            lemma_override_index(self@.overrides, name@, 0);
        }
        let ghost before = self.field_formats@;
        match self.override_position(name) {
            Some(i) => {
                self.field_formats.set(i, (name.to_owned(), format_id));
                proof {
                    assert(override_views(self.field_formats@) =~= override_views(before).update(
                        i as int,
                        (name@, format_id@),
                    ));
                }
            },
            None => {
                self.field_formats.push((name.to_owned(), format_id));
                proof {
                    assert(override_views(self.field_formats@) =~= override_views(before).push(
                        (name@, format_id@),
                    ));
                }
            },
        }
    }

    /// The index of the field under the cursor.
    pub fn selected_field_index(&self) -> (r: Option<usize>)
        ensures
            match r {
                Some(i) => selected(self@) == Some(i as int),
                None => selected(self@) is None,
            },
            disjoint(self@.layout.fields),
    {
        self.layout.field_index_at_bit(self.cursor_bit)
    }

    /// Cycles the format of the field under the cursor to the next
    /// registered one.
    pub fn toggle_selected_field_format(&mut self)
        ensures
            final(self)@ == after_field_toggle(old(self)@),
            final(self).registry() == old(self).registry(),
    {
        if let Some(idx) = self.selected_field_index() {
            proof {
                lemma_bit_index(self@.layout.fields, self@.cursor_bit, 0);
            }
            let field = match self.layout.field(idx) {
                Some(f) => f,
                None => {
                    return;
                },
            };
            let name = field.name().to_owned();
            let current = self.field_format(name.as_str()).clone();
            if let Some(next) = self.format_registry.next_format_id(&current) {
                self.set_field_format(name.as_str(), next);
            }
        }
    }

    /// Cycles the global format to the next registered one, and drops the
    /// per-field choices so the whole layout shows the new global format.
    pub fn toggle_global_format(&mut self)
        ensures
            final(self)@ == after_global_toggle(old(self)@),
            final(self).registry() == old(self).registry(),
    {
        let current = self.global_format.clone();
        if let Some(next) = self.format_registry.next_format_id(&current) {
            self.global_format = next;
            self.field_formats = Vec::new();
            assert(override_views(self.field_formats@) =~= Seq::empty());
        }
    }

    /// Moves the cursor to the start of the next field; from outside every
    /// field, to bit 0.
    pub fn move_next_field(&mut self)
        ensures
            final(self)@ == (ViewSpec { cursor_bit: next_field_cursor(old(self)@), ..old(self)@ }),
            all_wide(old(self)@.layout.fields) && selected(old(self)@) is Some ==> selected(
                final(self)@,
            ) is Some,
            final(self).registry() == old(self).registry(),
            selected(old(self)@) matches Some(i) ==> (i + 1 < old(self)@.layout.fields.len()
                && old(self)@.layout.fields[i + 1].width() > 0 ==> selected(final(self)@) == Some(
                i + 1,
            )),
    {
        proof {
            if all_wide(self@.layout.fields) && selected(self@) is Some {
                law_cursor_stays_on_field(self@);
            }
        }
        proof {
            lemma_bit_index(self@.layout.fields, self@.cursor_bit, 0);
        }
        let n = self.layout.field_count();
        let sel = self.selected_field_index();
        proof {
            if let Some(i) = selected(self@) {
                if i + 1 < self@.layout.fields.len() && self@.layout.fields[i + 1].width() > 0 {
                    law_next_field_selects_next(self@, i);
                }
            }
        }
        match sel {
            Some(idx) => {
                if idx + 1 < n {
                    if let Some(f) = self.layout.field(idx + 1) {
                        self.cursor_bit = f.offset();
                    }
                }
            },
            None => {
                if !self.layout.is_empty() {
                    self.cursor_bit = 0;
                }
            },
        }
    }

    /// Moves the cursor to the start of the previous field; from outside
    /// every field, to the start of the last one.
    pub fn move_prev_field(&mut self)
        ensures
            final(self)@ == (ViewSpec { cursor_bit: prev_field_cursor(old(self)@), ..old(self)@ }),
            all_wide(old(self)@.layout.fields) && selected(old(self)@) is Some ==> selected(
                final(self)@,
            ) is Some,
            final(self).registry() == old(self).registry(),
            selected(old(self)@) matches Some(i) ==> (i > 0 && old(self)@.layout.fields[i
                - 1].width() > 0 ==> selected(final(self)@) == Some(i - 1)),
    {
        proof {
            if all_wide(self@.layout.fields) && selected(self@) is Some {
                law_cursor_stays_on_field(self@);
            }
        }
        proof {
            lemma_bit_index(self@.layout.fields, self@.cursor_bit, 0);
        }
        let sel = self.selected_field_index();
        proof {
            if let Some(i) = selected(self@) {
                if i > 0 && self@.layout.fields[i - 1].width() > 0 {
                    law_prev_field_selects_prev(self@, i);
                }
            }
        }
        match sel {
            Some(idx) => {
                if idx > 0 {
                    if let Some(f) = self.layout.field(idx - 1) {
                        self.cursor_bit = f.offset();
                    }
                }
            },
            None => {
                let n = self.layout.field_count();
                if n > 0 {
                    if let Some(f) = self.layout.field(n - 1) {
                        self.cursor_bit = f.offset();
                    }
                }
            },
        }
    }

    /// Moves the cursor to the next bit within the field under it.
    pub fn move_next_bit(&mut self)
        ensures
            final(self)@ == (ViewSpec { cursor_bit: next_bit_cursor(old(self)@), ..old(self)@ }),
            final(self).registry() == old(self).registry(),
            selected(final(self)@) == selected(old(self)@),
    {
        proof {
            lemma_bit_index(self@.layout.fields, self@.cursor_bit, 0);
        }
        let sel = self.selected_field_index();
        proof {
            if let Some(i) = selected(self@) {
                law_bit_moves_stay_in_field(self@, i);
            }
        }
        if let Some(idx) = sel {
            if let Some(field) = self.layout.field(idx) {
                if self.cursor_bit + 1 < field.end() {
                    self.cursor_bit = self.cursor_bit + 1;
                }
            }
        }
    }

    /// Moves the cursor to the previous bit within the field under it.
    pub fn move_prev_bit(&mut self)
        ensures
            final(self)@ == (ViewSpec { cursor_bit: prev_bit_cursor(old(self)@), ..old(self)@ }),
            final(self).registry() == old(self).registry(),
            selected(final(self)@) == selected(old(self)@),
    {
        proof {
            lemma_bit_index(self@.layout.fields, self@.cursor_bit, 0);
        }
        let sel = self.selected_field_index();
        proof {
            if let Some(i) = selected(self@) {
                law_bit_moves_stay_in_field(self@, i);
            }
        }
        if let Some(idx) = sel {
            if let Some(field) = self.layout.field(idx) {
                if self.cursor_bit > field.offset() {
                    self.cursor_bit = self.cursor_bit - 1;
                }
            }
        }
    }

    /// Reads the value of a single bit of the data; `None` if the bit is
    /// outside the data.
    pub fn read_bit_value(&self, bit_offset: usize) -> (r: Option<bool>)
        ensures
            r == bit_of(self@.data, bit_offset as nat),
    {
        if bit_offset / 8 >= self.data.len() {
            return None;
        }
        let byte = self.data[bit_offset / 8];
        let shift = (7 - bit_offset % 8) as u8;
        let v = (byte >> shift) & 1u8;
        proof {
            assert(bits_of(self@.data)[bit_offset as int] == ((self@.data[bit_offset as int / 8] >> ((7
                - (bit_offset as int % 8)) as u8)) & 1u8 == 1u8));
        }
        Some(v == 1)
    }

    /// What a formatter is given for the field `path`: the data, the
    /// field's absolute offset and width, its extracted value and its type.
    pub fn field_context(&self, path: &str) -> (r: Option<FormatContext<'_>>)
        ensures
            match path_lookup(self@.layout, path@) {
                None => r is None,
                Some((f, abs)) => r matches Some(ctx) && ctx.data@ == self@.data && ctx.offset
                    == abs && ctx.width == f.width() && opt_view(ctx.parsed_value) == context_value(
                    f,
                    abs,
                    self@.data,
                ) && ctx.ty() == Some(f.ty),
            },
    {
        let (field, abs) = match self.layout.find_by_path(path) {
            Some(found) => found,
            None => {
                return None;
            },
        };
        proof {
            lemma_path_offset(self@.layout, path@);
        }
        let parsed_value = if self.data.len() <= usize::MAX / 8 {
            crate::format::value::extract_at(field, self.data.as_slice(), abs - field.offset())
        } else {
            None
        };
        Some(
            FormatContext {
                data: self.data.as_slice(),
                offset: abs,
                width: field.width(),
                parsed_value,
                field_type: Some(field.field_type()),
            },
        )
    }

    /// Formats the value of the field `path` in the format chosen for it.
    ///
    /// `"(invalid field)"` if no field has that path, `"(unknown format X)"`
    /// if no formatter is registered under the chosen id `X`; otherwise what
    /// the formatter registered last under `X` gives for
    /// [`field_context`](Self::field_context), exactly as [`field_text`]
    /// states where that formatter describes itself (see [`shows_text`]).
    pub fn format_field_value(&self, path: &str) -> (r: String)
        ensures
            shows_text(self@, path@, r),
    {
        let ctx = match self.field_context(path) {
            Some(ctx) => ctx,
            None => {
                return "(invalid field)".to_owned();
            },
        };
        let format_id = self.field_format(path);
        let formatter = match self.format_registry.get(format_id) {
            Some(f) => f,
            None => {
                let mut s = String::new();
                push_str(&mut s, "(unknown format ");
                push_str(&mut s, format_id.as_str());
                push_str(&mut s, ")");
                return s;
            },
        };
        let r = formatter.format(&ctx);
        proof {
            assert(formats_to(&**formatter, &ctx, r));
            assert(ctx.model() == context_of(
                path_lookup(self@.layout, path@).unwrap().0,
                path_lookup(self@.layout, path@).unwrap().1,
                self@.data,
            ));
        }
        r
    }

    /// Adjusts the scroll position so that the field under the cursor (or
    /// the first field) is visible in a window `visible_width` columns wide.
    ///
    /// Each field's box is as wide as its name, width label and formatted
    /// value need ([`visual_width`]); the scroll position is then the one
    /// [`scroll_to_show`] gives. The formatted value of each field is its
    /// [`format_field_value`](Self::format_field_value), a text that
    /// [`shows_text`] allows. Nothing but the scroll position
    /// changes, and it is 0 for a layout without fields.
    pub fn ensure_cursor_visible(&mut self, visible_width: u16)
        ensures
            final(self)@ == (ViewSpec { scroll_x: final(self)@.scroll_x, ..old(self)@ }),
            old(self)@.layout.fields.len() == 0 ==> final(self)@.scroll_x == 0,
            old(self)@.layout.fields.len() > 0 ==> exists|texts: Seq<String>|
                texts.len() == old(self)@.layout.fields.len() && (forall|k: int|
                    0 <= k < texts.len() ==> shows_text(
                        old(self)@,
                        old(self)@.layout.fields[k].name,
                        #[trigger] texts[k],
                    )) && final(self)@.scroll_x == scroll_to_show(
                    #[trigger] box_widths(old(self)@.layout.fields, text_views(texts)),
                    selected_or_first(old(self)@),
                    old(self)@.scroll_x,
                    visible_width,
                ),
            final(self).registry() == old(self).registry(),
    {
        let n = self.layout.field_count();
        if n == 0 {
            self.scroll_x = 0;
            return;
        }
        let selected = match self.selected_field_index() {
            Some(i) => i,
            None => 0,
        };
        let ghost fs = self@.layout.fields;
        let ghost mut values: Seq<Seq<char>> = Seq::empty();
        let ghost mut texts: Seq<String> = Seq::empty();
        let mut widths: Vec<usize> = Vec::new();
        let mut i: usize = 0;
        while i < n
            invariant
                i <= n,
                n == self@.layout.fields.len(),
                fs == self@.layout.fields,
                widths@.len() == i,
                values.len() == i,
                forall|k: int|
                    0 <= k < i ==> #[trigger] widths@[k] == visual_width(
                        byte_len(fs[k].name),
                        byte_len(width_label(fs[k].width())),
                        byte_len(values[k]),
                    ),
                texts.len() == i,
                forall|k: int| 0 <= k < i ==> #[trigger] values[k] == texts[k]@,
                forall|k: int| 0 <= k < i ==> shows_text(self@, fs[k].name, #[trigger] texts[k]),
            decreases n - i,
        {
            if let Some(f) = self.layout.field(i) {
                let val = self.format_field_value(f.name());
                widths.push(field_visual_width(f, val.as_str()));
                proof {
                    values = values.push(val@);
                    texts = texts.push(val);
                }
            }
            i = i + 1;
        }
        proof {
            assert(widths@ =~= box_widths(fs, values));
            assert(values =~= text_views(texts));
        }
        self.scroll_x = scroll_position(widths.as_slice(), selected, self.scroll_x, visible_width);
    }
}

} // verus!
