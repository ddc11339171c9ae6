//! The text of the layout view: the field diagram's borders and labels,
//! the line of bits, and the details of the selected field. Drawing puts
//! this text on the screen, styled as each cell says.

use vstd::prelude::*;

use super::layout_view::{bit_of, context_of, format_of, selected, LayoutViewState, ViewSpec};
use crate::format::formatters::FieldFormatter;
use crate::format::FormatContext;
use crate::layout::model::path_lookup;
use crate::text::str_eq;
use crate::layout::model::FieldSpec;
use crate::layout::LayoutField;
use crate::text::{decimal, push_char, push_decimal, push_str};
use vstd::string::StrSliceExecFns;

verus! {

/// `n` spaces.
pub open spec fn spaces(n: nat) -> Seq<char> {
    Seq::new(n, |i: int| ' ')
}

/// `s` centred in `width` columns, as `{:^width$}` does: the padding is
/// split in two, the smaller half on the left.
pub open spec fn center_text(s: Seq<char>, width: nat) -> Seq<char> {
    if s.len() >= width {
        s
    } else {
        let pad = (width - s.len()) as nat;
        spaces(pad / 2) + s + spaces((pad - pad / 2) as nat)
    }
}

/// `c` repeated `n` times.
pub open spec fn repeat_char(c: char, n: nat) -> Seq<char> {
    Seq::new(n, |i: int| c)
}

/// The first `k` segments of a border: a run of `'─'` as wide as each box,
/// then `join` between boxes and `right` after the last.
pub open spec fn border_segments(widths: Seq<usize>, join: char, right: char, k: int) -> Seq<char>
    decreases k,
{
    if k <= 0 || k > widths.len() {
        Seq::empty()
    } else {
        border_segments(widths, join, right, k - 1) + repeat_char('─', widths[k - 1] as nat) + seq![
            if k < widths.len() {
                join
            } else {
                right
            },
        ]
    }
}

/// A border line of the diagram: two spaces, `left`, then the segments.
pub open spec fn border_text(widths: Seq<usize>, left: char, join: char, right: char) -> Seq<char> {
    "  "@ + seq![left] + border_segments(widths, join, right, widths.len() as int)
}

/// How a cell of the bit line is shown.
#[derive(Debug, Clone, Copy, PartialEq, Eq)]
pub enum CellStyle {
    /// An ordinary bit, or the gap between bytes.
    Plain,
    /// The mark between two fields.
    Boundary,
    /// The bit under the cursor.
    Cursor,
    /// A bit past the data, or padding after the layout.
    Unavailable,
    /// A bit of the field under the cursor.
    Selected,
}

/// One character of the bit line, with its style.
#[derive(Debug, Clone, Copy, PartialEq, Eq)]
pub struct Cell {
    pub text: char,
    pub style: CellStyle,
}

/// Some field starts at bit `b`.
pub open spec fn is_boundary(fs: Seq<FieldSpec>, b: nat) -> bool {
    exists|i: int| 0 <= i < fs.len() && #[trigger] fs[i].offset == b
}

/// The cells for bit `b`: the mark before it (a field boundary, else a gap
/// at a byte boundary; none before bit 0), then the bit itself: `'1'` or
/// `'0'` when it is among the first `readable`, else `'·'`.
pub open spec fn bit_cells_at(v: ViewSpec, b: nat, readable: nat) -> Seq<Cell> {
    let mark = if b == 0 {
        Seq::empty()
    } else if is_boundary(v.layout.fields, b) {
        seq![Cell { text: '│', style: CellStyle::Boundary }]
    } else if b % 8 == 0 {
        seq![Cell { text: ' ', style: CellStyle::Plain }]
    } else {
        Seq::empty()
    };
    let available = b < readable;
    let text = if !available {
        '·'
    } else if bit_of(v.data, b) == Some(true) {
        '1'
    } else {
        '0'
    };
    let style = if b == v.cursor_bit {
        CellStyle::Cursor
    } else if !available {
        CellStyle::Unavailable
    } else if (selected(v) matches Some(i) && v.layout.fields[i].contains(b)) {
        CellStyle::Selected
    } else {
        CellStyle::Plain
    };
    mark + seq![Cell { text, style }]
}

/// The cells of the first `n` bits.
pub open spec fn bit_cells_upto(v: ViewSpec, readable: nat, n: nat) -> Seq<Cell>
    decreases n,
{
    if n == 0 {
        Seq::empty()
    } else {
        bit_cells_upto(v, readable, (n - 1) as nat) + bit_cells_at(v, (n - 1) as nat, readable)
    }
}

/// The cells that pad bits `from` up to `to`: a gap at each byte boundary,
/// then `'·'`.
pub open spec fn padding_cells(from: nat, to: nat) -> Seq<Cell>
    decreases to - from,
{
    if from >= to {
        Seq::empty()
    } else {
        (if from > 0 && from % 8 == 0 {
            seq![Cell { text: ' ', style: CellStyle::Plain }]
        } else {
            Seq::empty()
        }) + seq![Cell { text: '·', style: CellStyle::Unavailable }] + padding_cells(
            from + 1,
            to,
        )
    }
}

/// The bit line: each bit of the layout, as far as the data goes, then
/// padding to a whole byte; empty for a layout of no bits.
pub open spec fn bit_line(v: ViewSpec) -> Seq<Cell> {
    let len = v.layout.bit_len;
    let readable = if len <= v.data.len() * 8 {
        len
    } else {
        v.data.len() * 8
    };
    if len == 0 {
        Seq::empty()
    } else {
        bit_cells_upto(v, readable, len) + padding_cells(len, ((len + 7) / 8) * 8)
    }
}

/// A field's place: `" (Offset: 8, Width: 16b, Range: [8, 24))"`.
pub open spec fn place_text(offset: nat, width: nat) -> Seq<char> {
    " (Offset: "@ + decimal(offset) + ", Width: "@ + decimal(width) + "b, Range: ["@ + decimal(
        offset,
    ) + ", "@ + decimal(offset + width) + "))"@
}

/// The cursor's bit: `"absolute=9  relative=1  value=0"`, with `?` for a
/// bit past the data.
pub open spec fn cursor_text(absolute: nat, relative: nat, value: Option<bool>) -> Seq<char> {
    "absolute="@ + decimal(absolute) + "  relative="@ + decimal(relative) + "  value="@ + match value {
        Some(true) => "1"@,
        Some(false) => "0"@,
        None => "?"@,
    }
}

/// A field's width and format: `"16b [hex]"`.
pub open spec fn width_format_text(width: nat, format: Seq<char>) -> Seq<char> {
    decimal(width) + "b ["@ + format + "]"@
}

fn push_repeat(s: &mut String, c: char, n: usize)
    ensures
        final(s)@ == old(s)@ + repeat_char(c, n as nat),
{
    let mut k: usize = 0;
    while k < n
        invariant
            k <= n,
            s@ == old(s)@ + repeat_char(c, k as nat),
        decreases n - k,
    {
        let ghost before = s@;
        push_char(s, c);
        proof {
            assert(repeat_char(c, (k + 1) as nat) =~= repeat_char(c, k as nat).push(c));
        }
        k = k + 1;
    }
}

/// `text` centred in `width` columns.
pub fn centered(text: &str, width: usize) -> (r: String)
    ensures
        r@ == center_text(text@, width as nat),
{
    let n = text.unicode_len();
    let mut out = String::new();
    if n >= width {
        push_str(&mut out, text);
        return out;
    }
    let pad = width - n;
    push_repeat(&mut out, ' ', pad / 2);
    push_str(&mut out, text);
    push_repeat(&mut out, ' ', pad - pad / 2);
    out
}

/// A border line of the diagram for boxes `widths` wide.
pub fn border(widths: &[usize], left: char, join: char, right: char) -> (r: String)
    ensures
        r@ == border_text(widths@, left, join, right),
{
    let mut out = String::new();
    push_str(&mut out, "  ");
    push_char(&mut out, left);
    let ghost start = out@;
    let mut i: usize = 0;
    while i < widths.len()
        invariant
            i <= widths@.len(),
            out@ == start + border_segments(widths@, join, right, i as int),
        decreases widths@.len() - i,
    {
        push_repeat(&mut out, '─', widths[i]);
        if i + 1 < widths.len() {
            push_char(&mut out, join);
        } else {
            push_char(&mut out, right);
        }
        proof {
            assert(out@ =~= start + border_segments(widths@, join, right, i + 1));
        }
        i = i + 1;
    }
    proof {
        assert(start == "  "@ + seq![left]);
        assert(out@ =~= border_text(widths@, left, join, right));
    }
    out
}

/// A field's place in the layout, as the details show it.
pub fn place(field: &LayoutField) -> (r: String)
    requires
        field@.end() <= usize::MAX,
    ensures
        r@ == place_text(field@.offset, field@.width()),
{
    let mut s = String::new();
    push_str(&mut s, " (Offset: ");
    push_decimal(&mut s, field.offset() as u128);
    push_str(&mut s, ", Width: ");
    push_decimal(&mut s, field.width() as u128);
    push_str(&mut s, "b, Range: [");
    push_decimal(&mut s, field.offset() as u128);
    push_str(&mut s, ", ");
    push_decimal(&mut s, field.end() as u128);
    push_str(&mut s, "))");
    s
}

/// The cursor's bit, as the details show it.
pub fn cursor_summary(absolute: usize, relative: usize, value: Option<bool>) -> (r: String)
    ensures
        r@ == cursor_text(absolute as nat, relative as nat, value),
{
    let mut s = String::new();
    push_str(&mut s, "absolute=");
    push_decimal(&mut s, absolute as u128);
    push_str(&mut s, "  relative=");
    push_decimal(&mut s, relative as u128);
    push_str(&mut s, "  value=");
    match value {
        Some(true) => push_str(&mut s, "1"),
        Some(false) => push_str(&mut s, "0"),
        None => push_str(&mut s, "?"),
    }
    s
}

/// A field's width and format, as the diagram shows it.
pub fn width_format(width: usize, format: &str) -> (r: String)
    ensures
        r@ == width_format_text(width as nat, format@),
{
    let mut s = String::new();
    push_decimal(&mut s, width as u128);
    push_str(&mut s, "b [");
    push_str(&mut s, format);
    push_str(&mut s, "]");
    s
}

impl LayoutViewState {
    /// Whether some field starts at bit `b`.
    fn starts_field(&self, b: usize) -> (r: bool)
        ensures
            r == is_boundary(self@.layout.fields, b as nat),
    {
        let fields = self.layout().fields();
        let mut i: usize = 0;
        while i < fields.len()
            invariant
                i <= fields@.len(),
                crate::layout::layout::views(fields@) == self@.layout.fields,
                forall|k: int| 0 <= k < i ==> #[trigger] self@.layout.fields[k].offset != b,
            decreases fields@.len() - i,
        {
            assert(self@.layout.fields[i as int] == fields@[i as int]@);
            if fields[i].offset() == b {
                assert(self@.layout.fields[i as int].offset == b);
                return true;
            }
            i = i + 1;
        }
        false
    }

    /// The cells of bit `b` of the bit line.
    fn cells_at(&self, b: usize, readable: usize, out: &mut Vec<Cell>)
        requires
            readable <= self@.data.len() * 8,
        ensures
            final(out)@ == old(out)@ + bit_cells_at(self@, b as nat, readable as nat),
    {
        let ghost v = self@;
        let ghost before = out@;
        if b > 0 {
            if self.starts_field(b) {
                out.push(Cell { text: '│', style: CellStyle::Boundary });
            } else if b % 8 == 0 {
                out.push(Cell { text: ' ', style: CellStyle::Plain });
            }
        }
        let ghost marked = out@;
        let available = b < readable;
        let text = if !available {
            '·'
        } else {
            match self.read_bit_value(b) {
                Some(true) => '1',
                _ => '0',
            }
        };
        let in_selected = match self.selected_field_index() {
            Some(i) => match self.layout().field(i) {
                Some(f) => f.contains(b),
                None => false,
            },
            None => false,
        };
        proof {
            crate::layout::model::lemma_bit_index(v.layout.fields, v.cursor_bit, 0);
        }
        let style = if b == self.cursor_bit() {
            CellStyle::Cursor
        } else if !available {
            CellStyle::Unavailable
        } else if in_selected {
            CellStyle::Selected
        } else {
            CellStyle::Plain
        };
        out.push(Cell { text, style });
        proof {
            assert(out@ =~= before + bit_cells_at(v, b as nat, readable as nat));
        }
    }

    /// The bit line: each bit of the layout, as far as the data goes, then
    /// padding to a whole byte.
    pub fn bit_cells(&self) -> (r: Vec<Cell>)
        ensures
            r@ == bit_line(self@),
    {
        let len = self.layout().bit_len();
        let mut out: Vec<Cell> = Vec::new();
        if len == 0 {
            return out;
        }
        let bytes = self.data().len();
        let need = len / 8 + if len % 8 != 0 {
            1
        } else {
            0
        };
        let readable: usize = if bytes >= need {
            len
        } else {
            bytes * 8
        };
        assert(readable == (if len <= self@.data.len() * 8 {
            len as nat
        } else {
            self@.data.len() * 8
        }));
        let mut b: usize = 0;
        while b < len
            invariant
                b <= len,
                len == self@.layout.bit_len,
                readable <= self@.data.len() * 8,
                out@ == bit_cells_upto(self@, readable as nat, b as nat),
            decreases len - b,
        {
            self.cells_at(b, readable, &mut out);
            b = b + 1;
        }
        let ghost body = out@;
        let padded: u128 = ((len as u128 + 7) / 8) * 8;
        let mut p: u128 = len as u128;
        while p < padded
            invariant
                len <= p <= padded,
                padded == ((len + 7) / 8) * 8,
                body + padding_cells(len as nat, padded as nat) == out@ + padding_cells(
                    p as nat,
                    padded as nat,
                ),
            decreases padded - p,
        {
            let ghost before = out@;
            if p > 0 && p % 8 == 0 {
                out.push(Cell { text: ' ', style: CellStyle::Plain });
            }
            out.push(Cell { text: '·', style: CellStyle::Unavailable });
            proof {
                assert(out@ + padding_cells((p + 1) as nat, padded as nat) =~= before
                    + padding_cells(p as nat, padded as nat));
            }
            p = p + 1;
        }
        proof {
            assert(out@ + padding_cells(p as nat, padded as nat) =~= out@);
        }
        out
    }
}

/// `label` is what the details show for formatter `f` on context `ctx`:
/// the formatter's name, `": "` and its text, and whether the id it
/// reports is `chosen`.
pub open spec fn format_label<A: FieldFormatter + ?Sized>(
    f: &A,
    ctx: &FormatContext,
    chosen: Seq<char>,
    label: (String, bool),
) -> bool {
    exists|name: &str, text: String, id: crate::format::FormatId|
        #![trigger call_ensures(A::name, (f,), name), call_ensures(A::format, (f, ctx), text), call_ensures(A::id, (f,), id)]
        call_ensures(A::name, (f,), name) && call_ensures(A::format, (f, ctx), text)
            && call_ensures(A::id, (f,), id) && label.0@ == name@ + ": "@ + text@ && label.1 == (
        id@ == chosen)
}

impl LayoutViewState {
    /// The label of every registered formatter for the field `path`, in
    /// registration order, with whether it is the format chosen for the
    /// field; none if no field has that path.
    pub fn format_labels(&self, path: &str) -> (r: Vec<(String, bool)>)
        ensures
            path_lookup(self@.layout, path@) is None ==> r@.len() == 0,
            path_lookup(self@.layout, path@) matches Some((f, abs)) ==> r@.len()
                == self@.formatters.len() && exists|c: FormatContext|
                c.model() == context_of(f, abs, self@.data) && forall|k: int|
                    0 <= k < r@.len() ==> format_label(
                        &*self@.formatters[k],
                        &c,
                        format_of(self@, path@),
                        #[trigger] r@[k],
                    ),
    {
        let ctx = match self.field_context(path) {
            Some(c) => c,
            None => {
                return Vec::new();
            },
        };
        let chosen = self.field_format(path);
        let formatters = self.format_registry().formatters();
        let mut out: Vec<(String, bool)> = Vec::new();
        let mut i: usize = 0;
        while i < formatters.len()
            invariant
                i <= formatters@.len(),
                formatters@ == self@.formatters,
                chosen@ == format_of(self@, path@),
                out@.len() == i,
                forall|k: int|
                    0 <= k < i ==> format_label(&*formatters@[k], &ctx, chosen@, #[trigger] out@[k]),
            decreases formatters@.len() - i,
        {
            let f = &formatters[i];
            let name = f.name();
            let text = f.format(&ctx);
            let id = f.id();
            let mut label = String::new();
            push_str(&mut label, name);
            push_str(&mut label, ": ");
            push_str(&mut label, text.as_str());
            let active = str_eq(id.as_str(), chosen.as_str());
            out.push((label, active));
            proof {
                assert(format_label(&**f, &ctx, chosen@, out@[i as int]));
            }
            i = i + 1;
        }
        proof {
            let (fld, abs) = path_lookup(self@.layout, path@).unwrap();
            assert(ctx.model() == context_of(fld, abs, self@.data));
        }
        out
    }
}

} // verus!
