//! The formatter trait and the built-in formatters.

use vstd::prelude::*;

use super::value::{ContextSpec, FormatContext, FormatId};
use crate::bit::stream::bits_of;
use crate::layout::enum_def::index_of_value;
use crate::layout::field::{FieldType, TypeSpec};
use crate::layout::model::sat_add;
use crate::text::{
    decimal, digit_char, push_char, push_decimal, push_radix, push_str, radix_digits, zero_padded,
};

verus! {

/// Formats bit-field data into a human-readable representation.
///
/// A formatter may describe itself: where `obeys_spec` holds, `id` gives
/// `id_spec` and `format` gives `format_spec` of the context, functions of
/// the formatter and the context alone. Every formatter of this library
/// does; an implementation that says nothing promises nothing.
pub trait FieldFormatter: Send + Sync {
    /// Whether `id` and `format` give what `id_spec` and `format_spec` say.
    open spec fn obeys_spec(&self) -> bool {
        false
    }

    /// The identifier `id` gives, where `obeys_spec` holds.
    open spec fn id_spec(&self) -> Seq<char> {
        Seq::empty()
    }

    /// The text `format` gives for a context, where `obeys_spec` holds.
    open spec fn format_spec(&self, ctx: ContextSpec) -> Seq<char> {
        Seq::empty()
    }

    /// Unique identifier for this formatter (e.g. "hex", "dec", "bin", "oct", "ascii").
    fn id(&self) -> (r: FormatId)
        ensures
            self.obeys_spec() ==> r@ == self.id_spec(),
    ;

    /// Human-friendly display label (e.g. "Hexadecimal", "Decimal", "Binary", "ASCII").
    fn name(&self) -> &str;

    /// Formats the field for display.
    fn format(&self, ctx: &FormatContext) -> (r: String)
        ensures
            self.obeys_spec() ==> r@ == self.format_spec(ctx.model()),
    ;

    /// Formats a compact representation suitable for table or diagram labels.
    ///
    /// Unless a formatter overrides it, this is what `format` gives for the
    /// same context.
    fn format_compact(&self, ctx: &FormatContext) -> (r: String)
        default_ensures
            call_ensures(Self::format, (self, ctx), r),
    {
        self.format(ctx)
    }
}

/// `r` is a text that `f.format(ctx)` can give.
pub open spec fn formats_to<A: FieldFormatter + ?Sized>(f: &A, ctx: &FormatContext, r: String) -> bool {
    call_ensures(A::format, (f, ctx), r)
}

// ---------------------------------------------------------------------------
// What each formatter writes
// ---------------------------------------------------------------------------

/// `n`, but at least 1.
pub open spec fn at_least_one(n: nat) -> nat {
    if n == 0 {
        1
    } else {
        n
    }
}

/// The characters `'1'` and `'0'` for the `width` bits of `data` from bit
/// `offset`, when they are all there.
pub open spec fn bits_text(data: Seq<u8>, offset: nat, width: nat) -> Option<Seq<char>> {
    if offset + width > data.len() * 8 {
        None
    } else {
        Some(
            Seq::new(
                width,
                |i: int|
                    if bits_of(data)[offset + i] {
                        '1'
                    } else {
                        '0'
                    },
            ),
        )
    }
}

/// The text shown when there is nothing to format.
pub open spec fn unavailable() -> Seq<char> {
    "(unavailable)"@
}

/// Hexadecimal: `0x` and upper-case digits, zero-padded to one digit per
/// four bits of the field; without a number, the raw bits.
pub open spec fn hex_text(data: Seq<u8>, offset: nat, width: nat, num: Option<u64>) -> Seq<char> {
    match num {
        Some(v) => "0x"@ + zero_padded(
            radix_digits(v as nat, 16, true),
            at_least_one(sat_add(width, 3) / 4),
        ),
        None => match bits_text(data, offset, width) {
            Some(b) => "(raw: "@ + b + ")"@,
            None => unavailable(),
        },
    }
}

/// The value of an upper-case hexadecimal digit.
pub open spec fn hex_digit_value(c: char) -> Option<nat> {
    let n = c as nat;
    if 48 <= n <= 57 {
        Some((n - 48) as nat)
    } else if 65 <= n <= 70 {
        Some((n - 55) as nat)
    } else {
        None
    }
}

/// The number that upper-case hexadecimal digits spell, most significant
/// first; `None` if some character is not such a digit.
pub open spec fn hex_value(s: Seq<char>) -> Option<nat>
    decreases s.len(),
{
    if s.len() == 0 {
        Some(0)
    } else {
        match (hex_value(s.drop_last()), hex_digit_value(s.last())) {
            (Some(a), Some(d)) => Some(a * 16 + d),
            _ => None,
        }
    }
}

proof fn lemma_hex_digit(d: nat)
    requires
        d < 16,
    ensures
        hex_digit_value(digit_char(d, true)) == Some(d),
        d > 0 ==> digit_char(d, true) != '0',
{
}

proof fn lemma_hex_value_digits(v: nat)
    ensures
        hex_value(radix_digits(v, 16, true)) == Some(v),
        radix_digits(v, 16, true).len() >= 1,
        v >= 16 ==> radix_digits(v, 16, true).len() >= 2,
        radix_digits(v, 16, true).len() >= 2 ==> radix_digits(v, 16, true)[0] != '0',
    decreases v,
{
    if v < 16 {
        lemma_hex_digit(v);
        assert(radix_digits(v, 16, true).drop_last() =~= Seq::<char>::empty());
        assert(hex_value(Seq::<char>::empty()) == Some(0nat));
        assert(radix_digits(v, 16, true).last() == digit_char(v, true));
    } else {
        lemma_hex_value_digits(v / 16);
        lemma_hex_digit(v % 16);
        vstd::arithmetic::div_mod::lemma_fundamental_div_mod(v as int, 16);
        assert(v / 16 >= 1) by (nonlinear_arith)
            requires
                v >= 16,
        ;
        let s = radix_digits(v, 16, true);
        assert(s == radix_digits(v / 16, 16, true).push(digit_char(v % 16, true)));
        assert(s.drop_last() =~= radix_digits(v / 16, 16, true));
        assert(s.last() == digit_char(v % 16, true));
        assert(hex_value(s) == Some((v / 16) * 16 + v % 16));
        assert(v == (v / 16) * 16 + v % 16) by (nonlinear_arith)
            requires
                v == 16 * (v / 16) + v % 16,
        ;
        assert(s[0] == radix_digits(v / 16, 16, true)[0]);
        if v / 16 < 16 {
            lemma_hex_digit(v / 16);
        }
    }
}

proof fn lemma_hex_leading_zeros(m: nat, s: Seq<char>)
    ensures
        hex_value(Seq::new(m, |i: int| '0') + s) == hex_value(s),
    decreases s.len(),
{
    let z = Seq::new(m, |i: int| '0');
    if s.len() == 0 {
        assert(z + s =~= z);
        lemma_hex_zeros(m);
    } else {
        lemma_hex_leading_zeros(m, s.drop_last());
        assert((z + s).drop_last() =~= z + s.drop_last());
    }
}

proof fn lemma_hex_zeros(m: nat)
    ensures
        hex_value(Seq::new(m, |i: int| '0')) == Some(0nat),
    decreases m,
{
    if m > 0 {
        lemma_hex_zeros((m - 1) as nat);
        assert(Seq::new(m, |i: int| '0').drop_last() =~= Seq::new((m - 1) as nat, |i: int| '0'));
    }
}

/// Law: the hexadecimal text of a number is `0x` followed by upper-case
/// digits that spell the whole number, as many as one per four bits of
/// the field's width (at least one), and more only when the number needs
/// them, with no leading zero then.
pub proof fn law_hex_text_spells_the_value(data: Seq<u8>, offset: nat, width: nat, v: u64)
    ensures
        ({
            let t = hex_text(data, offset, width, Some(v));
            let d = t.skip(2);
            let n = (if width + 3 <= usize::MAX {
                width + 3
            } else {
                usize::MAX as nat
            }) / 4;
            let pad = if n == 0 {
                1
            } else {
                n
            };
            &&& t.len() >= 2
            &&& t.take(2) == "0x"@
            &&& hex_value(d) == Some(v as nat)
            &&& d.len() >= pad
            &&& d.len() > pad ==> d[0] != '0'
        }),
{
    reveal_strlit("0x");
    let digits = radix_digits(v as nat, 16, true);
    lemma_hex_value_digits(v as nat);
    let pad = at_least_one(sat_add(width, 3) / 4);
    let t = hex_text(data, offset, width, Some(v));
    let z = zero_padded(digits, pad);
    assert(t == "0x"@ + z);
    assert(t.skip(2) =~= z);
    assert(t.take(2) =~= "0x"@);
    if digits.len() < pad {
        lemma_hex_leading_zeros((pad - digits.len()) as nat, digits);
    }
}

/// Unsigned decimal.
pub open spec fn dec_text(num: Option<u64>) -> Seq<char> {
    match num {
        Some(v) => decimal(v as nat),
        None => unavailable(),
    }
}

/// Binary: `0b` and the digits zero-padded to the field's width; without a
/// number, `0b` and the raw bits.
pub open spec fn bin_text(data: Seq<u8>, offset: nat, width: nat, num: Option<u64>) -> Seq<char> {
    match num {
        Some(v) => "0b"@ + zero_padded(radix_digits(v as nat, 2, false), at_least_one(width)),
        None => match bits_text(data, offset, width) {
            Some(b) => "0b"@ + b,
            None => unavailable(),
        },
    }
}

/// Octal: `0o` and the digits zero-padded to one digit per three bits.
pub open spec fn oct_text(width: nat, num: Option<u64>) -> Seq<char> {
    match num {
        Some(v) => "0o"@ + zero_padded(
            radix_digits(v as nat, 8, false),
            at_least_one(sat_add(width, 2) / 3),
        ),
        None => unavailable(),
    }
}

/// Raw bits, or the unavailable text.
pub open spec fn raw_text(data: Seq<u8>, offset: nat, width: nat) -> Seq<char> {
    match bits_text(data, offset, width) {
        Some(b) => b,
        None => unavailable(),
    }
}

/// A printable ASCII byte: a graphic character or the space.
pub open spec fn printable(b: u8) -> bool {
    0x20 <= b <= 0x7e
}

/// One byte as text: itself when printable, else `\xHH`.
pub open spec fn escape(b: u8) -> Seq<char> {
    if printable(b) {
        seq![b as char]
    } else {
        "\\x"@ + zero_padded(radix_digits(b as nat, 16, true), 2)
    }
}

/// Bytes as text, each escaped.
pub open spec fn escaped(bs: Seq<u8>) -> Seq<char>
    decreases bs.len(),
{
    if bs.len() == 0 {
        Seq::empty()
    } else {
        escaped(bs.drop_last()) + escape(bs.last())
    }
}

/// Byte `k` (0 the most significant) of the big-endian form of `v`.
pub open spec fn be_byte(v: u64, k: int) -> u8 {
    ((v >> ((8 * (7 - k)) as u64)) & 0xff) as u8
}

/// The last `n` bytes (at most 8) of the big-endian form of `v`.
pub open spec fn low_bytes(v: u64, n: nat) -> Seq<u8> {
    let start: int = if n >= 8 {
        0
    } else {
        8 - n
    };
    Seq::new((8 - start) as nat, |j: int| be_byte(v, start + j))
}

/// ASCII text in quotes: the field's bytes when it is byte-aligned and in
/// the data, else the bytes of its number (as many as the width needs).
pub open spec fn ascii_text(data: Seq<u8>, offset: nat, width: nat, num: Option<u64>) -> Seq<
    char,
> {
    if width % 8 == 0 && offset % 8 == 0 && offset / 8 + width / 8 <= data.len() {
        "\""@ + escaped(data.subrange((offset / 8) as int, (offset / 8 + width / 8) as int))
            + "\""@
    } else {
        match num {
            Some(v) => "\""@ + escaped(low_bytes(v, (width + 7) / 8)) + "\""@,
            None => unavailable(),
        }
    }
}

/// Adapts to the field's type: an enumeration shows its variant name and
/// number, a nested layout its length, anything else is hexadecimal.
pub open spec fn smart_text(
    ty: Option<TypeSpec>,
    data: Seq<u8>,
    offset: nat,
    width: nat,
    num: Option<u64>,
) -> Seq<char> {
    match ty {
        Some(TypeSpec::Enum(e)) => match num {
            Some(v) => match index_of_value(e.variants, v, 0) {
                Some(i) => e.variants[i].0 + " ("@ + decimal(v as nat) + ")"@,
                None => decimal(v as nat),
            },
            None => unavailable(),
        },
        Some(TypeSpec::Layout(l)) => "<nested layout: "@ + decimal(l.bit_len) + " bits>"@,
        _ => hex_text(data, offset, width, num),
    }
}

impl<'a> FormatContext<'a> {
    /// The field type's abstract form, if any.
    pub open spec fn ty(&self) -> Option<TypeSpec> {
        match self.field_type {
            Some(t) => Some(t@),
            None => None,
        }
    }
}

// ---------------------------------------------------------------------------
// Helpers
// ---------------------------------------------------------------------------

fn unavailable_string() -> (r: String)
    ensures
        r@ == unavailable(),
{
    "(unavailable)".to_owned()
}

/// The raw bits of `data` from `offset`, `width` of them, as `'1'`/`'0'`.
fn extract_bits_string(data: &[u8], offset: usize, width: usize) -> (r: Option<String>)
    ensures
        match bits_text(data@, offset as nat, width as nat) {
            Some(b) => r matches Some(s) && s@ == b,
            None => r is None,
        },
{
    let avail: u128 = data.len() as u128 * 8;
    if offset as u128 + width as u128 > avail {
        return None;
    }
    let ghost bits = bits_of(data@);
    let mut out = String::new();
    let mut i: usize = 0;
    while i < width
        invariant
            offset + width <= data@.len() * 8,
            bits == bits_of(data@),
            i <= width,
            out@ == Seq::new(
                i as nat,
                |k: int|
                    if bits[offset + k] {
                        '1'
                    } else {
                        '0'
                    },
            ),
        decreases width - i,
    {
        let pos: u128 = offset as u128 + i as u128;
        let byte = data[(pos / 8) as usize];
        let shift = (7 - pos % 8) as u8;
        let v = (byte >> shift) & 1u8;
        let ghost before = out@;
        if v == 1 {
            push_char(&mut out, '1');
        } else {
            push_char(&mut out, '0');
        }
        proof {
            assert(bits[pos as int] == ((data@[pos as int / 8] >> ((7 - (pos as int % 8)) as u8)) & 1u8 == 1u8));
            assert(out@ =~= Seq::new(
                (i + 1) as nat,
                |k: int|
                    if bits[offset + k] {
                        '1'
                    } else {
                        '0'
                    },
            ));
        }
        i = i + 1;
    }
    Some(out)
}

/// Appends one byte as text.
fn push_escaped(s: &mut String, b: u8)
    ensures
        final(s)@ == old(s)@ + escape(b),
{
    if 0x20 <= b && b <= 0x7e {
        push_char(s, b as char);
        assert(seq![b as char] =~= seq![b as char]);
    } else {
        push_str(s, "\\x");
        push_radix(s, b as u128, 16, 2, true);
    }
}

/// The bytes `data[start..start + len]` escaped and in quotes.
fn quoted_bytes(data: &[u8], start: usize, len: usize) -> (r: String)
    requires
        start + len <= data@.len(),
    ensures
        r@ == "\""@ + escaped(data@.subrange(start as int, start + len)) + "\""@,
{
    let ghost bs = data@.subrange(start as int, start + len);
    let n = data.len();
    let mut out = String::new();
    push_str(&mut out, "\"");
    let ghost open_quote = out@;
    let mut j: usize = 0;
    while j < len
        invariant
            start + len <= data@.len(),
            n == data@.len(),
            bs == data@.subrange(start as int, start + len),
            j <= len,
            out@ == open_quote + escaped(bs.take(j as int)),
        decreases len - j,
    {
        let b = data[start + j];
        push_escaped(&mut out, b);
        proof {
            assert(bs.take(j + 1).drop_last() =~= bs.take(j as int));
            assert(bs.take(j + 1).last() == b);
        }
        j = j + 1;
    }
    proof {
        assert(bs.take(len as int) =~= bs);
    }
    push_str(&mut out, "\"");
    out
}

/// The last `n` bytes of the big-endian form of `v`, escaped and in quotes.
fn quoted_low_bytes(v: u64, n: usize) -> (r: String)
    ensures
        r@ == "\""@ + escaped(low_bytes(v, n as nat)) + "\""@,
{
    let start: usize = if n >= 8 {
        0
    } else {
        8 - n
    };
    let ghost bs = low_bytes(v, n as nat);
    let mut out = String::new();
    push_str(&mut out, "\"");
    let ghost open_quote = out@;
    let mut k: usize = start;
    while k < 8
        invariant
            start <= k <= 8,
            start == (if n >= 8 {
                0
            } else {
                8 - n
            }),
            bs == low_bytes(v, n as nat),
            out@ == open_quote + escaped(bs.take(k - start)),
        decreases 8 - k,
    {
        let b = ((v >> (8 * (7 - k) as u64)) & 0xff) as u8;
        push_escaped(&mut out, b);
        proof {
            assert(bs.take(k - start + 1).drop_last() =~= bs.take(k - start));
            assert(bs.take(k - start + 1).last() == b);
        }
        k = k + 1;
    }
    proof {
        assert(bs.take(8 - start) =~= bs);
    }
    push_str(&mut out, "\"");
    out
}

fn hex_string(ctx: &FormatContext) -> (r: String)
    ensures
        r@ == hex_text(ctx.data@, ctx.offset as nat, ctx.width as nat, ctx.number()),
{
    match ctx.numeric_value() {
        Some(val) => {
            let q = ctx.width.saturating_add(3) / 4;
            let digits = if q == 0 {
                1
            } else {
                q
            };
            let mut s = String::new();
            push_str(&mut s, "0x");
            push_radix(&mut s, val as u128, 16, digits, true);
            s
        },
        None => match extract_bits_string(ctx.data, ctx.offset, ctx.width) {
            Some(b) => {
                let mut s = String::new();
                push_str(&mut s, "(raw: ");
                push_str(&mut s, b.as_str());
                push_str(&mut s, ")");
                s
            },
            None => unavailable_string(),
        },
    }
}

// ---------------------------------------------------------------------------
// Built-in formatters
// ---------------------------------------------------------------------------

/// Smart formatter that adapts to the field's type.
#[derive(Debug, Default, Clone, Copy)]
pub struct SmartFormatter;

impl FieldFormatter for SmartFormatter {
    open spec fn obeys_spec(&self) -> bool {
        true
    }

    open spec fn id_spec(&self) -> Seq<char> {
        "smart"@
    }

    open spec fn format_spec(&self, ctx: ContextSpec) -> Seq<char> {
        smart_text(ctx.ty, ctx.data, ctx.offset, ctx.width, ctx.number())
    }

    fn id(&self) -> (r: FormatId)
        ensures
            r@ == "smart"@,
    {
        FormatId::new("smart")
    }

    fn name(&self) -> (r: &str)
        ensures
            r@ == "Auto/Smart"@,
    {
        "Auto/Smart"
    }

    fn format(&self, ctx: &FormatContext) -> (r: String)
        ensures
            r@ == self.format_spec(ctx.model()),
    {
        match ctx.field_type {
            Some(FieldType::Enum(e)) => match ctx.numeric_value() {
                Some(val) => {
                    let mut s = String::new();
                    match e.variant_name(val) {
                        Some(name) => {
                            push_str(&mut s, name);
                            push_str(&mut s, " (");
                            push_decimal(&mut s, val as u128);
                            push_str(&mut s, ")");
                        },
                        None => {
                            push_decimal(&mut s, val as u128);
                        },
                    }
                    s
                },
                None => unavailable_string(),
            },
            Some(FieldType::Layout(nested)) => {
                let mut s = String::new();
                push_str(&mut s, "<nested layout: ");
                push_decimal(&mut s, nested.bit_len() as u128);
                push_str(&mut s, " bits>");
                s
            },
            _ => hex_string(ctx),
        }
    }
}

/// Hexadecimal formatter (e.g. `0x1F`, `0x00A4`).
#[derive(Debug, Default, Clone, Copy)]
pub struct HexFormatter;

impl FieldFormatter for HexFormatter {
    open spec fn obeys_spec(&self) -> bool {
        true
    }

    open spec fn id_spec(&self) -> Seq<char> {
        "hex"@
    }

    open spec fn format_spec(&self, ctx: ContextSpec) -> Seq<char> {
        hex_text(ctx.data, ctx.offset, ctx.width, ctx.number())
    }

    fn id(&self) -> (r: FormatId)
        ensures
            r@ == "hex"@,
    {
        FormatId::new("hex")
    }

    fn name(&self) -> (r: &str)
        ensures
            r@ == "Hex (0x)"@,
    {
        "Hex (0x)"
    }

    fn format(&self, ctx: &FormatContext) -> (r: String)
        ensures
            r@ == self.format_spec(ctx.model()),
    {
        hex_string(ctx)
    }
}

/// Unsigned decimal formatter (e.g. `123`).
#[derive(Debug, Default, Clone, Copy)]
pub struct DecFormatter;

impl FieldFormatter for DecFormatter {
    open spec fn obeys_spec(&self) -> bool {
        true
    }

    open spec fn id_spec(&self) -> Seq<char> {
        "dec"@
    }

    open spec fn format_spec(&self, ctx: ContextSpec) -> Seq<char> {
        dec_text(ctx.number())
    }

    fn id(&self) -> (r: FormatId)
        ensures
            r@ == "dec"@,
    {
        FormatId::new("dec")
    }

    fn name(&self) -> (r: &str)
        ensures
            r@ == "Decimal"@,
    {
        "Decimal"
    }

    fn format(&self, ctx: &FormatContext) -> (r: String)
        ensures
            r@ == self.format_spec(ctx.model()),
    {
        match ctx.numeric_value() {
            Some(val) => {
                let mut s = String::new();
                push_decimal(&mut s, val as u128);
                s
            },
            None => unavailable_string(),
        }
    }
}

/// Binary formatter (e.g. `0b10110`).
#[derive(Debug, Default, Clone, Copy)]
pub struct BinFormatter;

impl FieldFormatter for BinFormatter {
    open spec fn obeys_spec(&self) -> bool {
        true
    }

    open spec fn id_spec(&self) -> Seq<char> {
        "bin"@
    }

    open spec fn format_spec(&self, ctx: ContextSpec) -> Seq<char> {
        bin_text(ctx.data, ctx.offset, ctx.width, ctx.number())
    }

    fn id(&self) -> (r: FormatId)
        ensures
            r@ == "bin"@,
    {
        FormatId::new("bin")
    }

    fn name(&self) -> (r: &str)
        ensures
            r@ == "Binary (0b)"@,
    {
        "Binary (0b)"
    }

    fn format(&self, ctx: &FormatContext) -> (r: String)
        ensures
            r@ == self.format_spec(ctx.model()),
    {
        match ctx.numeric_value() {
            Some(val) => {
                let digits = if ctx.width == 0 {
                    1
                } else {
                    ctx.width
                };
                let mut s = String::new();
                push_str(&mut s, "0b");
                push_radix(&mut s, val as u128, 2, digits, false);
                s
            },
            None => match extract_bits_string(ctx.data, ctx.offset, ctx.width) {
                Some(b) => {
                    let mut s = String::new();
                    push_str(&mut s, "0b");
                    push_str(&mut s, b.as_str());
                    s
                },
                None => unavailable_string(),
            },
        }
    }
}

/// Octal formatter (e.g. `0o755`).
#[derive(Debug, Default, Clone, Copy)]
pub struct OctFormatter;

impl FieldFormatter for OctFormatter {
    open spec fn obeys_spec(&self) -> bool {
        true
    }

    open spec fn id_spec(&self) -> Seq<char> {
        "oct"@
    }

    open spec fn format_spec(&self, ctx: ContextSpec) -> Seq<char> {
        oct_text(ctx.width, ctx.number())
    }

    fn id(&self) -> (r: FormatId)
        ensures
            r@ == "oct"@,
    {
        FormatId::new("oct")
    }

    fn name(&self) -> (r: &str)
        ensures
            r@ == "Octal (0o)"@,
    {
        "Octal (0o)"
    }

    fn format(&self, ctx: &FormatContext) -> (r: String)
        ensures
            r@ == self.format_spec(ctx.model()),
    {
        match ctx.numeric_value() {
            Some(val) => {
                let q = ctx.width.saturating_add(2) / 3;
                let digits = if q == 0 {
                    1
                } else {
                    q
                };
                let mut s = String::new();
                push_str(&mut s, "0o");
                push_radix(&mut s, val as u128, 8, digits, false);
                s
            },
            None => unavailable_string(),
        }
    }
}

/// ASCII formatter: bytes as printable characters, others escaped as `\xHH`.
#[derive(Debug, Default, Clone, Copy)]
pub struct AsciiFormatter;

impl FieldFormatter for AsciiFormatter {
    open spec fn obeys_spec(&self) -> bool {
        true
    }

    open spec fn id_spec(&self) -> Seq<char> {
        "ascii"@
    }

    open spec fn format_spec(&self, ctx: ContextSpec) -> Seq<char> {
        ascii_text(ctx.data, ctx.offset, ctx.width, ctx.number())
    }

    fn id(&self) -> (r: FormatId)
        ensures
            r@ == "ascii"@,
    {
        FormatId::new("ascii")
    }

    fn name(&self) -> (r: &str)
        ensures
            r@ == "ASCII / Text"@,
    {
        "ASCII / Text"
    }

    fn format(&self, ctx: &FormatContext) -> (r: String)
        ensures
            r@ == self.format_spec(ctx.model()),
    {
        if ctx.width % 8 == 0 && ctx.offset % 8 == 0 {
            let start_byte = ctx.offset / 8;
            let byte_len = ctx.width / 8;
            if byte_len <= ctx.data.len() && start_byte <= ctx.data.len() - byte_len {
                return quoted_bytes(ctx.data, start_byte, byte_len);
            }
        }
        match ctx.numeric_value() {
            Some(val) => {
                let needed = ctx.width / 8 + if ctx.width % 8 != 0 {
                    1
                } else {
                    0
                };
                assert(needed == (ctx.width + 7) / 8);
                quoted_low_bytes(val, needed)
            },
            None => unavailable_string(),
        }
    }
}

/// Formatter showing the raw bit sequence (e.g. `10110010`).
#[derive(Debug, Default, Clone, Copy)]
pub struct RawBitsFormatter;

impl FieldFormatter for RawBitsFormatter {
    open spec fn obeys_spec(&self) -> bool {
        true
    }

    open spec fn id_spec(&self) -> Seq<char> {
        "raw"@
    }

    open spec fn format_spec(&self, ctx: ContextSpec) -> Seq<char> {
        raw_text(ctx.data, ctx.offset, ctx.width)
    }

    fn id(&self) -> (r: FormatId)
        ensures
            r@ == "raw"@,
    {
        FormatId::new("raw")
    }

    fn name(&self) -> (r: &str)
        ensures
            r@ == "Raw Bits"@,
    {
        "Raw Bits"
    }

    fn format(&self, ctx: &FormatContext) -> (r: String)
        ensures
            r@ == self.format_spec(ctx.model()),
    {
        match extract_bits_string(ctx.data, ctx.offset, ctx.width) {
            Some(b) => b,
            None => unavailable_string(),
        }
    }
}

} // verus!

