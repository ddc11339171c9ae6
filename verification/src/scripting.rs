//! What the scripting DSL computes: hex strings to bytes, length units by
//! name, field values and field summaries. The script runtime around it
//! calls these functions and hands their results to scripts.

use vstd::prelude::*;

use crate::bit::stream::{bits_of, bits_value};
use crate::format::value::{read_number, read_at};
use crate::layout::field::{FieldSpec, LengthUnit};
use crate::layout::model::{lemma_name_index, name_index};
use crate::layout::{BitLayout, LayoutField};
use crate::text::{push_str, str_eq};

verus! {

/// Errors in what a script hands the DSL.
#[derive(Debug, PartialEq, Eq)]
pub enum DslError {
    /// A hex string with an odd number of hex digits.
    OddHexDigits,
    /// A length unit other than bits or bytes.
    UnknownLengthUnit { unit: String },
    /// A field name the layout does not have.
    UnknownField { name: String },
}

/// The abstract form of a [`DslError`].
pub enum DslErrorView {
    OddHexDigits,
    UnknownLengthUnit { unit: Seq<char> },
    UnknownField { name: Seq<char> },
}

impl View for DslError {
    type V = DslErrorView;

    open spec fn view(&self) -> DslErrorView {
        match self {
            DslError::OddHexDigits => DslErrorView::OddHexDigits,
            DslError::UnknownLengthUnit { unit } => DslErrorView::UnknownLengthUnit { unit: unit@ },
            DslError::UnknownField { name } => DslErrorView::UnknownField { name: name@ },
        }
    }
}

/// The message a script sees for an error.
pub open spec fn dsl_message(e: DslErrorView) -> Seq<char> {
    match e {
        DslErrorView::OddHexDigits => "hex string must have an even number of hex digits"@,
        DslErrorView::UnknownLengthUnit { unit } => "unknown length unit \""@ + unit
            + "\": expected \"bits\" or \"bytes\""@,
        DslErrorView::UnknownField { name } => "unknown field \""@ + name + "\""@,
    }
}

impl DslError {
    /// The message a script sees for this error.
    pub fn to_string(&self) -> (r: String)
        ensures
            r@ == dsl_message(self@),
    {
        let mut s = String::new();
        match self {
            DslError::OddHexDigits => {
                push_str(&mut s, "hex string must have an even number of hex digits");
            },
            DslError::UnknownLengthUnit { unit } => {
                push_str(&mut s, "unknown length unit \"");
                push_str(&mut s, unit.as_str());
                push_str(&mut s, "\": expected \"bits\" or \"bytes\"");
            },
            DslError::UnknownField { name } => {
                push_str(&mut s, "unknown field \"");
                push_str(&mut s, name.as_str());
                push_str(&mut s, "\"");
            },
        }
        s
    }
}

// ---------------------------------------------------------------------------
// Hex strings
// ---------------------------------------------------------------------------

/// An ASCII hex digit: `0-9`, `A-F` or `a-f`.
pub open spec fn is_hex_digit(c: char) -> bool {
    ('0' <= c <= '9') || ('A' <= c <= 'F') || ('a' <= c <= 'f')
}

/// The value of a hex digit.
pub open spec fn nibble(c: char) -> u8 {
    if c <= '9' {
        (c as u32 - '0' as u32) as u8
    } else if c <= 'F' {
        (c as u32 - 'A' as u32 + 10) as u8
    } else {
        (c as u32 - 'a' as u32 + 10) as u8
    }
}

/// The values of the hex digits of `s`, in order; other characters are
/// skipped.
pub open spec fn hex_nibbles(s: Seq<char>) -> Seq<u8>
    decreases s.len(),
{
    if s.len() == 0 {
        Seq::empty()
    } else {
        let p = hex_nibbles(s.drop_last());
        if is_hex_digit(s.last()) {
            p.push(nibble(s.last()))
        } else {
            p
        }
    }
}

/// Pairs of digits as bytes, the first of each pair the high half.
pub open spec fn pack_nibbles(ns: Seq<u8>) -> Seq<u8> {
    Seq::new(ns.len() / 2, |i: int| (16 * ns[2 * i] + ns[2 * i + 1]) as u8)
}

/// Parses a hex string such as `"04 03 AA BB CC"` or `"0403AABBCC"` into
/// bytes: every character that is not a hex digit is skipped, and the
/// digits must come in pairs.
pub fn parse_hex(text: &str) -> (r: Result<Vec<u8>, DslError>)
    ensures
        ({
            let ns = hex_nibbles(text@);
            if ns.len() % 2 == 1 {
                r matches Err(e) && e@ == DslErrorView::OddHexDigits
            } else {
                r matches Ok(v) && v@ == pack_nibbles(ns)
            }
        }),
{
    broadcast use vstd::string::axiom_spec_iter, vstd::string::next_postcondition;
    let mut ns: Vec<u8> = Vec::new();
    for c in it: text.chars()
        invariant
            it.seq() == text@,
            ns@ == hex_nibbles(text@.take(it.index() as int)),
            forall|j: int| 0 <= j < ns@.len() ==> #[trigger] ns@[j] < 16,
    {
        let ghost i = it.index() as int;
        assert(c == text@[i]);
        assert(text@.take(i + 1).drop_last() =~= text@.take(i));
        if '0' <= c && c <= '9' {
            ns.push((c as u32 - '0' as u32) as u8);
        } else if 'A' <= c && c <= 'F' {
            ns.push((c as u32 - 'A' as u32 + 10) as u8);
        } else if 'a' <= c && c <= 'f' {
            ns.push((c as u32 - 'a' as u32 + 10) as u8);
        }
    }
    assert(text@.take(text@.len() as int) =~= text@);
    if ns.len() % 2 != 0 {
        return Err(DslError::OddHexDigits);
    }
    let mut out: Vec<u8> = Vec::new();
    let mut k: usize = 0;
    while k < ns.len() / 2
        invariant
            ns@.len() % 2 == 0,
            k <= ns@.len() / 2,
            forall|j: int| 0 <= j < ns@.len() ==> #[trigger] ns@[j] < 16,
            out@ == pack_nibbles(ns@).take(k as int),
        decreases ns@.len() / 2 - k,
    {
        let hi = ns[2 * k];
        let lo = ns[2 * k + 1];
        out.push(hi * 16 + lo);
        proof {
            assert(out@ =~= pack_nibbles(ns@).take(k + 1));
        }
        k = k + 1;
    }
    proof {
        assert(pack_nibbles(ns@).take((ns@.len() / 2) as int) =~= pack_nibbles(ns@));
    }
    Ok(out)
}

// ---------------------------------------------------------------------------
// Length units
// ---------------------------------------------------------------------------

/// What `str::to_lowercase` makes of a string.
pub uninterp spec fn lowercase(s: Seq<char>) -> Seq<char>;

/// The lower-case form of `s`.
///
/// Trusted: calls `str::to_lowercase`; its result is named `lowercase`,
/// a function of the string alone (Unicode's lower-case mapping), whose
/// values are not stated here.
#[verifier::external_body]
fn to_lowercase(s: &str) -> (r: String)
    ensures
        r@ == lowercase(s@),
{
    s.to_lowercase()
}

/// The unit a lower-cased name stands for.
pub open spec fn unit_named(lower: Seq<char>) -> Option<LengthUnit> {
    if lower == "bits"@ || lower == "bit"@ || lower == "b"@ {
        Some(LengthUnit::Bits)
    } else if lower == "bytes"@ || lower == "byte"@ {
        Some(LengthUnit::Bytes)
    } else {
        None
    }
}

/// The unit named by `text`, the result of lower-casing it.
pub fn unit_from_lowercase(text: &str, lower: &str) -> (r: Result<LengthUnit, DslError>)
    ensures
        match unit_named(lower@) {
            Some(u) => r == Ok::<LengthUnit, DslError>(u),
            None => r matches Err(e) && e@ == DslErrorView::UnknownLengthUnit { unit: text@ },
        },
{
    if str_eq(lower, "bits") || str_eq(lower, "bit") || str_eq(lower, "b") {
        Ok(LengthUnit::Bits)
    } else if str_eq(lower, "bytes") || str_eq(lower, "byte") {
        Ok(LengthUnit::Bytes)
    } else {
        Err(DslError::UnknownLengthUnit { unit: text.to_owned() })
    }
}

/// Parses a length unit by name, ignoring case: `bits`, `bit` or `b` for
/// bits, `bytes` or `byte` for bytes.
pub fn parse_length_unit(text: &str) -> (r: Result<LengthUnit, DslError>)
    ensures
        match unit_named(lowercase(text@)) {
            Some(u) => r == Ok::<LengthUnit, DslError>(u),
            None => r matches Err(e) && e@ == DslErrorView::UnknownLengthUnit { unit: text@ },
        },
{
    let lower = to_lowercase(text);
    unit_from_lowercase(text, lower.as_str())
}

// ---------------------------------------------------------------------------
// Fields
// ---------------------------------------------------------------------------

/// The value a script reads from field `f` of `data`: `None` for a field
/// of no width, wider than 64 bits, or not all in the data; else its bits
/// as a number, the 64 bits taken as a signed integer.
pub open spec fn script_value(f: FieldSpec, data: Seq<u8>) -> Option<i64> {
    if f.width() == 0 || f.width() > 64 || f.end() > data.len() * 8 {
        None
    } else {
        Some(
            bits_value(bits_of(data).subrange(f.offset as int, f.end() as int)) as u64 as i64,
        )
    }
}

/// Reads the value of the field `name` from `data`.
pub fn read_field(layout: &BitLayout, name: &str, data: &[u8]) -> (r: Result<Option<i64>, DslError>)
    requires
        data@.len() * 8 <= usize::MAX,
    ensures
        match name_index(layout@.fields, name@, 0) {
            None => r matches Err(e) && e@ == DslErrorView::UnknownField { name: name@ },
            Some(i) => r == Ok::<Option<i64>, DslError>(script_value(layout@.fields[i], data@)),
        },
{
    proof {
        lemma_name_index(layout@.fields, name@, 0);
    }
    let field = match layout.field_by_name(name) {
        Some(f) => f,
        None => {
            return Err(DslError::UnknownField { name: name.to_owned() });
        },
    };
    let width = field.width();
    if width == 0 || width > 64 {
        return Ok(None);
    }
    match read_at(data, field.offset(), width) {
        Some(v) => Ok(Some(v as i64)),
        None => Ok(None),
    }
}

/// A summary of a field, as scripts see it.
#[derive(Debug, Clone, PartialEq, Eq)]
pub struct FieldInfo {
    pub name: String,
    pub offset: usize,
    pub width: usize,
    pub end: usize,
    pub is_variable: bool,
}

/// Summarises a field.
pub fn field_info(f: &LayoutField) -> (r: FieldInfo)
    requires
        f@.end() <= usize::MAX,
    ensures
        r.name@ == f@.name,
        r.offset == f@.offset,
        r.width == f@.width(),
        r.end == f@.end(),
        r.is_variable == f@.is_variable(),
{
    FieldInfo {
        name: f.name().to_owned(),
        offset: f.offset(),
        width: f.width(),
        end: f.end(),
        is_variable: f.is_variable(),
    }
}

/// The field at a position counted from 1, as scripts count.
pub fn field_at_position(layout: &BitLayout, position: i64) -> (r: Option<&LayoutField>)
    ensures
        1 <= position <= layout@.fields.len() ==> (r matches Some(f) && f@ == layout@.fields[position
            - 1]),
        !(1 <= position <= layout@.fields.len()) ==> r is None,
        r matches Some(f) ==> f@.end() <= usize::MAX,
{
    if position < 1 {
        return None;
    }
    let index = (position - 1) as u64;
    let count = layout.field_count();
    if index >= count as u64 {
        return None;
    }
    layout.field(index as usize)
}

} // verus!
