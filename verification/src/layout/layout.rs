//! Bit layout representation and builder.
//!
//! A [`BitLayout`] describes a sequence of named bit fields with calculated
//! positions. Use [`BitLayoutBuilder`] (via [`BitLayout::builder`]) to
//! construct layouts with automatic offset calculation and validation.
//!
//! A field's width can be derived from the runtime value of a previously
//! declared field ([`BitLayoutBuilder::field_var`]); [`BitLayout::resolve`]
//! reads those values from data and produces a layout with concrete offsets
//! and widths. A field can also be a nested layout
//! ([`BitLayoutBuilder::field_layout`]) or an enumeration
//! ([`BitLayoutBuilder::field_enum`]).

use vstd::prelude::*;
use std::sync::Arc;

use super::enum_def::EnumDef;
use super::error::{LayoutError, LayoutErrorView, LayoutResult};
use super::field::{BitRange, FieldWidth, LengthUnit, WidthSpec};
use super::model::{
    bit_index, build_outcome, derived_width, disjoint, ends_fit, FieldSpec, first_duplicate, first_field_error, first_overlap, first_reference_error, fixed_prefix, has_later_name, LayoutSpec, lemma_bit_index, lemma_name_index, max_fixed_end, name_index, needs_from, needs_resolution, overlap_partner, path_lookup, resolve_prefix, resolve_spec, sat_add, TypeSpec,
};
use crate::bit::stream::{bits_of, bits_value, lemma_bits_value_bound};
use vstd::arithmetic::power2::{lemma2_to64, lemma_pow2_strictly_increases};
use crate::bit::BitReader;
use crate::shared::share;
use crate::text::{lemma_first_index, split_once_char, str_contains_char, str_eq};

verus! {

// ---------------------------------------------------------------------------
// Executable types
// ---------------------------------------------------------------------------

/// The type of a field in a layout.
#[derive(Debug, PartialEq)]
pub enum FieldType {
    /// A primitive bit field, with either a fixed or variable width.
    Primitive(FieldWidth),
    /// A nested layout. The width is intrinsically the layout's total bit length.
    Layout(Arc<BitLayout>),
    /// An enumeration mapping encoded values to variants.
    Enum(Arc<EnumDef>),
}

/// A named region in a bit stream.
///
/// Identifies a field by name, starting bit and type. Does not carry
/// protocol-specific semantics — it simply marks a named region.
#[derive(Debug, PartialEq)]
pub struct LayoutField {
    name: String,
    offset: usize,
    field_type: FieldType,
}

/// A sequence of named bit fields with calculated positions.
///
/// Preserves field order. Each field has a name and a half-open bit range
/// `[offset, offset + width)`.
#[derive(Debug, PartialEq)]
pub struct BitLayout {
    fields: Vec<LayoutField>,
    bit_len: usize,
}

spec fn layout_view(l: BitLayout) -> LayoutSpec
    decreases l, l.fields@.len() + 1,
{
    LayoutSpec { fields: fields_view(l, l.fields@.len() as int), bit_len: l.bit_len as nat }
}

spec fn fields_view(l: BitLayout, n: int) -> Seq<FieldSpec>
    decreases l, n,
{
    if n <= 0 || n > l.fields@.len() {
        Seq::empty()
    } else {
        let f = l.fields@[n - 1];
        fields_view(l, n - 1).push(
            FieldSpec {
                name: f.name@,
                offset: f.offset as nat,
                ty: match f.field_type {
                    FieldType::Primitive(w) => TypeSpec::Primitive(w@),
                    FieldType::Layout(a) => TypeSpec::Layout(layout_view(*a)),
                    FieldType::Enum(e) => TypeSpec::Enum(e@),
                },
            },
        )
    }
}

spec fn type_view(t: FieldType) -> TypeSpec {
    match t {
        FieldType::Primitive(w) => TypeSpec::Primitive(w@),
        FieldType::Layout(a) => TypeSpec::Layout(layout_view(*a)),
        FieldType::Enum(e) => TypeSpec::Enum(e@),
    }
}

impl View for FieldType {
    type V = TypeSpec;

    open spec fn view(&self) -> TypeSpec {
        match self {
            FieldType::Primitive(w) => TypeSpec::Primitive(w@),
            FieldType::Layout(a) => TypeSpec::Layout((**a)@),
            FieldType::Enum(e) => TypeSpec::Enum((**e)@),
        }
    }
}

impl View for LayoutField {
    type V = FieldSpec;

    closed spec fn view(&self) -> FieldSpec {
        FieldSpec { name: self.name@, offset: self.offset as nat, ty: type_view(self.field_type) }
    }
}

impl View for BitLayout {
    type V = LayoutSpec;

    closed spec fn view(&self) -> LayoutSpec {
        layout_view(*self)
    }
}

proof fn lemma_fields_view(l: BitLayout, n: int)
    requires
        0 <= n <= l.fields@.len(),
    ensures
        fields_view(l, n).len() == n,
        forall|i: int| 0 <= i < n ==> #[trigger] fields_view(l, n)[i] == l.fields@[i]@,
    decreases n,
{
    if n > 0 {
        lemma_fields_view(l, n - 1);
    }
}

/// The views of the layout's fields are the views of its field values.
proof fn lemma_view_fields(l: &BitLayout)
    ensures
        l@.fields.len() == l.fields@.len(),
        l@.bit_len == l.bit_len,
        forall|i: int| 0 <= i < l.fields@.len() ==> #[trigger] l@.fields[i] == l.fields@[i]@,
{
    lemma_fields_view(*l, l.fields@.len() as int);
}

/// Places a value behind a new `Arc` (`Arc::new`).
fn wrap<T>(t: T) -> (r: Arc<T>)
    ensures
        *r == t,
{
    Arc::new(t)
}

impl Clone for FieldType {
    fn clone(&self) -> (r: Self)
        ensures
            r@ == self@,
    {
        match self {
            FieldType::Primitive(w) => FieldType::Primitive(w.clone()),
            FieldType::Layout(a) => FieldType::Layout(share(a)),
            FieldType::Enum(e) => FieldType::Enum(share(e)),
        }
    }
}

impl FieldType {
    /// Returns `true` if this field type has a width known without data.
    pub fn is_fixed(&self) -> (r: bool)
        ensures
            r == self@.is_fixed(),
    {
        self.fixed_width().is_some()
    }

    /// Returns the width known without data, or `None` if derived.
    pub fn fixed_width(&self) -> (r: Option<usize>)
        ensures
            r matches Some(w) ==> self@.fixed_width() == Some(w as nat),
            r is None ==> self@.fixed_width() is None,
    {
        match self {
            FieldType::Primitive(w) => w.fixed_width(),
            FieldType::Enum(e) => e.width().fixed_width(),
            FieldType::Layout(l) => Some(l.bit_len()),
        }
    }

    /// The same type with its width fixed to `w` (a nested layout is kept).
    pub(crate) fn with_fixed_width(&self, w: usize) -> (r: FieldType)
        ensures
            r@ == self@.with_fixed_width(w as nat),
    {
        match self {
            FieldType::Primitive(_) => FieldType::Primitive(FieldWidth::Fixed(w)),
            FieldType::Enum(e) => FieldType::Enum(wrap(e.with_width(FieldWidth::Fixed(w)))),
            FieldType::Layout(l) => FieldType::Layout(share(l)),
        }
    }

    /// The source field and unit of a width derived from another field.
    pub(crate) fn derived(&self) -> (r: Option<(&str, LengthUnit)>)
        ensures
            match r {
                Some((s, u)) => self@.derived() == Some((s@, u)),
                None => self@.derived() is None,
            },
    {
        let w = match self {
            FieldType::Primitive(w) => w,
            FieldType::Enum(e) => e.width(),
            FieldType::Layout(_) => {
                return None;
            },
        };
        match w {
            FieldWidth::DerivedFrom { source_field, unit } => Some((source_field.as_str(), *unit)),
            FieldWidth::Fixed(_) => None,
        }
    }
}

impl Clone for LayoutField {
    fn clone(&self) -> (r: Self)
        ensures
            r@ == self@,
    {
        LayoutField {
            name: self.name.clone(),
            offset: self.offset,
            field_type: self.field_type.clone(),
        }
    }
}

impl LayoutField {
    /// Creates a new primitive layout field with the given name and bit range.
    ///
    /// The field has a fixed width matching the range.
    pub fn new(name: &str, range: BitRange) -> (r: Self)
        ensures
            r@ == (FieldSpec {
                name: name@,
                offset: range.spec_offset(),
                ty: TypeSpec::Primitive(WidthSpec::Fixed(range.spec_width())),
            }),
    {
        LayoutField {
            name: name.to_owned(),
            offset: range.offset(),
            field_type: FieldType::Primitive(FieldWidth::Fixed(range.width())),
        }
    }

    /// Creates a new primitive layout field with a variable width specification.
    pub fn new_variable(name: &str, offset: usize, width_spec: FieldWidth) -> (r: Self)
        ensures
            r@ == (FieldSpec {
                name: name@,
                offset: offset as nat,
                ty: TypeSpec::Primitive(width_spec@),
            }),
    {
        LayoutField {
            name: name.to_owned(),
            offset,
            field_type: FieldType::Primitive(width_spec),
        }
    }

    /// Creates a field representing a nested layout.
    pub fn new_layout(name: &str, offset: usize, layout: Arc<BitLayout>) -> (r: Self)
        ensures
            r@ == (FieldSpec {
                name: name@,
                offset: offset as nat,
                ty: TypeSpec::Layout((*layout)@),
            }),
    {
        LayoutField { name: name.to_owned(), offset, field_type: FieldType::Layout(layout) }
    }

    /// Creates a field holding an enumeration.
    pub fn new_enum(name: &str, offset: usize, def: Arc<EnumDef>) -> (r: Self)
        ensures
            r@ == (FieldSpec { name: name@, offset: offset as nat, ty: TypeSpec::Enum((*def)@) }),
    {
        LayoutField { name: name.to_owned(), offset, field_type: FieldType::Enum(def) }
    }

    /// The same field placed at `offset`.
    fn moved_to(&self, offset: usize) -> (r: Self)
        ensures
            r@ == (FieldSpec { offset: offset as nat, ..self@ }),
    {
        LayoutField { name: self.name.clone(), offset, field_type: self.field_type.clone() }
    }

    /// The field's name.
    pub fn name(&self) -> (r: &str)
        ensures
            r@ == self@.name,
    {
        self.name.as_str()
    }

    /// The field's type.
    pub fn field_type(&self) -> (r: &FieldType)
        ensures
            r@ == self@.ty,
    {
        &self.field_type
    }

    /// Returns `true` if this field has a variable (data-dependent) width.
    pub fn is_variable(&self) -> (r: bool)
        ensures
            r == self@.is_variable(),
    {
        !self.field_type.is_fixed()
    }

    /// Starting bit offset.
    pub fn offset(&self) -> (r: usize)
        ensures
            r == self@.offset,
    {
        self.offset
    }

    /// Width in bits. If variable and unresolved, returns 0.
    pub fn width(&self) -> (r: usize)
        ensures
            r == self@.width(),
    {
        match self.field_type.fixed_width() {
            Some(w) => w,
            None => 0,
        }
    }

    /// The field's bit range.
    pub fn range(&self) -> (r: BitRange)
        ensures
            r.spec_offset() == self@.offset,
            r.spec_width() == self@.width(),
    {
        BitRange::new(self.offset, self.width())
    }

    /// Exclusive end position.
    pub fn end(&self) -> (r: usize)
        requires
            self@.end() <= usize::MAX,
        ensures
            r == self@.end(),
    {
        self.offset + self.width()
    }

    /// Returns `true` if this field contains the given bit offset.
    pub fn contains(&self, bit: usize) -> (r: bool)
        ensures
            r == self@.contains(bit as nat),
    {
        self.range().contains(bit)
    }
}

/// The views of a sequence of fields.
pub open spec fn views(v: Seq<LayoutField>) -> Seq<FieldSpec> {
    v.map_values(|f: LayoutField| f@)
}

proof fn lemma_layout_fields_views(l: &BitLayout)
    ensures
        l@.fields == views(l.fields@),
        l@.bit_len == l.bit_len,
{
    lemma_view_fields(l);
    assert(l@.fields =~= views(l.fields@));
}

/// The position of the first field named `name`.
fn find_name(fields: &Vec<LayoutField>, name: &str) -> (r: Option<usize>)
    ensures
        match r {
            Some(i) => name_index(views(fields@), name@, 0) == Some(i as int),
            None => name_index(views(fields@), name@, 0) is None,
        },
{
    let ghost fs = views(fields@);
    let mut i: usize = 0;
    while i < fields.len()
        invariant
            i <= fields@.len(),
            fs == views(fields@),
            name_index(fs, name@, 0) == name_index(fs, name@, i as int),
        decreases fields@.len() - i,
    {
        if str_eq(fields[i].name(), name) {
            return Some(i);
        }
        i = i + 1;
    }
    None
}

/// The position of the first field containing `bit`.
fn find_bit(fields: &Vec<LayoutField>, bit: usize) -> (r: Option<usize>)
    ensures
        match r {
            Some(i) => bit_index(views(fields@), bit as nat, 0) == Some(i as int),
            None => bit_index(views(fields@), bit as nat, 0) is None,
        },
{
    let ghost fs = views(fields@);
    let mut i: usize = 0;
    while i < fields.len()
        invariant
            i <= fields@.len(),
            fs == views(fields@),
            bit_index(fs, bit as nat, 0) == bit_index(fs, bit as nat, i as int),
        decreases fields@.len() - i,
    {
        if fields[i].contains(bit) {
            return Some(i);
        }
        i = i + 1;
    }
    None
}

/// The first single-field error among `fields`.
fn check_fields(fields: &Vec<LayoutField>) -> (r: Option<LayoutError>)
    ensures
        match r {
            Some(e) => first_field_error(views(fields@), 0) == Some(e@),
            None => first_field_error(views(fields@), 0) is None,
        },
{
    let ghost fs = views(fields@);
    let mut i: usize = 0;
    while i < fields.len()
        invariant
            i <= fields@.len(),
            fs == views(fields@),
            first_field_error(fs, 0) == first_field_error(fs, i as int),
        decreases fields@.len() - i,
    {
        let f = &fields[i];
        assert(fs[i as int] == f@);
        let name = f.name();
        if name.is_empty() {
            return Some(LayoutError::EmptyFieldName);
        }
        if str_contains_char(name, '.') {
            return Some(LayoutError::InvalidFieldName { name: name.to_owned() });
        }
        if let Some(w) = f.field_type().fixed_width() {
            if w == 0 {
                return Some(LayoutError::ZeroWidth { name: name.to_owned() });
            }
        }
        i = i + 1;
    }
    None
}

/// The first name that occurs twice among `fields`.
fn check_duplicates(fields: &Vec<LayoutField>) -> (r: Option<LayoutError>)
    ensures
        match r {
            Some(e) => first_duplicate(views(fields@), 0) == Some(e@),
            None => first_duplicate(views(fields@), 0) is None,
        },
{
    let ghost fs = views(fields@);
    let mut i: usize = 0;
    while i < fields.len()
        invariant
            i <= fields@.len(),
            fs == views(fields@),
            first_duplicate(fs, 0) == first_duplicate(fs, i as int),
        decreases fields@.len() - i,
    {
        let mut j: usize = i + 1;
        while j < fields.len()
            invariant
                i < j <= fields@.len(),
                fs == views(fields@),
                first_duplicate(fs, 0) == first_duplicate(fs, i as int),
                forall|k: int| i < k < j ==> #[trigger] fs[k].name != fs[i as int].name,
            decreases fields@.len() - j,
        {
            assert(fs[i as int] == fields@[i as int]@);
            assert(fs[j as int] == fields@[j as int]@);
            if str_eq(fields[i].name(), fields[j].name()) {
                assert(fs[j as int].name == fs[i as int].name);
                return Some(LayoutError::DuplicateName { name: fields[i].name().to_owned() });
            }
            j = j + 1;
        }
        assert(!has_later_name(fs, i as int));
        i = i + 1;
    }
    None
}

/// The first variable-width field whose source reference is wrong.
fn check_references(fields: &Vec<LayoutField>) -> (r: Option<LayoutError>)
    ensures
        match r {
            Some(e) => first_reference_error(views(fields@), 0) == Some(e@),
            None => first_reference_error(views(fields@), 0) is None,
        },
{
    let ghost fs = views(fields@);
    let mut i: usize = 0;
    while i < fields.len()
        invariant
            i <= fields@.len(),
            fs == views(fields@),
            first_reference_error(fs, 0) == first_reference_error(fs, i as int),
        decreases fields@.len() - i,
    {
        let f = &fields[i];
        assert(fs[i as int] == f@);
        if let Some((source, _unit)) = f.field_type().derived() {
            proof {
                lemma_name_index(fs, source@, 0);
            }
            match find_name(fields, source) {
                None => {
                    return Some(
                        LayoutError::UnknownSourceField {
                            field: f.name().to_owned(),
                            source: source.to_owned(),
                        },
                    );
                },
                Some(p) => {
                    if p >= i {
                        return Some(
                            LayoutError::ForwardReference {
                                field: f.name().to_owned(),
                                source: source.to_owned(),
                            },
                        );
                    }
                    let src = &fields[p];
                    assert(fs[p as int] == src@);
                    if src.is_variable() {
                        return Some(
                            LayoutError::VariableSourceField {
                                field: f.name().to_owned(),
                                source: source.to_owned(),
                            },
                        );
                    }
                    let w = src.width();
                    if w > 64 {
                        return Some(
                            LayoutError::SourceFieldTooWide {
                                field: f.name().to_owned(),
                                source: source.to_owned(),
                                width: w,
                            },
                        );
                    }
                },
            }
        }
        i = i + 1;
    }
    None
}

/// The first pair of fixed-width fields whose ranges overlap.
fn check_overlaps(fields: &Vec<LayoutField>) -> (r: Option<LayoutError>)
    ensures
        match r {
            Some(e) => first_overlap(fixed_prefix(views(fields@), fields@.len() as int), 0) == Some(
                e@,
            ),
            None => first_overlap(fixed_prefix(views(fields@), fields@.len() as int), 0) is None,
        },
{
    let ghost fs = views(fields@);
    // Positions of the fixed-width fields, in order.
    let mut idx: Vec<usize> = Vec::new();
    let mut i: usize = 0;
    while i < fields.len()
        invariant
            i <= fields@.len(),
            fs == views(fields@),
            idx@.len() == fixed_prefix(fs, i as int).len(),
            forall|k: int|
                0 <= k < idx@.len() ==> #[trigger] idx@[k] < fields@.len() && fixed_prefix(
                    fs,
                    i as int,
                )[k] == fs[idx@[k] as int],
        decreases fields@.len() - i,
    {
        assert(fs[i as int] == fields@[i as int]@);
        if fields[i].field_type().is_fixed() {
            idx.push(i);
        }
        i = i + 1;
    }
    let ghost xs = fixed_prefix(fs, fields@.len() as int);
    let mut a: usize = 0;
    while a < idx.len()
        invariant
            fs == views(fields@),
            xs == fixed_prefix(fs, fields@.len() as int),
            idx@.len() == xs.len(),
            forall|k: int|
                0 <= k < idx@.len() ==> #[trigger] idx@[k] < fields@.len() && xs[k] == fs[idx@[k] as int],
            a <= idx@.len(),
            first_overlap(xs, 0) == first_overlap(xs, a as int),
        decreases idx@.len() - a,
    {
        let mut b: usize = a + 1;
        while b < idx.len()
            invariant
                fs == views(fields@),
                idx@.len() == xs.len(),
                forall|k: int|
                    0 <= k < idx@.len() ==> #[trigger] idx@[k] < fields@.len() && xs[k] == fs[idx@[k] as int],
                a < b <= idx@.len(),
                xs == fixed_prefix(fs, fields@.len() as int),
                first_overlap(xs, 0) == first_overlap(xs, a as int),
                overlap_partner(xs, a as int, a + 1) == overlap_partner(xs, a as int, b as int),
            decreases idx@.len() - b,
        {
            let fa = &fields[idx[a]];
            let fb = &fields[idx[b]];
            assert(xs[a as int] == fa@);
            assert(xs[b as int] == fb@);
            if fa.range().overlaps(&fb.range()) {
                return Some(
                    LayoutError::OverlappingFields {
                        existing: fa.name().to_owned(),
                        new: fb.name().to_owned(),
                    },
                );
            }
            b = b + 1;
        }
        a = a + 1;
    }
    None
}

/// The largest end among the fixed-width fields, or
/// [`LayoutError::ArithmeticOverflow`] when some field ends past `usize`.
fn fixed_end(fields: &Vec<LayoutField>) -> (r: Result<usize, LayoutError>)
    ensures
        match r {
            Ok(n) => ends_fit(views(fields@)) && n == max_fixed_end(
                views(fields@),
                fields@.len() as int,
            ),
            Err(e) => !ends_fit(views(fields@)) && e@ == LayoutErrorView::ArithmeticOverflow,
        },
{
    let ghost fs = views(fields@);
    let mut bit_len: usize = 0;
    let mut i: usize = 0;
    while i < fields.len()
        invariant
            i <= fields@.len(),
            fs == views(fields@),
            bit_len == max_fixed_end(fs, i as int),
            forall|k: int| 0 <= k < i ==> #[trigger] fs[k].end() <= usize::MAX,
        decreases fields@.len() - i,
    {
        let f = &fields[i];
        assert(fs[i as int] == f@);
        if let Some(w) = f.field_type().fixed_width() {
            match f.offset().checked_add(w) {
                None => {
                    assert(fs[i as int].end() > usize::MAX);
                    return Err(LayoutError::ArithmeticOverflow);
                },
                Some(end) => {
                    if end > bit_len {
                        bit_len = end;
                    }
                },
            }
        }
        i = i + 1;
    }
    Ok(bit_len)
}

/// The view of a layout made of `fields` and `bit_len`.
proof fn lemma_layout_of(fields: Vec<LayoutField>, bit_len: usize)
    ensures
        layout_view(BitLayout { fields, bit_len }) == (LayoutSpec {
            fields: views(fields@),
            bit_len: bit_len as nat,
        }),
{
    let l = BitLayout { fields, bit_len };
    lemma_fields_view(l, fields@.len() as int);
    assert(fields_view(l, fields@.len() as int) =~= views(fields@));
}

/// An error while resolving the first `i` fields stays the error for all.
proof fn lemma_prefix_err(v: LayoutSpec, data: Seq<u8>, base: nat, i: int, n: int)
    requires
        0 < i <= n <= v.fields.len(),
        resolve_prefix(v, data, base, i) is Err,
    ensures
        resolve_prefix(v, data, base, n) == resolve_prefix(v, data, base, i),
    decreases n,
{
    if n > i {
        lemma_prefix_err(v, data, base, i, n - 1);
    }
}

/// A value of at most 64 bits fits in a `u64`.
proof fn lemma_value_fits(s: Seq<bool>)
    requires
        s.len() <= 64,
    ensures
        bits_value(s) <= u64::MAX,
{
    lemma_bits_value_bound(s);
    lemma2_to64();
    if s.len() < 64 {
        lemma_pow2_strictly_increases(s.len(), 64);
    }
}

/// The width of the field `name` derived from `source` in unit `unit`:
/// the source's value is read from `data`, where the layout starts at bit
/// `base`; `done` are the fields resolved so far.
fn resolve_width(
    done: &Vec<LayoutField>,
    name: &str,
    source: &str,
    unit: LengthUnit,
    data: &[u8],
    base: usize,
) -> (r: Result<usize, LayoutError>)
    requires
        data@.len() * 8 <= usize::MAX,
    ensures
        match r {
            Ok(w) => derived_width(views(done@), name@, source@, unit, data@, base as nat) == Ok::<
                nat,
                LayoutErrorView,
            >(w as nat),
            Err(e) => derived_width(views(done@), name@, source@, unit, data@, base as nat) == Err::<
                nat,
                LayoutErrorView,
            >(e@),
        },
{
    let k = match find_name(done, source) {
        None => {
            return Err(
                LayoutError::UnknownSourceField { field: name.to_owned(), source: source.to_owned() },
            );
        },
        Some(k) => k,
    };
    proof {
        lemma_name_index(views(done@), source@, 0);
    }
    let src = &done[k];
    assert(views(done@)[k as int] == src@);
    let avail: usize = data.len() * 8;
    let w = src.width();
    let end_opt: Option<usize> = match base.checked_add(src.offset()) {
        Some(start) => start.checked_add(w),
        None => None,
    };
    let needed: usize = match end_opt {
        Some(e) => e,
        None => usize::MAX,
    };
    if end_opt.is_none() || needed > avail || w > 64 {
        return Err(
            LayoutError::InsufficientData {
                field: name.to_owned(),
                needed_bits: needed,
                available_bits: avail,
            },
        );
    }
    let start = needed - w;
    let mut reader = BitReader::from_bytes(data);
    if reader.skip(start).is_err() {
        return Err(
            LayoutError::InsufficientData {
                field: name.to_owned(),
                needed_bits: needed,
                available_bits: avail,
            },
        );
    }
    let raw = match reader.read_bits(w as u32) {
        Ok(v) => v,
        Err(_) => {
            return Err(
                LayoutError::InsufficientData {
                    field: name.to_owned(),
                    needed_bits: needed,
                    available_bits: avail,
                },
            );
        },
    };
    let ghost sub = bits_of(data@).subrange(start as int, needed as int);
    proof {
        lemma_value_fits(sub);
        assert(raw == bits_value(sub));
    }
    let bits = match unit.checked_to_bits(raw) {
        None => {
            return Err(LayoutError::ArithmeticOverflow);
        },
        Some(b) => b,
    };
    if bits as u128 > usize::MAX as u128 {
        return Err(LayoutError::ArithmeticOverflow);
    }
    let width = bits as usize;
    if width == 0 {
        return Err(LayoutError::ResolvedZeroWidth { field: name.to_owned() });
    }
    Ok(width)
}

impl Clone for BitLayout {
    fn clone(&self) -> (r: Self)
        ensures
            r@ == self@,
    {
        proof {
            lemma_layout_fields_views(self);
            use_type_invariant(self);
        }
        let mut fields: Vec<LayoutField> = Vec::new();
        let mut i: usize = 0;
        while i < self.fields.len()
            invariant
                i <= self.fields@.len(),
                fields@.len() == i,
                forall|k: int| 0 <= k < i ==> #[trigger] fields@[k]@ == self.fields@[k]@,
            decreases self.fields@.len() - i,
        {
            fields.push(self.fields[i].clone());
            i = i + 1;
        }
        proof {
            lemma_layout_of(fields, self.bit_len);
            assert(views(fields@) =~= views(self.fields@));
        }
        BitLayout { fields, bit_len: self.bit_len }
    }
}

impl BitLayout {
    #[verifier::type_invariant]
    spec fn inv(self) -> bool {
        ends_fit(self@.fields) && disjoint(self@.fields)
    }

    /// Creates a new builder for constructing a layout.
    pub fn builder() -> (r: BitLayoutBuilder)
        ensures
            r@.fields == Seq::<FieldSpec>::empty(),
            r@.next_offset == 0,
    {
        BitLayoutBuilder::new()
    }

    /// Returns the fields in insertion order.
    pub fn fields(&self) -> (r: &[LayoutField])
        ensures
            views(r@) == self@.fields,
            ends_fit(self@.fields),
            disjoint(self@.fields),
    {
        proof {
            lemma_layout_fields_views(self);
            use_type_invariant(self);
        }
        self.fields.as_slice()
    }

    /// Returns the total number of bits spanned by the layout.
    pub fn bit_len(&self) -> (r: usize)
        ensures
            r == self@.bit_len,
    {
        proof {
            lemma_layout_fields_views(self);
        }
        self.bit_len
    }

    /// Returns the number of fields.
    pub fn field_count(&self) -> (r: usize)
        ensures
            r == self@.fields.len(),
    {
        proof {
            lemma_layout_fields_views(self);
        }
        self.fields.len()
    }

    /// Returns `true` if the layout has no fields.
    pub fn is_empty(&self) -> (r: bool)
        ensures
            r == (self@.fields.len() == 0),
    {
        proof {
            lemma_layout_fields_views(self);
        }
        self.fields.len() == 0
    }

    /// Returns the field at the given index.
    pub fn field(&self, index: usize) -> (r: Option<&LayoutField>)
        ensures
            index < self@.fields.len() ==> (r matches Some(f) && f@ == self@.fields[index as int]),
            index >= self@.fields.len() ==> r is None,
            ends_fit(self@.fields),
    {
        proof {
            lemma_layout_fields_views(self);
            use_type_invariant(self);
        }
        if index < self.fields.len() {
            Some(&self.fields[index])
        } else {
            None
        }
    }

    /// Returns the first field with the given name.
    pub fn field_by_name(&self, name: &str) -> (r: Option<&LayoutField>)
        ensures
            match name_index(self@.fields, name@, 0) {
                Some(i) => r matches Some(f) && f@ == self@.fields[i],
                None => r is None,
            },
            ends_fit(self@.fields),
    {
        proof {
            lemma_layout_fields_views(self);
            use_type_invariant(self);
        }
        match find_name(&self.fields, name) {
            Some(i) => {
                proof {
                    lemma_name_index(self@.fields, name@, 0);
                }
                let f = &self.fields[i];
                assert(f@ == self@.fields[i as int]);
                Some(f)
            },
            None => None,
        }
    }

    /// Returns the first field whose range contains the given bit offset.
    pub fn field_at_bit(&self, offset: usize) -> (r: Option<&LayoutField>)
        ensures
            match bit_index(self@.fields, offset as nat, 0) {
                Some(i) => r matches Some(f) && f@ == self@.fields[i],
                None => r is None,
            },
            ends_fit(self@.fields),
    {
        proof {
            lemma_layout_fields_views(self);
            use_type_invariant(self);
        }
        match find_bit(&self.fields, offset) {
            Some(i) => {
                proof {
                    lemma_bit_index(self@.fields, offset as nat, 0);
                }
                let f = &self.fields[i];
                assert(f@ == self@.fields[i as int]);
                Some(f)
            },
            None => None,
        }
    }

    /// Returns the index of the first field containing the given bit offset.
    pub fn field_index_at_bit(&self, offset: usize) -> (r: Option<usize>)
        ensures
            match r {
                Some(i) => bit_index(self@.fields, offset as nat, 0) == Some(i as int),
                None => bit_index(self@.fields, offset as nat, 0) is None,
            },
            disjoint(self@.fields),
    {
        proof {
            lemma_layout_fields_views(self);
            use_type_invariant(self);
        }
        find_bit(&self.fields, offset)
    }

    /// Returns `true` if any field has a variable (data-dependent) width.
    pub fn has_variable_fields(&self) -> (r: bool)
        ensures
            r == exists|i: int| 0 <= i < self@.fields.len() && #[trigger] self@.fields[i].is_variable(),
    {
        proof {
            lemma_layout_fields_views(self);
        }
        let ghost fs = self@.fields;
        let mut i: usize = 0;
        while i < self.fields.len()
            invariant
                i <= self.fields@.len(),
                fs == views(self.fields@),
                fs == self@.fields,
                forall|k: int| 0 <= k < i ==> !(#[trigger] fs[k].is_variable()),
            decreases self.fields@.len() - i,
        {
            if self.fields[i].is_variable() {
                assert(fs[i as int] == self.fields@[i as int]@);
                assert(fs[i as int].is_variable());
                return true;
            }
            i = i + 1;
        }
        false
    }

    /// Returns `true` if some field, here or in a nested layout, has a
    /// width that depends on data.
    fn needs_resolution(&self) -> (r: bool)
        ensures
            r == needs_resolution(self@),
        decreases self@,
    {
        proof {
            lemma_layout_fields_views(self);
        }
        let ghost fs = self@.fields;
        let mut i: usize = 0;
        while i < self.fields.len()
            invariant
                i <= self.fields@.len(),
                fs == views(self.fields@),
                fs == self@.fields,
                needs_from(self@, 0) == needs_from(self@, i as int),
            decreases self.fields@.len() - i,
        {
            let f = &self.fields[i];
            assert(fs[i as int] == f@);
            if f.is_variable() {
                return true;
            }
            match f.field_type() {
                FieldType::Layout(inner) => {
                    assert(fs[i as int].ty == TypeSpec::Layout((**inner)@));
                    assert(decreases_to!(self@ => (**inner)@));
                    if inner.needs_resolution() {
                        return true;
                    }
                },
                _ => {
                    assert(!(fs[i as int].ty is Layout));
                },
            }
            i = i + 1;
        }
        false
    }

    /// Resolves the layout as placed at bit `base` of `data`.
    fn resolve_at(&self, data: &[u8], base: usize) -> (r: LayoutResult<BitLayout>)
        requires
            data@.len() * 8 <= usize::MAX,
        ensures
            match resolve_spec(self@, data@, base as nat) {
                Ok(l) => r matches Ok(x) && x@ == l,
                Err(e) => r matches Err(err) && err@ == e,
            },
        decreases self@,
    {
        if !self.needs_resolution() {
            return Ok(self.clone());
        }
        proof {
            lemma_layout_fields_views(self);
        }
        let ghost v = self@;
        let mut done: Vec<LayoutField> = Vec::new();
        let mut next: usize = 0;
        let mut i: usize = 0;
        assert(views(done@) =~= Seq::<FieldSpec>::empty());
        while i < self.fields.len()
            invariant
                i <= self.fields@.len(),
                v == self@,
                v.fields == views(self.fields@),
                needs_resolution(v),
                data@.len() * 8 <= usize::MAX,
                resolve_prefix(v, data@, base as nat, i as int) == Ok::<
                    (Seq<FieldSpec>, nat),
                    LayoutErrorView,
                >((views(done@), next as nat)),
            decreases self.fields@.len() - i,
        {
            let f = &self.fields[i];
            assert(v.fields[i as int] == f@);
            let ghost before = views(done@);
            let item = match f.field_type() {
                FieldType::Layout(inner) => {
                    if !inner.needs_resolution() {
                        let w = inner.bit_len();
                        let item = LayoutField::new_layout(f.name(), next, share(inner));
                        next = next.saturating_add(w);
                        item
                    } else {
                        let b = match base.checked_add(next) {
                            None => {
                                proof {
                                    lemma_prefix_err(v, data@, base as nat, i + 1, v.fields.len() as int);
                                }
                                return Err(LayoutError::ArithmeticOverflow);
                            },
                            Some(b) => b,
                        };
                        assert(decreases_to!(self@ => (**inner)@));
                        match inner.resolve_at(data, b) {
                            Err(e) => {
                                proof {
                                    lemma_prefix_err(v, data@, base as nat, i + 1, v.fields.len() as int);
                                }
                                return Err(e);
                            },
                            Ok(res) => {
                                let w = res.bit_len();
                                let item = LayoutField::new_layout(f.name(), next, wrap(res));
                                next = next.saturating_add(w);
                                item
                            },
                        }
                    }
                },
                _ => match f.field_type().derived() {
                    None => {
                        let item = f.moved_to(next);
                        next = next.saturating_add(f.width());
                        item
                    },
                    Some((source, unit)) => {
                        match resolve_width(&done, f.name(), source, unit, data, base) {
                            Err(e) => {
                                proof {
                                    lemma_prefix_err(v, data@, base as nat, i + 1, v.fields.len() as int);
                                }
                                return Err(e);
                            },
                            Ok(w) => {
                                let item = LayoutField {
                                    name: f.name().to_owned(),
                                    offset: next,
                                    field_type: f.field_type().with_fixed_width(w),
                                };
                                next = next.saturating_add(w);
                                item
                            },
                        }
                    },
                },
            };
            done.push(item);
            assert(views(done@) =~= before.push(item@));
            i = i + 1;
        }
        match fixed_end(&done) {
            Err(e) => Err(e),
            Ok(bit_len) => {
                proof {
                    lemma_layout_of(done, bit_len);
                    crate::layout::laws::lemma_resolve_prefix(
                        v,
                        data@,
                        base as nat,
                        v.fields.len() as int,
                    );
                    crate::layout::laws::lemma_contiguous_disjoint(views(done@));
                }
                Ok(BitLayout { fields: done, bit_len })
            },
        }
    }

    /// Finds a field by a dotted path (`"header.source"`), descending into
    /// nested layouts: the field and its absolute bit offset.
    ///
    /// `None` if a name on the path is missing, a name before a `'.'` is
    /// not a nested layout, or the offset does not fit in `usize`.
    pub fn find_by_path(&self, path: &str) -> (r: Option<(&LayoutField, usize)>)
        ensures
            match path_lookup(self@, path@) {
                Some((f, abs)) => r matches Some((g, a)) && g@ == f && a == abs,
                None => r is None,
            },
        decreases self@,
    {
        proof {
            lemma_layout_fields_views(self);
            lemma_first_index(path@, '.', 0);
        }
        match split_once_char(path, '.') {
            None => match find_name(&self.fields, path) {
                Some(i) => {
                    proof {
                        lemma_name_index(self@.fields, path@, 0);
                    }
                    let f = &self.fields[i];
                    assert(f@ == self@.fields[i as int]);
                    Some((f, f.offset()))
                },
                None => None,
            },
            Some((head, rest)) => match find_name(&self.fields, head) {
                None => None,
                Some(i) => {
                    proof {
                        lemma_name_index(self@.fields, head@, 0);
                    }
                    let f = &self.fields[i];
                    assert(f@ == self@.fields[i as int]);
                    match f.field_type() {
                        FieldType::Layout(inner) => {
                            assert(f@.ty == TypeSpec::Layout((**inner)@));
                            assert(decreases_to!(self@ => (**inner)@));
                            match inner.find_by_path(rest) {
                                Some((g, abs)) => match f.offset().checked_add(abs) {
                                    Some(a) => Some((g, a)),
                                    None => None,
                                },
                                None => None,
                            }
                        },
                        _ => {
                            assert(!(f@.ty is Layout));
                            None
                        },
                    }
                },
            },
        }
    }

    /// Resolves variable-width fields against `data`, producing a layout
    /// whose widths and offsets are all concrete.
    ///
    /// A layout with nothing to resolve is returned unchanged. Otherwise the
    /// fields are laid out one after the other in declaration order: each
    /// derived width is the value of its source field, read from `data`
    /// (MSB-first, at the source's absolute position) and converted by its
    /// unit; a nested layout that needs it is resolved in place.
    ///
    /// Errors: [`LayoutError::InsufficientData`] if `data` does not hold a
    /// source field's bits, [`LayoutError::ResolvedZeroWidth`] if a derived
    /// width is zero, [`LayoutError::ArithmeticOverflow`] if a width or
    /// position does not fit.
    pub fn resolve(&self, data: &[u8]) -> (r: LayoutResult<BitLayout>)
        requires
            data@.len() * 8 <= usize::MAX,
        ensures
            match resolve_spec(self@, data@, 0) {
                Ok(l) => r matches Ok(x) && x@ == l,
                Err(e) => r matches Err(err) && err@ == e,
            },
    {
        self.resolve_at(data, 0)
    }
}

/// The abstract form of a [`BitLayoutBuilder`]: the fields added so far and
/// the offset where the next sequential field goes.
pub struct BuilderSpec {
    pub fields: Seq<FieldSpec>,
    pub next_offset: nat,
}

/// Builder for constructing a [`BitLayout`].
///
/// Fields are added sequentially (offsets calculated automatically) or at
/// explicit positions. The builder validates all constraints on [`build`](Self::build).
#[derive(Debug)]
pub struct BitLayoutBuilder {
    fields: Vec<LayoutField>,
    next_offset: usize,
}

impl View for BitLayoutBuilder {
    type V = BuilderSpec;

    closed spec fn view(&self) -> BuilderSpec {
        BuilderSpec { fields: views(self.fields@), next_offset: self.next_offset as nat }
    }
}

impl Default for BitLayoutBuilder {
    fn default() -> (r: Self)
        ensures
            r@.fields == Seq::<FieldSpec>::empty(),
            r@.next_offset == 0,
    {
        Self::new()
    }
}

impl BitLayoutBuilder {
    /// Creates a new empty builder.
    pub fn new() -> (r: Self)
        ensures
            r@.fields == Seq::<FieldSpec>::empty(),
            r@.next_offset == 0,
    {
        let r = BitLayoutBuilder { fields: Vec::new(), next_offset: 0 };
        assert(r@.fields =~= Seq::<FieldSpec>::empty());
        r
    }

    /// Adds a field at the next sequential position.
    pub fn field(self, name: &str, width: usize) -> (r: Self)
        ensures
            r@.fields == self@.fields.push(
                FieldSpec {
                    name: name@,
                    offset: self@.next_offset,
                    ty: TypeSpec::Primitive(WidthSpec::Fixed(width as nat)),
                },
            ),
            r@.next_offset == sat_add(self@.next_offset, width as nat),
    {
        let mut b = self;
        let f = LayoutField::new(name, BitRange::new(b.next_offset, width));
        b.fields.push(f);
        b.next_offset = b.next_offset.saturating_add(width);
        proof {
            assert(b@.fields =~= self@.fields.push(f@));
        }
        b
    }

    /// Adds a field at an explicit bit position.
    ///
    /// The next sequential offset is advanced past this field if needed.
    pub fn field_at(self, name: &str, offset: usize, width: usize) -> (r: Self)
        ensures
            r@.fields == self@.fields.push(
                FieldSpec {
                    name: name@,
                    offset: offset as nat,
                    ty: TypeSpec::Primitive(WidthSpec::Fixed(width as nat)),
                },
            ),
            r@.next_offset == (if sat_add(offset as nat, width as nat) > self@.next_offset {
                sat_add(offset as nat, width as nat)
            } else {
                self@.next_offset
            }),
    {
        let mut b = self;
        let f = LayoutField::new(name, BitRange::new(offset, width));
        b.fields.push(f);
        let end = offset.saturating_add(width);
        if end > b.next_offset {
            b.next_offset = end;
        }
        proof {
            assert(b@.fields =~= self@.fields.push(f@));
        }
        b
    }

    /// Adds a variable-width field whose width is derived from another field's value.
    ///
    /// The `source_field` must be a previously declared field in this builder.
    /// A placeholder offset (the current position) is stored; the real
    /// offset and width are computed during [`BitLayout::resolve`].
    pub fn field_var(self, name: &str, source_field: &str, unit: LengthUnit) -> (r: Self)
        ensures
            r@.fields == self@.fields.push(
                FieldSpec {
                    name: name@,
                    offset: self@.next_offset,
                    ty: TypeSpec::Primitive(WidthSpec::Derived { source: source_field@, unit }),
                },
            ),
            r@.next_offset == self@.next_offset,
    {
        let mut b = self;
        let width_spec = FieldWidth::DerivedFrom { source_field: source_field.to_owned(), unit };
        let f = LayoutField::new_variable(name, b.next_offset, width_spec);
        b.fields.push(f);
        proof {
            assert(b@.fields =~= self@.fields.push(f@));
        }
        b
    }

    /// Adds a field backed by a nested layout.
    pub fn field_layout(self, name: &str, layout: Arc<BitLayout>) -> (r: Self)
        ensures
            r@.fields == self@.fields.push(
                FieldSpec {
                    name: name@,
                    offset: self@.next_offset,
                    ty: TypeSpec::Layout((*layout)@),
                },
            ),
            r@.next_offset == sat_add(self@.next_offset, (*layout)@.bit_len),
    {
        let mut b = self;
        let width = layout.bit_len();
        let f = LayoutField::new_layout(name, b.next_offset, layout);
        b.fields.push(f);
        b.next_offset = b.next_offset.saturating_add(width);
        proof {
            assert(b@.fields =~= self@.fields.push(f@));
        }
        b
    }

    /// Adds a field holding an enumeration at the next sequential position.
    ///
    /// A fixed-width enumeration advances the position by its width; one
    /// whose width is derived from another field does not.
    pub fn field_enum(self, name: &str, def: Arc<EnumDef>) -> (r: Self)
        ensures
            r@.fields == self@.fields.push(
                FieldSpec { name: name@, offset: self@.next_offset, ty: TypeSpec::Enum((*def)@) },
            ),
            r@.next_offset == match (*def)@.width {
                WidthSpec::Fixed(w) => sat_add(self@.next_offset, w),
                WidthSpec::Derived { .. } => self@.next_offset,
            },
    {
        let mut b = self;
        let advance = def.width().fixed_width();
        let f = LayoutField::new_enum(name, b.next_offset, def);
        b.fields.push(f);
        if let Some(w) = advance {
            b.next_offset = b.next_offset.saturating_add(w);
        }
        proof {
            assert(b@.fields =~= self@.fields.push(f@));
        }
        b
    }

    /// Validates and builds the layout.
    ///
    /// The checks run in this order, and the first failure is returned:
    /// each field's name (empty, or holding a `'.'`) and fixed width (zero);
    /// duplicate names; the source references of derived widths (unknown,
    /// declared later, itself variable, wider than 64 bits); overlaps among
    /// fixed-width fields; ends beyond `usize` ([`LayoutError::ArithmeticOverflow`]).
    /// On success the layout keeps the fields as given, and its length is
    /// the largest end among its fixed-width fields.
    pub fn build(self) -> (r: LayoutResult<BitLayout>)
        ensures
            match build_outcome(self@.fields) {
                Ok(n) => r matches Ok(l) && l@ == (LayoutSpec { fields: self@.fields, bit_len: n }),
                Err(e) => r matches Err(err) && err@ == e,
            },
    {
        if let Some(e) = check_fields(&self.fields) {
            return Err(e);
        }
        if let Some(e) = check_duplicates(&self.fields) {
            return Err(e);
        }
        if let Some(e) = check_references(&self.fields) {
            return Err(e);
        }
        if let Some(e) = check_overlaps(&self.fields) {
            return Err(e);
        }
        match fixed_end(&self.fields) {
            Err(e) => Err(e),
            Ok(bit_len) => {
                proof {
                    lemma_layout_of(self.fields, bit_len);
                    crate::layout::laws::law_built_layout_is_valid(self@.fields);
                }
                Ok(BitLayout { fields: self.fields, bit_len })
            },
        }
    }
}

} // verus!
