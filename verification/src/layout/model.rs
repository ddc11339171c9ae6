//! The abstract model of layouts: fields and their types as mathematical
//! values, what building a layout checks, what resolving it computes, and
//! how paths are looked up.

use vstd::prelude::*;

use super::enum_def::EnumSpec;
use super::error::LayoutErrorView;
use super::field::{LengthUnit, WidthSpec};
use crate::bit::stream::{bits_of, bits_value};
use crate::text::{first_index, lemma_first_index};

verus! {

// ---------------------------------------------------------------------------
// Abstract model
// ---------------------------------------------------------------------------

/// The abstract form of a [`FieldType`].
pub enum TypeSpec {
    Primitive(WidthSpec),
    Layout(LayoutSpec),
    Enum(EnumSpec),
}

/// The abstract form of a [`LayoutField`].
pub struct FieldSpec {
    pub name: Seq<char>,
    pub offset: nat,
    pub ty: TypeSpec,
}

/// The abstract form of a [`BitLayout`]: its fields in order and its length.
pub struct LayoutSpec {
    pub fields: Seq<FieldSpec>,
    pub bit_len: nat,
}

impl TypeSpec {
    /// How the width is given, for primitive and enumeration fields.
    pub open spec fn width_spec(self) -> Option<WidthSpec> {
        match self {
            TypeSpec::Primitive(w) => Some(w),
            TypeSpec::Enum(e) => Some(e.width),
            TypeSpec::Layout(_) => None,
        }
    }

    /// The width when it is known without data: a nested layout's length,
    /// or a fixed width.
    pub open spec fn fixed_width(self) -> Option<nat> {
        match self {
            TypeSpec::Layout(l) => Some(l.bit_len),
            TypeSpec::Primitive(w) => w.fixed(),
            TypeSpec::Enum(e) => e.width.fixed(),
        }
    }

    pub open spec fn is_fixed(self) -> bool {
        self.fixed_width() is Some
    }

    /// The source field and unit of a width derived from another field.
    pub open spec fn derived(self) -> Option<(Seq<char>, LengthUnit)> {
        match self.width_spec() {
            Some(WidthSpec::Derived { source, unit }) => Some((source, unit)),
            _ => None,
        }
    }

    /// The same type with its width fixed to `w`.
    pub open spec fn with_fixed_width(self, w: nat) -> TypeSpec {
        match self {
            TypeSpec::Primitive(_) => TypeSpec::Primitive(WidthSpec::Fixed(w)),
            TypeSpec::Enum(e) => TypeSpec::Enum(EnumSpec { width: WidthSpec::Fixed(w), ..e }),
            TypeSpec::Layout(l) => TypeSpec::Layout(l),
        }
    }
}

impl FieldSpec {
    /// Width in bits; 0 while it depends on data.
    pub open spec fn width(self) -> nat {
        match self.ty.fixed_width() {
            Some(w) => w,
            None => 0,
        }
    }

    pub open spec fn end(self) -> nat {
        self.offset + self.width()
    }

    pub open spec fn contains(self, bit: nat) -> bool {
        self.offset <= bit < self.end()
    }

    pub open spec fn is_fixed(self) -> bool {
        self.ty.is_fixed()
    }

    pub open spec fn is_variable(self) -> bool {
        !self.ty.is_fixed()
    }

    pub open spec fn overlaps(self, other: FieldSpec) -> bool {
        self.offset < other.end() && other.offset < self.end()
    }
}

/// The index of the first field named `name`, searching from `k`.
pub open spec fn name_index(fs: Seq<FieldSpec>, name: Seq<char>, k: int) -> Option<int>
    decreases fs.len() - k,
{
    if k < 0 || k >= fs.len() {
        None
    } else if fs[k].name == name {
        Some(k)
    } else {
        name_index(fs, name, k + 1)
    }
}

/// `name_index` finds the first field with the name, or shows there is none.
pub proof fn lemma_name_index(fs: Seq<FieldSpec>, name: Seq<char>, k: int)
    requires
        0 <= k,
    ensures
        match name_index(fs, name, k) {
            Some(i) => k <= i < fs.len() && fs[i].name == name && forall|j: int|
                k <= j < i ==> #[trigger] fs[j].name != name,
            None => forall|j: int| k <= j < fs.len() ==> #[trigger] fs[j].name != name,
        },
    decreases fs.len() - k,
{
    if k < fs.len() && fs[k].name != name {
        lemma_name_index(fs, name, k + 1);
    }
}

/// The index of the first field containing `bit`, searching from `k`.
pub open spec fn bit_index(fs: Seq<FieldSpec>, bit: nat, k: int) -> Option<int>
    decreases fs.len() - k,
{
    if k < 0 || k >= fs.len() {
        None
    } else if fs[k].contains(bit) {
        Some(k)
    } else {
        bit_index(fs, bit, k + 1)
    }
}

/// `bit_index` finds the first field containing the bit, or shows there is none.
pub proof fn lemma_bit_index(fs: Seq<FieldSpec>, bit: nat, k: int)
    requires
        0 <= k,
    ensures
        match bit_index(fs, bit, k) {
            Some(i) => k <= i < fs.len() && fs[i].contains(bit) && forall|j: int|
                k <= j < i ==> !(#[trigger] fs[j].contains(bit)),
            None => forall|j: int| k <= j < fs.len() ==> !(#[trigger] fs[j].contains(bit)),
        },
    decreases fs.len() - k,
{
    if k < fs.len() && !fs[k].contains(bit) {
        lemma_bit_index(fs, bit, k + 1);
    }
}

/// `a + b`, saturating at `usize::MAX`.
pub open spec fn sat_add(a: nat, b: nat) -> nat {
    if a + b > usize::MAX {
        usize::MAX as nat
    } else {
        a + b
    }
}

/// The largest end of the first `n` fixed-width fields (0 if none).
pub open spec fn max_fixed_end(fs: Seq<FieldSpec>, n: int) -> nat
    decreases n,
{
    if n <= 0 || n > fs.len() {
        0
    } else {
        let m = max_fixed_end(fs, n - 1);
        if fs[n - 1].is_fixed() && fs[n - 1].end() > m {
            fs[n - 1].end()
        } else {
            m
        }
    }
}

/// Every field ends within `usize`.
pub open spec fn ends_fit(fs: Seq<FieldSpec>) -> bool {
    forall|i: int| 0 <= i < fs.len() ==> #[trigger] fs[i].end() <= usize::MAX
}

/// No two fields with a known width overlap.
pub open spec fn disjoint(fs: Seq<FieldSpec>) -> bool {
    forall|i: int, j: int|
        0 <= i < j < fs.len() && fs[i].is_fixed() && fs[j].is_fixed() ==> !(#[trigger] fs[i]).overlaps(
            #[trigger] fs[j],
        )
}

// ---------------------------------------------------------------------------
// Validation
// ---------------------------------------------------------------------------

/// What is wrong with a single field on its own.
pub open spec fn field_check(f: FieldSpec) -> Option<LayoutErrorView> {
    if f.name.len() == 0 {
        Some(LayoutErrorView::EmptyFieldName)
    } else if f.name.contains('.') {
        Some(LayoutErrorView::InvalidFieldName { name: f.name })
    } else if f.ty.fixed_width() == Some(0nat) {
        Some(LayoutErrorView::ZeroWidth { name: f.name })
    } else {
        None
    }
}

/// The first single-field error from field `i` on.
pub open spec fn first_field_error(fs: Seq<FieldSpec>, i: int) -> Option<LayoutErrorView>
    decreases fs.len() - i,
{
    if i < 0 || i >= fs.len() {
        None
    } else {
        match field_check(fs[i]) {
            Some(e) => Some(e),
            None => first_field_error(fs, i + 1),
        }
    }
}

/// A later field has the same name as field `i`.
pub open spec fn has_later_name(fs: Seq<FieldSpec>, i: int) -> bool {
    exists|j: int| i < j < fs.len() && #[trigger] fs[j].name == fs[i].name
}

/// The first duplicated name, by the position of its first occurrence,
/// from field `i` on.
pub open spec fn first_duplicate(fs: Seq<FieldSpec>, i: int) -> Option<LayoutErrorView>
    decreases fs.len() - i,
{
    if i < 0 || i >= fs.len() {
        None
    } else if has_later_name(fs, i) {
        Some(LayoutErrorView::DuplicateName { name: fs[i].name })
    } else {
        first_duplicate(fs, i + 1)
    }
}

/// What is wrong with the source reference of field `i`.
pub open spec fn reference_check(fs: Seq<FieldSpec>, i: int) -> Option<LayoutErrorView> {
    match fs[i].ty.derived() {
        None => None,
        Some((source, _)) => match name_index(fs, source, 0) {
            None => Some(LayoutErrorView::UnknownSourceField { field: fs[i].name, source }),
            Some(p) => if p >= i {
                Some(LayoutErrorView::ForwardReference { field: fs[i].name, source })
            } else if fs[p].is_variable() {
                Some(LayoutErrorView::VariableSourceField { field: fs[i].name, source })
            } else if fs[p].width() > 64 {
                Some(
                    LayoutErrorView::SourceFieldTooWide {
                        field: fs[i].name,
                        source,
                        width: fs[p].width(),
                    },
                )
            } else {
                None
            },
        },
    }
}

/// The first source-reference error from field `i` on.
pub open spec fn first_reference_error(fs: Seq<FieldSpec>, i: int) -> Option<LayoutErrorView>
    decreases fs.len() - i,
{
    if i < 0 || i >= fs.len() {
        None
    } else {
        match reference_check(fs, i) {
            Some(e) => Some(e),
            None => first_reference_error(fs, i + 1),
        }
    }
}

/// The fixed-width fields among the first `n`, in order.
pub open spec fn fixed_prefix(fs: Seq<FieldSpec>, n: int) -> Seq<FieldSpec>
    decreases n,
{
    if n <= 0 || n > fs.len() {
        Seq::empty()
    } else if fs[n - 1].is_fixed() {
        fixed_prefix(fs, n - 1).push(fs[n - 1])
    } else {
        fixed_prefix(fs, n - 1)
    }
}

/// The first field from `b` on that overlaps field `a`.
pub open spec fn overlap_partner(xs: Seq<FieldSpec>, a: int, b: int) -> Option<int>
    decreases xs.len() - b,
{
    if b < 0 || b >= xs.len() {
        None
    } else if xs[a].overlaps(xs[b]) {
        Some(b)
    } else {
        overlap_partner(xs, a, b + 1)
    }
}

/// The first overlapping pair, from field `a` on.
pub open spec fn first_overlap(xs: Seq<FieldSpec>, a: int) -> Option<LayoutErrorView>
    decreases xs.len() - a,
{
    if a < 0 || a >= xs.len() {
        None
    } else {
        match overlap_partner(xs, a, a + 1) {
            Some(b) => Some(
                LayoutErrorView::OverlappingFields { existing: xs[a].name, new: xs[b].name },
            ),
            None => first_overlap(xs, a + 1),
        }
    }
}

/// What building a layout from `fs` gives: the first error found by the
/// checks, in the order they run, or the layout's length.
pub open spec fn build_outcome(fs: Seq<FieldSpec>) -> Result<nat, LayoutErrorView> {
    if let Some(e) = first_field_error(fs, 0) {
        Err(e)
    } else if let Some(e) = first_duplicate(fs, 0) {
        Err(e)
    } else if let Some(e) = first_reference_error(fs, 0) {
        Err(e)
    } else if let Some(e) = first_overlap(fixed_prefix(fs, fs.len() as int), 0) {
        Err(e)
    } else if !ends_fit(fs) {
        Err(LayoutErrorView::ArithmeticOverflow)
    } else {
        Ok(max_fixed_end(fs, fs.len() as int))
    }
}

// ---------------------------------------------------------------------------
// Resolution
// ---------------------------------------------------------------------------

/// Some field, here or in a nested layout, has a width that depends on data.
pub open spec fn needs_resolution(v: LayoutSpec) -> bool {
    needs_from(v, 0)
}

/// Some field from the `k`-th on, here or in a nested layout, has a width
/// that depends on data.
pub open spec fn needs_from(v: LayoutSpec, k: int) -> bool
    decreases v, v.fields.len() - k,
{
    if k < 0 || k >= v.fields.len() {
        false
    } else {
        ||| v.fields[k].is_variable()
        ||| match v.fields[k].ty {
            TypeSpec::Layout(inner) => needs_from(inner, 0),
            _ => false,
        }
        ||| needs_from(v, k + 1)
    }
}

/// The width, in bits, of the field `name` derived from `source`, whose
/// value is read from `data`; `done` are the fields resolved before it and
/// `base` the position of the layout in the data.
pub open spec fn derived_width(
    done: Seq<FieldSpec>,
    name: Seq<char>,
    source: Seq<char>,
    unit: LengthUnit,
    data: Seq<u8>,
    base: nat,
) -> Result<nat, LayoutErrorView> {
    match name_index(done, source, 0) {
        None => Err(LayoutErrorView::UnknownSourceField { field: name, source }),
        Some(k) => {
            let start = base + done[k].offset;
            let end = start + done[k].width();
            let avail = data.len() * 8;
            if end > avail || done[k].width() > 64 {
                Err(
                    LayoutErrorView::InsufficientData {
                        field: name,
                        needed_bits: if end > usize::MAX {
                            usize::MAX as nat
                        } else {
                            end
                        },
                        available_bits: avail,
                    },
                )
            } else {
                let w = bits_value(bits_of(data).subrange(start as int, end as int)) * unit.factor();
                if w > u64::MAX || w > usize::MAX {
                    Err(LayoutErrorView::ArithmeticOverflow)
                } else if w == 0 {
                    Err(LayoutErrorView::ResolvedZeroWidth { field: name })
                } else {
                    Ok(w)
                }
            }
        },
    }
}

/// Resolves the first `n` fields of `v`, laid out one after the other:
/// the resolved fields and the offset after them.
pub open spec fn resolve_prefix(v: LayoutSpec, data: Seq<u8>, base: nat, n: int) -> Result<
    (Seq<FieldSpec>, nat),
    LayoutErrorView,
>
    decreases v, n,
{
    if n <= 0 || n > v.fields.len() {
        Ok((Seq::empty(), 0))
    } else {
        match resolve_prefix(v, data, base, n - 1) {
            Err(e) => Err(e),
            Ok((done, next)) => {
                let f = v.fields[n - 1];
                match f.ty {
                    TypeSpec::Layout(inner) => {
                        if !needs_resolution(inner) {
                            Ok(
                                (
                                    done.push(FieldSpec { offset: next, ..f }),
                                    sat_add(next, inner.bit_len),
                                ),
                            )
                        } else if base + next > usize::MAX {
                            Err(LayoutErrorView::ArithmeticOverflow)
                        } else {
                            match resolve_spec(inner, data, base + next) {
                                Err(e) => Err(e),
                                Ok(r) => Ok(
                                    (
                                        done.push(
                                            FieldSpec {
                                                name: f.name,
                                                offset: next,
                                                ty: TypeSpec::Layout(r),
                                            },
                                        ),
                                        sat_add(next, r.bit_len),
                                    ),
                                ),
                            }
                        }
                    },
                    _ => match f.ty.derived() {
                        None => Ok(
                            (done.push(FieldSpec { offset: next, ..f }), sat_add(next, f.width())),
                        ),
                        Some((source, unit)) => match derived_width(
                            done,
                            f.name,
                            source,
                            unit,
                            data,
                            base,
                        ) {
                            Err(e) => Err(e),
                            Ok(w) => Ok(
                                (
                                    done.push(
                                        FieldSpec {
                                            name: f.name,
                                            offset: next,
                                            ty: f.ty.with_fixed_width(w),
                                        },
                                    ),
                                    sat_add(next, w),
                                ),
                            ),
                        },
                    },
                }
            },
        }
    }
}

/// What resolving `v` against `data`, placed at bit `base`, gives.
///
/// A layout with nothing to resolve is returned unchanged. Otherwise the
/// fields are laid out one after the other, derived widths read from the
/// data, nested layouts resolved in place.
pub open spec fn resolve_spec(v: LayoutSpec, data: Seq<u8>, base: nat) -> Result<
    LayoutSpec,
    LayoutErrorView,
>
    decreases v, v.fields.len() + 1,
{
    if !needs_resolution(v) {
        Ok(v)
    } else {
        match resolve_prefix(v, data, base, v.fields.len() as int) {
            Err(e) => Err(e),
            Ok((fs, _)) => if ends_fit(fs) {
                Ok(LayoutSpec { fields: fs, bit_len: max_fixed_end(fs, fs.len() as int) })
            } else {
                Err(LayoutErrorView::ArithmeticOverflow)
            },
        }
    }
}

/// Follows a dotted path (`"header.source"`) through nested layouts: the
/// field and its absolute offset.
pub open spec fn path_lookup(v: LayoutSpec, path: Seq<char>) -> Option<(FieldSpec, nat)>
    decreases v,
{
    match first_index(path, '.', 0) {
        None => match name_index(v.fields, path, 0) {
            Some(i) => Some((v.fields[i], v.fields[i].offset)),
            None => None,
        },
        Some(d) => match name_index(v.fields, path.take(d), 0) {
            Some(i) => match v.fields[i].ty {
                TypeSpec::Layout(inner) => match {
                    proof {
                        lemma_name_index(v.fields, path.take(d), 0);
                    }
                    path_lookup(inner, path.skip(d + 1))
                } {
                    Some((g, abs)) => if v.fields[i].offset + abs <= usize::MAX {
                        Some((g, v.fields[i].offset + abs))
                    } else {
                        None
                    },
                    None => None,
                },
                _ => None,
            },
            None => None,
        },
    }
}

/// A field found by path lies at or after its own offset: its absolute
/// offset adds the offsets of the layouts around it.
pub proof fn lemma_path_offset(v: LayoutSpec, path: Seq<char>)
    ensures
        path_lookup(v, path) matches Some((f, abs)) ==> abs >= f.offset,
    decreases v,
{
    lemma_first_index(path, '.', 0);
    match first_index(path, '.', 0) {
        None => {},
        Some(d) => {
            lemma_name_index(v.fields, path.take(d), 0);
            match name_index(v.fields, path.take(d), 0) {
                Some(i) => match v.fields[i].ty {
                    TypeSpec::Layout(inner) => {
                        lemma_path_offset(inner, path.skip(d + 1));
                    },
                    _ => {},
                },
                None => {},
            }
        },
    }
}

} // verus!
