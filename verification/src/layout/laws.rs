//! What holds of every layout that builds, and of every resolution.

use vstd::prelude::*;

use super::error::LayoutErrorView;
use super::model::{
    bit_index, build_outcome, disjoint, ends_fit, field_check, first_duplicate, first_field_error,
    first_overlap, first_reference_error, fixed_prefix, has_later_name, lemma_bit_index,
    lemma_name_index, max_fixed_end, name_index, needs_from, needs_resolution, overlap_partner,
    reference_check, resolve_prefix, resolve_spec, sat_add, FieldSpec, LayoutSpec, TypeSpec,
    derived_width,
};
use super::field::LengthUnit;
use crate::bit::stream::{bits_of, bits_value};

verus! {

proof fn lemma_no_field_error(fs: Seq<FieldSpec>, k: int, i: int)
    requires
        0 <= k <= i < fs.len(),
        first_field_error(fs, k) is None,
    ensures
        field_check(fs[i]) is None,
    decreases i - k,
{
    if k < i {
        lemma_no_field_error(fs, k + 1, i);
    }
}

proof fn lemma_no_duplicate(fs: Seq<FieldSpec>, k: int, i: int)
    requires
        0 <= k <= i < fs.len(),
        first_duplicate(fs, k) is None,
    ensures
        !has_later_name(fs, i),
    decreases i - k,
{
    if k < i {
        lemma_no_duplicate(fs, k + 1, i);
    }
}

proof fn lemma_no_reference_error(fs: Seq<FieldSpec>, k: int, i: int)
    requires
        0 <= k <= i < fs.len(),
        first_reference_error(fs, k) is None,
    ensures
        reference_check(fs, i) is None,
    decreases i - k,
{
    if k < i {
        lemma_no_reference_error(fs, k + 1, i);
    }
}

proof fn lemma_no_partner(xs: Seq<FieldSpec>, a: int, b: int, c: int)
    requires
        0 <= a,
        0 <= b <= c < xs.len(),
        overlap_partner(xs, a, b) is None,
    ensures
        !xs[a].overlaps(xs[c]),
    decreases c - b,
{
    if b < c {
        lemma_no_partner(xs, a, b + 1, c);
    }
}

proof fn lemma_no_overlap(xs: Seq<FieldSpec>, k: int, a: int, b: int)
    requires
        0 <= k <= a < b < xs.len(),
        first_overlap(xs, k) is None,
    ensures
        !xs[a].overlaps(xs[b]),
    decreases a - k,
{
    if k < a {
        lemma_no_overlap(xs, k + 1, a, b);
    } else {
        lemma_no_partner(xs, a, a + 1, b);
    }
}

/// The fixed-width fields among the first `n` keep their order: a fixed
/// field `i < n` stands at position `fixed_prefix(fs, i).len()`.
proof fn lemma_fixed_prefix(fs: Seq<FieldSpec>, n: int)
    requires
        0 <= n <= fs.len(),
    ensures
        forall|i: int|
            0 <= i < n && fs[i].is_fixed() ==> #[trigger] fixed_prefix(fs, i).len() < fixed_prefix(
                fs,
                n,
            ).len() && fixed_prefix(fs, n)[fixed_prefix(fs, i).len() as int] == fs[i],
        forall|i: int, j: int|
            0 <= i < j <= n && fs[i].is_fixed() ==> #[trigger] fixed_prefix(fs, i).len()
                < #[trigger] fixed_prefix(fs, j).len(),
    decreases n,
{
    if n > 0 {
        lemma_fixed_prefix(fs, n - 1);
        assert forall|i: int, j: int|
            0 <= i < j <= n && fs[i].is_fixed() implies #[trigger] fixed_prefix(fs, i).len()
            < #[trigger] fixed_prefix(fs, j).len() by {
            if j == n {
                if i < n - 1 {
                    assert(fixed_prefix(fs, i).len() < fixed_prefix(fs, n - 1).len());
                }
            }
        }
    }
}

proof fn lemma_max_end(fs: Seq<FieldSpec>, n: int, i: int)
    requires
        0 <= i < n <= fs.len(),
        fs[i].is_fixed(),
    ensures
        fs[i].end() <= max_fixed_end(fs, n),
    decreases n,
{
    if i < n - 1 {
        lemma_max_end(fs, n - 1, i);
    }
}

/// A layout that builds is well formed: every name is non-empty, holds no
/// `'.'` and occurs once; no fixed width is zero; every derived width names
/// an earlier fixed-width field of at most 64 bits; no two fixed-width
/// fields overlap; every field ends within `usize`; and the length is the
/// end of some fixed-width field (or 0) and no fixed-width field ends after it.
pub proof fn law_built_layout_is_valid(fs: Seq<FieldSpec>)
    requires
        build_outcome(fs) is Ok,
    ensures
        forall|i: int|
            0 <= i < fs.len() ==> (#[trigger] fs[i]).name.len() > 0 && !fs[i].name.contains('.')
                && fs[i].ty.fixed_width() != Some(0nat),
        forall|i: int, j: int| 0 <= i < j < fs.len() ==> #[trigger] fs[i].name != #[trigger] fs[j].name,
        forall|i: int|
            0 <= i < fs.len() ==> match (#[trigger] fs[i]).ty.derived() {
                Some((source, _)) => match name_index(fs, source, 0) {
                    Some(p) => p < i && fs[p].is_fixed() && fs[p].width() <= 64,
                    None => false,
                },
                None => true,
            },
        forall|i: int, j: int|
            0 <= i < j < fs.len() && fs[i].is_fixed() && fs[j].is_fixed() ==> !(#[trigger] fs[i]).overlaps(
                #[trigger] fs[j],
            ),
        forall|i: int| 0 <= i < fs.len() ==> (#[trigger] fs[i]).end() <= usize::MAX,
        forall|i: int|
            0 <= i < fs.len() && (#[trigger] fs[i]).is_fixed() ==> fs[i].end() <= build_outcome(
                fs,
            )->Ok_0,
{
    let n = fs.len() as int;
    assert forall|i: int| 0 <= i < fs.len() implies (#[trigger] fs[i]).name.len() > 0
        && !fs[i].name.contains('.') && fs[i].ty.fixed_width() != Some(0nat) by {
        lemma_no_field_error(fs, 0, i);
    }
    assert forall|i: int, j: int| 0 <= i < j < fs.len() implies #[trigger] fs[i].name
        != #[trigger] fs[j].name by {
        lemma_no_duplicate(fs, 0, i);
    }
    assert forall|i: int| 0 <= i < fs.len() implies match (#[trigger] fs[i]).ty.derived() {
        Some((source, _)) => match name_index(fs, source, 0) {
            Some(p) => p < i && fs[p].is_fixed() && fs[p].width() <= 64,
            None => false,
        },
        None => true,
    } by {
        lemma_no_reference_error(fs, 0, i);
    }
    lemma_fixed_prefix(fs, n);
    let xs = fixed_prefix(fs, n);
    assert forall|i: int, j: int|
        0 <= i < j < fs.len() && fs[i].is_fixed() && fs[j].is_fixed() implies !(
        #[trigger] fs[i]).overlaps(#[trigger] fs[j]) by {
        let a = fixed_prefix(fs, i).len() as int;
        let b = fixed_prefix(fs, j).len() as int;
        assert(a < b);
        assert(xs[a] == fs[i]);
        assert(xs[b] == fs[j]);
        lemma_no_overlap(xs, 0, a, b);
    }
    assert forall|i: int| 0 <= i < fs.len() && (#[trigger] fs[i]).is_fixed() implies fs[i].end()
        <= build_outcome(fs)->Ok_0 by {
        lemma_max_end(fs, n, i);
    }
}

/// In a layout that builds, looking a name up finds the one field with that
/// name, and a name no field has finds nothing.
pub proof fn law_name_lookup(fs: Seq<FieldSpec>, name: Seq<char>)
    requires
        build_outcome(fs) is Ok,
    ensures
        forall|i: int| 0 <= i < fs.len() && fs[i].name == name ==> name_index(fs, name, 0) == Some(i),
        name_index(fs, name, 0) is None <==> forall|i: int| 0 <= i < fs.len() ==> fs[i].name != name,
{
    law_built_layout_is_valid(fs);
    lemma_name_index(fs, name, 0);
}

/// In a layout that builds, looking a bit up finds the one field that
/// contains it, and a bit no field contains finds nothing.
pub proof fn law_bit_lookup(fs: Seq<FieldSpec>, bit: nat)
    requires
        build_outcome(fs) is Ok,
    ensures
        forall|i: int| 0 <= i < fs.len() && fs[i].contains(bit) ==> bit_index(fs, bit, 0) == Some(i),
        bit_index(fs, bit, 0) is None <==> forall|i: int|
            0 <= i < fs.len() ==> !fs[i].contains(bit),
{
    law_built_layout_is_valid(fs);
    lemma_bit_index(fs, bit, 0);
    assert forall|i: int| 0 <= i < fs.len() && fs[i].contains(bit) implies bit_index(fs, bit, 0)
        == Some(i) by {
        match bit_index(fs, bit, 0) {
            Some(k) => {
                if k < i {
                    assert(fs[k].is_fixed() && fs[i].is_fixed());
                    assert(fs[k].overlaps(fs[i]));
                }
            },
            None => {},
        }
    }
}

/// The field is settled: its width is known and, for a nested layout,
/// nothing in it is left to resolve.
pub open spec fn settled(f: FieldSpec) -> bool {
    f.is_fixed() && match f.ty {
        TypeSpec::Layout(inner) => !needs_resolution(inner),
        _ => true,
    }
}

/// Fields laid out one after the other from bit 0, each starting where the
/// one before ends.
pub open spec fn contiguous(fs: Seq<FieldSpec>) -> bool {
    &&& fs.len() > 0 ==> fs[0].offset == 0
    &&& forall|k: int|
        0 <= k < fs.len() - 1 ==> #[trigger] fs[k + 1].offset == sat_add(fs[k].offset, fs[k].width())
}

/// In contiguous fields that end within `usize`, a later field starts at
/// or after the end of an earlier one.
proof fn lemma_contiguous_order(fs: Seq<FieldSpec>, i: int, j: int)
    requires
        contiguous(fs),
        ends_fit(fs),
        0 <= i < j < fs.len(),
    ensures
        fs[i].end() <= fs[j].offset,
    decreases j - i,
{
    let k = j - 1;
    assert(fs[k + 1].offset == sat_add(fs[k].offset, fs[k].width()));
    assert(fs[k].end() <= usize::MAX);
    if i < j - 1 {
        lemma_contiguous_order(fs, i, j - 1);
    }
}

/// Contiguous fields that end within `usize` do not overlap.
pub(crate) proof fn lemma_contiguous_disjoint(fs: Seq<FieldSpec>)
    requires
        contiguous(fs),
        ends_fit(fs),
    ensures
        disjoint(fs),
{
    assert forall|i: int, j: int|
        0 <= i < j < fs.len() && fs[i].is_fixed() && fs[j].is_fixed() implies !(
        #[trigger] fs[i]).overlaps(#[trigger] fs[j]) by {
        lemma_contiguous_order(fs, i, j);
    }
}

proof fn lemma_settled_needs_nothing(v: LayoutSpec, k: int)
    requires
        0 <= k,
        forall|j: int| 0 <= j < v.fields.len() ==> settled(#[trigger] v.fields[j]),
    ensures
        !needs_from(v, k),
    decreases v.fields.len() - k,
{
    if k < v.fields.len() {
        assert(settled(v.fields[k]));
        lemma_settled_needs_nothing(v, k + 1);
    }
}

pub(crate) proof fn lemma_resolve_prefix(v: LayoutSpec, data: Seq<u8>, base: nat, n: int)
    requires
        0 <= n <= v.fields.len(),
    ensures
        resolve_prefix(v, data, base, n) matches Ok((fs, next)) ==> {
            &&& fs.len() == n
            &&& forall|k: int| 0 <= k < n ==> (#[trigger] fs[k]).name == v.fields[k].name
            &&& forall|k: int| 0 <= k < n ==> settled(#[trigger] fs[k])
            &&& contiguous(fs)
            &&& next == (if n == 0 {
                0
            } else {
                sat_add(fs[n - 1].offset, fs[n - 1].width())
            })
        },
    decreases v, n,
{
    if n > 0 {
        lemma_resolve_prefix(v, data, base, n - 1);
        match resolve_prefix(v, data, base, n - 1) {
            Err(_) => {},
            Ok((done, next)) => {
                let f = v.fields[n - 1];
                match f.ty {
                    TypeSpec::Layout(inner) => {
                        if needs_resolution(inner) && base + next <= usize::MAX {
                            law_resolve_settles(inner, data, base + next);
                        }
                    },
                    _ => {},
                }
                match resolve_prefix(v, data, base, n) {
                    Err(_) => {},
                    Ok((fs, nx)) => {
                        assert(fs.drop_last() =~= done);
                        assert forall|k: int| 0 <= k < n implies (#[trigger] fs[k]).name
                            == v.fields[k].name by {
                            if k < n - 1 {
                                assert(fs[k] == done[k]);
                            }
                        }
                        assert forall|k: int| 0 <= k < n implies settled(#[trigger] fs[k]) by {
                            if k < n - 1 {
                                assert(fs[k] == done[k]);
                            }
                        }
                        assert forall|k: int| 0 <= k < fs.len() - 1 implies #[trigger] fs[k
                            + 1].offset == sat_add(fs[k].offset, fs[k].width()) by {
                            if k + 1 < n - 1 {
                                assert(fs[k] == done[k]);
                                assert(fs[k + 1] == done[k + 1]);
                            } else {
                                assert(fs[k] == done[k]);
                            }
                        }
                    },
                }
            },
        }
    }
}

/// Resolution leaves nothing to resolve: no field of the result, nor of a
/// layout nested in it, has a width that depends on data.
pub proof fn law_resolve_settles(v: LayoutSpec, data: Seq<u8>, base: nat)
    ensures
        resolve_spec(v, data, base) matches Ok(r) ==> !needs_resolution(r),
    decreases v, v.fields.len() + 1,
{
    if needs_resolution(v) {
        lemma_resolve_prefix(v, data, base, v.fields.len() as int);
        match resolve_spec(v, data, base) {
            Ok(r) => {
                lemma_settled_needs_nothing(r, 0);
            },
            Err(_) => {},
        }
    }
}

/// With nothing to resolve from the `k`-th field on, no field from there
/// has a width that depends on data.
proof fn lemma_no_variable_from(v: LayoutSpec, k: int, i: int)
    requires
        0 <= k <= i < v.fields.len(),
        !needs_from(v, k),
    ensures
        !v.fields[i].is_variable(),
    decreases i - k,
{
    if k < i {
        lemma_no_variable_from(v, k + 1, i);
    }
}

/// A layout that resolves has no field whose width depends on data, so it
/// has no variable fields.
pub proof fn law_resolved_has_no_variable_fields(v: LayoutSpec, data: Seq<u8>, base: nat)
    ensures
        resolve_spec(v, data, base) matches Ok(r) ==> forall|i: int|
            0 <= i < r.fields.len() ==> !(#[trigger] r.fields[i].is_variable()),
{
    law_resolve_settles(v, data, base);
    if let Ok(r) = resolve_spec(v, data, base) {
        assert forall|i: int| 0 <= i < r.fields.len() implies !(#[trigger] r.fields[i].is_variable()) by {
            lemma_no_variable_from(r, 0, i);
        }
    }
}

/// A layout with nothing to resolve resolves to itself, whatever the data.
pub proof fn law_resolve_without_variables_is_identity(v: LayoutSpec, data: Seq<u8>, base: nat)
    requires
        !needs_resolution(v),
    ensures
        resolve_spec(v, data, base) == Ok::<LayoutSpec, LayoutErrorView>(v),
{
}

/// When a layout is resolved, the result has the same fields by name, in
/// the same order, laid out one after the other from bit 0: each field's
/// offset is the sum of the widths before it.
pub proof fn law_resolve_is_contiguous(v: LayoutSpec, data: Seq<u8>, base: nat)
    requires
        needs_resolution(v),
    ensures
        resolve_spec(v, data, base) matches Ok(r) ==> {
            &&& r.fields.len() == v.fields.len()
            &&& forall|k: int| 0 <= k < r.fields.len() ==> (#[trigger] r.fields[k]).name == v.fields[k].name
            &&& contiguous(r.fields)
        },
{
    lemma_resolve_prefix(v, data, base, v.fields.len() as int);
}

/// A field whose width depends on data leaves something to resolve.
proof fn lemma_variable_needs(v: LayoutSpec, j: int, k: int)
    requires
        0 <= j <= k < v.fields.len(),
        v.fields[k].is_variable(),
    ensures
        needs_from(v, j),
    decreases k - j,
{
    if j < k {
        lemma_variable_needs(v, j + 1, k);
    }
}

/// Resolving more fields keeps the fields resolved before.
proof fn lemma_resolve_prefix_stable(v: LayoutSpec, data: Seq<u8>, base: nat, n: int, m: int)
    requires
        0 <= n <= m <= v.fields.len(),
        resolve_prefix(v, data, base, m) is Ok,
    ensures
        resolve_prefix(v, data, base, n) matches Ok((gs, _)) && gs == resolve_prefix(
            v,
            data,
            base,
            m,
        )->Ok_0.0.take(n),
    decreases m,
{
    lemma_resolve_prefix(v, data, base, m);
    let fs = resolve_prefix(v, data, base, m)->Ok_0.0;
    if n == m {
        assert(fs.take(n) =~= fs);
    } else {
        let done = resolve_prefix(v, data, base, m - 1)->Ok_0.0;
        assert(fs.drop_last() == done);
        lemma_resolve_prefix_stable(v, data, base, n, m - 1);
        assert(done.take(n) =~= fs.take(n));
    }
}

/// The number of bits in one unit of a length.
pub open spec fn bits_per_unit(unit: LengthUnit) -> nat {
    match unit {
        LengthUnit::Bits => 1,
        LengthUnit::Bytes => 8,
    }
}

/// Law: a width that depends on data is read where its source field ends
/// up. When a layout resolves, the derived field `k` is as wide as the
/// number spelled by the bits of its source field `p` at the position the
/// source has in the result (plus `base`), times the bits per unit; the
/// source is at most 64 bits wide and lies in the data.
pub proof fn law_derived_width_read_at_source(
    v: LayoutSpec,
    data: Seq<u8>,
    base: nat,
    k: int,
    p: int,
)
    requires
        0 <= p < k < v.fields.len(),
        v.fields[k].ty.derived() matches Some((source, _)) && v.fields[p].name == source,
        forall|q: int| 0 <= q < p ==> v.fields[q].name != v.fields[p].name,
    ensures
        resolve_spec(v, data, base) matches Ok(r) ==> {
            let s = r.fields[p];
            let unit = v.fields[k].ty.derived().unwrap().1;
            &&& s.width() <= 64
            &&& base + s.offset + s.width() <= data.len() * 8
            &&& r.fields[k].width() == bits_value(
                bits_of(data).subrange(
                    (base + s.offset) as int,
                    (base + s.offset + s.width()) as int,
                ),
            ) * bits_per_unit(unit)
        },
{
    let f = v.fields[k];
    assert(f.is_variable());
    lemma_variable_needs(v, 0, k);
    if let Ok(r) = resolve_spec(v, data, base) {
        let n = v.fields.len() as int;
        let fs = resolve_prefix(v, data, base, n)->Ok_0.0;
        assert(r.fields == fs);
        lemma_resolve_prefix(v, data, base, n);
        lemma_resolve_prefix_stable(v, data, base, k + 1, n);
        lemma_resolve_prefix_stable(v, data, base, k, n);
        let done = resolve_prefix(v, data, base, k)->Ok_0.0;
        let (source, unit) = f.ty.derived().unwrap();
        lemma_resolve_prefix(v, data, base, k);
        lemma_name_index(done, source, 0);
        match name_index(done, source, 0) {
            Some(q) => {
                assert(done[p].name == v.fields[p].name);
                if q < p {
                    assert(done[q].name == v.fields[q].name);
                }
                assert(q == p);
            },
            None => {
                assert(done[p].name == v.fields[p].name);
            },
        }
        match derived_width(done, f.name, source, unit, data, base) {
            Ok(w) => {
                assert(resolve_prefix(v, data, base, k + 1)->Ok_0.0 == done.push(
                    FieldSpec { name: f.name, offset: resolve_prefix(v, data, base, k)->Ok_0.1, ty: f.ty.with_fixed_width(w) },
                ));
                assert(fs[k] == fs.take(k + 1)[k]);
                assert(fs[p] == done[p]);
                assert(fs[k].width() == w);
            },
            Err(_) => {
                assert(resolve_prefix(v, data, base, k + 1) is Err);
            },
        }
    }
}

/// The conditions on a field list, field by field, under which a layout
/// builds: names non-empty, without `'.'` and distinct; no fixed width
/// zero; every derived width names an earlier fixed-width field of at most
/// 64 bits; no two fixed-width fields overlap; every field ends within
/// `usize`.
pub open spec fn buildable(fs: Seq<FieldSpec>) -> bool {
    &&& forall|i: int|
        0 <= i < fs.len() ==> (#[trigger] fs[i]).name.len() > 0 && !fs[i].name.contains('.')
    &&& forall|i: int, j: int| 0 <= i < j < fs.len() ==> #[trigger] fs[i].name != #[trigger] fs[j].name
    &&& forall|i: int| 0 <= i < fs.len() && (#[trigger] fs[i]).is_fixed() ==> fs[i].width() > 0
    &&& forall|i: int|
        0 <= i < fs.len() ==> ((#[trigger] fs[i]).ty.derived() matches Some((source, _))
            ==> exists|p: int|
            0 <= p < i && (#[trigger] fs[p]).name == source && fs[p].is_fixed() && fs[p].width() <= 64)
    &&& forall|i: int, j: int|
        0 <= i < j < fs.len() && fs[i].is_fixed() && fs[j].is_fixed() ==> !(
        #[trigger] fs[i]).overlaps(#[trigger] fs[j])
    &&& forall|i: int| 0 <= i < fs.len() ==> (#[trigger] fs[i]).end() <= usize::MAX
}

proof fn lemma_fields_ok_from(fs: Seq<FieldSpec>, k: int)
    requires
        0 <= k,
        forall|i: int| 0 <= i < fs.len() ==> #[trigger] field_check(fs[i]) is None,
    ensures
        first_field_error(fs, k) is None,
    decreases fs.len() - k,
{
    if k < fs.len() {
        assert(field_check(fs[k]) is None);
        lemma_fields_ok_from(fs, k + 1);
    }
}

proof fn lemma_no_duplicate_from(fs: Seq<FieldSpec>, k: int)
    requires
        0 <= k,
        forall|i: int| 0 <= i < fs.len() ==> !#[trigger] has_later_name(fs, i),
    ensures
        first_duplicate(fs, k) is None,
    decreases fs.len() - k,
{
    if k < fs.len() {
        assert(!has_later_name(fs, k));
        lemma_no_duplicate_from(fs, k + 1);
    }
}

proof fn lemma_references_ok_from(fs: Seq<FieldSpec>, k: int)
    requires
        0 <= k,
        forall|i: int| 0 <= i < fs.len() ==> #[trigger] reference_check(fs, i) is None,
    ensures
        first_reference_error(fs, k) is None,
    decreases fs.len() - k,
{
    if k < fs.len() {
        assert(reference_check(fs, k) is None);
        lemma_references_ok_from(fs, k + 1);
    }
}

/// No two of the fixed-width fields among the first `n` overlap, nor does
/// any of them overlap a later fixed-width field.
proof fn lemma_fixed_prefix_members(fs: Seq<FieldSpec>, n: int)
    requires
        0 <= n <= fs.len(),
        forall|i: int, j: int|
            0 <= i < j < fs.len() && fs[i].is_fixed() && fs[j].is_fixed() ==> !(
            #[trigger] fs[i]).overlaps(#[trigger] fs[j]),
    ensures
        forall|a: int, j: int|
            0 <= a < fixed_prefix(fs, n).len() && n <= j < fs.len() && fs[j].is_fixed() ==> !(
            #[trigger] fixed_prefix(fs, n)[a]).overlaps(#[trigger] fs[j]),
        forall|a: int, b: int|
            0 <= a < b < fixed_prefix(fs, n).len() ==> !(#[trigger] fixed_prefix(fs, n)[a]).overlaps(
                #[trigger] fixed_prefix(fs, n)[b],
            ),
    decreases n,
{
    if n == 0 {
        assert(fixed_prefix(fs, 0).len() == 0);
    } else {
        lemma_fixed_prefix_members(fs, n - 1);
        let xs = fixed_prefix(fs, n - 1);
        let ys = fixed_prefix(fs, n);
        if fs[n - 1].is_fixed() {
            assert(ys == xs.push(fs[n - 1]));
            assert forall|a: int, j: int|
                0 <= a < ys.len() && n <= j < fs.len() && fs[j].is_fixed() implies !(
                #[trigger] ys[a]).overlaps(#[trigger] fs[j]) by {
                if a < xs.len() {
                    assert(ys[a] == xs[a]);
                } else {
                    assert(ys[a] == fs[n - 1]);
                }
            }
            assert forall|a: int, b: int| 0 <= a < b < ys.len() implies !(
            #[trigger] ys[a]).overlaps(#[trigger] ys[b]) by {
                assert(ys[a] == xs[a]);
                if b < xs.len() {
                    assert(ys[b] == xs[b]);
                } else {
                    assert(ys[b] == fs[n - 1]);
                }
            }
        } else {
            assert(ys == xs);
        }
    }
}

proof fn lemma_no_partner_from(xs: Seq<FieldSpec>, a: int, b: int)
    requires
        0 <= a < b,
        forall|c: int, d: int| 0 <= c < d < xs.len() ==> !(#[trigger] xs[c]).overlaps(#[trigger] xs[d]),
    ensures
        overlap_partner(xs, a, b) is None,
    decreases xs.len() - b,
{
    if b < xs.len() {
        assert(!xs[a].overlaps(xs[b]));
        lemma_no_partner_from(xs, a, b + 1);
    }
}

proof fn lemma_no_overlap_from(xs: Seq<FieldSpec>, a: int)
    requires
        0 <= a,
        forall|c: int, d: int| 0 <= c < d < xs.len() ==> !(#[trigger] xs[c]).overlaps(#[trigger] xs[d]),
    ensures
        first_overlap(xs, a) is None,
    decreases xs.len() - a,
{
    if a < xs.len() {
        lemma_no_partner_from(xs, a, a + 1);
        lemma_no_overlap_from(xs, a + 1);
    }
}

/// Law: a layout builds exactly when its fields meet the conditions of
/// [`buildable`]; its length is then the largest end of a fixed-width
/// field.
pub proof fn law_build_succeeds_exactly_when_buildable(fs: Seq<FieldSpec>)
    ensures
        build_outcome(fs) is Ok <==> buildable(fs),
        buildable(fs) ==> build_outcome(fs) == Ok::<nat, LayoutErrorView>(
            max_fixed_end(fs, fs.len() as int),
        ),
{
    if build_outcome(fs) is Ok {
        law_built_layout_is_valid(fs);
        assert forall|i: int| 0 <= i < fs.len() implies ((#[trigger] fs[i]).ty.derived() matches Some(
            (source, _),
        ) ==> exists|p: int|
            0 <= p < i && (#[trigger] fs[p]).name == source && fs[p].is_fixed() && fs[p].width()
                <= 64) by {
            if let Some((source, _)) = fs[i].ty.derived() {
                lemma_name_index(fs, source, 0);
                let p = name_index(fs, source, 0).unwrap();
                assert(fs[p].name == source);
            }
        }
        assert forall|i: int| 0 <= i < fs.len() && (#[trigger] fs[i]).is_fixed() implies fs[i].width()
            > 0 by {
            assert(fs[i].ty.fixed_width() != Some(0nat));
        }
    }
    if buildable(fs) {
        assert forall|i: int| 0 <= i < fs.len() implies #[trigger] field_check(fs[i]) is None by {
            assert(fs[i].name.len() > 0 && !fs[i].name.contains('.'));
            if fs[i].is_fixed() {
                assert(fs[i].width() > 0);
            }
        }
        lemma_fields_ok_from(fs, 0);
        assert forall|i: int| 0 <= i < fs.len() implies !#[trigger] has_later_name(fs, i) by {
            if has_later_name(fs, i) {
                let j = choose|j: int| i < j < fs.len() && #[trigger] fs[j].name == fs[i].name;
                assert(fs[i].name != fs[j].name);
            }
        }
        lemma_no_duplicate_from(fs, 0);
        assert forall|i: int| 0 <= i < fs.len() implies #[trigger] reference_check(fs, i) is None by {
            if let Some((source, _)) = fs[i].ty.derived() {
                let p = choose|p: int|
                    0 <= p < i && (#[trigger] fs[p]).name == source && fs[p].is_fixed()
                        && fs[p].width() <= 64;
                lemma_name_index(fs, source, 0);
                match name_index(fs, source, 0) {
                    Some(q) => {
                        if q != p {
                            if q < p {
                                assert(fs[q].name != fs[p].name);
                            } else {
                                assert(fs[p].name != fs[q].name);
                            }
                        }
                    },
                    None => {
                        assert(fs[p].name == source);
                    },
                }
            }
        }
        lemma_references_ok_from(fs, 0);
        lemma_fixed_prefix_members(fs, fs.len() as int);
        lemma_no_overlap_from(fixed_prefix(fs, fs.len() as int), 0);
    }
}

} // verus!
