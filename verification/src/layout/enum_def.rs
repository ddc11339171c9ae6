//! Enumerations: named values that a field's bits may encode.

use vstd::prelude::*;
use vstd::arithmetic::power2::pow2;

use super::error::{LayoutError, LayoutErrorView, LayoutResult};
use super::field::{FieldWidth, WidthSpec};
use crate::text::{decimal, push_decimal, push_str};
use std::collections::HashMap;

verus! {

/// One named value of an enumeration.
#[derive(Debug, PartialEq)]
pub struct EnumVariant {
    pub name: String,
    pub value: u64,
}

impl View for EnumVariant {
    type V = (Seq<char>, u64);

    open spec fn view(&self) -> (Seq<char>, u64) {
        (self.name@, self.value)
    }
}

impl Clone for EnumVariant {
    fn clone(&self) -> (r: Self)
        ensures
            r@ == self@,
    {
        EnumVariant { name: self.name.clone(), value: self.value }
    }
}

/// The abstract form of an [`EnumDef`].
pub struct EnumSpec {
    pub name: Seq<char>,
    pub width: WidthSpec,
    pub variants: Seq<(Seq<char>, u64)>,
}

/// An enumeration: a name, the width of its encoding, and its variants.
///
/// Variant names are distinct, and so are variant values.
#[derive(Debug, PartialEq)]
pub struct EnumDef {
    name: String,
    width: FieldWidth,
    variants: Vec<EnumVariant>,
    by_value: HashMap<u64, String>,
}

impl View for EnumDef {
    type V = EnumSpec;

    closed spec fn view(&self) -> EnumSpec {
        EnumSpec {
            name: self.name@,
            width: self.width@,
            variants: self.variants@.map_values(|v: EnumVariant| v@),
        }
    }
}

/// The largest value a variant may have for an encoding of width `w`.
pub open spec fn max_value(w: WidthSpec) -> nat {
    match w {
        WidthSpec::Fixed(n) => if n < 64 {
            (pow2(n) - 1) as nat
        } else {
            u64::MAX as nat
        },
        WidthSpec::Derived { .. } => u64::MAX as nat,
    }
}

/// What is wrong with variant `i`, given the variants before it.
pub open spec fn variant_error(vs: Seq<(Seq<char>, u64)>, i: int, max: nat) -> Option<
    LayoutErrorView,
> {
    if vs[i].1 > max {
        Some(LayoutErrorView::ArithmeticOverflow)
    } else if exists|j: int| 0 <= j < i && vs[j].0 == vs[i].0 {
        Some(LayoutErrorView::DuplicateName { name: vs[i].0 })
    } else if exists|j: int| 0 <= j < i && vs[j].1 == vs[i].1 {
        Some(LayoutErrorView::DuplicateName { name: "value "@ + decimal(vs[i].1 as nat) })
    } else {
        None
    }
}

/// The error of the first bad variant among the first `n`.
pub open spec fn first_variant_error(vs: Seq<(Seq<char>, u64)>, n: int, max: nat) -> Option<
    LayoutErrorView,
>
    decreases n,
{
    if n <= 0 {
        None
    } else {
        match first_variant_error(vs, n - 1, max) {
            Some(e) => Some(e),
            None => variant_error(vs, n - 1, max),
        }
    }
}

/// The index of the first variant with value `value`.
pub open spec fn index_of_value(vs: Seq<(Seq<char>, u64)>, value: u64, k: int) -> Option<int>
    decreases vs.len() - k,
{
    if k < 0 || k >= vs.len() {
        None
    } else if vs[k].1 == value {
        Some(k)
    } else {
        index_of_value(vs, value, k + 1)
    }
}

/// The index of the first variant named `name`.
pub open spec fn index_of_name(vs: Seq<(Seq<char>, u64)>, name: Seq<char>, k: int) -> Option<int>
    decreases vs.len() - k,
{
    if k < 0 || k >= vs.len() {
        None
    } else if vs[k].0 == name {
        Some(k)
    } else {
        index_of_name(vs, name, k + 1)
    }
}

/// `index_of_value` finds the first variant with the value, or shows there
/// is none.
proof fn lemma_index_of_value(vs: Seq<(Seq<char>, u64)>, value: u64, k: int)
    requires
        0 <= k,
    ensures
        match index_of_value(vs, value, k) {
            Some(i) => k <= i < vs.len() && vs[i].1 == value,
            None => forall|j: int| k <= j < vs.len() ==> #[trigger] vs[j].1 != value,
        },
    decreases vs.len() - k,
{
    if k < vs.len() && vs[k].1 != value {
        lemma_index_of_value(vs, value, k + 1);
    }
}

/// `m` maps each variant value to the name of the first variant with it,
/// and holds no other value.
pub open spec fn names_by_value(m: Map<u64, String>, vs: Seq<(Seq<char>, u64)>) -> bool {
    forall|v: u64|
        #![trigger m.contains_key(v)]
        #![trigger index_of_value(vs, v, 0)]
        match index_of_value(vs, v, 0) {
            Some(i) => m.contains_key(v) && m[v]@ == vs[i].0,
            None => !m.contains_key(v),
        }
}

proof fn lemma_first_error_none(vs: Seq<(Seq<char>, u64)>, n: int, max: nat, i: int)
    requires
        0 <= i < n,
        first_variant_error(vs, n, max) is None,
    ensures
        variant_error(vs, i, max) is None,
    decreases n,
{
    if i < n - 1 {
        lemma_first_error_none(vs, n - 1, max, i);
    }
}

proof fn lemma_first_error_found(vs: Seq<(Seq<char>, u64)>, i: int, n: int, max: nat)
    requires
        0 <= i < n,
        first_variant_error(vs, i, max) is None,
        variant_error(vs, i, max) is Some,
    ensures
        first_variant_error(vs, n, max) == variant_error(vs, i, max),
    decreases n,
{
    if n > i + 1 {
        lemma_first_error_found(vs, i, n - 1, max);
    }
}

fn clone_variants(vs: &Vec<EnumVariant>) -> (r: Vec<EnumVariant>)
    ensures
        r@.map_values(|v: EnumVariant| v@) == vs@.map_values(|v: EnumVariant| v@),
{
    let mut r: Vec<EnumVariant> = Vec::new();
    let mut i: usize = 0;
    while i < vs.len()
        invariant
            i <= vs@.len(),
            r@.len() == i,
            forall|k: int| 0 <= k < i ==> r@[k]@ == vs@[k]@,
        decreases vs@.len() - i,
    {
        r.push(vs[i].clone());
        i = i + 1;
    }
    assert(r@.map_values(|v: EnumVariant| v@) =~= vs@.map_values(|v: EnumVariant| v@));
    r
}

impl EnumDef {
    #[verifier::type_invariant]
    spec fn inv(self) -> bool {
        names_by_value(self.by_value@, self@.variants)
    }

    /// Creates an enumeration, checking its variants in order: a value too
    /// large for the width fails with [`LayoutError::ArithmeticOverflow`], a
    /// repeated name or value with [`LayoutError::DuplicateName`].
    pub fn new(name: &str, width: FieldWidth, variants: Vec<EnumVariant>) -> (r: LayoutResult<
        Self,
    >)
        ensures
            ({
                let vs = variants@.map_values(|v: EnumVariant| v@);
                match first_variant_error(vs, vs.len() as int, max_value(width@)) {
                    Some(e) => r matches Err(err) && err@ == e,
                    None => r matches Ok(d) && d@ == EnumSpec {
                        name: name@,
                        width: width@,
                        variants: vs,
                    },
                }
            }),
            r matches Ok(d) ==> (forall|i: int, j: int|
                0 <= i < j < d@.variants.len() ==> d@.variants[i].0 != d@.variants[j].0
                    && d@.variants[i].1 != d@.variants[j].1),
    {
        let ghost vs = variants@.map_values(|v: EnumVariant| v@);
        let max_val: u64 = match &width {
            FieldWidth::Fixed(w) => {
                if *w < 64 {
                    proof {
                        vstd::bits::lemma_u64_pow2_no_overflow(*w as nat);
                        vstd::bits::lemma_u64_shl_is_mul(1u64, *w as u64);
                    }
                    (1u64 << (*w as u64)).wrapping_sub(1)
                } else {
                    u64::MAX
                }
            },
            FieldWidth::DerivedFrom { .. } => u64::MAX,
        };
        proof {
            assert(max_val == max_value(width@));
        }
        let mut i: usize = 0;
        while i < variants.len()
            invariant
                i <= variants@.len(),
                vs == variants@.map_values(|v: EnumVariant| v@),
                max_val == max_value(width@),
                first_variant_error(vs, i as int, max_val as nat) is None,
            decreases variants@.len() - i,
        {
            let v = &variants[i];
            if v.value > max_val {
                proof {
                    lemma_first_error_found(vs, i as int, vs.len() as int, max_val as nat);
                }
                return Err(LayoutError::ArithmeticOverflow);
            }
            let mut j: usize = 0;
            while j < i
                invariant
                    i < variants@.len(),
                    j <= i,
                    vs == variants@.map_values(|v: EnumVariant| v@),
                    *v == variants@[i as int],
                    max_val == max_value(width@),
                    v.value <= max_val,
                    first_variant_error(vs, i as int, max_val as nat) is None,
                    forall|k: int| 0 <= k < j ==> vs[k].0 != vs[i as int].0,
                decreases i - j,
            {
                if crate::text::str_eq(variants[j].name.as_str(), v.name.as_str()) {
                    proof {
                        assert(vs[j as int] == variants@[j as int]@);
                        assert(vs[i as int] == variants@[i as int]@);
                        assert(vs[j as int].0 == vs[i as int].0);
                        lemma_first_error_found(vs, i as int, vs.len() as int, max_val as nat);
                    }
                    return Err(LayoutError::DuplicateName { name: v.name.clone() });
                }
                proof {
                    assert(vs[j as int] == variants@[j as int]@);
                    assert(vs[i as int] == variants@[i as int]@);
                }
                j = j + 1;
            }
            let mut j: usize = 0;
            while j < i
                invariant
                    i < variants@.len(),
                    j <= i,
                    vs == variants@.map_values(|v: EnumVariant| v@),
                    *v == variants@[i as int],
                    max_val == max_value(width@),
                    v.value <= max_val,
                    first_variant_error(vs, i as int, max_val as nat) is None,
                    !(exists|k: int| 0 <= k < i && vs[k].0 == vs[i as int].0),
                    forall|k: int| 0 <= k < j ==> vs[k].1 != vs[i as int].1,
                decreases i - j,
            {
                if variants[j].value == v.value {
                    let mut msg = String::new();
                    push_str(&mut msg, "value ");
                    push_decimal(&mut msg, v.value as u128);
                    proof {
                        assert(vs[j as int] == variants@[j as int]@);
                        assert(vs[i as int] == variants@[i as int]@);
                        assert(vs[j as int].1 == vs[i as int].1);
                        lemma_first_error_found(vs, i as int, vs.len() as int, max_val as nat);
                    }
                    return Err(LayoutError::DuplicateName { name: msg });
                }
                proof {
                    assert(vs[j as int] == variants@[j as int]@);
                    assert(vs[i as int] == variants@[i as int]@);
                }
                j = j + 1;
            }
            i = i + 1;
        }
        proof {
            assert forall|a: int, b: int| 0 <= a < b < vs.len() implies vs[a].0 != vs[b].0
                && vs[a].1 != vs[b].1 by {
                lemma_first_error_none(vs, vs.len() as int, max_val as nat, b);
            }
        }
        let mut by_value: HashMap<u64, String> = HashMap::new();
        let mut i: usize = 0;
        while i < variants.len()
            invariant
                i <= variants@.len(),
                vs == variants@.map_values(|v: EnumVariant| v@),
                forall|a: int, b: int| 0 <= a < b < vs.len() ==> vs[a].1 != vs[b].1,
                forall|v: u64|
                    #![trigger by_value@.contains_key(v)]
                    by_value@.contains_key(v) <==> exists|k: int| 0 <= k < i && vs[k].1 == v,
                forall|k: int| 0 <= k < i ==> (#[trigger] by_value@[vs[k].1])@ == vs[k].0,
            decreases variants@.len() - i,
        {
            broadcast use vstd::std_specs::hash::group_hash_axioms;
            let v = &variants[i];
            assert(vs[i as int] == v@);
            by_value.insert(v.value, v.name.clone());
            proof {
                assert forall|k: int| 0 <= k < i + 1 implies (#[trigger] by_value@[vs[k].1])@
                    == vs[k].0 by {
                    if k < i {
                        assert(vs[k].1 != vs[i as int].1);
                    }
                }
                assert forall|w: u64| #![trigger by_value@.contains_key(w)]
                    by_value@.contains_key(w) <== exists|k: int| 0 <= k < i + 1 && vs[k].1 == w by {
                    if exists|k: int| 0 <= k < i + 1 && vs[k].1 == w {
                        let k = choose|k: int| 0 <= k < i + 1 && vs[k].1 == w;
                        if k < i {
                            assert(exists|k2: int| 0 <= k2 < i && vs[k2].1 == w);
                        }
                    }
                }
            }
            i = i + 1;
        }
        proof {
            assert forall|w: u64|
                #![trigger by_value@.contains_key(w)]
                #![trigger index_of_value(vs, w, 0)]
                match index_of_value(vs, w, 0) {
                    Some(k) => by_value@.contains_key(w) && by_value@[w]@ == vs[k].0,
                    None => !by_value@.contains_key(w),
                } by {
                lemma_index_of_value(vs, w, 0);
                match index_of_value(vs, w, 0) {
                    Some(k) => {
                        assert(by_value@[vs[k].1]@ == vs[k].0);
                    },
                    None => {
                        if by_value@.contains_key(w) {
                            let k = choose|k: int| 0 <= k < vs.len() && vs[k].1 == w;
                            assert(vs[k].1 != w);
                        }
                    },
                }
            }
        }
        let name = name.to_owned();
        Ok(EnumDef { name, width, variants, by_value })
    }

    /// The enumeration's name.
    pub fn name(&self) -> (r: &str)
        ensures
            r@ == self@.name,
    {
        self.name.as_str()
    }

    /// The width of the enumeration's encoding.
    pub fn width(&self) -> (r: &FieldWidth)
        ensures
            r@ == self@.width,
    {
        &self.width
    }

    /// The name of the first variant with the given value.
    pub fn variant_name(&self, value: u64) -> (r: Option<&str>)
        ensures
            match index_of_value(self@.variants, value, 0) {
                Some(i) => r matches Some(s) && s@ == self@.variants[i].0,
                None => r is None,
            },
    {
        broadcast use vstd::std_specs::hash::group_hash_axioms;
        proof {
            use_type_invariant(self);
            assert(self.by_value@.contains_key(value) || !self.by_value@.contains_key(value));
        }
        match self.by_value.get(&value) {
            Some(s) => Some(s.as_str()),
            None => None,
        }
    }

    /// The value of the first variant with the given name.
    pub fn variant_value(&self, name: &str) -> (r: Option<u64>)
        ensures
            match index_of_name(self@.variants, name@, 0) {
                Some(i) => r == Some(self@.variants[i].1),
                None => r is None,
            },
    {
        let ghost vs = self@.variants;
        let mut i: usize = 0;
        while i < self.variants.len()
            invariant
                i <= self.variants@.len(),
                vs == self@.variants,
                vs == self.variants@.map_values(|v: EnumVariant| v@),
                index_of_name(vs, name@, 0) == index_of_name(vs, name@, i as int),
            decreases self.variants@.len() - i,
        {
            if crate::text::str_eq(self.variants[i].name.as_str(), name) {
                return Some(self.variants[i].value);
            }
            i = i + 1;
        }
        None
    }

    /// A copy of this enumeration with another encoding width.
    pub fn with_width(&self, width: FieldWidth) -> (r: Self)
        ensures
            r@ == (EnumSpec { width: width@, ..self@ }),
    {
        proof {
            use_type_invariant(self);
        }
        EnumDef {
            name: self.name.clone(),
            width,
            variants: clone_variants(&self.variants),
            by_value: self.by_value.clone(),
        }
    }
}

impl Clone for EnumDef {
    fn clone(&self) -> (r: Self)
        ensures
            r@ == self@,
    {
        proof {
            use_type_invariant(self);
        }
        EnumDef {
            name: self.name.clone(),
            width: self.width.clone(),
            variants: clone_variants(&self.variants),
            by_value: self.by_value.clone(),
        }
    }
}

/// No variant among the first `n` is wrong exactly when none of them is.
proof fn lemma_first_variant_error(vs: Seq<(Seq<char>, u64)>, n: int, max: nat)
    requires
        0 <= n <= vs.len(),
    ensures
        first_variant_error(vs, n, max) is None <==> forall|i: int|
            0 <= i < n ==> #[trigger] variant_error(vs, i, max) is None,
    decreases n,
{
    if n > 0 {
        lemma_first_variant_error(vs, n - 1, max);
    }
}

/// Law: an enumeration of fixed width `w` takes exactly the values that fit
/// in `w` bits. Variants with distinct names and distinct values are
/// accepted exactly when every value is below `2^w`.
pub proof fn law_enum_accepts_values_that_fit(vs: Seq<(Seq<char>, u64)>, w: nat)
    requires
        forall|i: int, j: int|
            0 <= i < j < vs.len() ==> vs[i].0 != vs[j].0 && vs[i].1 != vs[j].1,
    ensures
        first_variant_error(vs, vs.len() as int, max_value(WidthSpec::Fixed(w))) is None
            <==> forall|i: int| 0 <= i < vs.len() ==> (#[trigger] vs[i].1 as nat) < pow2(w),
{
    let max = max_value(WidthSpec::Fixed(w));
    lemma_first_variant_error(vs, vs.len() as int, max);
    vstd::arithmetic::power2::lemma2_to64();
    vstd::arithmetic::power2::lemma_pow2_pos(w);
    if w >= 64 {
        if w > 64 {
            vstd::arithmetic::power2::lemma_pow2_strictly_increases(64, w);
        }
    }
    assert forall|i: int| 0 <= i < vs.len() implies (#[trigger] variant_error(vs, i, max) is None
        <==> (vs[i].1 as nat) < pow2(w)) by {
        assert(!(exists|j: int| 0 <= j < i && vs[j].0 == vs[i].0));
        assert(!(exists|j: int| 0 <= j < i && vs[j].1 == vs[i].1));
        if w < 64 {
            assert(max == pow2(w) - 1);
        } else {
            assert(max == u64::MAX);
            assert(pow2(w) >= pow2(64));
        }
    }
    if forall|i: int| 0 <= i < vs.len() ==> (#[trigger] vs[i].1 as nat) < pow2(w) {
        assert forall|i: int| 0 <= i < vs.len() implies #[trigger] variant_error(vs, i, max)
            is None by {
            assert((vs[i].1 as nat) < pow2(w));
        }
    }
    if first_variant_error(vs, vs.len() as int, max) is None {
        assert forall|i: int| 0 <= i < vs.len() implies (#[trigger] vs[i].1 as nat) < pow2(w) by {
            assert(variant_error(vs, i, max) is None);
        }
    }
}

} // verus!
