//! Format identifiers, extracted field values, and what a formatter is given.

use vstd::prelude::*;

use crate::bit::stream::{bits_of, bits_value, lemma_bits_value_bound};
use crate::bit::BitReader;
use crate::layout::enum_def::index_of_value;
use crate::layout::field::{FieldSpec, FieldType, LayoutField, TypeSpec};
use crate::layout::layout::views;
use crate::layout::model::LayoutSpec;
use vstd::arithmetic::power2::{lemma2_to64, lemma_pow2_strictly_increases};

verus! {

/// A format identifier used for lookup in the registry and selection in views.
#[derive(Debug, PartialEq, Eq, Hash)]
pub struct FormatId(pub String);

impl View for FormatId {
    type V = Seq<char>;

    open spec fn view(&self) -> Seq<char> {
        self.0@
    }
}

impl Clone for FormatId {
    fn clone(&self) -> (r: Self)
        ensures
            r@ == self@,
    {
        FormatId(self.0.clone())
    }
}

impl FormatId {
    /// Creates a new format ID.
    pub fn new(id: &str) -> (r: Self)
        ensures
            r@ == id@,
    {
        FormatId(id.to_owned())
    }

    /// Returns the string slice of the ID.
    pub fn as_str(&self) -> (r: &str)
        ensures
            r@ == self@,
    {
        self.0.as_str()
    }
}

impl From<String> for FormatId {
    fn from(id: String) -> (r: Self)
        ensures
            r@ == id@,
    {
        FormatId(id)
    }
}

impl vstd::std_specs::convert::FromSpecImpl<String> for FormatId {
    open spec fn obeys_from_spec() -> bool {
        true
    }

    open spec fn from_spec(id: String) -> FormatId {
        FormatId(id)
    }
}

/// The abstract form of a [`Value`].
pub enum ValueSpec {
    Primitive(u64),
    EnumVariant { value: u64, name: Option<Seq<char>> },
    Nested(Seq<(Seq<char>, ValueSpec)>),
}

impl ValueSpec {
    /// The raw number of a primitive or enumeration value.
    pub open spec fn number(self) -> Option<u64> {
        match self {
            ValueSpec::Primitive(v) => Some(v),
            ValueSpec::EnumVariant { value, .. } => Some(value),
            ValueSpec::Nested(_) => None,
        }
    }
}

/// The extracted structured data of a field.
#[derive(Debug, PartialEq)]
pub enum Value {
    /// A raw primitive integer.
    Primitive(u64),
    /// An enum value, with its optional matched variant name.
    EnumVariant { value: u64, name: Option<String> },
    /// A nested structure of named fields.
    Nested(Vec<(String, Value)>),
}

/// The abstract form of a value.
pub open spec fn value_view(v: Value) -> ValueSpec
    decreases v, (match v {
        Value::Nested(c) => c@.len() + 1,
        _ => 0,
    }),
{
    match v {
        Value::Primitive(x) => ValueSpec::Primitive(x),
        Value::EnumVariant { value, name } => ValueSpec::EnumVariant {
            value,
            name: match name {
                Some(s) => Some(s@),
                None => None,
            },
        },
        Value::Nested(c) => ValueSpec::Nested(entries_view(v, c@.len() as int)),
    }
}

/// The abstract forms of the first `n` entries of a nested value.
pub open spec fn entries_view(v: Value, n: int) -> Seq<(Seq<char>, ValueSpec)>
    decreases v, n,
{
    match v {
        Value::Nested(c) => if n <= 0 || n > c@.len() {
            Seq::empty()
        } else {
            entries_view(v, n - 1).push((c@[n - 1].0@, value_view(c@[n - 1].1)))
        },
        _ => Seq::empty(),
    }
}

impl View for Value {
    type V = ValueSpec;

    open spec fn view(&self) -> ValueSpec {
        value_view(*self)
    }
}

proof fn lemma_entries_view(v: Value, n: int)
    requires
        v is Nested,
        0 <= n <= v->Nested_0@.len(),
    ensures
        entries_view(v, n).len() == n,
        forall|i: int|
            0 <= i < n ==> #[trigger] entries_view(v, n)[i] == (
                v->Nested_0@[i].0@,
                v->Nested_0@[i].1@,
            ),
    decreases n,
{
    if n > 0 {
        lemma_entries_view(v, n - 1);
    }
}

/// The view of a nested value made of `entries`.
proof fn lemma_nested_view(entries: Vec<(String, Value)>)
    ensures
        Value::Nested(entries)@ == ValueSpec::Nested(
            entries@.map_values(|e: (String, Value)| (e.0@, e.1@)),
        ),
{
    let v = Value::Nested(entries);
    lemma_entries_view(v, entries@.len() as int);
    assert(entries_view(v, entries@.len() as int) =~= entries@.map_values(
        |e: (String, Value)| (e.0@, e.1@),
    ));
}

/// A copy of `v`.
fn clone_value(v: &Value) -> (r: Value)
    ensures
        r@ == v@,
    decreases v,
{
    match v {
        Value::Primitive(x) => Value::Primitive(*x),
        Value::EnumVariant { value, name } => Value::EnumVariant {
            value: *value,
            name: match name {
                Some(s) => Some(s.clone()),
                None => None,
            },
        },
        Value::Nested(children) => {
            let mut out: Vec<(String, Value)> = Vec::new();
            let mut i: usize = 0;
            while i < children.len()
                invariant
                    i <= children@.len(),
                    *v == Value::Nested(*children),
                    out@.len() == i,
                    forall|k: int|
                        0 <= k < i ==> #[trigger] out@[k].0@ == children@[k].0@ && out@[k].1@
                            == children@[k].1@,
                decreases children@.len() - i,
            {
                let entry = &children[i];
                assert(decreases_to!(*v => (*v)->Nested_0));
                assert(decreases_to!(children => children@));
                assert(decreases_to!(children@ => children@[i as int]));
                assert(decreases_to!(children@[i as int] => children@[i as int].1));
                let copy = clone_value(&entry.1);
                out.push((entry.0.clone(), copy));
                i = i + 1;
            }
            proof {
                lemma_nested_view(out);
                lemma_nested_view(*children);
                assert(out@.map_values(|e: (String, Value)| (e.0@, e.1@)) =~= children@.map_values(
                    |e: (String, Value)| (e.0@, e.1@),
                ));
            }
            Value::Nested(out)
        },
    }
}

impl Clone for Value {
    fn clone(&self) -> (r: Self)
        ensures
            r@ == self@,
    {
        clone_value(self)
    }
}

/// The view of an optional value.
pub open spec fn opt_view(v: Option<Value>) -> Option<ValueSpec> {
    match v {
        Some(x) => Some(x@),
        None => None,
    }
}

/// Context provided to a formatter when rendering a field or bit range.
#[derive(Debug, Clone)]
pub struct FormatContext<'a> {
    /// The raw buffer containing the data.
    pub data: &'a [u8],
    /// Bit offset of the field.
    pub offset: usize,
    /// Width of the field in bits.
    pub width: usize,
    /// The extracted structured value, if available.
    pub parsed_value: Option<Value>,
    /// The field type providing context, if any.
    pub field_type: Option<&'a FieldType>,
}

/// The abstract form of a [`FormatContext`].
pub struct ContextSpec {
    pub data: Seq<u8>,
    pub offset: nat,
    pub width: nat,
    pub value: Option<ValueSpec>,
    pub ty: Option<TypeSpec>,
}

impl ContextSpec {
    /// The raw number of the value, if it is a primitive or an enumeration.
    pub open spec fn number(self) -> Option<u64> {
        match self.value {
            Some(v) => v.number(),
            None => None,
        }
    }
}

impl<'a> FormatContext<'a> {
    /// What the context holds, as plain values.
    pub open spec fn model(&self) -> ContextSpec {
        ContextSpec {
            data: self.data@,
            offset: self.offset as nat,
            width: self.width as nat,
            value: opt_view(self.parsed_value),
            ty: match self.field_type {
                Some(t) => Some(t@),
                None => None,
            },
        }
    }

    /// The raw number of the parsed value, if it is a primitive or an enumeration.
    pub open spec fn number(&self) -> Option<u64> {
        self.model().number()
    }

    /// Returns the raw numeric value if the parsed value is a primitive or an
    /// enumeration.
    pub fn numeric_value(&self) -> (r: Option<u64>)
        ensures
            r == self.number(),
    {
        match &self.parsed_value {
            Some(Value::Primitive(v)) => Some(*v),
            Some(Value::EnumVariant { value, .. }) => Some(*value),
            _ => None,
        }
    }
}

/// The `width` bits of `data` from bit `start`, as a number, when they are
/// there and fit in 64 bits.
pub open spec fn read_number(data: Seq<u8>, start: nat, width: nat) -> Option<u64> {
    if width <= 64 && start + width <= data.len() * 8 {
        Some(bits_value(bits_of(data).subrange(start as int, (start + width) as int)) as u64)
    } else {
        None
    }
}

/// The value of a primitive or enumeration field of a layout placed at bit
/// `base` of `data`.
pub open spec fn leaf_value(f: FieldSpec, data: Seq<u8>, base: nat) -> Option<ValueSpec> {
    match read_number(data, base + f.offset, f.width()) {
        None => None,
        Some(v) => match f.ty {
            TypeSpec::Primitive(_) => Some(ValueSpec::Primitive(v)),
            TypeSpec::Enum(e) => Some(
                ValueSpec::EnumVariant {
                    value: v,
                    name: match index_of_value(e.variants, v, 0) {
                        Some(i) => Some(e.variants[i].0),
                        None => None,
                    },
                },
            ),
            TypeSpec::Layout(_) => None,
        },
    }
}

/// The value of field `f` of a layout placed at bit `base` of `data`.
///
/// A primitive or enumeration field gives its number (and variant name),
/// when its bits are in the data and it is at most 64 bits wide. A nested
/// layout gives the values of its fields that have one, in order, each read
/// at `base` plus the field's own offset.
pub open spec fn extract_spec(f: FieldSpec, data: Seq<u8>, base: nat) -> Option<ValueSpec>
    decreases f, 0int,
{
    match f.ty {
        TypeSpec::Layout(inner) => Some(
            ValueSpec::Nested(child_values(inner, data, base, inner.fields.len() as int)),
        ),
        _ => leaf_value(f, data, base),
    }
}

/// The named values of the first `n` fields of `l` that have one.
pub open spec fn child_values(l: LayoutSpec, data: Seq<u8>, base: nat, n: int) -> Seq<
    (Seq<char>, ValueSpec),
>
    decreases l, n,
{
    if n <= 0 || n > l.fields.len() {
        Seq::empty()
    } else {
        let prev = child_values(l, data, base, n - 1);
        match extract_spec(l.fields[n - 1], data, base) {
            Some(v) => prev.push((l.fields[n - 1].name, v)),
            None => prev,
        }
    }
}

/// A number read from at most 64 bits fits in a `u64`.
proof fn lemma_number_fits(s: Seq<bool>)
    requires
        s.len() <= 64,
    ensures
        bits_value(s) <= u64::MAX,
{
    lemma_bits_value_bound(s);
    lemma2_to64();
    if s.len() < 64 {
        lemma_pow2_strictly_increases(s.len(), 64);
    }
}

/// Reads `width` bits of `data` from bit `start`.
pub(crate) fn read_at(data: &[u8], start: usize, width: usize) -> (r: Option<u64>)
    requires
        data@.len() * 8 <= usize::MAX,
    ensures
        r == read_number(data@, start as nat, width as nat),
{
    let avail: usize = data.len() * 8;
    if width > 64 || start > avail || width > avail - start {
        return None;
    }
    let mut reader = BitReader::from_bytes(data);
    if reader.skip(start).is_err() {
        return None;
    }
    match reader.read_bits(width as u32) {
        Ok(v) => {
            proof {
                lemma_number_fits(bits_of(data@).subrange(start as int, (start + width) as int));
            }
            Some(v)
        },
        Err(_) => None,
    }
}

fn leaf_at(field: &LayoutField, data: &[u8], base: usize) -> (r: Option<Value>)
    requires
        data@.len() * 8 <= usize::MAX,
    ensures
        opt_view(r) == leaf_value(field@, data@, base as nat),
{
    let start = match base.checked_add(field.offset()) {
        Some(s) => s,
        None => {
            return None;
        },
    };
    let v = match read_at(data, start, field.width()) {
        Some(v) => v,
        None => {
            return None;
        },
    };
    match field.field_type() {
        FieldType::Primitive(_) => Some(Value::Primitive(v)),
        FieldType::Enum(e) => {
            let name = match e.variant_name(v) {
                Some(s) => Some(s.to_owned()),
                None => None,
            };
            Some(Value::EnumVariant { value: v, name })
        },
        FieldType::Layout(_) => None,
    }
}

pub(crate) fn extract_at(field: &LayoutField, data: &[u8], base: usize) -> (r: Option<Value>)
    requires
        data@.len() * 8 <= usize::MAX,
    ensures
        opt_view(r) == extract_spec(field@, data@, base as nat),
    decreases field@,
{
    match field.field_type() {
        FieldType::Layout(nested) => {
            let ghost inner = (**nested)@;
            let fields = nested.fields();
            proof {
                assert forall|k: int| 0 <= k < fields@.len() implies #[trigger] fields@[k]@
                    == inner.fields[k] by {
                    assert(views(fields@)[k] == fields@[k]@);
                }
            }
            let mut children: Vec<(String, Value)> = Vec::new();
            let mut i: usize = 0;
            assert(children@.map_values(|e: (String, Value)| (e.0@, e.1@)) =~= Seq::empty());
            while i < fields.len()
                invariant
                    i <= fields@.len(),
                    data@.len() * 8 <= usize::MAX,
                    inner == (**nested)@,
                    field@.ty == TypeSpec::Layout(inner),
                    inner.fields.len() == fields@.len(),
                    forall|k: int| 0 <= k < fields@.len() ==> #[trigger] fields@[k]@ == inner.fields[k],
                    children@.map_values(|e: (String, Value)| (e.0@, e.1@)) == child_values(
                        inner,
                        data@,
                        base as nat,
                        i as int,
                    ),
                decreases fields@.len() - i,
            {
                let child = &fields[i];
                assert(child@ == inner.fields[i as int]);
                assert(decreases_to!(field@ => field@.ty));
                assert(decreases_to!(field@.ty => field@.ty->Layout_0));
                assert(decreases_to!(inner => inner.fields));
                assert(decreases_to!(inner.fields => inner.fields[i as int]));
                assert(decreases_to!(field@ => child@));
                let ghost before = children@;
                match extract_at(child, data, base) {
                    Some(v) => {
                        children.push((child.name().to_owned(), v));
                        assert(children@.map_values(|e: (String, Value)| (e.0@, e.1@))
                            =~= before.map_values(|e: (String, Value)| (e.0@, e.1@)).push(
                            (child@.name, v@),
                        ));
                    },
                    None => {},
                }
                i = i + 1;
            }
            proof {
                lemma_nested_view(children);
            }
            Some(Value::Nested(children))
        },
        _ => leaf_at(field, data, base),
    }
}

/// Extracts the structured value of `field` from `data`.
///
/// A primitive or enumeration field gives its number (and, for an
/// enumeration, the name of the first variant with that value), or `None`
/// when it is wider than 64 bits or its bits are not all in `data`. A nested
/// layout gives the values of its fields that have one, each read at its
/// own offset.
pub fn extract_value(field: &LayoutField, data: &[u8]) -> (r: Option<Value>)
    requires
        data@.len() * 8 <= usize::MAX,
    ensures
        opt_view(r) == extract_spec(field@, data@, 0),
{
    extract_at(field, data, 0)
}

/// Law: a primitive or enumeration field at most 64 bits wide, whose bits
/// lie in the data, has a value: the number its bits spell, most
/// significant first.
pub proof fn law_leaf_value_is_its_bits(f: FieldSpec, data: Seq<u8>, base: nat)
    requires
        f.ty is Primitive || f.ty is Enum,
        f.width() <= 64,
        base + f.offset + f.width() <= data.len() * 8,
    ensures
        extract_spec(f, data, base) matches Some(x) && x.number() matches Some(n) && n as nat
            == bits_value(
            bits_of(data).subrange((base + f.offset) as int, (base + f.offset + f.width()) as int),
        ),
{
    lemma_number_fits(
        bits_of(data).subrange((base + f.offset) as int, (base + f.offset + f.width()) as int),
    );
}

} // verus!
