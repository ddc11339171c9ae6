//! The registry of available formatters.

use vstd::prelude::*;
use std::sync::Arc;

use super::formatters::{
    AsciiFormatter, BinFormatter, DecFormatter, FieldFormatter, HexFormatter, OctFormatter,
    RawBitsFormatter,
};
use super::value::{ContextSpec, FormatId};
use crate::shared::share;
use crate::text::str_eq;

verus! {

/// The position of the last id equal to `id` among the first `n`.
pub open spec fn lookup(ids: Seq<Seq<char>>, id: Seq<char>, n: int) -> Option<int>
    decreases n,
{
    if n <= 0 || n > ids.len() {
        None
    } else if ids[n - 1] == id {
        Some(n - 1)
    } else {
        lookup(ids, id, n - 1)
    }
}

/// The position of the formatter registered last under `id`, or 0 when none is.
pub open spec fn position_or_first(ids: Seq<Seq<char>>, id: Seq<char>) -> int {
    match lookup(ids, id, ids.len() as int) {
        Some(i) => i,
        None => 0,
    }
}

/// The position after that of `id`, cyclically.
pub open spec fn next_position(ids: Seq<Seq<char>>, id: Seq<char>) -> int {
    (position_or_first(ids, id) + 1) % (ids.len() as int)
}

/// The position before that of `id`, cyclically.
pub open spec fn prev_position(ids: Seq<Seq<char>>, id: Seq<char>) -> int {
    let c = position_or_first(ids, id);
    if c == 0 {
        ids.len() - 1
    } else {
        c - 1
    }
}

/// No id occurs twice.
pub open spec fn distinct_ids(ids: Seq<Seq<char>>) -> bool {
    forall|i: int, j: int| 0 <= i < j < ids.len() ==> ids[i] != ids[j]
}

/// `lookup` finds the last matching id, or shows there is none.
pub proof fn lemma_lookup(ids: Seq<Seq<char>>, id: Seq<char>, n: int)
    requires
        0 <= n <= ids.len(),
    ensures
        match lookup(ids, id, n) {
            Some(i) => 0 <= i < n && ids[i] == id && forall|j: int| i < j < n ==> #[trigger] ids[j] != id,
            None => forall|j: int| 0 <= j < n ==> #[trigger] ids[j] != id,
        },
    decreases n,
{
    if n > 0 && ids[n - 1] != id {
        lemma_lookup(ids, id, n - 1);
    }
}

/// Whether the shared formatter `a` says of itself what `f` says: whether
/// it describes itself, its id, and its text for every context.
pub open spec fn formats_like<A: FieldFormatter + ?Sized, F: FieldFormatter>(a: Arc<A>, f: F) -> bool {
    &&& a.obeys_spec() == f.obeys_spec()
    &&& a.id_spec() == f.id_spec()
    &&& forall|c: ContextSpec| #[trigger] a.format_spec(c) == f.format_spec(c)
}

/// Moves a boxed formatter behind a shared pointer, as a trait object.
///
/// Trusted: calls `Arc::from` on the box, seen as a boxed trait object;
/// the documentation says it moves the value into a new shared
/// allocation. The formatter behind the result is the one that was boxed,
/// so it says of itself what that one says. (The pointer comes back as
/// the only element of a tuple.)
#[verifier::external_body]
fn share_boxed<F: FieldFormatter + 'static>(b: Box<F>) -> (r: (Arc<dyn FieldFormatter>,))
    ensures
        formats_like(r.0, *b),
{
    let d: Box<dyn FieldFormatter> = b;
    (Arc::from(d),)
}

/// A formatter behind a shared pointer, as the single element of a vector.
fn single<F: FieldFormatter + 'static>(b: Box<F>) -> (r: Vec<Arc<dyn FieldFormatter>>)
    ensures
        r@.len() == 1,
        formats_like(r@[0], *b),
{
    let (a,) = share_boxed(b);
    let mut one = Vec::new();
    one.push(a);
    one
}

/// The built-in formatters, in order: hex, dec, bin, oct, ascii, raw.
pub open spec fn builtins(e: Seq<Arc<dyn FieldFormatter>>) -> bool {
    &&& e.len() == 6
    &&& formats_like(e[0], HexFormatter)
    &&& formats_like(e[1], DecFormatter)
    &&& formats_like(e[2], BinFormatter)
    &&& formats_like(e[3], OctFormatter)
    &&& formats_like(e[4], AsciiFormatter)
    &&& formats_like(e[5], RawBitsFormatter)
}

/// With distinct ids, each id is found at its own position.
proof fn lemma_lookup_distinct(ids: Seq<Seq<char>>, k: int)
    requires
        distinct_ids(ids),
        0 <= k < ids.len(),
    ensures
        lookup(ids, ids[k], ids.len() as int) == Some(k),
        position_or_first(ids, ids[k]) == k,
{
    lemma_lookup(ids, ids[k], ids.len() as int);
}

/// Cycling forward then back, or back then forward, returns to the same
/// format, when the registered ids are distinct and the format is one of them.
pub proof fn law_next_prev_inverse(ids: Seq<Seq<char>>, id: Seq<char>)
    requires
        distinct_ids(ids),
        ids.contains(id),
    ensures
        ids[prev_position(ids, ids[next_position(ids, id)])] == id,
        ids[next_position(ids, ids[prev_position(ids, id)])] == id,
{
    let k = choose|k: int| 0 <= k < ids.len() && ids[k] == id;
    lemma_lookup_distinct(ids, k);
    let n = ids.len() as int;
    let nx = next_position(ids, id);
    let pv = prev_position(ids, id);
    assert(nx == (k + 1) % n);
    assert(0 <= nx < n) by (nonlinear_arith)
        requires
            nx == (k + 1) % n,
            n > 0,
    ;
    assert(nx == if k + 1 == n { 0 } else { k + 1 }) by (nonlinear_arith)
        requires
            nx == (k + 1) % n,
            0 <= k < n,
    ;
    lemma_lookup_distinct(ids, nx);
    assert(0 <= pv < n);
    lemma_lookup_distinct(ids, pv);
    assert(next_position(ids, ids[pv]) == (pv + 1) % n);
    assert((pv + 1) % n == k) by (nonlinear_arith)
        requires
            pv == if k == 0 { n - 1 } else { k - 1 },
            0 <= k < n,
    ;
}

/// Registry of available data formatters.
///
/// Formatters keep the order in which they were registered; each is known
/// by the id it reported when registered. Registering an id again makes
/// the new formatter the one found under that id.
pub struct FormatRegistry {
    formatters: Vec<Arc<dyn FieldFormatter>>,
    ids: Vec<FormatId>,
}

impl View for FormatRegistry {
    type V = Seq<Seq<char>>;

    /// The registered ids, in order.
    closed spec fn view(&self) -> Seq<Seq<char>> {
        self.ids@.map_values(|i: FormatId| i@)
    }
}

impl FormatRegistry {
    #[verifier::type_invariant]
    spec fn inv(self) -> bool {
        self.formatters@.len() == self.ids@.len()
    }

    /// The registered formatters, in order.
    pub closed spec fn entries(self) -> Seq<Arc<dyn FieldFormatter>> {
        self.formatters@
    }

    /// Creates an empty format registry.
    pub fn new() -> (r: Self)
        ensures
            r@ == Seq::<Seq<char>>::empty(),
            r.entries() == Seq::<Arc<dyn FieldFormatter>>::empty(),
    {
        let r = FormatRegistry { formatters: Vec::new(), ids: Vec::new() };
        assert(r@ =~= Seq::<Seq<char>>::empty());
        r
    }

    /// Adds the formatter in `one` under `id`.
    fn insert(&mut self, id: FormatId, one: Vec<Arc<dyn FieldFormatter>>)
        requires
            one@.len() == 1,
        ensures
            final(self)@ == old(self)@.push(id@),
            final(self).entries().len() == old(self).entries().len() + 1,
            final(self).entries().drop_last() == old(self).entries(),
            final(self).entries().last() == one@[0],
    {
        let mut one = one;
        let ghost added = one@[0];
        let mut taken = FormatRegistry::new();
        std::mem::swap(self, &mut taken);
        proof {
            use_type_invariant(&taken);
        }
        let FormatRegistry { mut formatters, mut ids } = taken;
        let ghost before_ids = ids@;
        let ghost before_fs = formatters@;
        formatters.append(&mut one);
        ids.push(id);
        *self = FormatRegistry { formatters, ids };
        proof {
            assert(self.ids@ == before_ids.push(id));
            assert(self@ =~= old(self)@.push(id@));
            assert(self.formatters@.drop_last() =~= before_fs);
        }
    }

    /// Creates a registry holding the built-in formatters, in this order:
    /// hex, dec, bin, oct, ascii, raw.
    pub fn with_builtins() -> (r: Self)
        ensures
            r@ == seq!["hex"@, "dec"@, "bin"@, "oct"@, "ascii"@, "raw"@],
            builtins(r.entries()),
    {
        let mut reg = Self::new();
        reg.insert(HexFormatter.id(), single(Box::new(HexFormatter)));
        reg.insert(DecFormatter.id(), single(Box::new(DecFormatter)));
        reg.insert(BinFormatter.id(), single(Box::new(BinFormatter)));
        reg.insert(OctFormatter.id(), single(Box::new(OctFormatter)));
        reg.insert(AsciiFormatter.id(), single(Box::new(AsciiFormatter)));
        reg.insert(RawBitsFormatter.id(), single(Box::new(RawBitsFormatter)));
        assert(reg@ =~= seq!["hex"@, "dec"@, "bin"@, "oct"@, "ascii"@, "raw"@]);
        reg
    }

    /// Registers a new formatter, under the id it reports.
    ///
    /// The id added is the one `formatter.id()` gives; the formatter is
    /// then the one found under that id.
    pub fn register<F: FieldFormatter + 'static>(&mut self, formatter: F)
        ensures
            final(self)@.len() == old(self)@.len() + 1,
            final(self)@.drop_last() == old(self)@,
            exists|i: FormatId| call_ensures(F::id, (&formatter,), i) && i@ == final(self)@.last(),
            formatter.obeys_spec() ==> final(self)@.last() == formatter.id_spec(),
            final(self).entries().len() == old(self).entries().len() + 1,
            final(self).entries().drop_last() == old(self).entries(),
            formats_like(final(self).entries().last(), formatter),
    {
        let id = formatter.id();
        let ghost added = id;
        self.insert(id, single(Box::new(formatter)));
        proof {
            assert(final(self)@.drop_last() =~= old(self)@);
            assert(final(self)@.last() == added@);
        }
    }

    /// Registers a shared formatter, under the id it reports.
    pub fn register_arc(&mut self, formatter: Arc<dyn FieldFormatter>)
        ensures
            final(self)@.len() == old(self)@.len() + 1,
            final(self)@.drop_last() == old(self)@,
            formatter.obeys_spec() ==> final(self)@.last() == formatter.id_spec(),
            final(self).entries().len() == old(self).entries().len() + 1,
            final(self).entries().drop_last() == old(self).entries(),
            final(self).entries().last() == formatter,
    {
        let id = formatter.id();
        let mut one = Vec::new();
        one.push(formatter);
        self.insert(id, one);
        proof {
            assert(final(self)@.drop_last() =~= old(self)@);
        }
    }

    /// Returns all registered formatters in order.
    pub fn formatters(&self) -> (r: &[Arc<dyn FieldFormatter>])
        ensures
            r@ == self.entries(),
    {
        self.formatters.as_slice()
    }

    /// Returns the number of registered formatters.
    pub fn len(&self) -> (r: usize)
        ensures
            r == self@.len(),
            r == self.entries().len(),
    {
        proof {
            use_type_invariant(self);
        }
        self.ids.len()
    }

    /// Returns `true` if no formatters are registered.
    pub fn is_empty(&self) -> (r: bool)
        ensures
            r == (self@.len() == 0),
    {
        self.ids.len() == 0
    }

    /// Retrieves a formatter by its position.
    pub fn get_by_index(&self, index: usize) -> (r: Option<&Arc<dyn FieldFormatter>>)
        ensures
            index < self@.len() ==> (r matches Some(f) && *f == self.entries()[index as int]),
            index >= self@.len() ==> r is None,
    {
        proof {
            use_type_invariant(self);
        }
        if index < self.formatters.len() {
            Some(&self.formatters[index])
        } else {
            None
        }
    }

    /// The id registered at `index`.
    pub(crate) fn id_at(&self, index: usize) -> (r: Option<&FormatId>)
        ensures
            index < self@.len() ==> (r matches Some(id) && id@ == self@[index as int]),
            index >= self@.len() ==> r is None,
    {
        if index < self.ids.len() {
            Some(&self.ids[index])
        } else {
            None
        }
    }

    /// The position of the formatter registered last under `id`.
    fn position(&self, id: &FormatId) -> (r: Option<usize>)
        ensures
            match r {
                Some(i) => lookup(self@, id@, self@.len() as int) == Some(i as int),
                None => lookup(self@, id@, self@.len() as int) is None,
            },
    {
        let ghost ids = self@;
        let mut n: usize = self.ids.len();
        while n > 0
            invariant
                n <= self.ids@.len(),
                ids == self@,
                ids.len() == self.ids@.len(),
                lookup(ids, id@, ids.len() as int) == lookup(ids, id@, n as int),
            decreases n,
        {
            assert(ids[n - 1] == self.ids@[n - 1]@);
            if str_eq(self.ids[n - 1].as_str(), id.as_str()) {
                return Some(n - 1);
            }
            n = n - 1;
        }
        None
    }

    /// Retrieves the formatter registered last under `id`.
    pub fn get(&self, id: &FormatId) -> (r: Option<&Arc<dyn FieldFormatter>>)
        ensures
            match lookup(self@, id@, self@.len() as int) {
                Some(i) => r matches Some(f) && *f == self.entries()[i],
                None => r is None,
            },
    {
        proof {
            use_type_invariant(self);
            lemma_lookup(self@, id@, self@.len() as int);
        }
        match self.position(id) {
            Some(i) => Some(&self.formatters[i]),
            None => None,
        }
    }

    /// Returns the id after `current` in registration order, cyclically.
    /// An id that is not registered counts as the first position.
    pub fn next_format_id(&self, current: &FormatId) -> (r: Option<FormatId>)
        ensures
            self@.len() == 0 ==> r is None,
            self@.len() > 0 ==> (r matches Some(x) && x@ == self@[next_position(self@, current@)]),
    {
        let n = self.ids.len();
        if n == 0 {
            return None;
        }
        proof {
            lemma_lookup(self@, current@, self@.len() as int);
        }
        let c = match self.position(current) {
            Some(i) => i,
            None => 0,
        };
        let next = (c + 1) % n;
        assert(self@[next as int] == self.ids@[next as int]@);
        Some(self.ids[next].clone())
    }

    /// Returns the id before `current` in registration order, cyclically.
    /// An id that is not registered counts as the first position.
    pub fn prev_format_id(&self, current: &FormatId) -> (r: Option<FormatId>)
        ensures
            self@.len() == 0 ==> r is None,
            self@.len() > 0 ==> (r matches Some(x) && x@ == self@[prev_position(self@, current@)]),
    {
        let n = self.ids.len();
        if n == 0 {
            return None;
        }
        proof {
            lemma_lookup(self@, current@, self@.len() as int);
        }
        let c = match self.position(current) {
            Some(i) => i,
            None => 0,
        };
        let prev = if c == 0 {
            n - 1
        } else {
            c - 1
        };
        assert(self@[prev as int] == self.ids@[prev as int]@);
        Some(self.ids[prev].clone())
    }
}

impl Default for FormatRegistry {
    fn default() -> (r: Self)
        ensures
            r@ == seq!["hex"@, "dec"@, "bin"@, "oct"@, "ascii"@, "raw"@],
            builtins(r.entries()),
    {
        Self::with_builtins()
    }
}

impl Clone for FormatRegistry {
    fn clone(&self) -> (r: Self)
        ensures
            r@ == self@,
            r.entries() == self.entries(),
    {
        proof {
            use_type_invariant(self);
        }
        let mut formatters: Vec<Arc<dyn FieldFormatter>> = Vec::new();
        let mut ids: Vec<FormatId> = Vec::new();
        let mut i: usize = 0;
        while i < self.ids.len()
            invariant
                i <= self.ids@.len(),
                self.formatters@.len() == self.ids@.len(),
                formatters@ == self.formatters@.take(i as int),
                ids@.len() == i,
                forall|k: int| 0 <= k < i ==> #[trigger] ids@[k]@ == self.ids@[k]@,
            decreases self.ids@.len() - i,
        {
            let c = share(&self.formatters[i]);
            let mut one = Vec::new();
            one.push(c);
            formatters.append(&mut one);
            ids.push(self.ids[i].clone());
            assert(formatters@ =~= self.formatters@.take(i + 1));
            i = i + 1;
        }
        let r = FormatRegistry { formatters, ids };
        assert(r@ =~= self@);
        assert(formatters@ =~= self.formatters@);
        r
    }
}

} // verus!
