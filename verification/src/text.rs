//! Text helpers: building strings and rendering integers in a radix.

use vstd::prelude::*;
use vstd::string::StrSliceExecFns;

verus! {

/// Appends one character to `s`.
///
/// Trusted: calls `String::push`, whose documentation says it appends the
/// character to the end of the string.
#[verifier::external_body]
pub(crate) fn push_char(s: &mut String, c: char)
    ensures
        final(s)@ == old(s)@.push(c),
{
    s.push(c)
}

/// Appends a string slice to `s`.
///
/// Trusted: calls `String::push_str`, whose documentation says it appends
/// the slice to the end of the string.
#[verifier::external_body]
pub(crate) fn push_str(s: &mut String, t: &str)
    ensures
        final(s)@ == old(s)@ + t@,
{
    s.push_str(t)
}

/// Compares two string slices, byte by byte: equal UTF-8 encodings are
/// equal strings.
pub(crate) fn str_eq(a: &str, b: &str) -> (r: bool)
    ensures
        r == (a@ == b@),
{
    let x = a.as_bytes();
    let y = b.as_bytes();
    proof {
        vstd::utf8::encode_utf8_decode_utf8(a@);
        vstd::utf8::encode_utf8_decode_utf8(b@);
    }
    if x.len() != y.len() {
        return false;
    }
    let mut i: usize = 0;
    while i < x.len()
        invariant
            x@ == vstd::utf8::encode_utf8(a@),
            y@ == vstd::utf8::encode_utf8(b@),
            x@.len() == y@.len(),
            i <= x@.len(),
            forall|j: int| 0 <= j < i ==> x@[j] == y@[j],
        decreases x@.len() - i,
    {
        if x[i] != y[i] {
            return false;
        }
        i = i + 1;
    }
    assert(x@ =~= y@);
    true
}

/// Whether `s` contains the character `c`.
pub(crate) fn str_contains_char(s: &str, c: char) -> (r: bool)
    ensures
        r == s@.contains(c),
{
    broadcast use vstd::string::axiom_spec_iter, vstd::string::next_postcondition;
    let mut found = false;
    for x in it: s.chars()
        invariant
            it.seq() == s@,
            found == s@.take(it.index() as int).contains(c),
    {
        let ghost i = it.index() as int;
        assert(x == s@[i]);
        let ghost before = s@.take(i);
        let ghost after = s@.take(i + 1);
        assert(after =~= before.push(x));
        if x == c {
            found = true;
            assert(after[i] == c);
        } else {
            assert forall|k: int| 0 <= k < after.len() && after[k] == c implies before.contains(c) by {
                assert(k < i);
                assert(before[k] == c);
            }
        }
        proof {
            if before.contains(c) {
                let k = choose|k: int| 0 <= k < before.len() && before[k] == c;
                assert(after[k] == c);
            }
        }
    }
    assert(s@.take(s@.len() as int) =~= s@);
    found
}

/// The index of the first `c` in `s` from `k` on.
pub open spec fn first_index(s: Seq<char>, c: char, k: int) -> Option<int>
    decreases s.len() - k,
{
    if k < 0 || k >= s.len() {
        None
    } else if s[k] == c {
        Some(k)
    } else {
        first_index(s, c, k + 1)
    }
}

/// `first_index` finds the first occurrence, or shows there is none.
pub proof fn lemma_first_index(s: Seq<char>, c: char, k: int)
    requires
        0 <= k,
    ensures
        match first_index(s, c, k) {
            Some(i) => k <= i < s.len() && s[i] == c && forall|j: int|
                k <= j < i ==> #[trigger] s[j] != c,
            None => forall|j: int| k <= j < s.len() ==> #[trigger] s[j] != c,
        },
    decreases s.len() - k,
{
    if k < s.len() && s[k] != c {
        lemma_first_index(s, c, k + 1);
    }
}

/// Splits `s` around the first `c`: the text before it and the text after,
/// or `None` when `c` does not occur.
pub(crate) fn split_once_char(s: &str, c: char) -> (r: Option<(&str, &str)>)
    ensures
        match first_index(s@, c, 0) {
            Some(d) => r matches Some((a, b)) && a@ == s@.take(d) && b@ == s@.skip(d + 1),
            None => r is None,
        },
{
    broadcast use vstd::string::axiom_spec_iter, vstd::string::next_postcondition;
    proof {
        lemma_first_index(s@, c, 0);
    }
    let n = s.unicode_len();
    let mut found: Option<usize> = None;
    let mut k: usize = 0;
    for x in it: s.chars()
        invariant
            it.seq() == s@,
            n == s@.len(),
            k == it.index(),
            match found {
                Some(d) => first_index(s@, c, 0) == Some(d as int),
                None => forall|j: int| 0 <= j < k ==> #[trigger] s@[j] != c,
            },
    {
        proof {
            lemma_first_index(s@, c, 0);
        }
        assert(x == s@[k as int]);
        if found.is_none() && x == c {
            found = Some(k);
        }
        k = k + 1;
    }
    match found {
        None => None,
        Some(d) => {
            let head = s.substring_char(0, d);
            let tail = s.substring_char(d + 1, n);
            assert(head@ =~= s@.take(d as int));
            assert(tail@ =~= s@.skip(d + 1));
            Some((head, tail))
        },
    }
}

/// The digit character for `d` (below 36): `0-9`, then letters.
pub open spec fn digit_char(d: nat, upper: bool) -> char {
    if d < 10 {
        (48 + d) as char
    } else if upper {
        (55 + d) as char
    } else {
        (87 + d) as char
    }
}

/// The digits of `v` in base `radix`, most significant first, without
/// leading zeros (`0` is the single digit `0`).
pub open spec fn radix_digits(v: nat, radix: nat, upper: bool) -> Seq<char>
    decreases v,
{
    if radix < 2 || radix > 16 {
        Seq::empty()
    } else if v < radix {
        seq![digit_char(v, upper)]
    } else {
        proof {
            vstd::arithmetic::div_mod::lemma_div_decreases(v as int, radix as int);
        }
        radix_digits(v / radix, radix, upper).push(digit_char(v % radix, upper))
    }
}

/// `d` left-padded with `'0'` to at least `width` characters.
pub open spec fn zero_padded(d: Seq<char>, width: nat) -> Seq<char> {
    if d.len() >= width {
        d
    } else {
        Seq::new((width - d.len()) as nat, |i: int| '0') + d
    }
}

/// The decimal digits of `v`.
pub open spec fn decimal(v: nat) -> Seq<char> {
    radix_digits(v, 10, false)
}

fn digit(d: u8, upper: bool) -> (c: char)
    requires
        d < 16,
    ensures
        c == digit_char(d as nat, upper),
{
    if d < 10 {
        (48u8 + d) as char
    } else if upper {
        (55u8 + d) as char
    } else {
        (87u8 + d) as char
    }
}

proof fn lemma_radix_digits_len(v: nat, radix: nat, upper: bool)
    requires
        2 <= radix <= 16,
    ensures
        radix_digits(v, radix, upper).len() >= 1,
    decreases v,
{
    if v >= radix {
        vstd::arithmetic::div_mod::lemma_div_decreases(v as int, radix as int);
        lemma_radix_digits_len(v / radix, radix, upper);
    }
}

/// Appends the digits of `v` in base `radix`, left-padded with zeros to at
/// least `width` digits.
pub(crate) fn push_radix(s: &mut String, v: u128, radix: u128, width: usize, upper: bool)
    requires
        2 <= radix <= 16,
    ensures
        final(s)@ == old(s)@ + zero_padded(radix_digits(v as nat, radix as nat, upper), width as nat),
{
    // Collect the digits least significant first.
    let mut acc: Vec<char> = Vec::new();
    let mut rest = v;
    while rest >= radix
        invariant
            2 <= radix <= 16,
            radix_digits(v as nat, radix as nat, upper) == radix_digits(
                rest as nat,
                radix as nat,
                upper,
            ) + acc@.reverse(),
            rest <= v,
        decreases rest,
    {
        let d = (rest % radix) as u8;
        let ghost before = acc@;
        acc.push(digit(d, upper));
        proof {
            assert(acc@.reverse() =~= seq![digit_char((rest % radix) as nat, upper)]
                + before.reverse());
            vstd::arithmetic::div_mod::lemma_div_decreases(rest as int, radix as int);
        }
        rest = rest / radix;
    }
    let ghost before = acc@;
    acc.push(digit(rest as u8, upper));
    proof {
        assert(acc@.reverse() =~= seq![digit_char(rest as nat, upper)] + before.reverse());
    }
    let ghost digits = radix_digits(v as nat, radix as nat, upper);
    proof {
        assert(digits =~= acc@.reverse());
    }
    let n = acc.len();
    if n < width {
        let mut k: usize = 0;
        while k < width - n
            invariant
                n < width,
                k <= width - n,
                final_prefix(s@, old(s)@, k as nat),
            decreases width - n - k,
        {
            push_char(s, '0');
            proof {
                assert(Seq::new((k + 1) as nat, |i: int| '0') =~= Seq::new(k as nat, |i: int| '0').push('0'));
            }
            k = k + 1;
        }
    }
    let ghost padded_prefix = s@;
    let mut i: usize = n;
    while i > 0
        invariant
            i <= n,
            n == acc@.len(),
            s@ == padded_prefix + acc@.reverse().take((n - i) as int),
        decreases i,
    {
        i = i - 1;
        push_char(s, acc[i]);
        proof {
            assert(acc@.reverse().take((n - i) as int) =~= acc@.reverse().take((n - i - 1) as int).push(acc@[i as int]));
        }
    }
    proof {
        assert(acc@.reverse().take(n as int) =~= acc@.reverse());
        if n < width {
            assert(padded_prefix == old(s)@ + Seq::new((width - n) as nat, |i: int| '0'));
        } else {
            assert(padded_prefix == old(s)@);
        }
    }
}

/// Appends the decimal digits of `v`.
pub(crate) fn push_decimal(s: &mut String, v: u128)
    ensures
        final(s)@ == old(s)@ + decimal(v as nat),
{
    push_radix(s, v, 10, 0, false);
}

spec fn final_prefix(now: Seq<char>, start: Seq<char>, k: nat) -> bool {
    now == start + Seq::new(k, |i: int| '0')
}

} // verus!
