//! The mathematical model of an MSB-first bit stream.
//!
//! A byte sequence is read as a sequence of bits: bit 0 is the most
//! significant bit of byte 0, bit 8 the most significant bit of byte 1, and
//! so on. A run of bits stands for the unsigned integer whose binary digits
//! they are, most significant first.

use vstd::prelude::*;
use vstd::arithmetic::power2::*;

verus! {

/// Bit `j` of byte `b`, counting from the most significant bit (`j == 0`).
pub open spec fn byte_bit(b: u8, j: int) -> bool {
    (b >> ((7 - j) as u8)) & 1u8 == 1u8
}

/// Bit `i` of the stream `data`, read MSB-first.
pub open spec fn stream_bit(data: Seq<u8>, i: int) -> bool {
    byte_bit(data[i / 8], i % 8)
}

/// All the bits of `data`, MSB-first.
pub open spec fn bits_of(data: Seq<u8>) -> Seq<bool> {
    Seq::new((data.len() * 8) as nat, |i: int| stream_bit(data, i))
}

/// 1 for a set bit, 0 otherwise.
pub open spec fn bit_num(b: bool) -> nat {
    if b {
        1
    } else {
        0
    }
}

/// The unsigned integer whose binary digits, most significant first, are `s`.
pub open spec fn bits_value(s: Seq<bool>) -> nat
    decreases s.len(),
{
    if s.len() == 0 {
        0
    } else {
        2 * bits_value(s.drop_last()) + bit_num(s.last())
    }
}

/// The lowest `n` bits of `v`, most significant first.
pub open spec fn value_bits(v: u64, n: nat) -> Seq<bool> {
    Seq::new(n, |i: int| (v >> ((n - 1 - i) as u64)) & 1u64 == 1u64)
}

/// `v` can be written with `n` bits.
pub open spec fn fits_in(v: u64, n: nat) -> bool {
    n >= 64 || v >> (n as u64) == 0
}

/// `bytes` holds exactly the bits `bits`, followed by zero bits up to the
/// next byte boundary.
pub open spec fn encodes(bytes: Seq<u8>, bits: Seq<bool>) -> bool {
    &&& bytes.len() == (bits.len() + 7) / 8
    &&& forall|i: int|
        0 <= i < bytes.len() * 8 ==> #[trigger] stream_bit(bytes, i) == (i < bits.len() && bits[i])
}

/// Division and remainder by 8 of a bit position inside a known byte.
pub proof fn lemma_div8(i: int, q: int)
    requires
        8 * q <= i < 8 * q + 8,
    ensures
        i / 8 == q,
        i % 8 == i - 8 * q,
{
    vstd::arithmetic::div_mod::lemma_fundamental_div_mod_converse(i, 8, q, i - 8 * q);
}

/// The value of a concatenation: the first part shifted left past the second.
pub proof fn lemma_bits_value_concat(a: Seq<bool>, b: Seq<bool>)
    ensures
        bits_value(a + b) == bits_value(a) * pow2(b.len()) + bits_value(b),
    decreases b.len(),
{
    if b.len() == 0 {
        assert(a + b =~= a);
        lemma2_to64();
        assert(bits_value(b) == 0);
        assert(pow2(b.len()) == 1);
        assert(bits_value(a) * 1 == bits_value(a));
    } else {
        let ab = a + b;
        assert(ab.drop_last() =~= a + b.drop_last());
        assert(ab.last() == b.last());
        lemma_bits_value_concat(a, b.drop_last());
        lemma_pow2_unfold(b.len());
        let x = bits_value(a);
        let p = pow2((b.len() - 1) as nat);
        assert(2 * (x * p) == x * (2 * p)) by (nonlinear_arith);
        assert(bits_value(ab) == 2 * bits_value(ab.drop_last()) + bit_num(ab.last()));
        assert(bits_value(b) == 2 * bits_value(b.drop_last()) + bit_num(b.last()));
        assert(bits_value(ab.drop_last()) == x * p + bits_value(b.drop_last()));
        assert(pow2(b.len()) == 2 * p);
    }
}

/// A run of `n` bits stands for a value below `2^n`.
pub proof fn lemma_bits_value_bound(s: Seq<bool>)
    ensures
        bits_value(s) < pow2(s.len()),
    decreases s.len(),
{
    if s.len() == 0 {
        lemma2_to64();
    } else {
        lemma_bits_value_bound(s.drop_last());
        lemma_pow2_unfold(s.len());
    }
}

proof fn lemma_shr_shr_one(v: u64, k: u64)
    by (bit_vector)
    requires
        k < 63,
    ensures
        (v >> 1u64) >> k == v >> (k + 1) as u64,
{
}

proof fn lemma_halve(v: u64)
    by (bit_vector)
    ensures
        v == 2 * (v >> 1u64) + (v & 1u64),
        (v >> 0u64) & 1u64 == v & 1u64,
        v & 1u64 == 0u64 || v & 1u64 == 1u64,
{
}

proof fn lemma_fits_shift(v: u64, n: u64)
    by (bit_vector)
    requires
        1 <= n <= 64,
        n == 64 || v >> n == 0,
    ensures
        n - 1 == 63 ==> (v >> 1u64) >> 63u64 == 0,
        n < 64 ==> (v >> 1u64) >> ((n - 1) as u64) == 0,
{
}

/// Writing the lowest `n` bits of a value that fits in `n` bits and reading
/// them back gives the value.
pub proof fn lemma_value_bits_round_trip(v: u64, n: nat)
    requires
        n <= 64,
        fits_in(v, n),
    ensures
        bits_value(value_bits(v, n)) == v,
    decreases n,
{
    if n == 0 {
        assert(v >> 0u64 == v) by (bit_vector);
    } else {
        let s = value_bits(v, n);
        let w = v >> 1u64;
        assert forall|i: int| 0 <= i < n - 1 implies #[trigger] s.drop_last()[i] == value_bits(
            w,
            (n - 1) as nat,
        )[i] by {
            lemma_shr_shr_one(v, (n - 2 - i) as u64);
        }
        assert(s.drop_last() =~= value_bits(w, (n - 1) as nat));
        lemma_fits_shift(v, n as u64);
        lemma_value_bits_round_trip(w, (n - 1) as nat);
        lemma_halve(v);
    }
}

/// Bits read back from an encoding are the bits that were encoded.
pub proof fn lemma_encoded_bits(bytes: Seq<u8>, bits: Seq<bool>, p: int, n: int)
    requires
        encodes(bytes, bits),
        0 <= p,
        0 <= n,
        p + n <= bits.len(),
    ensures
        bits_of(bytes).subrange(p, p + n) =~= bits.subrange(p, p + n),
        p + n <= bytes.len() * 8,
{
    assert forall|i: int| 0 <= i < n implies #[trigger] bits_of(bytes).subrange(p, p + n)[i]
        == bits.subrange(p, p + n)[i] by {
        assert(stream_bit(bytes, p + i) == (p + i < bits.len() && bits[p + i]));
    }
}

/// Law: a value written with `n` bits after `prefix` reads back, from the
/// encoded bytes, as the same value at position `prefix.len()`.
pub proof fn law_written_value_reads_back(prefix: Seq<bool>, v: u64, n: nat, bytes: Seq<u8>)
    requires
        n <= 64,
        fits_in(v, n),
        encodes(bytes, prefix + value_bits(v, n)),
    ensures
        prefix.len() + n <= bytes.len() * 8,
        bits_value(bits_of(bytes).subrange(prefix.len() as int, (prefix.len() + n) as int)) == v,
{
    let all = prefix + value_bits(v, n);
    lemma_encoded_bits(bytes, all, prefix.len() as int, n as int);
    assert(all.subrange(prefix.len() as int, (prefix.len() + n) as int) =~= value_bits(v, n));
    lemma_value_bits_round_trip(v, n);
}

/// The bits that writing each `(value, width)` of `ws` in turn appends.
pub open spec fn written_bits(ws: Seq<(u64, nat)>) -> Seq<bool>
    decreases ws.len(),
{
    if ws.len() == 0 {
        Seq::empty()
    } else {
        written_bits(ws.drop_last()) + value_bits(ws.last().0, ws.last().1)
    }
}

/// The sum of the widths of the writes `ws`.
pub open spec fn total_width(ws: Seq<(u64, nat)>) -> nat
    decreases ws.len(),
{
    if ws.len() == 0 {
        0
    } else {
        total_width(ws.drop_last()) + ws.last().1
    }
}

/// The writes append as many bits as their widths add up to.
pub proof fn lemma_written_len(ws: Seq<(u64, nat)>)
    ensures
        written_bits(ws).len() == total_width(ws),
    decreases ws.len(),
{
    if ws.len() > 0 {
        lemma_written_len(ws.drop_last());
    }
}

/// The bits of the first `j` writes begin the bits of all of them, and the
/// `j`-th write follows them.
pub proof fn lemma_written_prefix(ws: Seq<(u64, nat)>, j: int)
    requires
        0 <= j < ws.len(),
    ensures
        written_bits(ws.take(j + 1)) =~= written_bits(ws.take(j)) + value_bits(ws[j].0, ws[j].1),
        written_bits(ws.take(j + 1)).len() <= written_bits(ws).len(),
        written_bits(ws).take(written_bits(ws.take(j + 1)).len() as int) =~= written_bits(
            ws.take(j + 1),
        ),
    decreases ws.len(),
{
    assert(ws.take(j + 1).drop_last() =~= ws.take(j));
    if j + 1 == ws.len() {
        assert(ws.take(j + 1) =~= ws);
    } else {
        let w = ws.drop_last();
        lemma_written_prefix(w, j);
        assert(w.take(j + 1) =~= ws.take(j + 1));
        assert(w.take(j) =~= ws.take(j));
        let p = written_bits(ws.take(j + 1));
        assert(written_bits(ws) =~= written_bits(w) + value_bits(ws.last().0, ws.last().1));
        assert(written_bits(ws).take(p.len() as int) =~= written_bits(w).take(p.len() as int));
    }
}

/// Law: the bits of the bytes that encode `bits` begin with `bits`.
pub proof fn law_encoded_prefix(bytes: Seq<u8>, bits: Seq<bool>)
    requires
        encodes(bytes, bits),
    ensures
        bits.len() <= bytes.len() * 8,
        bits_of(bytes).take(bits.len() as int) =~= bits,
{
    lemma_encoded_bits(bytes, bits, 0, bits.len() as int);
    assert(bits.subrange(0, bits.len() as int) =~= bits);
}

} // verus!

verus! {

/// The eight bits of a byte, most significant first.
pub open spec fn byte_bits(b: u8) -> Seq<bool> {
    Seq::new(8, |j: int| byte_bit(b, j))
}

proof fn lemma_extract_step(b: u8, o: u8, a: u8)
    by (bit_vector)
    requires
        1 <= a,
        o + a <= 8,
    ensures
        ((b >> ((8 - o - a) as u8)) & (((1u16 << a) - 1) as u8)) as int == 2 * ((b >> ((8 - o - (a
            - 1)) as u8)) & (((1u16 << ((a - 1) as u8)) - 1) as u8)) as int + ((b >> ((7 - (o + a
            - 1)) as u8)) & 1u8) as int,
{
}

proof fn lemma_extract_zero(b: u8, o: u8)
    by (bit_vector)
    requires
        o <= 8,
    ensures
        (b >> ((8 - o) as u8)) & (((1u16 << 0u8) - 1) as u8) == 0,
{
}

pub proof fn lemma_bit_is_01(b: u8, k: u8)
    by (bit_vector)
    ensures
        (b >> k) & 1u8 == 0 || (b >> k) & 1u8 == 1,
{
}

/// Shifting a byte right and masking it gives the value of a run of its bits.
pub proof fn lemma_extract(b: u8, o: u8, a: u8)
    requires
        o + a <= 8,
    ensures
        ((b >> ((8 - o - a) as u8)) & (((1u16 << a) - 1) as u8)) as nat == bits_value(
            byte_bits(b).subrange(o as int, o + a),
        ),
    decreases a,
{
    if a == 0 {
        lemma_extract_zero(b, o);
        assert(byte_bits(b).subrange(o as int, o as int) =~= Seq::<bool>::empty());
    } else {
        let s = byte_bits(b).subrange(o as int, o + a);
        assert(s.drop_last() =~= byte_bits(b).subrange(o as int, o + a - 1));
        lemma_extract((b), o, (a - 1) as u8);
        lemma_extract_step(b, o, a);
        lemma_bit_is_01(b, (7 - (o + a - 1)) as u8);
    }
}

/// Placing `e` below `x` shifted left by `a` bits is `x * 2^a + e`.
pub proof fn lemma_shift_or(x: u64, e: u64, a: u64)
    requires
        a < 64,
        e < pow2(a as nat),
        x * pow2(a as nat) <= u64::MAX,
    ensures
        ((x << a) | e) as int == x * pow2(a as nat) + e,
{
    vstd::bits::lemma_u64_shl_is_mul(x, a);
    vstd::bits::lemma_u64_pow2_no_overflow(a as nat);
    let p = pow2(a as nat) as u64;
    assert(e < p);
    vstd::bits::lemma_u64_shl_is_mul(1u64, a);
    assert(1u64 << a == p);
    lemma_shift_or_bv(x, e, a);
}

proof fn lemma_shift_or_bv(x: u64, e: u64, a: u64)
    by (bit_vector)
    requires
        a < 64,
        e < (1u64 << a),
    ensures
        ((x << a) | e) == (x << a) + e,
{
}

} // verus!
