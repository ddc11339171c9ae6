//! Bit-level writer for constructing arbitrary-width fields into a byte buffer.
//!
//! Bits are written in MSB-first (big-endian) order. Multi-byte values use
//! big-endian byte order.

use vstd::prelude::*;

use super::error::{BitError, BitResult};
use super::stream::{
    bits_of, byte_bit, encodes, lemma_div8, law_encoded_prefix, stream_bit, value_bits,
};

verus! {

/// A writer that packs arbitrary-width bit fields into an owned byte buffer.
///
/// Bits are written MSB-first (most significant bit first) within each byte.
/// Multi-byte values are written in big-endian byte order.
///
/// Its view is the sequence of bits written so far.
#[derive(Debug, Clone)]
pub struct BitWriter {
    buffer: Vec<u8>,
    bit_len: usize,
}

impl View for BitWriter {
    type V = Seq<bool>;

    closed spec fn view(&self) -> Seq<bool> {
        bits_of(self.buffer@).take(self.bit_len as int)
    }
}

/// `n` zero bits.
pub open spec fn zero_bits(n: nat) -> Seq<bool> {
    Seq::new(n, |i: int| false)
}

/// The number of zero bits that pad `len` bits up to a byte boundary.
pub open spec fn pad_len(len: nat) -> nat {
    if len % 8 == 0 {
        0
    } else {
        (8 - len % 8) as nat
    }
}

proof fn lemma_or_into_byte(b: u8, x: u8, off: u8, t: u8, j: u8)
    by (bit_vector)
    requires
        1 <= t,
        off + t <= 8,
        j < 8,
        (x as u16) >> (t as u16) == 0,
    ensures
        (((b | (x << ((8 - off - t) as u8))) >> ((7 - j) as u8)) & 1u8 == 1u8) == (((b >> ((7
            - j) as u8)) & 1u8 == 1u8) || (off <= j && j < off + t && (x >> ((off + t - 1 - j) as u8))
            & 1u8 == 1u8)),
{
}

proof fn lemma_chunk_bits(v: u64, s: u64, t: u64, m: u64, k: u64)
    by (bit_vector)
    requires
        m == ((1u64 << t) - 1) as u64,
        1 <= t <= 8,
        k < t,
        s + t <= 64,
    ensures
        (((((v >> s) & m) as u8) >> (k as u8)) & 1u8 == 1u8) == ((v >> ((s + k) as u64)) & 1u64
            == 1u64),
        ((((v >> s) & m) as u8) as u16) >> (t as u16) == 0,
{
}

impl BitWriter {
    /// The buffer holds exactly the written bits, zero-padded to a byte
    /// boundary.
    pub closed spec fn wf(&self) -> bool {
        &&& self.bit_len <= self.buffer@.len() * 8
        &&& encodes(self.buffer@, self@)
        &&& self.bit_len + 8 <= usize::MAX
    }

    /// The accumulated bytes.
    pub closed spec fn bytes(&self) -> Seq<u8> {
        self.buffer@
    }

    /// The bytes of a well-formed writer hold exactly the bits written,
    /// then zero bits up to the byte boundary.
    pub proof fn law_bytes_encode_bits(&self)
        requires
            self.wf(),
        ensures
            encodes(self.bytes(), self@),
    {
    }

    proof fn lemma_view_len(&self)
        requires
            encodes(self.buffer@, bits_of(self.buffer@).take(self.bit_len as int)),
            self.bit_len <= self.buffer@.len() * 8,
        ensures
            self@.len() == self.bit_len,
    {
    }

    /// Creates a new empty `BitWriter`.
    pub fn new() -> (r: Self)
        ensures
            r.wf(),
            r@ == Seq::<bool>::empty(),
    {
        let r = BitWriter { buffer: Vec::new(), bit_len: 0 };
        assert(r@ =~= Seq::<bool>::empty());
        r
    }

    /// Creates a new `BitWriter` with pre-allocated capacity for at least
    /// `bit_capacity` bits.
    pub fn with_capacity(bit_capacity: usize) -> (r: Self)
        ensures
            r.wf(),
            r@ == Seq::<bool>::empty(),
    {
        let bytes = bit_capacity / 8 + if bit_capacity % 8 != 0 {
            1
        } else {
            0
        };
        let r = BitWriter { buffer: Vec::with_capacity(bytes), bit_len: 0 };
        assert(r@ =~= Seq::<bool>::empty());
        r
    }

    /// Returns the current bit position (number of bits written so far).
    pub fn position(&self) -> (r: usize)
        requires
            self.wf(),
        ensures
            r == self@.len(),
    {
        proof {
            self.lemma_view_len();
        }
        self.bit_len
    }

    /// Returns the total number of bits written.
    pub fn bit_len(&self) -> (r: usize)
        requires
            self.wf(),
        ensures
            r == self@.len(),
    {
        proof {
            self.lemma_view_len();
        }
        self.bit_len
    }

    /// Writes a single bit (`true` = 1, `false` = 0).
    pub fn write_bit(&mut self, bit: bool)
        requires
            old(self).wf(),
            old(self)@.len() + 9 <= usize::MAX,
        ensures
            final(self).wf(),
            final(self)@ == old(self)@.push(bit),
    {
        let x: u8 = if bit {
            1
        } else {
            0
        };
        proof {
            assert((x == 0 || x == 1) ==> (x as u16) >> 1u16 == 0) by (bit_vector);
        }
        self.put_chunk(x, 1);
        proof {
            let v = if bit {
                1u64
            } else {
                0u64
            };
            assert(self@ =~= old(self)@.push(bit)) by {
                assert(x >> 0u8 & 1u8 == x) by (bit_vector)
                    requires
                        x == 0 || x == 1,
                ;
            }
        }
    }

    /// Appends the `t` low bits of `x` (most significant first) at the end
    /// of the stream. The bits must fit in the current byte.
    fn put_chunk(&mut self, x: u8, t: u8)
        requires
            old(self).wf(),
            1 <= t <= 8,
            old(self)@.len() % 8 + t <= 8,
            old(self)@.len() + t + 8 <= usize::MAX,
            (x as u16) >> (t as u16) == 0,
        ensures
            final(self).wf(),
            final(self)@ == old(self)@ + Seq::new(
                t as nat,
                |k: int| (x >> ((t - 1 - k) as u8)) & 1u8 == 1u8,
            ),
    {
        let ghost old_bits = self@;
        let ghost old_buf = self.buffer@;
        proof {
            self.lemma_view_len();
        }
        let byte_idx = self.bit_len / 8;
        let bit_offset = self.bit_len % 8;
        let off8 = bit_offset as u8;
        let dst8: u8 = 8 - off8 - t;
        proof {
            lemma_div8(self.bit_len as int, byte_idx as int);
        }
        let len = self.buffer.len();
        let old_b: u8 = if byte_idx < len {
            self.buffer[byte_idx]
        } else {
            0
        };
        let new_b = old_b | (x << dst8);
        if byte_idx < len {
            self.buffer.set(byte_idx, new_b);
        } else {
            self.buffer.push(new_b);
        }
        self.bit_len = self.bit_len + t as usize;
        proof {
            let chunk = Seq::new(t as nat, |k: int| (x >> ((t - 1 - k) as u8)) & 1u8 == 1u8);
            let new_bits = old_bits + chunk;
            let q = byte_idx as int;
            let base = 8 * q;
            assert(self.buffer@.len() == q + 1) by {
                if off8 == 0 {
                    assert(old_buf.len() == q);
                } else {
                    assert(old_buf.len() == q + 1);
                }
            }
            assert(self.buffer@.len() == (new_bits.len() + 7) / 8);
            assert forall|i: int| 0 <= i < self.buffer@.len() * 8 implies #[trigger] stream_bit(
                self.buffer@,
                i,
            ) == (i < new_bits.len() && new_bits[i]) by {
                if i < base {
                    assert(i / 8 < q) by {
                        vstd::arithmetic::div_mod::lemma_div_is_ordered(i, base - 1, 8);
                        lemma_div8(base - 1, q - 1);
                    }
                    assert(self.buffer@[i / 8] == old_buf[i / 8]);
                    assert(stream_bit(old_buf, i) == (i < old_bits.len() && old_bits[i]));
                } else {
                    lemma_div8(i, q);
                    let j = (i - base) as u8;
                    lemma_or_into_byte(old_b, x, off8, t, j);
                    if j < off8 {
                        assert(stream_bit(old_buf, i) == (i < old_bits.len() && old_bits[i]));
                    } else if j < off8 + t {
                        if byte_idx < len {
                            assert(stream_bit(old_buf, i) == (i < old_bits.len() && old_bits[i]));
                        } else {
                            assert(byte_bit(0u8, j as int) == false) by (bit_vector)
                                requires
                                    j < 8,
                            ;
                        }
                        assert(new_bits[i] == chunk[i - old_bits.len()]);
                    } else {
                        if byte_idx < len {
                            assert(stream_bit(old_buf, i) == (i < old_bits.len() && old_bits[i]));
                        } else {
                            assert(byte_bit(0u8, j as int) == false) by (bit_vector)
                                requires
                                    j < 8,
                            ;
                        }
                    }
                }
            }
            assert(encodes(self.buffer@, new_bits));
            law_encoded_prefix(self.buffer@, new_bits);
            assert(self@ =~= new_bits);
        }
    }

    /// Writes the lowest `n` bits of `value` in MSB-first order.
    ///
    /// Writing 0 bits is a no-op.
    ///
    /// - [`BitError::InvalidBitCount`] if `n > 64`.
    /// - [`BitError::ValueOverflow`] if `value` does not fit in `n` bits.
    pub fn write_bits(&mut self, value: u64, n: u32) -> (r: BitResult<()>)
        requires
            old(self).wf(),
            old(self)@.len() + 72 <= usize::MAX,
        ensures
            final(self).wf(),
            n == 0 ==> r is Ok && final(self)@ == old(self)@,
            n > 64 ==> r == Err::<(), BitError>(BitError::InvalidBitCount { bits: n, max: 64 })
                && final(self)@ == old(self)@,
            0 < n < 64 && value >> (n as u64) != 0 ==> r == Err::<(), BitError>(
                BitError::ValueOverflow { value: value as u128, bits: n },
            ) && final(self)@ == old(self)@,
            0 < n <= 64 && (n == 64 || value >> (n as u64) == 0) ==> r is Ok && final(self)@ == old(
                self,
            )@ + value_bits(value, n as nat),
    {
        if n == 0 {
            proof {
                assert(old(self)@ =~= old(self)@);
            }
            return Ok(());
        }
        if n > 64 {
            return Err(BitError::InvalidBitCount { bits: n, max: 64 });
        }
        // Check that value fits in n bits.
        if n < 64 && (value >> (n as u64)) != 0 {
            return Err(BitError::ValueOverflow { value: value as u128, bits: n });
        }
        let n_bits = n as usize;
        let mut bits_written: usize = 0;
        let ghost start = self@;
        let ghost vb = value_bits(value, n as nat);
        proof {
            assert(vb.take(0) =~= Seq::<bool>::empty());
            assert(start + vb.take(0) =~= start);
        }
        while bits_written < n_bits
            invariant
                self.wf(),
                n_bits == n,
                1 <= n_bits <= 64,
                vb == value_bits(value, n as nat),
                start.len() + 72 <= usize::MAX,
                bits_written <= n_bits,
                self@ == start + vb.take(bits_written as int),
            decreases n_bits - bits_written,
        {
            proof {
                self.lemma_view_len();
            }
            let bit_offset = self.bit_len % 8;
            let space = 8 - bit_offset;
            let left = n_bits - bits_written;
            let to_write = if space < left {
                space
            } else {
                left
            };
            // Extract `to_write` bits from value starting at position
            // `bits_written` (MSB-first).
            let src_shift = n_bits - bits_written - to_write;
            let tw8 = to_write as u8;
            proof {
                assert(1 <= tw8 <= 8 ==> (1u64 << (tw8 as u64)) >= 1) by (bit_vector);
            }
            let mask = (1u64 << (tw8 as u64)) - 1;
            let bits = ((value >> (src_shift as u64)) & mask) as u8;
            proof {
                assert(mask == ((1u64 << (tw8 as u64)) - 1) as u64);
                lemma_chunk_bits(value, src_shift as u64, tw8 as u64, mask, 0);
            }
            self.put_chunk(bits, tw8);
            proof {
                let chunk = Seq::new(
                    tw8 as nat,
                    |k: int| (bits >> ((tw8 - 1 - k) as u8)) & 1u8 == 1u8,
                );
                assert(chunk =~= vb.subrange(bits_written as int, bits_written + to_write)) by {
                    assert forall|k: int| 0 <= k < tw8 implies #[trigger] chunk[k] == vb[bits_written
                        + k] by {
                        let kk = (tw8 - 1 - k) as u64;
                        lemma_chunk_bits(value, src_shift as u64, tw8 as u64, mask, kk);
                    }
                }
                assert(vb.take(bits_written + to_write) =~= vb.take(bits_written as int) + chunk);
            }
            bits_written = bits_written + to_write;
        }
        proof {
            assert(vb.take(n_bits as int) =~= vb);
        }
        Ok(())
    }

    /// Writes a `u8` value using `n` bits.
    ///
    /// Returns [`BitError::InvalidBitCount`] if `n > 8`, and
    /// [`BitError::ValueOverflow`] if `value` does not fit in `n` bits.
    pub fn write_u8(&mut self, value: u8, n: u32) -> (r: BitResult<()>)
        requires
            old(self).wf(),
            old(self)@.len() + 72 <= usize::MAX,
        ensures
            final(self).wf(),
            n > 8 ==> r == Err::<(), BitError>(BitError::InvalidBitCount { bits: n, max: 8 })
                && final(self)@ == old(self)@,
            n <= 8 ==> write_outcome(old(self)@, value as u64, n, r, final(self)@),
    {
        if n > 8 {
            return Err(BitError::InvalidBitCount { bits: n, max: 8 });
        }
        self.write_bits(value as u64, n)
    }

    /// Writes a `u16` value using `n` bits.
    ///
    /// Returns [`BitError::InvalidBitCount`] if `n > 16`, and
    /// [`BitError::ValueOverflow`] if `value` does not fit in `n` bits.
    pub fn write_u16(&mut self, value: u16, n: u32) -> (r: BitResult<()>)
        requires
            old(self).wf(),
            old(self)@.len() + 72 <= usize::MAX,
        ensures
            final(self).wf(),
            n > 16 ==> r == Err::<(), BitError>(BitError::InvalidBitCount { bits: n, max: 16 })
                && final(self)@ == old(self)@,
            n <= 16 ==> write_outcome(old(self)@, value as u64, n, r, final(self)@),
    {
        if n > 16 {
            return Err(BitError::InvalidBitCount { bits: n, max: 16 });
        }
        self.write_bits(value as u64, n)
    }

    /// Writes a `u32` value using `n` bits.
    ///
    /// Returns [`BitError::InvalidBitCount`] if `n > 32`, and
    /// [`BitError::ValueOverflow`] if `value` does not fit in `n` bits.
    pub fn write_u32(&mut self, value: u32, n: u32) -> (r: BitResult<()>)
        requires
            old(self).wf(),
            old(self)@.len() + 72 <= usize::MAX,
        ensures
            final(self).wf(),
            n > 32 ==> r == Err::<(), BitError>(BitError::InvalidBitCount { bits: n, max: 32 })
                && final(self)@ == old(self)@,
            n <= 32 ==> write_outcome(old(self)@, value as u64, n, r, final(self)@),
    {
        if n > 32 {
            return Err(BitError::InvalidBitCount { bits: n, max: 32 });
        }
        self.write_bits(value as u64, n)
    }

    /// Writes a `u64` value using `n` bits. Equivalent to [`write_bits`](Self::write_bits).
    pub fn write_u64(&mut self, value: u64, n: u32) -> (r: BitResult<()>)
        requires
            old(self).wf(),
            old(self)@.len() + 72 <= usize::MAX,
        ensures
            final(self).wf(),
            n > 64 ==> r == Err::<(), BitError>(BitError::InvalidBitCount { bits: n, max: 64 })
                && final(self)@ == old(self)@,
            n <= 64 ==> write_outcome(old(self)@, value, n, r, final(self)@),
    {
        self.write_bits(value, n)
    }

    /// Aligns to the next byte boundary by padding with zero bits.
    ///
    /// If already byte-aligned, this is a no-op.
    pub fn align_to_byte(&mut self)
        requires
            old(self).wf(),
            old(self)@.len() + 16 <= usize::MAX,
        ensures
            final(self).wf(),
            final(self)@ == old(self)@ + zero_bits(pad_len(old(self)@.len())),
    {
        proof {
            self.lemma_view_len();
        }
        let remainder = self.bit_len % 8;
        if remainder != 0 {
            // The current partial byte was initialized to 0, so the padding
            // bits are already zero. Just advance the position.
            let ghost old_bits = self@;
            let ghost q = (self.bit_len / 8) as int;
            proof {
                lemma_div8(self.bit_len as int, q);
            }
            self.bit_len = self.bit_len + (8 - remainder);
            proof {
                let new_bits = old_bits + zero_bits(pad_len(old_bits.len()));
                assert(self.buffer@.len() == q + 1);
                assert forall|i: int| 0 <= i < self.buffer@.len() * 8 implies #[trigger] stream_bit(
                    self.buffer@,
                    i,
                ) == (i < new_bits.len() && new_bits[i]) by {
                    assert(stream_bit(self.buffer@, i) == (i < old_bits.len() && old_bits[i]));
                }
                law_encoded_prefix(self.buffer@, new_bits);
                assert(self@ =~= new_bits);
            }
        } else {
            proof {
                assert(old(self)@ + zero_bits(0) =~= old(self)@);
            }
        }
    }

    /// Consumes the writer and returns the accumulated bytes.
    ///
    /// If the last byte is only partially written, it is included with
    /// unwritten bits set to 0.
    pub fn into_bytes(self) -> (r: Vec<u8>)
        requires
            self.wf(),
        ensures
            encodes(r@, self@),
            r@ == self.bytes(),
    {
        self.buffer
    }

    /// Returns a reference to the accumulated bytes so far.
    pub fn as_bytes(&self) -> (r: &[u8])
        requires
            self.wf(),
        ensures
            encodes(r@, self@),
            r@ == self.bytes(),
    {
        self.buffer.as_slice()
    }
}

impl Default for BitWriter {
    fn default() -> (r: Self)
        ensures
            r.wf(),
            r@ == Seq::<bool>::empty(),
    {
        Self::new()
    }
}

/// What a write of the `n` low bits of `value` does, for `n <= 64`: nothing
/// for `n == 0`, an overflow error when the value does not fit, and
/// otherwise appends the bits.
pub open spec fn write_outcome(
    before: Seq<bool>,
    value: u64,
    n: u32,
    r: BitResult<()>,
    after: Seq<bool>,
) -> bool {
    if n == 0 {
        r is Ok && after == before
    } else if n < 64 && value >> (n as u64) != 0 {
        r == Err::<(), BitError>(BitError::ValueOverflow { value: value as u128, bits: n })
            && after == before
    } else {
        r is Ok && after == before + value_bits(value, n as nat)
    }
}

} // verus!
