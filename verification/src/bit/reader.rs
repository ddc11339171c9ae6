//! Bit-level reader for extracting arbitrary-width fields from a byte slice.
//!
//! Bits are read in MSB-first (big-endian) order: the most significant bit
//! of each byte is read first. Multi-byte values use big-endian byte order.

use vstd::prelude::*;
use vstd::arithmetic::power2::*;

use super::error::{BitError, BitResult};
use super::stream::{
    bits_of, bits_value, byte_bits, lemma_bits_value_bound, lemma_bits_value_concat, lemma_div8,
    lemma_bit_is_01, lemma_extract, lemma_shift_or, encodes, fits_in, written_bits,
    lemma_written_prefix, lemma_encoded_bits, lemma_value_bits_round_trip, value_bits,
    total_width, lemma_written_len,
};

verus! {

/// The abstract state of a [`BitReader`]: the bytes it reads, how many of
/// their bits are valid, and how many bits have been consumed.
pub struct ReaderView {
    pub data: Seq<u8>,
    pub bit_len: nat,
    pub position: nat,
}

impl ReaderView {
    /// Number of bits left to read.
    pub open spec fn remaining(self) -> nat {
        (self.bit_len - self.position) as nat
    }

    /// The value of the next `n` bits, MSB-first.
    pub open spec fn peek_value(self, n: nat) -> nat {
        bits_value(bits_of(self.data).subrange(self.position as int, (self.position + n) as int))
    }

    /// Position and length agree with the data.
    pub open spec fn valid(self) -> bool {
        self.position <= self.bit_len <= self.data.len() * 8
    }
}

/// A reader that extracts arbitrary-width bit fields from a borrowed byte slice.
///
/// Bits are read MSB-first (most significant bit first) within each byte.
/// Multi-byte values are read in big-endian byte order.
#[derive(Debug)]
pub struct BitReader<'a> {
    data: &'a [u8],
    bit_len: usize,
    position: usize,
}

impl<'a> View for BitReader<'a> {
    type V = ReaderView;

    closed spec fn view(&self) -> ReaderView {
        ReaderView {
            data: self.data@,
            bit_len: self.bit_len as nat,
            position: self.position as nat,
        }
    }
}

/// The error for a request of `requested` bits when `remaining` are left.
pub open spec fn eof_error(position: nat, requested: nat, remaining: nat) -> BitError {
    BitError::UnexpectedEof {
        position: position as usize,
        requested: requested as usize,
        remaining: remaining as usize,
    }
}

/// What reading `n` bits (`n <= 64`, checked by the caller) from state `v` returns.
pub open spec fn read_outcome(v: ReaderView, n: nat) -> BitResult<u64> {
    if n == 0 {
        Ok(0)
    } else if n > v.remaining() {
        Err(eof_error(v.position, n, v.remaining()))
    } else {
        Ok(v.peek_value(n) as u64)
    }
}

/// The state after reading `n` bits from `v`, when the read succeeds.
pub open spec fn advanced(v: ReaderView, n: nat) -> ReaderView {
    if n <= v.remaining() {
        ReaderView { position: v.position + n, ..v }
    } else {
        v
    }
}

impl<'a> BitReader<'a> {
    #[verifier::type_invariant]
    spec fn inv(self) -> bool {
        self.position <= self.bit_len <= self.data@.len() * 8
    }

    /// Creates a new `BitReader` over the given byte slice.
    ///
    /// `bit_len` specifies the number of valid bits in `data`. It is clamped
    /// to `data.len() * 8` if larger.
    pub fn new(data: &'a [u8], bit_len: usize) -> (r: Self)
        requires
            data@.len() * 8 <= usize::MAX,
        ensures
            r@.data == data@,
            r@.bit_len == (if bit_len <= data@.len() * 8 {
                bit_len as nat
            } else {
                data@.len() * 8
            }),
            r@.position == 0,
            r@.valid(),
    {
        let total = data.len() * 8;
        let clamped = if bit_len < total {
            bit_len
        } else {
            total
        };
        BitReader { data, bit_len: clamped, position: 0 }
    }

    /// Creates a new `BitReader` over the entire byte slice.
    ///
    /// All bits in `data` are considered valid (`bit_len = data.len() * 8`).
    pub fn from_bytes(data: &'a [u8]) -> (r: Self)
        requires
            data@.len() * 8 <= usize::MAX,
        ensures
            r@.data == data@,
            r@.bit_len == data@.len() * 8,
            r@.position == 0,
            r@.valid(),
    {
        Self::new(data, data.len() * 8)
    }

    /// Returns the current bit position (0-indexed from the start).
    pub fn position(&self) -> (r: usize)
        ensures
            r == self@.position,
            self@.valid(),
    {
        proof {
            use_type_invariant(self);
        }
        self.position
    }

    /// Returns the total number of valid bits.
    pub fn bit_len(&self) -> (r: usize)
        ensures
            r == self@.bit_len,
            self@.valid(),
    {
        proof {
            use_type_invariant(self);
        }
        self.bit_len
    }

    /// Returns the number of bits remaining to be read.
    pub fn remaining(&self) -> (r: usize)
        ensures
            r == self@.remaining(),
            self@.valid(),
    {
        proof {
            use_type_invariant(self);
        }
        self.bit_len - self.position
    }

    /// Returns `true` if there are no more bits to read.
    pub fn is_empty(&self) -> (r: bool)
        ensures
            r == (self@.remaining() == 0),
    {
        self.remaining() == 0
    }

    /// Reads a single bit, returning `true` for 1 and `false` for 0.
    ///
    /// Returns [`BitError::UnexpectedEof`] if no bits remain.
    pub fn read_bit(&mut self) -> (r: BitResult<bool>)
        ensures
            final(self)@.data == old(self)@.data,
            final(self)@.bit_len == old(self)@.bit_len,
            final(self)@.valid(),
            old(self)@.remaining() == 0 ==> r == Err::<bool, BitError>(
                eof_error(old(self)@.position, 1, 0),
            ) && final(self)@.position == old(self)@.position,
            old(self)@.remaining() > 0 ==> r == Ok::<bool, BitError>(
                bits_of(old(self)@.data)[old(self)@.position as int],
            ) && final(self)@.position == old(self)@.position + 1,
    {
        proof {
            use_type_invariant(&*self);
        }
        if self.position >= self.bit_len {
            return Err(BitError::UnexpectedEof { position: self.position, requested: 1, remaining: 0 });
        }
        let byte_idx = self.position / 8;
        let bit_offset = (self.position % 8) as u8;
        let bit = (self.data[byte_idx] >> (7 - bit_offset)) & 1;
        proof {
            lemma_bit_is_01(self.data@[byte_idx as int], (7 - bit_offset) as u8);
        }
        self.position = self.position + 1;
        Ok(bit != 0)
    }

    /// Reads `n` bits as an unsigned 64-bit integer (MSB-first).
    ///
    /// Reading 0 bits returns `Ok(0)`.
    ///
    /// - [`BitError::InvalidBitCount`] if `n > 64`.
    /// - [`BitError::UnexpectedEof`] if fewer than `n` bits remain.
    pub fn read_bits(&mut self, n: u32) -> (r: BitResult<u64>)
        ensures
            final(self)@.data == old(self)@.data,
            final(self)@.bit_len == old(self)@.bit_len,
            final(self)@.valid(),
            n > 64 ==> r == Err::<u64, BitError>(BitError::InvalidBitCount { bits: n, max: 64 })
                && final(self)@ == old(self)@,
            n <= 64 ==> r == read_outcome(old(self)@, n as nat) && final(self)@ == (if r is Ok {
                advanced(old(self)@, n as nat)
            } else {
                old(self)@
            }),
    {
        proof {
            use_type_invariant(&*self);
        }
        if n == 0 {
            return Ok(0);
        }
        if n > 64 {
            return Err(BitError::InvalidBitCount { bits: n, max: 64 });
        }
        let n_bits = n as usize;
        let remaining = self.bit_len - self.position;
        if n_bits > remaining {
            return Err(
                BitError::UnexpectedEof { position: self.position, requested: n_bits, remaining },
            );
        }
        let ghost s = bits_of(self.data@);
        let ghost start = self.position as int;
        let mut result: u64 = 0;
        let mut bits_left: usize = n_bits;
        let mut pos: usize = self.position;
        proof {
            assert(s.subrange(start, start) =~= Seq::<bool>::empty());
        }
        while bits_left > 0
            invariant
                s == bits_of(self.data@),
                start + n_bits <= self.bit_len <= self.data@.len() * 8,
                n_bits <= 64,
                0 <= start <= pos,
                start == self.position,
                pos + bits_left == start + n_bits,
                result as nat == bits_value(s.subrange(start, pos as int)),
            decreases bits_left,
        {
            let byte_idx = pos / 8;
            let bit_offset = pos % 8;
            let room = 8 - bit_offset;
            let available = if room < bits_left {
                room
            } else {
                bits_left
            };
            let off8 = bit_offset as u8;
            let avail8 = available as u8;
            // Shift the byte right so the target bits sit at the low end,
            // then mask off just those bits.
            let shift8: u8 = 8 - off8 - avail8;
            proof {
                assert(1 <= avail8 <= 8 ==> (1u16 << avail8) >= 1 && (1u16 << avail8) <= 256)
                    by (bit_vector);
            }
            let mask = ((1u16 << avail8) - 1) as u8;
            let byte = self.data[byte_idx];
            let extracted = (byte >> shift8) & mask;
            proof {
                let prev = s.subrange(start, pos as int);
                let chunk = s.subrange(pos as int, pos + available);
                lemma_div8(pos as int, byte_idx as int);
                assert(chunk =~= byte_bits(byte).subrange(off8 as int, off8 + avail8)) by {
                    assert forall|j: int| 0 <= j < available implies #[trigger] chunk[j]
                        == byte_bits(byte).subrange(off8 as int, off8 + avail8)[j] by {
                        lemma_div8(pos + j, byte_idx as int);
                    }
                }
                lemma_extract(byte, off8, avail8);
                assert(pos + available <= s.len());
                assert(s.subrange(start, pos + available) =~= prev + chunk);
                lemma_bits_value_concat(prev, chunk);
                lemma_bits_value_bound(prev);
                lemma_bits_value_bound(chunk);
                lemma_pow2_adds((pos - start) as nat, available as nat);
                let p1 = pow2((pos - start) as nat);
                let p2 = pow2(available as nat);
                lemma_pow2_pos(available as nat);
                vstd::arithmetic::mul::lemma_mul_strict_inequality(
                    result as int,
                    p1 as int,
                    p2 as int,
                );
                if pos - start + available < 64 {
                    lemma_pow2_strictly_increases((pos - start + available) as nat, 64);
                }
                lemma2_to64_rest();
                lemma_shift_or(result, extracted as u64, avail8 as u64);
            }
            result = (result << (avail8 as u64)) | (extracted as u64);
            pos = pos + available;
            bits_left = bits_left - available;
        }
        self.position = pos;
        Ok(result)
    }

    /// Reads `n` bits as a `u8`.
    ///
    /// Returns [`BitError::InvalidBitCount`] if `n > 8`, and
    /// [`BitError::UnexpectedEof`] if fewer than `n` bits remain.
    pub fn read_u8(&mut self, n: u32) -> (r: BitResult<u8>)
        ensures
            final(self)@.data == old(self)@.data,
            final(self)@.bit_len == old(self)@.bit_len,
            final(self)@.valid(),
            n > 8 ==> r == Err::<u8, BitError>(BitError::InvalidBitCount { bits: n, max: 8 })
                && final(self)@ == old(self)@,
            n <= 8 ==> (r is Ok <==> read_outcome(old(self)@, n as nat) is Ok),
            n <= 8 ==> (r matches Ok(v) ==> read_outcome(old(self)@, n as nat) == Ok::<u64, BitError>(
                v as u64,
            )),
            n <= 8 ==> (r matches Err(e) ==> read_outcome(old(self)@, n as nat) == Err::<u64, BitError>(
                e,
            )),
            n <= 8 ==> final(self)@ == (if r is Ok {
                advanced(old(self)@, n as nat)
            } else {
                old(self)@
            }),
    {
        proof {
            use_type_invariant(&*self);
        }
        if n > 8 {
            return Err(BitError::InvalidBitCount { bits: n, max: 8 });
        }
        let ghost before = self@;
        proof {
            lemma_read_fits(before, n as nat);
            lemma2_to64();
            if n < 8 {
                lemma_pow2_strictly_increases(n as nat, 8);
            }
        }
        let r = self.read_bits(n);
        match r {
            Ok(v) => Ok(v as u8),
            Err(e) => Err(e),
        }
    }

    /// Reads `n` bits as a `u16`.
    ///
    /// Returns [`BitError::InvalidBitCount`] if `n > 16`, and
    /// [`BitError::UnexpectedEof`] if fewer than `n` bits remain.
    pub fn read_u16(&mut self, n: u32) -> (r: BitResult<u16>)
        ensures
            final(self)@.data == old(self)@.data,
            final(self)@.bit_len == old(self)@.bit_len,
            final(self)@.valid(),
            n > 16 ==> r == Err::<u16, BitError>(BitError::InvalidBitCount { bits: n, max: 16 })
                && final(self)@ == old(self)@,
            n <= 16 ==> (r is Ok <==> read_outcome(old(self)@, n as nat) is Ok),
            n <= 16 ==> (r matches Ok(v) ==> read_outcome(old(self)@, n as nat) == Ok::<u64, BitError>(
                v as u64,
            )),
            n <= 16 ==> (r matches Err(e) ==> read_outcome(old(self)@, n as nat) == Err::<u64, BitError>(
                e,
            )),
            n <= 16 ==> final(self)@ == (if r is Ok {
                advanced(old(self)@, n as nat)
            } else {
                old(self)@
            }),
    {
        proof {
            use_type_invariant(&*self);
        }
        if n > 16 {
            return Err(BitError::InvalidBitCount { bits: n, max: 16 });
        }
        let ghost before = self@;
        proof {
            lemma_read_fits(before, n as nat);
            lemma2_to64();
            if n < 16 {
                lemma_pow2_strictly_increases(n as nat, 16);
            }
        }
        let r = self.read_bits(n);
        match r {
            Ok(v) => Ok(v as u16),
            Err(e) => Err(e),
        }
    }

    /// Reads `n` bits as a `u32`.
    ///
    /// Returns [`BitError::InvalidBitCount`] if `n > 32`, and
    /// [`BitError::UnexpectedEof`] if fewer than `n` bits remain.
    pub fn read_u32(&mut self, n: u32) -> (r: BitResult<u32>)
        ensures
            final(self)@.data == old(self)@.data,
            final(self)@.bit_len == old(self)@.bit_len,
            final(self)@.valid(),
            n > 32 ==> r == Err::<u32, BitError>(BitError::InvalidBitCount { bits: n, max: 32 })
                && final(self)@ == old(self)@,
            n <= 32 ==> (r is Ok <==> read_outcome(old(self)@, n as nat) is Ok),
            n <= 32 ==> (r matches Ok(v) ==> read_outcome(old(self)@, n as nat) == Ok::<u64, BitError>(
                v as u64,
            )),
            n <= 32 ==> (r matches Err(e) ==> read_outcome(old(self)@, n as nat) == Err::<u64, BitError>(
                e,
            )),
            n <= 32 ==> final(self)@ == (if r is Ok {
                advanced(old(self)@, n as nat)
            } else {
                old(self)@
            }),
    {
        proof {
            use_type_invariant(&*self);
        }
        if n > 32 {
            return Err(BitError::InvalidBitCount { bits: n, max: 32 });
        }
        let ghost before = self@;
        proof {
            lemma_read_fits(before, n as nat);
            lemma2_to64();
            if n < 32 {
                lemma_pow2_strictly_increases(n as nat, 32);
            }
        }
        let r = self.read_bits(n);
        match r {
            Ok(v) => Ok(v as u32),
            Err(e) => Err(e),
        }
    }

    /// Reads `n` bits as a `u64`. Equivalent to [`read_bits`](Self::read_bits).
    pub fn read_u64(&mut self, n: u32) -> (r: BitResult<u64>)
        ensures
            final(self)@.data == old(self)@.data,
            final(self)@.bit_len == old(self)@.bit_len,
            final(self)@.valid(),
            n > 64 ==> r == Err::<u64, BitError>(BitError::InvalidBitCount { bits: n, max: 64 })
                && final(self)@ == old(self)@,
            n <= 64 ==> r == read_outcome(old(self)@, n as nat) && final(self)@ == (if r is Ok {
                advanced(old(self)@, n as nat)
            } else {
                old(self)@
            }),
    {
        self.read_bits(n)
    }

    /// Skips `n` bits, advancing the position without reading values.
    ///
    /// Skipping 0 bits is a no-op. Returns [`BitError::UnexpectedEof`] if
    /// fewer than `n` bits remain.
    pub fn skip(&mut self, n: usize) -> (r: BitResult<()>)
        ensures
            final(self)@.data == old(self)@.data,
            final(self)@.bit_len == old(self)@.bit_len,
            final(self)@.valid(),
            n <= old(self)@.remaining() ==> r is Ok && final(self)@.position == old(self)@.position
                + n,
            n > old(self)@.remaining() ==> r == Err::<(), BitError>(
                eof_error(old(self)@.position, n as nat, old(self)@.remaining()),
            ) && final(self)@.position == old(self)@.position,
    {
        proof {
            use_type_invariant(&*self);
        }
        if n == 0 {
            return Ok(());
        }
        let remaining = self.bit_len - self.position;
        if n > remaining {
            return Err(BitError::UnexpectedEof { position: self.position, requested: n, remaining });
        }
        self.position = self.position + n;
        Ok(())
    }

    /// Aligns the position to the next byte boundary.
    ///
    /// If already aligned, this is a no-op. Otherwise, skips the remaining
    /// bits in the current byte; returns [`BitError::UnexpectedEof`] if there
    /// aren't enough bits to reach the boundary.
    pub fn align_to_byte(&mut self) -> (r: BitResult<()>)
        ensures
            final(self)@.data == old(self)@.data,
            final(self)@.bit_len == old(self)@.bit_len,
            final(self)@.valid(),
            old(self)@.position % 8 == 0 ==> r is Ok && final(self)@ == old(self)@,
            old(self)@.position % 8 != 0 && (8 - old(self)@.position % 8) <= old(self)@.remaining()
                ==> r is Ok && final(self)@.position == old(self)@.position + (8 - old(
                self,
            )@.position % 8),
            old(self)@.position % 8 != 0 && (8 - old(self)@.position % 8) > old(self)@.remaining()
                ==> r == Err::<(), BitError>(
                eof_error(
                    old(self)@.position,
                    (8 - old(self)@.position % 8) as nat,
                    old(self)@.remaining(),
                ),
            ) && final(self)@ == old(self)@,
    {
        proof {
            use_type_invariant(&*self);
        }
        let remainder = self.position % 8;
        if remainder != 0 {
            self.skip(8 - remainder)?;
        }
        Ok(())
    }

}

/// A successful read of at most `n` bits gives a value below `2^n`.
proof fn lemma_read_fits(v: ReaderView, n: nat)
    requires
        n <= 64,
        v.valid(),
    ensures
        read_outcome(v, n) matches Ok(x) ==> x < pow2(n),
{
    if 0 < n <= v.remaining() {
        let sub = bits_of(v.data).subrange(v.position as int, (v.position + n) as int);
        lemma_bits_value_bound(sub);
        if n < 64 {
            lemma_pow2_strictly_increases(n, 64);
        }
        lemma2_to64_rest();
    } else if n == 0 {
        lemma2_to64();
    }
}

/// The state of a reader over `bytes`, holding the bits of the writes `ws`,
/// after reading back the first `i` of them.
pub open spec fn reader_after(ws: Seq<(u64, nat)>, bytes: Seq<u8>, i: int) -> ReaderView {
    ReaderView {
        data: bytes,
        bit_len: written_bits(ws).len(),
        position: written_bits(ws.take(i)).len(),
    }
}

/// Law: bytes that hold a sequence of writes read back, write by write.
///
/// A reader over the bytes, limited to the bits written, that has read
/// back the first `i` writes reads the next one as the value written and
/// then stands after it; after the last write it has nothing left. The
/// bits written are as many as the widths add up to, and the bytes are as
/// many as those bits need.
pub proof fn law_writes_read_back(ws: Seq<(u64, nat)>, bytes: Seq<u8>, i: int)
    requires
        forall|k: int| 0 <= k < ws.len() ==> 0 < #[trigger] ws[k].1 <= 64 && fits_in(ws[k].0, ws[k].1),
        encodes(bytes, written_bits(ws)),
        0 <= i <= ws.len(),
    ensures
        reader_after(ws, bytes, i).valid(),
        i < ws.len() ==> read_outcome(reader_after(ws, bytes, i), ws[i].1) == Ok::<u64, BitError>(
            ws[i].0,
        ),
        i < ws.len() ==> advanced(reader_after(ws, bytes, i), ws[i].1) == reader_after(
            ws,
            bytes,
            i + 1,
        ),
        i == ws.len() ==> reader_after(ws, bytes, i).remaining() == 0,
        written_bits(ws).len() == total_width(ws),
        bytes.len() == (total_width(ws) + 7) / 8,
{
    lemma_written_len(ws);
    let all = written_bits(ws);
    if i == ws.len() {
        assert(ws.take(i) =~= ws);
    } else {
        lemma_written_prefix(ws, i);
    }
    if i > 0 {
        lemma_written_prefix(ws, i - 1);
        assert(written_bits(ws).take(written_bits(ws.take(i)).len() as int).len() == written_bits(ws.take(i)).len());
    }
    if i < ws.len() {
        let p = written_bits(ws.take(i)).len() as int;
        let n = ws[i].1;
        let v = ws[i].0;
        let q = written_bits(ws.take(i + 1));
        assert(q.len() == p + n);
        lemma_encoded_bits(bytes, all, p, n as int);
        assert(all.subrange(p, p + n) =~= value_bits(v, n)) by {
            assert(all.take(q.len() as int) =~= q);
            assert forall|k: int| 0 <= k < n implies #[trigger] all.subrange(p, p + n)[k]
                == value_bits(v, n)[k] by {
                assert(all.take(q.len() as int)[p + k] == q[p + k]);
            }
        }
        lemma_value_bits_round_trip(v, n);
        assert(ws.take(i + 1).len() == i + 1);
    }
    assert(all.len() <= bytes.len() * 8);
}

} // verus!
