//! Reading bits: unit cases.

use bpc::bit::{BitError, BitReader};

#[test]
fn new_clamps_bit_len() {
    let data = [0xFF];
    let reader = BitReader::new(&data, 100);
    assert_eq!(reader.bit_len(), 8);
}

#[test]
fn from_bytes_uses_full_length() {
    let data = [0xAB, 0xCD, 0xEF];
    let reader = BitReader::from_bytes(&data);
    assert_eq!(reader.bit_len(), 24);
}

#[test]
fn empty_reader() {
    let data: [u8; 0] = [];
    let reader = BitReader::from_bytes(&data);
    assert!(reader.is_empty());
    assert_eq!(reader.remaining(), 0);
}

#[test]
fn read_bit_msb_first() {
    let data = [0b1010_0110];
    let mut reader = BitReader::from_bytes(&data);
    let bits: Vec<bool> = (0..8).map(|_| reader.read_bit().unwrap()).collect();
    assert_eq!(
        bits,
        vec![true, false, true, false, false, true, true, false]
    );
}

#[test]
fn read_bit_at_eof() {
    let data = [0xFF];
    let mut reader = BitReader::new(&data, 1);
    reader.read_bit().unwrap();
    let err = reader.read_bit().unwrap_err();
    assert_eq!(
        err,
        BitError::UnexpectedEof {
            position: 1,
            requested: 1,
            remaining: 0,
        }
    );
}

#[test]
fn read_bits_zero_is_noop() {
    let data = [0xFF];
    let mut reader = BitReader::from_bytes(&data);
    assert_eq!(reader.read_bits(0).unwrap(), 0);
    assert_eq!(reader.position(), 0);
}

#[test]
fn read_bits_within_byte() {
    let data = [0b1010_1100];
    let mut reader = BitReader::from_bytes(&data);
    assert_eq!(reader.read_bits(3).unwrap(), 0b101);
    assert_eq!(reader.position(), 3);
    assert_eq!(reader.read_bits(5).unwrap(), 0b01100);
}

#[test]
fn read_bits_crossing_boundary() {
    let data = [0b11010_011, 0b1_0000000];
    let mut reader = BitReader::new(&data, 9);
    assert_eq!(reader.read_bits(5).unwrap(), 0b11010);
    assert_eq!(reader.read_bits(4).unwrap(), 0b0111);
    assert!(reader.is_empty());
}

#[test]
fn read_full_u64() {
    let data = [0x01, 0x23, 0x45, 0x67, 0x89, 0xAB, 0xCD, 0xEF];
    let mut reader = BitReader::from_bytes(&data);
    assert_eq!(reader.read_u64(64).unwrap(), 0x0123456789ABCDEF);
}

#[test]
fn read_bits_invalid_count() {
    let data = [0xFF; 16];
    let mut reader = BitReader::from_bytes(&data);
    let err = reader.read_bits(65).unwrap_err();
    assert_eq!(err, BitError::InvalidBitCount { bits: 65, max: 64 });
}

#[test]
fn read_bits_past_eof() {
    let data = [0xFF];
    let mut reader = BitReader::new(&data, 4);
    let err = reader.read_bits(5).unwrap_err();
    assert_eq!(
        err,
        BitError::UnexpectedEof {
            position: 0,
            requested: 5,
            remaining: 4,
        }
    );
}

#[test]
fn read_u8_max_width() {
    let data = [0xAB];
    let mut reader = BitReader::from_bytes(&data);
    assert_eq!(reader.read_u8(8).unwrap(), 0xAB);
}

#[test]
fn read_u8_too_wide() {
    let data = [0xFF; 2];
    let mut reader = BitReader::from_bytes(&data);
    let err = reader.read_u8(9).unwrap_err();
    assert_eq!(err, BitError::InvalidBitCount { bits: 9, max: 8 });
}

#[test]
fn skip_advances_position() {
    let data = [0b1111_0000, 0b1010_1010];
    let mut reader = BitReader::from_bytes(&data);
    reader.skip(4).unwrap();
    assert_eq!(reader.position(), 4);
    assert_eq!(reader.read_bits(4).unwrap(), 0b0000);
}

#[test]
fn reader_skip_zero_is_noop() {
    let data = [0xFF];
    let mut reader = BitReader::from_bytes(&data);
    reader.skip(0).unwrap();
    assert_eq!(reader.position(), 0);
}

#[test]
fn skip_past_eof() {
    let data = [0xFF];
    let mut reader = BitReader::new(&data, 4);
    let err = reader.skip(5).unwrap_err();
    assert_eq!(
        err,
        BitError::UnexpectedEof {
            position: 0,
            requested: 5,
            remaining: 4,
        }
    );
}

#[test]
fn align_from_unaligned() {
    let data = [0xFF, 0xAA];
    let mut reader = BitReader::from_bytes(&data);
    reader.read_bits(3).unwrap();
    reader.align_to_byte().unwrap();
    assert_eq!(reader.position(), 8);
    assert_eq!(reader.read_u8(8).unwrap(), 0xAA);
}

#[test]
fn reader_align_already_aligned() {
    let data = [0xFF, 0xAA];
    let mut reader = BitReader::from_bytes(&data);
    reader.read_bits(8).unwrap();
    reader.align_to_byte().unwrap();
    assert_eq!(reader.position(), 8);
}

#[test]
fn align_at_start() {
    let data = [0xFF];
    let mut reader = BitReader::from_bytes(&data);
    reader.align_to_byte().unwrap();
    assert_eq!(reader.position(), 0);
}
