use sevenz_reader::bits::{read_bit_vector, read_defined_vector};
use sevenz_reader::error::ReadError;
use sevenz_reader::stream::ByteCursor;

/// Packs booleans eight to a byte, the first in the most significant bit.
fn pack(bits: &[bool]) -> Vec<u8> {
    let mut bytes = vec![0u8; (bits.len() + 7) / 8];
    for (i, bit) in bits.iter().enumerate() {
        if *bit {
            bytes[i / 8] |= 0x80 >> (i % 8);
        }
    }
    bytes
}

fn pattern(n: usize, code: u64) -> Vec<bool> {
    (0..n).map(|i| (code >> i) & 1 == 1).collect()
}

fn check_round_trip(bits: &[bool]) {
    let mut bytes = pack(bits);
    let packed = bytes.len();
    bytes.extend_from_slice(&[0xA5, 0x5A]);
    let mut cursor = ByteCursor::new(&bytes);
    assert_eq!(read_bit_vector(&mut cursor, bits.len() as u64), Ok(bits.to_vec()));
    assert_eq!(cursor.position(), packed);
}

#[test]
fn bit_vector_of_no_entries() {
    let bytes = [0xFF];
    let mut cursor = ByteCursor::new(&bytes);
    assert_eq!(read_bit_vector(&mut cursor, 0), Ok(vec![]));
    assert_eq!(cursor.position(), 0);
}

#[test]
fn bit_vector_first_entry_is_the_top_bit() {
    let bytes = [0x80];
    let mut cursor = ByteCursor::new(&bytes);
    assert_eq!(read_bit_vector(&mut cursor, 1), Ok(vec![true]));
    let bytes = [0x7F];
    let mut cursor = ByteCursor::new(&bytes);
    assert_eq!(read_bit_vector(&mut cursor, 1), Ok(vec![false]));
}

#[test]
fn bit_vector_entry_one_is_bit_six() {
    let bytes = [0x40];
    let mut cursor = ByteCursor::new(&bytes);
    assert_eq!(read_bit_vector(&mut cursor, 3), Ok(vec![false, true, false]));
}

#[test]
fn bit_vector_entry_eight_opens_the_second_byte() {
    let bytes = [0x01, 0x80];
    let mut cursor = ByteCursor::new(&bytes);
    assert_eq!(
        read_bit_vector(&mut cursor, 9),
        Ok(vec![false, false, false, false, false, false, false, true, true])
    );
    assert_eq!(cursor.position(), 2);
}

#[test]
fn bit_vector_round_trip_of_every_pattern_up_to_nine() {
    for n in [0usize, 1, 7, 8, 9] {
        for code in 0..(1u64 << n) {
            check_round_trip(&pattern(n, code));
        }
    }
}

#[test]
fn bit_vector_round_trip_of_64_entries() {
    check_round_trip(&pattern(64, 0));
    check_round_trip(&pattern(64, u64::MAX));
    check_round_trip(&pattern(64, 0xAAAA_AAAA_AAAA_AAAA));
    check_round_trip(&pattern(64, 0x5555_5555_5555_5555));
    for i in 0..64 {
        check_round_trip(&pattern(64, 1 << i));
        check_round_trip(&pattern(64, !(1u64 << i)));
    }
    let mut state: u64 = 0x1234_5678_9ABC_DEF0;
    for _ in 0..500 {
        state = state.wrapping_mul(6364136223846793005).wrapping_add(1442695040888963407);
        check_round_trip(&pattern(64, state));
    }
}

#[test]
fn bit_vector_takes_the_bytes_it_needs() {
    for (n, bytes) in [(0u64, 0usize), (1, 1), (7, 1), (8, 1), (9, 2), (64, 8), (65, 9)] {
        let data = [0u8; 16];
        let mut cursor = ByteCursor::new(&data);
        assert_eq!(read_bit_vector(&mut cursor, n).map(|bits| bits.len() as u64), Ok(n));
        assert_eq!(cursor.position(), bytes);
    }
}

#[test]
fn bit_vector_cut_short_is_an_io_error() {
    let data = [0xFF];
    let mut cursor = ByteCursor::new(&data);
    assert_eq!(read_bit_vector(&mut cursor, 9), Err(ReadError::Io));
    let mut cursor = ByteCursor::new(&data);
    assert_eq!(read_bit_vector(&mut cursor, u64::MAX), Err(ReadError::Io));
}

#[test]
fn defined_vector_with_a_tag_reads_no_further() {
    for n in [0u64, 1, 7, 8, 9, 64] {
        for tag in [0x01u8, 0x02, 0x80, 0xFF] {
            let data = [tag];
            let mut cursor = ByteCursor::new(&data);
            assert_eq!(read_defined_vector(&mut cursor, n), Ok(vec![true; n as usize]));
            assert_eq!(cursor.position(), 1);
        }
    }
}

#[test]
fn defined_vector_with_a_tag_ignores_what_follows() {
    let data = [0x01, 0x00, 0x00];
    let mut cursor = ByteCursor::new(&data);
    assert_eq!(read_defined_vector(&mut cursor, 9), Ok(vec![true; 9]));
    assert_eq!(cursor.position(), 1);
}

#[test]
fn defined_vector_with_tag_zero_reads_the_packed_form() {
    let data = [0x00, 0x40, 0xFF];
    let mut cursor = ByteCursor::new(&data);
    assert_eq!(read_defined_vector(&mut cursor, 3), Ok(vec![false, true, false]));
    assert_eq!(cursor.position(), 2);
}

#[test]
fn defined_vector_round_trip_behind_tag_zero() {
    for n in [0usize, 1, 7, 8, 9] {
        for code in 0..(1u64 << n) {
            let bits = pattern(n, code);
            let mut data = vec![0x00];
            data.extend_from_slice(&pack(&bits));
            let mut cursor = ByteCursor::new(&data);
            assert_eq!(read_defined_vector(&mut cursor, n as u64), Ok(bits));
            assert_eq!(cursor.position(), data.len());
        }
    }
}

#[test]
fn defined_vector_without_a_tag_is_an_io_error() {
    let mut cursor = ByteCursor::new(&[]);
    assert_eq!(read_defined_vector(&mut cursor, 3), Err(ReadError::Io));
    let data = [0x00];
    let mut cursor = ByteCursor::new(&data);
    assert_eq!(read_defined_vector(&mut cursor, 3), Err(ReadError::Io));
}

#[test]
fn defined_vector_that_fails_leaves_the_cursor() {
    let data = [0xAA, 0x00, 0xFF];
    let mut cursor = ByteCursor::new(&data);
    cursor.read_u8().unwrap();
    assert_eq!(read_defined_vector(&mut cursor, 9), Err(ReadError::Io));
    assert_eq!(cursor.position(), 1);
    assert_eq!(read_bit_vector(&mut cursor, 17), Err(ReadError::Io));
    assert_eq!(cursor.position(), 1);
}
