use sevenz_reader::error::ReadError;
use sevenz_reader::stream::ByteCursor;
use sevenz_reader::types::read_7z_varint;

fn decode(bytes: &[u8]) -> Result<(u64, usize), ReadError> {
    let mut cursor = ByteCursor::new(bytes);
    let value = read_7z_varint(&mut cursor)?;
    Ok((value, cursor.position()))
}

/// Writes `value` in the shortest form: the unary prefix and the high bits in
/// the first byte, then the low bytes, least significant first.
fn encode(value: u64) -> Vec<u8> {
    let mut extra = 0usize;
    while extra < 8 && (value >> (7 * extra + 7).min(63)) != 0 {
        extra += 1;
    }
    if extra == 8 || (extra == 7 && value >> 56 != 0) {
        let mut out = vec![0xFF];
        out.extend_from_slice(&value.to_le_bytes());
        return out;
    }
    let prefix: [u8; 8] = [0x00, 0x80, 0xC0, 0xE0, 0xF0, 0xF8, 0xFC, 0xFE];
    let high = if extra == 7 { 0 } else { (value >> (8 * extra)) as u8 };
    let mut out = vec![prefix[extra] | high];
    out.extend_from_slice(&value.to_le_bytes()[..extra]);
    out
}

#[test]
fn varint_zero() {
    assert_eq!(decode(&[0x00]), Ok((0, 1)));
}

#[test]
fn varint_127_is_one_byte() {
    assert_eq!(encode(127), vec![0x7F]);
    assert_eq!(decode(&[0x7F]), Ok((127, 1)));
}

#[test]
fn varint_128_takes_two_bytes() {
    assert_eq!(encode(128), vec![0x80, 0x80]);
    assert_eq!(decode(&[0x80, 0x80]), Ok((128, 2)));
}

#[test]
fn varint_two_pow_56_minus_one() {
    let bytes = [0xFE, 0xFF, 0xFF, 0xFF, 0xFF, 0xFF, 0xFF, 0xFF];
    assert_eq!(encode((1u64 << 56) - 1), bytes.to_vec());
    assert_eq!(decode(&bytes), Ok(((1u64 << 56) - 1, 8)));
}

#[test]
fn varint_u64_max() {
    let bytes = [0xFF, 0xFF, 0xFF, 0xFF, 0xFF, 0xFF, 0xFF, 0xFF, 0xFF];
    assert_eq!(encode(u64::MAX), bytes.to_vec());
    assert_eq!(decode(&bytes), Ok((u64::MAX, 9)));
}

#[test]
fn varint_first_byte_fe_reads_seven_bytes() {
    let bytes = [0xFE, 0x07, 0x06, 0x05, 0x04, 0x03, 0x02, 0x01, 0xAA];
    assert_eq!(decode(&bytes), Ok((0x01_02_03_04_05_06_07, 8)));
}

#[test]
fn varint_first_byte_ff_reads_eight_bytes() {
    let bytes = [0xFF, 0x08, 0x07, 0x06, 0x05, 0x04, 0x03, 0x02, 0x01, 0xAA];
    assert_eq!(decode(&bytes), Ok((0x01_02_03_04_05_06_07_08, 9)));
}

#[test]
fn varint_high_bits_come_from_the_first_byte() {
    assert_eq!(decode(&[0x81, 0x02]), Ok((0x0102, 2)));
    assert_eq!(decode(&[0xBF, 0xFF]), Ok((0x3FFF, 2)));
    assert_eq!(decode(&[0xC1, 0x02, 0x03]), Ok((0x01_0302, 3)));
    assert_eq!(decode(&[0xE1, 0x02, 0x03, 0x04]), Ok((0x01_04_0302, 4)));
    assert_eq!(decode(&[0xF1, 0x02, 0x03, 0x04, 0x05]), Ok((0x01_0504_0302, 5)));
    assert_eq!(decode(&[0xF9, 0x02, 0x03, 0x04, 0x05, 0x06]), Ok((0x01_06_0504_0302, 6)));
    assert_eq!(
        decode(&[0xFD, 0x02, 0x03, 0x04, 0x05, 0x06, 0x07]),
        Ok((0x01_0706_0504_0302, 7))
    );
}

#[test]
fn varint_longer_than_needed_still_decodes() {
    assert_eq!(decode(&[0x80, 0x05]), Ok((5, 2)));
    assert_eq!(decode(&[0xC0, 0x05, 0x00]), Ok((5, 3)));
}

#[test]
fn varint_leaves_the_rest_unread() {
    let bytes = [0x05, 0x06, 0x07];
    let mut cursor = ByteCursor::new(&bytes);
    assert_eq!(read_7z_varint(&mut cursor), Ok(5));
    assert_eq!(cursor.position(), 1);
    assert_eq!(read_7z_varint(&mut cursor), Ok(6));
    assert_eq!(read_7z_varint(&mut cursor), Ok(7));
    assert_eq!(read_7z_varint(&mut cursor), Err(ReadError::Io));
}

#[test]
fn varint_of_nothing_is_an_io_error() {
    assert_eq!(decode(&[]), Err(ReadError::Io));
}

#[test]
fn varint_cut_short_is_an_io_error() {
    assert_eq!(decode(&[0x80]), Err(ReadError::Io));
    assert_eq!(decode(&[0xC0, 0x01]), Err(ReadError::Io));
    assert_eq!(decode(&[0xFE, 1, 2, 3, 4, 5, 6]), Err(ReadError::Io));
    assert_eq!(decode(&[0xFF, 1, 2, 3, 4, 5, 6, 7]), Err(ReadError::Io));
}

#[test]
fn varint_round_trip_at_every_length() {
    let mut values: Vec<u64> = vec![0, 1, 127, 128, 255, 256, u64::MAX, u64::MAX - 1];
    for shift in 1..64 {
        let power = 1u64 << shift;
        values.push(power - 1);
        values.push(power);
        values.push(power + 1);
    }
    let mut state: u64 = 0x9E37_79B9_7F4A_7C15;
    for _ in 0..2000 {
        state = state.wrapping_mul(6364136223846793005).wrapping_add(1442695040888963407);
        values.push(state >> (state % 64));
    }
    for value in values {
        let bytes = encode(value);
        assert_eq!(decode(&bytes), Ok((value, bytes.len())), "value {value:#x}");
    }
}

#[test]
fn varint_encoding_lengths_grow_by_seven_bits() {
    assert_eq!(encode((1 << 7) - 1).len(), 1);
    assert_eq!(encode(1 << 7).len(), 2);
    assert_eq!(encode((1 << 14) - 1).len(), 2);
    assert_eq!(encode(1 << 14).len(), 3);
    assert_eq!(encode((1 << 49) - 1).len(), 7);
    assert_eq!(encode(1 << 49).len(), 8);
    assert_eq!(encode((1 << 56) - 1).len(), 8);
    assert_eq!(encode(1 << 56).len(), 9);
}

#[test]
fn varint_that_fails_leaves_the_cursor() {
    let bytes = [0x01, 0xC0, 0x02];
    let mut cursor = ByteCursor::new(&bytes);
    assert_eq!(read_7z_varint(&mut cursor), Ok(1));
    assert_eq!(read_7z_varint(&mut cursor), Err(ReadError::Io));
    assert_eq!(cursor.position(), 1);
    assert_eq!(cursor.read_u8(), Ok(0xC0));
}
