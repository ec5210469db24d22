use sevenz_reader::error::ReadError;
use sevenz_reader::folder::{BindPair, CoderIdInfo, CoderInfo, FolderInfo};
use sevenz_reader::stream::ByteCursor;
use sevenz_reader::types::Codec;

fn le(value: u64) -> [u8; 8] {
    value.to_le_bytes()
}

fn read_coder(bytes: &[u8]) -> Result<(CoderInfo, usize), ReadError> {
    let mut cursor = ByteCursor::new(bytes);
    let coder = CoderInfo::try_read(&mut cursor)?;
    Ok((coder, cursor.position()))
}

fn read_folder(bytes: &[u8]) -> Result<(FolderInfo, usize), ReadError> {
    let mut cursor = ByteCursor::new(bytes);
    let folder = FolderInfo::try_read(&mut cursor)?;
    Ok((folder, cursor.position()))
}

fn simple_coder(id: u8) -> Vec<u8> {
    vec![0x01, id]
}

fn complex_coder(id: u8, num_in: u64, num_out: u64) -> Vec<u8> {
    let mut bytes = vec![0x11, id];
    bytes.extend_from_slice(&le(num_in));
    bytes.extend_from_slice(&le(num_out));
    bytes
}

fn folder(coders: &[Vec<u8>], pairs: &[(u64, u64)]) -> Vec<u8> {
    let mut bytes = le(coders.len() as u64).to_vec();
    for coder in coders {
        bytes.extend_from_slice(coder);
    }
    for (in_index, out_index) in pairs {
        bytes.extend_from_slice(&le(*in_index));
        bytes.extend_from_slice(&le(*out_index));
    }
    bytes
}

#[test]
fn coder_id_info_fields() {
    let info = CoderIdInfo(0b0011_0101);
    assert_eq!(info.id_size(), 5);
    assert!(info.complex());
    assert!(info.exist_attrs());
    assert!(!info.reserved());
    assert!(!info.more_alt());
    let info = CoderIdInfo(0b1100_1010);
    assert_eq!(info.id_size(), 10);
    assert!(!info.complex());
    assert!(!info.exist_attrs());
    assert!(info.reserved());
    assert!(info.more_alt());
}

#[test]
fn coder_id_info_of_every_byte() {
    for byte in 0..=255u8 {
        let info = CoderIdInfo(byte);
        assert_eq!(info.id_size(), byte & 0x0F);
        assert_eq!(info.complex(), byte & 0x10 != 0);
        assert_eq!(info.exist_attrs(), byte & 0x20 != 0);
        assert_eq!(info.reserved(), byte & 0x40 != 0);
        assert_eq!(info.more_alt(), byte & 0x80 != 0);
    }
}

#[test]
fn coder_simple() {
    let (coder, consumed) = read_coder(&[0x01, 0x21, 0xAA]).unwrap();
    assert_eq!(
        coder,
        CoderInfo {
            id_info: CoderIdInfo(0x01),
            codec_id: Codec::LZMA2,
            num_in_streams: 1,
            num_out_streams: 1,
            properties: vec![],
        }
    );
    assert_eq!(consumed, 2);
}

#[test]
fn coder_identifier_is_little_endian() {
    let (coder, consumed) = read_coder(&[0x03, 0x01, 0x01, 0x03]).unwrap();
    assert_eq!(coder.codec_id, Codec::LZMA);
    assert_eq!(consumed, 4);
    let (coder, _) = read_coder(&[0x04, 0x1B, 0x01, 0x03, 0x03]).unwrap();
    assert_eq!(coder.codec_id, Codec::P7zBcj2);
    let (coder, consumed) = read_coder(&[0x08, 1, 2, 3, 4, 5, 6, 7, 8]).unwrap();
    assert_eq!(coder.codec_id, Codec::Unrecognized(0x0807_0605_0403_0201));
    assert_eq!(consumed, 9);
}

#[test]
fn coder_with_properties() {
    let mut bytes = vec![0x23, 0x01, 0x01, 0x03];
    bytes.extend_from_slice(&le(5));
    bytes.extend_from_slice(&[0x5D, 0x00, 0x00, 0x10, 0x00, 0xAA]);
    let (coder, consumed) = read_coder(&bytes).unwrap();
    assert_eq!(
        coder,
        CoderInfo {
            id_info: CoderIdInfo(0x23),
            codec_id: Codec::LZMA,
            num_in_streams: 1,
            num_out_streams: 1,
            properties: vec![0x5D, 0x00, 0x00, 0x10, 0x00],
        }
    );
    assert_eq!(consumed, bytes.len() - 1);
}

#[test]
fn coder_complex_with_properties() {
    let mut bytes = vec![0x34, 0x1B, 0x01, 0x03, 0x03];
    bytes.extend_from_slice(&le(4));
    bytes.extend_from_slice(&le(1));
    bytes.extend_from_slice(&le(0));
    let (coder, consumed) = read_coder(&bytes).unwrap();
    assert_eq!(
        coder,
        CoderInfo {
            id_info: CoderIdInfo(0x34),
            codec_id: Codec::P7zBcj2,
            num_in_streams: 4,
            num_out_streams: 1,
            properties: vec![],
        }
    );
    assert_eq!(consumed, bytes.len());
}

#[test]
fn coder_reserved_bit_is_ignored() {
    let (coder, _) = read_coder(&[0x41, 0x00]).unwrap();
    assert_eq!(coder.codec_id, Codec::Copy);
    assert_eq!(coder.id_info, CoderIdInfo(0x41));
}

#[test]
fn coder_top_bit_must_be_zero() {
    assert_eq!(read_coder(&[0x81, 0x21]), Err(ReadError::Invalid7z));
    assert_eq!(read_coder(&[0x80]), Err(ReadError::Invalid7z));
}

#[test]
fn coder_identifier_width_is_one_to_eight() {
    assert_eq!(read_coder(&[0x00, 0x21]), Err(ReadError::Invalid7z));
    for width in 9..16u8 {
        let mut bytes = vec![width];
        bytes.extend_from_slice(&[0u8; 16]);
        assert_eq!(read_coder(&bytes), Err(ReadError::Invalid7z));
    }
    for width in 1..9u8 {
        let mut bytes = vec![width];
        bytes.extend_from_slice(&[0u8; 16]);
        assert_eq!(read_coder(&bytes).map(|(_, consumed)| consumed), Ok(1 + width as usize));
    }
}

#[test]
fn coder_stream_counts_must_not_be_zero() {
    assert_eq!(read_coder(&complex_coder(0x21, 0, 1)), Err(ReadError::Invalid7z));
    assert_eq!(read_coder(&complex_coder(0x21, 1, 0)), Err(ReadError::Invalid7z));
    assert!(read_coder(&complex_coder(0x21, 1, 1)).is_ok());
}

#[test]
fn coder_cut_short_is_an_io_error() {
    let mut bytes = vec![0x33, 0x01, 0x01, 0x03];
    bytes.extend_from_slice(&le(2));
    bytes.extend_from_slice(&le(2));
    bytes.extend_from_slice(&le(3));
    bytes.extend_from_slice(&[1, 2, 3]);
    for len in 0..bytes.len() {
        assert_eq!(read_coder(&bytes[..len]), Err(ReadError::Io), "length {len}");
    }
    assert!(read_coder(&bytes).is_ok());
}

#[test]
fn coder_properties_longer_than_the_bytes_are_an_io_error() {
    let mut bytes = vec![0x21, 0x21];
    bytes.extend_from_slice(&le(u64::MAX));
    bytes.extend_from_slice(&[0u8; 32]);
    assert_eq!(read_coder(&bytes), Err(ReadError::Io));
}

#[test]
fn folder_of_one_simple_coder() {
    let bytes = folder(&[simple_coder(0x21)], &[]);
    let (folder, consumed) = read_folder(&bytes).unwrap();
    assert_eq!(folder.coders.len(), 1);
    assert_eq!(folder.coders[0].codec_id, Codec::LZMA2);
    assert_eq!(folder.bind_pairs, vec![]);
    assert_eq!(folder.packed_stream_indices, vec![0]);
    assert_eq!(consumed, bytes.len());
}

#[test]
fn folder_with_stream_totals_of_four() {
    let coders = [simple_coder(0x21), simple_coder(0x04), complex_coder(0x03, 2, 2)];
    let bytes = folder(&coders, &[(1, 0), (2, 1), (3, 2)]);
    let (folder, consumed) = read_folder(&bytes).unwrap();
    assert_eq!(folder.coders.len(), 3);
    assert_eq!(folder.coders[0].num_out_streams, 1);
    assert_eq!(folder.coders[1].num_out_streams, 1);
    assert_eq!(folder.coders[2].num_out_streams, 2);
    assert_eq!(folder.coders[0].num_in_streams, 1);
    assert_eq!(folder.coders[1].num_in_streams, 1);
    assert_eq!(folder.coders[2].num_in_streams, 2);
    assert_eq!(folder.bind_pairs.len(), 3);
    assert_eq!(
        folder.bind_pairs,
        vec![
            BindPair { in_index: 1, out_index: 0 },
            BindPair { in_index: 2, out_index: 1 },
            BindPair { in_index: 3, out_index: 2 },
        ]
    );
    assert_eq!(folder.packed_stream_indices.len(), 1);
    assert_eq!(folder.packed_stream_indices, vec![0]);
    assert_eq!(consumed, bytes.len());
}

#[test]
fn folder_packed_inputs_are_the_unfed_slots_in_order() {
    let coders = [complex_coder(0x21, 5, 3)];
    let bytes = folder(&coders, &[(3, 0), (1, 2)]);
    let (folder, _) = read_folder(&bytes).unwrap();
    assert_eq!(folder.bind_pairs.len(), 2);
    assert_eq!(folder.packed_stream_indices, vec![0, 2, 4]);
}

#[test]
fn folder_leaves_the_rest_unread() {
    let mut bytes = folder(&[simple_coder(0x21), simple_coder(0x00)], &[(1, 0)]);
    let len = bytes.len();
    bytes.extend_from_slice(&[0xAA, 0xBB]);
    let (folder, consumed) = read_folder(&bytes).unwrap();
    assert_eq!(folder.packed_stream_indices, vec![0]);
    assert_eq!(consumed, len);
}

#[test]
fn folder_without_coders_is_invalid() {
    assert_eq!(read_folder(&folder(&[], &[])), Err(ReadError::Invalid7z));
}

#[test]
fn folder_with_more_edges_than_inputs_is_invalid() {
    let coders = [complex_coder(0x21, 1, 3)];
    let bytes = folder(&coders, &[(0, 0), (0, 1)]);
    assert_eq!(read_folder(&bytes), Err(ReadError::Invalid7z));
}

#[test]
fn folder_with_two_edges_into_one_input_is_invalid() {
    let coders = [complex_coder(0x21, 3, 3)];
    let bytes = folder(&coders, &[(1, 0), (1, 1)]);
    assert_eq!(read_folder(&bytes), Err(ReadError::Invalid7z));
}

#[test]
fn folder_with_an_edge_into_no_input_is_invalid() {
    let coders = [simple_coder(0x21), simple_coder(0x00)];
    let bytes = folder(&coders, &[(2, 0)]);
    assert_eq!(read_folder(&bytes), Err(ReadError::Invalid7z));
}

#[test]
fn folder_with_stream_totals_past_u64_is_invalid() {
    let coders = [complex_coder(0x21, u64::MAX, 1), complex_coder(0x21, 1, 1)];
    assert_eq!(read_folder(&folder(&coders, &[(0, 0)])), Err(ReadError::Invalid7z));
    let coders = [complex_coder(0x21, 1, u64::MAX), complex_coder(0x21, 1, 1)];
    assert_eq!(read_folder(&folder(&coders, &[(0, 0)])), Err(ReadError::Invalid7z));
}

#[test]
fn folder_with_a_bad_coder_fails_as_the_coder_does() {
    let coders = [simple_coder(0x21), vec![0x81, 0x00]];
    assert_eq!(read_folder(&folder(&coders, &[(1, 0)])), Err(ReadError::Invalid7z));
}

#[test]
fn folder_cut_short_is_an_io_error() {
    let coders = [simple_coder(0x21), simple_coder(0x04), complex_coder(0x03, 2, 2)];
    let bytes = folder(&coders, &[(1, 0), (2, 1), (3, 2)]);
    for len in 0..bytes.len() {
        assert_eq!(read_folder(&bytes[..len]), Err(ReadError::Io), "length {len}");
    }
}

#[test]
fn folder_with_more_coders_than_bytes_is_an_io_error() {
    let mut bytes = le(u64::MAX).to_vec();
    bytes.extend_from_slice(&simple_coder(0x21));
    assert_eq!(read_folder(&bytes), Err(ReadError::Io));
}

#[test]
fn folder_that_fails_leaves_the_cursor() {
    let mut bytes = vec![0xAA];
    bytes.extend_from_slice(&folder(&[simple_coder(0x21), simple_coder(0x00)], &[(2, 0)]));
    let mut cursor = ByteCursor::new(&bytes);
    cursor.read_u8().unwrap();
    assert_eq!(FolderInfo::try_read(&mut cursor), Err(ReadError::Invalid7z));
    assert_eq!(cursor.position(), 1);
    let mut cursor = ByteCursor::new(&bytes[..bytes.len() - 1]);
    cursor.read_u8().unwrap();
    assert_eq!(FolderInfo::try_read(&mut cursor), Err(ReadError::Io));
    assert_eq!(cursor.position(), 1);
    let bytes = [0xAA, 0x21, 0x21, 0x05, 0, 0, 0, 0, 0, 0, 0, 1, 2];
    let mut cursor = ByteCursor::new(&bytes);
    cursor.read_u8().unwrap();
    assert_eq!(CoderInfo::try_read(&mut cursor), Err(ReadError::Io));
    assert_eq!(cursor.position(), 1);
}

#[test]
fn folder_that_wants_more_packed_streams_than_bytes_is_invalid() {
    let bytes = folder(&[complex_coder(0x21, 1 << 40, 1)], &[]);
    assert_eq!(read_folder(&bytes), Err(ReadError::Invalid7z));
    let bytes = folder(&[complex_coder(0x21, u64::MAX, 1)], &[]);
    assert_eq!(read_folder(&bytes), Err(ReadError::Invalid7z));
    let bytes = folder(&[complex_coder(0x21, 27, 1)], &[]);
    assert_eq!(bytes.len(), 26);
    assert_eq!(read_folder(&bytes), Err(ReadError::Invalid7z));
    let bytes = folder(&[complex_coder(0x21, 26, 1)], &[]);
    let (folder, _) = read_folder(&bytes).unwrap();
    assert_eq!(folder.packed_stream_indices, (0..26).collect::<Vec<u64>>());
}
