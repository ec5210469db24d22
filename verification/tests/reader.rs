use crc::{Crc, CRC_32_ISO_HDLC};
use sevenz_reader::error::ReadError;
use sevenz_reader::header::{EncodedHeader, MainHeader, StreamsInfo};
use sevenz_reader::pack::PackInfo;
use sevenz_reader::reader::{Header, HeaderLocation, Reader, SIGNATURE_HEADER_SIZE};
use sevenz_reader::stream::ByteCursor;

const MAGIC_AND_VERSION: [u8; 8] = [b'7', b'z', 0xBC, 0xAF, 0x27, 0x1C, 0x00, 0x04];

/// An archive without a header block, byte for byte.
const EMPTY_ARCHIVE: [u8; 32] = [
    0x37, 0x7A, 0xBC, 0xAF, 0x27, 0x1C, 0x00, 0x04, // magic and version
    0x8D, 0x9B, 0xD5, 0x0F, // checksum of the locator
    0x00, 0x00, 0x00, 0x00, 0x00, 0x00, 0x00, 0x00, // offset of the header block
    0x00, 0x00, 0x00, 0x00, 0x00, 0x00, 0x00, 0x00, // its size
    0x00, 0x00, 0x00, 0x00, // its checksum
];

/// An archive whose header block is an archive header without blocks.
const BARE_ARCHIVE: [u8; 34] = [
    0x37, 0x7A, 0xBC, 0xAF, 0x27, 0x1C, 0x00, 0x04, // magic and version
    0x08, 0xA8, 0x34, 0xB8, // checksum of the locator
    0x00, 0x00, 0x00, 0x00, 0x00, 0x00, 0x00, 0x00, // offset of the header block
    0x02, 0x00, 0x00, 0x00, 0x00, 0x00, 0x00, 0x00, // its size
    0xBE, 0x23, 0xC2, 0x58, // its checksum
    0x01, 0x00, // the header block
];

fn crc32(bytes: &[u8]) -> u32 {
    Crc::<u32>::new(&CRC_32_ISO_HDLC).checksum(bytes)
}

fn locator(offset: u64, size: u64, crc: u32) -> Vec<u8> {
    let mut bytes = offset.to_le_bytes().to_vec();
    bytes.extend_from_slice(&size.to_le_bytes());
    bytes.extend_from_slice(&crc.to_le_bytes());
    bytes
}

fn signature_header(offset: u64, size: u64, crc: u32) -> Vec<u8> {
    let locator = locator(offset, size, crc);
    let mut bytes = MAGIC_AND_VERSION.to_vec();
    bytes.extend_from_slice(&crc32(&locator).to_le_bytes());
    bytes.extend_from_slice(&locator);
    bytes
}

/// An archive with `gap` bytes of packed streams before the header block.
fn archive(gap: usize, block: &[u8]) -> Vec<u8> {
    let mut bytes = signature_header(gap as u64, block.len() as u64, crc32(block));
    bytes.extend(std::iter::repeat(0xEE).take(gap));
    bytes.extend_from_slice(block);
    bytes
}

fn empty_main_header() -> MainHeader {
    MainHeader { additional_streams_info: None, main_streams_info: None, files: None }
}

#[test]
fn signature_header_is_32_bytes() {
    assert_eq!(SIGNATURE_HEADER_SIZE, 32);
    assert_eq!(signature_header(0, 0, 0).len(), 32);
}

#[test]
fn fixtures_are_what_the_helpers_build() {
    assert_eq!(archive(0, &[]), EMPTY_ARCHIVE.to_vec());
    assert_eq!(archive(0, &[0x01, 0x00]), BARE_ARCHIVE.to_vec());
}

#[test]
fn open_an_archive_without_a_header_block() {
    let reader = Reader::new(&EMPTY_ARCHIVE).unwrap();
    assert_eq!(reader.location(), HeaderLocation { offset: 32, size: 0, crc: 0 });
    assert_eq!(reader.header(), &Header::Main(empty_main_header()));
    match reader.header() {
        Header::Main(header) => {
            assert!(header.main_streams_info.is_none());
            assert!(header.files.is_none());
        }
        Header::Encoded(_) => panic!("an empty archive has no encoded header"),
    }
}

#[test]
fn open_an_archive_without_a_header_block_wherever_it_points() {
    let bytes = signature_header(1000, 0, 0);
    let reader = Reader::new(&bytes).unwrap();
    assert_eq!(reader.location(), HeaderLocation { offset: 1032, size: 0, crc: 0 });
    assert_eq!(reader.header(), &Header::Main(empty_main_header()));
}

#[test]
fn open_an_archive_without_a_header_block_checks_its_checksum() {
    let bytes = signature_header(0, 0, 1);
    assert_eq!(Reader::new(&bytes), Err(ReadError::CrcInvalid));
}

#[test]
fn open_an_archive_with_a_bare_header() {
    let reader = Reader::new(&BARE_ARCHIVE).unwrap();
    assert_eq!(reader.location(), HeaderLocation { offset: 32, size: 2, crc: 0x58C2_23BE });
    assert_eq!(reader.header(), &Header::Main(empty_main_header()));
}

#[test]
fn open_an_archive_with_streams_before_the_header_block() {
    let block = [
        0x01, 0x04, 0x06, 0x00, 0x01, 0x09, 0x05, 0x0A, 0x01, 0x44, 0x33, 0x22, 0x11, 0x00, 0x00,
        0x00,
    ];
    let bytes = archive(5, &block);
    let reader = Reader::new(&bytes).unwrap();
    assert_eq!(reader.location().offset, 37);
    assert_eq!(reader.location().size, 16);
    assert_eq!(reader.location().crc, crc32(&block));
    let expected = MainHeader {
        additional_streams_info: None,
        main_streams_info: Some(StreamsInfo {
            pack: Some(PackInfo {
                pack_position: 0,
                count_streams: 1,
                stream_sizes: Some(vec![5]),
                stream_crcs: Some(vec![Some(0x1122_3344)]),
            }),
            unpack: None,
            substream: None,
        }),
        files: None,
    };
    assert_eq!(reader.header(), &Header::Main(expected));
}

#[test]
fn open_ignores_what_follows_the_header_in_its_block() {
    let bytes = archive(0, &[0x01, 0x00, 0xAB, 0xCD]);
    let reader = Reader::new(&bytes).unwrap();
    assert_eq!(reader.header(), &Header::Main(empty_main_header()));
}

#[test]
fn open_refuses_a_locator_with_one_byte_changed() {
    for index in 12..32 {
        let mut bytes = EMPTY_ARCHIVE;
        bytes[index] ^= 0x01;
        assert_eq!(Reader::new(&bytes), Err(ReadError::CrcInvalid), "byte {index}");
        let mut bytes = BARE_ARCHIVE;
        bytes[index] = !bytes[index];
        assert_eq!(Reader::new(&bytes), Err(ReadError::CrcInvalid), "byte {index}");
    }
}

#[test]
fn open_refuses_a_locator_with_one_bit_flipped() {
    for index in 12..32 {
        for bit in 0..8 {
            let mut bytes = BARE_ARCHIVE;
            bytes[index] ^= 1 << bit;
            assert_eq!(Reader::new(&bytes), Err(ReadError::CrcInvalid));
        }
    }
}

#[test]
fn open_refuses_a_changed_locator_checksum() {
    for index in 8..12 {
        let mut bytes = EMPTY_ARCHIVE;
        bytes[index] ^= 0x80;
        assert_eq!(Reader::new(&bytes), Err(ReadError::CrcInvalid));
    }
}

#[test]
fn open_refuses_a_header_block_with_one_bit_flipped() {
    let block = [
        0x01, 0x04, 0x06, 0x00, 0x01, 0x09, 0x05, 0x0A, 0x01, 0x44, 0x33, 0x22, 0x11, 0x00, 0x00,
        0x00,
    ];
    let good = archive(3, &block);
    assert!(Reader::new(&good).is_ok());
    for index in 35..good.len() {
        for bit in 0..8 {
            let mut bad = good.clone();
            bad[index] ^= 1 << bit;
            assert_eq!(Reader::new(&bad), Err(ReadError::CrcInvalid), "byte {index} bit {bit}");
        }
    }
}

#[test]
fn open_does_not_look_at_bytes_outside_the_header_block() {
    let good = archive(3, &[0x01, 0x00]);
    for index in 32..35 {
        let mut other = good.clone();
        other[index] ^= 0xFF;
        assert_eq!(Reader::new(&other), Reader::new(&good));
    }
}

#[test]
fn open_reports_archive_properties_as_unsupported() {
    let bytes = archive(0, &[0x01, 0x02]);
    match Reader::new(&bytes) {
        Err(ReadError::UnsupportedFeature { feat, reason }) => {
            assert_eq!(feat, "ArchiveProperties in Header");
            assert_eq!(
                reason,
                "I cannot find any actual information on what data this contains or how to implement it."
            );
        }
        other => panic!("unexpected result {other:?}"),
    }
}

#[test]
fn open_refuses_another_magic() {
    for index in 0..6 {
        let mut bytes = EMPTY_ARCHIVE;
        bytes[index] ^= 0x01;
        assert_eq!(Reader::new(&bytes), Err(ReadError::Invalid7z), "byte {index}");
    }
    assert_eq!(Reader::new(&[b'P', b'K', 3, 4, 0, 0, 0, 0]), Err(ReadError::Invalid7z));
}

#[test]
fn open_refuses_another_version() {
    for index in 6..8 {
        let mut bytes = EMPTY_ARCHIVE;
        bytes[index] ^= 0x01;
        assert_eq!(Reader::new(&bytes), Err(ReadError::Invalid7z), "byte {index}");
    }
}

#[test]
fn open_a_short_stream_is_an_io_error() {
    for len in 0..32 {
        assert_eq!(Reader::new(&BARE_ARCHIVE[..len]), Err(ReadError::Io), "length {len}");
    }
    assert_eq!(Reader::new(&BARE_ARCHIVE[..33]), Err(ReadError::Io));
}

#[test]
fn open_a_header_block_past_the_end_is_an_io_error() {
    let mut bytes = signature_header(1, 2, crc32(&[0x01, 0x00]));
    bytes.extend_from_slice(&[0x01, 0x00]);
    assert_eq!(Reader::new(&bytes), Err(ReadError::Io));
    let bytes = signature_header(0, u64::MAX, 0);
    assert_eq!(Reader::new(&bytes), Err(ReadError::Io));
    let bytes = signature_header(u64::MAX - 32, 1, 0);
    assert_eq!(Reader::new(&bytes), Err(ReadError::Io));
}

#[test]
fn open_an_offset_that_does_not_fit_is_invalid() {
    let bytes = signature_header(u64::MAX - 31, 0, 0);
    assert_eq!(Reader::new(&bytes), Err(ReadError::Invalid7z));
    let bytes = signature_header(u64::MAX, 2, 0);
    assert_eq!(Reader::new(&bytes), Err(ReadError::Invalid7z));
    let bytes = signature_header(u64::MAX - 32, 0, 0);
    assert_eq!(
        Reader::new(&bytes).map(|reader| reader.location().offset),
        Ok(u64::MAX)
    );
}

#[test]
fn open_refuses_a_header_block_with_an_unknown_tag() {
    for tag in [0x00u8, 0x02, 0x04, 0x06, 0x16, 0x18, 0xFF] {
        let bytes = archive(0, &[tag, 0x00]);
        assert_eq!(Reader::new(&bytes), Err(ReadError::Invalid7z), "tag {tag:#x}");
    }
}

#[test]
fn open_hands_on_the_error_of_the_header() {
    assert_eq!(Reader::new(&archive(0, &[0x01])), Err(ReadError::Io));
    assert_eq!(Reader::new(&archive(0, &[0x01, 0x09])), Err(ReadError::Invalid7z));
    assert!(matches!(
        Reader::new(&archive(0, &[0x01, 0x05, 0x00])),
        Err(ReadError::UnsupportedFeature { .. })
    ));
}

#[test]
fn open_an_archive_with_an_encoded_header() {
    let block = [0x17, 0x06, 0x00, 0x01, 0x09, 0x2A, 0x0A, 0x00, 0x00, 0x00, 0x00];
    let bytes = archive(42, &block);
    let reader = Reader::new(&bytes).unwrap();
    let expected = EncodedHeader {
        pack: Some(PackInfo {
            pack_position: 0,
            count_streams: 1,
            stream_sizes: Some(vec![42]),
            stream_crcs: Some(vec![None]),
        }),
        unpack: None,
        substream: None,
    };
    assert_eq!(reader.header(), &Header::Encoded(expected));
}

#[test]
fn decoded_bytes_replace_an_encoded_header() {
    let bytes = archive(0, &[0x17, 0x00]);
    let reader = Reader::new(&bytes).unwrap();
    let location = reader.location();
    let reader = reader.decoded(&[0x01, 0x04, 0x00, 0x00]).unwrap();
    assert_eq!(reader.location(), location);
    assert_eq!(
        reader.header(),
        &Header::Main(MainHeader {
            additional_streams_info: None,
            main_streams_info: Some(StreamsInfo { pack: None, unpack: None, substream: None }),
            files: None,
        })
    );
}

#[test]
fn decoded_bytes_must_not_hold_an_encoded_header() {
    let bytes = archive(0, &[0x17, 0x00]);
    let reader = Reader::new(&bytes).unwrap();
    assert_eq!(reader.decoded(&[0x17, 0x00]), Err(ReadError::Invalid7z));
}

#[test]
fn decoded_bytes_fail_as_their_header_does() {
    let bytes = archive(0, &[0x17, 0x00]);
    assert_eq!(Reader::new(&bytes).unwrap().decoded(&[]), Err(ReadError::Io));
    assert_eq!(Reader::new(&bytes).unwrap().decoded(&[0x01]), Err(ReadError::Io));
    assert_eq!(Reader::new(&bytes).unwrap().decoded(&[0x09]), Err(ReadError::Invalid7z));
    assert!(matches!(
        Reader::new(&bytes).unwrap().decoded(&[0x01, 0x02]),
        Err(ReadError::UnsupportedFeature { .. })
    ));
}

#[test]
fn decoded_bytes_leave_an_archive_header_alone() {
    let reader = Reader::new(&BARE_ARCHIVE).unwrap();
    let again = Reader::new(&BARE_ARCHIVE).unwrap();
    assert_eq!(reader.decoded(&[0x17, 0x00]), Ok(again));
}

#[test]
fn find_header_tells_the_two_headers_apart() {
    let bytes = [0x01, 0x00];
    let mut cursor = ByteCursor::new(&bytes);
    assert_eq!(Reader::find_header(&mut cursor), Ok(Header::Main(empty_main_header())));
    assert_eq!(cursor.position(), 2);
    let bytes = [0x17, 0x00];
    let mut cursor = ByteCursor::new(&bytes);
    assert_eq!(
        Reader::find_header(&mut cursor),
        Ok(Header::Encoded(EncodedHeader { pack: None, unpack: None, substream: None }))
    );
    let bytes = [0x04, 0x00];
    let mut cursor = ByteCursor::new(&bytes);
    assert_eq!(Reader::find_header(&mut cursor), Err(ReadError::Invalid7z));
    let mut cursor = ByteCursor::new(&[]);
    assert_eq!(Reader::find_header(&mut cursor), Err(ReadError::Io));
}

#[test]
fn read_header_block_checks_before_it_reads() {
    assert_eq!(
        Reader::read_header_block(&[0x01, 0x00], 7, 7),
        Ok(Header::Main(empty_main_header()))
    );
    assert_eq!(Reader::read_header_block(&[0x01, 0x00], 7, 8), Err(ReadError::CrcInvalid));
    assert_eq!(Reader::read_header_block(&[0xFF], 7, 8), Err(ReadError::CrcInvalid));
    assert_eq!(Reader::read_header_block(&[0xFF], 7, 7), Err(ReadError::Invalid7z));
    assert_eq!(Reader::read_header_block(&[], 7, 7), Ok(Header::Main(empty_main_header())));
    assert_eq!(Reader::read_header_block(&[], 7, 8), Err(ReadError::CrcInvalid));
}

#[test]
fn locator_fields_are_little_endian() {
    let bytes = [
        0x01, 0x02, 0x03, 0x04, 0x05, 0x06, 0x07, 0x08, // offset
        0x11, 0x12, 0x13, 0x14, 0x15, 0x16, 0x17, 0x18, // size
        0x21, 0x22, 0x23, 0x24, // checksum
    ];
    assert_eq!(
        HeaderLocation::from_locator(&bytes, 5, 5),
        Ok(HeaderLocation {
            offset: 0x0807_0605_0403_0201 + 32,
            size: 0x1817_1615_1413_1211,
            crc: 0x2423_2221,
        })
    );
    assert_eq!(HeaderLocation::from_locator(&bytes, 5, 6), Err(ReadError::CrcInvalid));
    assert_eq!(HeaderLocation::from_locator(&bytes[..19], 5, 5), Err(ReadError::Io));
}

#[test]
fn signature_header_rewinds_the_stream() {
    let mut cursor = ByteCursor::new(&BARE_ARCHIVE);
    cursor.read_exact(10).unwrap();
    assert_eq!(
        HeaderLocation::try_read(&mut cursor),
        Ok(HeaderLocation { offset: 32, size: 2, crc: 0x58C2_23BE })
    );
    assert_eq!(cursor.position(), 32);
}

#[test]
fn header_block_is_cut_out_of_the_stream() {
    let bytes = [1u8, 2, 3, 4, 5, 6];
    let location = HeaderLocation { offset: 2, size: 3, crc: 0 };
    assert_eq!(location.block(&bytes), Ok(&bytes[2..5]));
    let location = HeaderLocation { offset: 2, size: 4, crc: 0 };
    assert_eq!(location.block(&bytes), Ok(&bytes[2..6]));
    let location = HeaderLocation { offset: 2, size: 5, crc: 0 };
    assert_eq!(location.block(&bytes), Err(ReadError::Io));
    let location = HeaderLocation { offset: 7, size: 1, crc: 0 };
    assert_eq!(location.block(&bytes), Err(ReadError::Io));
    let location = HeaderLocation { offset: 700, size: 0, crc: 0 };
    assert_eq!(location.block(&bytes), Ok(&bytes[0..0]));
}

#[test]
fn from_block_reads_what_open_reads() {
    let block = [0x01, 0x04, 0x00, 0x00];
    let bytes = archive(7, &block);
    let location = HeaderLocation { offset: 39, size: 4, crc: crc32(&block) };
    assert_eq!(Reader::from_block(location, &block), Reader::new(&bytes));
    assert!(Reader::from_block(location, &block).is_ok());
}

#[test]
fn from_block_checks_length_and_checksum() {
    let block = [0x01, 0x00];
    let location = HeaderLocation { offset: 32, size: 2, crc: 0x58C2_23BE };
    assert!(Reader::from_block(location, &block).is_ok());
    assert_eq!(Reader::from_block(location, &block[..1]), Err(ReadError::Io));
    assert_eq!(Reader::from_block(location, &[0x01, 0x00, 0x00]), Err(ReadError::Io));
    assert_eq!(Reader::from_block(location, &[0x01, 0x01]), Err(ReadError::CrcInvalid));
    let location = HeaderLocation { offset: 32, size: 2, crc: 0x58C2_23BF };
    assert_eq!(Reader::from_block(location, &block), Err(ReadError::CrcInvalid));
    let location = HeaderLocation { offset: 32, size: 0, crc: 0 };
    let reader = Reader::from_block(location, &[]).unwrap();
    assert_eq!(reader.header(), &Header::Main(empty_main_header()));
}

#[test]
fn signature_header_that_fails_leaves_the_cursor() {
    let mut bytes = BARE_ARCHIVE;
    bytes[20] ^= 0x01;
    let mut cursor = ByteCursor::new(&bytes);
    cursor.read_exact(10).unwrap();
    assert_eq!(HeaderLocation::try_read(&mut cursor), Err(ReadError::CrcInvalid));
    assert_eq!(cursor.position(), 10);
    let bytes = [0xAA, 0x01, 0x09];
    let mut cursor = ByteCursor::new(&bytes);
    cursor.read_u8().unwrap();
    assert_eq!(Reader::find_header(&mut cursor), Err(ReadError::Invalid7z));
    assert_eq!(cursor.position(), 1);
}
