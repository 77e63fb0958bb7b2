use ktx2_tools::error::Error;
use ktx2_tools::header::{Format, Header, Index, LevelIndexEntry, SupercompressionScheme};
use ktx2_tools::reader::Reader;

fn header(level_count: u32, index: Index) -> Header {
    Header {
        format: Format::new(146),
        type_size: 1,
        pixel_width: 8,
        pixel_height: 4,
        pixel_depth: 0,
        layer_count: 2,
        face_count: 1,
        level_count,
        supercompression_scheme: SupercompressionScheme::new(3),
        index,
    }
}

fn no_sections() -> Index {
    Index {
        dfd_byte_offset: 0,
        dfd_byte_length: 0,
        kvd_byte_offset: 0,
        kvd_byte_length: 0,
        sgd_byte_offset: 0,
        sgd_byte_length: 0,
    }
}

fn entry(byte_offset: u64, byte_length: u64, uncompressed_byte_length: u64) -> LevelIndexEntry {
    LevelIndexEntry { byte_offset, byte_length, uncompressed_byte_length }
}

fn failure(bytes: &[u8]) -> Option<Error> {
    Reader::new(bytes).err()
}

#[test]
fn a_header_is_eighty_bytes_of_little_endian_fields() {
    let index = Index {
        dfd_byte_offset: 0x01020304,
        dfd_byte_length: 5,
        kvd_byte_offset: 6,
        kvd_byte_length: 7,
        sgd_byte_offset: 0x0102030405060708,
        sgd_byte_length: 9,
    };
    let bytes = header(0x0A0B0C0D, index).to_bytes();
    let mut expected = vec![0xAB, 0x4B, 0x54, 0x58, 0x20, 0x32, 0x30, 0xBB, 0x0D, 0x0A, 0x1A, 0x0A];
    expected.extend_from_slice(&[146, 0, 0, 0, 1, 0, 0, 0, 8, 0, 0, 0, 4, 0, 0, 0, 0, 0, 0, 0]);
    expected.extend_from_slice(&[2, 0, 0, 0, 1, 0, 0, 0, 0x0D, 0x0C, 0x0B, 0x0A, 3, 0, 0, 0]);
    expected.extend_from_slice(&[4, 3, 2, 1, 5, 0, 0, 0, 6, 0, 0, 0, 7, 0, 0, 0]);
    expected.extend_from_slice(&[8, 7, 6, 5, 4, 3, 2, 1, 9, 0, 0, 0, 0, 0, 0, 0]);
    assert_eq!(bytes, expected);
    let parsed = Header::from_bytes(&bytes).unwrap();
    assert_eq!(parsed.format, Format::new(146));
    assert_eq!(parsed.level_count, 0x0A0B0C0D);
    assert_eq!(parsed.layer_count, 2);
    assert_eq!(parsed.supercompression_scheme, SupercompressionScheme::new(3));
    assert_eq!(parsed.index, index);
}

#[test]
fn an_absent_format_is_written_as_zero() {
    let mut plain = header(0, no_sections());
    plain.format = None;
    plain.supercompression_scheme = None;
    let bytes = plain.to_bytes();
    assert_eq!(&bytes[12..16], &[0, 0, 0, 0]);
    assert_eq!(&bytes[44..48], &[0, 0, 0, 0]);
    let parsed = Header::from_bytes(&bytes).unwrap();
    assert_eq!(parsed.format, None);
    assert_eq!(parsed.supercompression_scheme, None);
    assert_eq!(Format::new(0), None);
    assert_eq!(Format::new(37).unwrap().value(), 37);
}

#[test]
fn a_level_index_entry_is_three_little_endian_numbers() {
    let bytes = entry(0x0102030405060708, 2, 0xFFFFFFFFFFFFFFFF).to_bytes();
    let mut expected = vec![8u8, 7, 6, 5, 4, 3, 2, 1, 2, 0, 0, 0, 0, 0, 0, 0];
    expected.extend_from_slice(&[255; 8]);
    assert_eq!(bytes, expected);
    let mut padded = vec![0u8; 3];
    padded.extend_from_slice(&bytes);
    assert_eq!(LevelIndexEntry::from_bytes(&padded, 3), entry(0x0102030405060708, 2, 0xFFFFFFFFFFFFFFFF));
}

#[test]
fn short_input_is_truncated() {
    assert_eq!(failure(&[]), Some(Error::TruncatedContainer));
    let bytes = header(0, no_sections()).to_bytes();
    assert_eq!(failure(&bytes[..79]), Some(Error::TruncatedContainer));
    assert_eq!(failure(&bytes), None);
    assert_eq!(Header::from_bytes(&bytes[..79]).err(), Some(Error::TruncatedContainer));
}

#[test]
fn input_without_the_identifier_is_refused() {
    let mut bytes = header(0, no_sections()).to_bytes();
    bytes[11] = 0x0B;
    assert_eq!(failure(&bytes), Some(Error::BadIdentifier));
    assert_eq!(Header::from_bytes(&bytes).err(), Some(Error::BadIdentifier));
    assert_eq!(failure(&[0u8; 80]), Some(Error::BadIdentifier));
}

#[test]
fn an_index_table_past_the_end_is_truncated() {
    let mut bytes = header(2, no_sections()).to_bytes();
    bytes.extend_from_slice(&entry(0, 0, 0).to_bytes());
    assert_eq!(failure(&bytes), Some(Error::TruncatedContainer));
    bytes.extend_from_slice(&entry(0, 0, 0).to_bytes());
    assert_eq!(failure(&bytes), None);
    assert_eq!(failure(&header(u32::MAX, no_sections()).to_bytes()), Some(Error::TruncatedContainer));
}

#[test]
fn sections_past_the_end_are_truncated() {
    let mut index = no_sections();
    index.dfd_byte_offset = 80;
    index.dfd_byte_length = 1;
    assert_eq!(failure(&header(0, index).to_bytes()), Some(Error::TruncatedContainer));
    let mut with_dfd = header(0, index).to_bytes();
    with_dfd.push(7);
    let reader = Reader::new(&with_dfd).unwrap();
    assert_eq!(reader.dfd_bytes(), &[7]);

    let mut index = no_sections();
    index.kvd_byte_offset = u32::MAX;
    index.kvd_byte_length = u32::MAX;
    assert_eq!(failure(&header(0, index).to_bytes()), Some(Error::TruncatedContainer));

    let mut index = no_sections();
    index.sgd_byte_offset = 81;
    assert_eq!(failure(&header(0, index).to_bytes()), Some(Error::TruncatedContainer));
    index.sgd_byte_offset = u64::MAX;
    index.sgd_byte_length = 1;
    assert_eq!(failure(&header(0, index).to_bytes()), Some(Error::TruncatedContainer));
    index.sgd_byte_offset = 78;
    index.sgd_byte_length = 2;
    let bytes = header(0, index).to_bytes();
    let reader = Reader::new(&bytes).unwrap();
    assert_eq!(reader.supercompression_global_data(), &[0, 0]);
}

#[test]
fn levels_past_the_end_are_truncated() {
    let mut bytes = header(1, no_sections()).to_bytes();
    bytes.extend_from_slice(&entry(104, 4, 4).to_bytes());
    bytes.extend_from_slice(&[1, 2, 3]);
    assert_eq!(failure(&bytes), Some(Error::TruncatedContainer));
    bytes.push(4);
    let reader = Reader::new(&bytes).unwrap();
    assert_eq!(reader.level(0), (&[1u8, 2, 3, 4][..], 4));
    assert_eq!(reader.level_entry(0), entry(104, 4, 4));

    let mut overflowing = header(1, no_sections()).to_bytes();
    overflowing.extend_from_slice(&entry(u64::MAX, 2, 0).to_bytes());
    assert_eq!(failure(&overflowing), Some(Error::TruncatedContainer));
}

#[test]
fn levels_can_be_asked_for_in_any_order_and_again() {
    let mut bytes = header(2, no_sections()).to_bytes();
    bytes.extend_from_slice(&entry(130, 3, 30).to_bytes());
    bytes.extend_from_slice(&entry(128, 2, 20).to_bytes());
    bytes.extend_from_slice(&[1, 2, 3, 4, 5]);
    let reader = Reader::new(&bytes).unwrap();
    assert_eq!(reader.level_count(), 2);
    assert_eq!(reader.level(1), (&[1u8, 2][..], 20));
    assert_eq!(reader.level(0), (&[3u8, 4, 5][..], 30));
    assert_eq!(reader.level(1), (&[1u8, 2][..], 20));
    assert_eq!(reader.header().pixel_width, 8);
    assert_eq!(reader.kvd_bytes(), &[] as &[u8]);
    // 133 bytes as stored, 178 with the levels at their uncompressed lengths.
    assert_eq!(reader.uncompressed_length(), 133 - 5 + 50);
}

#[test]
fn malformed_metadata_of_a_container_is_reported() {
    let mut index = no_sections();
    index.kvd_byte_offset = 80;
    index.kvd_byte_length = 6;
    let mut bytes = header(0, index).to_bytes();
    bytes.extend_from_slice(&[2, 0, 0, 0, b'a', b'b']);
    let reader = Reader::new(&bytes).unwrap();
    assert_eq!(reader.key_value_data().err(), Some(Error::MalformedMetadata));
    bytes[85] = 0;
    let reader = Reader::new(&bytes).unwrap();
    let metadata = reader.key_value_data().unwrap();
    assert_eq!(metadata.len(), 1);
    assert_eq!(metadata.key_at(0), b"a");
    assert_eq!(metadata.value_at(0), b"");
}
