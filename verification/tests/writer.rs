use ktx2_tools::error::Error;
use ktx2_tools::header::{Format, Header, LevelIndexEntry, SupercompressionScheme, WriterHeader};
use ktx2_tools::metadata::Metadata;
use ktx2_tools::reader::Reader;
use ktx2_tools::writer::Writer;
use std::borrow::Cow;

const IDENTIFIER: [u8; 12] = [
    0xAB, 0x4B, 0x54, 0x58, 0x20, 0x32, 0x30, 0xBB, 0x0D, 0x0A, 0x1A, 0x0A,
];

fn rgba8_header(scheme: Option<SupercompressionScheme>) -> WriterHeader {
    WriterHeader {
        format: Format::new(37),
        type_size: 1,
        pixel_width: 16,
        pixel_height: 16,
        pixel_depth: 0,
        layer_count: 0,
        face_count: 1,
        supercompression_scheme: scheme,
    }
}

fn write(header: WriterHeader, dfd: &[u8], metadata: &Metadata, sgd: &[u8], levels: &[Vec<u8>]) -> Result<Vec<u8>, Error> {
    let levels: Vec<Cow<[u8]>> = levels.iter().map(|level| Cow::Borrowed(&level[..])).collect();
    Writer {
        header,
        dfd_bytes: dfd,
        key_value_pairs: metadata,
        sgd_bytes: sgd,
        uncompressed_levels_descending: &levels,
    }
    .write()
}

#[test]
fn single_level_uncompressed_container() {
    let pixels = vec![255u8; 16 * 16 * 4];
    let dfd = 4u32.to_le_bytes();
    let bytes = write(rgba8_header(None), &dfd, &Metadata::new(), &[], &[pixels.clone()]).unwrap();
    let header = Header::from_bytes(&bytes).unwrap();
    assert_eq!(header.level_count, 1);
    assert_eq!(header.index.dfd_byte_offset, 80 + 24);
    assert_eq!(header.index.dfd_byte_length, 4);
    assert_eq!(header.index.kvd_byte_offset, 80 + 24 + 4);
    // 4 (length) + 9 (key) + 1 (NUL) + 17 (value) = 31, padded to 32.
    assert_eq!(header.index.kvd_byte_length, 32);
    assert_eq!(header.index.sgd_byte_offset, 0);
    assert_eq!(header.index.sgd_byte_length, 0);
    let entry = LevelIndexEntry::from_bytes(&bytes, 80);
    assert_eq!(entry.byte_offset, 80 + 24 + 4 + 32);
    assert_eq!(entry.byte_length, 1024);
    assert_eq!(entry.uncompressed_byte_length, 1024);
    assert_eq!(bytes.len(), 80 + 24 + 4 + 32 + 1024);
    assert_eq!(&bytes[140..], &pixels[..]);
}

#[test]
fn single_level_container_byte_for_byte() {
    let pixels = vec![7u8; 5];
    let dfd = [9u8, 8, 7, 6];
    let bytes = write(rgba8_header(None), &dfd, &Metadata::new(), &[], &[pixels]).unwrap();
    let mut expected: Vec<u8> = Vec::new();
    expected.extend_from_slice(&IDENTIFIER);
    for field in [37u32, 1, 16, 16, 0, 0, 1, 1, 0, 104, 4, 108, 32] {
        expected.extend_from_slice(&field.to_le_bytes());
    }
    expected.extend_from_slice(&0u64.to_le_bytes());
    expected.extend_from_slice(&0u64.to_le_bytes());
    expected.extend_from_slice(&140u64.to_le_bytes());
    expected.extend_from_slice(&5u64.to_le_bytes());
    expected.extend_from_slice(&5u64.to_le_bytes());
    expected.extend_from_slice(&dfd);
    expected.extend_from_slice(&27u32.to_le_bytes());
    expected.extend_from_slice(b"KTXwriter\0ktx2_tools 0.1.0\0");
    expected.push(0);
    expected.extend_from_slice(&[7u8; 5]);
    assert_eq!(bytes, expected);
}

#[test]
fn the_writer_entry_is_the_only_metadata_of_an_empty_mapping() {
    let bytes = write(rgba8_header(None), &[1, 2, 3, 4], &Metadata::new(), &[], &[vec![0u8; 4]]).unwrap();
    let reader = Reader::new(&bytes).unwrap();
    let metadata = reader.key_value_data().unwrap();
    assert_eq!(metadata.len(), 1);
    assert_eq!(metadata.key_at(0), b"KTXwriter");
    assert_eq!(metadata.value_at(0), b"ktx2_tools 0.1.0\0");
}

#[test]
fn single_level_zstandard_container() {
    let pixels = vec![255u8; 16 * 16 * 4];
    let dfd = 4u32.to_le_bytes();
    let scheme = Some(SupercompressionScheme::zstandard());
    let bytes = write(rgba8_header(scheme), &dfd, &Metadata::new(), &[], &[pixels]).unwrap();
    let header = Header::from_bytes(&bytes).unwrap();
    assert_eq!(header.supercompression_scheme, scheme);
    let entry = LevelIndexEntry::from_bytes(&bytes, 80);
    assert_eq!(entry.uncompressed_byte_length, 1024);
    assert!(entry.byte_length < 1024);
    assert_eq!(entry.byte_offset, 140);
    assert_eq!(entry.byte_offset + entry.byte_length, bytes.len() as u64);
}

#[test]
fn levels_are_stored_and_indexed_largest_first() {
    let levels = vec![vec![1u8; 64], vec![2u8; 16], vec![3u8; 4]];
    let sgd = [5u8; 8];
    let bytes = write(rgba8_header(None), &[0u8; 12], &Metadata::new(), &sgd, &levels).unwrap();
    let header = Header::from_bytes(&bytes).unwrap();
    assert_eq!(header.level_count, 3);
    assert_eq!(header.index.dfd_byte_offset, 80 + 3 * 24);
    assert_eq!(header.index.kvd_byte_offset, 152 + 12);
    assert_eq!(header.index.sgd_byte_offset, 164 + 32);
    assert_eq!(header.index.sgd_byte_length, 8);
    let start = 196 + 8;
    let first = LevelIndexEntry::from_bytes(&bytes, 80);
    let second = LevelIndexEntry::from_bytes(&bytes, 104);
    let third = LevelIndexEntry::from_bytes(&bytes, 128);
    assert_eq!((first.byte_offset, first.byte_length), (start, 64));
    assert_eq!((second.byte_offset, second.byte_length), (start + 64, 16));
    assert_eq!((third.byte_offset, third.byte_length), (start + 80, 4));
    assert_eq!(third.byte_offset + third.byte_length, bytes.len() as u64);
    assert_eq!(bytes.len(), 80 + 72 + 12 + 32 + 8 + 84);
    assert_eq!(&bytes[start as usize..start as usize + 64], &[1u8; 64]);
    assert_eq!(&bytes[start as usize + 64..start as usize + 80], &[2u8; 16]);
    assert_eq!(&bytes[start as usize + 80..], &[3u8; 4]);
}

#[test]
fn empty_sections_are_recorded_at_offset_zero() {
    let bytes = write(rgba8_header(None), &[], &Metadata::new(), &[], &[]).unwrap();
    let header = Header::from_bytes(&bytes).unwrap();
    assert_eq!(header.level_count, 0);
    assert_eq!(header.index.dfd_byte_offset, 80);
    assert_eq!(header.index.dfd_byte_length, 0);
    assert_eq!(header.index.kvd_byte_offset, 80);
    assert_eq!(header.index.sgd_byte_offset, 0);
    assert_eq!(header.index.sgd_byte_length, 0);
    assert_eq!(bytes.len(), 80 + 32);
}

#[test]
fn a_scheme_that_cannot_be_framed_is_refused() {
    for code in [1u32, 3, 4, 99] {
        let scheme = SupercompressionScheme::new(code);
        let result = write(rgba8_header(scheme), &[0u8; 4], &Metadata::new(), &[], &[vec![1u8; 8]]);
        assert_eq!(result, Err(Error::UnsupportedSupercompressionScheme));
        let without_levels = write(rgba8_header(scheme), &[0u8; 4], &Metadata::new(), &[], &[]);
        assert_eq!(without_levels, Err(Error::UnsupportedSupercompressionScheme));
    }
}

#[test]
fn written_metadata_is_sorted_and_holds_the_writer_entry() {
    let mut metadata = Metadata::new();
    metadata.insert(b"zeta", b"last");
    metadata.insert(b"Alpha", b"first");
    metadata.insert(b"KTXwriter", b"someone else");
    let bytes = write(rgba8_header(None), &[0u8; 4], &metadata, &[], &[vec![1u8; 8]]).unwrap();
    let reader = Reader::new(&bytes).unwrap();
    let read = reader.key_value_data().unwrap();
    assert_eq!(read.len(), 3);
    assert_eq!(read.key_at(0), b"Alpha");
    assert_eq!(read.value_at(0), b"first");
    assert_eq!(read.key_at(1), b"KTXwriter");
    assert_eq!(read.value_at(1), b"ktx2_tools 0.1.0\0");
    assert_eq!(read.key_at(2), b"zeta");
    assert_eq!(read.value_at(2), b"last");
    assert_eq!(reader.header().index.kvd_byte_length % 4, 0);
}

#[test]
fn an_outside_reader_finds_what_was_written() {
    let levels = vec![vec![9u8; 256], vec![8u8; 64], vec![7u8; 16]];
    for scheme in [None, Some(SupercompressionScheme::zstandard())] {
        let mut metadata = Metadata::new();
        metadata.insert(b"author", b"test\0");
        let bytes = write(rgba8_header(scheme), &[12, 0, 0, 0, 0, 0, 0, 0, 2, 0, 12, 0], &metadata, &[], &levels).unwrap();
        let reader = ktx2::Reader::new(&bytes[..]).unwrap();
        let header = reader.header();
        assert_eq!(header.format, Some(ktx2::Format::R8G8B8A8_UNORM));
        assert_eq!(header.pixel_width, 16);
        assert_eq!(header.pixel_height, 16);
        assert_eq!(header.face_count, 1);
        assert_eq!(header.level_count, 3);
        assert_eq!(
            header.supercompression_scheme,
            scheme.map(|_| ktx2::SupercompressionScheme::Zstandard)
        );
        let read: Vec<Vec<u8>> = reader
            .levels()
            .map(|level| match scheme {
                None => level.data.to_vec(),
                Some(_) => zstd::bulk::decompress(level.data, level.uncompressed_byte_length as usize).unwrap(),
            })
            .collect();
        assert_eq!(read, levels);
        let pairs: Vec<(String, Vec<u8>)> = reader
            .key_value_data()
            .map(|(key, value)| (key.to_string(), value.to_vec()))
            .collect();
        assert_eq!(
            pairs,
            vec![
                ("KTXwriter".to_string(), b"ktx2_tools 0.1.0\0".to_vec()),
                ("author".to_string(), b"test\0".to_vec()),
            ]
        );
    }
}

#[test]
fn the_ktx2_reader_finds_the_levels_in_the_order_they_were_given() {
    let levels = vec![vec![1u8; 64], vec![2u8; 16], vec![3u8; 4]];
    let dfd = [8u8, 0, 0, 0, 0, 0, 0, 0];
    let bytes = write(rgba8_header(None), &dfd, &Metadata::new(), &[], &levels).unwrap();
    let reader = ktx2::Reader::new(&bytes[..]).unwrap();
    let header = reader.header();
    assert_eq!(header.as_bytes().to_vec(), Header::from_bytes(&bytes).unwrap().to_bytes());
    assert_eq!(header.level_count, 3);
    assert_eq!(header.format, ktx2::Format::new(37));
    let read: Vec<Vec<u8>> = reader.levels().map(|level| level.data.to_vec()).collect();
    assert_eq!(read, levels);
    let mut next = (80 + 3 * 24 + 8 + 32) as usize;
    for (i, level) in levels.iter().enumerate() {
        let entry = LevelIndexEntry::from_bytes(&bytes, 80 + 24 * i);
        let theirs = ktx2::LevelIndex {
            byte_offset: entry.byte_offset,
            byte_length: entry.byte_length,
            uncompressed_byte_length: entry.uncompressed_byte_length,
        };
        assert_eq!(theirs.as_bytes().to_vec(), entry.to_bytes());
        assert_eq!(entry.byte_offset as usize, next);
        assert_eq!(entry.byte_length as usize, level.len());
        next += level.len();
    }
    assert_eq!(next, bytes.len());
}
