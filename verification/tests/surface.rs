use ktx2_tools::error::Error;
use ktx2_tools::formats::DxgiFormat;
use ktx2_tools::header::Format;
use ktx2_tools::reader::Reader;
use ktx2_tools::header::{SupercompressionScheme, WriterHeader};
use ktx2_tools::metadata::Metadata;
use ktx2_tools::surface::{
    convert_surface, regroup_by_face, split_levels, transcode_levels, unpack_container,
};
use ktx2_tools::transcode::transcode_level;
use ktx2_tools::writer::Writer;
use std::borrow::Cow;

fn owned(levels: Vec<Vec<u8>>) -> Vec<Cow<'static, [u8]>> {
    levels.into_iter().map(Cow::Owned).collect()
}

#[test]
fn faces_are_gathered_level_by_level() {
    let levels = owned(vec![vec![1, 1, 2, 2, 3, 3], vec![4, 5, 6]]);
    assert_eq!(regroup_by_face(&levels, 3), vec![1, 1, 4, 2, 2, 5, 3, 3, 6]);
    assert_eq!(regroup_by_face(&levels, 1), vec![1, 1, 2, 2, 3, 3, 4, 5, 6]);
    assert_eq!(regroup_by_face(&[], 6), Vec::<u8>::new());
}

#[test]
fn bytes_behind_the_last_face_are_dropped() {
    let levels = owned(vec![vec![1, 2, 3, 4, 5, 6, 7], vec![8]]);
    assert_eq!(regroup_by_face(&levels, 2), vec![1, 2, 3, 4, 5, 6]);
    assert_eq!(regroup_by_face(&levels, 3), vec![1, 2, 3, 4, 5, 6]);
}

#[test]
fn a_cubemap_has_six_faces() {
    let level0: Vec<u8> = (0..6u8).flat_map(|face| vec![face; 16]).collect();
    let level1: Vec<u8> = (0..6u8).flat_map(|face| vec![face + 10; 4]).collect();
    let data = regroup_by_face(&owned(vec![level0, level1]), 6);
    assert_eq!(data.len(), 120);
    for face in 0..6usize {
        assert_eq!(&data[face * 20..face * 20 + 16], &[face as u8; 16]);
        assert_eq!(&data[face * 20 + 16..face * 20 + 20], &[face as u8 + 10; 4]);
    }
}

#[test]
fn surface_levels_take_half_a_byte_for_each_texel() {
    // 16x16: 128 bytes, 8x8: 32, 4x4: 8, then 4x4 again: 8.
    let data: Vec<u8> = (0..176u32).map(|i| i as u8).collect();
    let levels = split_levels(&data, 16, 16, 4).unwrap();
    assert_eq!(levels.len(), 4);
    assert_eq!(levels[0], &data[0..128]);
    assert_eq!(levels[1], &data[128..160]);
    assert_eq!(levels[2], &data[160..168]);
    assert_eq!(levels[3], &data[168..176]);
    assert_eq!(split_levels(&data, 16, 16, 0), Ok(vec![]));
    assert_eq!(split_levels(&data[..175], 16, 16, 4), Err(Error::TruncatedContainer));
    assert_eq!(split_levels(&data[..175], 16, 16, 3).unwrap().len(), 3);
    assert_eq!(split_levels(&[], 1, 1, 1), Err(Error::TruncatedContainer));
    assert_eq!(split_levels(&[0u8; 8], 1, 1, 1), Ok(vec![Cow::Borrowed(&[0u8; 8][..])]));
    assert!(levels.iter().all(|level| matches!(level, Cow::Borrowed(_))));
    assert_eq!(regroup_by_face(&levels, 0), Vec::<u8>::new());
}

#[test]
fn a_surface_becomes_a_container() {
    let data: Vec<u8> = (0..200u32).map(|i| (i * 7) as u8).collect();
    let bytes = convert_surface(DxgiFormat::BC1UNorm, 16, 8, 0, 2, &data).unwrap();
    let reader = Reader::new(&bytes).unwrap();
    let header = reader.header();
    assert_eq!(header.format, Format::new(132));
    assert_eq!(header.type_size, 4);
    assert_eq!((header.pixel_width, header.pixel_height, header.pixel_depth), (16, 8, 0));
    assert_eq!((header.layer_count, header.face_count, header.level_count), (0, 1, 2));
    assert_eq!(header.supercompression_scheme, None);
    assert_eq!(reader.dfd_bytes(), &[0x0C, 0, 0, 0, 1, 1, 1, 1, 0, 0, 0, 0]);
    assert_eq!(reader.level(0), (&data[0..64], 64));
    assert_eq!(reader.level(1), (&data[64..80], 16));
    let shared = convert_surface(DxgiFormat::R9G9B9E5SharedExp, 4, 4, 3, 1, &data).unwrap();
    assert_eq!(Reader::new(&shared).unwrap().header().format, Format::new(123));
    assert_eq!(Reader::new(&shared).unwrap().header().pixel_depth, 3);
}

#[test]
fn a_surface_that_cannot_be_converted() {
    let data = vec![0u8; 64];
    assert_eq!(convert_surface(DxgiFormat::BC7UNorm, 16, 8, 0, 1, &data), Err(Error::UnsupportedPixelFormat));
    assert_eq!(convert_surface(DxgiFormat::BC7UNorm, 16, 8, 0, 9, &data), Err(Error::UnsupportedPixelFormat));
    assert_eq!(convert_surface(DxgiFormat::BC1UNorm, 16, 8, 0, 2, &data), Err(Error::TruncatedContainer));
}

// A UASTC block of one solid colour: the mode in five bits, then red, green,
// blue and alpha.
fn solid_block(red: u8, green: u8, blue: u8) -> Vec<u8> {
    let bits: u64 = 0x17 | (red as u64) << 5 | (green as u64) << 13 | (blue as u64) << 21 | 255 << 29;
    let mut block = vec![0u8; 16];
    block[..8].copy_from_slice(&bits.to_le_bytes());
    block
}

fn container(format: Option<Format>, face_count: u32, scheme: Option<SupercompressionScheme>, levels: Vec<Vec<u8>>) -> Vec<u8> {
    let levels = owned(levels);
    Writer {
        header: WriterHeader {
            format,
            type_size: 1,
            pixel_width: 8,
            pixel_height: 4,
            pixel_depth: 0,
            layer_count: 0,
            face_count,
            supercompression_scheme: scheme,
        },
        dfd_bytes: &[0u8; 4],
        key_value_pairs: &Metadata::new(),
        sgd_bytes: &[],
        uncompressed_levels_descending: &levels,
    }
    .write()
    .unwrap()
}

#[test]
fn levels_are_transcoded_at_their_own_sizes() {
    let base = [solid_block(10, 20, 30), solid_block(40, 50, 60)].concat();
    let small = solid_block(70, 80, 90);
    let raw = owned(vec![base.clone(), small.clone(), small.clone()]);
    let levels = transcode_levels(&raw, 8, 4).unwrap();
    assert_eq!(levels.len(), 3);
    assert_eq!(levels[0], transcode_level(&base, 8, 4).unwrap());
    assert_eq!(levels[1], transcode_level(&small, 4, 2).unwrap());
    assert_eq!(levels[2], transcode_level(&small, 2, 1).unwrap());
    assert_eq!(transcode_levels(&[], 8, 4), Ok(vec![]));
    // The first level that is refused decides.
    let short = owned(vec![base.clone(), vec![1, 2, 3]]);
    assert_eq!(transcode_levels(&short, 8, 4), Err(Error::CodecFailed));
    let wide = owned(vec![small.clone()]);
    assert_eq!(transcode_levels(&wide, 8, 4), Err(Error::CodecFailed));
    assert_eq!(transcode_levels(&wide, u32::MAX, u32::MAX), Err(Error::ContainerTooLarge));
}

#[test]
fn universal_data_is_unpacked_to_bc7() {
    let base = [solid_block(10, 20, 30), solid_block(40, 50, 60)].concat();
    let small = solid_block(70, 80, 90);
    for scheme in [None, Some(SupercompressionScheme::zstandard())] {
        let bytes = container(None, 1, scheme, vec![base.clone(), small.clone()]);
        let surface = unpack_container(&bytes, Some(true)).unwrap();
        assert_eq!(surface.format, DxgiFormat::BC7UNormSrgb);
        assert_eq!((surface.width, surface.height), (8, 4));
        assert_eq!(surface.depth, None);
        assert_eq!(surface.mipmap_levels, Some(2));
        assert_eq!(surface.array_layers, None);
        assert!(!surface.is_cubemap);
        let mut expected = transcode_level(&base, 8, 4).unwrap();
        expected.extend_from_slice(&transcode_level(&small, 4, 2).unwrap());
        assert_eq!(surface.data, expected);
        assert_eq!(unpack_container(&bytes, Some(false)).unwrap().format, DxgiFormat::BC7UNorm);
    }
}

#[test]
fn other_data_is_unpacked_as_it_is() {
    let faces: Vec<u8> = (0..6u8).flat_map(|face| vec![face; 8]).collect();
    let tips: Vec<u8> = (0..6u8).flat_map(|face| vec![face + 10; 2]).collect();
    let bytes = container(Format::new(37), 6, Some(SupercompressionScheme::zstandard()), vec![faces, tips]);
    let surface = unpack_container(&bytes, None).unwrap();
    assert_eq!(surface.format, DxgiFormat::R8G8B8A8UNorm);
    assert!(surface.is_cubemap);
    assert_eq!(surface.data.len(), 60);
    for face in 0..6usize {
        assert_eq!(&surface.data[10 * face..10 * face + 8], &[face as u8; 8]);
        assert_eq!(&surface.data[10 * face + 8..10 * face + 10], &[face as u8 + 10; 2]);
    }
}

#[test]
fn a_container_that_cannot_be_unpacked() {
    let block = solid_block(1, 2, 3);
    assert_eq!(unpack_container(&[0u8; 40], None).err(), Some(Error::TruncatedContainer));
    assert_eq!(unpack_container(&[0u8; 90], None).err(), Some(Error::BadIdentifier));
    let unknown = container(Format::new(132), 1, None, vec![block.clone()]);
    assert_eq!(unpack_container(&unknown, None).err(), Some(Error::UnsupportedPixelFormat));
    let mut damaged = container(None, 1, None, vec![block.clone()]);
    // The uncompressed length of level 0 is the third field of its entry.
    damaged[80 + 16] = 15;
    assert_eq!(unpack_container(&damaged, Some(true)).err(), Some(Error::DecompressionLengthMismatch));
    let short = container(None, 1, None, vec![vec![0u8; 15]]);
    assert_eq!(unpack_container(&short, Some(true)).err(), Some(Error::CodecFailed));
    let mut no_uastc = vec![0u8; 32];
    no_uastc[0] = 69;
    let refused = container(None, 1, None, vec![no_uastc]);
    assert_eq!(unpack_container(&refused, Some(true)).err(), Some(Error::CodecFailed));
    assert!(unpack_container(&refused, None).is_ok());
}
