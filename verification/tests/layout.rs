use ktx2_tools::error::Error;
use ktx2_tools::header::{Format, Header, LevelIndexEntry, WriterHeader};
use ktx2_tools::layout::{assemble, plan_levels, plan_sections, WriterLevel};
use std::borrow::Cow;

fn header() -> WriterHeader {
    WriterHeader {
        format: Format::new(145),
        type_size: 1,
        pixel_width: 4,
        pixel_height: 4,
        pixel_depth: 0,
        layer_count: 1,
        face_count: 1,
        supercompression_scheme: None,
    }
}

fn level(bytes: Vec<u8>, uncompressed_length: u64) -> WriterLevel<'static> {
    WriterLevel { uncompressed_length, bytes: Cow::Owned(bytes) }
}

#[test]
fn stored_levels_are_laid_out_as_they_are_given() {
    let levels = [level(vec![1, 2, 3], 30), level(vec![4, 5], 20)];
    let bytes = assemble(&header(), &[9, 9], &[8, 8, 8, 8], &[7], &levels).unwrap();
    let parsed = Header::from_bytes(&bytes).unwrap();
    assert_eq!(parsed.level_count, 2);
    assert_eq!((parsed.index.dfd_byte_offset, parsed.index.dfd_byte_length), (128, 2));
    assert_eq!((parsed.index.kvd_byte_offset, parsed.index.kvd_byte_length), (130, 4));
    assert_eq!((parsed.index.sgd_byte_offset, parsed.index.sgd_byte_length), (134, 1));
    assert_eq!(
        LevelIndexEntry::from_bytes(&bytes, 80),
        LevelIndexEntry { byte_offset: 135, byte_length: 3, uncompressed_byte_length: 30 }
    );
    assert_eq!(
        LevelIndexEntry::from_bytes(&bytes, 104),
        LevelIndexEntry { byte_offset: 138, byte_length: 2, uncompressed_byte_length: 20 }
    );
    assert_eq!(&bytes[128..], &[9, 9, 8, 8, 8, 8, 7, 1, 2, 3, 4, 5]);
}

#[test]
fn empty_metadata_is_recorded_at_offset_zero() {
    let bytes = assemble(&header(), &[9, 9], &[], &[7], &[]).unwrap();
    let parsed = Header::from_bytes(&bytes).unwrap();
    assert_eq!((parsed.index.kvd_byte_offset, parsed.index.kvd_byte_length), (0, 0));
    assert_eq!((parsed.index.sgd_byte_offset, parsed.index.sgd_byte_length), (82, 1));
    assert_eq!(&bytes[80..], &[9, 9, 7]);
}

#[test]
fn offsets_are_planned_from_the_first_level_to_the_last() {
    let levels = [level(vec![0; 10], 0), level(vec![0; 5], 0), level(vec![], 0), level(vec![0; 1], 0)];
    let entries = plan_levels(1000, &levels).unwrap();
    let offsets: Vec<u64> = entries.iter().map(|entry| entry.byte_offset).collect();
    assert_eq!(offsets, vec![1000, 1010, 1015, 1015]);
    assert_eq!(plan_levels(u64::MAX - 15, &levels).err(), Some(Error::ContainerTooLarge));
    assert_eq!(plan_levels(u64::MAX - 16, &levels).map(|entries| entries.len()), Ok(4));
    assert_eq!(plan_levels(u64::MAX, &[]).map(|entries| entries.len()), Ok(0));
}

#[test]
fn sections_are_planned_from_their_lengths() {
    let (laid_out, start) = plan_sections(&header(), 3, 10, 20, 30).unwrap();
    assert_eq!(laid_out.level_count, 3);
    assert_eq!(laid_out.format, Format::new(145));
    assert_eq!((laid_out.index.dfd_byte_offset, laid_out.index.dfd_byte_length), (152, 10));
    assert_eq!((laid_out.index.kvd_byte_offset, laid_out.index.kvd_byte_length), (162, 20));
    assert_eq!((laid_out.index.sgd_byte_offset, laid_out.index.sgd_byte_length), (182, 30));
    assert_eq!(start, 212);
    let (laid_out, start) = plan_sections(&header(), 0, 0, 0, 0).unwrap();
    assert_eq!((laid_out.index.dfd_byte_offset, laid_out.index.kvd_byte_offset, laid_out.index.sgd_byte_offset), (80, 0, 0));
    assert_eq!(start, 80);
}

#[test]
fn numbers_that_do_not_fit_their_fields_are_refused() {
    if usize::BITS < 64 {
        return;
    }
    let limit = u32::MAX as usize;
    let too_large = |levels, dfd, kvd, sgd| plan_sections(&header(), levels, dfd, kvd, sgd).err() == Some(Error::ContainerTooLarge);
    assert!(too_large(limit + 1, 0, 0, 0));
    // 80 + 24 * 178956968 is the first offset past 32 bits.
    assert!(too_large(178956968, 0, 0, 0));
    assert!(!too_large(178956967, 0, 0, 0));
    assert!(too_large(0, limit + 1, 0, 0));
    assert!(!too_large(0, limit, 0, 0));
    assert!(too_large(0, 0, limit + 1, 0));
    assert!(!too_large(0, 0, limit, 0));
    // With metadata the end of the descriptor has to fit 32 bits as well.
    assert!(too_large(0, limit - 79, 1, 0));
    assert!(!too_large(0, limit - 80, 1, 0));
    assert!(!too_large(0, limit - 79, 0, 1));
    assert!(too_large(0, 0, 0, usize::MAX - 79));
    assert!(!too_large(0, 0, 0, usize::MAX - 80));
}
