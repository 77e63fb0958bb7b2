use ktx2_tools::dfd::{read_descriptor_blocks, DescriptorBlock};
use ktx2_tools::header::{Format, WriterHeader};
use ktx2_tools::metadata::Metadata;
use ktx2_tools::writer::Writer;
use std::borrow::Cow;

fn block(vendor_id: u32, descriptor_type: u32, version_number: u16, block_size: u16, data: usize) -> Vec<u8> {
    let mut bytes = Vec::new();
    bytes.extend_from_slice(&(vendor_id | descriptor_type << 17).to_le_bytes());
    bytes.extend_from_slice(&version_number.to_le_bytes());
    bytes.extend_from_slice(&block_size.to_le_bytes());
    bytes.extend_from_slice(&vec![0xEE; data]);
    bytes
}

fn descriptor(blocks: &[Vec<u8>]) -> Vec<u8> {
    let length: usize = 4 + blocks.iter().map(|block| block.len()).sum::<usize>();
    let mut bytes = (length as u32).to_le_bytes().to_vec();
    for block in blocks {
        bytes.extend_from_slice(block);
    }
    bytes
}

#[test]
fn blocks_follow_the_total_size() {
    let dfd = descriptor(&[block(0, 0, 2, 40, 32), block(0x1FFFF, 0x7FFF, 0xABCD, 8, 0), block(5, 1, 7, 9, 1)]);
    assert_eq!(
        read_descriptor_blocks(&dfd),
        vec![
            DescriptorBlock { vendor_id: 0, descriptor_type: 0, version_number: 2, block_size: 40 },
            DescriptorBlock { vendor_id: 0x1FFFF, descriptor_type: 0x7FFF, version_number: 0xABCD, block_size: 8 },
            DescriptorBlock { vendor_id: 5, descriptor_type: 1, version_number: 7, block_size: 9 },
        ]
    );
}

#[test]
fn the_list_ends_before_a_block_that_is_cut_short() {
    assert_eq!(read_descriptor_blocks(&[]), vec![]);
    assert_eq!(read_descriptor_blocks(&[4, 0, 0]), vec![]);
    assert_eq!(read_descriptor_blocks(&[4, 0, 0, 0]), vec![]);
    let whole = descriptor(&[block(1, 0, 2, 12, 4), block(2, 0, 2, 16, 8)]);
    assert_eq!(read_descriptor_blocks(&whole).len(), 2);
    assert_eq!(read_descriptor_blocks(&whole[..whole.len() - 1]).len(), 1);
    assert_eq!(read_descriptor_blocks(&whole[..4 + 12 + 7]).len(), 1);
    assert_eq!(read_descriptor_blocks(&whole[..4 + 11]).len(), 0);
    // A size of zero, or one smaller than the header, ends the list.
    assert_eq!(read_descriptor_blocks(&descriptor(&[block(1, 0, 2, 0, 8), block(2, 0, 2, 8, 0)])).len(), 0);
    assert_eq!(read_descriptor_blocks(&descriptor(&[block(1, 0, 2, 7, 8)])).len(), 0);
    // The sample descriptor of a converted surface holds no whole block.
    assert_eq!(read_descriptor_blocks(&[0x0C, 0, 0, 0, 1, 1, 1, 1, 0, 0, 0, 0]).len(), 0);
}

#[test]
fn an_outside_reader_lists_the_same_blocks() {
    let dfd = descriptor(&[block(0, 0, 2, 40, 32), block(77, 3, 1, 24, 16)]);
    let levels = [Cow::Owned(vec![1u8; 16])];
    let bytes = Writer {
        header: WriterHeader {
            format: Format::new(37),
            type_size: 1,
            pixel_width: 2,
            pixel_height: 2,
            pixel_depth: 0,
            layer_count: 0,
            face_count: 1,
            supercompression_scheme: None,
        },
        dfd_bytes: &dfd,
        key_value_pairs: &Metadata::new(),
        sgd_bytes: &[],
        uncompressed_levels_descending: &levels,
    }
    .write()
    .unwrap();
    let outside: Vec<(u32, u32, u16)> = ktx2::Reader::new(&bytes[..])
        .unwrap()
        .dfd_blocks()
        .map(|block| (block.header.vendor_id, block.header.descriptor_type, block.header.version_number))
        .collect();
    let ours: Vec<(u32, u32, u16)> = read_descriptor_blocks(&dfd)
        .iter()
        .map(|block| (block.vendor_id, block.descriptor_type, block.version_number))
        .collect();
    assert_eq!(ours, outside);
    assert_eq!(ours, vec![(0, 0, 2), (77, 3, 1)]);
}
