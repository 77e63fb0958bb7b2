use ktx2_tools::blocks::{pad_to_blocks, rounded_up};
use ktx2_tools::encode::{bc6h_level, bc7_level, encode, BlockFormat};
use ktx2_tools::error::Error;
use ktx2_tools::planner::LevelSize;

fn gradient(width: u32, height: u32) -> Vec<u8> {
    let mut texels = Vec::new();
    for y in 0..height {
        for x in 0..width {
            texels.extend_from_slice(&[(x * 16) as u8, (y * 16) as u8, ((x + y) * 8) as u8, 255]);
        }
    }
    texels
}

// Half-precision texels: 1.0 is 0x3C00, 0.5 is 0x3800.
fn half_texels(count: usize, red: u16) -> Vec<u8> {
    let mut texels = Vec::new();
    for _ in 0..count {
        for channel in [red, 0x3800, 0x3400, 0x3C00] {
            texels.extend_from_slice(&channel.to_le_bytes());
        }
    }
    texels
}

#[test]
fn images_are_padded_by_repeating_their_edges() {
    assert_eq!(
        pad_to_blocks(&[1, 2, 3, 4], 2, 2, 1),
        vec![1, 2, 2, 2, 3, 4, 4, 4, 3, 4, 4, 4, 3, 4, 4, 4]
    );
    assert_eq!(
        pad_to_blocks(&[1, 10, 2, 20, 3, 30, 4, 40, 5, 50], 5, 1, 2).len(),
        2 * 8 * 4
    );
    assert_eq!(
        pad_to_blocks(&[1, 10, 2, 20, 3, 30, 4, 40, 5, 50], 5, 1, 2)[..16],
        [1, 10, 2, 20, 3, 30, 4, 40, 5, 50, 5, 50, 5, 50, 5, 50]
    );
    let whole = gradient(4, 8);
    assert_eq!(pad_to_blocks(&whole, 4, 8, 4), whole);
    // Bytes behind the last texel are not looked at.
    assert_eq!(pad_to_blocks(&[7, 8, 9], 1, 1, 1), vec![7; 16]);
}

#[test]
fn sizes_are_rounded_up_to_whole_blocks() {
    assert_eq!(rounded_up(0), 0);
    assert_eq!(rounded_up(1), 4);
    assert_eq!(rounded_up(4), 4);
    assert_eq!(rounded_up(5), 8);
    assert_eq!(rounded_up(u32::MAX), 1 << 32);
}

#[test]
fn sixteen_texels_become_sixteen_bytes() {
    for format in [BlockFormat::Bc7Opaque, BlockFormat::Bc7Alpha] {
        let block = encode(format, &gradient(4, 4), 4, 4).unwrap();
        assert_eq!(block.len(), 16);
        assert_eq!(encode(format, &gradient(8, 8), 8, 8).unwrap().len(), 64);
        assert_eq!(encode(format, &gradient(8, 4), 8, 4).unwrap().len(), 32);
        assert_eq!(encode(format, &gradient(16, 16), 16, 16).unwrap().len(), 256);
        assert_ne!(encode(format, &[255; 64], 4, 4).unwrap(), encode(format, &[0; 64], 4, 4).unwrap());
    }
    let floats = half_texels(16, 0x3C00);
    assert_eq!(floats.len(), 128);
    let block = encode(BlockFormat::Bc6h, &floats, 4, 4).unwrap();
    assert_eq!(block.len(), 16);
    assert_ne!(block, encode(BlockFormat::Bc6h, &half_texels(16, 0), 4, 4).unwrap());
    assert_eq!(encode(BlockFormat::Bc6h, &half_texels(64, 0x3C00), 8, 8).unwrap().len(), 64);
    assert_eq!(BlockFormat::Bc6h.bytes_per_texel(), 8);
    assert_eq!(BlockFormat::Bc7Alpha.bytes_per_texel(), 4);
}

#[test]
fn an_image_of_one_colour_is_packed_block_by_block() {
    let one = encode(BlockFormat::Bc7Opaque, &[200; 64], 4, 4).unwrap();
    let four = encode(BlockFormat::Bc7Opaque, &[200; 256], 8, 8).unwrap();
    for i in 0..4 {
        assert_eq!(&four[16 * i..16 * i + 16], &one[..]);
    }
}

#[test]
fn images_that_are_no_whole_blocks_are_packed_as_their_padded_form() {
    for (width, height) in [(5u32, 5u32), (1, 1), (7, 2), (4, 9)] {
        let image = gradient(width, height);
        let padded = pad_to_blocks(&image, width, height, 4);
        let columns = rounded_up(width) as u32;
        let rows = rounded_up(height) as u32;
        let blocks = encode(BlockFormat::Bc7Alpha, &image, width, height).unwrap();
        assert_eq!(blocks.len() as u32, columns * rows);
        assert_eq!(blocks, encode(BlockFormat::Bc7Alpha, &padded, columns, rows).unwrap());
    }
}

#[test]
fn an_image_without_texels_has_no_blocks() {
    assert_eq!(encode(BlockFormat::Bc7Opaque, &[], 0, 0), Ok(vec![]));
    assert_eq!(encode(BlockFormat::Bc7Opaque, &[1, 2, 3], 0, 7), Ok(vec![]));
    assert_eq!(encode(BlockFormat::Bc6h, &[], u32::MAX, 0), Ok(vec![]));
}

#[test]
fn an_image_with_too_few_bytes_is_refused() {
    assert_eq!(encode(BlockFormat::Bc7Opaque, &[0; 63], 4, 4), Err(Error::TruncatedContainer));
    assert_eq!(encode(BlockFormat::Bc6h, &[0; 127], 4, 4), Err(Error::TruncatedContainer));
    assert_eq!(encode(BlockFormat::Bc6h, &[], u32::MAX, u32::MAX), Err(Error::TruncatedContainer));
    assert_eq!(encode(BlockFormat::Bc7Alpha, &[0; 3], 1, 1), Err(Error::TruncatedContainer));
    assert_eq!(encode(BlockFormat::Bc7Alpha, &[0; 4], 1, 1).map(|blocks| blocks.len()), Ok(16));
}

#[test]
fn a_level_is_resized_before_it_is_packed() {
    let size = |width, height| LevelSize { width, height };
    let plain = vec![90u8; 8 * 8 * 4];
    let quarter = bc7_level(&plain, 8, 8, size(4, 4), false).unwrap();
    assert_eq!(quarter, encode(BlockFormat::Bc7Opaque, &[90; 64], 4, 4).unwrap());
    let same = bc7_level(&gradient(8, 8), 8, 8, size(8, 8), true).unwrap();
    assert_eq!(same, encode(BlockFormat::Bc7Alpha, &gradient(8, 8), 8, 8).unwrap());
    assert_eq!(bc7_level(&gradient(16, 16), 16, 16, size(8, 4), true).unwrap().len(), 32);
    assert_eq!(bc7_level(&gradient(3, 3), 3, 3, size(4, 4), false).unwrap().len(), 16);
    assert_eq!(bc7_level(&gradient(10, 6), 10, 6, size(5, 3), false).unwrap().len(), 32);
}

#[test]
fn resizing_takes_in_the_whole_image() {
    let size = |width, height| LevelSize { width, height };
    // Two dark rows above six bright ones.
    let mut image = vec![0u8; 2 * 8 * 4];
    image.extend_from_slice(&[255u8; 6 * 8 * 4]);
    let level = bc7_level(&image, 8, 8, size(4, 4), false).unwrap();
    let dark = encode(BlockFormat::Bc7Opaque, &[0; 64], 4, 4).unwrap();
    let bright = encode(BlockFormat::Bc7Opaque, &[255; 64], 4, 4).unwrap();
    assert_eq!(level.len(), 16);
    assert_ne!(level, dark);
    assert_ne!(level, bright);
    // Turned upside down, the image gives another level.
    let mut turned = vec![255u8; 6 * 8 * 4];
    turned.extend_from_slice(&[0u8; 2 * 8 * 4]);
    assert_ne!(level, bc7_level(&turned, 8, 8, size(4, 4), false).unwrap());
}

#[test]
fn a_level_that_cannot_be_resized_is_refused() {
    let size = |width, height| LevelSize { width, height };
    let image = gradient(4, 4);
    assert_eq!(bc7_level(&image, 0, 4, size(4, 4), false), Err(Error::TruncatedContainer));
    assert_eq!(bc7_level(&image, 4, 4, size(4, 0), false), Err(Error::TruncatedContainer));
    assert_eq!(bc7_level(&image, 4, 5, size(4, 4), false), Err(Error::TruncatedContainer));
    assert_eq!(bc7_level(&image, 65537, 4, size(4, 4), false), Err(Error::ContainerTooLarge));
    assert_eq!(bc7_level(&image, 4, 4, size(4, 65537), false), Err(Error::ContainerTooLarge));
    assert_eq!(bc7_level(&image, 0, 4, size(4, 65537), false), Err(Error::TruncatedContainer));
}

#[test]
fn the_faces_of_a_cubemap_are_packed_one_by_one() {
    let faces: Vec<Vec<u8>> = (0..6u16).map(|face| half_texels(16, 0x3000 + 0x200 * face)).collect();
    let level = faces.concat();
    let blocks = bc6h_level(&level, 4, 4, 6).unwrap();
    assert_eq!(blocks.len(), 96);
    for (i, face) in faces.iter().enumerate() {
        assert_eq!(&blocks[16 * i..16 * i + 16], &encode(BlockFormat::Bc6h, face, 4, 4).unwrap()[..]);
    }
    let mut longer = level.clone();
    longer.extend_from_slice(&[1, 2, 3]);
    assert_eq!(bc6h_level(&longer, 4, 4, 6).unwrap(), blocks);
    assert_eq!(bc6h_level(&level, 4, 4, 0), Ok(vec![]));
    assert_eq!(bc6h_level(&level, 0, 4, 6), Ok(vec![]));
    assert_eq!(bc6h_level(&level[..767], 4, 4, 6), Err(Error::TruncatedContainer));
    assert_eq!(bc6h_level(&level, 4, 4, 7), Err(Error::TruncatedContainer));
    assert_eq!(bc6h_level(&level, 4, 4, 3).unwrap().len(), 48);
}
