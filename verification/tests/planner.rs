use ktx2_tools::planner::{
    block_chain_length, blocks_across, dimension_at_level, payload_length, plan_mip_chain, LevelSize,
};

fn sizes(width: u32, height: u32, floor: u32) -> Vec<(u32, u32)> {
    plan_mip_chain(width, height, floor)
        .iter()
        .map(|size: &LevelSize| (size.width, size.height))
        .collect()
}

fn log2_floor(n: u32) -> u32 {
    31 - n.leading_zeros()
}

#[test]
fn a_cubemap_of_32_by_32_has_four_block_levels() {
    assert_eq!(sizes(32, 32, 4), vec![(32, 32), (16, 16), (8, 8), (4, 4)]);
    let expected = [6 * 32 * 32 * 4u64, 6 * 16 * 16 * 4, 6 * 8 * 8 * 4, 6 * 4 * 4 * 4];
    for (size, length) in plan_mip_chain(32, 32, 4).iter().zip(expected) {
        assert_eq!(payload_length(6, size.width, size.height, 4), Some(length));
    }
}

#[test]
fn chains_halve_until_the_floor() {
    assert_eq!(sizes(16, 16, 4), vec![(16, 16), (8, 8), (4, 4)]);
    assert_eq!(sizes(4, 4, 4), vec![(4, 4)]);
    assert_eq!(sizes(8, 8, 1), vec![(8, 8), (4, 4), (2, 2), (1, 1)]);
    assert_eq!(sizes(1, 1, 1), vec![(1, 1)]);
    assert_eq!(sizes(64, 16, 4), vec![(64, 16), (32, 8), (16, 4)]);
    assert_eq!(sizes(16, 64, 4), vec![(16, 64), (8, 32), (4, 16)]);
    assert_eq!(sizes(7, 9, 1), vec![(7, 9), (3, 4), (1, 2)]);
    assert_eq!(sizes(100, 60, 4), vec![(100, 60), (50, 30), (25, 15), (12, 7)]);
    assert_eq!(sizes(10, 10, 3), vec![(10, 10), (5, 5)]);
}

#[test]
fn small_bases_are_raised_to_the_floor() {
    assert_eq!(sizes(1, 1, 4), vec![(4, 4)]);
    assert_eq!(sizes(0, 0, 4), vec![(4, 4)]);
    assert_eq!(sizes(2, 100, 4), vec![(4, 100)]);
    assert_eq!(sizes(100, 3, 4), vec![(100, 4)]);
    assert_eq!(sizes(0, 0, 1), vec![(1, 1)]);
}

#[test]
fn a_floor_of_zero_counts_as_one() {
    assert_eq!(sizes(4, 4, 0), vec![(4, 4), (2, 2), (1, 1)]);
    assert_eq!(sizes(0, 5, 0), vec![(1, 5)]);
}

#[test]
fn block_chains_are_one_shorter_than_the_logarithm() {
    for width in 0..70u32 {
        for height in 0..70u32 {
            let chain = plan_mip_chain(width, height, 4);
            let least = width.min(height);
            let expected = if least >= 4 { log2_floor(least) - 1 } else { 1 };
            assert_eq!(chain.len() as u32, expected);
            assert_eq!(block_chain_length(width, height), expected);
            assert!(chain.iter().all(|size| size.width >= 4 && size.height >= 4));
        }
    }
    assert_eq!(block_chain_length(1 << 20, 1 << 31), 19);
    assert_eq!(block_chain_length(u32::MAX, u32::MAX), 30);
    assert_eq!(plan_mip_chain(u32::MAX, u32::MAX, 4).len(), 30);
    assert_eq!(plan_mip_chain(u32::MAX, u32::MAX, 1).len(), 32);
}

#[test]
fn level_dimensions() {
    assert_eq!(dimension_at_level(256, 0, 1), 256);
    assert_eq!(dimension_at_level(256, 3, 1), 32);
    assert_eq!(dimension_at_level(256, 8, 1), 1);
    assert_eq!(dimension_at_level(256, 9, 1), 1);
    assert_eq!(dimension_at_level(256, 200, 1), 1);
    assert_eq!(dimension_at_level(256, 7, 4), 4);
    assert_eq!(dimension_at_level(100, 2, 4), 25);
    assert_eq!(dimension_at_level(5, 1, 0), 2);
    assert_eq!(dimension_at_level(5, 3, 0), 0);
    assert_eq!(dimension_at_level(u32::MAX, 31, 1), 1);
    assert_eq!(dimension_at_level(u32::MAX, 32, 1), 1);
}

#[test]
fn payload_lengths() {
    assert_eq!(payload_length(1, 16, 16, 4), Some(1024));
    assert_eq!(payload_length(6, 32, 32, 16), Some(98304));
    assert_eq!(payload_length(0, 32, 32, 16), Some(0));
    assert_eq!(payload_length(1, u32::MAX, u32::MAX, 1), Some(18446744065119617025));
    assert_eq!(payload_length(1, u32::MAX, u32::MAX, 2), None);
    assert_eq!(payload_length(u32::MAX, u32::MAX, u32::MAX, u32::MAX), None);
}

#[test]
fn blocks_cover_the_texels() {
    assert_eq!(blocks_across(0), 1);
    assert_eq!(blocks_across(1), 1);
    assert_eq!(blocks_across(4), 1);
    assert_eq!(blocks_across(5), 2);
    assert_eq!(blocks_across(16), 4);
    assert_eq!(blocks_across(u32::MAX), 1 << 30);
}
