//! The data format descriptor: a total size, then descriptor blocks that
//! each open with a header of eight bytes.

use crate::bytes::{le32_value, read_le32};
use vstd::prelude::*;

verus! {

/// What the header of a descriptor block says of its block.
#[derive(Clone, Copy, Debug, PartialEq, Eq, Structural)]
pub struct DescriptorBlock {
    /// The vendor, from the low 17 bits of the first word.
    pub vendor_id: u32,
    /// The descriptor type, from the high 15 bits of the first word.
    pub descriptor_type: u32,
    /// The version of the descriptor.
    pub version_number: u16,
    /// The size of the block, its header included.
    pub block_size: u16,
}

/// The header that the eight bytes at the start of `s` hold.
pub open spec fn block_header(s: Seq<u8>) -> DescriptorBlock {
    let word = le32_value(s.subrange(0, 4));
    DescriptorBlock {
        vendor_id: (word % 0x2_0000) as u32,
        descriptor_type: (word / 0x2_0000) as u32,
        version_number: (s[4] + 256 * s[5]) as u16,
        block_size: (s[6] + 256 * s[7]) as u16,
    }
}

/// The blocks that follow one another from the start of `s`: the list ends
/// before a block whose header is cut short, whose size is smaller than its
/// header, or which is cut short itself.
pub open spec fn blocks_from(s: Seq<u8>) -> Seq<DescriptorBlock>
    decreases s.len(),
{
    if s.len() < 8 {
        Seq::empty()
    } else {
        let header = block_header(s);
        if header.block_size < 8 || header.block_size > s.len() {
            Seq::empty()
        } else {
            seq![header] + blocks_from(s.skip(header.block_size as int))
        }
    }
}

/// The blocks of a data format descriptor: those that follow its total
/// size, which takes the first four bytes.
pub open spec fn descriptor_blocks(dfd: Seq<u8>) -> Seq<DescriptorBlock> {
    if dfd.len() < 4 {
        Seq::empty()
    } else {
        blocks_from(dfd.skip(4))
    }
}

/// Lists the descriptor blocks of a data format descriptor.
pub fn read_descriptor_blocks(dfd: &[u8]) -> (blocks: Vec<DescriptorBlock>)
    ensures
        blocks@ == descriptor_blocks(dfd@),
{
    let mut blocks: Vec<DescriptorBlock> = Vec::new();
    if dfd.len() < 4 {
        return blocks;
    }
    let mut at: usize = 4;
    loop
        invariant
            4 <= at <= dfd.len(),
            descriptor_blocks(dfd@) == blocks@ + blocks_from(dfd@.skip(at as int)),
        ensures
            descriptor_blocks(dfd@) == blocks@,
        decreases dfd.len() - at,
    {
        let ghost rest = dfd@.skip(at as int);
        if dfd.len() - at < 8 {
            assert(blocks@ + Seq::<DescriptorBlock>::empty() =~= blocks@);
            break;
        }
        let word = read_le32(dfd, at);
        let header = DescriptorBlock {
            vendor_id: word % 0x2_0000,
            descriptor_type: word / 0x2_0000,
            version_number: dfd[at + 4] as u16 + 256 * (dfd[at + 5] as u16),
            block_size: dfd[at + 6] as u16 + 256 * (dfd[at + 7] as u16),
        };
        proof {
            assert(rest.subrange(0, 4) =~= dfd@.subrange(at as int, at + 4));
            assert(header == block_header(rest));
        }
        if header.block_size < 8 || header.block_size as usize > dfd.len() - at {
            assert(blocks@ + Seq::<DescriptorBlock>::empty() =~= blocks@);
            break;
        }
        proof {
            assert(rest.skip(header.block_size as int) =~= dfd@.skip(at + header.block_size));
            assert(blocks@ + (seq![header] + blocks_from(rest.skip(header.block_size as int)))
                =~= blocks@.push(header) + blocks_from(rest.skip(header.block_size as int)));
        }
        blocks.push(header);
        at = at + header.block_size as usize;
    }
    blocks
}

} // verus!
