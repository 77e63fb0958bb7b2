//! Unpacking universal texture data: a level of UASTC blocks is transcoded
//! to BC7 blocks by an outside codec, one sixteen-byte block for another.

use crate::error::Error;
use crate::planner::{block_count, blocks_across};
use vstd::prelude::*;

verus! {

/// The length of a level of `width` by `height` texels in blocks of sixteen
/// bytes that each hold four by four texels.
pub open spec fn slice_length(width: nat, height: nat) -> nat {
    16 * (block_count(width) * block_count(height))
}

/// Whether `basis_universal::LowLevelUastcTranscoder::transcode_slice`
/// accepts `data` as a slice of `blocks_x` by `blocks_y` UASTC blocks that
/// cover `width` by `height` texels and are said to hold alpha or not, when
/// it is asked for BC7 at high quality: it does unless the data is shorter
/// than its blocks or it refuses one of the blocks.
pub uninterp spec fn uastc_accepted(
    data: Seq<u8>,
    blocks_x: u32,
    blocks_y: u32,
    has_alpha: bool,
    width: u32,
    height: u32,
) -> bool;

/// Whether the levels are handed to the codec as holding alpha: they are
/// not, whatever they hold.
pub const WITH_ALPHA: bool = false;

/// Why a level of `width` by `height` texels is not transcoded, if it is
/// not: `ContainerTooLarge` when it takes more bytes than 32 bits can count,
/// `CodecFailed` when it is shorter than its blocks or the codec does not
/// accept it.
pub open spec fn level_refusal(level: Seq<u8>, width: u32, height: u32) -> Option<Error> {
    if slice_length(width as nat, height as nat) > u32::MAX {
        Some(Error::ContainerTooLarge)
    } else if level.len() < slice_length(width as nat, height as nat) {
        Some(Error::CodecFailed)
    } else if !uastc_accepted(
        level,
        block_count(width as nat) as u32,
        block_count(height as nat) as u32,
        WITH_ALPHA,
        width,
        height,
    ) {
        Some(Error::CodecFailed)
    } else {
        None
    }
}

/// Transcodes a level of UASTC blocks, `width` by `height` texels large, to
/// BC7 blocks.
///
/// Fails with `ContainerTooLarge` when the level takes more bytes than 32
/// bits can count, and with `CodecFailed` when the level is shorter than its
/// blocks, which the codec is not asked about, or when the codec refuses
/// it, as it does for a block that is not UASTC. Else the level is
/// transcoded, to sixteen bytes for each of its blocks.
pub fn transcode_level(level: &[u8], width: u32, height: u32) -> (result: Result<Vec<u8>, Error>)
    ensures
        match result {
            Ok(bytes) => level_refusal(level@, width, height) is None && bytes@.len()
                == slice_length(width as nat, height as nat),
            Err(e) => level_refusal(level@, width, height) == Some(e),
        },
{
    let blocks_x = blocks_across(width);
    let blocks_y = blocks_across(height);
    assert(blocks_x <= blocks_x * blocks_y <= 0x4000_0000 * 0x4000_0000) by (nonlinear_arith)
        requires
            blocks_x <= 0x4000_0000,
            1 <= blocks_y <= 0x4000_0000,
    ;
    let blocks: u64 = blocks_x as u64 * blocks_y as u64;
    if blocks > (u32::MAX / 16) as u64 {
        return Err(Error::ContainerTooLarge);
    }
    if (level.len() as u64) < 16 * blocks {
        return Err(Error::CodecFailed);
    }
    transcoded(uastc_to_bc7(level, blocks_x, blocks_y, WITH_ALPHA, width, height))
}

/// The outcome of transcoding a level, from what the codec gave back.
pub fn transcoded(outcome: Option<Vec<u8>>) -> (result: Result<Vec<u8>, Error>)
    ensures
        match outcome {
            Some(bytes) => result == Ok::<Vec<u8>, Error>(bytes),
            None => result == Err::<Vec<u8>, Error>(Error::CodecFailed),
        },
{
    match outcome {
        Some(bytes) => Ok(bytes),
        None => Err(Error::CodecFailed),
    }
}

/// `basis_universal::LowLevelUastcTranscoder::transcode_slice` to BC7 at
/// high quality, on a transcoder made for the call. The block format and
/// the quality flag are values of the codec's own types, and so are named
/// here.
///
/// Trusted: bytes come back if and only if the codec accepts the slice, which
/// it decides by the data and the counts alone, and they are sixteen for
/// each block of the slice. What the bytes are is not pinned down: the codec
/// picks among BC7 encodings by floating-point comparisons.
/// The slice is kept to what the call can count in 32 bits, and its rows to
/// no fewer blocks than the width asks for, so that every block is written
/// within the output. The data is as long as the blocks it is said to hold:
/// shorter data is refused by the codec, but only after the output has been
/// allocated.
#[verifier::external_body]
fn uastc_to_bc7(
    data: &[u8],
    blocks_x: u32,
    blocks_y: u32,
    has_alpha: bool,
    width: u32,
    height: u32,
) -> (out: Option<Vec<u8>>)
    requires
        16 * (blocks_x * blocks_y) <= u32::MAX,
        16 * (blocks_x * blocks_y) <= data@.len(),
        width + 3 <= u32::MAX,
        blocks_y <= 1 || (width + 3) / 4 <= blocks_x,
    ensures
        out is Some <==> uastc_accepted(data@, blocks_x, blocks_y, has_alpha, width, height),
        out matches Some(bytes) ==> bytes@.len() == 16 * (blocks_x * blocks_y),
{
    basis_universal::LowLevelUastcTranscoder::new().transcode_slice(
        data,
        basis_universal::SliceParametersUastc {
            num_blocks_x: blocks_x,
            num_blocks_y: blocks_y,
            has_alpha,
            original_width: width,
            original_height: height,
        },
        basis_universal::DecodeFlags::HIGH_QUALITY,
        basis_universal::TranscoderBlockFormat::BC7,
    ).ok()
}

} // verus!
