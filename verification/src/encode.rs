//! Packing texels into blocks: an image is resized to the size of a level,
//! padded to whole blocks and handed to an outside encoder, which gives back
//! sixteen bytes for each block of four by four texels.

use crate::blocks::{pad_to_blocks, round_up_to_block, rounded_up};
use crate::bytes::append;
use crate::error::Error;
use crate::planner::LevelSize;
use vstd::prelude::*;
use vstd::slice::slice_subrange;

verus! {

/// The largest width or height that an image is resized from or to.
pub const RESIZE_LIMIT: u32 = 65536;

/// The length of the blocks of a `width` by `height` image: one byte for
/// each texel of the padded image, which is sixteen for each block.
pub open spec fn encoded_length(width: nat, height: nat) -> nat {
    round_up_to_block(width) * round_up_to_block(height)
}

/// Whether texels of `size` bytes each are a surface as the encoders expect
/// it: whole blocks, rows that follow one another without a gap, as many
/// bytes as the rows and the height say, and every number within what the
/// encoders count with.
pub open spec fn is_block_surface(length: nat, width: nat, height: nat, size: nat) -> bool {
    &&& width >= 4 && width % 4 == 0
    &&& height >= 4 && height % 4 == 0
    &&& length == size * width * height
    &&& size * width <= i32::MAX
    &&& height <= i32::MAX
    &&& width * height + 15 <= u32::MAX
}

/// Whether the padded image is within what the encoders count with.
pub open spec fn encoding_fits(width: nat, height: nat, size: nat) -> bool {
    &&& size * round_up_to_block(width) <= i32::MAX
    &&& round_up_to_block(height) <= i32::MAX
    &&& round_up_to_block(width) * round_up_to_block(height) + 15 <= u32::MAX
}

/// The encoders that texels can be handed to.
#[derive(Clone, Copy, Debug, PartialEq, Eq, Structural)]
pub enum BlockFormat {
    /// BC7 for images whose texels are all opaque: four bytes for a texel.
    Bc7Opaque,
    /// BC7 for images with alpha: four bytes for a texel.
    Bc7Alpha,
    /// BC6H for images of half-precision floats: eight bytes for a texel.
    Bc6h,
}

impl BlockFormat {
    /// How many bytes a texel takes before it is packed.
    pub open spec fn texel_size(self) -> nat {
        match self {
            BlockFormat::Bc7Opaque => 4,
            BlockFormat::Bc7Alpha => 4,
            BlockFormat::Bc6h => 8,
        }
    }

    /// How many bytes a texel takes before it is packed.
    pub fn bytes_per_texel(&self) -> (size: usize)
        ensures
            size == self.texel_size(),
    {
        match self {
            BlockFormat::Bc7Opaque => 4,
            BlockFormat::Bc7Alpha => 4,
            BlockFormat::Bc6h => 8,
        }
    }
}

/// What packing an image has to give: nothing for an image without texels;
/// `TruncatedContainer` when there are fewer bytes than the texels take;
/// `ContainerTooLarge` when the padded image is beyond what the encoders
/// count with; and else blocks of the length that the padded image asks for.
pub open spec fn is_packed(
    format: BlockFormat,
    texels: Seq<u8>,
    width: u32,
    height: u32,
    result: Result<Vec<u8>, Error>,
) -> bool {
    if width == 0 || height == 0 {
        result matches Ok(blocks) && blocks@.len() == 0
    } else if texels.len() < format.texel_size() * width * height {
        result == Err::<Vec<u8>, Error>(Error::TruncatedContainer)
    } else if !encoding_fits(width as nat, height as nat, format.texel_size()) {
        result == Err::<Vec<u8>, Error>(Error::ContainerTooLarge)
    } else {
        result matches Ok(blocks) && blocks@.len() == encoded_length(width as nat, height as nat)
    }
}

/// Packs an image of `width` by `height` texels into blocks. The image is
/// padded to whole blocks first; bytes behind its last texel are not looked
/// at.
pub fn encode(format: BlockFormat, texels: &[u8], width: u32, height: u32) -> (result: Result<
    Vec<u8>,
    Error,
>)
    ensures
        is_packed(format, texels@, width, height, result),
{
    if width == 0 || height == 0 {
        return Ok(Vec::new());
    }
    let size = format.bytes_per_texel();
    assert(size * width * height <= 8 * 0xFFFF_FFFF * 0xFFFF_FFFF) by (nonlinear_arith)
        requires
            size <= 8,
            width <= 0xFFFF_FFFF,
            height <= 0xFFFF_FFFF,
    ;
    assert(size * width <= 8 * 0xFFFF_FFFF) by (nonlinear_arith)
        requires
            size <= 8,
            width <= 0xFFFF_FFFF,
    ;
    let needed: u128 = (size as u128) * (width as u128) * (height as u128);
    if (texels.len() as u128) < needed {
        return Err(Error::TruncatedContainer);
    }
    let columns = rounded_up(width);
    let rows = rounded_up(height);
    assert(columns * rows <= 0x1_0000_0003 * 0x1_0000_0003) by (nonlinear_arith)
        requires
            columns <= 0x1_0000_0003,
            rows <= 0x1_0000_0003,
    ;
    if size as u64 * columns > i32::MAX as u64 || rows > i32::MAX as u64 || (columns as u128)
        * (rows as u128) + 15 > u32::MAX as u128 {
        return Err(Error::ContainerTooLarge);
    }
    let surface = pad_to_blocks(texels, width, height, size);
    proof {
        assert(size * columns * rows == size * (columns * rows)) by (nonlinear_arith);
    }
    let stride: u32 = (size as u64 * columns) as u32;
    let blocks = match format {
        BlockFormat::Bc7Opaque => bc7_opaque_blocks(
            surface.as_slice(),
            columns as u32,
            rows as u32,
            stride,
        ),
        BlockFormat::Bc7Alpha => bc7_alpha_blocks(
            surface.as_slice(),
            columns as u32,
            rows as u32,
            stride,
        ),
        BlockFormat::Bc6h => bc6h_blocks(surface.as_slice(), columns as u32, rows as u32, stride),
    };
    Ok(blocks)
}

/// Whether an image can be resized: it has texels, before and after, no
/// more than `RESIZE_LIMIT` in either direction, and a byte for each channel
/// of each texel.
pub open spec fn is_resizable(length: nat, width: nat, height: nat, to: LevelSize) -> bool {
    &&& 1 <= width <= RESIZE_LIMIT
    &&& 1 <= height <= RESIZE_LIMIT
    &&& 1 <= to.width <= RESIZE_LIMIT
    &&& 1 <= to.height <= RESIZE_LIMIT
    &&& 4 * width * height <= length
}

/// What packing a level of an image has to give: `TruncatedContainer` when
/// the image or the level has no texels or the image has fewer bytes than
/// its texels take; `ContainerTooLarge` when a dimension is beyond
/// `RESIZE_LIMIT` or the padded level is beyond what the encoder counts
/// with; and else blocks of the length that the padded level asks for.
pub open spec fn is_packed_level(
    image: Seq<u8>,
    width: u32,
    height: u32,
    level: LevelSize,
    result: Result<Vec<u8>, Error>,
) -> bool {
    if width == 0 || height == 0 || level.width == 0 || level.height == 0 {
        result == Err::<Vec<u8>, Error>(Error::TruncatedContainer)
    } else if width > RESIZE_LIMIT || height > RESIZE_LIMIT || level.width > RESIZE_LIMIT
        || level.height > RESIZE_LIMIT {
        result == Err::<Vec<u8>, Error>(Error::ContainerTooLarge)
    } else if image.len() < 4 * width * height {
        result == Err::<Vec<u8>, Error>(Error::TruncatedContainer)
    } else if !encoding_fits(level.width as nat, level.height as nat, 4) {
        result == Err::<Vec<u8>, Error>(Error::ContainerTooLarge)
    } else {
        result matches Ok(blocks) && blocks@.len() == encoded_length(
            level.width as nat,
            level.height as nat,
        )
    }
}

/// Packs one level of an RGBA image with a byte for each channel into BC7
/// blocks: the image is resized to the size of the level with a triangle
/// filter and then packed, with the encoder for images with alpha if
/// `translucent` is set.
pub fn bc7_level(image: &[u8], width: u32, height: u32, level: LevelSize, translucent: bool) -> (result:
    Result<Vec<u8>, Error>)
    ensures
        is_packed_level(image@, width, height, level, result),
{
    if width == 0 || height == 0 || level.width == 0 || level.height == 0 {
        return Err(Error::TruncatedContainer);
    }
    if width > RESIZE_LIMIT || height > RESIZE_LIMIT || level.width > RESIZE_LIMIT || level.height
        > RESIZE_LIMIT {
        return Err(Error::ContainerTooLarge);
    }
    assert(4 * width * height <= 4 * 65536 * 65536) by (nonlinear_arith)
        requires
            width <= 65536,
            height <= 65536,
    ;
    if (image.len() as u64) < 4 * (width as u64) * (height as u64) {
        return Err(Error::TruncatedContainer);
    }
    let resized = resize_rgba8(image, width, height, level);
    let format = if translucent {
        BlockFormat::Bc7Alpha
    } else {
        BlockFormat::Bc7Opaque
    };
    encode(format, resized.as_slice(), level.width, level.height)
}

/// What packing a level of `faces` faces has to give, each face taking an
/// equal part of the level: what packing one face gives, but blocks for all
/// faces, one face after the other.
pub open spec fn is_packed_faces(
    level: Seq<u8>,
    width: u32,
    height: u32,
    faces: nat,
    result: Result<Vec<u8>, Error>,
) -> bool {
    if faces == 0 || width == 0 || height == 0 {
        result matches Ok(blocks) && blocks@.len() == 0
    } else if level.len() / faces < 8 * width * height {
        result == Err::<Vec<u8>, Error>(Error::TruncatedContainer)
    } else if !encoding_fits(width as nat, height as nat, 8) {
        result == Err::<Vec<u8>, Error>(Error::ContainerTooLarge)
    } else {
        result matches Ok(blocks) && blocks@.len() == faces * encoded_length(
            width as nat,
            height as nat,
        )
    }
}

/// Packs a level of half-precision RGBA texels that holds `faces` faces of
/// `width` by `height` texels, one after the other, into BC6H blocks, face
/// by face. Bytes of the level that are left over behind the last face are
/// not looked at.
pub fn bc6h_level(level: &[u8], width: u32, height: u32, faces: usize) -> (result: Result<
    Vec<u8>,
    Error,
>)
    ensures
        is_packed_faces(level@, width, height, faces as nat, result),
{
    let mut blocks: Vec<u8> = Vec::new();
    if faces == 0 || width == 0 || height == 0 {
        return Ok(blocks);
    }
    let part: usize = level.len() / faces;
    let mut face: usize = 0;
    while face < faces
        invariant
            face <= faces,
            faces > 0,
            width > 0,
            height > 0,
            part == level.len() / faces,
            blocks@.len() == face * encoded_length(width as nat, height as nat),
            face > 0 ==> part >= 8 * width * height && encoding_fits(
                width as nat,
                height as nat,
                8,
            ),
        decreases faces - face,
    {
        assert(face * part + part <= level.len()) by (nonlinear_arith)
            requires
                part == level.len() / faces,
                face < faces,
        ;
        let texels = slice_subrange(level, face * part, face * part + part);
        match encode(BlockFormat::Bc6h, texels, width, height) {
            Ok(packed) => {
                proof {
                    assert((face + 1) * encoded_length(width as nat, height as nat) == face
                        * encoded_length(width as nat, height as nat) + encoded_length(
                        width as nat,
                        height as nat,
                    )) by (nonlinear_arith);
                }
                append(&mut blocks, packed.as_slice());
            },
            Err(e) => {
                return Err(e);
            },
        }
        face += 1;
    }
    Ok(blocks)
}

/// `image::imageops::resize` with the triangle filter, on an RGBA image that
/// `image::ImageBuffer::from_raw` makes of the bytes.
///
/// Trusted: what comes back has four bytes for each texel of the new size.
/// The sizes are kept to what the filter's arithmetic holds exactly, and the
/// bytes cover the image, so that there is an image to resize.
#[verifier::external_body]
fn resize_rgba8(image: &[u8], width: u32, height: u32, to: LevelSize) -> (resized: Vec<u8>)
    requires
        is_resizable(image@.len(), width as nat, height as nat, to),
    ensures
        resized@.len() == 4 * to.width * to.height,
{
    let source = image::ImageBuffer::<image::Rgba<u8>, &[u8]>::from_raw(width, height, image).unwrap();
    image::imageops::resize(&source, to.width, to.height, image::imageops::FilterType::Triangle)
        .into_raw()
}

/// `intel_tex_2::bc7::compress_blocks` with the slow settings for opaque
/// images, on a surface whose rows follow one another without a gap.
///
/// Trusted: what comes back is as long as the surface has texels. The
/// surface is one as the encoder's documentation expects it, and `stride`
/// is the length of one of its rows.
#[verifier::external_body]
fn bc7_opaque_blocks(rgba: &[u8], width: u32, height: u32, stride: u32) -> (blocks: Vec<u8>)
    requires
        is_block_surface(rgba@.len(), width as nat, height as nat, 4),
        stride == 4 * width,
    ensures
        blocks@.len() == width * height,
{
    intel_tex_2::bc7::compress_blocks(
        &intel_tex_2::bc7::opaque_slow_settings(),
        &intel_tex_2::RgbaSurface { data: rgba, width, height, stride },
    )
}

/// `intel_tex_2::bc7::compress_blocks` with the slow settings for images
/// with alpha, on a surface whose rows follow one another without a gap.
///
/// Trusted: what comes back is as long as the surface has texels. The
/// surface is one as the encoder's documentation expects it, and `stride`
/// is the length of one of its rows.
#[verifier::external_body]
fn bc7_alpha_blocks(rgba: &[u8], width: u32, height: u32, stride: u32) -> (blocks: Vec<u8>)
    requires
        is_block_surface(rgba@.len(), width as nat, height as nat, 4),
        stride == 4 * width,
    ensures
        blocks@.len() == width * height,
{
    intel_tex_2::bc7::compress_blocks(
        &intel_tex_2::bc7::alpha_slow_settings(),
        &intel_tex_2::RgbaSurface { data: rgba, width, height, stride },
    )
}

/// `intel_tex_2::bc6h::compress_blocks` with the very slow settings, on a
/// surface of half-precision texels whose rows follow one another without a
/// gap.
///
/// Trusted: what comes back is as long as the surface has texels. The
/// surface is one as the encoder's documentation expects it, and `stride`
/// is the length of one of its rows.
#[verifier::external_body]
fn bc6h_blocks(texels: &[u8], width: u32, height: u32, stride: u32) -> (blocks: Vec<u8>)
    requires
        is_block_surface(texels@.len(), width as nat, height as nat, 8),
        stride == 8 * width,
    ensures
        blocks@.len() == width * height,
{
    intel_tex_2::bc6h::compress_blocks(
        &intel_tex_2::bc6h::very_slow_settings(),
        &intel_tex_2::RgbaSurface { data: texels, width, height, stride },
    )
}

} // verus!
