//! Texels for block compression: an image is padded to whole blocks of four
//! by four texels by repeating the texels at its edges.

use crate::bytes::append;
use vstd::prelude::*;
use vstd::slice::slice_subrange;

verus! {

/// The next multiple of four at or above `x`.
pub open spec fn round_up_to_block(x: nat) -> nat {
    (x + 3) / 4 * 4
}

/// The place `i`, or the last of `count` places if `i` lies behind them.
pub open spec fn clamped(i: nat, count: nat) -> nat {
    if i < count {
        i
    } else {
        (count - 1) as nat
    }
}

/// The bytes of the texel in column `x` of row `y`, in an image that is
/// `width` texels wide and takes `size` bytes for each texel.
pub open spec fn texel_at(texels: Seq<u8>, width: nat, size: nat, x: nat, y: nat) -> Seq<u8> {
    texels.subrange(((y * width + x) * size) as int, ((y * width + x) * size + size) as int)
}

/// The first `columns` texels of row `y`, the last texel of the row standing
/// in for those that lie behind it.
pub open spec fn padded_row(
    texels: Seq<u8>,
    width: nat,
    size: nat,
    y: nat,
    columns: nat,
) -> Seq<u8>
    decreases columns,
{
    if columns == 0 {
        Seq::empty()
    } else {
        padded_row(texels, width, size, y, (columns - 1) as nat) + texel_at(
            texels,
            width,
            size,
            clamped((columns - 1) as nat, width),
            y,
        )
    }
}

/// The first `rows` rows of the padded image, the last row of the image
/// standing in for those that lie behind it.
pub open spec fn padded_rows(
    texels: Seq<u8>,
    width: nat,
    height: nat,
    size: nat,
    rows: nat,
) -> Seq<u8>
    decreases rows,
{
    if rows == 0 {
        Seq::empty()
    } else {
        padded_rows(texels, width, height, size, (rows - 1) as nat) + padded_row(
            texels,
            width,
            size,
            clamped((rows - 1) as nat, height),
            round_up_to_block(width),
        )
    }
}

/// The image padded to whole blocks.
pub open spec fn padded(texels: Seq<u8>, width: nat, height: nat, size: nat) -> Seq<u8> {
    padded_rows(texels, width, height, size, round_up_to_block(height))
}

/// The next multiple of four at or above `x`.
pub fn rounded_up(x: u32) -> (rounded: u64)
    ensures
        rounded == round_up_to_block(x as nat),
        x <= rounded <= x + 3,
        rounded % 4 == 0,
{
    (x as u64 + 3) / 4 * 4
}

/// Pads an image of `width` by `height` texels of `size` bytes each to whole
/// blocks: texels behind the last column repeat the last texel of their row,
/// rows behind the last row repeat the last row.
pub fn pad_to_blocks(texels: &[u8], width: u32, height: u32, size: usize) -> (out: Vec<u8>)
    requires
        width >= 1,
        height >= 1,
        size >= 1,
        size * width * height <= texels.len(),
    ensures
        out@ == padded(texels@, width as nat, height as nat, size as nat),
        out@.len() == size * round_up_to_block(width as nat) * round_up_to_block(height as nat),
{
    let columns = rounded_up(width);
    let rows = rounded_up(height);
    let mut out: Vec<u8> = Vec::new();
    let mut y: u64 = 0;
    while y < rows
        invariant
            y <= rows,
            width >= 1,
            height >= 1,
            size >= 1,
            columns == round_up_to_block(width as nat),
            size * width * height <= texels.len(),
            out@ == padded_rows(texels@, width as nat, height as nat, size as nat, y as nat),
            out@.len() == size * columns * y,
        decreases rows - y,
    {
        let row: u64 = if y < height as u64 {
            y
        } else {
            height as u64 - 1
        };
        let ghost before = out@;
        let mut x: u64 = 0;
        while x < columns
            invariant
                x <= columns,
                width >= 1,
                size >= 1,
                row < height,
                size * width * height <= texels.len(),
                out@ == before + padded_row(
                    texels@,
                    width as nat,
                    size as nat,
                    row as nat,
                    x as nat,
                ),
                out@.len() == before.len() + size * x,
            decreases columns - x,
        {
            let column: u64 = if x < width as u64 {
                x
            } else {
                width as u64 - 1
            };
            proof {
                lemma_texel_lies_within(
                    width as nat,
                    height as nat,
                    size as nat,
                    column as nat,
                    row as nat,
                );
                assert(size * (x + 1) == size * x + size) by (nonlinear_arith);
                assert(row * width + column <= size * (row * width + column)) by (nonlinear_arith)
                    requires
                        size >= 1,
                ;
                assert(row * width <= 0xFFFF_FFFF * 0xFFFF_FFFF) by (nonlinear_arith)
                    requires
                        row <= 0xFFFF_FFFF,
                        width <= 0xFFFF_FFFF,
                ;
            }
            let start: usize = ((row * width as u64 + column) as usize) * size;
            append(&mut out, slice_subrange(texels, start, start + size));
            x += 1;
        }
        proof {
            assert(size * columns * (y + 1) == size * columns * y + size * columns)
                by (nonlinear_arith);
        }
        y += 1;
    }
    out
}

/// A texel of the image lies within the bytes of the image.
pub proof fn lemma_texel_lies_within(width: nat, height: nat, size: nat, x: nat, y: nat)
    requires
        x < width,
        y < height,
    ensures
        y * width + x < width * height,
        (y * width + x) * size + size <= size * width * height,
        (y * width + x) * size == size * (y * width + x),
{
    assert(y * width + x < width * height) by (nonlinear_arith)
        requires
            x < width,
            y < height,
    ;
    assert((y * width + x) * size + size <= size * width * height) by (nonlinear_arith)
        requires
            y * width + x + 1 <= width * height,
    ;
    assert((y * width + x) * size == size * (y * width + x)) by (nonlinear_arith);
}

} // verus!
