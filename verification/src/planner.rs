//! The mip chain: the pixel dimensions of each level, from the base level
//! down to the smallest that a format can hold.

use vstd::prelude::*;

verus! {

/// The pixel dimensions of one mip level.
#[derive(Clone, Copy, Debug, PartialEq, Eq, Structural)]
pub struct LevelSize {
    pub width: u32,
    pub height: u32,
}

/// `x` halved `times` times, each time rounding down.
pub open spec fn halved(x: nat, times: nat) -> nat
    decreases times,
{
    if times == 0 {
        x
    } else {
        halved(x, (times - 1) as nat) / 2
    }
}

/// The larger of two numbers.
pub open spec fn at_least(x: nat, floor: nat) -> nat {
    if x < floor {
        floor
    } else {
        x
    }
}

/// How many levels a chain has that starts at `width` by `height` and halves
/// both until one of them is below `floor`.
pub open spec fn chain_length(width: nat, height: nat, floor: nat) -> nat
    decreases width,
{
    if floor == 0 || width < floor || height < floor {
        0
    } else {
        1 + chain_length(width / 2, height / 2, floor)
    }
}

/// How often `n` can be halved before it reaches one: the whole part of its
/// binary logarithm, and zero for zero.
pub open spec fn log2_floor(n: nat) -> nat
    decreases n,
{
    if n <= 1 {
        0
    } else {
        1 + log2_floor(n / 2)
    }
}

/// The floor that is planned with: a floor of zero counts as one.
pub open spec fn effective_floor(floor: nat) -> nat {
    at_least(floor, 1)
}

/// The mip chain of a `width` by `height` texture whose levels must not be
/// smaller than `floor` in either direction: the base level raised to the
/// floor, then every halving of it that stays at or above the floor.
pub open spec fn mip_chain(width: nat, height: nat, floor: nat) -> Seq<(nat, nat)> {
    let f = effective_floor(floor);
    let w = at_least(width, f);
    let h = at_least(height, f);
    Seq::new(chain_length(w, h, f), |i: int| (halved(w, i as nat), halved(h, i as nat)))
}

/// Halving once more halves the halved.
pub proof fn lemma_halved_step(x: nat, times: nat)
    ensures
        halved(x, times + 1) == halved(x, times) / 2,
        halved(x / 2, times) == halved(x, times + 1),
    decreases times,
{
    if times > 0 {
        lemma_halved_step(x, (times - 1) as nat);
    }
}

/// A chain goes on exactly as long as both dimensions stay at or above the
/// floor.
pub proof fn lemma_chain_members(width: nat, height: nat, floor: nat, i: nat)
    requires
        floor >= 1,
    ensures
        i < chain_length(width, height, floor) ==> halved(width, i) >= floor && halved(height, i)
            >= floor,
        i == chain_length(width, height, floor) ==> halved(width, i) < floor || halved(height, i)
            < floor,
    decreases i,
{
    if width >= floor && height >= floor {
        if i > 0 {
            lemma_chain_members(width / 2, height / 2, floor, (i - 1) as nat);
            lemma_halved_step(width, (i - 1) as nat);
            lemma_halved_step(height, (i - 1) as nat);
        }
    }
}

/// With a floor of four, a chain on dimensions of at least four is one
/// shorter than the binary logarithm of the smaller dimension.
pub proof fn lemma_block_chain_length(width: nat, height: nat)
    requires
        width >= 4,
        height >= 4,
    ensures
        chain_length(width, height, 4) == log2_floor(if width < height {
            width
        } else {
            height
        }) - 1,
    decreases width,
{
    let least = if width < height {
        width
    } else {
        height
    };
    assert(log2_floor(least) == 1 + log2_floor(least / 2));
    assert(log2_floor(least / 2) == 1 + log2_floor(least / 2 / 2));
    if least < 8 {
        assert(least / 2 / 2 == 1);
        assert(log2_floor(1) == 0);
        assert(width / 2 < 4 || height / 2 < 4);
        assert(chain_length(width / 2, height / 2, 4) == 0);
    } else {
        lemma_block_chain_length(width / 2, height / 2);
    }
}

/// With a floor of four the chain of a `width` by `height` texture has one
/// level less than the binary logarithm of its smaller dimension, though
/// never less than one level, and no level is smaller than four in either
/// direction.
pub proof fn law_block_chain(width: nat, height: nat)
    ensures
        ({
            let least = if width < height {
                width
            } else {
                height
            };
            let chain = mip_chain(width, height, 4);
            &&& chain.len() == if log2_floor(least) >= 2 {
                log2_floor(least) - 1
            } else {
                1
            }
            &&& forall|i: int| 0 <= i < chain.len() ==> (#[trigger] chain[i]).0 >= 4 && chain[i].1 >= 4
        }),
{
    let least = if width < height {
        width
    } else {
        height
    };
    let w = at_least(width, 4);
    let h = at_least(height, 4);
    lemma_block_chain_length(w, h);
    if least < 4 {
        assert(log2_floor(4) == 1 + log2_floor(2));
        assert(log2_floor(2) == 1 + log2_floor(1));
        assert(log2_floor(least) <= 1) by {
            assert(log2_floor(1) == 0);
            if least >= 2 {
                assert(log2_floor(least) == 1 + log2_floor(least / 2));
            }
        }
    } else {
        assert(log2_floor(least) == 1 + log2_floor(least / 2));
        assert(log2_floor(least / 2) == 1 + log2_floor(least / 2 / 2));
    }
    let chain = mip_chain(width, height, 4);
    assert forall|i: int| 0 <= i < chain.len() implies (#[trigger] chain[i]).0 >= 4 && chain[i].1
        >= 4 by {
        lemma_chain_members(w, h, 4, i as nat);
    }
}

/// Plans the mip chain of a `width` by `height` texture whose levels must
/// not be smaller than `floor` in either direction. A floor of zero counts
/// as one.
///
/// The chain starts at the base dimensions, each raised to the floor, and
/// halves both, rounding down, as long as both stay at or above the floor.
pub fn plan_mip_chain(width: u32, height: u32, floor: u32) -> (chain: Vec<LevelSize>)
    ensures
        chain@.len() == mip_chain(width as nat, height as nat, floor as nat).len(),
        chain@.len() >= 1,
        forall|i: int|
            0 <= i < chain@.len() ==> ((#[trigger] chain@[i]).width as nat, chain@[i].height as nat)
                == mip_chain(width as nat, height as nat, floor as nat)[i],
{
    let f: u32 = if floor == 0 {
        1
    } else {
        floor
    };
    let base_width: u32 = if width < f {
        f
    } else {
        width
    };
    let base_height: u32 = if height < f {
        f
    } else {
        height
    };
    let mut w: u32 = base_width;
    let mut h: u32 = base_height;
    let mut chain: Vec<LevelSize> = Vec::new();
    let ghost total = chain_length(base_width as nat, base_height as nat, f as nat);
    while w >= f && h >= f
        invariant
            f >= 1,
            total == chain_length(base_width as nat, base_height as nat, f as nat),
            chain@.len() <= total,
            w == halved(base_width as nat, chain@.len()),
            h == halved(base_height as nat, chain@.len()),
            forall|i: int|
                0 <= i < chain@.len() ==> (#[trigger] chain@[i]).width == halved(
                    base_width as nat,
                    i as nat,
                ) && chain@[i].height == halved(base_height as nat, i as nat),
        decreases w,
    {
        proof {
            lemma_chain_members(base_width as nat, base_height as nat, f as nat, chain@.len());
            lemma_halved_step(base_width as nat, chain@.len());
            lemma_halved_step(base_height as nat, chain@.len());
        }
        chain.push(LevelSize { width: w, height: h });
        w = w / 2;
        h = h / 2;
    }
    proof {
        lemma_chain_members(base_width as nat, base_height as nat, f as nat, chain@.len());
    }
    chain
}

/// The dimension of level `level` of a texture whose base dimension is
/// `base`: the base halved `level` times, but at least `floor`.
pub open spec fn level_dimension(base: nat, level: nat, floor: nat) -> nat {
    at_least(halved(base, level), floor)
}

/// Computes the dimension of level `level` from the base dimension.
pub fn dimension_at_level(base: u32, level: u32, floor: u32) -> (dimension: u32)
    ensures
        dimension == level_dimension(base as nat, level as nat, floor as nat),
{
    let mut x: u32 = base;
    let mut i: u32 = 0;
    while i < level && x > 0
        invariant
            i <= level,
            x == halved(base as nat, i as nat),
        decreases level - i,
    {
        proof {
            lemma_halved_step(base as nat, i as nat);
        }
        x = x / 2;
        i += 1;
    }
    proof {
        if i < level {
            lemma_halved_of_zero(base as nat, i as nat, level as nat);
        }
    }
    if x < floor {
        floor
    } else {
        x
    }
}

/// Once halving has reached zero it stays there.
pub proof fn lemma_halved_of_zero(x: nat, reached: nat, later: nat)
    requires
        halved(x, reached) == 0,
        reached <= later,
    ensures
        halved(x, later) == 0,
    decreases later - reached,
{
    if reached < later {
        lemma_halved_of_zero(x, reached, (later - 1) as nat);
    }
}

/// The number of bytes of a level that holds `faces` images of `width` by
/// `height` texels of `bytes_per_texel` bytes each.
pub open spec fn level_payload_length(faces: nat, width: nat, height: nat, bytes_per_texel: nat) -> nat {
    faces * width * height * bytes_per_texel
}

/// Computes the number of bytes of a level, or `None` where it does not fit
/// 64 bits.
pub fn payload_length(faces: u32, width: u32, height: u32, bytes_per_texel: u32) -> (length: Option<
    u64,
>)
    ensures
        match length {
            Some(n) => n == level_payload_length(
                faces as nat,
                width as nat,
                height as nat,
                bytes_per_texel as nat,
            ),
            None => level_payload_length(
                faces as nat,
                width as nat,
                height as nat,
                bytes_per_texel as nat,
            ) > u64::MAX,
        },
{
    assert(width * height <= 0xFFFF_FFFF * 0xFFFF_FFFF) by (nonlinear_arith)
        requires
            width <= 0xFFFF_FFFF,
            height <= 0xFFFF_FFFF,
    ;
    let texels: u64 = (width as u64) * (height as u64);
    assert(texels * bytes_per_texel <= 0xFFFF_FFFF * 0xFFFF_FFFF * 0xFFFF_FFFF)
        by (nonlinear_arith)
        requires
            texels <= 0xFFFF_FFFF * 0xFFFF_FFFF,
            bytes_per_texel <= 0xFFFF_FFFF,
    ;
    let per_face: u128 = (texels as u128) * (bytes_per_texel as u128);
    assert(faces * per_face <= 0xFFFF_FFFF * 0xFFFF_FFFF * 0xFFFF_FFFF * 0xFFFF_FFFF)
        by (nonlinear_arith)
        requires
            per_face <= 0xFFFF_FFFF * 0xFFFF_FFFF * 0xFFFF_FFFF,
            faces <= 0xFFFF_FFFF,
    ;
    let total: u128 = (faces as u128) * per_face;
    assert(total == level_payload_length(
        faces as nat,
        width as nat,
        height as nat,
        bytes_per_texel as nat,
    )) by (nonlinear_arith)
        requires
            total == faces * (width * height * bytes_per_texel),
    ;
    if total > u64::MAX as u128 {
        None
    } else {
        Some(total as u64)
    }
}

/// How many blocks of four texels a row or column of `pixels` texels takes:
/// the texels divided by four and rounded up, but at least one.
pub open spec fn block_count(pixels: nat) -> nat {
    at_least((pixels + 3) / 4, 1)
}

/// Computes how many blocks of four texels cover `pixels` texels.
pub fn blocks_across(pixels: u32) -> (blocks: u32)
    ensures
        blocks == block_count(pixels as nat),
{
    let blocks: u64 = (pixels as u64 + 3) / 4;
    if blocks < 1 {
        1
    } else {
        blocks as u32
    }
}

/// How many levels the chain of a `width` by `height` texture has when no
/// level may be smaller than four by four.
pub fn block_chain_length(width: u32, height: u32) -> (count: u32)
    ensures
        count == mip_chain(width as nat, height as nat, 4).len(),
        count >= 1,
{
    let base_width: u32 = if width < 4 {
        4
    } else {
        width
    };
    let base_height: u32 = if height < 4 {
        4
    } else {
        height
    };
    let mut w: u32 = base_width;
    let mut h: u32 = base_height;
    let mut count: u32 = 0;
    while w >= 4 && h >= 4
        invariant
            count + w <= base_width,
            count <= chain_length(base_width as nat, base_height as nat, 4),
            w == halved(base_width as nat, count as nat),
            h == halved(base_height as nat, count as nat),
        decreases w,
    {
        proof {
            lemma_chain_members(base_width as nat, base_height as nat, 4, count as nat);
            lemma_halved_step(base_width as nat, count as nat);
            lemma_halved_step(base_height as nat, count as nat);
        }
        w = w / 2;
        h = h / 2;
        count += 1;
    }
    proof {
        lemma_chain_members(base_width as nat, base_height as nat, 4, count as nat);
    }
    count
}

} // verus!
