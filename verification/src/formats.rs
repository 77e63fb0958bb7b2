//! The pixel formats that can be carried over between this container and
//! DirectDraw surfaces, as two tables.

use crate::error::Error;
use crate::header::Format;
use vstd::prelude::*;

verus! {

/// Vulkan's number for `R8_UNORM`.
pub const R8_UNORM: u32 = 9;

/// Vulkan's number for `R8G8B8A8_UNORM`.
pub const R8G8B8A8_UNORM: u32 = 37;

/// Vulkan's number for `R8G8B8A8_SRGB`.
pub const R8G8B8A8_SRGB: u32 = 43;

/// Vulkan's number for `R16G16B16A16_SFLOAT`.
pub const R16G16B16A16_SFLOAT: u32 = 97;

/// Vulkan's number for `R32G32B32A32_SFLOAT`.
pub const R32G32B32A32_SFLOAT: u32 = 109;

/// Vulkan's number for `E5B9G9R9_UFLOAT_PACK32`.
pub const E5B9G9R9_UFLOAT_PACK32: u32 = 123;

/// Vulkan's number for `BC1_RGB_SRGB_BLOCK`.
pub const BC1_RGB_SRGB_BLOCK: u32 = 132;

/// Vulkan's number for `BC6H_UFLOAT_BLOCK`.
pub const BC6H_UFLOAT_BLOCK: u32 = 143;

/// Vulkan's number for `BC7_UNORM_BLOCK`.
pub const BC7_UNORM_BLOCK: u32 = 145;

/// Vulkan's number for `BC7_SRGB_BLOCK`.
pub const BC7_SRGB_BLOCK: u32 = 146;

/// Vulkan's number for `ASTC_4x4_SFLOAT_BLOCK`.
pub const ASTC_4X4_SFLOAT_BLOCK: u32 = 1000066000;

/// The surface formats that the tables know.
#[derive(Clone, Copy, Debug, PartialEq, Eq, Structural)]
pub enum DxgiFormat {
    R32G32B32A32Float,
    R16G16B16A16Float,
    R8G8B8A8UNorm,
    R8G8B8A8UNormSrgb,
    R8UNorm,
    R9G9B9E5SharedExp,
    BC1UNorm,
    BC6HUf16,
    BC7UNorm,
    BC7UNormSrgb,
}

impl DxgiFormat {
    /// The number that DXGI gives the format.
    pub open spec fn number(self) -> u32 {
        match self {
            DxgiFormat::R32G32B32A32Float => 2,
            DxgiFormat::R16G16B16A16Float => 10,
            DxgiFormat::R8G8B8A8UNorm => 28,
            DxgiFormat::R8G8B8A8UNormSrgb => 29,
            DxgiFormat::R8UNorm => 61,
            DxgiFormat::R9G9B9E5SharedExp => 67,
            DxgiFormat::BC1UNorm => 71,
            DxgiFormat::BC6HUf16 => 95,
            DxgiFormat::BC7UNorm => 98,
            DxgiFormat::BC7UNormSrgb => 99,
        }
    }

    /// The number that DXGI gives the format.
    pub fn code(&self) -> (code: u32)
        ensures
            code == self.number(),
    {
        match self {
            DxgiFormat::R32G32B32A32Float => 2,
            DxgiFormat::R16G16B16A16Float => 10,
            DxgiFormat::R8G8B8A8UNorm => 28,
            DxgiFormat::R8G8B8A8UNormSrgb => 29,
            DxgiFormat::R8UNorm => 61,
            DxgiFormat::R9G9B9E5SharedExp => 67,
            DxgiFormat::BC1UNorm => 71,
            DxgiFormat::BC6HUf16 => 95,
            DxgiFormat::BC7UNorm => 98,
            DxgiFormat::BC7UNormSrgb => 99,
        }
    }

    /// The format with the given DXGI number, if the tables know it.
    pub fn from_code(code: u32) -> (format: Option<DxgiFormat>)
        ensures
            match format {
                Some(f) => f.number() == code,
                None => forall|f: DxgiFormat| f.number() != code,
            },
    {
        match code {
            2 => Some(DxgiFormat::R32G32B32A32Float),
            10 => Some(DxgiFormat::R16G16B16A16Float),
            28 => Some(DxgiFormat::R8G8B8A8UNorm),
            29 => Some(DxgiFormat::R8G8B8A8UNormSrgb),
            61 => Some(DxgiFormat::R8UNorm),
            67 => Some(DxgiFormat::R9G9B9E5SharedExp),
            71 => Some(DxgiFormat::BC1UNorm),
            95 => Some(DxgiFormat::BC6HUf16),
            98 => Some(DxgiFormat::BC7UNorm),
            99 => Some(DxgiFormat::BC7UNormSrgb),
            _ => None,
        }
    }
}

/// The surface format for a container format. A container without a format
/// holds universal texture data, which is unpacked to BC7: the sRGB kind
/// when its transfer function is sRGB. `None` where the table has no entry.
pub open spec fn surface_format(format: Option<Format>, srgb_transfer: bool) -> Option<DxgiFormat> {
    match format {
        None => if srgb_transfer {
            Some(DxgiFormat::BC7UNormSrgb)
        } else {
            Some(DxgiFormat::BC7UNorm)
        },
        Some(f) => if f.code == R8G8B8A8_UNORM {
            Some(DxgiFormat::R8G8B8A8UNorm)
        } else if f.code == R8G8B8A8_SRGB {
            Some(DxgiFormat::R8G8B8A8UNormSrgb)
        } else if f.code == R32G32B32A32_SFLOAT {
            Some(DxgiFormat::R32G32B32A32Float)
        } else if f.code == R16G16B16A16_SFLOAT {
            Some(DxgiFormat::R16G16B16A16Float)
        } else if f.code == BC6H_UFLOAT_BLOCK {
            Some(DxgiFormat::BC6HUf16)
        } else if f.code == BC7_UNORM_BLOCK {
            Some(DxgiFormat::BC7UNorm)
        } else if f.code == BC7_SRGB_BLOCK {
            Some(DxgiFormat::BC7UNormSrgb)
        } else if f.code == E5B9G9R9_UFLOAT_PACK32 {
            Some(DxgiFormat::R9G9B9E5SharedExp)
        } else if f.code == R8_UNORM {
            Some(DxgiFormat::R8UNorm)
        } else if f.code == ASTC_4X4_SFLOAT_BLOCK {
            Some(DxgiFormat::R32G32B32A32Float)
        } else {
            None
        },
    }
}

/// The container format for a surface format. `None` where the table has no
/// entry.
pub open spec fn container_format(format: DxgiFormat) -> Option<Format> {
    match format {
        DxgiFormat::R9G9B9E5SharedExp => Some(Format { code: E5B9G9R9_UFLOAT_PACK32 }),
        DxgiFormat::BC1UNorm => Some(Format { code: BC1_RGB_SRGB_BLOCK }),
        _ => None,
    }
}

/// Looks up the surface format for a container format.
///
/// Fails with `UnsupportedPixelFormat` where the table has no entry.
pub fn dxgi_format_for(format: Option<Format>, srgb_transfer: bool) -> (result: Result<
    DxgiFormat,
    Error,
>)
    ensures
        match result {
            Ok(f) => surface_format(format, srgb_transfer) == Some(f),
            Err(e) => e == Error::UnsupportedPixelFormat && surface_format(format, srgb_transfer)
                is None,
        },
{
    match format {
        None => if srgb_transfer {
            Ok(DxgiFormat::BC7UNormSrgb)
        } else {
            Ok(DxgiFormat::BC7UNorm)
        },
        Some(f) => {
            let code = f.value();
            if code == R8G8B8A8_UNORM {
                Ok(DxgiFormat::R8G8B8A8UNorm)
            } else if code == R8G8B8A8_SRGB {
                Ok(DxgiFormat::R8G8B8A8UNormSrgb)
            } else if code == R32G32B32A32_SFLOAT {
                Ok(DxgiFormat::R32G32B32A32Float)
            } else if code == R16G16B16A16_SFLOAT {
                Ok(DxgiFormat::R16G16B16A16Float)
            } else if code == BC6H_UFLOAT_BLOCK {
                Ok(DxgiFormat::BC6HUf16)
            } else if code == BC7_UNORM_BLOCK {
                Ok(DxgiFormat::BC7UNorm)
            } else if code == BC7_SRGB_BLOCK {
                Ok(DxgiFormat::BC7UNormSrgb)
            } else if code == E5B9G9R9_UFLOAT_PACK32 {
                Ok(DxgiFormat::R9G9B9E5SharedExp)
            } else if code == R8_UNORM {
                Ok(DxgiFormat::R8UNorm)
            } else if code == ASTC_4X4_SFLOAT_BLOCK {
                Ok(DxgiFormat::R32G32B32A32Float)
            } else {
                Err(Error::UnsupportedPixelFormat)
            }
        },
    }
}

/// Looks up the container format for a surface format.
///
/// Fails with `UnsupportedPixelFormat` where the table has no entry.
pub fn ktx2_format_for(format: DxgiFormat) -> (result: Result<Format, Error>)
    ensures
        match result {
            Ok(f) => container_format(format) == Some(f) && f.is_valid(),
            Err(e) => e == Error::UnsupportedPixelFormat && container_format(format) is None,
        },
{
    match format {
        DxgiFormat::R9G9B9E5SharedExp => Ok(Format { code: E5B9G9R9_UFLOAT_PACK32 }),
        DxgiFormat::BC1UNorm => Ok(Format { code: BC1_RGB_SRGB_BLOCK }),
        _ => Err(Error::UnsupportedPixelFormat),
    }
}

/// Vulkan's number for `BC1_RGB_UNORM_BLOCK`, the first of the BC formats.
pub const FIRST_BC_FORMAT: u32 = 131;

/// Vulkan's number for `BC7_SRGB_BLOCK`, the last of the BC formats.
pub const LAST_BC_FORMAT: u32 = 146;

/// The smallest width and height that a level of the format can have: four
/// for the BC formats, whose blocks hold four by four texels, and one for
/// every other format and for a container without a format.
pub open spec fn smallest_level(format: Option<Format>) -> u32 {
    match format {
        Some(f) => if FIRST_BC_FORMAT <= f.code <= LAST_BC_FORMAT {
            4
        } else {
            1
        },
        None => 1,
    }
}

/// Tells the smallest width and height that a level of the format can have.
pub fn minimum_footprint(format: Option<Format>) -> (floor: u32)
    ensures
        floor == smallest_level(format),
{
    match format {
        Some(f) => if FIRST_BC_FORMAT <= f.code && f.code <= LAST_BC_FORMAT {
            4
        } else {
            1
        },
        None => 1,
    }
}

/// Whether texels of the format have to be narrowed from 32-bit to 16-bit
/// floats before they can be packed into BC6H blocks. `None` for a format
/// that cannot be packed.
pub open spec fn narrowing_needed(format: Option<Format>) -> Option<bool> {
    match format {
        Some(f) => if f.code == R16G16B16A16_SFLOAT {
            Some(false)
        } else if f.code == R32G32B32A32_SFLOAT {
            Some(true)
        } else {
            None
        },
        None => None,
    }
}

/// Tells whether texels of the format have to be narrowed to 16-bit floats
/// before they are packed into BC6H blocks.
///
/// Fails with `UnsupportedPixelFormat` for any format but the two float
/// formats with four channels.
pub fn needs_narrowing(format: Option<Format>) -> (result: Result<bool, Error>)
    ensures
        match result {
            Ok(needed) => narrowing_needed(format) == Some(needed),
            Err(e) => e == Error::UnsupportedPixelFormat && narrowing_needed(format) is None,
        },
{
    match format {
        Some(f) => if f.code == R16G16B16A16_SFLOAT {
            Ok(false)
        } else if f.code == R32G32B32A32_SFLOAT {
            Ok(true)
        } else {
            Err(Error::UnsupportedPixelFormat)
        },
        None => Err(Error::UnsupportedPixelFormat),
    }
}

/// Whether a texel of RGBA data with one byte for each channel has an alpha
/// other than 255.
pub open spec fn is_translucent(rgba: Seq<u8>) -> bool {
    exists|i: int| 0 <= i && 4 * i + 3 < rgba.len() && #[trigger] rgba[4 * i + 3] != 255
}

/// Tells whether RGBA data with one byte for each channel has a texel that
/// is not opaque.
pub fn has_translucent_texel(rgba: &[u8]) -> (found: bool)
    ensures
        found == is_translucent(rgba@),
{
    let mut at: usize = 0;
    while rgba.len() - at >= 4
        invariant
            at <= rgba.len(),
            at % 4 == 0,
            forall|i: int| 0 <= i && 4 * i + 3 < at ==> #[trigger] rgba@[4 * i + 3] == 255,
        decreases rgba.len() - at,
    {
        if rgba[at + 3] != 255 {
            assert(rgba@[4 * (at as int / 4) + 3] != 255);
            return true;
        }
        proof {
            assert forall|i: int| 0 <= i && 4 * i + 3 < at + 4 implies #[trigger] rgba@[4 * i + 3]
                == 255 by {
                if 4 * i + 3 >= at {
                    assert(4 * i == at);
                }
            }
        }
        at += 4;
    }
    proof {
        assert forall|i: int| 0 <= i && 4 * i + 3 < rgba@.len() implies #[trigger] rgba@[4 * i + 3]
            == 255 by {
            if 4 * i + 3 >= at {
                assert(4 * i >= at);
            }
        }
    }
    false
}

} // verus!
