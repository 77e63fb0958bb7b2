//! Carrying textures over between this container and DirectDraw surfaces:
//! a surface holds all levels of one face before those of the next, and
//! its levels follow one another without an index.

use crate::bytes::{append, borrowed_bytes, buffer_views};
use crate::error::Error;
use crate::formats::{container_format, dxgi_format_for, ktx2_format_for, surface_format, DxgiFormat};
use crate::header::{header_decoding, WriterHeader};
use crate::key_value::{section_encoding, with_writer};
use crate::layout::{container_encoding, layout_fits};
use crate::metadata::{Metadata, Pair};
use crate::pipeline::{decompress_levels, levels_decompressed};
use crate::planner::{dimension_at_level, level_dimension};
use crate::reader::{read_failure, Reader};
use crate::transcode::{level_refusal, slice_length, transcode_level};
use crate::writer::{stored_as_they_are, Writer};
use std::borrow::Cow;
use vstd::prelude::*;
use vstd::slice::slice_subrange;

verus! {

/// The part of a level that belongs to face `face`, the level holding
/// `face_count` parts of equal length one after the other.
pub open spec fn face_part(level: Seq<u8>, face_count: nat, face: nat) -> Seq<u8> {
    let size = level.len() / face_count;
    level.subrange((face * size) as int, ((face + 1) * size) as int)
}

/// The parts of face `face` in all levels, the first level first.
pub open spec fn face_data(levels: Seq<Seq<u8>>, face_count: nat, face: nat) -> Seq<u8>
    decreases levels.len(),
{
    if levels.len() == 0 {
        Seq::empty()
    } else {
        face_data(levels.drop_last(), face_count, face) + face_part(
            levels.last(),
            face_count,
            face,
        )
    }
}

/// The data of the first `faces` faces, each with all its levels.
pub open spec fn faces_first(levels: Seq<Seq<u8>>, face_count: nat, faces: nat) -> Seq<u8>
    decreases faces,
{
    if faces == 0 {
        Seq::empty()
    } else {
        faces_first(levels, face_count, (faces - 1) as nat) + face_data(
            levels,
            face_count,
            (faces - 1) as nat,
        )
    }
}

/// Regroups levels that each hold `face_count` faces into the data of a
/// surface: all levels of the first face, then all levels of the next.
///
/// Each level is cut into `face_count` parts of equal length; bytes of a
/// level that are left over behind the last part are dropped.
pub fn regroup_by_face(levels: &[Cow<'_, [u8]>], face_count: usize) -> (data: Vec<u8>)
    ensures
        data@ == faces_first(buffer_views(levels@), face_count as nat, face_count as nat),
{
    let ghost views = buffer_views(levels@);
    let mut data: Vec<u8> = Vec::new();
    let mut face: usize = 0;
    while face < face_count
        invariant
            face <= face_count,
            views == buffer_views(levels@),
            data@ == faces_first(views, face_count as nat, face as nat),
        decreases face_count - face,
    {
        let ghost before = data@;
        let mut i: usize = 0;
        while i < levels.len()
            invariant
                i <= levels.len(),
                face < face_count,
                views == buffer_views(levels@),
                data@ == before + face_data(views.take(i as int), face_count as nat, face as nat),
            decreases levels.len() - i,
        {
            let level = borrowed_bytes(&levels[i]);
            let size: usize = level.len() / face_count;
            assert(face * size + size <= level.len()) by (nonlinear_arith)
                requires
                    size == level.len() / (face_count as usize),
                    face < face_count,
            ;
            assert((face + 1) * size == face * size + size) by (nonlinear_arith);
            let start: usize = face * size;
            append(&mut data, slice_subrange(level, start, start + size));
            proof {
                assert(views.take(i + 1).drop_last() =~= views.take(i as int));
                assert(views.take(i + 1).last() == level@);
                assert(data@ =~= before + face_data(
                    views.take(i + 1),
                    face_count as nat,
                    face as nat,
                ));
            }
            i += 1;
        }
        proof {
            assert(views.take(levels.len() as int) =~= views);
        }
        face += 1;
    }
    data
}

/// The length of level `level` of a `width` by `height` texture that takes
/// half a byte for each texel and whose levels are no smaller than four
/// by four.
pub open spec fn half_byte_level_length(width: nat, height: nat, level: nat) -> nat {
    level_dimension(width, level, 4) * level_dimension(height, level, 4) / 2
}

/// Where level `level` starts when the levels follow one another, the
/// first level first.
pub open spec fn half_byte_level_start(width: nat, height: nat, level: nat) -> nat
    decreases level,
{
    if level == 0 {
        0
    } else {
        half_byte_level_start(width, height, (level - 1) as nat) + half_byte_level_length(
            width,
            height,
            (level - 1) as nat,
        )
    }
}

/// The first `count` levels of the data of a surface.
pub open spec fn surface_levels(data: Seq<u8>, width: nat, height: nat, count: nat) -> Seq<Seq<u8>> {
    Seq::new(
        count,
        |i: int|
            data.subrange(
                half_byte_level_start(width, height, i as nat) as int,
                half_byte_level_start(width, height, (i + 1) as nat) as int,
            ),
    )
}

/// Cuts the data of a surface into `count` levels, the first level first.
/// The levels are borrowed from the data.
///
/// Fails with `TruncatedContainer` when the data ends before the last level
/// does.
pub fn split_levels<'a>(data: &'a [u8], width: u32, height: u32, count: u32) -> (result: Result<
    Vec<Cow<'a, [u8]>>,
    Error,
>)
    ensures
        match result {
            Ok(levels) => half_byte_level_start(width as nat, height as nat, count as nat)
                <= data@.len() && buffer_views(levels@) == surface_levels(
                data@,
                width as nat,
                height as nat,
                count as nat,
            ),
            Err(e) => e == Error::TruncatedContainer && half_byte_level_start(
                width as nat,
                height as nat,
                count as nat,
            ) > data@.len(),
        },
{
    let mut levels: Vec<Cow<'a, [u8]>> = Vec::new();
    let mut offset: usize = 0;
    let mut i: u32 = 0;
    while i < count
        invariant
            i <= count,
            offset <= data.len(),
            offset == half_byte_level_start(width as nat, height as nat, i as nat),
            levels@.len() == i,
            forall|j: int|
                0 <= j < i ==> (#[trigger] levels@[j])@ == data@.subrange(
                    half_byte_level_start(width as nat, height as nat, j as nat) as int,
                    half_byte_level_start(width as nat, height as nat, (j + 1) as nat) as int,
                ),
        decreases count - i,
    {
        let level_width: u64 = dimension_at_level(width, i, 4) as u64;
        let level_height: u64 = dimension_at_level(height, i, 4) as u64;
        assert(level_width * level_height <= 0xFFFF_FFFF * 0xFFFF_FFFF) by (nonlinear_arith)
            requires
                level_width <= 0xFFFF_FFFF,
                level_height <= 0xFFFF_FFFF,
        ;
        let length: u64 = level_width * level_height / 2;
        if length > (data.len() - offset) as u64 {
            proof {
                lemma_level_starts_ascend(width as nat, height as nat, (i + 1) as nat, count as nat);
            }
            return Err(Error::TruncatedContainer);
        }
        let end: usize = offset + length as usize;
        levels.push(Cow::Borrowed(slice_subrange(data, offset, end)));
        offset = end;
        i += 1;
    }
    assert(buffer_views(levels@) =~= surface_levels(
        data@,
        width as nat,
        height as nat,
        count as nat,
    ));
    Ok(levels)
}

/// Later levels start no earlier than earlier ones.
pub proof fn lemma_level_starts_ascend(width: nat, height: nat, earlier: nat, later: nat)
    requires
        earlier <= later,
    ensures
        half_byte_level_start(width, height, earlier) <= half_byte_level_start(
            width,
            height,
            later,
        ),
    decreases later - earlier,
{
    if earlier < later {
        lemma_level_starts_ascend(width, height, earlier, (later - 1) as nat);
    }
}

/// The data format descriptor that a converted surface is written with:
/// a total size of twelve, and a block header without samples.
pub open spec fn surface_dfd() -> Seq<u8> {
    seq![0x0Cu8, 0x00, 0x00, 0x00, 0x01, 0x01, 0x01, 0x01, 0x00, 0x00, 0x00, 0x00]
}

/// The header fields that a converted surface is written with.
pub open spec fn surface_header(format: DxgiFormat, width: u32, height: u32, depth: u32) -> WriterHeader {
    WriterHeader {
        format: container_format(format),
        type_size: 4,
        pixel_width: width,
        pixel_height: height,
        pixel_depth: depth,
        layer_count: 0,
        face_count: 1,
        supercompression_scheme: None,
    }
}

/// What converting a surface has to give.
pub open spec fn is_converted_surface(
    format: DxgiFormat,
    width: u32,
    height: u32,
    depth: u32,
    count: u32,
    data: Seq<u8>,
    result: Result<Vec<u8>, Error>,
) -> bool {
    let levels = surface_levels(data, width as nat, height as nat, count as nat);
    let kvd = section_encoding(with_writer(Seq::<Pair>::empty()));
    if container_format(format) is None {
        result == Err::<Vec<u8>, Error>(Error::UnsupportedPixelFormat)
    } else if half_byte_level_start(width as nat, height as nat, count as nat) > data.len() {
        result == Err::<Vec<u8>, Error>(Error::TruncatedContainer)
    } else if !layout_fits(12, kvd.len(), 0, stored_as_they_are(levels)) {
        result == Err::<Vec<u8>, Error>(Error::ContainerTooLarge)
    } else {
        result matches Ok(bytes) && bytes@ == container_encoding(
            surface_header(format, width, height, depth),
            surface_dfd(),
            kvd,
            Seq::<u8>::empty(),
            stored_as_they_are(levels),
        )
    }
}

/// Converts the data of a surface with `count` levels into a container
/// without supercompression.
///
/// Fails with `UnsupportedPixelFormat` when the format has no counterpart,
/// with `TruncatedContainer` when the data ends before the last level does,
/// and with `ContainerTooLarge` when a number of the layout does not fit its
/// field.
pub fn convert_surface(
    format: DxgiFormat,
    width: u32,
    height: u32,
    depth: u32,
    count: u32,
    data: &[u8],
) -> (result: Result<Vec<u8>, Error>)
    ensures
        is_converted_surface(format, width, height, depth, count, data@, result),
{
    let target = match ktx2_format_for(format) {
        Ok(f) => f,
        Err(e) => {
            return Err(e);
        },
    };
    let levels = match split_levels(data, width, height, count) {
        Ok(levels) => levels,
        Err(e) => {
            return Err(e);
        },
    };
    let dfd: Vec<u8> = vec![
        0x0C, 0x00, 0x00, 0x00, 0x01, 0x01, 0x01, 0x01, 0x00, 0x00, 0x00, 0x00,
    ];
    let metadata = Metadata::new();
    let empty: Vec<u8> = Vec::new();
    let writer = Writer {
        header: WriterHeader {
            format: Some(target),
            type_size: 4,
            pixel_width: width,
            pixel_height: height,
            pixel_depth: depth,
            layer_count: 0,
            face_count: 1,
            supercompression_scheme: None,
        },
        dfd_bytes: dfd.as_slice(),
        key_value_pairs: &metadata,
        sgd_bytes: empty.as_slice(),
        uncompressed_levels_descending: levels.as_slice(),
    };
    proof {
        assert(writer.levels() =~= surface_levels(
            data@,
            width as nat,
            height as nat,
            count as nat,
        ));
        assert(writer.sgd_bytes@ =~= Seq::<u8>::empty());
        assert(writer.dfd_bytes@ =~= surface_dfd());
        crate::key_value::lemma_writer_alone_fits();
    }
    writer.write()
}

/// What a surface is made from: its format and dimensions, and the data of
/// its faces one after the other. A count of zero is given as `None`.
#[derive(Debug)]
pub struct Surface {
    pub format: DxgiFormat,
    pub width: u32,
    pub height: u32,
    pub depth: Option<u32>,
    pub mipmap_levels: Option<u32>,
    pub array_layers: Option<u32>,
    pub is_cubemap: bool,
    pub data: Vec<u8>,
}

/// A count, or `None` for zero.
pub open spec fn counted(count: u32) -> Option<u32> {
    if count == 0 {
        None
    } else {
        Some(count)
    }
}

/// Whether `levels` are transcoded forms of `raw` levels of a texture whose
/// base is `width` by `height`: as many, and each as long as the blocks that
/// cover its texels.
pub open spec fn are_transcoded(raw: Seq<Seq<u8>>, width: u32, height: u32, levels: Seq<Seq<u8>>) -> bool {
    &&& levels.len() == raw.len()
    &&& forall|i: int|
        0 <= i < levels.len() ==> (#[trigger] levels[i]).len() == slice_length(
            level_dimension(width as nat, i as nat, 1),
            level_dimension(height as nat, i as nat, 1),
        )
}

/// Why the first `count` of `raw` are not transcoded, if they are not: the
/// refusal of the first level that is refused, level `i` being taken at the
/// base dimensions halved `i` times.
pub open spec fn first_refusal(raw: Seq<Seq<u8>>, width: u32, height: u32, count: nat) -> Option<
    Error,
>
    decreases count,
{
    if count == 0 {
        None
    } else {
        match first_refusal(raw, width, height, (count - 1) as nat) {
            Some(e) => Some(e),
            None => level_refusal(
                raw[count - 1],
                level_dimension(width as nat, (count - 1) as nat, 1) as u32,
                level_dimension(height as nat, (count - 1) as nat, 1) as u32,
            ),
        }
    }
}

/// Once a level has been refused, more levels are refused in the same way.
pub proof fn lemma_refusal_stays(
    raw: Seq<Seq<u8>>,
    width: u32,
    height: u32,
    refused: nat,
    count: nat,
)
    requires
        refused <= count,
        first_refusal(raw, width, height, refused) is Some,
    ensures
        first_refusal(raw, width, height, count) == first_refusal(raw, width, height, refused),
    decreases count - refused,
{
    if refused < count {
        lemma_refusal_stays(raw, width, height, refused, (count - 1) as nat);
    }
}

/// Transcodes each level of a texture from UASTC to BC7, the base level
/// being `width` by `height` texels large and every level half the one
/// before it.
///
/// Fails as the first level that cannot be transcoded does; without levels
/// there is nothing to fail.
pub fn transcode_levels<'a>(raw: &[Cow<'_, [u8]>], width: u32, height: u32) -> (result: Result<
    Vec<Cow<'a, [u8]>>,
    Error,
>)
    requires
        raw.len() <= u32::MAX,
    ensures
        match result {
            Ok(levels) => first_refusal(buffer_views(raw@), width, height, raw@.len()) is None
                && are_transcoded(buffer_views(raw@), width, height, buffer_views(levels@)),
            Err(e) => first_refusal(buffer_views(raw@), width, height, raw@.len()) == Some(e),
        },
{
    let mut levels: Vec<Cow<'a, [u8]>> = Vec::new();
    let mut i: usize = 0;
    while i < raw.len()
        invariant
            i <= raw.len(),
            raw.len() <= u32::MAX,
            levels@.len() == i,
            first_refusal(buffer_views(raw@), width, height, i as nat) is None,
            forall|j: int|
                0 <= j < i ==> (#[trigger] levels@[j])@.len() == slice_length(
                    level_dimension(width as nat, j as nat, 1),
                    level_dimension(height as nat, j as nat, 1),
                ),
        decreases raw.len() - i,
    {
        let level_width = dimension_at_level(width, i as u32, 1);
        let level_height = dimension_at_level(height, i as u32, 1);
        match transcode_level(borrowed_bytes(&raw[i]), level_width, level_height) {
            Ok(level) => {
                levels.push(Cow::Owned(level));
            },
            Err(e) => {
                proof {
                    lemma_refusal_stays(
                        buffer_views(raw@),
                        width,
                        height,
                        (i + 1) as nat,
                        raw@.len(),
                    );
                }
                return Err(e);
            },
        }
        i += 1;
    }
    Ok(levels)
}

/// What unpacking a container into a surface has to give.
///
/// Reading comes first, then the format, then decompressing, and each fails
/// with its own error. With `universal` set the levels are then transcoded,
/// which fails as the first level that is refused does; without, they are
/// taken as they are. The surface has the
/// format of the table and the dimensions of the header, and its data is
/// that of the levels, regrouped by face.
pub open spec fn is_unpacked(
    input: Seq<u8>,
    universal: Option<bool>,
    result: Result<Surface, Error>,
) -> bool {
    let header = header_decoding(input);
    match read_failure(input) {
        Some(e) => result == Err::<Surface, Error>(e),
        None => match surface_format(header.format, universal == Some(true)) {
            None => result == Err::<Surface, Error>(Error::UnsupportedPixelFormat),
            Some(format) => match levels_decompressed(input, header.level_count as nat) {
                Err(e) => result == Err::<Surface, Error>(e),
                Ok(raw) => match result {
                    Ok(surface) => {
                        &&& surface.format == format
                        &&& surface.width == header.pixel_width
                        &&& surface.height == header.pixel_height
                        &&& surface.depth == counted(header.pixel_depth)
                        &&& surface.mipmap_levels == counted(header.level_count)
                        &&& surface.array_layers == counted(header.layer_count)
                        &&& surface.is_cubemap == (header.face_count == 6)
                        &&& universal is Some ==> first_refusal(
                            raw,
                            header.pixel_width,
                            header.pixel_height,
                            raw.len(),
                        ) is None
                        &&& exists|levels: Seq<Seq<u8>>|
                            (universal is Some ==> are_transcoded(
                                raw,
                                header.pixel_width,
                                header.pixel_height,
                                levels,
                            )) && (universal is None ==> levels == raw) && surface.data@
                                == #[trigger] faces_first(
                                levels,
                                header.face_count as nat,
                                header.face_count as nat,
                            )
                    },
                    Err(e) => universal is Some && first_refusal(
                        raw,
                        header.pixel_width,
                        header.pixel_height,
                        raw.len(),
                    ) == Some(e),
                },
            },
        },
    }
}

/// Unpacks a container into what a surface is made from.
///
/// With `universal` set the levels hold UASTC blocks, which are transcoded
/// to BC7, the sRGB kind if `universal` holds `true`; without, the levels are
/// taken as they are.
pub fn unpack_container(input: &[u8], universal: Option<bool>) -> (result: Result<Surface, Error>)
    ensures
        is_unpacked(input@, universal, result),
{
    let reader = match Reader::new(input) {
        Ok(reader) => reader,
        Err(e) => {
            return Err(e);
        },
    };
    let header = reader.header();
    let srgb = match universal {
        Some(srgb) => srgb,
        None => false,
    };
    let format = match dxgi_format_for(header.format, srgb) {
        Ok(format) => format,
        Err(e) => {
            return Err(e);
        },
    };
    let raw = match decompress_levels(&reader, reader.level_count()) {
        Ok(raw) => raw,
        Err(e) => {
            return Err(e);
        },
    };
    let levels = match universal {
        Some(_) => match transcode_levels(raw.as_slice(), header.pixel_width, header.pixel_height) {
            Ok(levels) => levels,
            Err(e) => {
                return Err(e);
            },
        },
        None => raw,
    };
    let data = regroup_by_face(levels.as_slice(), header.face_count as usize);
    Ok(
        Surface {
            format,
            width: header.pixel_width,
            height: header.pixel_height,
            depth: if header.pixel_depth == 0 {
                None
            } else {
                Some(header.pixel_depth)
            },
            mipmap_levels: if header.level_count == 0 {
                None
            } else {
                Some(header.level_count)
            },
            array_layers: if header.layer_count == 0 {
                None
            } else {
                Some(header.layer_count)
            },
            is_cubemap: header.face_count == 6,
            data,
        },
    )
}

} // verus!
