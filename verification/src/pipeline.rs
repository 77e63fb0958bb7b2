//! Conversions that run from bytes to bytes: a container is read, its
//! levels are decompressed, and a container is written again.

use crate::bytes::buffer_views;
use crate::error::Error;
use crate::framer::{decompress, decompressed};
use crate::header::{
    header_decoding, Header, SupercompressionScheme, WriterHeader, ZSTANDARD,
};
use crate::metadata::{Metadata, Pair};
use crate::reader::{entry_at, read_dfd, read_failure, read_level, Reader};
use crate::writer::{is_written, Writer};
use std::borrow::Cow;
use vstd::prelude::*;

verus! {

/// The first `count` levels of `bytes`, decompressed under the scheme of its
/// header, or the error of the first level that does not decompress.
pub open spec fn levels_decompressed(bytes: Seq<u8>, count: nat) -> Result<Seq<Seq<u8>>, Error>
    decreases count,
{
    if count == 0 {
        Ok(Seq::empty())
    } else {
        match levels_decompressed(bytes, (count - 1) as nat) {
            Err(e) => Err(e),
            Ok(front) => match decompressed(
                header_decoding(bytes).supercompression_scheme,
                read_level(bytes, count - 1),
                entry_at(bytes, count - 1).uncompressed_byte_length,
            ) {
                Ok(level) => Ok(front.push(level)),
                Err(e) => Err(e),
            },
        }
    }
}

/// The header fields that a container is written with when it takes over
/// those of `header` under another scheme.
pub open spec fn taken_over(header: Header, scheme: Option<SupercompressionScheme>) -> WriterHeader {
    WriterHeader {
        format: header.format,
        type_size: header.type_size,
        pixel_width: header.pixel_width,
        pixel_height: header.pixel_height,
        pixel_depth: header.pixel_depth,
        layer_count: header.layer_count,
        face_count: header.face_count,
        supercompression_scheme: scheme,
    }
}

/// Decompresses the first `count` levels of a container, the largest first.
///
/// Fails with the error of the first level that does not decompress.
pub fn decompress_levels<'a>(reader: &Reader<'a>, count: usize) -> (result: Result<
    Vec<Cow<'a, [u8]>>,
    Error,
>)
    requires
        reader.well_formed(),
        count <= header_decoding(reader.bytes()).level_count,
    ensures
        match result {
            Ok(levels) => levels@.len() == count && levels_decompressed(
                reader.bytes(),
                count as nat,
            ) == Ok::<Seq<Seq<u8>>, Error>(buffer_views(levels@)),
            Err(e) => levels_decompressed(reader.bytes(), count as nat) == Err::<
                Seq<Seq<u8>>,
                Error,
            >(e),
        },
{
    let scheme = reader.header().supercompression_scheme;
    let mut levels: Vec<Cow<'a, [u8]>> = Vec::new();
    let mut i: usize = 0;
    assert(buffer_views(levels@) =~= Seq::<Seq<u8>>::empty());
    while i < count
        invariant
            i <= count,
            levels@.len() == i,
            reader.well_formed(),
            count <= header_decoding(reader.bytes()).level_count,
            scheme == header_decoding(reader.bytes()).supercompression_scheme,
            levels_decompressed(reader.bytes(), i as nat) == Ok::<Seq<Seq<u8>>, Error>(
                buffer_views(levels@),
            ),
        decreases count - i,
    {
        let (stored, length) = reader.level(i);
        let ghost before = buffer_views(levels@);
        match decompress(scheme, stored, length) {
            Ok(level) => {
                levels.push(level);
                assert(buffer_views(levels@) =~= before.push(level@));
            },
            Err(e) => {
                proof {
                    lemma_failure_stays(reader.bytes(), (i + 1) as nat, count as nat);
                }
                return Err(e);
            },
        }
        i += 1;
    }
    Ok(levels)
}

/// Once a level has failed to decompress, decompressing more levels fails
/// in the same way.
pub proof fn lemma_failure_stays(bytes: Seq<u8>, failed: nat, count: nat)
    requires
        failed <= count,
        levels_decompressed(bytes, failed) is Err,
    ensures
        levels_decompressed(bytes, count) == levels_decompressed(bytes, failed),
    decreases count - failed,
{
    if failed < count {
        lemma_failure_stays(bytes, failed, (count - 1) as nat);
    }
}

/// What recompressing `input` under Zstandard has to give: the error with
/// which reading or decompressing fails, or what writing the decompressed
/// levels gives with the header fields and the data format descriptor kept,
/// no metadata but the producer's entry and no global data.
pub open spec fn is_recompressed(input: Seq<u8>, result: Result<Vec<u8>, Error>) -> bool {
    let header = header_decoding(input);
    match read_failure(input) {
        Some(e) => result == Err::<Vec<u8>, Error>(e),
        None => match levels_decompressed(input, header.level_count as nat) {
            Err(e) => result == Err::<Vec<u8>, Error>(e),
            Ok(levels) => is_written(
                taken_over(header, Some(SupercompressionScheme { code: ZSTANDARD })),
                read_dfd(input),
                Seq::<Pair>::empty(),
                Seq::<u8>::empty(),
                levels,
                result,
            ),
        },
    }
}

/// Reads a container, decompresses its levels and writes them again under
/// Zstandard, with the same header fields and data format descriptor.
pub fn recompress(input: &[u8]) -> (result: Result<Vec<u8>, Error>)
    ensures
        is_recompressed(input@, result),
{
    let reader = match Reader::new(input) {
        Ok(reader) => reader,
        Err(e) => {
            return Err(e);
        },
    };
    let header = reader.header();
    let levels = match decompress_levels(&reader, reader.level_count()) {
        Ok(levels) => levels,
        Err(e) => {
            return Err(e);
        },
    };
    let metadata = Metadata::new();
    let empty: Vec<u8> = Vec::new();
    let writer = Writer {
        header: WriterHeader {
            format: header.format,
            type_size: header.type_size,
            pixel_width: header.pixel_width,
            pixel_height: header.pixel_height,
            pixel_depth: header.pixel_depth,
            layer_count: header.layer_count,
            face_count: header.face_count,
            supercompression_scheme: Some(SupercompressionScheme::zstandard()),
        },
        dfd_bytes: reader.dfd_bytes(),
        key_value_pairs: &metadata,
        sgd_bytes: empty.as_slice(),
        uncompressed_levels_descending: levels.as_slice(),
    };
    assert(writer.levels() =~= levels_decompressed(
        input@,
        header.level_count as nat,
    )->Ok_0);
    assert(writer.sgd_bytes@ =~= Seq::<u8>::empty());
    writer.write()
}

/// Reads a container and decompresses its largest level.
///
/// Fails with `TruncatedContainer` when the container has no level.
pub fn first_level<'a>(input: &'a [u8]) -> (result: Result<Cow<'a, [u8]>, Error>)
    ensures
        match read_failure(input@) {
            Some(e) => result == Err::<Cow<'a, [u8]>, Error>(e),
            None => if header_decoding(input@).level_count == 0 {
                result == Err::<Cow<'a, [u8]>, Error>(Error::TruncatedContainer)
            } else {
                match result {
                    Ok(level) => decompressed(
                        header_decoding(input@).supercompression_scheme,
                        read_level(input@, 0),
                        entry_at(input@, 0).uncompressed_byte_length,
                    ) == Ok::<Seq<u8>, Error>(level@),
                    Err(e) => decompressed(
                        header_decoding(input@).supercompression_scheme,
                        read_level(input@, 0),
                        entry_at(input@, 0).uncompressed_byte_length,
                    ) == Err::<Seq<u8>, Error>(e),
                }
            },
        },
{
    let reader = match Reader::new(input) {
        Ok(reader) => reader,
        Err(e) => {
            return Err(e);
        },
    };
    if reader.level_count() == 0 {
        return Err(Error::TruncatedContainer);
    }
    let (stored, length) = reader.level(0);
    decompress(reader.header().supercompression_scheme, stored, length)
}

} // verus!
