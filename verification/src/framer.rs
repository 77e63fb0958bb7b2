//! Whole-level supercompression: each mip level is compressed and
//! decompressed on its own, with its uncompressed length kept beside it.

use crate::error::Error;
use crate::header::{SupercompressionScheme, ZSTANDARD};
use std::borrow::Cow;
use vstd::prelude::*;

verus! {

/// What `zstd::bulk::decompress` decodes `stored` to when it is given room
/// enough: the content of the stream, or `None` where the stream does not
/// decode however much room there is.
pub uninterp spec fn zstd_decoded(stored: Seq<u8>) -> Option<Seq<u8>>;

/// The schemes that can be framed: none at all, or Zstandard.
pub open spec fn is_supported(scheme: Option<SupercompressionScheme>) -> bool {
    match scheme {
        None => true,
        Some(s) => s.code == ZSTANDARD,
    }
}

/// The level at which Zstandard compresses: zero, which stands for the
/// codec's default.
pub const COMPRESSION_LEVEL: i32 = 0;

/// Whether `stored` is a form in which `raw` may be stored under `scheme`:
/// `raw` itself without a scheme, where 64 bits can record its length, and
/// with Zstandard any bytes that decode to `raw`, where `raw` is no longer
/// than one buffer can be.
pub open spec fn is_stored_form(
    scheme: Option<SupercompressionScheme>,
    raw: Seq<u8>,
    stored: Seq<u8>,
) -> bool {
    match scheme {
        None => raw.len() <= u64::MAX && stored == raw,
        Some(s) => s.code == ZSTANDARD && raw.len() <= isize::MAX && zstd_decoded(stored)
            == Some(raw),
    }
}

/// What decompressing `stored` gives when `length` bytes are expected.
///
/// Without a scheme the bytes are handed back. With Zstandard they are
/// decoded. Either way an outcome that is not exactly `length` bytes long is
/// a length mismatch, and so is a stream that does not decode.
pub open spec fn decompressed(
    scheme: Option<SupercompressionScheme>,
    stored: Seq<u8>,
    length: u64,
) -> Result<Seq<u8>, Error> {
    match scheme {
        None => if stored.len() == length {
            Ok(stored)
        } else {
            Err(Error::DecompressionLengthMismatch)
        },
        Some(s) => if s.code != ZSTANDARD {
            Err(Error::UnsupportedSupercompressionScheme)
        } else if length > isize::MAX {
            Err(Error::DecompressionLengthMismatch)
        } else {
            checked_length(zstd_decoded(stored), length)
        },
    }
}

/// A decoded level where it has the expected length, a length mismatch
/// otherwise.
pub open spec fn checked_length(decoded: Option<Seq<u8>>, length: u64) -> Result<Seq<u8>, Error> {
    match decoded {
        Some(bytes) => if bytes.len() == length {
            Ok(bytes)
        } else {
            Err(Error::DecompressionLengthMismatch)
        },
        None => Err(Error::DecompressionLengthMismatch),
    }
}

/// Compresses one level under `scheme` and returns the stored bytes with the
/// uncompressed length.
///
/// Without a scheme the level is stored as it is, and handed back without
/// being copied. A scheme other than Zstandard is refused. Zstandard runs at
/// its default level; its failure, which no input is known to cause, is
/// reported as `CodecFailed`, and so is a level longer than one buffer can
/// be, which no slice is.
pub fn compress<'a>(scheme: Option<SupercompressionScheme>, bytes: &'a [u8]) -> (result: Result<
    (Cow<'a, [u8]>, u64),
    Error,
>)
    ensures
        match result {
            Ok((stored, length)) => is_supported(scheme) && is_stored_form(
                scheme,
                bytes@,
                stored@,
            ) && length == bytes@.len(),
            Err(e) => if is_supported(scheme) {
                scheme is Some && e == Error::CodecFailed
            } else {
                e == Error::UnsupportedSupercompressionScheme
            },
        },
{
    match scheme {
        None => Ok((Cow::Borrowed(bytes), bytes.len() as u64)),
        Some(s) => {
            if s.code != ZSTANDARD {
                return Err(Error::UnsupportedSupercompressionScheme);
            }
            if bytes.len() > isize::MAX as usize {
                return Err(Error::CodecFailed);
            }
            match framed(bytes.len(), zstd_compress(bytes, COMPRESSION_LEVEL)) {
                Ok((stored, length)) => Ok((Cow::Owned(stored), length)),
                Err(e) => Err(e),
            }
        },
    }
}

/// The outcome of compressing a level of `length` bytes, from what the codec
/// gave back.
pub fn framed(length: usize, encoded: Option<Vec<u8>>) -> (result: Result<(Vec<u8>, u64), Error>)
    ensures
        match encoded {
            Some(stored) => result matches Ok((s, l)) && s@ == stored@ && l == length,
            None => result == Err::<(Vec<u8>, u64), Error>(Error::CodecFailed),
        },
{
    match encoded {
        Some(stored) => Ok((stored, length as u64)),
        None => Err(Error::CodecFailed),
    }
}

/// Decompresses one stored level that is recorded as `uncompressed_length`
/// bytes long. Without a scheme the level is handed back without being
/// copied.
pub fn decompress<'a>(
    scheme: Option<SupercompressionScheme>,
    stored: &'a [u8],
    uncompressed_length: u64,
) -> (result: Result<Cow<'a, [u8]>, Error>)
    ensures
        match result {
            Ok(bytes) => decompressed(scheme, stored@, uncompressed_length) == Ok::<
                Seq<u8>,
                Error,
            >(bytes@),
            Err(e) => decompressed(scheme, stored@, uncompressed_length) == Err::<Seq<u8>, Error>(
                e,
            ),
        },
{
    match scheme {
        None => {
            if stored.len() as u64 != uncompressed_length {
                return Err(Error::DecompressionLengthMismatch);
            }
            Ok(Cow::Borrowed(stored))
        },
        Some(s) => {
            if s.code != ZSTANDARD {
                return Err(Error::UnsupportedSupercompressionScheme);
            }
            if uncompressed_length > isize::MAX as u64 {
                return Err(Error::DecompressionLengthMismatch);
            }
            match unframed(
                zstd_decompress(stored, uncompressed_length as usize),
                uncompressed_length,
            ) {
                Ok(bytes) => Ok(Cow::Owned(bytes)),
                Err(e) => Err(e),
            }
        },
    }
}

/// The outcome of decompressing a level recorded as `length` bytes long,
/// from what the codec gave back.
pub fn unframed(decoded: Option<Vec<u8>>, length: u64) -> (result: Result<Vec<u8>, Error>)
    ensures
        match result {
            Ok(bytes) => decoded matches Some(d) && d@ == bytes@ && checked_length(
                Some(d@),
                length,
            ) == Ok::<Seq<u8>, Error>(bytes@),
            Err(e) => e == Error::DecompressionLengthMismatch && (match decoded {
                Some(d) => d@.len() != length,
                None => true,
            }),
        },
{
    match decoded {
        Some(bytes) => {
            if bytes.len() as u64 == length {
                Ok(bytes)
            } else {
                Err(Error::DecompressionLengthMismatch)
            }
        },
        None => Err(Error::DecompressionLengthMismatch),
    }
}

/// What `rounds.len()` rounds of recompression leave of `raw`: each round
/// stores what the round before gave back as `rounds[k]` and decompresses it
/// again. `None` where a round is not a stored form of its input or fails.
pub open spec fn after_rounds(
    scheme: Option<SupercompressionScheme>,
    raw: Seq<u8>,
    rounds: Seq<Seq<u8>>,
) -> Option<Seq<u8>>
    decreases rounds.len(),
{
    if rounds.len() == 0 {
        Some(raw)
    } else {
        match after_rounds(scheme, raw, rounds.drop_last()) {
            Some(input) => if is_stored_form(scheme, input, rounds.last()) {
                match decompressed(scheme, rounds.last(), input.len() as u64) {
                    Ok(output) => Some(output),
                    Err(_) => None,
                }
            } else {
                None
            },
            None => None,
        }
    }
}

/// Whether each of `rounds` is a stored form of what the round before it gave
/// back.
pub open spec fn rounds_are_stored_forms(
    scheme: Option<SupercompressionScheme>,
    raw: Seq<u8>,
    rounds: Seq<Seq<u8>>,
) -> bool
    decreases rounds.len(),
{
    rounds.len() == 0 || (rounds_are_stored_forms(scheme, raw, rounds.drop_last()) && (
    after_rounds(scheme, raw, rounds.drop_last()) matches Some(input) && is_stored_form(
        scheme,
        input,
        rounds.last(),
    )))
}

/// Decompressing a stored form of a level gives the level back.
pub proof fn law_decompress_inverts_compress(
    scheme: Option<SupercompressionScheme>,
    raw: Seq<u8>,
    stored: Seq<u8>,
)
    requires
        is_stored_form(scheme, raw, stored),
    ensures
        decompressed(scheme, stored, raw.len() as u64) == Ok::<Seq<u8>, Error>(raw),
{
}

/// Compressing a decompressed level again and decompressing it gives the
/// bytes it started from, however often it is repeated.
pub proof fn law_recompression_is_idempotent(
    scheme: Option<SupercompressionScheme>,
    raw: Seq<u8>,
    rounds: Seq<Seq<u8>>,
)
    requires
        rounds_are_stored_forms(scheme, raw, rounds),
    ensures
        after_rounds(scheme, raw, rounds) == Some(raw),
    decreases rounds.len(),
{
    if rounds.len() > 0 {
        law_recompression_is_idempotent(scheme, raw, rounds.drop_last());
        law_decompress_inverts_compress(scheme, raw, rounds.last());
    }
}

/// `zstd::bulk::compress` at the given level.
///
/// Trusted: whatever bytes come back are a stream whose content is `data`,
/// at every level. The bytes themselves are not pinned down: they may
/// differ between builds of the codec.
#[verifier::external_body]
fn zstd_compress(data: &[u8], level: i32) -> (encoded: Option<Vec<u8>>)
    ensures
        encoded matches Some(stored) ==> zstd_decoded(stored@) == Some(data@),
{
    zstd::bulk::compress(data, level).ok()
}

/// `zstd::bulk::decompress` into a buffer of `capacity` bytes.
///
/// Trusted: bytes that come back are the content of the stream; where none
/// come back, the stream does not decode or its content is longer than the
/// capacity. The buffer may hold more than was asked for, so content that
/// is longer than the capacity may come back all the same. The capacity is
/// kept to what a buffer can hold, beyond which allocating it panics.
#[verifier::external_body]
fn zstd_decompress(stored: &[u8], capacity: usize) -> (decoded: Option<Vec<u8>>)
    requires
        capacity <= isize::MAX,
    ensures
        match decoded {
            Some(bytes) => zstd_decoded(stored@) == Some(bytes@),
            None => zstd_decoded(stored@) matches Some(content) ==> content.len() > capacity,
        },
{
    zstd::bulk::decompress(stored, capacity).ok()
}

} // verus!
