//! The fixed header and the level index entries, and their byte encodings.

use crate::bytes::{
    le32, le32_value, le64, le64_value, lemma_le32_round_trip, lemma_le64_round_trip, push_le32,
    push_le64, read_le32, read_le64,
};
use crate::error::Error;
use vstd::prelude::*;

verus! {

/// Length in bytes of the fixed header.
pub const HEADER_LENGTH: usize = 80;

/// Length in bytes of one level index entry.
pub const LEVEL_INDEX_LENGTH: usize = 24;

/// Length in bytes of the identifier that opens every container.
pub const IDENTIFIER_LENGTH: usize = 12;

/// The twelve bytes that open every container.
pub open spec fn identifier() -> Seq<u8> {
    seq![0xABu8, 0x4B, 0x54, 0x58, 0x20, 0x32, 0x30, 0xBB, 0x0D, 0x0A, 0x1A, 0x0A]
}

/// A pixel format, by its Vulkan format number. Zero is not a format.
#[derive(Clone, Copy, Debug, PartialEq, Eq, Structural)]
pub struct Format {
    pub code: u32,
}

impl Format {
    /// A format number names a format unless it is zero.
    pub open spec fn is_valid(self) -> bool {
        self.code != 0
    }

    /// The format with the given number, or `None` for zero.
    pub fn new(code: u32) -> (format: Option<Format>)
        ensures
            format == format_of_code(code),
    {
        if code == 0 {
            None
        } else {
            Some(Format { code })
        }
    }

    /// The format's number.
    pub fn value(&self) -> (code: u32)
        ensures
            code == self.code,
    {
        self.code
    }
}

/// A whole-level compression scheme, by its number. Zero is not a scheme.
#[derive(Clone, Copy, Debug, PartialEq, Eq, Structural)]
pub struct SupercompressionScheme {
    pub code: u32,
}

/// The number of the BasisLZ scheme.
pub const BASIS_LZ: u32 = 1;

/// The number of the Zstandard scheme.
pub const ZSTANDARD: u32 = 2;

/// The number of the ZLIB scheme.
pub const ZLIB: u32 = 3;

impl SupercompressionScheme {
    /// A scheme number names a scheme unless it is zero.
    pub open spec fn is_valid(self) -> bool {
        self.code != 0
    }

    /// The scheme with the given number, or `None` for zero.
    pub fn new(code: u32) -> (scheme: Option<SupercompressionScheme>)
        ensures
            scheme == scheme_of_code(code),
    {
        if code == 0 {
            None
        } else {
            Some(SupercompressionScheme { code })
        }
    }

    /// The Zstandard scheme.
    pub fn zstandard() -> (scheme: SupercompressionScheme)
        ensures
            scheme.code == ZSTANDARD,
    {
        SupercompressionScheme { code: ZSTANDARD }
    }

    /// The scheme's number.
    pub fn value(&self) -> (code: u32)
        ensures
            code == self.code,
    {
        self.code
    }
}

/// The number written for an optional format: zero when absent.
pub open spec fn format_code(format: Option<Format>) -> u32 {
    match format {
        Some(f) => f.code,
        None => 0,
    }
}

/// The optional format read from a number: absent when zero.
pub open spec fn format_of_code(code: u32) -> Option<Format> {
    if code == 0 {
        None
    } else {
        Some(Format { code })
    }
}

/// The number written for an optional scheme: zero when absent.
pub open spec fn scheme_code(scheme: Option<SupercompressionScheme>) -> u32 {
    match scheme {
        Some(s) => s.code,
        None => 0,
    }
}

/// The optional scheme read from a number: absent when zero.
pub open spec fn scheme_of_code(code: u32) -> Option<SupercompressionScheme> {
    if code == 0 {
        None
    } else {
        Some(SupercompressionScheme { code })
    }
}

/// What a caller decides about a container before its levels are laid out.
#[derive(Clone, Copy, Debug)]
pub struct WriterHeader {
    pub format: Option<Format>,
    pub type_size: u32,
    pub pixel_width: u32,
    pub pixel_height: u32,
    pub pixel_depth: u32,
    pub layer_count: u32,
    pub face_count: u32,
    pub supercompression_scheme: Option<SupercompressionScheme>,
}

impl WriterHeader {
    /// A header describes a plain texture or a cubemap, and names its format
    /// and scheme by numbers other than zero.
    pub open spec fn is_valid(self) -> bool {
        &&& self.face_count == 1 || self.face_count == 6
        &&& self.format matches Some(f) ==> f.is_valid()
        &&& self.supercompression_scheme matches Some(s) ==> s.is_valid()
    }
}

/// Where the three descriptive sections lie in the container.
#[derive(Clone, Copy, Debug, PartialEq, Eq, Structural)]
pub struct Index {
    pub dfd_byte_offset: u32,
    pub dfd_byte_length: u32,
    pub kvd_byte_offset: u32,
    pub kvd_byte_length: u32,
    pub sgd_byte_offset: u64,
    pub sgd_byte_length: u64,
}

/// The fixed header of a container.
#[derive(Clone, Copy, Debug)]
pub struct Header {
    pub format: Option<Format>,
    pub type_size: u32,
    pub pixel_width: u32,
    pub pixel_height: u32,
    pub pixel_depth: u32,
    pub layer_count: u32,
    pub face_count: u32,
    pub level_count: u32,
    pub supercompression_scheme: Option<SupercompressionScheme>,
    pub index: Index,
}

/// Where one mip level lies in the container, and how long it is once
/// decompressed.
#[derive(Clone, Copy, Debug, PartialEq, Eq, Structural)]
pub struct LevelIndexEntry {
    pub byte_offset: u64,
    pub byte_length: u64,
    pub uncompressed_byte_length: u64,
}

/// The 80 bytes of a header: the identifier, nine 32-bit fields, then the
/// section index, every number little-endian.
#[verifier::opaque]
pub open spec fn header_encoding(h: Header) -> Seq<u8> {
    identifier() + le32(format_code(h.format)) + le32(h.type_size) + le32(h.pixel_width) + le32(
        h.pixel_height,
    ) + le32(h.pixel_depth) + le32(h.layer_count) + le32(h.face_count) + le32(h.level_count)
        + le32(scheme_code(h.supercompression_scheme)) + le32(h.index.dfd_byte_offset) + le32(
        h.index.dfd_byte_length,
    ) + le32(h.index.kvd_byte_offset) + le32(h.index.kvd_byte_length) + le64(
        h.index.sgd_byte_offset,
    ) + le64(h.index.sgd_byte_length)
}

/// The 24 bytes of a level index entry: offset, stored length and
/// uncompressed length, each a little-endian 64-bit number.
pub open spec fn level_index_encoding(e: LevelIndexEntry) -> Seq<u8> {
    le64(e.byte_offset) + le64(e.byte_length) + le64(e.uncompressed_byte_length)
}

/// The 32-bit field at offset `at` of `s`.
pub open spec fn field32(s: Seq<u8>, at: int) -> u32 {
    le32_value(s.subrange(at, at + 4)) as u32
}

/// The 64-bit field at offset `at` of `s`.
pub open spec fn field64(s: Seq<u8>, at: int) -> u64 {
    le64_value(s.subrange(at, at + 8)) as u64
}

/// The header that the first 80 bytes of `s` hold, whatever their identifier.
#[verifier::opaque]
pub open spec fn header_decoding(s: Seq<u8>) -> Header
    recommends
        s.len() >= 80,
{
    Header {
        format: format_of_code(field32(s, 12)),
        type_size: field32(s, 16),
        pixel_width: field32(s, 20),
        pixel_height: field32(s, 24),
        pixel_depth: field32(s, 28),
        layer_count: field32(s, 32),
        face_count: field32(s, 36),
        level_count: field32(s, 40),
        supercompression_scheme: scheme_of_code(field32(s, 44)),
        index: Index {
            dfd_byte_offset: field32(s, 48),
            dfd_byte_length: field32(s, 52),
            kvd_byte_offset: field32(s, 56),
            kvd_byte_length: field32(s, 60),
            sgd_byte_offset: field64(s, 64),
            sgd_byte_length: field64(s, 72),
        },
    }
}

/// The level index entry that the 24 bytes at offset `at` of `s` hold.
pub open spec fn level_index_decoding(s: Seq<u8>, at: int) -> LevelIndexEntry {
    LevelIndexEntry {
        byte_offset: field64(s, at),
        byte_length: field64(s, at + 8),
        uncompressed_byte_length: field64(s, at + 16),
    }
}

impl Header {
    /// The format and the scheme, where present, are not zero.
    pub open spec fn is_valid(self) -> bool {
        &&& self.format matches Some(f) ==> f.is_valid()
        &&& self.supercompression_scheme matches Some(s) ==> s.is_valid()
    }

    /// Parses the fixed header at the start of `data`.
    ///
    /// Fails with `TruncatedContainer` when fewer than 80 bytes are given, and
    /// with `BadIdentifier` when they do not open with the identifier.
    pub fn from_bytes(data: &[u8]) -> (result: Result<Header, Error>)
        ensures
            data@.len() < 80 ==> result == Err::<Header, Error>(Error::TruncatedContainer),
            data@.len() >= 80 && data@.subrange(0, 12) != identifier() ==> result == Err::<
                Header,
                Error,
            >(Error::BadIdentifier),
            data@.len() >= 80 && data@.subrange(0, 12) == identifier() ==> result == Ok::<
                Header,
                Error,
            >(header_decoding(data@)),
    {
        if data.len() < HEADER_LENGTH {
            return Err(Error::TruncatedContainer);
        }
        if !starts_with_identifier(data) {
            return Err(Error::BadIdentifier);
        }
        proof {
            reveal(header_decoding);
        }
        Ok(
            Header {
                format: Format::new(read_le32(data, 12)),
                type_size: read_le32(data, 16),
                pixel_width: read_le32(data, 20),
                pixel_height: read_le32(data, 24),
                pixel_depth: read_le32(data, 28),
                layer_count: read_le32(data, 32),
                face_count: read_le32(data, 36),
                level_count: read_le32(data, 40),
                supercompression_scheme: SupercompressionScheme::new(read_le32(data, 44)),
                index: Index {
                    dfd_byte_offset: read_le32(data, 48),
                    dfd_byte_length: read_le32(data, 52),
                    kvd_byte_offset: read_le32(data, 56),
                    kvd_byte_length: read_le32(data, 60),
                    sgd_byte_offset: read_le64(data, 64),
                    sgd_byte_length: read_le64(data, 72),
                },
            },
        )
    }

    /// The 80 bytes of this header.
    pub fn to_bytes(&self) -> (bytes: Vec<u8>)
        ensures
            bytes@ == header_encoding(*self),
    {
        let mut bytes: Vec<u8> = Vec::new();
        push_identifier(&mut bytes);
        push_le32(
            &mut bytes,
            match self.format {
                Some(f) => f.code,
                None => 0,
            },
        );
        push_le32(&mut bytes, self.type_size);
        push_le32(&mut bytes, self.pixel_width);
        push_le32(&mut bytes, self.pixel_height);
        push_le32(&mut bytes, self.pixel_depth);
        push_le32(&mut bytes, self.layer_count);
        push_le32(&mut bytes, self.face_count);
        push_le32(&mut bytes, self.level_count);
        push_le32(
            &mut bytes,
            match self.supercompression_scheme {
                Some(s) => s.code,
                None => 0,
            },
        );
        push_le32(&mut bytes, self.index.dfd_byte_offset);
        push_le32(&mut bytes, self.index.dfd_byte_length);
        push_le32(&mut bytes, self.index.kvd_byte_offset);
        push_le32(&mut bytes, self.index.kvd_byte_length);
        push_le64(&mut bytes, self.index.sgd_byte_offset);
        push_le64(&mut bytes, self.index.sgd_byte_length);
        proof {
            reveal(header_encoding);
        }
        bytes
    }
}

impl LevelIndexEntry {
    /// Parses the level index entry at offset `at` of `data`.
    pub fn from_bytes(data: &[u8], at: usize) -> (entry: LevelIndexEntry)
        requires
            at + 24 <= data.len(),
        ensures
            entry == level_index_decoding(data@, at as int),
    {
        LevelIndexEntry {
            byte_offset: read_le64(data, at),
            byte_length: read_le64(data, at + 8),
            uncompressed_byte_length: read_le64(data, at + 16),
        }
    }

    /// The 24 bytes of this entry.
    pub fn to_bytes(&self) -> (bytes: Vec<u8>)
        ensures
            bytes@ == level_index_encoding(*self),
    {
        let mut bytes: Vec<u8> = Vec::new();
        push_le64(&mut bytes, self.byte_offset);
        push_le64(&mut bytes, self.byte_length);
        push_le64(&mut bytes, self.uncompressed_byte_length);
        assert(bytes@ =~= level_index_encoding(*self));
        bytes
    }
}

/// A header takes 80 bytes and opens with the identifier.
pub proof fn lemma_header_length(h: Header)
    ensures
        header_encoding(h).len() == 80,
        header_encoding(h).subrange(0, 12) == identifier(),
{
    reveal(header_encoding);
    lemma_le32_round_trip(format_code(h.format));
    lemma_le32_round_trip(h.type_size);
    lemma_le32_round_trip(h.pixel_width);
    lemma_le32_round_trip(h.pixel_height);
    lemma_le32_round_trip(h.pixel_depth);
    lemma_le32_round_trip(h.layer_count);
    lemma_le32_round_trip(h.face_count);
    lemma_le32_round_trip(h.level_count);
    lemma_le32_round_trip(scheme_code(h.supercompression_scheme));
    lemma_le32_round_trip(h.index.dfd_byte_offset);
    lemma_le32_round_trip(h.index.dfd_byte_length);
    lemma_le32_round_trip(h.index.kvd_byte_offset);
    lemma_le32_round_trip(h.index.kvd_byte_length);
    lemma_le64_round_trip(h.index.sgd_byte_offset);
    lemma_le64_round_trip(h.index.sgd_byte_length);
    assert(header_encoding(h).subrange(0, 12) =~= identifier());
}

/// What follows the first 80 bytes does not change the header they hold.
pub proof fn lemma_header_decoding_of_prefix(head: Seq<u8>, rest: Seq<u8>)
    requires
        head.len() == 80,
    ensures
        header_decoding(head + rest) == header_decoding(head),
        (head + rest).subrange(0, 12) == head.subrange(0, 12),
{
    reveal(header_decoding);
    let s = head + rest;
    assert(s.subrange(0, 12) =~= head.subrange(0, 12));
    assert(s.subrange(12, 16) =~= head.subrange(12, 16));
    assert(s.subrange(16, 20) =~= head.subrange(16, 20));
    assert(s.subrange(20, 24) =~= head.subrange(20, 24));
    assert(s.subrange(24, 28) =~= head.subrange(24, 28));
    assert(s.subrange(28, 32) =~= head.subrange(28, 32));
    assert(s.subrange(32, 36) =~= head.subrange(32, 36));
    assert(s.subrange(36, 40) =~= head.subrange(36, 40));
    assert(s.subrange(40, 44) =~= head.subrange(40, 44));
    assert(s.subrange(44, 48) =~= head.subrange(44, 48));
    assert(s.subrange(48, 52) =~= head.subrange(48, 52));
    assert(s.subrange(52, 56) =~= head.subrange(52, 56));
    assert(s.subrange(56, 60) =~= head.subrange(56, 60));
    assert(s.subrange(60, 64) =~= head.subrange(60, 64));
    assert(s.subrange(64, 72) =~= head.subrange(64, 72));
    assert(s.subrange(72, 80) =~= head.subrange(72, 80));
}

/// An entry is read from the 24 bytes at its offset alone.
pub proof fn lemma_level_index_decoding_at(s: Seq<u8>, at: int)
    requires
        0 <= at,
        at + 24 <= s.len(),
    ensures
        level_index_decoding(s, at) == level_index_decoding(s.subrange(at, at + 24), 0),
{
    let e = s.subrange(at, at + 24);
    assert(s.subrange(at, at + 8) =~= e.subrange(0, 8));
    assert(s.subrange(at + 8, at + 8 + 8) =~= e.subrange(8, 16));
    assert(s.subrange(at + 16, at + 16 + 8) =~= e.subrange(16, 24));
}

/// A header survives being encoded and decoded again.
pub proof fn lemma_header_round_trip(h: Header)
    requires
        h.is_valid(),
    ensures
        header_encoding(h).len() == 80,
        header_encoding(h).subrange(0, 12) == identifier(),
        header_decoding(header_encoding(h)) == h,
{
    reveal(header_encoding);
    reveal(header_decoding);
    let s = header_encoding(h);
    lemma_le32_round_trip(format_code(h.format));
    lemma_le32_round_trip(h.type_size);
    lemma_le32_round_trip(h.pixel_width);
    lemma_le32_round_trip(h.pixel_height);
    lemma_le32_round_trip(h.pixel_depth);
    lemma_le32_round_trip(h.layer_count);
    lemma_le32_round_trip(h.face_count);
    lemma_le32_round_trip(h.level_count);
    lemma_le32_round_trip(scheme_code(h.supercompression_scheme));
    lemma_le32_round_trip(h.index.dfd_byte_offset);
    lemma_le32_round_trip(h.index.dfd_byte_length);
    lemma_le32_round_trip(h.index.kvd_byte_offset);
    lemma_le32_round_trip(h.index.kvd_byte_length);
    lemma_le64_round_trip(h.index.sgd_byte_offset);
    lemma_le64_round_trip(h.index.sgd_byte_length);
    lemma_header_pieces(
        identifier(),
        le32(format_code(h.format)),
        le32(h.type_size),
        le32(h.pixel_width),
        le32(h.pixel_height),
        le32(h.pixel_depth),
        le32(h.layer_count),
        le32(h.face_count),
        le32(h.level_count),
        le32(scheme_code(h.supercompression_scheme)),
        le32(h.index.dfd_byte_offset),
        le32(h.index.dfd_byte_length),
        le32(h.index.kvd_byte_offset),
        le32(h.index.kvd_byte_length),
        le64(h.index.sgd_byte_offset),
        le64(h.index.sgd_byte_length),
    );
    let d = header_decoding(s);
    assert(d.format == h.format);
    assert(d.supercompression_scheme == h.supercompression_scheme);
    assert(d.index == h.index);
}

/// Where each piece of a header lies once the pieces are joined.
proof fn lemma_header_pieces(
    id: Seq<u8>,
    w0: Seq<u8>,
    w1: Seq<u8>,
    w2: Seq<u8>,
    w3: Seq<u8>,
    w4: Seq<u8>,
    w5: Seq<u8>,
    w6: Seq<u8>,
    w7: Seq<u8>,
    w8: Seq<u8>,
    w9: Seq<u8>,
    w10: Seq<u8>,
    w11: Seq<u8>,
    w12: Seq<u8>,
    a: Seq<u8>,
    b: Seq<u8>,
)
    requires
        id.len() == 12,
        w0.len() == 4,
        w1.len() == 4,
        w2.len() == 4,
        w3.len() == 4,
        w4.len() == 4,
        w5.len() == 4,
        w6.len() == 4,
        w7.len() == 4,
        w8.len() == 4,
        w9.len() == 4,
        w10.len() == 4,
        w11.len() == 4,
        w12.len() == 4,
        a.len() == 8,
        b.len() == 8,
    ensures
        ({
            let s = id + w0 + w1 + w2 + w3 + w4 + w5 + w6 + w7 + w8 + w9 + w10 + w11 + w12 + a + b;
            &&& s.len() == 80
            &&& s.subrange(0, 12) == id
            &&& s.subrange(12, 16) == w0
            &&& s.subrange(16, 20) == w1
            &&& s.subrange(20, 24) == w2
            &&& s.subrange(24, 28) == w3
            &&& s.subrange(28, 32) == w4
            &&& s.subrange(32, 36) == w5
            &&& s.subrange(36, 40) == w6
            &&& s.subrange(40, 44) == w7
            &&& s.subrange(44, 48) == w8
            &&& s.subrange(48, 52) == w9
            &&& s.subrange(52, 56) == w10
            &&& s.subrange(56, 60) == w11
            &&& s.subrange(60, 64) == w12
            &&& s.subrange(64, 72) == a
            &&& s.subrange(72, 80) == b
        }),
{
    let s = id + w0 + w1 + w2 + w3 + w4 + w5 + w6 + w7 + w8 + w9 + w10 + w11 + w12 + a + b;
    assert(s.subrange(0, 12) =~= id);
    assert(s.subrange(12, 16) =~= w0);
    assert(s.subrange(16, 20) =~= w1);
    assert(s.subrange(20, 24) =~= w2);
    assert(s.subrange(24, 28) =~= w3);
    assert(s.subrange(28, 32) =~= w4);
    assert(s.subrange(32, 36) =~= w5);
    assert(s.subrange(36, 40) =~= w6);
    assert(s.subrange(40, 44) =~= w7);
    assert(s.subrange(44, 48) =~= w8);
    assert(s.subrange(48, 52) =~= w9);
    assert(s.subrange(52, 56) =~= w10);
    assert(s.subrange(56, 60) =~= w11);
    assert(s.subrange(60, 64) =~= w12);
    assert(s.subrange(64, 72) =~= a);
    assert(s.subrange(72, 80) =~= b);
}

/// A level index entry survives being encoded and decoded again.
pub proof fn lemma_level_index_round_trip(e: LevelIndexEntry)
    ensures
        level_index_encoding(e).len() == 24,
        level_index_decoding(level_index_encoding(e), 0) == e,
{
    let s = level_index_encoding(e);
    lemma_le64_round_trip(e.byte_offset);
    lemma_le64_round_trip(e.byte_length);
    lemma_le64_round_trip(e.uncompressed_byte_length);
    assert(s.subrange(0, 8) =~= le64(e.byte_offset));
    assert(s.subrange(8, 16) =~= le64(e.byte_length));
    assert(s.subrange(16, 24) =~= le64(e.uncompressed_byte_length));
}

/// Appends the container identifier to `out`.
fn push_identifier(out: &mut Vec<u8>)
    ensures
        final(out)@ == old(out)@ + identifier(),
{
    let ghost before = out@;
    out.push(0xAB);
    out.push(0x4B);
    out.push(0x54);
    out.push(0x58);
    out.push(0x20);
    out.push(0x32);
    out.push(0x30);
    out.push(0xBB);
    out.push(0x0D);
    out.push(0x0A);
    out.push(0x1A);
    out.push(0x0A);
    assert(out@ =~= before + identifier());
}

/// Whether `data` opens with the container identifier.
fn starts_with_identifier(data: &[u8]) -> (found: bool)
    requires
        data.len() >= 12,
    ensures
        found == (data@.subrange(0, 12) == identifier()),
{
    let found = data[0] == 0xAB && data[1] == 0x4B && data[2] == 0x54 && data[3] == 0x58
        && data[4] == 0x20 && data[5] == 0x32 && data[6] == 0x30 && data[7] == 0xBB && data[8]
        == 0x0D && data[9] == 0x0A && data[10] == 0x1A && data[11] == 0x0A;
    proof {
        let head = data@.subrange(0, 12);
        if found {
            assert(head =~= identifier());
        } else {
            assert(head[0] == data@[0] && head[1] == data@[1] && head[2] == data@[2] && head[3]
                == data@[3] && head[4] == data@[4] && head[5] == data@[5] && head[6] == data@[6]
                && head[7] == data@[7] && head[8] == data@[8] && head[9] == data@[9] && head[10]
                == data@[10] && head[11] == data@[11]);
        }
    }
    found
}

} // verus!
