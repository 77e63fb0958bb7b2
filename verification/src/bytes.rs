//! Little-endian integers and byte-sequence helpers shared by every section
//! of the container.

use std::borrow::Cow;
use vstd::prelude::*;

verus! {

/// The byte strings of a list of buffers, borrowed or owned.
pub open spec fn buffer_views(buffers: Seq<Cow<'_, [u8]>>) -> Seq<Seq<u8>> {
    Seq::new(buffers.len(), |i: int| buffers[i]@)
}

/// The bytes of a buffer, borrowed or owned.
pub fn borrowed_bytes<'b>(buffer: &'b Cow<'_, [u8]>) -> (bytes: &'b [u8])
    ensures
        bytes@ == buffer@,
{
    match buffer {
        Cow::Borrowed(borrowed) => borrowed,
        Cow::Owned(owned) => owned.as_slice(),
    }
}

/// The four bytes that hold `x`, least significant first.
#[verifier::opaque]
pub open spec fn le32(x: u32) -> Seq<u8> {
    seq![
        (x % 256) as u8,
        (x / 256 % 256) as u8,
        (x / 65536 % 256) as u8,
        (x / 16777216) as u8,
    ]
}

/// The number that four little-endian bytes hold.
pub open spec fn le32_value(s: Seq<u8>) -> int
    recommends
        s.len() == 4,
{
    s[0] + 256 * s[1] + 65536 * s[2] + 16777216 * s[3]
}

/// The eight bytes that hold `x`, least significant first.
#[verifier::opaque]
pub open spec fn le64(x: u64) -> Seq<u8> {
    le32((x % 0x1_0000_0000) as u32) + le32((x / 0x1_0000_0000) as u32)
}

/// The number that eight little-endian bytes hold.
pub open spec fn le64_value(s: Seq<u8>) -> int
    recommends
        s.len() == 8,
{
    le32_value(s.subrange(0, 4)) + 0x1_0000_0000 * le32_value(s.subrange(4, 8))
}

/// Decoding undoes encoding, for 32-bit values.
pub proof fn lemma_le32_round_trip(x: u32)
    ensures
        le32(x).len() == 4,
        le32_value(le32(x)) == x,
{
    reveal(le32);
}

/// Encoding undoes decoding, for any four bytes.
pub proof fn lemma_le32_of_value(s: Seq<u8>)
    requires
        s.len() == 4,
    ensures
        0 <= le32_value(s) <= u32::MAX,
        le32(le32_value(s) as u32) == s,
{
    let b0 = s[0] as int;
    let b1 = s[1] as int;
    let b2 = s[2] as int;
    let b3 = s[3] as int;
    let v = le32_value(s);
    assert(v == b0 + 256 * (b1 + 256 * b2 + 65536 * b3));
    assert(v % 256 == b0 && v / 256 == b1 + 256 * b2 + 65536 * b3);
    assert(v == (b0 + 256 * b1) + 65536 * (b2 + 256 * b3));
    assert(v / 65536 == b2 + 256 * b3);
    assert(v == (b0 + 256 * b1 + 65536 * b2) + 16777216 * b3);
    assert(v / 16777216 == b3);
    reveal(le32);
    assert(le32(v as u32) =~= s);
}

/// Decoding undoes encoding, for 64-bit values.
pub proof fn lemma_le64_round_trip(x: u64)
    ensures
        le64(x).len() == 8,
        le64_value(le64(x)) == x,
{
    reveal(le64);
    let low = (x % 0x1_0000_0000) as u32;
    let high = (x / 0x1_0000_0000) as u32;
    lemma_le32_round_trip(low);
    lemma_le32_round_trip(high);
    assert(le64(x).subrange(0, 4) =~= le32(low));
    assert(le64(x).subrange(4, 8) =~= le32(high));
}

/// Appends `data` to `out`.
pub fn append(out: &mut Vec<u8>, data: &[u8])
    ensures
        final(out)@ == old(out)@ + data@,
{
    let ghost before = out@;
    let mut i: usize = 0;
    while i < data.len()
        invariant
            i <= data.len(),
            out@ == before + data@.subrange(0, i as int),
        decreases data.len() - i,
    {
        out.push(data[i]);
        i += 1;
    }
    assert(data@.subrange(0, data@.len() as int) =~= data@);
}

/// Appends the little-endian bytes of `x` to `out`.
pub fn push_le32(out: &mut Vec<u8>, x: u32)
    ensures
        final(out)@ == old(out)@ + le32(x),
{
    let ghost before = out@;
    out.push((x % 256) as u8);
    out.push((x / 256 % 256) as u8);
    out.push((x / 65536 % 256) as u8);
    out.push((x / 16777216) as u8);
    proof {
        reveal(le32);
    }
    assert(out@ =~= before + le32(x));
}

/// Appends the little-endian bytes of `x` to `out`.
pub fn push_le64(out: &mut Vec<u8>, x: u64)
    ensures
        final(out)@ == old(out)@ + le64(x),
{
    let ghost before = out@;
    push_le32(out, (x % 0x1_0000_0000) as u32);
    push_le32(out, (x / 0x1_0000_0000) as u32);
    proof {
        reveal(le64);
    }
    assert(out@ =~= before + le64(x));
}

/// Reads the little-endian 32-bit value at offset `at`.
pub fn read_le32(data: &[u8], at: usize) -> (x: u32)
    requires
        at + 4 <= data.len(),
    ensures
        x == le32_value(data@.subrange(at as int, at + 4)),
{
    let b0: u32 = data[at] as u32;
    let b1: u32 = data[at + 1] as u32;
    let b2: u32 = data[at + 2] as u32;
    let b3: u32 = data[at + 3] as u32;
    b0 + 256 * b1 + 65536 * b2 + 16777216 * b3
}

/// Reads the little-endian 64-bit value at offset `at`.
pub fn read_le64(data: &[u8], at: usize) -> (x: u64)
    requires
        at + 8 <= data.len(),
    ensures
        x == le64_value(data@.subrange(at as int, at + 8)),
{
    let low: u64 = read_le32(data, at) as u64;
    let high: u64 = read_le32(data, at + 4) as u64;
    proof {
        let s = data@.subrange(at as int, at + 8);
        assert(s.subrange(0, 4) =~= data@.subrange(at as int, at + 4));
        assert(s.subrange(4, 8) =~= data@.subrange(at + 4, at + 8));
        lemma_le32_of_value(s.subrange(0, 4));
        lemma_le32_of_value(s.subrange(4, 8));
    }
    low + 0x1_0000_0000 * high
}

} // verus!
