//! Key/value pairs given as text: `key=value` pairs, one after the other,
//! with `;` between them.

use crate::metadata::{collected, Metadata, Pair};
use vstd::prelude::*;
use vstd::slice::{slice_subrange, slice_to_vec};
use vstd::string::StringSliceAdditionalSpecFns;

verus! {

/// The byte that ends a pair: `;`.
pub const PAIR_END: u8 = 0x3B;

/// The byte that ends a key: `=`.
pub const KEY_END: u8 = 0x3D;

/// Where the first `byte` of `s` at or behind `from` is, or `s.len()` if
/// there is none.
pub open spec fn first_index(s: Seq<u8>, byte: u8, from: int) -> int
    decreases s.len() - from,
{
    if from >= s.len() {
        s.len() as int
    } else if s[from] == byte {
        from
    } else {
        first_index(s, byte, from + 1)
    }
}

/// The pair that a segment of text holds: the key is what stands before the
/// first `=`, the value is everything behind it. `None` without a `=`.
pub open spec fn segment_pair(segment: Seq<u8>) -> Option<Pair> {
    let at = first_index(segment, KEY_END, 0);
    if at >= segment.len() {
        None
    } else {
        Some(
            Pair { key: segment.subrange(0, at), value: segment.subrange(at + 1, segment.len() as int) },
        )
    }
}

/// The pairs that a text holds, in their order, or the first segment that
/// is not empty and has no `=`. Empty segments are passed over.
pub open spec fn parsed_pairs(text: Seq<u8>) -> Result<Seq<Pair>, Seq<u8>>
    decreases text.len(),
{
    let end = first_index(text, PAIR_END, 0);
    let segment = text.subrange(0, end);
    if segment.len() > 0 && segment_pair(segment) is None {
        Err(segment)
    } else {
        let rest = if end < 0 || end >= text.len() {
            Ok(Seq::empty())
        } else {
            parsed_pairs(text.skip(end + 1))
        };
        match rest {
            Ok(list) => if segment.len() > 0 {
                Ok(seq![segment_pair(segment).unwrap()] + list)
            } else {
                Ok(list)
            },
            Err(e) => Err(e),
        }
    }
}

/// The mapping that a text holds, a later pair replacing an earlier one
/// with the same key, or the first segment that has no `=`.
pub open spec fn parsed_mapping(text: Seq<u8>) -> Result<Seq<Pair>, Seq<u8>> {
    match parsed_pairs(text) {
        Ok(list) => Ok(collected(list)),
        Err(segment) => Err(segment),
    }
}

/// The first index of `byte` in `data` between `from` and `to`, or `to`.
fn find(data: &[u8], byte: u8, from: usize, to: usize) -> (at: usize)
    requires
        from <= to <= data.len(),
    ensures
        from <= at <= to,
        at == first_index(data@.subrange(from as int, to as int), byte, 0) + from,
{
    let ghost part = data@.subrange(from as int, to as int);
    let mut at: usize = from;
    while at < to && data[at] != byte
        invariant
            from <= at <= to,
            to <= data.len(),
            part == data@.subrange(from as int, to as int),
            first_index(part, byte, 0) == first_index(part, byte, at - from),
        decreases to - at,
    {
        assert(part[at - from] == data@[at as int]);
        at += 1;
    }
    proof {
        if at < to {
            assert(part[at - from] == data@[at as int]);
        }
    }
    at
}

/// Parses `key=value` pairs that are separated by `;` into a mapping.
///
/// Empty segments are passed over; a key may be empty; a value may hold
/// further `=`; a later pair replaces an earlier one with the same key.
/// Fails with the first segment that is not empty and holds no `=`.
pub fn parse_key_value_pairs(text: &str) -> (result: Result<Metadata, Vec<u8>>)
    ensures
        match result {
            Ok(metadata) => metadata.well_formed() && parsed_mapping(text.spec_bytes()) == Ok::<
                Seq<Pair>,
                Seq<u8>,
            >(metadata@),
            Err(segment) => parsed_mapping(text.spec_bytes()) == Err::<Seq<Pair>, Seq<u8>>(
                segment@,
            ),
        },
{
    let data = text.as_bytes();
    let mut metadata = Metadata::new();
    let ghost mut list: Seq<Pair> = Seq::empty();
    let mut at: usize = 0;
    proof {
        assert(data@.skip(0) =~= data@);
    }
    while at < data.len()
        invariant
            at <= data.len(),
            data@ == text.spec_bytes(),
            metadata.well_formed(),
            metadata@ == collected(list),
            match parsed_pairs(data@.skip(at as int)) {
                Ok(rest) => parsed_pairs(data@) == Ok::<Seq<Pair>, Seq<u8>>(list + rest),
                Err(e) => parsed_pairs(data@) == Err::<Seq<Pair>, Seq<u8>>(e),
            },
        decreases data.len() - at,
    {
        let ghost here = data@.skip(at as int);
        let end = find(data, PAIR_END, at, data.len());
        let segment = slice_subrange(data, at, end);
        proof {
            assert(data@.subrange(at as int, data.len() as int) =~= here);
            assert(here.subrange(0, end - at) =~= segment@);
        }
        let next: usize = if end < data.len() {
            end + 1
        } else {
            end
        };
        proof {
            if end < data.len() {
                assert(here.skip(end - at + 1) =~= data@.skip(next as int));
            } else {
                assert(data@.skip(next as int) =~= Seq::<u8>::empty());
                assert(parsed_pairs(Seq::<u8>::empty()) == Ok::<Seq<Pair>, Seq<u8>>(Seq::empty()))
                    by {
                    assert(Seq::<u8>::empty().subrange(0, 0) =~= Seq::<u8>::empty());
                }
            }
        }
        if segment.len() > 0 {
            let split = find(segment, KEY_END, 0, segment.len());
            proof {
                assert(segment@.subrange(0, segment.len() as int) =~= segment@);
            }
            if split >= segment.len() {
                return Err(slice_to_vec(segment));
            }
            let key = slice_subrange(segment, 0, split);
            let value = slice_subrange(segment, split + 1, segment.len());
            let ghost pair = Pair { key: key@, value: value@ };
            metadata.insert(key, value);
            proof {
                assert(segment_pair(segment@) == Some(pair));
                match parsed_pairs(data@.skip(next as int)) {
                    Ok(tail) => {
                        assert(list + (seq![pair] + tail) =~= list.push(pair) + tail);
                    },
                    Err(_) => {},
                }
                assert(list.push(pair).drop_last() =~= list);
                list = list.push(pair);
            }
        }
        at = next;
    }
    proof {
        assert(data@.skip(data.len() as int) =~= Seq::<u8>::empty());
        assert(Seq::<u8>::empty().subrange(0, 0) =~= Seq::<u8>::empty());
        assert(list + Seq::<Pair>::empty() =~= list);
    }
    Ok(metadata)
}

} // verus!
