//! The key/value section: each entry is a little-endian length, the key, a
//! NUL, the value, and zero bytes up to the next multiple of four.

use crate::bytes::{append, le32, le32_value, lemma_le32_round_trip, push_le32, read_le32};
use crate::error::Error;
use crate::metadata::{
    collected, inserted, is_ascending, lemma_collected, Metadata, MetadataEntry, Pair,
};
use vstd::prelude::*;

verus! {

/// The key under which every written container names its producer:
/// the text `KTXwriter`.
pub open spec fn writer_key() -> Seq<u8> {
    seq![0x4Bu8, 0x54, 0x58, 0x77, 0x72, 0x69, 0x74, 0x65, 0x72]
}

/// The producer's name and version, ending in a NUL: the text
/// `ktx2_tools 0.1.0`.
pub open spec fn writer_value() -> Seq<u8> {
    seq![
        0x6Bu8, 0x74, 0x78, 0x32, 0x5F, 0x74, 0x6F, 0x6F, 0x6C, 0x73, 0x20, 0x30, 0x2E, 0x31, 0x2E,
        0x30, 0x00,
    ]
}

/// The pairs with the producer's entry bound among them.
pub open spec fn with_writer(pairs: Seq<Pair>) -> Seq<Pair> {
    inserted(pairs, writer_key(), writer_value())
}

/// `n` zero bytes.
pub open spec fn zeros(n: nat) -> Seq<u8> {
    Seq::new(n, |i: int| 0u8)
}

/// How many bytes bring a length of `n` up to a multiple of four.
pub open spec fn padding_length(n: nat) -> nat {
    ((4 - n % 4) % 4) as nat
}

/// What an entry's length counts: the key, a NUL, and the value.
pub open spec fn entry_body(pair: Pair) -> Seq<u8> {
    pair.key + seq![0u8] + pair.value
}

/// One entry as it is written: the length of its body, the body, the padding.
pub open spec fn entry_encoding(pair: Pair) -> Seq<u8> {
    let body = entry_body(pair);
    le32(body.len() as u32) + body + zeros(padding_length(body.len()))
}

/// The section that holds `pairs`, in their order.
pub open spec fn section_encoding(pairs: Seq<Pair>) -> Seq<u8>
    decreases pairs.len(),
{
    if pairs.len() == 0 {
        Seq::empty()
    } else {
        section_encoding(pairs.drop_last()) + entry_encoding(pairs.last())
    }
}

/// Whether the length of each entry's body fits its 32-bit prefix.
pub open spec fn entries_fit(pairs: Seq<Pair>) -> bool {
    forall|i: int| 0 <= i < pairs.len() ==> (#[trigger] entry_body(pairs[i])).len() <= u32::MAX
}

/// An encoded entry fills a whole number of four-byte words.
pub proof fn lemma_entry_is_padded(pair: Pair)
    ensures
        entry_encoding(pair).len() == 4 + entry_body(pair).len() + padding_length(
            entry_body(pair).len(),
        ),
        entry_encoding(pair).len() % 4 == 0,
{
    lemma_le32_round_trip(entry_body(pair).len() as u32);
}

/// An encoded section fills a whole number of four-byte words.
pub proof fn law_section_is_padded(pairs: Seq<Pair>)
    ensures
        section_encoding(pairs).len() % 4 == 0,
    decreases pairs.len(),
{
    if pairs.len() > 0 {
        law_section_is_padded(pairs.drop_last());
        lemma_entry_is_padded(pairs.last());
    }
}

/// Alone, the producer's entry fits its length prefix.
pub proof fn lemma_writer_alone_fits()
    ensures
        with_writer(Seq::<Pair>::empty()) == seq![
            Pair { key: writer_key(), value: writer_value() },
        ],
        entries_fit(with_writer(Seq::<Pair>::empty())),
{
    let alone = with_writer(Seq::<Pair>::empty());
    assert(alone =~= seq![Pair { key: writer_key(), value: writer_value() }]);
    assert(entry_body(alone[0]).len() == 27);
}

/// The producer's key.
pub fn writer_key_bytes() -> (key: Vec<u8>)
    ensures
        key@ == writer_key(),
{
    let key: Vec<u8> = vec![0x4B, 0x54, 0x58, 0x77, 0x72, 0x69, 0x74, 0x65, 0x72];
    assert(key@ =~= writer_key());
    key
}

/// The producer's name and version.
pub fn writer_value_bytes() -> (value: Vec<u8>)
    ensures
        value@ == writer_value(),
{
    let value: Vec<u8> = vec![
        0x6B, 0x74, 0x78, 0x32, 0x5F, 0x74, 0x6F, 0x6F, 0x6C, 0x73, 0x20, 0x30, 0x2E, 0x31, 0x2E,
        0x30, 0x00,
    ];
    assert(value@ =~= writer_value());
    value
}

/// Encodes the entries of `metadata` as a key/value section.
///
/// Fails with `ContainerTooLarge` when the body of an entry is too long for
/// its length prefix.
pub fn encode_entries(metadata: &Metadata) -> (result: Result<Vec<u8>, Error>)
    ensures
        match result {
            Ok(bytes) => entries_fit(metadata@) && bytes@ == section_encoding(metadata@),
            Err(e) => e == Error::ContainerTooLarge && !entries_fit(metadata@),
        },
{
    let mut out: Vec<u8> = Vec::new();
    let mut i: usize = 0;
    while i < metadata.len()
        invariant
            i <= metadata@.len(),
            out@ == section_encoding(metadata@.take(i as int)),
            out@.len() % 4 == 0,
            forall|j: int| 0 <= j < i ==> (#[trigger] entry_body(metadata@[j])).len() <= u32::MAX,
        decreases metadata@.len() - i,
    {
        let key = metadata.key_at(i);
        let value = metadata.value_at(i);
        let ghost pair = metadata@[i as int];
        let ghost before = out@;
        if key.len() >= u32::MAX as usize || value.len() > u32::MAX as usize - 1 - key.len() {
            assert(entry_body(metadata@[i as int]).len() > u32::MAX);
            return Err(Error::ContainerTooLarge);
        }
        let length: u32 = (key.len() + 1 + value.len()) as u32;
        push_le32(&mut out, length);
        append(&mut out, key);
        out.push(0);
        append(&mut out, value);
        proof {
            lemma_le32_round_trip(length);
            assert(out@ =~= before + le32(length) + entry_body(pair));
        }
        let ghost unpadded = out@;
        while out.len() % 4 != 0
            invariant
                unpadded.len() == before.len() + 4 + entry_body(pair).len(),
                before.len() % 4 == 0,
                unpadded.len() <= out@.len() <= unpadded.len() + padding_length(
                    entry_body(pair).len(),
                ),
                out@ == unpadded + zeros((out@.len() - unpadded.len()) as nat),
            decreases unpadded.len() + 4 - out@.len(),
        {
            out.push(0);
            assert(out@ =~= unpadded + zeros((out@.len() - unpadded.len()) as nat));
        }
        proof {
            assert(out@.len() - unpadded.len() == padding_length(entry_body(pair).len()));
            assert(out@ =~= before + entry_encoding(pair));
            assert(metadata@.take(i + 1).drop_last() =~= metadata@.take(i as int));
            assert(metadata@.take(i + 1).last() == pair);
        }
        i += 1;
    }
    assert(metadata@.take(metadata@.len() as int) =~= metadata@);
    Ok(out)
}

/// Encodes the key/value section of a written container: the entries of
/// `metadata` and, among them, the producer's entry.
///
/// An entry of `metadata` under the producer's key is replaced. Fails with
/// `ContainerTooLarge` when the body of an entry is too long for its length
/// prefix.
pub fn encode_metadata(metadata: &Metadata) -> (result: Result<Vec<u8>, Error>)
    requires
        metadata.well_formed(),
    ensures
        match result {
            Ok(bytes) => entries_fit(with_writer(metadata@)) && bytes@ == section_encoding(
                with_writer(metadata@),
            ),
            Err(e) => e == Error::ContainerTooLarge && !entries_fit(with_writer(metadata@)),
        },
{
    let mut entries = metadata.duplicate();
    let key = writer_key_bytes();
    let value = writer_value_bytes();
    entries.insert(key.as_slice(), value.as_slice());
    encode_entries(&entries)
}

/// Where the first NUL of `s` at or behind `from` is, or `s.len()` if there
/// is none.
pub open spec fn first_nul(s: Seq<u8>, from: int) -> int
    decreases s.len() - from,
{
    if from >= s.len() {
        s.len() as int
    } else if s[from] == 0 {
        from
    } else {
        first_nul(s, from + 1)
    }
}

/// Where the entry that starts a section of `total` bytes ends, its body
/// being `n` bytes long: behind its padding, or where the section ends if
/// that comes first.
pub open spec fn entry_end(n: int, total: int) -> int {
    let padded = 4 + n + padding_length(n as nat);
    if padded <= total {
        padded
    } else {
        total
    }
}

/// The entries that a key/value section holds, in their order, or `None`
/// where an entry's length runs past the end of the section or its body
/// holds no NUL to end the key.
pub open spec fn section_decoding(s: Seq<u8>) -> Option<Seq<Pair>>
    decreases s.len(),
{
    if s.len() == 0 {
        Some(Seq::empty())
    } else if s.len() < 4 {
        None
    } else {
        let n = le32_value(s.subrange(0, 4));
        if n < 0 || 4 + n > s.len() {
            None
        } else {
            let body = s.subrange(4, 4 + n);
            let nul = first_nul(body, 0);
            if nul >= body.len() {
                None
            } else {
                let pair = Pair {
                    key: body.subrange(0, nul),
                    value: body.subrange(nul + 1, body.len() as int),
                };
                match section_decoding(s.skip(entry_end(n, s.len() as int))) {
                    Some(rest) => Some(seq![pair] + rest),
                    None => None,
                }
            }
        }
    }
}

/// The mapping that a key/value section holds: its entries bound one after
/// the other, a later entry replacing an earlier one with the same key.
pub open spec fn mapping_decoding(s: Seq<u8>) -> Option<Seq<Pair>> {
    match section_decoding(s) {
        Some(list) => Some(collected(list)),
        None => None,
    }
}

/// Whether no key of `pairs` holds a NUL.
pub open spec fn keys_are_plain(pairs: Seq<Pair>) -> bool {
    forall|i: int, k: int|
        0 <= i < pairs.len() && 0 <= k < pairs[i].key.len() ==> #[trigger] pairs[i].key[k] != 0
}

/// Decodes a key/value section into the mapping it holds, a later entry
/// replacing an earlier one with the same key.
///
/// Fails with `MalformedMetadata` when an entry's length runs past the end
/// of the section or its body holds no NUL to end the key.
pub fn decode_entries(section: &[u8]) -> (result: Result<Metadata, Error>)
    ensures
        match result {
            Ok(metadata) => metadata.well_formed() && mapping_decoding(section@) == Some(
                metadata@,
            ),
            Err(e) => e == Error::MalformedMetadata && mapping_decoding(section@) is None,
        },
{
    let mut metadata = Metadata::new();
    let ghost mut list: Seq<Pair> = Seq::empty();
    let mut at: usize = 0;
    proof {
        assert(section@.skip(0) =~= section@);
    }
    while at < section.len()
        invariant
            at <= section.len(),
            metadata.well_formed(),
            metadata@ == collected(list),
            match section_decoding(section@.skip(at as int)) {
                Some(rest) => section_decoding(section@) == Some(list + rest),
                None => section_decoding(section@) is None,
            },
        decreases section.len() - at,
    {
        let ghost rest = section@.skip(at as int);
        if section.len() - at < 4 {
            return Err(Error::MalformedMetadata);
        }
        let n = read_le32(section, at) as usize;
        proof {
            assert(rest.subrange(0, 4) =~= section@.subrange(at as int, at + 4));
        }
        if n > section.len() - at - 4 {
            return Err(Error::MalformedMetadata);
        }
        let start = at + 4;
        let end = start + n;
        let ghost body = rest.subrange(4, 4 + n);
        let mut nul: usize = start;
        while nul < end && section[nul] != 0
            invariant
                start <= nul <= end,
                end <= section.len(),
                start == at + 4,
                end == start + n,
                body == section@.skip(at as int).subrange(4, 4 + n),
                first_nul(body, 0) == first_nul(body, nul - start),
            decreases end - nul,
        {
            assert(body[nul - start] == section@[nul as int]);
            nul += 1;
        }
        if nul >= end {
            return Err(Error::MalformedMetadata);
        }
        assert(body[nul - start] == section@[nul as int]);
        let key = vstd::slice::slice_subrange(section, start, nul);
        let value = vstd::slice::slice_subrange(section, nul + 1, end);
        let ghost pair = Pair { key: key@, value: value@ };
        proof {
            assert(key@ =~= body.subrange(0, nul - start));
            assert(value@ =~= body.subrange(nul - start + 1, body.len() as int));
        }
        metadata.insert(key, value);
        let padding: usize = (4 - n % 4) % 4;
        let next: usize = if padding > section.len() - end {
            section.len()
        } else {
            end + padding
        };
        proof {
            assert(next - at == entry_end(n as int, rest.len() as int));
            assert(rest.skip(next - at) =~= section@.skip(next as int));
            let tail = section_decoding(section@.skip(next as int));
            if tail is Some {
                assert(list + (seq![pair] + tail.unwrap()) =~= list.push(pair) + tail.unwrap());
            }
            assert(list.push(pair).drop_last() =~= list);
            list = list.push(pair);
        }
        at = next;
    }
    proof {
        assert(list + Seq::<Pair>::empty() =~= list);
    }
    Ok(metadata)
}

/// A section starts with its first entry; the others follow.
pub proof fn lemma_section_starts_with_first(pairs: Seq<Pair>)
    requires
        pairs.len() > 0,
    ensures
        section_encoding(pairs) == entry_encoding(pairs[0]) + section_encoding(pairs.skip(1)),
    decreases pairs.len(),
{
    if pairs.len() == 1 {
        assert(pairs.drop_last() =~= Seq::<Pair>::empty());
        assert(pairs.skip(1) =~= Seq::<Pair>::empty());
        assert(section_encoding(pairs) =~= entry_encoding(pairs[0]) + section_encoding(
            pairs.skip(1),
        ));
    } else {
        let front = pairs.drop_last();
        lemma_section_starts_with_first(front);
        assert(front.skip(1) =~= pairs.skip(1).drop_last());
        assert(pairs.skip(1).last() == pairs.last());
        assert(section_encoding(pairs) =~= entry_encoding(pairs[0]) + section_encoding(
            pairs.skip(1),
        ));
    }
}

/// The first NUL of a body lies right behind a key that holds none.
pub proof fn lemma_first_nul_ends_key(pair: Pair, from: int)
    requires
        0 <= from <= pair.key.len(),
        forall|k: int| 0 <= k < pair.key.len() ==> pair.key[k] != 0,
    ensures
        first_nul(entry_body(pair), from) == pair.key.len(),
    decreases pair.key.len() - from,
{
    let body = entry_body(pair);
    if from < pair.key.len() {
        assert(body[from] == pair.key[from]);
        lemma_first_nul_ends_key(pair, from + 1);
    } else {
        assert(body[from] == 0);
    }
}

/// Decoding a freshly encoded section gives back the entries it was
/// encoded from, as long as no key holds a NUL.
pub proof fn lemma_section_round_trip(pairs: Seq<Pair>)
    requires
        entries_fit(pairs),
        keys_are_plain(pairs),
    ensures
        section_decoding(section_encoding(pairs)) == Some(pairs),
    decreases pairs.len(),
{
    if pairs.len() > 0 {
        let first = pairs[0];
        let rest = pairs.skip(1);
        let body = entry_body(first);
        let n = body.len() as int;
        let s = section_encoding(pairs);
        lemma_section_starts_with_first(pairs);
        lemma_entry_is_padded(first);
        assert(entry_body(pairs[0]).len() <= u32::MAX);
        lemma_le32_round_trip(n as u32);
        assert(s.subrange(0, 4) =~= le32(n as u32));
        assert(s.subrange(4, 4 + n) =~= body);
        assert forall|k: int| 0 <= k < first.key.len() implies first.key[k] != 0 by {
            assert(pairs[0].key[k] != 0);
        }
        lemma_first_nul_ends_key(first, 0);
        assert(body.subrange(0, first.key.len() as int) =~= first.key);
        assert(body.subrange(first.key.len() as int + 1, body.len() as int) =~= first.value);
        assert(s.skip(entry_end(n, s.len() as int)) =~= section_encoding(rest));
        assert forall|i: int| 0 <= i < rest.len() implies (#[trigger] entry_body(rest[i])).len()
            <= u32::MAX by {
            assert(rest[i] == pairs[i + 1]);
        }
        assert forall|i: int, k: int|
            0 <= i < rest.len() && 0 <= k < rest[i].key.len() implies #[trigger] rest[i].key[k]
            != 0 by {
            assert(rest[i] == pairs[i + 1]);
            assert(pairs[i + 1].key[k] != 0);
        }
        lemma_section_round_trip(rest);
        assert(seq![first] + rest =~= pairs);
    }
}

/// The encoded metadata section is a whole number of four-byte words long,
/// and decoding it gives back the mapping with the producer's entry, as
/// long as no key holds a NUL.
pub proof fn law_metadata_round_trip(pairs: Seq<Pair>)
    requires
        is_ascending(pairs),
        keys_are_plain(pairs),
        entries_fit(with_writer(pairs)),
    ensures
        section_encoding(with_writer(pairs)).len() % 4 == 0,
        mapping_decoding(section_encoding(with_writer(pairs))) == Some(with_writer(pairs)),
{
    let all = with_writer(pairs);
    law_section_is_padded(all);
    crate::metadata::lemma_inserted_is_ascending(pairs, writer_key(), writer_value());
    crate::metadata::lemma_rank_bounds(pairs, writer_key());
    let at = crate::metadata::rank(pairs, writer_key());
    assert forall|i: int, k: int| 0 <= i < all.len() && 0 <= k < all[i].key.len() implies #[trigger] all[i].key[k]
        != 0 by {
        if i < at {
            assert(all[i] == pairs[i]);
            assert(pairs[i].key[k] != 0);
        } else if i == at {
        } else {
            let shift = all.len() - pairs.len();
            assert(all[i] == pairs[i - shift]);
            assert(pairs[i - shift].key[k] != 0);
        }
    }
    lemma_section_round_trip(all);
    lemma_collected(all);
}

/// What `ktx2::KeyValueDataIterator` yields for a key/value section: the
/// entries that it can read, as key and value and in their order. It passes
/// over an entry that it cannot read.
pub uninterp spec fn ktx2_listed(section: Seq<u8>) -> Seq<(Seq<u8>, Seq<u8>)>;

/// The keys and values of a list of entries.
pub open spec fn entry_pairs(entries: Seq<MetadataEntry>) -> Seq<(Seq<u8>, Seq<u8>)> {
    Seq::new(entries.len(), |i: int| (entries[i].key@, entries[i].value@))
}

/// Whether a section of `length` bytes can be listed: whatever length an
/// entry claims, the end of the entry can still be counted.
pub open spec fn can_be_listed(length: nat) -> bool {
    length + 0x1_0000_0010 <= usize::MAX
}

/// Lists the entries of a key/value section for display, in their order and
/// with every repetition of a key. Entries that cannot be read are passed
/// over, where `decode_entries` fails.
///
/// Gives `None` for a section too long for its ends to be counted, which no
/// section is where addresses take 64 bits.
pub fn list_entries(section: &[u8]) -> (entries: Option<Vec<MetadataEntry>>)
    ensures
        match entries {
            Some(list) => can_be_listed(section@.len()) && entry_pairs(list@) == ktx2_listed(
                section@,
            ),
            None => !can_be_listed(section@.len()),
        },
{
    if section.len() as u128 + 0x1_0000_0010 > usize::MAX as u128 {
        return None;
    }
    Some(ktx2_key_value_entries(section))
}

/// `ktx2::KeyValueDataIterator`, made of the section and run to its end.
///
/// Trusted: the entries are those that the iterator yields, in its order.
/// The section is short enough for the iterator to count past the end of an
/// entry of any claimed length.
#[verifier::external_body]
fn ktx2_key_value_entries(section: &[u8]) -> (entries: Vec<MetadataEntry>)
    requires
        can_be_listed(section@.len()),
    ensures
        entry_pairs(entries@) == ktx2_listed(section@),
{
    ktx2::KeyValueDataIterator::new(section)
        .map(|(key, value)| MetadataEntry { key: key.as_bytes().to_vec(), value: value.to_vec() })
        .collect()
}

} // verus!
