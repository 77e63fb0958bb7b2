//! What is written can be read: the offsets of a laid-out container are
//! consistent, and reading it gives back what it was written from.

use crate::error::Error;
use crate::framer::{decompressed, law_decompress_inverts_compress};
use crate::header::{
    header_decoding, header_encoding, lemma_header_decoding_of_prefix, lemma_header_length,
    lemma_header_round_trip, lemma_level_index_decoding_at, lemma_level_index_round_trip,
    level_index_encoding, Header, LevelIndexEntry, WriterHeader,
};
use crate::key_value::{
    keys_are_plain, law_metadata_round_trip, mapping_decoding, section_encoding, with_writer,
};
use crate::layout::{
    container_encoding, container_length, dfd_start, index_encoding, laid_out_header, layout_fits,
    lemma_index_encoding_length, lemma_payload_prefix, lemma_payload_split, level_entry,
    level_index, level_offset,
    payload, payload_start, LevelView,
};
use crate::metadata::{is_ascending, Pair};
use crate::pipeline::levels_decompressed;
use crate::reader::{
    entry_at, read_dfd, read_failure, read_index, read_kvd, read_level, read_sgd, section,
};
use crate::writer::{are_stored_forms, is_container_of, stored_as_they_are};
use vstd::prelude::*;

verus! {

/// The lengths of the stored levels, added up.
pub open spec fn stored_length(levels: Seq<LevelView>) -> nat
    decreases levels.len(),
{
    if levels.len() == 0 {
        0
    } else {
        stored_length(levels.drop_last()) + levels.last().bytes.len()
    }
}

/// The payloads are as long as the stored levels together.
pub proof fn lemma_payload_length(levels: Seq<LevelView>)
    ensures
        payload(levels).len() == stored_length(levels),
    decreases levels.len(),
{
    if levels.len() > 0 {
        let front = levels.drop_last();
        let last = levels.len() - 1;
        lemma_payload_length(front);
        lemma_payload_prefix(levels, last);
        assert(levels.take(last) =~= front);
        assert(levels.take(last + 1) =~= levels);
    }
}

/// Where a level starts and ends among the payloads.
pub proof fn lemma_level_region(levels: Seq<LevelView>, i: int)
    requires
        0 <= i < levels.len(),
    ensures
        payload(levels.take(i)).len() + levels[i].bytes.len() <= payload(levels).len(),
        payload(levels).subrange(
            payload(levels.take(i)).len() as int,
            (payload(levels.take(i)).len() + levels[i].bytes.len()) as int,
        ) == levels[i].bytes,
{
    lemma_payload_split(levels, i + 1);
    lemma_payload_prefix(levels, i);
    let before = payload(levels.take(i));
    assert(payload(levels) == before + levels[i].bytes + payload(levels.skip(i + 1)));
    assert(payload(levels).subrange(
        before.len() as int,
        (before.len() + levels[i].bytes.len()) as int,
    ) =~= levels[i].bytes);
}

/// Counted from `start`, the first level starts at `start`, each level starts
/// where the one before it ends, and the last level ends behind all payloads.
pub proof fn lemma_offsets_ascend(start: nat, levels: Seq<LevelView>)
    ensures
        levels.len() > 0 ==> level_offset(start, levels, 0) == start,
        levels.len() > 0 ==> level_offset(start, levels, levels.len() - 1)
            + levels.last().bytes.len() == start + payload(levels).len(),
        forall|i: int|
            0 <= i < levels.len() - 1 ==> level_offset(start, levels, i + 1)
                == #[trigger] level_offset(start, levels, i) + levels[i].bytes.len(),
        forall|i: int, j: int|
            0 <= i < j < levels.len() ==> #[trigger] level_offset(start, levels, i)
                + levels[i].bytes.len() <= #[trigger] level_offset(start, levels, j),
        forall|i: int|
            0 <= i < levels.len() ==> start <= #[trigger] level_offset(start, levels, i)
                && level_offset(start, levels, i) + levels[i].bytes.len() <= start + payload(
                levels,
            ).len(),
{
    if levels.len() > 0 {
        assert(levels.take(0) =~= Seq::<LevelView>::empty());
        assert(payload(levels.take(0)) =~= Seq::<u8>::empty());
        lemma_payload_prefix(levels, levels.len() - 1);
        assert(levels.take(levels.len() as int) =~= levels);
    }
    assert forall|i: int| 0 <= i < levels.len() - 1 implies level_offset(start, levels, i + 1)
        == #[trigger] level_offset(start, levels, i) + levels[i].bytes.len() by {
        lemma_payload_prefix(levels, i);
    }
    assert forall|i: int, j: int| 0 <= i < j < levels.len() implies #[trigger] level_offset(
        start,
        levels,
        i,
    ) + levels[i].bytes.len() <= #[trigger] level_offset(start, levels, j) by {
        lemma_payload_prefix(levels, i);
        let front = levels.take(j);
        lemma_payload_prefix(front, i + 1);
        assert(front.take(i + 1) =~= levels.take(i + 1));
    }
    assert forall|i: int| 0 <= i < levels.len() implies start <= #[trigger] level_offset(
        start,
        levels,
        i,
    ) && level_offset(start, levels, i) + levels[i].bytes.len() <= start + payload(levels).len() by {
        lemma_level_region(levels, i);
    }
}

/// The levels lie behind the descriptive sections in the order of the level
/// index: the first level starts where the sections end, each level starts
/// where the one before it ends, so that the offsets ascend and no level
/// overlaps another, and the last level ends where the container ends. The
/// container is as long as its header, its level index, its sections and its
/// stored levels together. Where the layout fits its fields, the level index
/// records these offsets and lengths.
pub proof fn law_offsets_are_consistent(
    header: WriterHeader,
    dfd: Seq<u8>,
    kvd: Seq<u8>,
    sgd: Seq<u8>,
    levels: Seq<LevelView>,
)
    ensures
        ({
            let start = payload_start(levels.len(), dfd.len(), kvd.len(), sgd.len());
            let bytes = container_encoding(header, dfd, kvd, sgd, levels);
            &&& bytes.len() == container_length(dfd.len(), kvd.len(), sgd.len(), levels)
            &&& bytes.len() == 80 + 24 * levels.len() + dfd.len() + kvd.len() + sgd.len()
                + stored_length(levels)
            &&& levels.len() > 0 ==> level_offset(start, levels, 0) == start
            &&& levels.len() > 0 ==> level_offset(start, levels, levels.len() - 1)
                + levels.last().bytes.len() == bytes.len()
            &&& forall|i: int|
                0 <= i < levels.len() - 1 ==> level_offset(start, levels, i + 1)
                    == #[trigger] level_offset(start, levels, i) + levels[i].bytes.len()
            &&& forall|i: int, j: int|
                0 <= i < j < levels.len() ==> #[trigger] level_offset(start, levels, i)
                    + levels[i].bytes.len() <= #[trigger] level_offset(start, levels, j)
            &&& forall|i: int|
                0 <= i < levels.len() ==> start <= #[trigger] level_offset(start, levels, i)
                    && level_offset(start, levels, i) + levels[i].bytes.len() <= bytes.len()
            &&& layout_fits(dfd.len(), kvd.len(), sgd.len(), levels) ==> forall|i: int|
                0 <= i < levels.len() ==> (#[trigger] level_index(start, levels)[i]).byte_offset
                    == level_offset(start, levels, i) && level_index(start, levels)[i].byte_length
                    == levels[i].bytes.len()
        }),
{
    let start = payload_start(levels.len(), dfd.len(), kvd.len(), sgd.len());
    let bytes = container_encoding(header, dfd, kvd, sgd, levels);
    lemma_header_length(laid_out_header(header, levels.len(), dfd.len(), kvd.len(), sgd.len()));
    lemma_index_encoding_length(level_index(start, levels));
    lemma_payload_length(levels);
    lemma_offsets_ascend(start, levels);
    assert(bytes.len() == start + payload(levels).len());
}

/// Entry `i` of an encoded level index takes the 24 bytes from `24 * i` on.
pub proof fn lemma_index_entry_at(entries: Seq<LevelIndexEntry>, i: int)
    requires
        0 <= i < entries.len(),
    ensures
        index_encoding(entries).len() == 24 * entries.len(),
        index_encoding(entries).subrange(24 * i, 24 * i + 24) == level_index_encoding(entries[i]),
    decreases entries.len(),
{
    let front = entries.drop_last();
    lemma_index_encoding_length(entries);
    lemma_index_encoding_length(front);
    lemma_level_index_round_trip(entries.last());
    if i == entries.len() - 1 {
        assert(index_encoding(entries).subrange(24 * i, 24 * i + 24) =~= level_index_encoding(
            entries.last(),
        ));
    } else {
        lemma_index_entry_at(front, i);
        assert(index_encoding(entries).subrange(24 * i, 24 * i + 24) =~= index_encoding(
            front,
        ).subrange(24 * i, 24 * i + 24));
        assert(front[i] == entries[i]);
    }
}

/// The parts of a container lie one behind the other.
proof fn lemma_container_parts(
    head: Seq<u8>,
    index: Seq<u8>,
    dfd: Seq<u8>,
    kvd: Seq<u8>,
    sgd: Seq<u8>,
    levels: Seq<u8>,
)
    ensures
        ({
            let bytes = head + index + dfd + kvd + sgd + levels;
            let a = head.len() as int;
            let b = a + index.len();
            let c = b + dfd.len();
            let d = c + kvd.len();
            let e = d + sgd.len();
            &&& bytes.len() == e + levels.len()
            &&& bytes == head + (index + dfd + kvd + sgd + levels)
            &&& bytes.subrange(a, b) == index
            &&& bytes.subrange(b, c) == dfd
            &&& bytes.subrange(c, d) == kvd
            &&& bytes.subrange(d, e) == sgd
            &&& bytes.subrange(e, e + levels.len()) == levels
            &&& bytes.subrange(0, 0) == Seq::<u8>::empty()
        }),
{
    let bytes = head + index + dfd + kvd + sgd + levels;
    let a = head.len() as int;
    let b = a + index.len();
    let c = b + dfd.len();
    let d = c + kvd.len();
    let e = d + sgd.len();
    assert(bytes =~= head + (index + dfd + kvd + sgd + levels));
    assert(bytes.subrange(a, b) =~= index);
    assert(bytes.subrange(b, c) =~= dfd);
    assert(bytes.subrange(c, d) =~= kvd);
    assert(bytes.subrange(d, e) =~= sgd);
    assert(bytes.subrange(e, e + levels.len()) =~= levels);
    assert(bytes.subrange(0, 0) =~= Seq::<u8>::empty());
}

/// Entry `i` of the level index is read from behind the header.
proof fn lemma_reading_entry(
    head: Seq<u8>,
    entries: Seq<LevelIndexEntry>,
    rest: Seq<u8>,
    i: int,
)
    requires
        head.len() == 80,
        0 <= i < entries.len(),
    ensures
        entry_at(head + index_encoding(entries) + rest, i) == entries[i],
{
    let index = index_encoding(entries);
    let bytes = head + index + rest;
    lemma_index_entry_at(entries, i);
    lemma_level_index_decoding_at(bytes, 80 + 24 * i);
    assert(bytes.subrange(80 + 24 * i, 80 + 24 * i + 24) =~= index.subrange(24 * i, 24 * i + 24));
    lemma_level_index_round_trip(entries[i]);
}

/// Level `i` is read from its place among the payloads.
proof fn lemma_reading_level(front: Seq<u8>, levels: Seq<LevelView>, i: int)
    requires
        0 <= i < levels.len(),
    ensures
        ({
            let bytes = front + payload(levels);
            let offset = front.len() + payload(levels.take(i)).len();
            &&& offset + levels[i].bytes.len() <= bytes.len()
            &&& section(bytes, offset as int, levels[i].bytes.len() as int) == levels[i].bytes
        }),
{
    let bytes = front + payload(levels);
    let before = payload(levels.take(i)).len() as int;
    let length = levels[i].bytes.len() as int;
    lemma_level_region(levels, i);
    assert(bytes.subrange(front.len() + before, front.len() + before + length) =~= payload(
        levels,
    ).subrange(before, before + length));
}

/// The sections are read from where the section index says they are.
proof fn lemma_reading_sections(
    bytes: Seq<u8>,
    head: Seq<u8>,
    index: Seq<u8>,
    dfd: Seq<u8>,
    kvd: Seq<u8>,
    sgd: Seq<u8>,
    data: Seq<u8>,
    count: nat,
)
    requires
        head.len() == 80,
        index.len() == 24 * count,
        bytes == head + index + dfd + kvd + sgd + data,
        header_decoding(bytes).index == crate::layout::section_index(
            count,
            dfd.len(),
            kvd.len(),
            sgd.len(),
        ),
        dfd_start(count) <= u32::MAX,
        dfd.len() <= u32::MAX,
        kvd.len() <= u32::MAX,
        kvd.len() > 0 ==> dfd_start(count) + dfd.len() <= u32::MAX,
        bytes.len() <= u64::MAX,
    ensures
        bytes.len() == payload_start(count, dfd.len(), kvd.len(), sgd.len()) + data.len(),
        read_dfd(bytes) == dfd,
        read_kvd(bytes) == kvd,
        read_sgd(bytes) == sgd,
        header_decoding(bytes).index.dfd_byte_offset + header_decoding(
            bytes,
        ).index.dfd_byte_length <= bytes.len(),
        header_decoding(bytes).index.kvd_byte_offset + header_decoding(
            bytes,
        ).index.kvd_byte_length <= bytes.len(),
        header_decoding(bytes).index.sgd_byte_offset + header_decoding(
            bytes,
        ).index.sgd_byte_length <= bytes.len(),
{
    lemma_container_parts(head, index, dfd, kvd, sgd, data);
    if kvd.len() == 0 {
        assert(kvd =~= Seq::<u8>::empty());
    }
    if sgd.len() == 0 {
        assert(sgd =~= Seq::<u8>::empty());
    }
}

/// Every level and its index entry are read from where the layout put them.
proof fn lemma_reading_levels(
    bytes: Seq<u8>,
    head: Seq<u8>,
    dfd: Seq<u8>,
    kvd: Seq<u8>,
    sgd: Seq<u8>,
    levels: Seq<LevelView>,
)
    requires
        head.len() == 80,
        bytes == head + index_encoding(
            level_index(payload_start(levels.len(), dfd.len(), kvd.len(), sgd.len()), levels),
        ) + dfd + kvd + sgd + payload(levels),
        bytes.len() <= u64::MAX,
    ensures
        forall|i: int|
            0 <= i < levels.len() ==> #[trigger] entry_at(bytes, i) == level_entry(
                payload_start(levels.len(), dfd.len(), kvd.len(), sgd.len()),
                levels,
                i,
            ),
        forall|i: int| 0 <= i < levels.len() ==> #[trigger] read_level(bytes, i) == levels[i].bytes,
        forall|i: int|
            0 <= i < levels.len() ==> (#[trigger] entry_at(bytes, i)).byte_offset + entry_at(
                bytes,
                i,
            ).byte_length <= bytes.len(),
{
    let start = payload_start(levels.len(), dfd.len(), kvd.len(), sgd.len());
    let entries = level_index(start, levels);
    let index = index_encoding(entries);
    let data = payload(levels);
    lemma_index_encoding_length(entries);
    assert forall|i: int| 0 <= i < levels.len() implies #[trigger] entry_at(bytes, i)
        == level_entry(start, levels, i) && read_level(bytes, i) == levels[i].bytes && entry_at(
        bytes,
        i,
    ).byte_offset + entry_at(bytes, i).byte_length <= bytes.len() by {
        assert(bytes =~= head + index + (dfd + kvd + sgd + data));
        lemma_reading_entry(head, entries, dfd + kvd + sgd + data, i);
        lemma_reading_level(head + index + dfd + kvd + sgd, levels, i);
    }
}

/// Reading a laid-out container finds every part within it and gives back
/// the header, the level index, the three sections and the stored levels
/// that it was laid out from.
pub proof fn law_reading_inverts_layout(
    header: WriterHeader,
    dfd: Seq<u8>,
    kvd: Seq<u8>,
    sgd: Seq<u8>,
    levels: Seq<LevelView>,
)
    requires
        header.is_valid(),
        layout_fits(dfd.len(), kvd.len(), sgd.len(), levels),
    ensures
        ({
            let bytes = container_encoding(header, dfd, kvd, sgd, levels);
            let start = payload_start(levels.len(), dfd.len(), kvd.len(), sgd.len());
            &&& read_failure(bytes) is None
            &&& header_decoding(bytes) == laid_out_header(
                header,
                levels.len(),
                dfd.len(),
                kvd.len(),
                sgd.len(),
            )
            &&& read_index(bytes) == level_index(start, levels)
            &&& read_dfd(bytes) == dfd
            &&& read_kvd(bytes) == kvd
            &&& read_sgd(bytes) == sgd
            &&& forall|i: int|
                0 <= i < levels.len() ==> #[trigger] read_level(bytes, i) == levels[i].bytes
        }),
{
    let bytes = container_encoding(header, dfd, kvd, sgd, levels);
    let count = levels.len();
    let start = payload_start(count, dfd.len(), kvd.len(), sgd.len());
    let laid_out = laid_out_header(header, count, dfd.len(), kvd.len(), sgd.len());
    let head = header_encoding(laid_out);
    let entries = level_index(start, levels);
    let index = index_encoding(entries);
    let data = payload(levels);
    lemma_index_encoding_length(entries);
    assert(bytes =~= head + (index + dfd + kvd + sgd + data));
    lemma_reading_header(laid_out, index + dfd + kvd + sgd + data);
    assert(bytes.len() == container_length(dfd.len(), kvd.len(), sgd.len(), levels));
    lemma_reading_sections(bytes, head, index, dfd, kvd, sgd, data, count);
    lemma_reading_levels(bytes, head, dfd, kvd, sgd, levels);
    assert(read_index(bytes) =~= entries);
}

/// The header is read from the first 80 bytes.
proof fn lemma_reading_header(laid_out: Header, rest: Seq<u8>)
    requires
        laid_out.is_valid(),
    ensures
        header_encoding(laid_out).len() == 80,
        header_decoding(header_encoding(laid_out) + rest) == laid_out,
        (header_encoding(laid_out) + rest).subrange(0, 12) == crate::header::identifier(),
{
    let head = header_encoding(laid_out);
    lemma_header_length(laid_out);
    lemma_header_round_trip(laid_out);
    lemma_header_decoding_of_prefix(head, rest);
}

/// What is written can be read back: reading a written container succeeds,
/// the header holds the fields it was written with, the sections are those
/// that were given, and every level decompresses to the bytes that were
/// given for it. The metadata comes back with the producer's entry, as long
/// as no key holds a NUL.
pub proof fn law_round_trip(
    header: WriterHeader,
    dfd: Seq<u8>,
    pairs: Seq<Pair>,
    sgd: Seq<u8>,
    levels: Seq<Seq<u8>>,
    bytes: Seq<u8>,
)
    requires
        header.is_valid(),
        is_container_of(header, dfd, pairs, sgd, levels, bytes),
    ensures
        read_failure(bytes) is None,
        header_decoding(bytes) == laid_out_header(
            header,
            levels.len(),
            dfd.len(),
            section_encoding(with_writer(pairs)).len(),
            sgd.len(),
        ),
        header_decoding(bytes).level_count == levels.len(),
        read_dfd(bytes) == dfd,
        read_kvd(bytes) == section_encoding(with_writer(pairs)),
        read_sgd(bytes) == sgd,
        forall|i: int|
            0 <= i < levels.len() ==> decompressed(
                header.supercompression_scheme,
                #[trigger] read_level(bytes, i),
                entry_at(bytes, i).uncompressed_byte_length,
            ) == Ok::<Seq<u8>, Error>(levels[i]),
        is_ascending(pairs) && keys_are_plain(pairs) ==> mapping_decoding(read_kvd(bytes)) == Some(
            with_writer(pairs),
        ),
{
    let kvd = section_encoding(with_writer(pairs));
    if is_ascending(pairs) && keys_are_plain(pairs) {
        law_metadata_round_trip(pairs);
    }
    let stored = choose|stored: Seq<LevelView>|
        {
            &&& are_stored_forms(header, levels, stored)
            &&& crate::key_value::entries_fit(with_writer(pairs))
            &&& layout_fits(dfd.len(), kvd.len(), sgd.len(), stored)
            &&& bytes == #[trigger] container_encoding(header, dfd, kvd, sgd, stored)
        };
    law_reading_inverts_layout(header, dfd, kvd, sgd, stored);
    let start = payload_start(stored.len(), dfd.len(), kvd.len(), sgd.len());
    assert forall|i: int| 0 <= i < levels.len() implies decompressed(
        header.supercompression_scheme,
        #[trigger] read_level(bytes, i),
        entry_at(bytes, i).uncompressed_byte_length,
    ) == Ok::<Seq<u8>, Error>(levels[i]) by {
        assert(read_index(bytes)[i] == level_entry(start, stored, i));
        assert(stored[i].uncompressed_length == levels[i].len());
        law_decompress_inverts_compress(
            header.supercompression_scheme,
            levels[i],
            stored[i].bytes,
        );
    }
}

/// The levels of a written container decompress, one after the other, to
/// the levels that it was written from.
pub proof fn lemma_levels_come_back(
    header: WriterHeader,
    dfd: Seq<u8>,
    pairs: Seq<Pair>,
    sgd: Seq<u8>,
    levels: Seq<Seq<u8>>,
    bytes: Seq<u8>,
    count: nat,
)
    requires
        header.is_valid(),
        is_container_of(header, dfd, pairs, sgd, levels, bytes),
        count <= levels.len(),
    ensures
        levels_decompressed(bytes, count) == Ok::<Seq<Seq<u8>>, Error>(levels.take(count as int)),
    decreases count,
{
    law_round_trip(header, dfd, pairs, sgd, levels, bytes);
    if count == 0 {
        assert(levels.take(0) =~= Seq::<Seq<u8>>::empty());
    } else {
        lemma_levels_come_back(header, dfd, pairs, sgd, levels, bytes, (count - 1) as nat);
        assert(levels.take(count - 1).push(levels[count - 1]) =~= levels.take(count as int));
    }
}

/// Without a scheme a container is fixed by the parts it is written from.
pub proof fn lemma_container_without_scheme(
    header: WriterHeader,
    dfd: Seq<u8>,
    pairs: Seq<Pair>,
    sgd: Seq<u8>,
    levels: Seq<Seq<u8>>,
    bytes: Seq<u8>,
)
    requires
        header.supercompression_scheme is None,
        is_container_of(header, dfd, pairs, sgd, levels, bytes),
    ensures
        bytes == container_encoding(
            header,
            dfd,
            section_encoding(with_writer(pairs)),
            sgd,
            stored_as_they_are(levels),
        ),
{
    let kvd = section_encoding(with_writer(pairs));
    let stored = choose|stored: Seq<LevelView>|
        {
            &&& are_stored_forms(header, levels, stored)
            &&& crate::key_value::entries_fit(with_writer(pairs))
            &&& layout_fits(dfd.len(), kvd.len(), sgd.len(), stored)
            &&& bytes == #[trigger] container_encoding(header, dfd, kvd, sgd, stored)
        };
    assert(stored =~= stored_as_they_are(levels));
}

/// Whether `to` is written from what is read from `from`: its data format
/// descriptor, its global data and its decompressed levels, with the given
/// header fields and metadata.
pub open spec fn is_rewrite_of(
    header: WriterHeader,
    pairs: Seq<Pair>,
    from: Seq<u8>,
    to: Seq<u8>,
) -> bool {
    &&& levels_decompressed(from, header_decoding(from).level_count as nat) matches Ok(levels)
    &&& is_container_of(header, read_dfd(from), pairs, read_sgd(from), levels, to)
}

/// Reading a container and writing it again changes nothing that can be
/// read, however often it is repeated: every round holds the same header
/// fields, sections and levels as the first, under any scheme. Without a
/// scheme every round is the same container, byte for byte.
pub proof fn law_rewriting_changes_nothing(
    header: WriterHeader,
    dfd: Seq<u8>,
    pairs: Seq<Pair>,
    sgd: Seq<u8>,
    levels: Seq<Seq<u8>>,
    rounds: Seq<Seq<u8>>,
    k: int,
)
    requires
        header.is_valid(),
        0 <= k < rounds.len(),
        is_container_of(header, dfd, pairs, sgd, levels, rounds[0]),
        forall|j: int|
            1 <= j < rounds.len() ==> is_rewrite_of(header, pairs, rounds[j - 1], #[trigger] rounds[j]),
    ensures
        is_container_of(header, dfd, pairs, sgd, levels, rounds[k]),
        levels_decompressed(rounds[k], levels.len()) == Ok::<Seq<Seq<u8>>, Error>(levels),
        header_decoding(rounds[k]) == header_decoding(rounds[0]),
        read_dfd(rounds[k]) == dfd,
        read_sgd(rounds[k]) == sgd,
        header.supercompression_scheme is None ==> rounds[k] == rounds[0],
    decreases k,
{
    if k > 0 {
        law_rewriting_changes_nothing(header, dfd, pairs, sgd, levels, rounds, k - 1);
        let before = rounds[k - 1];
        law_round_trip(header, dfd, pairs, sgd, levels, before);
        assert(is_rewrite_of(header, pairs, before, rounds[k]));
    }
    law_round_trip(header, dfd, pairs, sgd, levels, rounds[k]);
    law_round_trip(header, dfd, pairs, sgd, levels, rounds[0]);
    lemma_levels_come_back(header, dfd, pairs, sgd, levels, rounds[k], levels.len());
    assert(levels.take(levels.len() as int) =~= levels);
    if header.supercompression_scheme is None {
        lemma_container_without_scheme(header, dfd, pairs, sgd, levels, rounds[k]);
        lemma_container_without_scheme(header, dfd, pairs, sgd, levels, rounds[0]);
    }
}

} // verus!
