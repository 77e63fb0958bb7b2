//! The byte layout of a container: where each section and each level lies,
//! and the bytes that result when they are put there.

use crate::bytes::{append, borrowed_bytes};
use crate::error::Error;
use crate::header::{
    header_encoding, lemma_level_index_round_trip, level_index_encoding, Header, Index,
    LevelIndexEntry, WriterHeader,
};
use std::borrow::Cow;
use vstd::prelude::*;

verus! {

/// A mip level as it is stored, as contracts see it.
pub struct LevelView {
    pub bytes: Seq<u8>,
    pub uncompressed_length: u64,
}

/// A mip level as it is stored: its bytes after supercompression, and the
/// length it has before.
#[derive(Debug)]
pub struct WriterLevel<'a> {
    pub uncompressed_length: u64,
    pub bytes: Cow<'a, [u8]>,
}

impl<'a> View for WriterLevel<'a> {
    type V = LevelView;

    open spec fn view(&self) -> LevelView {
        LevelView { bytes: self.bytes@, uncompressed_length: self.uncompressed_length }
    }
}

/// The levels of a slice, as contracts see them.
pub open spec fn level_views(levels: Seq<WriterLevel<'_>>) -> Seq<LevelView> {
    Seq::new(levels.len(), |i: int| levels[i]@)
}

/// The level payloads as they follow one another in the container, in the
/// order of the level index: the first level, which is the largest, comes
/// first, and the last level comes last.
pub open spec fn payload(levels: Seq<LevelView>) -> Seq<u8>
    decreases levels.len(),
{
    if levels.len() == 0 {
        Seq::empty()
    } else {
        levels[0].bytes + payload(levels.skip(1))
    }
}

/// Where the data format descriptor starts: behind the header and the level
/// index.
pub open spec fn dfd_start(level_count: nat) -> nat {
    80 + 24 * level_count
}

/// Where the level payloads start: behind the three descriptive sections.
pub open spec fn payload_start(level_count: nat, dfd: nat, kvd: nat, sgd: nat) -> nat {
    dfd_start(level_count) + dfd + kvd + sgd
}

/// Where level `i` starts: behind the payloads of all levels before it.
pub open spec fn level_offset(start: nat, levels: Seq<LevelView>, i: int) -> nat {
    start + payload(levels.take(i)).len()
}

/// The index entry of level `i`.
pub open spec fn level_entry(start: nat, levels: Seq<LevelView>, i: int) -> LevelIndexEntry {
    LevelIndexEntry {
        byte_offset: level_offset(start, levels, i) as u64,
        byte_length: levels[i].bytes.len() as u64,
        uncompressed_byte_length: levels[i].uncompressed_length,
    }
}

/// The level index: one entry for each level, the first level first.
pub open spec fn level_index(start: nat, levels: Seq<LevelView>) -> Seq<LevelIndexEntry> {
    Seq::new(levels.len(), |i: int| level_entry(start, levels, i))
}

/// The bytes of the level index.
pub open spec fn index_encoding(entries: Seq<LevelIndexEntry>) -> Seq<u8>
    decreases entries.len(),
{
    if entries.len() == 0 {
        Seq::empty()
    } else {
        index_encoding(entries.drop_last()) + level_index_encoding(entries.last())
    }
}

/// The section index of a container. An empty key/value or global-data
/// section is recorded at offset zero.
pub open spec fn section_index(level_count: nat, dfd: nat, kvd: nat, sgd: nat) -> Index {
    Index {
        dfd_byte_offset: dfd_start(level_count) as u32,
        dfd_byte_length: dfd as u32,
        kvd_byte_offset: if kvd == 0 {
            0
        } else {
            (dfd_start(level_count) + dfd) as u32
        },
        kvd_byte_length: kvd as u32,
        sgd_byte_offset: if sgd == 0 {
            0
        } else {
            (dfd_start(level_count) + dfd + kvd) as u64
        },
        sgd_byte_length: sgd as u64,
    }
}

/// The fixed header of a container with the given sections and level count.
pub open spec fn laid_out_header(
    header: WriterHeader,
    level_count: nat,
    dfd: nat,
    kvd: nat,
    sgd: nat,
) -> Header {
    Header {
        format: header.format,
        type_size: header.type_size,
        pixel_width: header.pixel_width,
        pixel_height: header.pixel_height,
        pixel_depth: header.pixel_depth,
        layer_count: header.layer_count,
        face_count: header.face_count,
        level_count: level_count as u32,
        supercompression_scheme: header.supercompression_scheme,
        index: section_index(level_count, dfd, kvd, sgd),
    }
}

/// The length of a whole container.
pub open spec fn container_length(dfd: nat, kvd: nat, sgd: nat, levels: Seq<LevelView>) -> nat {
    payload_start(levels.len(), dfd, kvd, sgd) + payload(levels).len()
}

/// Whether every number of the descriptive sections fits the field that
/// records it: the level count and the descriptor and key/value offsets and
/// lengths in 32 bits, the global data in 64.
pub open spec fn sections_fit(level_count: nat, dfd: nat, kvd: nat, sgd: nat) -> bool {
    &&& level_count <= u32::MAX
    &&& dfd_start(level_count) <= u32::MAX
    &&& dfd <= u32::MAX
    &&& kvd <= u32::MAX
    &&& kvd > 0 ==> dfd_start(level_count) + dfd <= u32::MAX
    &&& payload_start(level_count, dfd, kvd, sgd) <= u64::MAX
}

/// Whether every number of the layout fits the field that records it: those
/// of the descriptive sections, and the offsets of the levels in 64 bits.
pub open spec fn layout_fits(dfd: nat, kvd: nat, sgd: nat, levels: Seq<LevelView>) -> bool {
    &&& sections_fit(levels.len(), dfd, kvd, sgd)
    &&& container_length(dfd, kvd, sgd, levels) <= u64::MAX
}

/// The bytes of a container: header, level index, data format descriptor,
/// key/value section, global data, level payloads.
pub open spec fn container_encoding(
    header: WriterHeader,
    dfd: Seq<u8>,
    kvd: Seq<u8>,
    sgd: Seq<u8>,
    levels: Seq<LevelView>,
) -> Seq<u8> {
    header_encoding(laid_out_header(header, levels.len(), dfd.len(), kvd.len(), sgd.len()))
        + index_encoding(
        level_index(payload_start(levels.len(), dfd.len(), kvd.len(), sgd.len()), levels),
    ) + dfd + kvd + sgd + payload(levels)
}

/// The payloads of the first `i` levels come before those of the others.
pub proof fn lemma_payload_split(levels: Seq<LevelView>, i: int)
    requires
        0 <= i <= levels.len(),
    ensures
        payload(levels) == payload(levels.take(i)) + payload(levels.skip(i)),
    decreases levels.len(),
{
    if i == 0 {
        assert(levels.skip(0) =~= levels);
        assert(levels.take(0) =~= Seq::<LevelView>::empty());
        assert(payload(levels) =~= payload(levels.take(i)) + payload(levels.skip(i)));
    } else {
        let rest = levels.skip(1);
        lemma_payload_split(rest, i - 1);
        assert(rest.skip(i - 1) =~= levels.skip(i));
        assert(levels.take(i).skip(1) =~= rest.take(i - 1));
        assert(levels.take(i)[0] == levels[0]);
        assert(payload(levels) =~= payload(levels.take(i)) + payload(levels.skip(i)));
    }
}

/// The payloads of the first `i` levels are no longer than all payloads, and
/// the payload of level `i` follows them.
pub proof fn lemma_payload_prefix(levels: Seq<LevelView>, i: int)
    requires
        0 <= i <= levels.len(),
    ensures
        payload(levels.take(i)).len() <= payload(levels).len(),
        i < levels.len() ==> payload(levels.take(i + 1)) == payload(levels.take(i))
            + levels[i].bytes,
{
    lemma_payload_split(levels, i);
    if i < levels.len() {
        let front = levels.take(i + 1);
        lemma_payload_split(front, i);
        assert(front.take(i) =~= levels.take(i));
        let last = front.skip(i);
        assert(last.len() == 1 && last[0] == levels[i]);
        assert(last.skip(1) =~= Seq::<LevelView>::empty());
        assert(payload(last.skip(1)) =~= Seq::<u8>::empty());
        assert(payload(last) =~= levels[i].bytes);
    }
}

/// The level index takes 24 bytes for each level.
pub proof fn lemma_index_encoding_length(entries: Seq<LevelIndexEntry>)
    ensures
        index_encoding(entries).len() == 24 * entries.len(),
    decreases entries.len(),
{
    if entries.len() > 0 {
        lemma_index_encoding_length(entries.drop_last());
        lemma_level_index_round_trip(entries.last());
    }
}

/// Computes the fixed header of a container from the lengths of its parts,
/// and with it the offset at which the level payloads start.
///
/// Fails with `ContainerTooLarge` when a number does not fit its field.
pub fn plan_sections(header: &WriterHeader, levels: usize, dfd: usize, kvd: usize, sgd: usize) -> (plan:
    Result<(Header, u64), Error>)
    ensures
        match plan {
            Ok((laid_out, start)) => sections_fit(levels as nat, dfd as nat, kvd as nat, sgd as nat)
                && laid_out == laid_out_header(
                *header,
                levels as nat,
                dfd as nat,
                kvd as nat,
                sgd as nat,
            ) && start == payload_start(levels as nat, dfd as nat, kvd as nat, sgd as nat),
            Err(e) => e == Error::ContainerTooLarge && !sections_fit(
                levels as nat,
                dfd as nat,
                kvd as nat,
                sgd as nat,
            ),
        },
{
    if levels as u64 > u32::MAX as u64 || dfd as u64 > u32::MAX as u64 || kvd as u64
        > u32::MAX as u64 {
        return Err(Error::ContainerTooLarge);
    }
    let dfd_offset: u64 = 80 + 24 * (levels as u64);
    if dfd_offset > u32::MAX as u64 {
        return Err(Error::ContainerTooLarge);
    }
    let dfd_end: u64 = dfd_offset + dfd as u64;
    if kvd > 0 && dfd_end > u32::MAX as u64 {
        return Err(Error::ContainerTooLarge);
    }
    let kvd_end: u64 = dfd_end + kvd as u64;
    let sgd_end: u64 = match kvd_end.checked_add(sgd as u64) {
        Some(end) => end,
        None => {
            return Err(Error::ContainerTooLarge);
        },
    };
    let index = Index {
        dfd_byte_offset: dfd_offset as u32,
        dfd_byte_length: dfd as u32,
        kvd_byte_offset: if kvd == 0 {
            0
        } else {
            dfd_end as u32
        },
        kvd_byte_length: kvd as u32,
        sgd_byte_offset: if sgd == 0 {
            0
        } else {
            kvd_end
        },
        sgd_byte_length: sgd as u64,
    };
    Ok(
        (
            Header {
                format: header.format,
                type_size: header.type_size,
                pixel_width: header.pixel_width,
                pixel_height: header.pixel_height,
                pixel_depth: header.pixel_depth,
                layer_count: header.layer_count,
                face_count: header.face_count,
                level_count: levels as u32,
                supercompression_scheme: header.supercompression_scheme,
                index,
            },
            sgd_end,
        ),
    )
}

/// Computes the level index for payloads that start at `start`: each level
/// is given the next offset, the first level first.
///
/// Fails with `ContainerTooLarge` when the end of the payloads does not fit
/// 64 bits.
pub fn plan_levels(start: u64, levels: &[WriterLevel<'_>]) -> (entries: Result<
    Vec<LevelIndexEntry>,
    Error,
>)
    ensures
        match entries {
            Ok(e) => start + payload(level_views(levels@)).len() <= u64::MAX && e@ == level_index(
                start as nat,
                level_views(levels@),
            ),
            Err(e) => e == Error::ContainerTooLarge && start + payload(level_views(levels@)).len()
                > u64::MAX,
        },
{
    let ghost views = level_views(levels@);
    let mut entries: Vec<LevelIndexEntry> = Vec::new();
    let mut offset: u64 = start;
    let mut i: usize = 0;
    proof {
        assert(views.take(0) =~= Seq::<LevelView>::empty());
    }
    while i < levels.len()
        invariant
            i <= levels.len(),
            views == level_views(levels@),
            offset == start + payload(views.take(i as int)).len(),
            entries@.len() == i,
            forall|j: int|
                0 <= j < i ==> #[trigger] entries@[j] == level_entry(start as nat, views, j),
        decreases levels.len() - i,
    {
        let length: u64 = borrowed_bytes(&levels[i].bytes).len() as u64;
        proof {
            lemma_payload_prefix(views, i as int);
            lemma_payload_prefix(views, i + 1);
        }
        entries.push(
            LevelIndexEntry {
                byte_offset: offset,
                byte_length: length,
                uncompressed_byte_length: levels[i].uncompressed_length,
            },
        );
        offset = match offset.checked_add(length) {
            Some(next) => next,
            None => {
                return Err(Error::ContainerTooLarge);
            },
        };
        i += 1;
    }
    proof {
        assert(views.take(levels.len() as int) =~= views);
        assert(entries@ =~= level_index(start as nat, views));
    }
    Ok(entries)
}

/// Puts a container together from its header fields, its three descriptive
/// sections and its levels as they are stored, the largest level first.
///
/// Fails with `ContainerTooLarge` when a number of the layout does not fit
/// the field that records it; nothing else fails.
pub fn assemble(
    header: &WriterHeader,
    dfd: &[u8],
    kvd: &[u8],
    sgd: &[u8],
    levels: &[WriterLevel<'_>],
) -> (result: Result<Vec<u8>, Error>)
    ensures
        match result {
            Ok(bytes) => layout_fits(
                dfd@.len(),
                kvd@.len(),
                sgd@.len(),
                level_views(levels@),
            ) && bytes@ == container_encoding(*header, dfd@, kvd@, sgd@, level_views(levels@)),
            Err(e) => e == Error::ContainerTooLarge && !layout_fits(
                dfd@.len(),
                kvd@.len(),
                sgd@.len(),
                level_views(levels@),
            ),
        },
{
    let ghost views = level_views(levels@);
    let (laid_out, start) = match plan_sections(
        header,
        levels.len(),
        dfd.len(),
        kvd.len(),
        sgd.len(),
    ) {
        Ok(plan) => plan,
        Err(e) => {
            return Err(e);
        },
    };
    let entries = match plan_levels(start, levels) {
        Ok(entries) => entries,
        Err(e) => {
            return Err(e);
        },
    };
    let mut out = laid_out.to_bytes();
    let ghost head = out@;
    let mut i: usize = 0;
    while i < entries.len()
        invariant
            i <= entries@.len(),
            out@ == head + index_encoding(entries@.take(i as int)),
        decreases entries@.len() - i,
    {
        let encoded = entries[i].to_bytes();
        append(&mut out, encoded.as_slice());
        proof {
            assert(entries@.take(i + 1).drop_last() =~= entries@.take(i as int));
            assert(out@ =~= head + index_encoding(entries@.take(i + 1)));
        }
        i += 1;
    }
    proof {
        assert(entries@.take(entries@.len() as int) =~= entries@);
    }
    append(&mut out, dfd);
    append(&mut out, kvd);
    append(&mut out, sgd);
    let ghost sections = out@;
    let mut k: usize = 0;
    proof {
        assert(views.take(0) =~= Seq::<LevelView>::empty());
    }
    while k < levels.len()
        invariant
            k <= levels.len(),
            views == level_views(levels@),
            out@ == sections + payload(views.take(k as int)),
        decreases levels.len() - k,
    {
        append(&mut out, borrowed_bytes(&levels[k].bytes));
        proof {
            lemma_payload_prefix(views, k as int);
            assert(out@ =~= sections + payload(views.take(k + 1)));
        }
        k += 1;
    }
    proof {
        assert(views.take(levels.len() as int) =~= views);
        assert(out@ =~= container_encoding(*header, dfd@, kvd@, sgd@, views));
    }
    Ok(out)
}

} // verus!
