//! Reading a container back: the header, the level index, the descriptive
//! sections and the stored levels, each checked to lie within the input.

use crate::error::Error;
use crate::header::{
    header_decoding, identifier, level_index_decoding, Header, LevelIndexEntry,
};
use crate::key_value::{decode_entries, mapping_decoding};
use crate::metadata::Metadata;
use vstd::prelude::*;
use vstd::slice::slice_subrange;

verus! {

/// The level index entry of level `i` in `bytes`.
pub open spec fn entry_at(bytes: Seq<u8>, i: int) -> LevelIndexEntry {
    level_index_decoding(bytes, 80 + 24 * i)
}

/// The bytes of `bytes` from `offset` on, `length` of them.
pub open spec fn section(bytes: Seq<u8>, offset: int, length: int) -> Seq<u8> {
    bytes.subrange(offset, offset + length)
}

/// Whether the header, the level index, the three descriptive sections and
/// every level of `bytes` lie within `bytes`.
pub open spec fn lies_within(bytes: Seq<u8>) -> bool {
    let h = header_decoding(bytes);
    &&& 80 + 24 * h.level_count <= bytes.len()
    &&& h.index.dfd_byte_offset + h.index.dfd_byte_length <= bytes.len()
    &&& h.index.kvd_byte_offset + h.index.kvd_byte_length <= bytes.len()
    &&& h.index.sgd_byte_offset + h.index.sgd_byte_length <= bytes.len()
    &&& forall|i: int|
        0 <= i < h.level_count ==> (#[trigger] entry_at(bytes, i)).byte_offset + entry_at(
            bytes,
            i,
        ).byte_length <= bytes.len()
}

/// Why `bytes` cannot be read, if it cannot: it is shorter than a header, or
/// does not open with the identifier, or a part of it runs past its end.
pub open spec fn read_failure(bytes: Seq<u8>) -> Option<Error> {
    if bytes.len() < 80 {
        Some(Error::TruncatedContainer)
    } else if bytes.subrange(0, 12) != identifier() {
        Some(Error::BadIdentifier)
    } else if !lies_within(bytes) {
        Some(Error::TruncatedContainer)
    } else {
        None
    }
}

/// The level index of `bytes`.
pub open spec fn read_index(bytes: Seq<u8>) -> Seq<LevelIndexEntry> {
    Seq::new(header_decoding(bytes).level_count as nat, |i: int| entry_at(bytes, i))
}

/// The stored bytes of level `i` of `bytes`.
pub open spec fn read_level(bytes: Seq<u8>, i: int) -> Seq<u8> {
    section(bytes, entry_at(bytes, i).byte_offset as int, entry_at(bytes, i).byte_length as int)
}

/// The data format descriptor of `bytes`.
pub open spec fn read_dfd(bytes: Seq<u8>) -> Seq<u8> {
    let index = header_decoding(bytes).index;
    section(bytes, index.dfd_byte_offset as int, index.dfd_byte_length as int)
}

/// The key/value section of `bytes`.
pub open spec fn read_kvd(bytes: Seq<u8>) -> Seq<u8> {
    let index = header_decoding(bytes).index;
    section(bytes, index.kvd_byte_offset as int, index.kvd_byte_length as int)
}

/// The supercompression global data of `bytes`.
pub open spec fn read_sgd(bytes: Seq<u8>) -> Seq<u8> {
    let index = header_decoding(bytes).index;
    section(bytes, index.sgd_byte_offset as int, index.sgd_byte_length as int)
}

/// How long `bytes` would be if its first `count` levels were stored as
/// they are: its length, with the uncompressed length of each level in
/// place of its stored length.
pub open spec fn expanded_length(bytes: Seq<u8>, count: nat) -> int
    decreases count,
{
    if count == 0 {
        bytes.len() as int
    } else {
        expanded_length(bytes, (count - 1) as nat) + entry_at(
            bytes,
            count - 1,
        ).uncompressed_byte_length - entry_at(bytes, count - 1).byte_length
    }
}

/// A container that has been found to lie within its input.
pub struct Reader<'a> {
    input: &'a [u8],
    header: Header,
    index: Vec<LevelIndexEntry>,
}

impl<'a> Reader<'a> {
    /// The input that is read. Of a well-formed reader the header and the
    /// level index are those that these bytes hold.
    pub closed spec fn bytes(&self) -> Seq<u8> {
        self.input@
    }

    /// The input can be read, and the header and the level index are its own.
    pub closed spec fn well_formed(&self) -> bool {
        &&& read_failure(self.input@) is None
        &&& self.header == header_decoding(self.input@)
        &&& self.index@ == read_index(self.input@)
    }

    /// Reads the header and the level index of `input` and checks that
    /// every part lies within it.
    ///
    /// Nothing else is asked of the input, and that is meant: a width or a
    /// face count of zero is read as it is; a section or a level may end
    /// where the input ends; and a level count of zero means that there is
    /// no level. Readers that refuse such input, or that read one level
    /// where none is counted, are stricter than the layout asks for.
    /// Likewise `key_value_data` fails on a malformed entry and does not
    /// pass it over.
    pub fn new(input: &'a [u8]) -> (result: Result<Reader<'a>, Error>)
        ensures
            match result {
                Ok(reader) => read_failure(input@) is None && reader.well_formed()
                    && reader.bytes() == input@,
                Err(e) => read_failure(input@) == Some(e),
            },
    {
        let header = match Header::from_bytes(input) {
            Ok(header) => header,
            Err(e) => {
                return Err(e);
            },
        };
        let length: u64 = input.len() as u64;
        let count: u64 = header.level_count as u64;
        if 80 + 24 * count > length {
            return Err(Error::TruncatedContainer);
        }
        if header.index.dfd_byte_offset as u64 + header.index.dfd_byte_length as u64 > length {
            return Err(Error::TruncatedContainer);
        }
        if header.index.kvd_byte_offset as u64 + header.index.kvd_byte_length as u64 > length {
            return Err(Error::TruncatedContainer);
        }
        match header.index.sgd_byte_offset.checked_add(header.index.sgd_byte_length) {
            Some(end) => {
                if end > length {
                    return Err(Error::TruncatedContainer);
                }
            },
            None => {
                return Err(Error::TruncatedContainer);
            },
        }
        let mut index: Vec<LevelIndexEntry> = Vec::new();
        let mut i: usize = 0;
        while i < header.level_count as usize
            invariant
                i <= header.level_count,
                header == header_decoding(input@),
                input@.len() >= 80,
                input@.subrange(0, 12) == identifier(),
                80 + 24 * header.level_count <= input@.len(),
                length == input@.len(),
                input.len() == input@.len(),
                index@.len() == i,
                forall|j: int| 0 <= j < i ==> #[trigger] index@[j] == entry_at(input@, j),
                forall|j: int|
                    0 <= j < i ==> (#[trigger] entry_at(input@, j)).byte_offset + entry_at(
                        input@,
                        j,
                    ).byte_length <= input@.len(),
            decreases header.level_count - i,
        {
            let entry = LevelIndexEntry::from_bytes(input, 80 + 24 * i);
            assert(entry == entry_at(input@, i as int));
            match entry.byte_offset.checked_add(entry.byte_length) {
                Some(end) => {
                    if end > length {
                        return Err(Error::TruncatedContainer);
                    }
                },
                None => {
                    return Err(Error::TruncatedContainer);
                },
            }
            index.push(entry);
            i += 1;
        }
        assert(index@ =~= read_index(input@));
        Ok(Reader { input, header, index })
    }

    /// The fixed header.
    pub fn header(&self) -> (header: Header)
        requires
            self.well_formed(),
        ensures
            header == header_decoding(self.bytes()),
    {
        self.header
    }

    /// The number of levels.
    pub fn level_count(&self) -> (count: usize)
        requires
            self.well_formed(),
        ensures
            count == header_decoding(self.bytes()).level_count,
    {
        self.index.len()
    }

    /// The index entry of level `i`, the largest level being level 0.
    pub fn level_entry(&self, i: usize) -> (entry: LevelIndexEntry)
        requires
            self.well_formed(),
            i < header_decoding(self.bytes()).level_count,
        ensures
            entry == entry_at(self.bytes(), i as int),
    {
        self.index[i]
    }

    /// The stored bytes of level `i` and its uncompressed length, the
    /// largest level being level 0. Any level can be asked for at any time.
    pub fn level(&self, i: usize) -> (level: (&'a [u8], u64))
        requires
            self.well_formed(),
            i < header_decoding(self.bytes()).level_count,
        ensures
            level.0@ == read_level(self.bytes(), i as int),
            level.1 == entry_at(self.bytes(), i as int).uncompressed_byte_length,
    {
        assert(self.input@.len() == self.input.len());
        let entry = self.index[i];
        assert(entry == entry_at(self.input@, i as int));
        let start = entry.byte_offset as usize;
        let end = (entry.byte_offset + entry.byte_length) as usize;
        (slice_subrange(self.input, start, end), entry.uncompressed_byte_length)
    }

    /// The length that the container would have without supercompression.
    pub fn uncompressed_length(&self) -> (length: i128)
        requires
            self.well_formed(),
        ensures
            length == expanded_length(
                self.bytes(),
                header_decoding(self.bytes()).level_count as nat,
            ),
    {
        let total = self.input.len();
        let mut length: i128 = total as i128;
        let mut i: usize = 0;
        while i < self.index.len()
            invariant
                i <= self.index@.len(),
                self.well_formed(),
                self.index@.len() == header_decoding(self.input@).level_count,
                length == expanded_length(self.input@, i as nat),
                -(i * 0x1_0000_0000_0000_0000) <= length <= 0x1_0000_0000_0000_0000 + i
                    * 0x1_0000_0000_0000_0000,
            decreases self.index@.len() - i,
        {
            let entry = self.index[i];
            assert(entry == entry_at(self.input@, i as int));
            length = length + entry.uncompressed_byte_length as i128 - entry.byte_length as i128;
            i += 1;
        }
        length
    }

    /// The data format descriptor, as it is in the input.
    pub fn dfd_bytes(&self) -> (dfd: &'a [u8])
        requires
            self.well_formed(),
        ensures
            dfd@ == read_dfd(self.bytes()),
    {
        assert(self.input@.len() == self.input.len());
        let start = self.header.index.dfd_byte_offset as usize;
        let end = (self.header.index.dfd_byte_offset as u64
            + self.header.index.dfd_byte_length as u64) as usize;
        slice_subrange(self.input, start, end)
    }

    /// The key/value section, as it is in the input.
    pub fn kvd_bytes(&self) -> (kvd: &'a [u8])
        requires
            self.well_formed(),
        ensures
            kvd@ == read_kvd(self.bytes()),
    {
        assert(self.input@.len() == self.input.len());
        let start = self.header.index.kvd_byte_offset as usize;
        let end = (self.header.index.kvd_byte_offset as u64
            + self.header.index.kvd_byte_length as u64) as usize;
        slice_subrange(self.input, start, end)
    }

    /// The supercompression global data, as it is in the input.
    pub fn supercompression_global_data(&self) -> (sgd: &'a [u8])
        requires
            self.well_formed(),
        ensures
            sgd@ == read_sgd(self.bytes()),
    {
        assert(self.input@.len() == self.input.len());
        let start = self.header.index.sgd_byte_offset as usize;
        let end = (self.header.index.sgd_byte_offset + self.header.index.sgd_byte_length) as usize;
        slice_subrange(self.input, start, end)
    }

    /// The mapping that the key/value section holds, a later entry replacing
    /// an earlier one with the same key.
    pub fn key_value_data(&self) -> (result: Result<Metadata, Error>)
        requires
            self.well_formed(),
        ensures
            match result {
                Ok(metadata) => metadata.well_formed() && mapping_decoding(
                    read_kvd(self.bytes()),
                ) == Some(metadata@),
                Err(e) => e == Error::MalformedMetadata && mapping_decoding(
                    read_kvd(self.bytes()),
                ) is None,
            },
    {
        decode_entries(self.kvd_bytes())
    }
}

} // verus!
