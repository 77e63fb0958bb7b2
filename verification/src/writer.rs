//! Writing a container: the levels are framed one by one, the producer's
//! entry joins the metadata, and the layout engine puts the bytes together.

use crate::bytes::{borrowed_bytes, buffer_views};
use crate::error::Error;
use crate::framer::{compress, is_stored_form, is_supported};
use crate::header::WriterHeader;
use crate::key_value::{encode_metadata, entries_fit, section_encoding, with_writer};
use crate::layout::{assemble, container_encoding, layout_fits, level_views, LevelView, WriterLevel};
use crate::metadata::{Metadata, Pair};
use std::borrow::Cow;
use vstd::prelude::*;

verus! {

/// Everything a container is written from. The levels are uncompressed and
/// come in descending order of size: the base level first.
pub struct Writer<'a> {
    pub header: WriterHeader,
    pub dfd_bytes: &'a [u8],
    pub key_value_pairs: &'a Metadata,
    pub sgd_bytes: &'a [u8],
    pub uncompressed_levels_descending: &'a [Cow<'a, [u8]>],
}

/// The levels as they are stored when no scheme compresses them.
pub open spec fn stored_as_they_are(levels: Seq<Seq<u8>>) -> Seq<LevelView> {
    Seq::new(
        levels.len(),
        |i: int| LevelView { bytes: levels[i], uncompressed_length: levels[i].len() as u64 },
    )
}

/// Whether `stored` holds a stored form of each of `levels` under `header`'s
/// scheme, with the level's own length recorded as its uncompressed length.
pub open spec fn are_stored_forms(
    header: WriterHeader,
    levels: Seq<Seq<u8>>,
    stored: Seq<LevelView>,
) -> bool {
    &&& stored.len() == levels.len()
    &&& forall|i: int|
        0 <= i < levels.len() ==> (#[trigger] stored[i]).uncompressed_length == levels[i].len()
            && is_stored_form(header.supercompression_scheme, levels[i], stored[i].bytes)
}

/// Whether `bytes` is a container written from the given parts: the layout
/// of some stored forms of the levels, with the producer's entry among the
/// metadata.
pub open spec fn is_container_of(
    header: WriterHeader,
    dfd: Seq<u8>,
    pairs: Seq<Pair>,
    sgd: Seq<u8>,
    levels: Seq<Seq<u8>>,
    bytes: Seq<u8>,
) -> bool {
    exists|stored: Seq<LevelView>|
        {
            &&& are_stored_forms(header, levels, stored)
            &&& entries_fit(with_writer(pairs))
            &&& layout_fits(
                dfd.len(),
                section_encoding(with_writer(pairs)).len(),
                sgd.len(),
                stored,
            )
            &&& bytes == #[trigger] container_encoding(
                header,
                dfd,
                section_encoding(with_writer(pairs)),
                sgd,
                stored,
            )
        }
}

/// Whether some stored forms of the levels have a layout with a number that
/// does not fit its field.
pub open spec fn is_too_large(
    header: WriterHeader,
    dfd: Seq<u8>,
    pairs: Seq<Pair>,
    sgd: Seq<u8>,
    levels: Seq<Seq<u8>>,
) -> bool {
    exists|stored: Seq<LevelView>|
        #[trigger] are_stored_forms(header, levels, stored) && !layout_fits(
            dfd.len(),
            section_encoding(with_writer(pairs)).len(),
            sgd.len(),
            stored,
        )
}

/// What writing has to give.
///
/// A scheme that cannot be framed is refused first, then metadata with an
/// entry too long for its length prefix. After that a result is a container
/// of the parts. An error is `CodecFailed`, which only a scheme and a level
/// to compress can bring about, or `ContainerTooLarge`, which only stored
/// forms whose layout does not fit can.
pub open spec fn is_written(
    header: WriterHeader,
    dfd: Seq<u8>,
    pairs: Seq<Pair>,
    sgd: Seq<u8>,
    levels: Seq<Seq<u8>>,
    result: Result<Vec<u8>, Error>,
) -> bool {
    if !is_supported(header.supercompression_scheme) {
        result == Err::<Vec<u8>, Error>(Error::UnsupportedSupercompressionScheme)
    } else if !entries_fit(with_writer(pairs)) {
        result == Err::<Vec<u8>, Error>(Error::ContainerTooLarge)
    } else {
        match result {
            Ok(bytes) => is_container_of(header, dfd, pairs, sgd, levels, bytes@),
            Err(e) => (e == Error::CodecFailed && header.supercompression_scheme is Some
                && levels.len() > 0) || (e == Error::ContainerTooLarge && is_too_large(
                header,
                dfd,
                pairs,
                sgd,
                levels,
            )),
        }
    }
}

impl<'a> Writer<'a> {
    /// The uncompressed levels, the base level first.
    pub open spec fn levels(&self) -> Seq<Seq<u8>> {
        buffer_views(self.uncompressed_levels_descending@)
    }

    /// Writes the container and returns its bytes, all of them or none.
    ///
    /// A scheme other than Zstandard is refused before anything else is
    /// looked at, and metadata with an entry too long for its length prefix
    /// right after. Without a scheme the outcome is fixed by the arguments:
    /// the container is written unless a number of its layout does not fit
    /// its field. With Zstandard the stored bytes are the codec's, and the
    /// codec may fail.
    pub fn write(&self) -> (result: Result<Vec<u8>, Error>)
        requires
            self.key_value_pairs.well_formed(),
        ensures
            is_written(
                self.header,
                self.dfd_bytes@,
                self.key_value_pairs@,
                self.sgd_bytes@,
                self.levels(),
                result,
            ),
            self.header.supercompression_scheme is None ==> match result {
                Ok(bytes) => entries_fit(with_writer(self.key_value_pairs@)) && layout_fits(
                    self.dfd_bytes@.len(),
                    section_encoding(with_writer(self.key_value_pairs@)).len(),
                    self.sgd_bytes@.len(),
                    stored_as_they_are(self.levels()),
                ) && bytes@ == container_encoding(
                    self.header,
                    self.dfd_bytes@,
                    section_encoding(with_writer(self.key_value_pairs@)),
                    self.sgd_bytes@,
                    stored_as_they_are(self.levels()),
                ),
                Err(e) => e == Error::ContainerTooLarge && !(entries_fit(
                    with_writer(self.key_value_pairs@),
                ) && layout_fits(
                    self.dfd_bytes@.len(),
                    section_encoding(with_writer(self.key_value_pairs@)).len(),
                    self.sgd_bytes@.len(),
                    stored_as_they_are(self.levels()),
                )),
            },
    {
        let scheme = self.header.supercompression_scheme;
        match scheme {
            Some(s) => {
                if s.code != crate::header::ZSTANDARD {
                    return Err(Error::UnsupportedSupercompressionScheme);
                }
            },
            None => {},
        }
        let kvd = match encode_metadata(self.key_value_pairs) {
            Ok(kvd) => kvd,
            Err(e) => {
                return Err(e);
            },
        };
        let mut stored: Vec<WriterLevel<'a>> = Vec::new();
        let mut i: usize = 0;
        while i < self.uncompressed_levels_descending.len()
            invariant
                i <= self.uncompressed_levels_descending@.len(),
                scheme == self.header.supercompression_scheme,
                is_supported(scheme),
                entries_fit(with_writer(self.key_value_pairs@)),
                stored@.len() == i,
                forall|j: int|
                    0 <= j < i ==> (#[trigger] stored@[j]).uncompressed_length
                        == self.levels()[j].len() && is_stored_form(
                        scheme,
                        self.levels()[j],
                        stored@[j].bytes@,
                    ),
            decreases self.uncompressed_levels_descending@.len() - i,
        {
            let level = borrowed_bytes(&self.uncompressed_levels_descending[i]);
            match compress(scheme, level) {
                Ok((bytes, uncompressed_length)) => {
                    stored.push(WriterLevel { uncompressed_length, bytes });
                },
                Err(e) => {
                    return Err(e);
                },
            }
            i += 1;
        }
        let result = assemble(
            &self.header,
            self.dfd_bytes,
            kvd.as_slice(),
            self.sgd_bytes,
            stored.as_slice(),
        );
        proof {
            let views = level_views(stored@);
            assert(are_stored_forms(self.header, self.levels(), views));
            if scheme is None {
                assert(views =~= stored_as_they_are(self.levels()));
            }
        }
        result
    }
}

} // verus!
