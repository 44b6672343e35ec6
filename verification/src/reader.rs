//! Opening an archive: the trailer is found and checked, then the table of
//! contents is read and every entry held to the data area.

use vstd::prelude::*;
use vstd::slice::slice_subrange;
use crate::entry::{views, EntryView};
use crate::error::Error;
use crate::format::{decode_archive, decode_toc, encode_toc, in_bounds, lemma_encode_toc_of_decoded,
    parse_toc, parse_trailer, Trailer, TRAILER_LEN};
use crate::section::SectionReader;
use crate::toc::{is_first_match, is_match, no_match, Toc};

verus! {

/// What reading a table area gives for an archive with the trailer `trailer`:
/// the entries, or why the area or an entry is refused.
pub open spec fn decode_table(trailer: Trailer, table: Seq<u8>) -> Result<Seq<EntryView>, Error> {
    match decode_toc(table, trailer.entry_count as nat) {
        None => Err(Error::MalformedToc),
        Some(entries) => if in_bounds(entries, trailer.toc_pos as int) {
            Ok(entries)
        } else {
            Err(Error::EntryOutOfBounds)
        },
    }
}

/// The offset at which the trailer of an archive of `archive_len` bytes begins.
pub fn trailer_pos(archive_len: u64) -> (r: Result<u64, Error>)
    ensures
        archive_len >= TRAILER_LEN ==> r == Ok::<u64, Error>((archive_len - TRAILER_LEN) as u64),
        archive_len < TRAILER_LEN ==> r == Err::<u64, Error>(Error::TruncatedTrailer),
{
    if archive_len < TRAILER_LEN as u64 {
        Err(Error::TruncatedTrailer)
    } else {
        Ok(archive_len - TRAILER_LEN as u64)
    }
}

impl Trailer {
    /// The length of the table area in an archive of `archive_len` bytes.
    pub fn toc_len(&self, archive_len: u64) -> (r: Result<u64, Error>)
        ensures
            archive_len < TRAILER_LEN ==> r == Err::<u64, Error>(Error::TruncatedTrailer),
            archive_len >= TRAILER_LEN && self.toc_pos > archive_len - TRAILER_LEN ==> r == Err::<
                u64,
                Error,
            >(Error::TocOutOfBounds),
            archive_len >= TRAILER_LEN && self.toc_pos <= archive_len - TRAILER_LEN ==> r == Ok::<
                u64,
                Error,
            >((archive_len - TRAILER_LEN - self.toc_pos) as u64),
    {
        if archive_len < TRAILER_LEN as u64 {
            Err(Error::TruncatedTrailer)
        } else if self.toc_pos > archive_len - TRAILER_LEN as u64 {
            Err(Error::TocOutOfBounds)
        } else {
            Ok(archive_len - TRAILER_LEN as u64 - self.toc_pos)
        }
    }
}

/// An opened archive: its table of contents, and where its data area ends.
#[derive(Debug)]
pub struct Reader {
    toc: Toc,
    data_len: u64,
}

impl View for Reader {
    type V = Seq<EntryView>;

    closed spec fn view(&self) -> Seq<EntryView> {
        self.toc@
    }
}

impl Reader {
    /// The table of contents that was read.
    pub closed spec fn spec_toc(&self) -> Toc {
        self.toc
    }

    /// The length of the data area, which is the offset of the table.
    pub closed spec fn spec_data_len(&self) -> u64 {
        self.data_len
    }

    /// The table's flag is true to its order, and every entry lies in the data area.
    pub open spec fn wf(&self) -> bool {
        &&& self.spec_toc().wf()
        &&& self.spec_toc()@ == self@
        &&& in_bounds(self@, self.spec_data_len() as int)
    }

    /// Whether every entry of `toc` lies within the first `data_len` bytes.
    fn check_bounds(toc: &Toc, data_len: u64) -> (ok: bool)
        ensures
            ok == in_bounds(toc@, data_len as int),
    {
        let entries = toc.as_slice();
        let mut i: usize = 0;
        while i < entries.len()
            invariant
                i <= entries@.len(),
                views(entries@) == toc@,
                forall|j: int| 0 <= j < i ==> (#[trigger] toc@[j]).pos + toc@[j].len <= data_len,
            decreases entries@.len() - i,
        {
            let entry = &entries[i];
            if entry.len() > data_len || entry.pos() > data_len - entry.len() {
                assert(toc@[i as int].pos + toc@[i as int].len > data_len);
                return false;
            }
            i = i + 1;
        }
        true
    }

    /// Reads the table of an archive whose trailer is `trailer`.
    ///
    /// `table` holds the bytes between the table's offset and the trailer.
    pub fn from_table(trailer: Trailer, table: &[u8]) -> (r: Result<Reader, Error>)
        ensures
            match r {
                Ok(reader) => reader.wf() && decode_table(trailer, table@) == Ok::<
                    Seq<EntryView>,
                    Error,
                >(reader@) && reader.spec_data_len() == trailer.toc_pos,
                Err(e) => decode_table(trailer, table@) == Err::<Seq<EntryView>, Error>(e),
            },
    {
        match parse_toc(table, trailer.entry_count) {
            None => Err(Error::MalformedToc),
            Some(toc) => {
                if Self::check_bounds(&toc, trailer.toc_pos) {
                    Ok(Reader { toc, data_len: trailer.toc_pos })
                } else {
                    Err(Error::EntryOutOfBounds)
                }
            },
        }
    }

    /// Opens `archive`, a whole archive in memory.
    ///
    /// Succeeds exactly on the bytes that are a well-formed archive, with the
    /// entries in stored order; any other input is refused with the first
    /// fault that `decode_archive` finds.
    pub fn open(archive: &[u8]) -> (r: Result<Reader, Error>)
        ensures
            match r {
                Ok(reader) => reader.wf() && decode_archive(archive@) == Ok::<
                    Seq<EntryView>,
                    Error,
                >(reader@) && reader.spec_data_len() + encode_len(reader@) + TRAILER_LEN
                    == archive@.len(),
                Err(e) => decode_archive(archive@) == Err::<Seq<EntryView>, Error>(e),
            },
    {
        let total: usize = archive.len();
        if total < TRAILER_LEN {
            return Err(Error::TruncatedTrailer);
        }
        let table_end: usize = total - TRAILER_LEN;
        let tail = slice_subrange(archive, table_end, total);
        let trailer = match parse_trailer(tail) {
            Err(e) => {
                return Err(e);
            },
            Ok(trailer) => trailer,
        };
        if trailer.toc_pos > table_end as u64 {
            return Err(Error::TocOutOfBounds);
        }
        let table = slice_subrange(archive, trailer.toc_pos as usize, table_end);
        let r = Self::from_table(trailer, table);
        proof {
            if r is Ok {
                lemma_encode_toc_of_decoded(table@, trailer.entry_count as nat);
            }
        }
        r
    }

    /// The table of contents.
    pub fn toc(&self) -> (toc: &Toc)
        ensures
            *toc == self.spec_toc(),
    {
        &self.toc
    }

    /// A bounded reader over the section `name`, if there is one: the entry
    /// is found as by `Toc::section`, and the reader ends within the data area.
    pub fn section_reader(&self, name: &[u8]) -> (r: Option<SectionReader>)
        requires
            self.wf(),
        ensures
            match r {
                Some(reader) => exists|i: int|
                    #[trigger] is_match(self@, name@, i) && reader.spec_position() == self@[i].pos
                        && reader.spec_remaining() == self@[i].len && (!self.spec_toc().bisects()
                        ==> is_first_match(self@, name@, i)) && reader.end()
                        <= self.spec_data_len(),
                None => no_match(self@, name@),
            },
    {
        match self.toc.section(name) {
            None => None,
            Some(entry) => {
                let reader = SectionReader::new(entry);
                proof {
                    let i = choose|i: int| #[trigger]
                        is_match(self@, name@, i) && entry@ == self@[i] && (
                        !self.spec_toc().bisects() ==> is_first_match(self@, name@, i));
                    assert(self@[i].pos + self@[i].len <= self.spec_data_len());
                }
                Some(reader)
            },
        }
    }

    /// The table of contents, taken out of the reader.
    pub fn into_toc(self) -> (toc: Toc)
        ensures
            toc == self.spec_toc(),
    {
        self.toc
    }

    /// The length of the data area.
    #[verifier::when_used_as_spec(spec_data_len)]
    pub fn data_len(&self) -> (n: u64)
        ensures
            n == self.spec_data_len(),
    {
        self.data_len
    }
}

/// The size of the table area that records `entries`.
pub open spec fn encode_len(entries: Seq<EntryView>) -> nat {
    encode_toc(entries).len()
}

} // verus!
