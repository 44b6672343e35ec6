//! The bounded reader: a cursor over one section that never leaves it.

use vstd::prelude::*;
use vstd::slice::{slice_subrange, slice_to_vec};
use crate::entry::{EntryView, TocEntry};
use crate::error::Error;

verus! {

/// The smaller of two numbers.
pub open spec fn min(a: int, b: int) -> int {
    if a <= b {
        a
    } else {
        b
    }
}

/// The number of bytes of `entry` whose offsets the format can record: its
/// length, cut short where `pos + len` would pass the largest offset.
pub open spec fn reachable_len(entry: EntryView) -> int {
    min(entry.len as int, u64::MAX - entry.pos)
}

/// The number of bytes that `source` holds from offset `pos` on.
pub open spec fn available(source: Seq<u8>, pos: int) -> int {
    if pos <= source.len() {
        source.len() - pos
    } else {
        0
    }
}

/// The `n` bytes of `source` from offset `pos` on; `n` is at most `available(source, pos)`.
pub open spec fn window(source: Seq<u8>, pos: int, n: int) -> Seq<u8> {
    if n <= 0 {
        Seq::empty()
    } else {
        source.subrange(pos, pos + n)
    }
}

/// The bytes of `source` that belong to `entry`: all of them where the entry
/// lies within `source`.
pub open spec fn section_bytes(source: Seq<u8>, entry: EntryView) -> Seq<u8> {
    window(
        source,
        entry.pos as int,
        min(reachable_len(entry), available(source, entry.pos as int)),
    )
}

/// An entry that lies within `source` has all its bytes there, from its
/// position on and as many as its length says.
pub proof fn lemma_section_bytes_in_bounds(source: Seq<u8>, entry: EntryView)
    requires
        entry.pos + entry.len <= source.len(),
        source.len() <= u64::MAX,
    ensures
        section_bytes(source, entry) == source.subrange(
            entry.pos as int,
            entry.pos + entry.len,
        ),
        section_bytes(source, entry).len() == entry.len,
{
    assert(section_bytes(source, entry) =~= source.subrange(
        entry.pos as int,
        entry.pos + entry.len,
    ));
}

/// A sequential reader over the byte range of one section.
///
/// It owns a cursor and a count of the bytes that are left, and nothing of the
/// source: a source in memory is handed to `read`, any other source is read by
/// the caller, who asks `chunk_len` how much may be read at `position` and
/// reports with `advance` how much was.
#[derive(Clone, Copy, Debug)]
pub struct SectionReader {
    cursor: u64,
    remaining: u64,
}

impl SectionReader {
    /// The offset in the source of the next byte to read.
    pub closed spec fn spec_position(&self) -> u64 {
        self.cursor
    }

    /// The number of bytes of the section that were not read yet.
    pub closed spec fn spec_remaining(&self) -> u64 {
        self.remaining
    }

    /// The offset at which the section ends: no read takes a byte from there on.
    pub open spec fn end(&self) -> int {
        self.spec_position() + self.spec_remaining()
    }

    /// The section's end is an offset that the format can record.
    pub open spec fn wf(&self) -> bool {
        self.end() <= u64::MAX
    }

    /// A reader at the start of the section that `entry` describes.
    pub fn new(entry: &TocEntry) -> (reader: SectionReader)
        ensures
            reader.wf(),
            reader.spec_position() == entry@.pos,
            reader.spec_remaining() == reachable_len(entry@),
    {
        let pos = entry.pos();
        let len = entry.len();
        let room: u64 = u64::MAX - pos;
        SectionReader { cursor: pos, remaining: if len <= room { len } else { room } }
    }

    /// The offset in the source of the next byte to read.
    #[verifier::when_used_as_spec(spec_position)]
    pub fn position(&self) -> (pos: u64)
        ensures
            pos == self.spec_position(),
    {
        self.cursor
    }

    /// The number of bytes of the section that were not read yet.
    #[verifier::when_used_as_spec(spec_remaining)]
    pub fn remaining(&self) -> (n: u64)
        ensures
            n == self.spec_remaining(),
    {
        self.remaining
    }

    /// Whether the whole section was read.
    pub fn is_at_end(&self) -> (b: bool)
        ensures
            b == (self.spec_remaining() == 0),
    {
        self.remaining == 0
    }

    /// The number of bytes that a read into a buffer of `max` bytes may take
    /// from the source at `position`: never more than the section has left.
    pub fn chunk_len(&self, max: usize) -> (n: usize)
        ensures
            n == min(max as int, self.spec_remaining() as int),
    {
        if max as u64 <= self.remaining {
            max
        } else {
            self.remaining as usize
        }
    }

    /// Moves the cursor over `n` bytes that the caller has read at `position`.
    ///
    /// Fails, and changes nothing, where the section has fewer than `n` bytes left.
    pub fn advance(&mut self, n: usize) -> (r: Result<(), Error>)
        requires
            old(self).wf(),
        ensures
            final(self).wf(),
            final(self).end() == old(self).end(),
            match r {
                Ok(_) => {
                    &&& n <= old(self).spec_remaining()
                    &&& final(self).spec_position() == old(self).spec_position() + n
                    &&& final(self).spec_remaining() == old(self).spec_remaining() - n
                },
                Err(e) => {
                    &&& n > old(self).spec_remaining()
                    &&& e == Error::ReadPastEnd
                    &&& *final(self) == *old(self)
                },
            },
    {
        if n as u64 > self.remaining {
            return Err(Error::ReadPastEnd);
        }
        self.cursor = self.cursor + n as u64;
        self.remaining = self.remaining - n as u64;
        Ok(())
    }

    /// Reads at most `max` bytes of the section from `source`, the archive in memory.
    ///
    /// The bytes come from `position` on. Their number is `max`, or what the
    /// section has left, or what `source` holds from there on, whichever is
    /// least: so an empty result for `max > 0` is the end of the data.
    pub fn read(&mut self, source: &[u8], max: usize) -> (chunk: Vec<u8>)
        requires
            old(self).wf(),
        ensures
            final(self).wf(),
            final(self).end() == old(self).end(),
            chunk@.len() <= max,
            chunk@.len() <= old(self).spec_remaining(),
            chunk@.len() == min(
                min(max as int, old(self).spec_remaining() as int),
                available(source@, old(self).spec_position() as int),
            ),
            chunk@ == window(source@, old(self).spec_position() as int, chunk@.len() as int),
            final(self).spec_position() == old(self).spec_position() + chunk@.len(),
            final(self).spec_remaining() == old(self).spec_remaining() - chunk@.len(),
    {
        let wanted: usize = self.chunk_len(max);
        let held: usize = if self.cursor <= source.len() as u64 {
            source.len() - self.cursor as usize
        } else {
            0
        };
        let n: usize = if wanted <= held {
            wanted
        } else {
            held
        };
        if n == 0 {
            return Vec::new();
        }
        let start: usize = self.cursor as usize;
        let chunk = slice_to_vec(slice_subrange(source, start, start + n));
        self.cursor = self.cursor + n as u64;
        self.remaining = self.remaining - n as u64;
        chunk
    }

    /// Reads what is left of the section from `source`, the archive in memory.
    pub fn read_to_end(&mut self, source: &[u8]) -> (rest: Vec<u8>)
        requires
            old(self).wf(),
        ensures
            final(self).wf(),
            final(self).end() == old(self).end(),
            rest@.len() <= old(self).spec_remaining(),
            rest@.len() == min(
                old(self).spec_remaining() as int,
                available(source@, old(self).spec_position() as int),
            ),
            rest@ == window(source@, old(self).spec_position() as int, rest@.len() as int),
            final(self).spec_position() == old(self).spec_position() + rest@.len(),
            final(self).spec_remaining() == old(self).spec_remaining() - rest@.len(),
    {
        self.read(source, source.len())
    }
}

impl TocEntry {
    /// A bounded reader over this section.
    pub fn reader(&self) -> (reader: SectionReader)
        ensures
            reader.wf(),
            reader.spec_position() == self@.pos,
            reader.spec_remaining() == reachable_len(self@),
    {
        SectionReader::new(self)
    }

    /// The bytes of this section in `source`, the archive in memory.
    pub fn read_from(&self, source: &[u8]) -> (bytes: Vec<u8>)
        ensures
            bytes@ == section_bytes(source@, self@),
    {
        let mut reader = SectionReader::new(self);
        reader.read_to_end(source)
    }
}

} // verus!
