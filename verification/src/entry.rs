//! One record of the table of contents: where a named section lies.

use vstd::prelude::*;

verus! {

/// What a table-of-contents record says: the section's name, the offset of
/// its first byte in the archive, and its length in bytes.
pub struct EntryView {
    pub name: Seq<u8>,
    pub pos: u64,
    pub len: u64,
}

/// A section's name, position and length. The name is opaque bytes.
#[derive(Debug)]
pub struct TocEntry {
    name: Vec<u8>,
    pos: u64,
    len: u64,
}

impl View for TocEntry {
    type V = EntryView;

    closed spec fn view(&self) -> EntryView {
        EntryView { name: self.name@, pos: self.pos, len: self.len }
    }
}

/// The records of a sequence of entries, in order.
pub open spec fn views(entries: Seq<TocEntry>) -> Seq<EntryView> {
    Seq::new(entries.len(), |i: int| entries[i]@)
}

impl TocEntry {
    /// The name is no longer than memory allows.
    pub proof fn lemma_name_fits(&self)
        ensures
            self@.name.len() <= usize::MAX,
    {
        assert(self.name.len() == self.name@.len());
    }

    /// A record for the section `name` that covers the bytes `pos .. pos + len`.
    pub fn new(name: Vec<u8>, pos: u64, len: u64) -> (entry: TocEntry)
        ensures
            entry@ == (EntryView { name: name@, pos, len }),
    {
        TocEntry { name, pos, len }
    }

    /// The section's name.
    pub fn name(&self) -> (name: &[u8])
        ensures
            name@ == self@.name,
    {
        self.name.as_slice()
    }

    /// The offset of the section's first byte.
    pub fn pos(&self) -> (pos: u64)
        ensures
            pos == self@.pos,
    {
        self.pos
    }

    /// The section's length in bytes.
    pub fn len(&self) -> (len: u64)
        ensures
            len == self@.len,
    {
        self.len
    }
}

} // verus!
