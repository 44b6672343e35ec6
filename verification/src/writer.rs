//! The writer: sections are streamed into the data area one after another,
//! and `finish` appends the table of contents and the trailer.
//!
//! Output is only ever appended. What the writer has produced is held until
//! the caller takes it with `take_output`, so a caller that takes it after
//! every write never holds more than one chunk in memory.

use vstd::prelude::*;
use vstd::slice::slice_to_vec;
use crate::archive::{archive_bytes, data_area, layout, lemma_data_area_push, lemma_layout,
    lemma_layout_push, lemma_round_trip, Section};
use crate::entry::{EntryView, TocEntry};
use crate::error::Error;
use crate::format::{append_bytes, decode_archive, encode_toc, encode_trailer, write_toc,
    write_trailer, Trailer};
use crate::section::section_bytes;
use crate::toc::Toc;

verus! {

/// Where a writer stands in its life.
#[derive(Clone, Copy, Debug, PartialEq, Eq, Structural)]
pub enum WriterState {
    /// No section was started yet.
    Empty,
    /// A section is open and takes the bytes that are written.
    SectionOpen,
    /// The table and the trailer were written; nothing more is accepted.
    Finalized,
}

/// A streaming encoder of archives.
pub struct Writer {
    state: WriterState,
    out: Vec<u8>,
    pos: u64,
    section_name: Vec<u8>,
    section_start: u64,
    toc: Toc,
    sections: Ghost<Seq<Section>>,
    current: Ghost<Seq<u8>>,
    taken: Ghost<Seq<u8>>,
}

impl Writer {
    /// Where the writer stands.
    pub closed spec fn spec_state(&self) -> WriterState {
        self.state
    }

    /// The sections that were closed with at least one byte in them, in order.
    pub closed spec fn sections(&self) -> Seq<Section> {
        self.sections@
    }

    /// The name of the section that was started last.
    pub closed spec fn open_name(&self) -> Seq<u8> {
        self.section_name@
    }

    /// The bytes written to the open section so far; empty where none is open.
    pub closed spec fn open_data(&self) -> Seq<u8> {
        self.current@
    }

    /// The output that the caller has taken already.
    pub closed spec fn taken(&self) -> Seq<u8> {
        self.taken@
    }

    /// The output that the caller has not taken yet.
    pub closed spec fn pending(&self) -> Seq<u8> {
        self.out@
    }

    /// Everything the writer has produced since it was made.
    pub open spec fn emitted(&self) -> Seq<u8> {
        self.taken() + self.pending()
    }

    /// The table of contents as it stands.
    pub closed spec fn spec_toc(&self) -> Toc {
        self.toc
    }

    /// The sections once the open one is closed: it joins them if it holds
    /// at least one byte, and is dropped if it holds none.
    pub open spec fn sections_closed(&self) -> Seq<Section> {
        if self.spec_state() == WriterState::SectionOpen && self.open_data().len() > 0 {
            self.sections().push(Section { name: self.open_name(), data: self.open_data() })
        } else {
            self.sections()
        }
    }

    /// What the writer must have produced: the data so far, and the whole
    /// archive once it is finished.
    pub open spec fn expected_output(&self) -> Seq<u8> {
        if self.spec_state() == WriterState::Finalized {
            archive_bytes(self.sections())
        } else {
            data_area(self.sections()) + self.open_data()
        }
    }

    /// The writer's fields agree with one another and with what was produced.
    pub closed spec fn wf(&self) -> bool {
        &&& self.toc.wf()
        &&& self.toc@ == layout(self.sections@)
        &&& forall|i: int|
            0 <= i < self.sections@.len() ==> (#[trigger] self.sections@[i]).data.len() > 0
        &&& self.section_start == data_area(self.sections@).len()
        &&& self.pos == self.section_start + self.current@.len()
        &&& (self.state != WriterState::SectionOpen ==> self.current@.len() == 0)
        &&& (self.state == WriterState::Empty ==> self.sections@.len() == 0)
        &&& self.taken@ + self.out@ == self.expected_output()
    }

    /// What a well-formed writer has produced and recorded.
    pub proof fn lemma_wf(&self)
        requires
            self.wf(),
        ensures
            self.emitted() == self.expected_output(),
            self.spec_toc().wf(),
            self.spec_toc()@ == layout(self.sections()),
            self.sections().len() <= usize::MAX,
            data_area(self.sections()).len() + self.open_data().len() <= u64::MAX,
            forall|i: int|
                0 <= i < self.sections().len() ==> (#[trigger] self.sections()[i]).data.len() > 0,
            forall|i: int|
                0 <= i < self.sections().len() ==> (#[trigger] self.sections()[i]).name.len()
                    <= usize::MAX,
            self.spec_state() != WriterState::SectionOpen ==> self.open_data().len() == 0,
            self.spec_state() == WriterState::Empty ==> self.sections().len() == 0,
    {
        lemma_layout(self.sections@);
        assert forall|i: int| 0 <= i < self.sections().len() implies (
        #[trigger] self.sections()[i]).name.len() <= usize::MAX by {
            self.toc.lemma_names_fit(i);
        }
        self.toc.lemma_len_fits();
    }

    /// Round trip: what a finished writer has produced decodes to its table
    /// of contents, which names the recorded sections in their order, and
    /// under each entry the output holds the bytes written to that section.
    pub proof fn lemma_round_trip(&self)
        requires
            self.wf(),
            self.spec_state() == WriterState::Finalized,
        ensures
            decode_archive(self.emitted()) == Ok::<Seq<EntryView>, Error>(self.spec_toc()@),
            self.spec_toc()@.len() == self.sections().len(),
            forall|i: int|
                0 <= i < self.sections().len() ==> (#[trigger] self.spec_toc()@[i]).name
                    == self.sections()[i].name,
            forall|i: int|
                0 <= i < self.sections().len() ==> section_bytes(
                    self.emitted(),
                    #[trigger] self.spec_toc()@[i],
                ) == self.sections()[i].data,
    {
        self.lemma_wf();
        lemma_round_trip(self.sections());
    }

    /// A writer that has produced nothing.
    pub fn new() -> (writer: Writer)
        ensures
            writer.wf(),
            writer.spec_state() == WriterState::Empty,
            writer.sections() == Seq::<Section>::empty(),
            writer.open_data() == Seq::<u8>::empty(),
            writer.taken() == Seq::<u8>::empty(),
            writer.pending() == Seq::<u8>::empty(),
    {
        Writer {
            state: WriterState::Empty,
            out: Vec::new(),
            pos: 0,
            section_name: Vec::new(),
            section_start: 0,
            toc: Toc::default(),
            sections: Ghost(Seq::empty()),
            current: Ghost(Seq::empty()),
            taken: Ghost(Seq::empty()),
        }
    }

    /// Where the writer stands.
    #[verifier::when_used_as_spec(spec_state)]
    pub fn state(&self) -> (state: WriterState)
        ensures
            state == self.spec_state(),
    {
        self.state
    }

    /// The number of bytes of section data written so far.
    pub fn position(&self) -> (pos: u64)
        requires
            self.wf(),
        ensures
            pos == data_area(self.sections()).len() + self.open_data().len(),
    {
        self.pos
    }

    /// The entries recorded so far; the open section is not among them.
    pub fn toc(&self) -> (toc: &Toc)
        ensures
            *toc == self.spec_toc(),
    {
        &self.toc
    }

    /// Closes the open section, if there is one: with at least one byte it is
    /// recorded, with none it leaves no trace.
    fn close_section(&mut self)
        requires
            old(self).wf(),
            old(self).state != WriterState::Finalized,
        ensures
            final(self).wf(),
            final(self).state == old(self).state,
            final(self).sections@ == old(self).sections_closed(),
            final(self).current@ == Seq::<u8>::empty(),
            final(self).taken@ == old(self).taken@,
            final(self).out@ == old(self).out@,
            final(self).section_start == final(self).pos,
    {
        if self.pos > self.section_start {
            let ghost section = Section { name: self.section_name@, data: self.current@ };
            let mut name: Vec<u8> = Vec::new();
            core::mem::swap(&mut self.section_name, &mut name);
            let entry = TocEntry::new(name, self.section_start, self.pos - self.section_start);
            self.toc.push(entry);
            proof {
                lemma_layout_push(self.sections@, section);
                lemma_data_area_push(self.sections@, section);
            }
            self.sections = Ghost(self.sections@.push(section));
            self.current = Ghost(Seq::empty());
            self.section_start = self.pos;
        } else {
            proof {
                assert(self.current@ =~= Seq::<u8>::empty());
            }
            self.current = Ghost(Seq::empty());
        }
    }

    /// Starts the section `name`.
    ///
    /// The section that was open is closed first: it is recorded if bytes
    /// were written to it, and dropped if none were. Fails, and changes
    /// nothing, once the archive is finished.
    pub fn start(&mut self, name: &[u8]) -> (r: Result<(), Error>)
        requires
            old(self).wf(),
        ensures
            final(self).wf(),
            match r {
                Ok(_) => {
                    &&& old(self).spec_state() != WriterState::Finalized
                    &&& final(self).spec_state() == WriterState::SectionOpen
                    &&& final(self).sections() == old(self).sections_closed()
                    &&& final(self).open_name() == name@
                    &&& final(self).open_data() == Seq::<u8>::empty()
                    &&& final(self).taken() == old(self).taken()
                    &&& final(self).pending() == old(self).pending()
                },
                Err(e) => {
                    &&& old(self).spec_state() == WriterState::Finalized
                    &&& e == Error::AlreadyFinished
                    &&& *final(self) == *old(self)
                },
            },
    {
        match self.state {
            WriterState::Finalized => {
                return Err(Error::AlreadyFinished);
            },
            _ => {},
        }
        self.close_section();
        self.section_name = slice_to_vec(name);
        self.state = WriterState::SectionOpen;
        Ok(())
    }

    /// Appends `data` to the open section.
    ///
    /// Fails, and changes nothing, where no section is open, where the
    /// archive is finished, and where the data area would grow beyond the
    /// largest offset that the format records.
    pub fn write(&mut self, data: &[u8]) -> (r: Result<(), Error>)
        requires
            old(self).wf(),
        ensures
            final(self).wf(),
            match r {
                Ok(_) => {
                    &&& old(self).spec_state() == WriterState::SectionOpen
                    &&& final(self).spec_state() == WriterState::SectionOpen
                    &&& final(self).sections() == old(self).sections()
                    &&& final(self).open_name() == old(self).open_name()
                    &&& final(self).open_data() == old(self).open_data() + data@
                    &&& final(self).taken() == old(self).taken()
                    &&& final(self).pending() == old(self).pending() + data@
                },
                Err(e) => {
                    &&& *final(self) == *old(self)
                    &&& e == old(self).write_failure(data@).unwrap()
                },
            },
            r is Err <==> old(self).write_failure(data@) is Some,
    {
        match self.state {
            WriterState::Empty => {
                return Err(Error::NoOpenSection);
            },
            WriterState::Finalized => {
                return Err(Error::AlreadyFinished);
            },
            WriterState::SectionOpen => {},
        }
        let n: usize = data.len();
        if n as u64 > u64::MAX - self.pos {
            return Err(Error::OffsetOverflow);
        }
        append_bytes(&mut self.out, data);
        self.pos = self.pos + n as u64;
        proof {
            assert(self.taken@ + self.out@ =~= (old(self).taken@ + old(self).out@) + data@);
            assert(data_area(self.sections@) + (self.current@ + data@) =~= (data_area(
                self.sections@,
            ) + self.current@) + data@);
        }
        self.current = Ghost(self.current@ + data@);
        Ok(())
    }

    /// Why writing `data` fails, if it does.
    pub open spec fn write_failure(&self, data: Seq<u8>) -> Option<Error> {
        match self.spec_state() {
            WriterState::Empty => Some(Error::NoOpenSection),
            WriterState::Finalized => Some(Error::AlreadyFinished),
            WriterState::SectionOpen => if data_area(self.sections()).len() + self.open_data().len()
                + data.len() > u64::MAX {
                Some(Error::OffsetOverflow)
            } else {
                None
            },
        }
    }

    /// Finishes the archive: the open section is closed as by `start`, then
    /// the table of contents and the trailer are appended. Like every other
    /// operation this one only adds to the output and changes nothing of
    /// what was produced before.
    ///
    /// Fails, and changes nothing, where the archive is finished already.
    pub fn finish(&mut self) -> (r: Result<(), Error>)
        requires
            old(self).wf(),
        ensures
            final(self).wf(),
            match r {
                Ok(_) => {
                    &&& old(self).spec_state() != WriterState::Finalized
                    &&& final(self).spec_state() == WriterState::Finalized
                    &&& final(self).sections() == old(self).sections_closed()
                    &&& final(self).open_data() == Seq::<u8>::empty()
                    &&& final(self).spec_toc()@ == layout(final(self).sections())
                    &&& final(self).taken() == old(self).taken()
                    &&& final(self).pending() == old(self).pending() + encode_toc(
                        final(self).spec_toc()@,
                    ) + encode_trailer(
                        data_area(final(self).sections()).len() as u64,
                        final(self).sections().len() as u64,
                    )
                    &&& final(self).emitted() == archive_bytes(final(self).sections())
                },
                Err(e) => {
                    &&& old(self).spec_state() == WriterState::Finalized
                    &&& e == Error::AlreadyFinished
                    &&& *final(self) == *old(self)
                },
            },
    {
        match self.state {
            WriterState::Finalized => {
                return Err(Error::AlreadyFinished);
            },
            _ => {},
        }
        self.close_section();
        let trailer = Trailer { toc_pos: self.pos, entry_count: self.toc.len() as u64 };
        write_toc(&mut self.out, &self.toc);
        write_trailer(&mut self.out, trailer);
        self.state = WriterState::Finalized;
        proof {
            lemma_layout(self.sections@);
            assert(self.taken@ + self.out@ =~= archive_bytes(self.sections@));
        }
        Ok(())
    }

    /// Hands out what was produced since the last call, and keeps none of it.
    pub fn take_output(&mut self) -> (bytes: Vec<u8>)
        requires
            old(self).wf(),
        ensures
            final(self).wf(),
            bytes@ == old(self).pending(),
            final(self).taken() == old(self).taken() + old(self).pending(),
            final(self).pending() == Seq::<u8>::empty(),
            final(self).spec_state() == old(self).spec_state(),
            final(self).sections() == old(self).sections(),
            final(self).open_name() == old(self).open_name(),
            final(self).open_data() == old(self).open_data(),
            final(self).spec_toc() == old(self).spec_toc(),
    {
        let mut bytes: Vec<u8> = Vec::new();
        core::mem::swap(&mut self.out, &mut bytes);
        proof {
            assert((self.taken@ + bytes@) + self.out@ =~= old(self).taken@ + old(self).out@);
        }
        self.taken = Ghost(self.taken@ + bytes@);
        bytes
    }

    /// Ends the writer and hands out what was produced since the last call
    /// of `take_output`.
    pub fn into_output(self) -> (bytes: Vec<u8>)
        ensures
            bytes@ == self.pending(),
    {
        self.out
    }
}

} // verus!
