//! The archive as a whole: what a sequence of sections is written as, and
//! that reading gives the sections back.

use vstd::prelude::*;
use crate::entry::EntryView;
use crate::error::{Error, ErrorKind};
use crate::format::{decode_archive, decode_trailer, encode_toc, encode_trailer, in_bounds,
    is_archive_of, lemma_decode_toc_of_encoded, lemma_decode_trailer_of_encoded,
    lemma_encode_toc_of_decoded, lemma_encode_trailer_of_decoded, TRAILER_LEN};
use crate::section::section_bytes;

verus! {

/// A section as the writer is given it: a name and the bytes written under it.
pub struct Section {
    pub name: Seq<u8>,
    pub data: Seq<u8>,
}

/// The data area of an archive of `sections`: their bytes, one after another.
pub open spec fn data_area(sections: Seq<Section>) -> Seq<u8>
    decreases sections.len(),
{
    if sections.len() == 0 {
        Seq::empty()
    } else {
        data_area(sections.drop_last()) + sections.last().data
    }
}

/// The table of contents of an archive of `sections`: each section under its
/// name, at the offset where the sections before it end.
pub open spec fn layout(sections: Seq<Section>) -> Seq<EntryView>
    decreases sections.len(),
{
    if sections.len() == 0 {
        Seq::empty()
    } else {
        layout(sections.drop_last()).push(
            EntryView {
                name: sections.last().name,
                pos: data_area(sections.drop_last()).len() as u64,
                len: sections.last().data.len() as u64,
            },
        )
    }
}

/// The archive of `sections`: data area, table, trailer.
pub open spec fn archive_bytes(sections: Seq<Section>) -> Seq<u8> {
    data_area(sections) + encode_toc(layout(sections)) + encode_trailer(
        data_area(sections).len() as u64,
        sections.len() as u64,
    )
}

/// The sections can be recorded: the names, the data area and the number of
/// sections are within what 64 bits can count.
pub open spec fn recordable(sections: Seq<Section>) -> bool {
    &&& sections.len() <= u64::MAX
    &&& data_area(sections).len() <= u64::MAX
    &&& forall|i: int| 0 <= i < sections.len() ==> (#[trigger] sections[i]).name.len() <= u64::MAX
}

/// One more section adds its bytes to the end of the data area.
pub proof fn lemma_data_area_push(sections: Seq<Section>, section: Section)
    ensures
        data_area(sections.push(section)) == data_area(sections) + section.data,
{
    assert(sections.push(section).drop_last() =~= sections);
}

/// One more section adds one entry, which begins where the data area ended.
pub proof fn lemma_layout_push(sections: Seq<Section>, section: Section)
    ensures
        layout(sections.push(section)) == layout(sections).push(
            EntryView {
                name: section.name,
                pos: data_area(sections).len() as u64,
                len: section.data.len() as u64,
            },
        ),
{
    assert(sections.push(section).drop_last() =~= sections);
}

/// The table has one entry for each section, under the section's name, and
/// the data area holds the section's bytes where the entry says.
pub proof fn lemma_layout(sections: Seq<Section>)
    requires
        data_area(sections).len() <= u64::MAX,
    ensures
        layout(sections).len() == sections.len(),
        in_bounds(layout(sections), data_area(sections).len() as int),
        forall|i: int|
            0 <= i < sections.len() ==> {
                let entry = #[trigger] layout(sections)[i];
                &&& entry.name == sections[i].name
                &&& entry.len == sections[i].data.len()
                &&& entry.pos + entry.len <= data_area(sections).len()
                &&& data_area(sections).subrange(entry.pos as int, entry.pos + entry.len)
                    == sections[i].data
            },
    decreases sections.len(),
{
    if sections.len() > 0 {
        let init = sections.drop_last();
        let last = sections.last();
        lemma_layout(init);
        assert forall|i: int| 0 <= i < sections.len() implies {
            let entry = #[trigger] layout(sections)[i];
            &&& entry.name == sections[i].name
            &&& entry.len == sections[i].data.len()
            &&& entry.pos + entry.len <= data_area(sections).len()
            &&& data_area(sections).subrange(entry.pos as int, entry.pos + entry.len)
                == sections[i].data
        } by {
            let entry = layout(sections)[i];
            if i < init.len() {
                assert(entry == layout(init)[i]);
            } else {
                assert(data_area(sections).subrange(entry.pos as int, entry.pos + entry.len)
                    =~= last.data);
            }
        }
    }
}

/// The entries of the table lie one behind the other, in the order of the
/// sections: no two of them share a byte.
pub proof fn lemma_layout_in_order(sections: Seq<Section>, i: int, j: int)
    requires
        data_area(sections).len() <= u64::MAX,
        0 <= i < j < sections.len(),
    ensures
        layout(sections)[i].pos + layout(sections)[i].len <= layout(sections)[j].pos,
    decreases sections.len(),
{
    let init = sections.drop_last();
    lemma_layout(init);
    if j < init.len() {
        lemma_layout_in_order(init, i, j);
    } else {
        assert(layout(sections)[i] == layout(init)[i]);
    }
}

/// Where only empty sections were written: the archive of no sections is a
/// trailer and nothing else, and its table of contents is empty.
pub proof fn lemma_empty_archive()
    ensures
        archive_bytes(Seq::<Section>::empty()) == encode_trailer(0, 0),
        decode_archive(archive_bytes(Seq::<Section>::empty())) == Ok::<Seq<EntryView>, Error>(
            Seq::<EntryView>::empty(),
        ),
{
    let none = Seq::<Section>::empty();
    lemma_round_trip(none);
}

/// Round trip: the archive of any recordable sections decodes to a table
/// with exactly their names in their order, and under each entry the archive
/// holds exactly the bytes of that section.
pub proof fn lemma_round_trip(sections: Seq<Section>)
    requires
        recordable(sections),
    ensures
        decode_archive(archive_bytes(sections)) == Ok::<Seq<EntryView>, Error>(layout(sections)),
        layout(sections).len() == sections.len(),
        forall|i: int|
            0 <= i < sections.len() ==> (#[trigger] layout(sections)[i]).name == sections[i].name,
        forall|i: int|
            0 <= i < sections.len() ==> section_bytes(
                archive_bytes(sections),
                #[trigger] layout(sections)[i],
            ) == sections[i].data,
{
    let data = data_area(sections);
    let entries = layout(sections);
    let bytes = archive_bytes(sections);
    lemma_layout(sections);
    lemma_archive_decodes(bytes, data, entries);
    assert forall|i: int| 0 <= i < sections.len() implies section_bytes(
        bytes,
        #[trigger] layout(sections)[i],
    ) == sections[i].data by {
        let entry = layout(sections)[i];
        assert(data.subrange(entry.pos as int, entry.pos + entry.len) == sections[i].data);
    }
}

/// Whatever is a data area, the table of entries within it and the trailer
/// for both, decodes to those entries.
pub proof fn lemma_archive_decodes(bytes: Seq<u8>, data: Seq<u8>, entries: Seq<EntryView>)
    requires
        is_archive_of(bytes, data, entries),
    ensures
        decode_archive(bytes) == Ok::<Seq<EntryView>, Error>(entries),
{
    let table = encode_toc(entries);
    let trailer = encode_trailer(data.len() as u64, entries.len() as u64);
    lemma_decode_trailer_of_encoded(data.len() as u64, entries.len() as u64);
    lemma_decode_toc_of_encoded(entries);
    let table_end = bytes.len() - TRAILER_LEN;
    assert(bytes.skip(table_end) =~= trailer);
    assert(bytes.subrange(data.len() as int, table_end) =~= table);
}

/// Whatever decodes to entries is a data area with those entries within it,
/// their table and the trailer for both.
pub proof fn lemma_decoded_is_archive(bytes: Seq<u8>)
    requires
        decode_archive(bytes) is Ok,
    ensures
        ({
            let entries = decode_archive(bytes).unwrap();
            let tail = encode_toc(entries).len() + TRAILER_LEN;
            &&& tail <= bytes.len()
            &&& is_archive_of(bytes, bytes.take(bytes.len() - tail), entries)
        }),
{
    let entries = decode_archive(bytes).unwrap();
    let table_end = bytes.len() - TRAILER_LEN;
    let trailer = decode_trailer(bytes.skip(table_end)).unwrap();
    let table = bytes.subrange(trailer.toc_pos as int, table_end);
    lemma_encode_trailer_of_decoded(bytes.skip(table_end));
    lemma_encode_toc_of_decoded(table, trailer.entry_count as nat);
    let data = bytes.take(trailer.toc_pos as int);
    assert(bytes =~= data + table + bytes.skip(table_end));
}

/// No two distinct tables are read from one archive: what decodes, decodes
/// to the entries it was made of.
pub proof fn lemma_archive_unique(
    bytes: Seq<u8>,
    data1: Seq<u8>,
    entries1: Seq<EntryView>,
    data2: Seq<u8>,
    entries2: Seq<EntryView>,
)
    requires
        is_archive_of(bytes, data1, entries1),
        is_archive_of(bytes, data2, entries2),
    ensures
        entries1 == entries2,
        data1 == data2,
{
    lemma_archive_decodes(bytes, data1, entries1);
    lemma_archive_decodes(bytes, data2, entries2);
    lemma_decode_trailer_of_encoded(data1.len() as u64, entries1.len() as u64);
    lemma_decode_trailer_of_encoded(data2.len() as u64, entries2.len() as u64);
    assert(data1 =~= bytes.take(data1.len() as int));
}

/// Corrupt input is refused: bytes that are no data area followed by the
/// table of entries within it and by the matching trailer do not decode, and
/// the failure is one of format.
pub proof fn lemma_non_archive_refused(bytes: Seq<u8>)
    requires
        forall|data: Seq<u8>, entries: Seq<EntryView>| !is_archive_of(bytes, data, entries),
    ensures
        decode_archive(bytes) is Err,
        decode_archive(bytes)->Err_0.spec_kind() == ErrorKind::Format,
{
    if decode_archive(bytes) is Ok {
        lemma_decoded_is_archive(bytes);
    }
}

/// Every failure to decode is a failure of format.
pub proof fn lemma_decode_failures_are_format(bytes: Seq<u8>)
    ensures
        decode_archive(bytes) matches Err(e) ==> e.spec_kind() == ErrorKind::Format,
{
}

} // verus!
