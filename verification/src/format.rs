//! The archive layout, byte for byte, and its encoder and decoder.
//!
//! An archive is three regions, one after another:
//!
//! | region  | bytes                                                        |
//! |---------|--------------------------------------------------------------|
//! | data    | the sections, concatenated, from offset 0                    |
//! | table   | one record per entry, in stored order                        |
//! | trailer | the last `TRAILER_LEN` bytes of the archive                  |
//!
//! A record is the name's length (8 bytes), the name, the section's
//! position (8 bytes) and its length (8 bytes). The trailer is the four
//! magic bytes `SFA!`, the format version (1 byte), the offset at which the
//! table begins (8 bytes) and the number of records (8 bytes). Every integer
//! is little-endian.

use vstd::prelude::*;
use vstd::bytes::{lemma_auto_spec_u64_to_from_le_bytes, spec_u64_from_le_bytes,
    spec_u64_to_le_bytes, u64_from_le_bytes, u64_to_le_bytes};
use vstd::slice::{slice_subrange, slice_to_vec};
use crate::entry::{views, EntryView, TocEntry};
use crate::error::Error;
use crate::toc::Toc;

verus! {

/// The size of the trailer in bytes.
pub const TRAILER_LEN: usize = 21;

/// The format version that this library writes and reads.
pub const FORMAT_VERSION: u8 = 1;

/// The size of a record whose name is empty.
pub const RECORD_FIXED_LEN: usize = 24;

/// The marker at the start of the trailer: `SFA!`.
pub open spec fn magic() -> Seq<u8> {
    seq![0x53u8, 0x46u8, 0x41u8, 0x21u8]
}

/// The record of one entry.
pub open spec fn encode_entry(entry: EntryView) -> Seq<u8> {
    spec_u64_to_le_bytes(entry.name.len() as u64) + entry.name + spec_u64_to_le_bytes(entry.pos)
        + spec_u64_to_le_bytes(entry.len)
}

/// The table area: the records of `entries`, in order.
pub open spec fn encode_toc(entries: Seq<EntryView>) -> Seq<u8>
    decreases entries.len(),
{
    if entries.len() == 0 {
        Seq::empty()
    } else {
        encode_toc(entries.drop_last()) + encode_entry(entries.last())
    }
}

/// The trailer of an archive whose table begins at `toc_pos` and holds `count` records.
pub open spec fn encode_trailer(toc_pos: u64, count: u64) -> Seq<u8> {
    magic() + seq![FORMAT_VERSION] + spec_u64_to_le_bytes(toc_pos) + spec_u64_to_le_bytes(count)
}

/// Every name is short enough for its length to be recorded.
pub open spec fn encodable(entries: Seq<EntryView>) -> bool {
    forall|i: int| 0 <= i < entries.len() ==> (#[trigger] entries[i]).name.len() <= u64::MAX
}

/// Every entry lies within the first `data_len` bytes.
pub open spec fn in_bounds(entries: Seq<EntryView>, data_len: int) -> bool {
    forall|i: int|
        0 <= i < entries.len() ==> (#[trigger] entries[i]).pos + entries[i].len <= data_len
}

/// The record at the start of `bytes` and its size, if `bytes` begins with a whole record.
pub open spec fn decode_entry(bytes: Seq<u8>) -> Option<(EntryView, int)> {
    if bytes.len() < 8 {
        None
    } else {
        let n = spec_u64_from_le_bytes(bytes.subrange(0, 8)) as int;
        if bytes.len() < RECORD_FIXED_LEN + n {
            None
        } else {
            Some(
                (
                    EntryView {
                        name: bytes.subrange(8, 8 + n),
                        pos: spec_u64_from_le_bytes(bytes.subrange(8 + n, 16 + n)),
                        len: spec_u64_from_le_bytes(bytes.subrange(16 + n, 24 + n)),
                    },
                    RECORD_FIXED_LEN + n,
                ),
            )
        }
    }
}

/// The entries that `bytes` records, if `bytes` is exactly `count` records.
pub open spec fn decode_toc(bytes: Seq<u8>, count: nat) -> Option<Seq<EntryView>>
    decreases count,
{
    if count == 0 {
        if bytes.len() == 0 {
            Some(Seq::empty())
        } else {
            None
        }
    } else {
        match decode_entry(bytes) {
            None => None,
            Some((entry, size)) => match decode_toc(bytes.skip(size), (count - 1) as nat) {
                None => None,
                Some(rest) => Some(seq![entry] + rest),
            },
        }
    }
}

/// What a trailer says: where the table begins and how many records it holds.
#[derive(Clone, Copy, Debug, PartialEq, Eq, Structural)]
pub struct Trailer {
    pub toc_pos: u64,
    pub entry_count: u64,
}

/// The content of a trailer, or why `bytes` is none.
pub open spec fn decode_trailer(bytes: Seq<u8>) -> Result<Trailer, Error> {
    if bytes.len() != TRAILER_LEN {
        Err(Error::TruncatedTrailer)
    } else if bytes.subrange(0, 4) != magic() {
        Err(Error::BadMagic)
    } else if bytes[4] != FORMAT_VERSION {
        Err(Error::UnsupportedVersion)
    } else {
        Ok(
            Trailer {
                toc_pos: spec_u64_from_le_bytes(bytes.subrange(5, 13)),
                entry_count: spec_u64_from_le_bytes(bytes.subrange(13, 21)),
            },
        )
    }
}

/// The table of contents of the archive `bytes`, or why `bytes` is no archive.
///
/// The checks come in this order: the trailer's presence, its magic marker,
/// its version, the table's offset, the table's records, the entries' ranges.
pub open spec fn decode_archive(bytes: Seq<u8>) -> Result<Seq<EntryView>, Error> {
    if bytes.len() < TRAILER_LEN {
        Err(Error::TruncatedTrailer)
    } else {
        let data_and_toc = bytes.len() - TRAILER_LEN;
        match decode_trailer(bytes.skip(data_and_toc)) {
            Err(e) => Err(e),
            Ok(trailer) => if trailer.toc_pos > data_and_toc {
                Err(Error::TocOutOfBounds)
            } else {
                match decode_toc(
                    bytes.subrange(trailer.toc_pos as int, data_and_toc),
                    trailer.entry_count as nat,
                ) {
                    None => Err(Error::MalformedToc),
                    Some(entries) => if in_bounds(entries, trailer.toc_pos as int) {
                        Ok(entries)
                    } else {
                        Err(Error::EntryOutOfBounds)
                    },
                }
            },
        }
    }
}

/// `bytes` is an archive: `data`, then the table of `entries`, then the trailer.
pub open spec fn is_archive_of(bytes: Seq<u8>, data: Seq<u8>, entries: Seq<EntryView>) -> bool {
    &&& data.len() <= u64::MAX
    &&& entries.len() <= u64::MAX
    &&& encodable(entries)
    &&& in_bounds(entries, data.len() as int)
    &&& bytes == data + encode_toc(entries) + encode_trailer(
        data.len() as u64,
        entries.len() as u64,
    )
}

/// A record is 24 bytes longer than its name.
pub proof fn lemma_encode_entry_len(entry: EntryView)
    ensures
        encode_entry(entry).len() == RECORD_FIXED_LEN + entry.name.len(),
{
    lemma_auto_spec_u64_to_from_le_bytes();
}

/// The table of one more entry is the table so far and the new record.
pub proof fn lemma_encode_toc_push(entries: Seq<EntryView>, entry: EntryView)
    ensures
        encode_toc(entries.push(entry)) == encode_toc(entries) + encode_entry(entry),
{
    assert(entries.push(entry).drop_last() =~= entries);
}

/// The table begins with the record of its first entry.
pub proof fn lemma_encode_toc_cons(entry: EntryView, rest: Seq<EntryView>)
    ensures
        encode_toc(seq![entry] + rest) == encode_entry(entry) + encode_toc(rest),
    decreases rest.len(),
{
    if rest.len() == 0 {
        lemma_encode_toc_push(Seq::<EntryView>::empty(), entry);
    } else {
        lemma_encode_toc_cons(entry, rest.drop_last());
        assert((seq![entry] + rest).drop_last() =~= seq![entry] + rest.drop_last());
    }
}

/// A record that is followed by anything decodes to its entry.
pub proof fn lemma_decode_entry_of_encoded(entry: EntryView, tail: Seq<u8>)
    requires
        entry.name.len() <= u64::MAX,
    ensures
        decode_entry(encode_entry(entry) + tail) == Some(
            (entry, RECORD_FIXED_LEN + entry.name.len()),
        ),
{
    lemma_auto_spec_u64_to_from_le_bytes();
    let n = entry.name.len() as int;
    let b = encode_entry(entry) + tail;
    assert(b.subrange(0, 8) =~= spec_u64_to_le_bytes(entry.name.len() as u64));
    assert(b.subrange(8, 8 + n) =~= entry.name);
    assert(b.subrange(8 + n, 16 + n) =~= spec_u64_to_le_bytes(entry.pos));
    assert(b.subrange(16 + n, 24 + n) =~= spec_u64_to_le_bytes(entry.len));
}

/// What decodes to an entry begins with that entry's record.
pub proof fn lemma_encode_entry_of_decoded(bytes: Seq<u8>)
    requires
        decode_entry(bytes) is Some,
    ensures
        ({
            let (entry, size) = decode_entry(bytes).unwrap();
            &&& RECORD_FIXED_LEN <= size <= bytes.len()
            &&& size == RECORD_FIXED_LEN + entry.name.len()
            &&& entry.name.len() <= u64::MAX
            &&& bytes.take(size) == encode_entry(entry)
        }),
{
    lemma_auto_spec_u64_to_from_le_bytes();
}

/// The table of encodable entries decodes to them.
pub proof fn lemma_decode_toc_of_encoded(entries: Seq<EntryView>)
    requires
        encodable(entries),
    ensures
        decode_toc(encode_toc(entries), entries.len()) == Some(entries),
    decreases entries.len(),
{
    if entries.len() == 0 {
        assert(entries =~= Seq::<EntryView>::empty());
    } else {
        let first = entries[0];
        let rest = entries.drop_first();
        assert(entries =~= seq![first] + rest);
        lemma_encode_toc_cons(first, rest);
        lemma_decode_entry_of_encoded(first, encode_toc(rest));
        lemma_encode_entry_len(first);
        assert((encode_entry(first) + encode_toc(rest)).skip(
            RECORD_FIXED_LEN + first.name.len() as int,
        ) =~= encode_toc(rest));
        assert forall|i: int| 0 <= i < rest.len() implies (#[trigger] rest[i]).name.len()
            <= u64::MAX by {
            assert(rest[i] == entries[i + 1]);
        }
        lemma_decode_toc_of_encoded(rest);
    }
}

/// What decodes to entries is their table, and the entries are encodable.
pub proof fn lemma_encode_toc_of_decoded(bytes: Seq<u8>, count: nat)
    requires
        decode_toc(bytes, count) is Some,
    ensures
        ({
            let entries = decode_toc(bytes, count).unwrap();
            &&& entries.len() == count
            &&& encodable(entries)
            &&& bytes == encode_toc(entries)
            &&& bytes.len() >= RECORD_FIXED_LEN * count
        }),
    decreases count,
{
    if count == 0 {
        assert(bytes =~= Seq::<u8>::empty());
    } else {
        let (entry, size) = decode_entry(bytes).unwrap();
        lemma_encode_entry_of_decoded(bytes);
        let rest = decode_toc(bytes.skip(size), (count - 1) as nat).unwrap();
        lemma_encode_toc_of_decoded(bytes.skip(size), (count - 1) as nat);
        lemma_encode_toc_cons(entry, rest);
        let entries = seq![entry] + rest;
        assert forall|i: int| 0 <= i < entries.len() implies (#[trigger] entries[i]).name.len()
            <= u64::MAX by {
            if i > 0 {
                assert(entries[i] == rest[i - 1]);
            }
        }
    }
}

/// The trailer that was encoded decodes to what it was made from.
pub proof fn lemma_decode_trailer_of_encoded(toc_pos: u64, count: u64)
    ensures
        encode_trailer(toc_pos, count).len() == TRAILER_LEN,
        decode_trailer(encode_trailer(toc_pos, count)) == Ok::<Trailer, Error>(
            Trailer { toc_pos, entry_count: count },
        ),
{
    lemma_auto_spec_u64_to_from_le_bytes();
    let t = encode_trailer(toc_pos, count);
    assert(t.subrange(0, 4) =~= magic());
    assert(t.subrange(5, 13) =~= spec_u64_to_le_bytes(toc_pos));
    assert(t.subrange(13, 21) =~= spec_u64_to_le_bytes(count));
}

/// What decodes to a trailer is that trailer's encoding.
pub proof fn lemma_encode_trailer_of_decoded(bytes: Seq<u8>)
    requires
        decode_trailer(bytes) is Ok,
    ensures
        ({
            let trailer = decode_trailer(bytes).unwrap();
            bytes == encode_trailer(trailer.toc_pos, trailer.entry_count)
        }),
{
    lemma_auto_spec_u64_to_from_le_bytes();
}

/// Appends `data` to `out`.
pub fn append_bytes(out: &mut Vec<u8>, data: &[u8])
    ensures
        final(out)@ == old(out)@ + data@,
{
    out.extend_from_slice(data);
}

/// Appends `value` to `out` as eight little-endian bytes.
pub fn put_u64(out: &mut Vec<u8>, value: u64)
    ensures
        final(out)@ == old(out)@ + spec_u64_to_le_bytes(value),
{
    let mut bytes = u64_to_le_bytes(value);
    out.append(&mut bytes);
}

/// The integer that the eight bytes at `at` hold.
fn get_u64(bytes: &[u8], at: usize) -> (value: u64)
    requires
        at + 8 <= bytes.len(),
    ensures
        value == spec_u64_from_le_bytes(bytes@.subrange(at as int, at + 8)),
{
    u64_from_le_bytes(slice_subrange(bytes, at, at + 8))
}

/// Appends the record of `entry` to `out`.
pub fn write_entry(out: &mut Vec<u8>, entry: &TocEntry)
    ensures
        final(out)@ == old(out)@ + encode_entry(entry@),
{
    let name = entry.name();
    put_u64(out, name.len() as u64);
    append_bytes(out, name);
    put_u64(out, entry.pos());
    put_u64(out, entry.len());
}

/// Appends the records of all entries of `toc` to `out`, in stored order.
pub fn write_toc(out: &mut Vec<u8>, toc: &Toc)
    ensures
        final(out)@ == old(out)@ + encode_toc(toc@),
{
    let entries = toc.as_slice();
    let mut i: usize = 0;
    while i < entries.len()
        invariant
            i <= entries@.len(),
            views(entries@) == toc@,
            out@ == old(out)@ + encode_toc(toc@.take(i as int)),
        decreases entries@.len() - i,
    {
        write_entry(out, &entries[i]);
        proof {
            assert(toc@.take(i + 1) =~= toc@.take(i as int).push(toc@[i as int]));
            lemma_encode_toc_push(toc@.take(i as int), toc@[i as int]);
        }
        i = i + 1;
    }
    assert(toc@.take(toc@.len() as int) =~= toc@);
}

/// Appends the trailer to `out`.
pub fn write_trailer(out: &mut Vec<u8>, trailer: Trailer)
    ensures
        final(out)@ == old(out)@ + encode_trailer(trailer.toc_pos, trailer.entry_count),
{
    out.push(0x53u8);
    out.push(0x46u8);
    out.push(0x41u8);
    out.push(0x21u8);
    out.push(FORMAT_VERSION);
    put_u64(out, trailer.toc_pos);
    put_u64(out, trailer.entry_count);
}

/// Reads a trailer.
///
/// `bytes` are the last `TRAILER_LEN` bytes of an archive.
pub fn parse_trailer(bytes: &[u8]) -> (r: Result<Trailer, Error>)
    ensures
        r == decode_trailer(bytes@),
{
    if bytes.len() != TRAILER_LEN {
        return Err(Error::TruncatedTrailer);
    }
    if bytes[0] != 0x53u8 || bytes[1] != 0x46u8 || bytes[2] != 0x41u8 || bytes[3] != 0x21u8 {
        return Err(Error::BadMagic);
    }
    assert(bytes@.subrange(0, 4) =~= magic());
    if bytes[4] != FORMAT_VERSION {
        return Err(Error::UnsupportedVersion);
    }
    let toc_pos = get_u64(bytes, 5);
    let entry_count = get_u64(bytes, 13);
    Ok(Trailer { toc_pos, entry_count })
}

/// The record that begins at offset `at` of `bytes` and its size, if a whole
/// record begins there.
pub open spec fn decode_entry_at(bytes: Seq<u8>, at: int) -> Option<(EntryView, int)> {
    if 0 <= at <= bytes.len() {
        decode_entry(bytes.skip(at))
    } else {
        None
    }
}

/// Reads the record that begins at `at`, and says where the next one begins.
pub fn parse_entry(bytes: &[u8], at: usize) -> (r: Option<(TocEntry, usize)>)
    ensures
        match r {
            Some((entry, next)) => at < next <= bytes@.len() && decode_entry_at(
                bytes@,
                at as int,
            ) == Some((entry@, next - at)),
            None => decode_entry_at(bytes@, at as int) is None,
        },
{
    if at > bytes.len() {
        return None;
    }
    let ghost rest = bytes@.skip(at as int);
    let room: usize = bytes.len() - at;
    if room < 8 {
        return None;
    }
    let name_len = get_u64(bytes, at);
    assert(rest.subrange(0, 8) =~= bytes@.subrange(at as int, at + 8));
    if room < RECORD_FIXED_LEN || name_len > (room - RECORD_FIXED_LEN) as u64 {
        return None;
    }
    let n: usize = name_len as usize;
    let name = slice_to_vec(slice_subrange(bytes, at + 8, at + 8 + n));
    let pos = get_u64(bytes, at + 8 + n);
    let len = get_u64(bytes, at + 16 + n);
    proof {
        assert(rest.subrange(8, 8 + n) =~= bytes@.subrange(at + 8, at + 8 + n));
        assert(rest.subrange(8 + n, 16 + n) =~= bytes@.subrange(at + 8 + n, at + 16 + n));
        assert(rest.subrange(16 + n, 24 + n) =~= bytes@.subrange(at + 16 + n, at + 24 + n));
    }
    Some((TocEntry::new(name, pos, len), at + RECORD_FIXED_LEN + n))
}

/// Reads a table area that holds `count` records and nothing else.
pub fn parse_toc(bytes: &[u8], count: u64) -> (r: Option<Toc>)
    ensures
        match r {
            Some(toc) => toc.wf() && decode_toc(bytes@, count as nat) == Some(toc@),
            None => decode_toc(bytes@, count as nat) is None,
        },
{
    if count > (bytes.len() / RECORD_FIXED_LEN) as u64 {
        proof {
            if decode_toc(bytes@, count as nat) is Some {
                lemma_encode_toc_of_decoded(bytes@, count as nat);
            }
        }
        return None;
    }
    let mut toc = Toc::with_capacity(count as usize);
    let mut at: usize = 0;
    let mut i: u64 = 0;
    proof {
        assert(bytes@.skip(0) =~= bytes@);
    }
    while i < count
        invariant
            at <= bytes@.len(),
            i <= count,
            toc.wf(),
            toc@.len() == i,
            decode_toc(bytes@, count as nat) == match decode_toc(
                bytes@.skip(at as int),
                (count - i) as nat,
            ) {
                Some(rest) => Some(toc@ + rest),
                None => None,
            },
        decreases count - i,
    {
        let ghost before = toc@;
        match parse_entry(bytes, at) {
            None => {
                return None;
            },
            Some((entry, next)) => {
                proof {
                    assert(bytes@.skip(at as int).skip(next - at) =~= bytes@.skip(next as int));
                    assert forall|rest: Seq<EntryView>| #[trigger]
                        (before + (seq![entry@] + rest)) == before.push(entry@) + rest by {
                        assert(before + (seq![entry@] + rest) =~= before.push(entry@) + rest);
                    }
                }
                toc.push(entry);
                at = next;
                i = i + 1;
            },
        }
    }
    if at != bytes.len() {
        return None;
    }
    proof {
        assert(bytes@.skip(at as int) =~= Seq::<u8>::empty());
    }
    Some(toc)
}


} // verus!
