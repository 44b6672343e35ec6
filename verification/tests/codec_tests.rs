use sfa::format::{parse_entry, parse_toc, parse_trailer, write_entry, write_toc, write_trailer,
    Trailer, FORMAT_VERSION, RECORD_FIXED_LEN, TRAILER_LEN};
use sfa::reader::trailer_pos;
use sfa::{Error, ErrorKind, Reader, SectionReader, Toc, TocEntry, Writer, WriterState};

fn archive_of(sections: &[(&[u8], &[u8])]) -> Vec<u8> {
    let mut writer = Writer::new();
    for (name, data) in sections {
        writer.start(name).unwrap();
        writer.write(data).unwrap();
    }
    writer.finish().unwrap();
    writer.into_output()
}

fn abc_archive() -> Vec<u8> {
    archive_of(&[(b"a", b"1"), (b"b", b"22"), (b"c", b"333")])
}

fn le(x: u64) -> [u8; 8] {
    x.to_le_bytes()
}

#[test]
fn the_layout_is_fixed_byte_for_byte() {
    let mut expected: Vec<u8> = Vec::new();
    expected.extend_from_slice(b"122333");
    for (name, pos, len) in [(b"a", 0u64, 1u64), (b"b", 1, 2), (b"c", 3, 3)] {
        expected.extend_from_slice(&le(1));
        expected.extend_from_slice(name);
        expected.extend_from_slice(&le(pos));
        expected.extend_from_slice(&le(len));
    }
    expected.extend_from_slice(b"SFA!");
    expected.push(1);
    expected.extend_from_slice(&le(6));
    expected.extend_from_slice(&le(3));
    assert_eq!(abc_archive(), expected);
    assert_eq!(TRAILER_LEN, 21);
    assert_eq!(RECORD_FIXED_LEN, 24);
    assert_eq!(FORMAT_VERSION, 1);
}

#[test]
fn concrete_scenario_three_sections() {
    let archive = abc_archive();
    let reader = Reader::open(&archive).unwrap();
    let toc = reader.toc();
    assert_eq!(toc.len(), 3);
    assert_eq!(toc[0].name(), b"a");
    assert_eq!(toc[1].name(), b"b");
    assert_eq!(toc[2].name(), b"c");
    let b = toc.section(b"b").unwrap();
    assert_eq!((b.pos(), b.len()), (1, 2));
    assert_eq!(b.read_from(&archive), b"22");
    assert_eq!(&archive[b.pos() as usize..(b.pos() + b.len()) as usize], b"22");
    assert_eq!(toc.section(b"a").unwrap().read_from(&archive), b"1");
    assert_eq!(toc.section(b"c").unwrap().read_from(&archive), b"333");
    assert_eq!(reader.data_len(), 6);
}

#[test]
fn round_trip_keeps_names_order_and_bytes() {
    let sections: Vec<(Vec<u8>, Vec<u8>)> = vec![
        (b"zeta".to_vec(), vec![0u8; 1]),
        (b"alpha".to_vec(), (0..=255u8).collect()),
        (vec![0xff, 0x00, 0xfe], b"binary name".to_vec()),
        (b"".to_vec(), b"empty name".to_vec()),
        (b"alpha".to_vec(), b"second alpha".to_vec()),
        (b"big".to_vec(), vec![b'A'; 100000]),
    ];
    let mut writer = Writer::new();
    for (name, data) in &sections {
        writer.start(name).unwrap();
        writer.write(data).unwrap();
    }
    writer.finish().unwrap();
    let archive = writer.into_output();

    let reader = Reader::open(&archive).unwrap();
    let toc = reader.toc();
    assert_eq!(toc.len(), sections.len());
    assert!(!toc.is_sorted_by_name());
    let mut pos = 0u64;
    for (i, (name, data)) in sections.iter().enumerate() {
        let e = toc.get(i).unwrap();
        assert_eq!(e.name(), &name[..]);
        assert_eq!(e.pos(), pos);
        assert_eq!(e.len(), data.len() as u64);
        assert_eq!(&e.read_from(&archive), data);
        pos += data.len() as u64;
    }
    assert_eq!(reader.data_len(), pos);
    // Lookup of a duplicate name in an unsorted table gives the first.
    assert_eq!(toc.section(b"alpha").unwrap().pos(), 1);
}

#[test]
fn round_trip_of_name_sorted_sections_is_flagged_sorted() {
    let archive = abc_archive();
    let reader = Reader::open(&archive).unwrap();
    assert!(reader.toc().is_sorted_by_name());
    let toc = reader.into_toc();
    assert_eq!(toc.len(), 3);
}

#[test]
fn a_section_written_in_pieces_is_one_section() {
    let mut writer = Writer::new();
    writer.start(b"pieces").unwrap();
    writer.write(b"Hello").unwrap();
    writer.write(b"").unwrap();
    writer.write(b", ").unwrap();
    writer.write(b"world!").unwrap();
    assert_eq!(writer.position(), 13);
    writer.finish().unwrap();
    let archive = writer.into_output();
    let reader = Reader::open(&archive).unwrap();
    assert_eq!(reader.toc().len(), 1);
    assert_eq!(reader.toc()[0].read_from(&archive), b"Hello, world!");
}

#[test]
fn empty_sections_leave_no_entry() {
    let mut writer = Writer::new();
    writer.start(b"empty-first").unwrap();
    writer.start(b"full").unwrap();
    writer.write(b"data").unwrap();
    writer.start(b"empty-middle").unwrap();
    writer.write(b"").unwrap();
    writer.start(b"also-full").unwrap();
    writer.write(b"x").unwrap();
    writer.start(b"empty-last").unwrap();
    assert_eq!(writer.toc().len(), 2);
    writer.finish().unwrap();
    assert_eq!(writer.toc().len(), 2);
    let archive = writer.into_output();
    let reader = Reader::open(&archive).unwrap();
    let toc = reader.toc();
    assert_eq!(toc.len(), 2);
    assert_eq!(toc[0].name(), b"full");
    assert_eq!((toc[0].pos(), toc[0].len()), (0, 4));
    assert_eq!(toc[1].name(), b"also-full");
    assert_eq!((toc[1].pos(), toc[1].len()), (4, 1));
    assert!(toc.section(b"empty-first").is_none());
    assert!(toc.section(b"empty-middle").is_none());
    assert!(toc.section(b"empty-last").is_none());
}

#[test]
fn an_archive_of_only_empty_sections_has_an_empty_table() {
    let mut writer = Writer::new();
    writer.start(b"one").unwrap();
    writer.start(b"two").unwrap();
    writer.write(b"").unwrap();
    writer.finish().unwrap();
    let archive = writer.into_output();
    let mut expected = b"SFA!".to_vec();
    expected.push(1);
    expected.extend_from_slice(&le(0));
    expected.extend_from_slice(&le(0));
    assert_eq!(archive, expected);
    let reader = Reader::open(&archive).unwrap();
    assert!(reader.toc().is_empty());
    assert_eq!(reader.toc().len(), 0);
    assert_eq!(reader.data_len(), 0);

    let mut never_started = Writer::new();
    never_started.finish().unwrap();
    assert_eq!(never_started.into_output(), expected);
}

#[test]
fn the_writer_follows_its_states() {
    let mut writer = Writer::new();
    assert_eq!(writer.state(), WriterState::Empty);
    assert_eq!(writer.position(), 0);
    writer.start(b"s").unwrap();
    assert_eq!(writer.state(), WriterState::SectionOpen);
    writer.write(b"abc").unwrap();
    assert_eq!(writer.state(), WriterState::SectionOpen);
    assert_eq!(writer.position(), 3);
    writer.start(b"t").unwrap();
    assert_eq!(writer.state(), WriterState::SectionOpen);
    assert_eq!(writer.toc().len(), 1);
    writer.finish().unwrap();
    assert_eq!(writer.state(), WriterState::Finalized);
    assert_eq!(writer.position(), 3);
}

#[test]
fn write_before_start_is_a_usage_error() {
    let mut writer = Writer::new();
    let e = writer.write(b"data").unwrap_err();
    assert_eq!(e, Error::NoOpenSection);
    assert_eq!(e.kind(), ErrorKind::Usage);
    assert!(e.is_usage());
    assert!(!e.is_format());
    assert_eq!(writer.state(), WriterState::Empty);
    assert_eq!(writer.position(), 0);
    // The writer is still good.
    writer.start(b"s").unwrap();
    writer.write(b"data").unwrap();
    writer.finish().unwrap();
    let archive = writer.into_output();
    assert_eq!(Reader::open(&archive).unwrap().toc()[0].read_from(&archive), b"data");
}

#[test]
fn nothing_is_accepted_after_finish() {
    let mut writer = Writer::new();
    writer.start(b"s").unwrap();
    writer.write(b"data").unwrap();
    writer.finish().unwrap();
    assert_eq!(writer.finish().unwrap_err(), Error::AlreadyFinished);
    assert_eq!(writer.write(b"more").unwrap_err(), Error::AlreadyFinished);
    assert_eq!(writer.start(b"t").unwrap_err(), Error::AlreadyFinished);
    assert_eq!(Error::AlreadyFinished.kind(), ErrorKind::Usage);
    assert_eq!(writer.state(), WriterState::Finalized);
    // The refused calls wrote nothing.
    let archive = writer.into_output();
    let reader = Reader::open(&archive).unwrap();
    assert_eq!(reader.toc().len(), 1);
    assert_eq!(reader.toc()[0].read_from(&archive), b"data");
    assert_eq!(archive.len(), 4 + (24 + 1) + 21);
}

#[test]
fn output_can_be_taken_as_it_is_produced() {
    let mut writer = Writer::new();
    let mut file: Vec<u8> = Vec::new();
    assert!(writer.take_output().is_empty());
    writer.start(b"a").unwrap();
    writer.write(b"1").unwrap();
    let chunk = writer.take_output();
    assert_eq!(chunk, b"1");
    file.extend_from_slice(&chunk);
    assert!(writer.take_output().is_empty());
    writer.start(b"b").unwrap();
    writer.write(b"2").unwrap();
    writer.write(b"2").unwrap();
    file.extend_from_slice(&writer.take_output());
    writer.start(b"c").unwrap();
    writer.write(b"333").unwrap();
    file.extend_from_slice(&writer.take_output());
    assert_eq!(file, b"122333");
    assert_eq!(writer.position(), 6);
    writer.finish().unwrap();
    file.extend_from_slice(&writer.take_output());
    assert!(writer.into_output().is_empty());
    assert_eq!(file, abc_archive());
}

#[test]
fn bounded_reads_stop_at_the_section_end() {
    let archive = abc_archive();
    let reader = Reader::open(&archive).unwrap();
    let b = reader.toc().section(b"b").unwrap();
    let mut r = b.reader();
    assert_eq!(r.position(), 1);
    assert_eq!(r.remaining(), 2);
    assert!(!r.is_at_end());
    // A buffer far larger than the section, and a source that goes on for long after it.
    let chunk = r.read(&archive, 4096);
    assert_eq!(chunk, b"22");
    assert_eq!(r.position(), 3);
    assert_eq!(r.remaining(), 0);
    assert!(r.is_at_end());
    assert!(r.read(&archive, 4096).is_empty());
    assert!(r.read(&archive, 1).is_empty());
    assert!(r.read_to_end(&archive).is_empty());
}

#[test]
fn bounded_reads_in_small_steps_add_up_to_the_section() {
    let data: Vec<u8> = (0..100u8).collect();
    let archive = archive_of(&[(b"before", b"xxxx"), (b"it", &data), (b"after", b"yyyy")]);
    let reader = Reader::open(&archive).unwrap();
    let e = reader.toc().section(b"it").unwrap();
    for step in [1usize, 2, 3, 7, 99, 100, 101, 1000] {
        let mut r = SectionReader::new(e);
        let mut got: Vec<u8> = Vec::new();
        let mut reads = 0;
        loop {
            assert_eq!(r.chunk_len(step) as u64, std::cmp::min(step as u64, r.remaining()));
            let chunk = r.read(&archive, step);
            if chunk.is_empty() {
                break;
            }
            assert!(chunk.len() <= step);
            got.extend_from_slice(&chunk);
            reads += 1;
            assert_eq!(r.remaining(), 100 - got.len() as u64);
            assert_eq!(r.position(), 4 + got.len() as u64);
        }
        assert_eq!(got, data);
        assert_eq!(reads, (100 + step - 1) / step);
        assert!(r.is_at_end());
    }
    // A read of no bytes takes none and is not the end.
    let mut r = e.reader();
    assert!(r.read(&archive, 0).is_empty());
    assert_eq!(r.remaining(), 100);
}

#[test]
fn a_bounded_reader_driven_by_the_caller() {
    let archive = abc_archive();
    let reader = Reader::open(&archive).unwrap();
    let c = reader.toc().section(b"c").unwrap();
    let mut r = c.reader();
    assert_eq!(r.chunk_len(2), 2);
    assert!(r.advance(2).is_ok());
    assert_eq!((r.position(), r.remaining()), (5, 1));
    assert_eq!(r.chunk_len(2), 1);
    assert_eq!(r.advance(2).unwrap_err(), Error::ReadPastEnd);
    assert_eq!(Error::ReadPastEnd.kind(), ErrorKind::Usage);
    assert_eq!((r.position(), r.remaining()), (5, 1));
    assert!(r.advance(1).is_ok());
    assert_eq!((r.position(), r.remaining()), (6, 0));
    assert_eq!(r.chunk_len(4096), 0);
    assert!(r.advance(0).is_ok());
    assert_eq!(r.advance(1).unwrap_err(), Error::ReadPastEnd);
}

#[test]
fn a_reader_over_a_source_that_ends_early_gives_what_is_there() {
    let source = b"0123456789";
    let inside = TocEntry::new(b"in".to_vec(), 2, 3);
    assert_eq!(inside.read_from(source), b"234");
    let across = TocEntry::new(b"across".to_vec(), 8, 5);
    assert_eq!(across.read_from(source), b"89");
    let mut r = across.reader();
    assert_eq!(r.read(source, 100), b"89");
    assert_eq!(r.remaining(), 3);
    assert!(r.read(source, 100).is_empty());
    let beyond = TocEntry::new(b"beyond".to_vec(), 11, 5);
    assert!(beyond.read_from(source).is_empty());
    let at_end = TocEntry::new(b"end".to_vec(), 10, 1);
    assert!(at_end.read_from(source).is_empty());
    let huge = TocEntry::new(b"huge".to_vec(), u64::MAX - 1, u64::MAX);
    let r = huge.reader();
    assert_eq!(r.position(), u64::MAX - 1);
    assert_eq!(r.remaining(), 1);
    assert!(huge.read_from(source).is_empty());
    let nothing = TocEntry::new(b"nothing".to_vec(), 3, 0);
    assert!(nothing.read_from(source).is_empty());
    assert!(nothing.reader().is_at_end());
}

#[test]
fn a_short_text_file_is_no_archive() {
    let r = Reader::open(b"not a valid sfa file");
    let e = r.unwrap_err();
    assert_eq!(e, Error::TruncatedTrailer);
    assert_eq!(e.kind(), ErrorKind::Format);
    assert!(e.is_format());
    assert!(!e.is_usage());
    assert_eq!(Reader::open(b"").unwrap_err(), Error::TruncatedTrailer);
    assert_eq!(Reader::open(&[0u8; 20]).unwrap_err(), Error::TruncatedTrailer);
}

#[test]
fn a_longer_text_file_is_no_archive() {
    let text = b"this is a text file that is longer than a trailer, and no archive";
    let e = Reader::open(text).unwrap_err();
    assert_eq!(e, Error::BadMagic);
    assert_eq!(e.kind(), ErrorKind::Format);
    assert_eq!(Reader::open(&[0u8; 21]).unwrap_err(), Error::BadMagic);
    assert_eq!(Reader::open(&[0u8; 4096]).unwrap_err(), Error::BadMagic);
}

#[test]
fn each_fault_of_an_archive_is_named() {
    let good = abc_archive();
    let n = good.len();
    assert!(Reader::open(&good).is_ok());

    // The magic marker, byte by byte.
    for i in 0..4 {
        let mut bad = good.clone();
        bad[n - 21 + i] ^= 0x20;
        assert_eq!(Reader::open(&bad).unwrap_err(), Error::BadMagic);
    }
    // The version.
    let mut bad = good.clone();
    bad[n - 17] = 2;
    assert_eq!(Reader::open(&bad).unwrap_err(), Error::UnsupportedVersion);
    bad[n - 17] = 0;
    assert_eq!(Reader::open(&bad).unwrap_err(), Error::UnsupportedVersion);
    // The table's offset lies behind the trailer's start.
    let mut bad = good.clone();
    bad[n - 16..n - 8].copy_from_slice(&le((n - 21 + 1) as u64));
    assert_eq!(Reader::open(&bad).unwrap_err(), Error::TocOutOfBounds);
    bad[n - 16..n - 8].copy_from_slice(&le(u64::MAX));
    assert_eq!(Reader::open(&bad).unwrap_err(), Error::TocOutOfBounds);
    // The table's offset is wrong by one: the records do not fit the area.
    let mut bad = good.clone();
    bad[n - 16..n - 8].copy_from_slice(&le(5));
    assert_eq!(Reader::open(&bad).unwrap_err(), Error::MalformedToc);
    bad[n - 16..n - 8].copy_from_slice(&le(7));
    assert_eq!(Reader::open(&bad).unwrap_err(), Error::MalformedToc);
    // The count is wrong.
    for count in [0u64, 2, 4, u64::MAX] {
        let mut bad = good.clone();
        bad[n - 8..].copy_from_slice(&le(count));
        assert_eq!(Reader::open(&bad).unwrap_err(), Error::MalformedToc);
    }
    // A name's length reaches beyond the table.
    let mut bad = good.clone();
    bad[6..14].copy_from_slice(&le(1000));
    assert_eq!(Reader::open(&bad).unwrap_err(), Error::MalformedToc);
    bad[6..14].copy_from_slice(&le(u64::MAX));
    assert_eq!(Reader::open(&bad).unwrap_err(), Error::MalformedToc);
    // An entry reaches into the table: "c" with length 4 in a data area of 6.
    let mut bad = good.clone();
    let c_len = 6 + 25 + 25 + 8 + 1 + 8;
    assert_eq!(&bad[c_len..c_len + 8], &le(3));
    bad[c_len..c_len + 8].copy_from_slice(&le(4));
    assert_eq!(Reader::open(&bad).unwrap_err(), Error::EntryOutOfBounds);
    // An entry whose position and length do not even add up in 64 bits.
    bad[c_len..c_len + 8].copy_from_slice(&le(u64::MAX));
    assert_eq!(Reader::open(&bad).unwrap_err(), Error::EntryOutOfBounds);
    for e in [
        Error::TruncatedTrailer,
        Error::BadMagic,
        Error::UnsupportedVersion,
        Error::TocOutOfBounds,
        Error::MalformedToc,
        Error::EntryOutOfBounds,
        Error::OffsetOverflow,
    ] {
        assert_eq!(e.kind(), ErrorKind::Format);
        assert!(e.message().len() > 0);
    }
}

#[test]
fn truncated_and_extended_archives_are_refused() {
    let good = abc_archive();
    for cut in 1..good.len() {
        assert!(Reader::open(&good[..good.len() - cut]).is_err());
    }
    let mut longer = good.clone();
    longer.push(0);
    assert!(Reader::open(&longer).is_err());
    // Bytes in front of the data area move the table away from its offset.
    let mut shifted = vec![0u8];
    shifted.extend_from_slice(&good);
    assert_eq!(Reader::open(&shifted).unwrap_err(), Error::MalformedToc);
}

#[test]
fn entries_may_overlap_or_be_empty_as_long_as_they_lie_in_the_data() {
    let mut archive = b"0123456789".to_vec();
    let mut toc = Toc::default();
    toc.push(TocEntry::new(b"whole".to_vec(), 0, 10));
    toc.push(TocEntry::new(b"part".to_vec(), 2, 3));
    toc.push(TocEntry::new(b"none".to_vec(), 10, 0));
    write_toc(&mut archive, &toc);
    write_trailer(&mut archive, Trailer { toc_pos: 10, entry_count: 3 });
    let reader = Reader::open(&archive).unwrap();
    assert_eq!(reader.toc().len(), 3);
    assert_eq!(reader.toc().section(b"whole").unwrap().read_from(&archive), b"0123456789");
    assert_eq!(reader.toc().section(b"part").unwrap().read_from(&archive), b"234");
    assert!(reader.toc().section(b"none").unwrap().read_from(&archive).is_empty());
    assert!(!reader.toc().is_sorted_by_name());
}

#[test]
fn the_parts_of_an_archive_can_be_read_one_by_one() {
    let archive = abc_archive();
    let n = archive.len() as u64;
    let at = trailer_pos(n).unwrap();
    assert_eq!(at, n - 21);
    assert_eq!(trailer_pos(20).unwrap_err(), Error::TruncatedTrailer);
    assert_eq!(trailer_pos(21).unwrap(), 0);
    let trailer = parse_trailer(&archive[at as usize..]).unwrap();
    assert_eq!(trailer, Trailer { toc_pos: 6, entry_count: 3 });
    let toc_len = trailer.toc_len(n).unwrap();
    assert_eq!(toc_len, 75);
    assert_eq!(trailer.toc_len(26).unwrap_err(), Error::TocOutOfBounds);
    assert_eq!(trailer.toc_len(27).unwrap(), 0);
    assert_eq!(trailer.toc_len(3).unwrap_err(), Error::TruncatedTrailer);
    let table = &archive[6..6 + toc_len as usize];
    let reader = Reader::from_table(trailer, table).unwrap();
    assert_eq!(reader.toc().len(), 3);
    assert_eq!(reader.data_len(), 6);
    assert_eq!(
        Reader::from_table(Trailer { toc_pos: 5, entry_count: 3 }, table).unwrap_err(),
        Error::EntryOutOfBounds
    );
    assert_eq!(
        Reader::from_table(Trailer { toc_pos: 6, entry_count: 2 }, table).unwrap_err(),
        Error::MalformedToc
    );
    assert_eq!(parse_trailer(&archive[at as usize + 1..]).unwrap_err(), Error::TruncatedTrailer);
    assert_eq!(parse_trailer(&archive[at as usize - 1..]).unwrap_err(), Error::TruncatedTrailer);
}

#[test]
fn records_are_written_and_read_back() {
    let e = TocEntry::new(b"name".to_vec(), 0x0102030405060708, 0x1112131415161718);
    let mut out = vec![0xaa];
    write_entry(&mut out, &e);
    let mut expected = vec![0xaa, 4, 0, 0, 0, 0, 0, 0, 0];
    expected.extend_from_slice(b"name");
    expected.extend_from_slice(&[8, 7, 6, 5, 4, 3, 2, 1]);
    expected.extend_from_slice(&[0x18, 0x17, 0x16, 0x15, 0x14, 0x13, 0x12, 0x11]);
    assert_eq!(out, expected);
    let (back, next) = parse_entry(&out, 1).unwrap();
    assert_eq!(next, out.len());
    assert_eq!(back.name(), b"name");
    assert_eq!(back.pos(), 0x0102030405060708);
    assert_eq!(back.len(), 0x1112131415161718);
    assert!(parse_entry(&out, 0).is_none());
    assert!(parse_entry(&out, 2).is_none());
    assert!(parse_entry(&out, out.len()).is_none());
    assert!(parse_entry(&out, out.len() + 1).is_none());
    assert!(parse_entry(&out, usize::MAX).is_none());
    assert!(parse_entry(&out[..out.len() - 1], 1).is_none());

    let toc = parse_toc(&out[1..], 1).unwrap();
    assert_eq!(toc.len(), 1);
    assert!(parse_toc(&out[1..], 0).is_none());
    assert!(parse_toc(&out[1..], 2).is_none());
    assert!(parse_toc(&out, 1).is_none());
    assert!(parse_toc(&[], 0).unwrap().is_empty());
    assert!(parse_toc(&[], 1).is_none());
}

#[test]
fn error_messages_tell_the_faults_apart() {
    let all = [
        Error::TruncatedTrailer,
        Error::BadMagic,
        Error::UnsupportedVersion,
        Error::TocOutOfBounds,
        Error::MalformedToc,
        Error::EntryOutOfBounds,
        Error::OffsetOverflow,
        Error::NoOpenSection,
        Error::AlreadyFinished,
        Error::ReadPastEnd,
    ];
    for (i, a) in all.iter().enumerate() {
        for (j, b) in all.iter().enumerate() {
            assert_eq!(a.message() == b.message(), i == j);
        }
    }
    assert_eq!(Error::BadMagic.message(), "invalid archive: magic marker not found");
    assert_eq!(Error::NoOpenSection.message(), "no section is open");
}

#[test]
fn a_reader_hands_out_bounded_readers_by_name() {
    let archive = abc_archive();
    let reader = Reader::open(&archive).unwrap();
    let mut b = reader.section_reader(b"b").unwrap();
    assert_eq!((b.position(), b.remaining()), (1, 2));
    assert_eq!(b.read_to_end(&archive), b"22");
    assert!(b.is_at_end());
    let mut c = reader.section_reader(b"c").unwrap();
    assert_eq!(c.read(&archive, 2), b"33");
    assert_eq!(c.read(&archive, 2), b"3");
    assert!(c.read(&archive, 2).is_empty());
    assert_eq!(c.position(), reader.data_len());
    assert!(reader.section_reader(b"d").is_none());
    assert!(reader.section_reader(b"").is_none());
}
