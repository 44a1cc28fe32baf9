use tar_differential::core_event::{HeaderErrorKind, ParseError, ParseErrorKind};
use tar_differential::differential::{
    compare_entries, examine, find_overflowing_reader, is_allowlisted_divergence, prepare_input,
    run_differential, Divergence, Examination, Outcome, Reader, MAX_INPUT,
};
use tar_differential::dump::dump_headers;
use tar_differential::fixup::fixup_checksums;
use tar_differential::OwnedEntry;

fn entry(path: &[u8]) -> OwnedEntry {
    OwnedEntry {
        entry_type: b'0',
        path: path.to_vec(),
        link_target: None,
        mode: 0o644,
        uid: 0,
        gid: 0,
        mtime: 0,
        size: 0,
        uname: None,
        gname: None,
        dev_major: None,
        dev_minor: None,
        xattrs: vec![],
        content: vec![],
    }
}

fn error(kind: ParseErrorKind) -> ParseError {
    ParseError { kind, message: String::new() }
}

fn member(name: &str, content: &[u8]) -> Vec<u8> {
    let mut h = tar::Header::new_ustar();
    h.set_path(name).unwrap();
    h.set_mode(0o644);
    h.set_uid(0);
    h.set_gid(0);
    h.set_mtime(0);
    h.set_device_major(0).unwrap();
    h.set_device_minor(0).unwrap();
    h.set_size(content.len() as u64);
    h.set_cksum();
    let mut bytes = h.as_bytes().to_vec();
    bytes.extend_from_slice(content);
    while bytes.len() % 512 != 0 {
        bytes.push(0);
    }
    bytes
}

fn archive(names: &[&str]) -> Vec<u8> {
    let mut bytes = vec![];
    for name in names {
        bytes.extend(member(name, name.as_bytes()));
    }
    bytes.extend_from_slice(&[0; 1024]);
    bytes
}

fn compared(data: &[u8]) -> (Vec<u8>, Outcome) {
    match examine(data) {
        Examination::Compared { input, outcome } => (input, outcome),
        other => panic!("not compared: {other:?}"),
    }
}

#[test]
fn known_stricter_errors() {
    let allowed = [
        ParseErrorKind::Pax,
        ParseErrorKind::InvalidUtf8,
        ParseErrorKind::Header(HeaderErrorKind::InvalidOctal),
        ParseErrorKind::NonZeroSizeForHeaderOnlyEntry,
    ];
    for kind in allowed {
        assert!(is_allowlisted_divergence(&error(kind)));
    }
    let others = [
        ParseErrorKind::Header(HeaderErrorKind::InsufficientData),
        ParseErrorKind::Header(HeaderErrorKind::FieldOverflow),
        ParseErrorKind::Header(HeaderErrorKind::ChecksumMismatch),
        ParseErrorKind::Other,
    ];
    for kind in others {
        assert!(!is_allowlisted_divergence(&error(kind)));
    }
}

#[test]
fn equal_readings_agree() {
    let list = [entry(b"a"), entry(b"b")];
    assert_eq!(compare_entries(&list, &list, None), Ok(()));
    assert_eq!(compare_entries(&[], &[], None), Ok(()));
}

#[test]
fn more_entries_of_tar_core_agree() {
    let rs = [entry(b"a")];
    let core = [entry(b"a"), entry(b"b")];
    assert_eq!(compare_entries(&rs, &core, None), Ok(()));
    assert_eq!(compare_entries(&[], &core, Some(&error(ParseErrorKind::Other))), Ok(()));
}

#[test]
fn fewer_entries_of_tar_core_diverge() {
    let rs = [entry(b"a"), entry(b"b"), entry(b"c")];
    let core = [entry(b"a")];
    let found = Err(Divergence::FewerEntries { tar_core: 1, tar_rs: 3 });
    assert_eq!(compare_entries(&rs, &core, None), found);
    assert_eq!(compare_entries(&rs, &core, Some(&error(ParseErrorKind::Other))), found);
}

#[test]
fn fewer_entries_behind_a_stricter_check_agree() {
    let rs = [entry(b"a"), entry(b"b"), entry(b"c")];
    let core = [entry(b"a"), entry(b"b")];
    assert_eq!(compare_entries(&rs, &core, Some(&error(ParseErrorKind::Pax))), Ok(()));
    assert_eq!(compare_entries(&rs, &[], Some(&error(ParseErrorKind::InvalidUtf8))), Ok(()));
}

#[test]
fn first_mismatch_is_reported() {
    let rs = [entry(b"a"), entry(b"b"), entry(b"c")];
    let core = [entry(b"a"), entry(b"x"), entry(b"y")];
    let found = Err(Divergence::EntryMismatch { index: 1 });
    assert_eq!(compare_entries(&rs, &core, None), found);
    assert_eq!(compare_entries(&rs, &core[..2], Some(&error(ParseErrorKind::Pax))), found);
}

#[test]
fn readers_agree_on_an_archive() {
    let data = archive(&["one", "two"]);
    let outcome = run_differential(&data);
    assert_eq!(outcome.verdict, Ok(()));
    assert_eq!(outcome.tar_rs_entries.len(), 2);
    assert_eq!(outcome.tar_rs_entries, outcome.tar_core.entries);
    assert_eq!(outcome.tar_rs_entries[1].content, b"two".to_vec());
    assert!(outcome.tar_core.error.is_none());
}

#[test]
fn stricter_reader_is_accepted() {
    let mut data = vec![];
    let mut pax = tar::Header::new_ustar();
    pax.set_path("pax").unwrap();
    pax.set_entry_type(tar::EntryType::XHeader);
    pax.set_size(7);
    pax.set_mode(0);
    pax.set_cksum();
    data.extend_from_slice(&member("one", b"1"));
    data.extend_from_slice(pax.as_bytes());
    data.extend_from_slice(b"99 bad\n");
    data.resize(2048, 0);
    data.extend_from_slice(&archive(&["two"]));
    let outcome = run_differential(&data);
    assert_eq!(outcome.tar_rs_entries.len(), 2);
    assert_eq!(outcome.tar_core.entries.len(), 1);
    assert_eq!(outcome.tar_core.error.unwrap().kind, ParseErrorKind::Pax);
    assert_eq!(outcome.verdict, Ok(()));
}

#[test]
fn prepared_input() {
    assert_eq!(prepare_input(&[]), Some(vec![]));
    assert_eq!(prepare_input(&vec![1; MAX_INPUT + 1]), None);
    let raw = vec![20u8; 1024];
    assert_eq!(prepare_input(&raw), Some(raw.clone()));
    let odd = vec![21u8; 1024];
    let mut repaired = odd.clone();
    fixup_checksums(&mut repaired);
    assert_ne!(repaired, odd);
    assert_eq!(prepare_input(&odd), Some(repaired));
    assert_eq!(prepare_input(&vec![10; MAX_INPUT]).unwrap().len(), MAX_INPUT);
}

#[test]
fn prepared_input_is_stable() {
    for first in 0..=255u8 {
        let mut data: Vec<u8> = (0..1600u32).map(|i| (i * 31 % 253) as u8).collect();
        data[0] = first;
        let once = prepare_input(&data).unwrap();
        assert_eq!(prepare_input(&once), Some(once.clone()));
    }
}

#[test]
fn examined_input_is_repaired() {
    let good = archive(&["one", "two"]);
    let mut damaged = good.clone();
    damaged[148] = 0x7f;
    damaged[1024 + 150] = 0x7f;
    assert_eq!(run_differential(&damaged).tar_rs_entries.len(), 0);
    let (input, outcome) = compared(&damaged);
    assert_eq!(input, good);
    assert_eq!(outcome.tar_rs_entries.len(), 2);
    assert_eq!(outcome.verdict, Ok(()));
}

#[test]
fn input_with_a_first_byte_in_ten_is_examined_as_it_is() {
    let mut data = archive(&["dir"]);
    assert_eq!(data[0] % 10, 0);
    data[148] = 0x7f;
    let (input, outcome) = compared(&data);
    assert_eq!(input, data);
    assert_eq!(outcome.tar_rs_entries.len(), 0);
    assert_eq!(outcome.verdict, Ok(()));
}

#[test]
fn long_input_is_not_examined() {
    assert!(matches!(examine(&vec![0; MAX_INPUT + 1]), Examination::TooLong));
    assert!(matches!(examine(&vec![0; MAX_INPUT]), Examination::Compared { .. }));
}

#[test]
fn large_sizes_alone_are_examined() {
    for data in [&b""[..], b"29 size=18446744073709551615\n", b"xsize=18446744073709551615"] {
        assert_eq!(compared(data).1.verdict, Ok(()));
    }
    let mut lone = tar::Header::new_gnu();
    lone.set_entry_type(tar::EntryType::GNULongName);
    lone.set_path("long").unwrap();
    lone.as_mut_bytes()[124..136].fill(0xff);
    lone.set_cksum();
    let outcome = compared(lone.as_bytes()).1;
    assert_eq!(outcome.verdict, Ok(()));
    assert!(outcome.tar_rs_entries.is_empty());
    assert_eq!(outcome.tar_core.error.unwrap().kind, ParseErrorKind::Other);
}

#[test]
fn large_size_in_the_content_of_a_file_is_examined() {
    let mut data = member("text", b"29 size=18446744073709551615\n");
    data.extend_from_slice(&[0; 1024]);
    let outcome = compared(&data).1;
    assert_eq!(outcome.verdict, Ok(()));
    assert_eq!(outcome.tar_rs_entries.len(), 1);
}

fn gnu_header(kind: u8, size: u64) -> tar::Header {
    let mut h = tar::Header::new_gnu();
    h.set_entry_type(tar::EntryType::new(kind));
    h.set_path("name").unwrap();
    h.set_size(size);
    h
}

fn sealed(mut h: tar::Header) -> Vec<u8> {
    h.set_cksum();
    h.as_bytes().to_vec()
}

#[test]
fn overflow_is_told_by_reader() {
    let mut core = sealed(gnu_header(b'L', 600));
    core.resize(512 + 1024, b'n');
    core.extend(sealed(gnu_header(b'K', u64::MAX - 511)));
    assert_eq!(find_overflowing_reader(&core), Some(Reader::TarCore));
    match examine(&core) {
        Examination::Overflow { input, reader } => {
            assert_eq!(input, core);
            assert_eq!(reader, Reader::TarCore);
        }
        other => panic!("no overflow: {other:?}"),
    }

    let mut h = gnu_header(b'S', u64::MAX - 1023);
    h.as_gnu_mut().unwrap().set_is_extended(true);
    let mut rs = sealed(h);
    rs.resize(1024, 0);
    assert_eq!(find_overflowing_reader(&rs), Some(Reader::TarRs));
    assert!(matches!(examine(&rs), Examination::Overflow { reader: Reader::TarRs, .. }));
    assert_eq!(find_overflowing_reader(&archive(&["one"])), None);
}

#[test]
fn arbitrary_inputs_agree() {
    let mut seed: u32 = 7;
    for round in 0..40u32 {
        let mut data = archive(&["one", "two", "three"]);
        for _ in 0..round {
            seed = seed.wrapping_mul(1664525).wrapping_add(1013904223);
            let at = (seed >> 8) as usize % data.len();
            data[at] = (seed >> 3) as u8;
        }
        assert_eq!(compared(&data).1.verdict, Ok(()));
    }
}

#[test]
fn dumped_blocks() {
    let mut data = member("name.txt", b"content");
    data.extend_from_slice(&[0; 512]);
    data.extend_from_slice(&[1; 100]);
    let dump = dump_headers(&data);
    assert_eq!(dump.len(), 3);
    for (i, block) in dump.iter().enumerate() {
        assert_eq!(block.index, i);
        assert_eq!(block.offset, i * 512);
    }
    let header = tar_core::Header::from_bytes(data[..512].try_into().unwrap());
    assert_eq!(dump[0].header, Some(format!("{header:?}")));
    assert!(dump[0].header.as_ref().unwrap().contains("name.txt"));
    assert!(dump[1].header.is_some());
    assert_eq!(dump[2].header, None);
    assert!(dump_headers(&data[..511]).is_empty());
}
