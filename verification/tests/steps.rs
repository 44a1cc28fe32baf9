use std::borrow::Cow;
use tar_differential::core_event::{ParseEvent, ParsedEntry};
use tar_differential::core_reader::{take_event, take_snapshot};
use tar_differential::entry::{describes_other_entries, kept_content_len, OwnedEntry};
use tar_differential::rs_reader::{resolve_entry, Resolution};
use tar_differential::tar_archive::RawEntry;
use tar_differential::tar_header::{read_header_fields, HeaderFields};

fn parsed(entry_type: u8, path: &[u8], size: u64) -> ParsedEntry<'_> {
    ParsedEntry {
        entry_type,
        path: Cow::Borrowed(path),
        link_target: Some(Cow::Owned(b"to".to_vec())),
        mode: 1,
        uid: 2,
        gid: 3,
        mtime: 4,
        size,
        uname: Some(Cow::Borrowed(b"u")),
        gname: None,
        dev_major: Some(5),
        dev_minor: None,
        xattrs: vec![(Cow::Borrowed(b"k"), Cow::Owned(b"v".to_vec()))],
    }
}

fn taken(path: &[u8], size: u64, content: &[u8]) -> OwnedEntry {
    OwnedEntry {
        entry_type: b'0',
        path: path.to_vec(),
        link_target: Some(b"to".to_vec()),
        mode: 1,
        uid: 2,
        gid: 3,
        mtime: 4,
        size,
        uname: Some(b"u".to_vec()),
        gname: None,
        dev_major: Some(5),
        dev_minor: None,
        xattrs: vec![(b"k".to_vec(), b"v".to_vec())],
        content: content.to_vec(),
    }
}

#[test]
fn snapshots_keep_every_field() {
    assert_eq!(take_snapshot(parsed(b'0', b"p", 2), vec![8, 9]), taken(b"p", 2, &[8, 9]));
}

#[test]
fn events_without_bytes_end_the_reading() {
    for event in [ParseEvent::NeedData, ParseEvent::End] {
        let step = take_event(&[1; 600], 0, event);
        assert!(step.recorded.is_none());
        assert_eq!(step.next, None);
    }
}

#[test]
fn global_extensions_are_stepped_over() {
    let step = take_event(&[1; 2048], 512, ParseEvent::GlobalExtensions(1024));
    assert!(step.recorded.is_none());
    assert_eq!(step.next, Some(1536));
    let step = take_event(&[1; 1024], 512, ParseEvent::GlobalExtensions(1024));
    assert_eq!(step.next, None);
}

#[test]
fn entries_are_recorded_with_their_content() {
    let mut data = vec![0u8; 512];
    data.extend_from_slice(b"abc");
    data.resize(1024, 0);
    let step = take_event(&data, 0, ParseEvent::Entry(512, parsed(b'0', b"p", 3)));
    assert_eq!(step.recorded, Some(taken(b"p", 3, b"abc")));
    assert_eq!(step.next, Some(1024));
    let step = take_event(&data[..515], 0, ParseEvent::Entry(512, parsed(b'0', b"p", 3)));
    assert_eq!(step.recorded, Some(taken(b"p", 3, b"abc")));
    assert_eq!(step.next, None);
    let step = take_event(&data[..514], 0, ParseEvent::Entry(512, parsed(b'0', b"p", 3)));
    assert_eq!(step.recorded, None);
    assert_eq!(step.next, None);
}

#[test]
fn left_out_entries_are_stepped_over() {
    let data = vec![0u8; 2048];
    for kind in [b'L', b'K', b'x', b'g'] {
        assert!(describes_other_entries(kind));
        let step = take_event(&data, 512, ParseEvent::Entry(512, parsed(kind, b"p", 700)));
        assert_eq!(step.recorded, None);
        assert_eq!(step.next, Some(2048));
    }
    assert!(!describes_other_entries(b'0'));
    let step = take_event(&data, 0, ParseEvent::Entry(512, parsed(b'0', b"", 1)));
    assert_eq!(step.recorded, None);
    assert_eq!(step.next, Some(1024));
    let step = take_event(&data, 1024, ParseEvent::Entry(512, parsed(b'L', b"p", 600)));
    assert_eq!(step.next, None);
}

#[test]
fn sizes_too_large_to_pad_end_the_reading() {
    let data = vec![0u8; 512 + 262144];
    let step = take_event(&data, 0, ParseEvent::Entry(512, parsed(b'0', b"p", u64::MAX)));
    assert_eq!(step.recorded.unwrap().content.len(), 262144);
    assert_eq!(step.next, None);
}

#[test]
fn kept_content_is_limited() {
    assert_eq!(kept_content_len(0), 0);
    assert_eq!(kept_content_len(262143), 262143);
    assert_eq!(kept_content_len(262144), 262144);
    assert_eq!(kept_content_len(u64::MAX), 262144);
}

#[test]
fn entries_differ_in_any_field() {
    let e = taken(b"p", 3, b"abc");
    assert_eq!(e, e.clone());
    let others = [
        OwnedEntry { entry_type: b'5', ..e.clone() },
        OwnedEntry { path: b"q".to_vec(), ..e.clone() },
        OwnedEntry { link_target: None, ..e.clone() },
        OwnedEntry { link_target: Some(b"tp".to_vec()), ..e.clone() },
        OwnedEntry { mode: 9, ..e.clone() },
        OwnedEntry { uid: 9, ..e.clone() },
        OwnedEntry { gid: 9, ..e.clone() },
        OwnedEntry { mtime: 9, ..e.clone() },
        OwnedEntry { size: 9, ..e.clone() },
        OwnedEntry { uname: Some(b"w".to_vec()), ..e.clone() },
        OwnedEntry { gname: Some(vec![]), ..e.clone() },
        OwnedEntry { dev_major: Some(6), ..e.clone() },
        OwnedEntry { dev_minor: Some(0), ..e.clone() },
        OwnedEntry { xattrs: vec![], ..e.clone() },
        OwnedEntry { xattrs: vec![(b"k".to_vec(), b"w".to_vec())], ..e.clone() },
        OwnedEntry { content: b"abd".to_vec(), ..e.clone() },
    ];
    for other in others {
        assert_ne!(e, other);
    }
}

fn raw(path: &[u8], link_name: Option<&[u8]>, size: u64, content: &[u8]) -> RawEntry {
    RawEntry {
        header: vec![0; 512],
        path: path.to_vec(),
        link_name: link_name.map(<[u8]>::to_vec),
        size,
        content: content.to_vec(),
    }
}

fn fields(entry_type: u8) -> HeaderFields {
    HeaderFields {
        entry_type,
        mode: Some(1),
        uid: Some(2),
        gid: Some(3),
        mtime: Some(4),
        dev_major: Some(None),
        dev_minor: Some(Some(6)),
        username: Some(b"u".to_vec()),
        groupname: Some(vec![]),
    }
}

#[test]
fn resolved_entry() {
    let records = vec![
        Some((b"gname".to_vec(), b"g".to_vec())),
        None,
        Some((b"SCHILY.xattr.k".to_vec(), b"v".to_vec())),
        Some((b"SCHILY.xattr".to_vec(), b"w".to_vec())),
        Some((b"uname".to_vec(), vec![])),
        Some((b"SCHILY.xattr.\xc3\x28".to_vec(), b"bad".to_vec())),
        Some((b"SCHILY.xattr.".to_vec(), vec![])),
    ];
    let resolution =
        resolve_entry(&raw(b"p\0q", Some(b"l\0m"), 3, b"abc"), &fields(b'0'), &records);
    let Resolution::Record(found) = resolution else { panic!("not recorded") };
    assert_eq!(
        found,
        OwnedEntry {
            entry_type: b'0',
            path: b"p".to_vec(),
            link_target: Some(b"l".to_vec()),
            mode: 1,
            uid: 2,
            gid: 3,
            mtime: 4,
            size: 3,
            uname: Some(b"u".to_vec()),
            gname: Some(b"g".to_vec()),
            dev_major: None,
            dev_minor: Some(6),
            xattrs: vec![(b"k".to_vec(), b"v".to_vec()), (vec![], vec![])],
            content: b"abc".to_vec(),
        }
    );
}

#[test]
fn resolved_link_names() {
    let target = |name: Option<&[u8]>| match resolve_entry(
        &raw(b"p", name, 0, b""),
        &fields(b'2'),
        &vec![],
    ) {
        Resolution::Record(e) => e.link_target,
        _ => panic!("not recorded"),
    };
    assert_eq!(target(None), None);
    assert_eq!(target(Some(b"")), None);
    assert_eq!(target(Some(b"\0x")), Some(vec![]));
    assert_eq!(target(Some(b"t")), Some(b"t".to_vec()));
}

#[test]
fn resolution_skips_and_stops() {
    let none = vec![];
    for kind in [b'L', b'K', b'x', b'g'] {
        let r = resolve_entry(&raw(b"p", None, 0, b""), &fields(kind), &none);
        assert!(matches!(r, Resolution::Skip));
    }
    let r = resolve_entry(&raw(b"\0p", None, 5, b""), &fields(b'0'), &none);
    assert!(matches!(r, Resolution::Skip));
    let r = resolve_entry(&raw(b"p", None, 5, b"four"), &fields(b'0'), &none);
    assert!(matches!(r, Resolution::Stop));
    let broken = [
        HeaderFields { mode: None, ..fields(b'L') },
        HeaderFields { uid: None, ..fields(b'0') },
        HeaderFields { gid: None, ..fields(b'0') },
        HeaderFields { mtime: None, ..fields(b'0') },
        HeaderFields { dev_major: None, ..fields(b'0') },
        HeaderFields { dev_minor: None, ..fields(b'0') },
    ];
    for f in &broken {
        let r = resolve_entry(&raw(b"", None, 0, b""), f, &none);
        assert!(matches!(r, Resolution::Stop));
    }
}

#[test]
fn header_fields_as_the_tar_crate_reads_them() {
    let mut h = tar::Header::new_ustar();
    h.set_entry_type(tar::EntryType::new(b'4'));
    h.set_mode(0o751);
    h.set_uid(11);
    h.set_gid(12);
    h.set_mtime(13);
    h.set_device_major(14).unwrap();
    h.set_device_minor(15).unwrap();
    h.set_username("name").unwrap();
    h.set_groupname("group").unwrap();
    let f = read_header_fields(h.as_bytes());
    assert_eq!(f.entry_type, b'4');
    assert_eq!(f.mode, Some(0o751));
    assert_eq!(f.uid, Some(11));
    assert_eq!(f.gid, Some(12));
    assert_eq!(f.mtime, Some(13));
    assert_eq!(f.dev_major, Some(Some(14)));
    assert_eq!(f.dev_minor, Some(Some(15)));
    assert_eq!(f.username, Some(b"name".to_vec()));
    assert_eq!(f.groupname, Some(b"group".to_vec()));
}

#[test]
fn header_fields_of_an_empty_header() {
    let f = read_header_fields(&[0; 512]);
    assert_eq!(f.entry_type, b'0');
    assert_eq!(f.mode, None);
    assert_eq!(f.dev_major, Some(None));
    assert_eq!(f.dev_minor, Some(None));
    assert_eq!(f.username, None);
    assert_eq!(f.groupname, None);
}

#[test]
fn names_that_fill_their_fields() {
    let mut block = [0u8; 512];
    block[257..265].copy_from_slice(b"ustar  \0");
    block[265..329].fill(b'n');
    let f = read_header_fields(&block);
    assert_eq!(f.username, Some(vec![b'n'; 32]));
    assert_eq!(f.groupname, Some(vec![b'n'; 32]));
}
