use tar_differential::core_event::{HeaderErrorKind, Limits, ParseErrorKind};
use tar_differential::core_reader::can_read_tar_core;
use tar_differential::entry::MAX_CONTENT_READ;
use tar_differential::rs_reader::{can_read_tar_rs, PAX_SCHILY_XATTR};
use tar_differential::{
    parse_tar_core, parse_tar_core_detailed, parse_tar_core_with_limits, parse_tar_rs, OwnedEntry,
};

fn padded(mut bytes: Vec<u8>) -> Vec<u8> {
    while bytes.len() % 512 != 0 {
        bytes.push(0);
    }
    bytes
}

fn filled(mut h: tar::Header, kind: u8, name: &str) -> tar::Header {
    h.set_entry_type(tar::EntryType::new(kind));
    h.as_mut_bytes()[..name.len()].copy_from_slice(name.as_bytes());
    h.set_mode(0o640);
    h.set_uid(1000);
    h.set_gid(1001);
    h.set_mtime(1_234_567_890);
    h
}

fn ustar(kind: u8, name: &str) -> tar::Header {
    let mut h = filled(tar::Header::new_ustar(), kind, name);
    h.set_username("alice").unwrap();
    h.set_groupname("staff").unwrap();
    h.set_device_major(0).unwrap();
    h.set_device_minor(0).unwrap();
    h
}

fn gnu(kind: u8, name: &str) -> tar::Header {
    let mut h = filled(tar::Header::new_gnu(), kind, name);
    h.set_username("alice").unwrap();
    h.set_groupname("staff").unwrap();
    h.set_device_major(0).unwrap();
    h.set_device_minor(0).unwrap();
    h
}

fn v7(kind: u8, name: &str) -> tar::Header {
    filled(tar::Header::new_old(), kind, name)
}

fn member(mut h: tar::Header, content: &[u8]) -> Vec<u8> {
    h.set_size(content.len() as u64);
    h.set_cksum();
    let mut bytes = h.as_bytes().to_vec();
    bytes.extend_from_slice(content);
    padded(bytes)
}

fn record(key: &[u8], value: &[u8]) -> Vec<u8> {
    let rest = key.len() + value.len() + 3;
    let mut len = rest + 1;
    while len != rest + len.to_string().len() {
        len += 1;
    }
    let mut bytes = len.to_string().into_bytes();
    bytes.push(b' ');
    bytes.extend_from_slice(key);
    bytes.push(b'=');
    bytes.extend_from_slice(value);
    bytes.push(b'\n');
    bytes
}

fn archive(members: &[Vec<u8>]) -> Vec<u8> {
    let mut bytes: Vec<u8> = members.concat();
    bytes.extend_from_slice(&[0; 1024]);
    bytes
}

fn entry(path: &[u8], content: &[u8]) -> OwnedEntry {
    OwnedEntry {
        entry_type: b'0',
        path: path.to_vec(),
        link_target: None,
        mode: 0o640,
        uid: 1000,
        gid: 1001,
        mtime: 1_234_567_890,
        size: content.len() as u64,
        uname: Some(b"alice".to_vec()),
        gname: Some(b"staff".to_vec()),
        dev_major: Some(0),
        dev_minor: Some(0),
        xattrs: vec![],
        content: content.to_vec(),
    }
}

fn both_read(data: &[u8], expected: &[OwnedEntry]) {
    assert!(can_read_tar_rs(data));
    assert!(can_read_tar_core(data, Limits::permissive()));
    assert_eq!(parse_tar_rs(data), expected.to_vec());
    let result = parse_tar_core_detailed(data, Limits::permissive());
    assert_eq!(result.entries, expected.to_vec());
    assert!(result.error.is_none());
    assert_eq!(parse_tar_core(data), expected.to_vec());
}

fn core_error(data: &[u8]) -> (Vec<OwnedEntry>, ParseErrorKind) {
    assert!(can_read_tar_core(data, Limits::permissive()));
    let result = parse_tar_core_detailed(data, Limits::permissive());
    (result.entries, result.error.unwrap().kind)
}

#[test]
fn constants_are_those_of_the_parser() {
    assert_eq!(&PAX_SCHILY_XATTR[..], tar_core::PAX_SCHILY_XATTR.as_bytes());
    let ours = Limits::permissive();
    let theirs = tar_core::parse::Limits::permissive();
    assert_eq!(ours.max_metadata_size, theirs.max_metadata_size);
    assert_eq!(ours.max_metadata_size, u32::MAX);
    assert_eq!(ours.max_path_len, theirs.max_path_len);
    assert_eq!(ours.max_path_len, None);
    assert_eq!(ours.max_pending_entries, theirs.max_pending_entries);
    assert_eq!(ours.max_sparse_entries, theirs.max_sparse_entries);
    assert_eq!(ours.max_sparse_entries, 1_000_000);
}

#[test]
fn regular_files() {
    let data = archive(&[
        member(ustar(b'0', "dir/a.txt"), b"hello"),
        member(ustar(b'0', "b"), b""),
    ]);
    both_read(&data, &[entry(b"dir/a.txt", b"hello"), entry(b"b", b"")]);
}

#[test]
fn old_type_flag_of_regular_files() {
    let data = archive(&[member(ustar(0, "old"), b"x")]);
    both_read(&data, &[entry(b"old", b"x")]);
}

#[test]
fn no_data_and_end_of_archive() {
    both_read(&[], &[]);
    both_read(&[0; 1024], &[]);
    both_read(&[0; 512], &[]);
}

#[test]
fn nothing_is_read_behind_the_end() {
    let mut data = archive(&[member(ustar(b'0', "a"), b"1")]);
    data.extend_from_slice(&member(ustar(b'0', "b"), b"2"));
    both_read(&data, &[entry(b"a", b"1")]);
}

#[test]
fn header_format_without_names_and_devices() {
    let data = archive(&[member(v7(b'0', "plain"), b"abc")]);
    let expected = OwnedEntry {
        uname: None,
        gname: None,
        dev_major: None,
        dev_minor: None,
        ..entry(b"plain", b"abc")
    };
    both_read(&data, &[expected]);
}

#[test]
fn empty_names_in_the_header_are_absent() {
    let mut h = ustar(b'0', "f");
    h.set_username("").unwrap();
    h.set_groupname("").unwrap();
    let data = archive(&[member(h, b"")]);
    both_read(&data, &[OwnedEntry { uname: None, gname: None, ..entry(b"f", b"") }]);
}

#[test]
fn devices_and_links() {
    let mut device = ustar(b'3', "dev/tty");
    device.set_device_major(4).unwrap();
    device.set_device_minor(65).unwrap();
    let mut link = ustar(b'2', "link");
    link.set_link_name("target").unwrap();
    let data = archive(&[member(device, b""), member(link, b"")]);
    both_read(
        &data,
        &[
            OwnedEntry {
                entry_type: b'3',
                dev_major: Some(4),
                dev_minor: Some(65),
                ..entry(b"dev/tty", b"")
            },
            OwnedEntry {
                entry_type: b'2',
                link_target: Some(b"target".to_vec()),
                ..entry(b"link", b"")
            },
        ],
    );
}

#[test]
fn pax_records_override_the_header() {
    let mut pax = record(b"path", b"long/path");
    pax.extend(record(b"uname", b"bob"));
    pax.extend(record(b"gname", b"wheel"));
    pax.extend(record(b"uid", b"70000"));
    pax.extend(record(b"gid", b"70001"));
    pax.extend(record(b"SCHILY.xattr.user.mime_type", b"text/plain"));
    pax.extend(record(b"SCHILY.xattr.user.raw", b"\x00\xff"));
    let data = archive(&[member(ustar(b'x', "pax"), &pax), member(ustar(b'0', "short"), b"body")]);
    both_read(
        &data,
        &[OwnedEntry {
            uid: 70000,
            gid: 70001,
            uname: Some(b"bob".to_vec()),
            gname: Some(b"wheel".to_vec()),
            xattrs: vec![
                (b"user.mime_type".to_vec(), b"text/plain".to_vec()),
                (b"user.raw".to_vec(), b"\x00\xff".to_vec()),
            ],
            ..entry(b"long/path", b"body")
        }],
    );
}

#[test]
fn pax_link_path() {
    let pax = record(b"linkpath", b"elsewhere");
    let mut link = ustar(b'2', "link");
    link.set_link_name("short").unwrap();
    let data = archive(&[member(ustar(b'x', "pax"), &pax), member(link, b"")]);
    both_read(
        &data,
        &[OwnedEntry {
            entry_type: b'2',
            link_target: Some(b"elsewhere".to_vec()),
            ..entry(b"link", b"")
        }],
    );
}

#[test]
fn last_owner_name_that_is_not_empty_counts() {
    let mut pax = record(b"uname", b"first");
    pax.extend(record(b"uname", b"second"));
    pax.extend(record(b"uname", b""));
    pax.extend(record(b"gname", b""));
    let data = archive(&[member(ustar(b'x', "pax"), &pax), member(ustar(b'0', "f"), b"")]);
    let entries = parse_tar_rs(&data);
    assert_eq!(entries, vec![OwnedEntry { uname: Some(b"second".to_vec()), ..entry(b"f", b"") }]);
}

#[test]
fn malformed_records_are_skipped_by_the_tar_crate_alone() {
    let mut pax = record(b"SCHILY.xattr.a", b"1");
    pax.extend_from_slice(b"99 nonsense\n");
    pax.extend(record(b"SCHILY.xattr.b", b"2"));
    let data = archive(&[member(ustar(b'x', "pax"), &pax), member(ustar(b'0', "f"), b"")]);
    let expected = OwnedEntry {
        xattrs: vec![(b"a".to_vec(), b"1".to_vec()), (b"b".to_vec(), b"2".to_vec())],
        ..entry(b"f", b"")
    };
    assert_eq!(parse_tar_rs(&data), vec![expected]);
    assert_eq!(core_error(&data), (vec![], ParseErrorKind::Pax));
}

#[test]
fn keys_that_are_not_utf8_are_skipped_by_the_tar_crate_alone() {
    let mut pax = record(b"SCHILY.xattr.\xff", b"1");
    pax.extend(record(b"SCHILY.xattr.b", b"2"));
    let data = archive(&[member(ustar(b'x', "pax"), &pax), member(ustar(b'0', "f"), b"")]);
    let expected =
        OwnedEntry { xattrs: vec![(b"b".to_vec(), b"2".to_vec())], ..entry(b"f", b"") };
    assert_eq!(parse_tar_rs(&data), vec![expected]);
    assert_eq!(core_error(&data), (vec![], ParseErrorKind::InvalidUtf8));
}

fn long_link(name: &[u8], target: &[u8]) -> Vec<u8> {
    let mut link = gnu(b'2', "short");
    link.set_link_name("s").unwrap();
    archive(&[
        member(gnu(b'L', "././@LongLink"), name),
        member(gnu(b'K', "././@LongLink"), target),
        member(link, b""),
    ])
}

#[test]
fn gnu_long_names_override_the_header() {
    let data = long_link(b"a/long/name\0", b"a/long/target\0");
    both_read(
        &data,
        &[OwnedEntry {
            entry_type: b'2',
            link_target: Some(b"a/long/target".to_vec()),
            ..entry(b"a/long/name", b"")
        }],
    );
}

#[test]
fn gnu_long_names_are_cut_at_the_first_nul() {
    let data = long_link(b"a/long/name\0rest\0", b"a/long/target\0rest\0");
    let entries = parse_tar_rs(&data);
    assert_eq!(entries.len(), 1);
    assert_eq!(entries[0].path, b"a/long/name".to_vec());
    assert_eq!(entries[0].link_target, Some(b"a/long/target".to_vec()));
}

#[test]
fn sparse_files() {
    let mut h = gnu(b'S', "sparse");
    {
        let g = h.as_gnu_mut().unwrap();
        g.sparse[0].offset.copy_from_slice(b"00000001000\0");
        g.sparse[0].numbytes.copy_from_slice(b"00000000004\0");
        g.realsize.copy_from_slice(b"00000001004\0");
    }
    let data = archive(&[member(h, b"data"), member(gnu(b'0', "next"), b"n")]);
    let mut content = vec![0; 512];
    content.extend_from_slice(b"data");
    let rs = parse_tar_rs(&data);
    assert_eq!(rs[0], OwnedEntry { entry_type: b'S', ..entry(b"sparse", &content) });
    assert_eq!(rs[1], entry(b"next", b"n"));
    let core = parse_tar_core(&data);
    assert_eq!(core[0], OwnedEntry { entry_type: b'S', ..entry(b"sparse", b"data") });
    assert_eq!(core[1], entry(b"next", b"n"));
}

#[test]
fn global_headers_are_stepped_over() {
    let pax = record(b"comment", b"for all");
    let data = archive(&[member(ustar(b'g', "global"), &pax), member(ustar(b'0', "f"), b"1")]);
    both_read(&data, &[entry(b"f", b"1")]);
}

#[test]
fn metadata_types_without_magic_are_left_out() {
    let data = archive(&[
        member(v7(b'L', "name"), b"ignored"),
        member(v7(b'K', "link"), b"ignored"),
        member(v7(b'x', "pax"), b"ignored"),
        member(ustar(b'0', "f"), b"1"),
    ]);
    both_read(&data, &[entry(b"f", b"1")]);
}

#[test]
fn entries_without_path_are_left_out() {
    let data = archive(&[member(ustar(b'0', ""), b"lost"), member(ustar(b'0', "f"), b"1")]);
    both_read(&data, &[entry(b"f", b"1")]);
}

#[test]
fn padding_behind_the_last_content_may_be_missing() {
    let mut data = member(ustar(b'0', "f"), b"hello");
    data.truncate(517);
    both_read(&data, &[entry(b"f", b"hello")]);
}

#[test]
fn missing_content_ends_the_reading() {
    let mut data = member(ustar(b'0', "a"), b"1");
    data.extend_from_slice(&member(ustar(b'0', "f"), b"hello"));
    data.truncate(1024 + 516);
    both_read(&data, &[entry(b"a", b"1")]);
}

#[test]
fn content_is_cut_at_the_limit() {
    let limit = MAX_CONTENT_READ as usize;
    let long = vec![7u8; limit + 100];
    let data = archive(&[member(ustar(b'0', "long"), &long), member(ustar(b'0', "f"), b"1")]);
    let cut = OwnedEntry { size: (limit + 100) as u64, ..entry(b"long", &long[..limit]) };
    both_read(&data, &[cut, entry(b"f", b"1")]);
}

#[test]
fn content_beyond_the_limit_may_be_missing() {
    let limit = MAX_CONTENT_READ as usize;
    let long = vec![7u8; limit + 100];
    let mut data = member(ustar(b'0', "long"), &long);
    data.truncate(512 + limit);
    let cut = OwnedEntry { size: (limit + 100) as u64, ..entry(b"long", &long[..limit]) };
    both_read(&data, &[cut]);
}

#[test]
fn malformed_numbers_end_the_reading() {
    for field in [100usize, 108, 116, 136, 329, 337] {
        let mut h = ustar(b'0', "bad");
        h.as_mut_bytes()[field] = b'z';
        let data = archive(&[
            member(ustar(b'0', "a"), b"1"),
            member(h, b""),
            member(ustar(b'0', "b"), b"2"),
        ]);
        assert_eq!(parse_tar_rs(&data), vec![entry(b"a", b"1")]);
        let kind = ParseErrorKind::Header(HeaderErrorKind::InvalidOctal);
        assert_eq!(core_error(&data), (vec![entry(b"a", b"1")], kind));
    }
}

#[test]
fn malformed_numbers_end_the_reading_before_anything_is_left_out() {
    let mut h = ustar(b'0', "");
    h.as_mut_bytes()[100] = b'z';
    let data = archive(&[member(h, b""), member(ustar(b'0', "b"), b"2")]);
    assert_eq!(parse_tar_rs(&data), vec![]);
    let kind = ParseErrorKind::Header(HeaderErrorKind::InvalidOctal);
    assert_eq!(core_error(&data), (vec![], kind));
}

#[test]
fn wrong_checksum_ends_the_reading() {
    let mut data = archive(&[member(ustar(b'0', "a"), b"1"), member(ustar(b'0', "b"), b"2")]);
    data[1024] = b'c';
    assert_eq!(parse_tar_rs(&data), vec![entry(b"a", b"1")]);
    let kind = ParseErrorKind::Header(HeaderErrorKind::ChecksumMismatch);
    assert_eq!(core_error(&data), (vec![entry(b"a", b"1")], kind));
}

#[test]
fn errors_carry_the_message_of_the_parser() {
    let mut data = archive(&[member(ustar(b'0', "a"), b"1")]);
    data[0] = b'c';
    let mut parser = tar_core::parse::Parser::new(tar_core::parse::Limits::permissive());
    let message = parser.parse(&data).unwrap_err().to_string();
    let result = parse_tar_core_detailed(&data, Limits::permissive());
    assert_eq!(result.error.unwrap().message, message);
}

#[test]
fn two_long_names_are_an_error() {
    let data = archive(&[
        member(gnu(b'L', "././@LongLink"), b"one\0"),
        member(gnu(b'L', "././@LongLink"), b"two\0"),
        member(gnu(b'0', "f"), b""),
    ]);
    assert_eq!(parse_tar_rs(&data), vec![]);
    assert_eq!(core_error(&data), (vec![], ParseErrorKind::Other));
}

#[test]
fn limits_are_those_given() {
    let data = archive(&[
        member(ustar(b'0', "a"), b"1"),
        member(ustar(b'0', "much/longer/path"), b"2"),
    ]);
    let tight = Limits { max_path_len: Some(8), ..Limits::permissive() };
    assert_eq!(parse_tar_core_with_limits(&data, tight), vec![entry(b"a", b"1")]);
    let result = parse_tar_core_detailed(&data, tight);
    assert_eq!(result.entries, vec![entry(b"a", b"1")]);
    assert_eq!(result.error.unwrap().kind, ParseErrorKind::Other);
    let wide = Limits { max_path_len: Some(16), ..Limits::permissive() };
    assert_eq!(
        parse_tar_core_with_limits(&data, wide),
        vec![entry(b"a", b"1"), entry(b"much/longer/path", b"2")],
    );
}

#[test]
fn limits_on_metadata() {
    let pax = record(b"comment", b"0123456789");
    let data = archive(&[member(ustar(b'x', "pax"), &pax), member(ustar(b'0', "f"), b"")]);
    let small = Limits { max_metadata_size: 5, ..Limits::permissive() };
    assert_eq!(parse_tar_core_with_limits(&data, small), vec![]);
    let none = Limits { max_pending_entries: 0, ..Limits::permissive() };
    assert_eq!(parse_tar_core_with_limits(&data, none), vec![]);
    assert_eq!(parse_tar_core(&data), vec![entry(b"f", b"")]);
}

#[test]
fn limit_on_sparse_regions() {
    let mut h = gnu(b'S', "sparse");
    {
        let g = h.as_gnu_mut().unwrap();
        g.sparse[0].offset.copy_from_slice(b"00000000000\0");
        g.sparse[0].numbytes.copy_from_slice(b"00000000004\0");
        g.realsize.copy_from_slice(b"00000000004\0");
    }
    let data = archive(&[member(h, b"data")]);
    let none = Limits { max_sparse_entries: 0, ..Limits::permissive() };
    assert_eq!(parse_tar_core_with_limits(&data, none), vec![]);
    assert_eq!(parse_tar_core(&data).len(), 1);
}

#[test]
fn recorded_entries_are_real_and_complete() {
    let data = archive(&[
        member(v7(b'L', "skipped"), b"xx"),
        member(ustar(b'0', ""), b"xx"),
        member(ustar(b'5', "dir/"), b""),
        member(ustar(b'0', "dir/f"), b"content"),
    ]);
    for e in parse_tar_rs(&data).iter().chain(parse_tar_core(&data).iter()) {
        assert!(!b"LKxg".contains(&e.entry_type));
        assert!(!e.path.is_empty());
        assert!(!e.path.contains(&0));
        assert_eq!(e.content.len() as u64, e.size.min(MAX_CONTENT_READ));
    }
    assert_eq!(parse_tar_rs(&data).len(), 2);
    assert_eq!(parse_tar_core(&data).len(), 2);
}

#[test]
fn cutting_an_archive_loses_entries_at_the_end_only() {
    let pax = record(b"SCHILY.xattr.a", b"1");
    let data = archive(&[
        member(ustar(b'0', "a"), b"one"),
        member(gnu(b'L', "././@LongLink"), b"a/long/name\0"),
        member(gnu(b'0', "b"), b"two"),
        member(ustar(b'g', "global"), &record(b"comment", b"c")),
        member(ustar(b'x', "pax"), &pax),
        member(ustar(b'0', "c"), &[7; 600]),
    ]);
    let whole = parse_tar_core(&data);
    assert_eq!(whole.len(), 3);
    for n in 0..=data.len() {
        assert!(can_read_tar_core(&data[..n], Limits::permissive()));
        assert!(whole.starts_with(&parse_tar_core(&data[..n])));
    }
    assert_eq!(parse_tar_core(&data[..515]).len(), 1);
    assert_eq!(parse_tar_core(&data[..514]).len(), 0);
}
