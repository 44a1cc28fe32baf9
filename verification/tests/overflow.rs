use tar_differential::core_event::{Limits, ParseErrorKind};
use tar_differential::core_reader::can_read_tar_core;
use tar_differential::core_sums::do_sums_fit;
use tar_differential::pax::{find_size_record, read_size_record};
use tar_differential::raw_header::{
    does_core_checksum_hold, is_extension_header, is_gnu_header, read_core_size,
};
use tar_differential::rs_reader::can_read_tar_rs;
use tar_differential::rs_sums::find_overflow;
use tar_differential::{parse_tar_core, parse_tar_core_detailed, parse_tar_rs};

fn header(kind: u8, size: u64) -> tar::Header {
    let mut h = tar::Header::new_gnu();
    h.set_entry_type(tar::EntryType::new(kind));
    h.set_path("name").unwrap();
    h.set_mode(0o644);
    h.set_uid(0);
    h.set_gid(0);
    h.set_mtime(0);
    h.set_device_major(0).unwrap();
    h.set_device_minor(0).unwrap();
    h.set_size(size);
    h
}

fn sealed(mut h: tar::Header) -> Vec<u8> {
    h.set_cksum();
    h.as_bytes().to_vec()
}

fn member(kind: u8, content: &[u8]) -> Vec<u8> {
    let mut bytes = sealed(header(kind, content.len() as u64));
    bytes.extend_from_slice(content);
    while bytes.len() % 512 != 0 {
        bytes.push(0);
    }
    bytes
}

fn extended_sparse(size: u64) -> Vec<u8> {
    let mut h = header(b'S', size);
    h.as_gnu_mut().unwrap().set_is_extended(true);
    sealed(h)
}

const LAST: u64 = u64::MAX - 511;

fn permissive(data: &[u8]) -> bool {
    do_sums_fit(data, Limits::permissive())
}

#[test]
fn first_extension_header_overflows_nothing() {
    for kind in [b'L', b'K', b'x'] {
        let data = sealed(header(kind, LAST));
        assert!(permissive(&data));
        assert!(can_read_tar_core(&data, Limits::permissive()));
        let result = parse_tar_core_detailed(&data, Limits::permissive());
        assert_eq!(result.error.unwrap().kind, ParseErrorKind::Other);
    }
}

#[test]
fn later_extension_header_can_overflow() {
    let mut data = member(b'L', &[b'n'; 600]);
    data.extend(sealed(header(b'K', LAST)));
    assert!(!permissive(&data));
    assert!(!can_read_tar_core(&data, Limits::permissive()));
    assert!(can_read_tar_rs(&data));
    assert_eq!(parse_tar_rs(&data), vec![]);
}

#[test]
fn sum_of_2_to_the_64_overflows_and_less_does_not() {
    let mut data = member(b'L', &[b'n'; 512]);
    data.extend(sealed(header(b'K', LAST)));
    assert!(!permissive(&data));
    let mut data = member(b'L', &[b'n'; 511]);
    data.extend(sealed(header(b'K', LAST)));
    assert!(permissive(&data));
    assert_eq!(parse_tar_core(&data), vec![]);
}

#[test]
fn size_that_cannot_be_padded_is_rejected_before_the_sum() {
    let mut data = member(b'L', &[b'n'; 600]);
    data.extend(sealed(header(b'K', LAST + 1)));
    assert!(permissive(&data));
    assert_eq!(parse_tar_core(&data), vec![]);
}

#[test]
fn third_extension_header_behind_a_zero_block() {
    let mut data = member(b'L', &[b'n'; 300]);
    data.extend(vec![0; 512]);
    data.extend(member(b'x', &[b'n'; 300]));
    data.extend(sealed(header(b'K', LAST)));
    assert!(!permissive(&data));
}

#[test]
fn headers_that_end_the_chain() {
    let first = member(b'L', &[b'n'; 600]);
    let second = |h: tar::Header| {
        let mut data = first.clone();
        data.extend(sealed(h));
        data
    };
    assert!(permissive(&second(header(b'L', LAST))));
    assert!(permissive(&second(header(b'0', LAST))));
    assert!(permissive(&second(header(b'S', LAST))));
    assert!(permissive(&second(header(b'g', LAST))));
    let mut no_magic = header(b'K', LAST);
    no_magic.as_mut_bytes()[257] = b'U';
    assert!(permissive(&second(no_magic)));
    let mut wrong_checksum = second(header(b'K', LAST));
    wrong_checksum[512 + 1024] = b'z';
    assert!(permissive(&wrong_checksum));
    let mut ended = first.clone();
    ended.extend(vec![0; 1024]);
    ended.extend(sealed(header(b'K', LAST)));
    assert!(permissive(&ended));
    for data in [second(header(b'L', LAST)), wrong_checksum, ended] {
        assert!(can_read_tar_core(&data, Limits::permissive()));
        assert_eq!(parse_tar_core(&data), vec![]);
    }
}

#[test]
fn limits_end_the_chain() {
    let mut data = member(b'L', &[b'n'; 600]);
    data.extend(sealed(header(b'K', LAST)));
    let tight = [
        Limits { max_metadata_size: 599, ..Limits::permissive() },
        Limits { max_pending_entries: 0, ..Limits::permissive() },
        Limits { max_path_len: Some(599), ..Limits::permissive() },
    ];
    for limits in tight {
        assert!(do_sums_fit(&data, limits));
        assert!(parse_tar_core_detailed(&data, limits).error.is_some());
    }
    let loose = [
        Limits { max_metadata_size: 600, ..Limits::permissive() },
        Limits { max_pending_entries: 1, ..Limits::permissive() },
        Limits { max_path_len: Some(600), ..Limits::permissive() },
    ];
    for limits in loose {
        assert!(!do_sums_fit(&data, limits));
    }
    let mut closed = [b'n'; 600];
    closed[599] = 0;
    let mut data = member(b'L', &closed);
    data.extend(sealed(header(b'K', LAST)));
    assert!(!do_sums_fit(&data, Limits { max_path_len: Some(599), ..Limits::permissive() }));
}

#[test]
fn chain_in_the_content_of_a_file_is_not_met() {
    let mut chain = member(b'L', &[b'n'; 600]);
    chain.extend(sealed(header(b'K', LAST)));
    let mut data = member(b'0', &chain);
    data.extend(member(b'0', b"next"));
    data.extend(vec![0; 1024]);
    assert!(can_read_tar_core(&data, Limits::permissive()));
    assert_eq!(parse_tar_core(&data).len(), 2);
    assert_eq!(parse_tar_rs(&data), parse_tar_core(&data));
}

#[test]
fn extended_sparse_header_can_overflow() {
    let mut data = extended_sparse(u64::MAX - 1023);
    assert_eq!(find_overflow(&data), None);
    assert_eq!(parse_tar_rs(&data), vec![]);
    data.extend(vec![0; 512]);
    assert_eq!(find_overflow(&data), Some(0));
    assert!(!can_read_tar_rs(&data));
    assert!(can_read_tar_core(&data, Limits::permissive()));
}

#[test]
fn each_extension_block_counts() {
    let mut data = extended_sparse(u64::MAX - 2047);
    for _ in 0..2 {
        let mut block = vec![0; 512];
        block[504] = 1;
        data.extend(block);
    }
    assert_eq!(find_overflow(&data), None);
    data.extend(vec![0; 512]);
    assert_eq!(find_overflow(&data), Some(0));
}

#[test]
fn sparse_headers_that_overflow_nothing() {
    let rest = |mut data: Vec<u8>| {
        data.extend(vec![0; 512]);
        data
    };
    let plain = rest(sealed(header(b'S', u64::MAX - 1023)));
    let rejected = rest(extended_sparse(LAST));
    let mut not_gnu = header(b'S', u64::MAX - 1023);
    not_gnu.as_gnu_mut().unwrap().set_is_extended(true);
    not_gnu.as_mut_bytes()[257..265].copy_from_slice(b"ustar\x0000");
    let not_gnu = rest(sealed(not_gnu));
    for data in [plain, rejected, not_gnu] {
        assert_eq!(find_overflow(&data), None);
        assert_eq!(parse_tar_rs(&data), vec![]);
    }
}

fn listing(extended: bool, offset: &[u8; 12], len: &[u8; 12], real_size: &[u8; 12]) -> Vec<u8> {
    let mut h = header(b'S', 4);
    {
        let g = h.as_gnu_mut().unwrap();
        g.set_is_extended(extended);
        g.sparse[0].offset.copy_from_slice(offset);
        g.sparse[0].numbytes.copy_from_slice(len);
        g.realsize.copy_from_slice(real_size);
    }
    let mut data = sealed(h);
    if extended {
        data.extend(vec![0; 512]);
    }
    data.extend_from_slice(b"data");
    data.resize(data.len() + 508, 0);
    data
}

#[test]
fn overflow_behind_sparse_entries() {
    for extended in [false, true] {
        let mut data =
            listing(extended, b"00000001000\0", b"00000000004\0", b"00000001004\0");
        let start = data.len() as u64;
        let mut more = data.clone();
        more.extend(member(b'0', b"text"));
        let entries = parse_tar_rs(&more);
        assert_eq!(entries.len(), 2);
        assert_eq!(entries[1].content, b"text".to_vec());
        data.extend(extended_sparse(u64::MAX - start - 1023));
        data.extend(vec![0; 512]);
        assert_eq!(find_overflow(&data), Some(1));
    }
}

#[test]
fn sparse_entries_that_are_rejected_end_the_walk() {
    let rejected = [
        listing(false, b"0000000100z\0", b"00000000004\0", b"00000001004\0"),
        listing(false, b"00000001000\0", b"00000000005\0", b"00000001005\0"),
        listing(false, b"00000001000\0", b"00000000003\0", b"00000001003\0"),
        listing(true, b"00000001000\0", b"00000000004\0", b"00000001000\0"),
    ];
    for mut data in rejected {
        let start = data.len() as u64;
        data.extend(extended_sparse(u64::MAX - start - 1023));
        data.extend(vec![0; 512]);
        assert_eq!(find_overflow(&data), None);
        assert!(can_read_tar_rs(&data));
        assert_eq!(parse_tar_rs(&data), vec![]);
    }
}

#[test]
fn rejected_regions_come_before_extension_blocks() {
    let mut h = header(b'S', u64::MAX - 1023);
    {
        let g = h.as_gnu_mut().unwrap();
        g.set_is_extended(true);
        g.sparse[3].offset.copy_from_slice(b"zzzzzzzzzzz\0");
        g.sparse[3].numbytes.copy_from_slice(b"8\0\0\0\0\0\0\0\0\0\0\0");
    }
    let mut data = sealed(h);
    data.extend(vec![0; 512]);
    assert_eq!(find_overflow(&data), None);
    assert_eq!(parse_tar_rs(&data), vec![]);
}

#[test]
fn overflow_behind_other_entries() {
    let mut data = member(b'0', b"one");
    data.extend(member(b'L', b"long name\0"));
    data.extend(member(b'0', b"two"));
    data.extend(extended_sparse(u64::MAX - 4095 - 512));
    data.extend(vec![0; 512]);
    assert_eq!(data.len(), 4096);
    assert_eq!(find_overflow(&data), None);
    data.truncate(3072);
    data.extend(extended_sparse(u64::MAX - 4095));
    data.extend(vec![0; 512]);
    assert_eq!(find_overflow(&data), Some(2));
    assert!(!can_read_tar_rs(&data));
}

#[test]
fn overflow_behind_the_end_of_the_reading() {
    let mut data = member(b'0', b"one");
    let mut bad = header(b'0', 0);
    bad.as_mut_bytes()[100] = b'z';
    data.extend(sealed(bad));
    data.extend(extended_sparse(u64::MAX - 2559));
    data.extend(vec![0; 512]);
    assert_eq!(find_overflow(&data), Some(2));
    assert!(can_read_tar_rs(&data));
    let entries = parse_tar_rs(&data);
    assert_eq!(entries.len(), 1);
    assert_eq!(entries[0].content, b"one".to_vec());
}

#[test]
fn overflow_in_the_content_of_a_file_is_not_met() {
    let mut inner = extended_sparse(u64::MAX - 2047);
    inner.extend(vec![0; 512]);
    let mut data = member(b'0', &inner);
    data.extend(vec![0; 1024]);
    assert_eq!(find_overflow(&data), None);
    assert_eq!(parse_tar_rs(&data).len(), 1);
}

#[test]
fn size_record_can_overflow_at_an_extended_sparse_header() {
    let value = (u64::MAX - 2047).to_string();
    let mut data = member(b'x', format!("28 size={value}\n").as_bytes());
    assert_eq!(read_size_record(&data[512..541]), None);
    data = member(b'x', format!("29 size={value}\n").as_bytes());
    assert_eq!(read_size_record(&data[512..541]), Some(u64::MAX - 2047));
    let ordinary = {
        let mut d = data.clone();
        d.extend(member(b'0', b"text"));
        d
    };
    assert_eq!(find_overflow(&ordinary), None);
    assert_eq!(parse_tar_rs(&ordinary), vec![]);
    assert_eq!(parse_tar_core(&ordinary), vec![]);
    data.extend(extended_sparse(0));
    data.extend(vec![0; 512]);
    assert_eq!(find_overflow(&data), Some(0));
}

#[test]
fn size_records_as_the_tar_crate_reads_them() {
    let contents: [&[u8]; 18] = [
        b"",
        b"11 size=42\n",
        b"11 size=42",
        b"12 size=+42\n",
        b"12 size=-42\n",
        b"10 size=4\nx",
        b"10 size=4\n10 size=5\n",
        b"9 ab=cd\n\n11 size=42\n",
        b"9 ab=cde\n11 size=42\n",
        b"8 ab=cd\n11 size=42\n",
        b"11 size=4x\n",
        b"+11 size=4\n",
        b"10 sizes=4\n11 size=42\n",
        b"28 size=18446744073709551615\n",
        b"29 size=18446744073709551615\n",
        b"29 size=18446744073709551616\n",
        b"29 size=18446744073709549568\n",
        b"nonsense\n11 size=42\n",
    ];
    for content in contents {
        let mut data = member(b'x', content);
        data.extend(member(b'0', b"1234567"));
        let mut archive = tar::Archive::new(&data[..]);
        let size = match archive.entries().unwrap().next().unwrap() {
            Ok(entry) => entry.size(),
            Err(_) => u64::MAX,
        };
        assert_eq!(read_size_record(content).unwrap_or(7), size, "{content:?}");
    }
}

#[test]
fn first_size_record_before_a_malformed_one_counts() {
    let record = |key: &[u8], value: &[u8]| Some((key.to_vec(), value.to_vec()));
    assert_eq!(find_size_record(&vec![]), None);
    assert_eq!(find_size_record(&vec![record(b"size", b"12"), record(b"size", b"13")]), Some(12));
    assert_eq!(find_size_record(&vec![record(b"path", b"1"), record(b"size", b"+13")]), Some(13));
    assert_eq!(find_size_record(&vec![None, record(b"size", b"13")]), None);
    assert_eq!(find_size_record(&vec![record(b"size", b"x"), record(b"size", b"13")]), None);
    assert_eq!(find_size_record(&vec![record(b"size", b"")]), None);
    assert_eq!(find_size_record(&vec![record(b"size", b"+")]), None);
    let max = find_size_record(&vec![record(b"size", b"18446744073709551615")]);
    assert_eq!(max, Some(u64::MAX));
    assert_eq!(find_size_record(&vec![record(b"size", b"18446744073709551616")]), None);
}

#[test]
fn sizes_are_read_as_tar_core_reads_them() {
    let texts: [&[u8]; 24] = [
        b"",
        b" ",
        b"\t \x0b\x0c\r\n",
        b"0",
        b"00000000017",
        b"   17",
        b"17   ",
        b"\t17\x0b ",
        b"+17",
        b"+",
        b"++17",
        b"-1",
        b"1 7",
        b"18",
        b"x17",
        b"\x0817",
        b"17\xc2\xa0",
        b"17\xff",
        b"\xe2\x80\x8017",
        b"777777777777",
        b"\x80\0\0\0\0\0\0\0\0\0\x01\x02",
        b"\x80\0\0\0\xff\xff\xff\xff\xff\xff\xff\xff",
        b"\xff\xff\xff\xff\xff\xff\xff\xff\xff\xff\xff\xff",
        b"\xa5\x01\x02\x03\x04\x05\x06\x07\x08\x09\x0a\x0b",
    ];
    for text in texts {
        let mut h = header(b'0', 0);
        h.as_mut_bytes()[124..136].fill(0);
        h.as_mut_bytes()[124..124 + text.len()].copy_from_slice(text);
        let core = tar_core::Header::from_bytes(h.as_bytes());
        assert_eq!(read_core_size(h.as_bytes(), 0), core.entry_size().ok(), "{text:?}");
    }
}

#[test]
fn sizes_are_read_as_tar_core_reads_them_byte_by_byte() {
    for b in 0..=255u8 {
        for text in [vec![b], vec![b, b'1', b'7'], vec![b'1', b'7', b], vec![b'1', b, b'7']] {
            let mut h = header(b'0', 0);
            h.as_mut_bytes()[124..136].fill(0);
            h.as_mut_bytes()[124..124 + text.len()].copy_from_slice(&text);
            let core = tar_core::Header::from_bytes(h.as_bytes());
            assert_eq!(read_core_size(h.as_bytes(), 0), core.entry_size().ok(), "{text:?}");
        }
    }
}

#[test]
fn checksums_hold_where_tar_core_accepts_them() {
    let good = sealed(header(b'0', 5));
    assert!(does_core_checksum_hold(&good, 0));
    let digits = good[149..155].to_vec();
    for before in 0..=255u8 {
        for after in [0, b' ', b'\t', 0x0b, b'1', b'x', 0x80, 0xff] {
            let mut block = good.clone();
            block[148] = before;
            block[149..155].copy_from_slice(&digits);
            block[155] = after;
            let core = tar_core::Header::from_bytes(block[..].try_into().unwrap());
            assert_eq!(does_core_checksum_hold(&block, 0), core.verify_checksum().is_ok());
        }
    }
    let mut bad = good.clone();
    bad[0] = b'm';
    assert!(!does_core_checksum_hold(&bad, 0));
}

fn set_checksum(block: &mut [u8], before: &[u8], after: &[u8]) {
    let digits = block[149..155].to_vec();
    let field = [before, &digits, after].concat();
    block[148..156].copy_from_slice(&field);
}

#[test]
fn checksum_that_tar_core_rejects_ends_the_chain() {
    let mut data = member(b'L', &[b'n'; 512]);
    data.extend(sealed(header(b'K', LAST)));
    assert!(!permissive(&data));
    set_checksum(&mut data[1024..], b"\xff", b"\0");
    assert!(permissive(&data));
    assert!(can_read_tar_core(&data, Limits::permissive()));
    assert_eq!(parse_tar_core(&data), vec![]);
    set_checksum(&mut data[1024..], b" ", b" ");
    assert!(!permissive(&data));
}

#[test]
fn blank_size_that_the_tar_crate_rejects_ends_the_walk() {
    let mut blank = header(b'L', 0);
    blank.as_mut_bytes()[124..136].fill(0);
    let mut data = sealed(blank);
    data.extend(extended_sparse(u64::MAX - 1535));
    data.extend(vec![0; 512]);
    assert_eq!(find_overflow(&data), None);
    assert!(can_read_tar_rs(&data));
    assert_eq!(parse_tar_rs(&data), vec![]);
    let mut data = sealed(header(b'L', 0));
    data.extend(extended_sparse(u64::MAX - 1535));
    data.extend(vec![0; 512]);
    assert_eq!(find_overflow(&data), Some(0));
}

#[test]
fn checksums_count_as_the_tar_crate_reads_them() {
    let mut data = extended_sparse(u64::MAX - 1023);
    data.extend(vec![0; 512]);
    for (before, after) in [(&b" "[..], &b"\0"[..]), (b"\xc2\xa0", b""), (b"", b"\x0b\r")] {
        let mut accepted = data.clone();
        set_checksum(&mut accepted, before, after);
        assert_eq!(find_overflow(&accepted), Some(0));
    }
    for (before, after) in [(&b"\xff"[..], &b"\0"[..]), (b"x", b"\0"), (b"1", b"\0")] {
        let mut rejected = data.clone();
        set_checksum(&mut rejected, before, after);
        assert_eq!(find_overflow(&rejected), None);
        assert_eq!(parse_tar_rs(&rejected), vec![]);
    }
}

#[test]
fn kinds_of_headers() {
    let ustar = {
        let mut h = tar::Header::new_ustar();
        h.set_entry_type(tar::EntryType::XHeader);
        h
    };
    assert!(is_extension_header(ustar.as_bytes(), 0));
    assert!(!is_gnu_header(ustar.as_bytes(), 0));
    assert!(is_gnu_header(header(b'0', 0).as_bytes(), 0));
    for kind in [b'L', b'K', b'x'] {
        assert!(is_extension_header(header(kind, 0).as_bytes(), 0));
        let mut v7 = tar::Header::new_old();
        v7.set_entry_type(tar::EntryType::new(kind));
        assert!(!is_extension_header(v7.as_bytes(), 0));
    }
    for kind in [b'0', b'S', b'g'] {
        assert!(!is_extension_header(header(kind, 0).as_bytes(), 0));
    }
}

#[test]
fn data_without_large_sizes_or_extended_sparse_headers_can_be_read() {
    let mut seed: u32 = 3;
    for round in 0..60usize {
        let mut data = member(b'L', b"long name\0");
        data.extend(member(b'x', b"11 path=ab\n"));
        data.extend(member(b'0', b"text"));
        for _ in 0..round {
            seed = seed.wrapping_mul(1664525).wrapping_add(1013904223);
            let at = (seed >> 8) as usize % data.len();
            data[at] = (seed >> 4) as u8 & 0x7f;
        }
        assert!(can_read_tar_core(&data, Limits::permissive()));
        assert!(can_read_tar_rs(&data));
    }
}
