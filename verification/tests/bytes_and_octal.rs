use std::borrow::Cow;
use tar_differential::bytes::{
    bytes_equal, is_all_zero, owned_bytes, starts_with, truncate_at_nul,
};
use tar_differential::octal::{encode_checksum, parse_octal_simple};

#[test]
fn truncation_cuts_at_first_nul() {
    assert_eq!(truncate_at_nul(b"abc\0def\0".to_vec()), b"abc".to_vec());
    assert_eq!(truncate_at_nul(b"\0abc".to_vec()), b"".to_vec());
    assert_eq!(truncate_at_nul(b"".to_vec()), b"".to_vec());
    assert_eq!(truncate_at_nul(b"abc".to_vec()), b"abc".to_vec());
}

#[test]
fn truncating_twice_changes_nothing() {
    let once = truncate_at_nul(b"dir/name\0rest".to_vec());
    assert_eq!(once, b"dir/name".to_vec());
    assert_eq!(truncate_at_nul(once.clone()), once);
}

#[test]
fn byte_string_helpers() {
    assert!(bytes_equal(b"abc", b"abc"));
    assert!(!bytes_equal(b"abc", b"abd"));
    assert!(!bytes_equal(b"abc", b"ab"));
    assert!(starts_with(b"SCHILY.xattr.user", b"SCHILY."));
    assert!(!starts_with(b"SCH", b"SCHILY."));
    assert!(!starts_with(b"schily.", b"SCHILY."));
    assert!(is_all_zero(&[0; 9]));
    assert!(is_all_zero(&[]));
    assert!(!is_all_zero(&[0, 0, 1]));
    assert_eq!(owned_bytes(Cow::Borrowed(b"xy")), b"xy".to_vec());
    assert_eq!(owned_bytes(Cow::Owned(vec![7, 8])), vec![7, 8]);
}

#[test]
fn octal_fields() {
    assert_eq!(parse_octal_simple(b"00000000017\0"), Some(15));
    assert_eq!(parse_octal_simple(b"   644 \0"), Some(0o644));
    assert_eq!(parse_octal_simple(b"17 99"), Some(15));
    assert_eq!(parse_octal_simple(b"777777777777"), Some(0o777777777777));
    assert_eq!(parse_octal_simple(b"+17\0"), Some(15));
}

#[test]
fn octal_fields_without_text_are_zero() {
    assert_eq!(parse_octal_simple(b""), Some(0));
    assert_eq!(parse_octal_simple(b"            "), Some(0));
    assert_eq!(parse_octal_simple(&[0; 12]), Some(0));
    assert_eq!(parse_octal_simple(b"  \x00777"), Some(0));
}

#[test]
fn octal_fields_that_are_no_numbers() {
    assert_eq!(parse_octal_simple(b"8"), None);
    assert_eq!(parse_octal_simple(b"12a"), None);
    assert_eq!(parse_octal_simple(b"+"), None);
    assert_eq!(parse_octal_simple(b"-1"), None);
    assert_eq!(parse_octal_simple(b"++1"), None);
    assert_eq!(parse_octal_simple(b"1\xff"), None);
    assert_eq!(parse_octal_simple(&[0x80, 0, 0, 0, 0, 0, 0, 0, 0, 0, 0, 9]), None);
}

#[test]
fn octal_fields_at_the_edge_of_64_bits() {
    assert_eq!(parse_octal_simple(b"1777777777777777777777"), Some(u64::MAX));
    assert_eq!(parse_octal_simple(b"2000000000000000000000"), None);
    assert_eq!(parse_octal_simple(b"0001777777777777777777777"), Some(u64::MAX));
    assert_eq!(parse_octal_simple(b"7777777777777777777777777"), None);
}

#[test]
fn encoded_checksums_read_back() {
    assert_eq!(&encode_checksum(0), b"0000000\0");
    assert_eq!(&encode_checksum(5417), b"0012451\0");
    assert_eq!(&encode_checksum(130560), b"0377000\0");
    let mut value: u64 = 0;
    while value < 0o10000000 {
        assert_eq!(parse_octal_simple(&encode_checksum(value)), Some(value));
        value += 12345;
    }
}
