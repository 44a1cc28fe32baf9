use tar_differential::fixup::{fixup_checksums, padded_size, HEADER_SIZE};

fn header(name: &str, size: u64) -> Vec<u8> {
    let mut h = tar::Header::new_ustar();
    h.set_path(name).unwrap();
    h.set_size(size);
    h.set_mode(0o644);
    h.set_uid(1);
    h.set_gid(2);
    h.set_cksum();
    h.as_bytes().to_vec()
}

#[test]
fn block_size_is_that_of_the_parser() {
    assert_eq!(HEADER_SIZE, tar_core::HEADER_SIZE);
}

#[test]
fn padding_to_whole_blocks() {
    assert_eq!(padded_size(0), Some(0));
    assert_eq!(padded_size(1), Some(512));
    assert_eq!(padded_size(512), Some(512));
    assert_eq!(padded_size(513), Some(1024));
    assert_eq!(padded_size(u64::MAX - 511), Some(u64::MAX - 511));
    assert_eq!(padded_size(u64::MAX - 510), None);
}

#[test]
fn damaged_checksums_are_repaired() {
    let mut good = header("a.txt", 600);
    good.extend_from_slice(&[0x61; 600]);
    good.extend_from_slice(&[0; 424]);
    good.extend_from_slice(&header("b.txt", 0));
    good.extend_from_slice(&[0; 1024]);
    let mut data = good.clone();
    for i in 148..156 {
        data[i] = 0xee;
        data[512 + 1024 + i] = 0x11;
    }
    assert_ne!(data, good);
    fixup_checksums(&mut data);
    assert_eq!(data, good);
}

#[test]
fn repairing_twice_changes_nothing() {
    let mut data: Vec<u8> = (0..3000u32).map(|i| (i * 7 % 251) as u8).collect();
    fixup_checksums(&mut data);
    let once = data.clone();
    fixup_checksums(&mut data);
    assert_eq!(data, once);
}

#[test]
fn only_checksum_fields_change() {
    let input: Vec<u8> = (0..2048u32).map(|i| (i * 13 % 255) as u8).collect();
    let mut data = input.clone();
    fixup_checksums(&mut data);
    assert_eq!(data.len(), input.len());
    for j in 0..data.len() {
        if !(148..156).contains(&(j % 512)) {
            assert_eq!(data[j], input[j]);
        }
    }
    let h = tar_core::Header::from_bytes(data[..512].try_into().unwrap());
    assert!(h.verify_checksum().is_ok());
}

#[test]
fn zero_blocks_and_short_rests_stay() {
    let mut data = vec![0u8; 1024];
    data.extend_from_slice(&[5; 511]);
    let before = data.clone();
    fixup_checksums(&mut data);
    assert_eq!(data, before);
    let mut empty: [u8; 0] = [];
    fixup_checksums(&mut empty);
    let mut short = [9u8; 511];
    fixup_checksums(&mut short);
    assert_eq!(short, [9u8; 511]);
}

#[test]
fn content_beyond_the_data_is_not_stepped_over() {
    let mut data = header("big", 100_000);
    data.extend_from_slice(&[1; 512]);
    fixup_checksums(&mut data);
    let second = tar_core::Header::from_bytes(data[512..1024].try_into().unwrap());
    assert!(second.verify_checksum().is_ok());
}

#[test]
fn content_within_the_data_is_stepped_over() {
    let mut data = header("small", 512);
    data.extend_from_slice(&[1; 512]);
    fixup_checksums(&mut data);
    assert_eq!(&data[512..], &[1u8; 512][..]);
}

#[test]
fn size_field_without_value_skips_nothing() {
    let mut data = header("odd", 512);
    data[124] = 0x39;
    data.extend_from_slice(&[1; 512]);
    fixup_checksums(&mut data);
    assert_eq!(&data[512 + 148..512 + 156], b"0001370\0");
}
