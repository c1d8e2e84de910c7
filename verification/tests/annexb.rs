use naqix_remote_support::annexb::{count_keyframes, is_splittable, to_access_units, AccessUnit};

const SPS: [u8; 7] = [0, 0, 0, 1, 0x67, 0x42, 0x00];
const PPS: [u8; 6] = [0, 0, 0, 1, 0x68, 0xce];
// IDR slice, first_mb_in_slice = 0 (first payload bit is 1)
const IDR_FIRST: [u8; 6] = [0, 0, 1, 0x65, 0x88, 0x84];
// IDR slice, first_mb_in_slice = 1 (bits 010)
const IDR_SECOND: [u8; 6] = [0, 0, 1, 0x65, 0x40, 0x21];
// non-IDR slice, first_mb_in_slice = 0
const P_FIRST: [u8; 6] = [0, 0, 1, 0x41, 0x9a, 0x02];
// non-IDR slice, first_mb_in_slice = 2 (bits 011)
const P_SECOND: [u8; 6] = [0, 0, 1, 0x41, 0x60, 0x11];

fn stream(parts: &[&[u8]]) -> Vec<u8> {
    let mut v = Vec::new();
    for p in parts {
        v.extend_from_slice(p);
    }
    v
}

fn units_of(buf: &[u8]) -> Vec<AccessUnit> {
    assert!(is_splittable(buf));
    to_access_units(buf)
}

#[test]
fn parameter_sets_stay_with_the_first_picture() {
    let buf = stream(&[&SPS, &PPS, &IDR_FIRST, &P_FIRST]);
    let units = units_of(&buf);
    assert_eq!(units.len(), 2);
    assert_eq!(&units[0].data[..], &stream(&[&SPS, &PPS, &IDR_FIRST])[..]);
    assert!(units[0].key);
    assert_eq!(&units[1].data[..], &P_FIRST[..]);
    assert!(!units[1].key);
}

#[test]
fn multi_slice_pictures_stay_whole() {
    let buf = stream(&[&SPS, &PPS, &IDR_FIRST, &IDR_SECOND, &P_FIRST, &P_SECOND, &P_FIRST]);
    let units = units_of(&buf);
    assert_eq!(units.len(), 3);
    assert_eq!(&units[0].data[..], &stream(&[&SPS, &PPS, &IDR_FIRST, &IDR_SECOND])[..]);
    assert_eq!(&units[1].data[..], &stream(&[&P_FIRST, &P_SECOND])[..]);
    assert_eq!(&units[2].data[..], &P_FIRST[..]);
    assert_eq!(count_keyframes(&units), 1);
}

#[test]
fn units_tile_the_stream_from_the_first_start_code() {
    let junk: [u8; 3] = [0x12, 0x34, 0x56];
    let buf = stream(&[&junk, &SPS, &IDR_FIRST, &P_FIRST, &P_SECOND, &IDR_FIRST]);
    let units = units_of(&buf);
    let mut joined = Vec::new();
    for u in &units {
        joined.extend_from_slice(&u.data);
    }
    assert_eq!(joined, buf[3..].to_vec());
    let keys: Vec<bool> = units.iter().map(|u| u.key).collect();
    assert_eq!(keys, vec![true, false, true]);
}

#[test]
fn every_later_unit_begins_a_picture() {
    let buf = stream(&[&IDR_FIRST, &P_FIRST, &P_SECOND, &P_FIRST, &IDR_FIRST]);
    let units = units_of(&buf);
    assert_eq!(units.len(), 4);
    for u in &units[1..] {
        assert_eq!(u.data[0..3], [0, 0, 1]);
        assert!(u.data[4] & 0x80 != 0);
    }
}

#[test]
fn trailing_parameter_sets_attach_to_the_previous_picture() {
    let buf = stream(&[&IDR_FIRST, &SPS, &PPS, &IDR_FIRST]);
    let units = units_of(&buf);
    assert_eq!(units.len(), 2);
    assert_eq!(&units[0].data[..], &stream(&[&IDR_FIRST, &SPS, &PPS])[..]);
    assert_eq!(&units[1].data[..], &IDR_FIRST[..]);
}

#[test]
fn no_start_code_no_units() {
    let buf = [1u8, 2, 3, 4, 5, 0, 0, 2];
    let units = units_of(&buf);
    assert!(units.is_empty());
    assert!(to_access_units(&[]).is_empty());
}

#[test]
fn parameter_sets_alone_make_one_unit() {
    let buf = stream(&[&SPS, &PPS]);
    let units = units_of(&buf);
    assert_eq!(units.len(), 1);
    assert!(!units[0].key);
    assert_eq!(&units[0].data[..], &buf[..]);
}

#[test]
fn four_byte_start_code_after_a_zero_byte() {
    // 00 00 00 01 is one start code, not 00 followed by 00 00 01.
    let buf = [0u8, 0, 0, 1, 0x65, 0x88, 0, 0, 0, 1, 0x41, 0x80];
    let units = units_of(&buf);
    assert_eq!(units.len(), 2);
    assert_eq!(&units[0].data[..], &buf[0..6]);
    assert_eq!(&units[1].data[..], &buf[6..]);
    assert!(units[0].key);
}

#[test]
fn a_start_code_with_nothing_after_cannot_be_split() {
    let buf = stream(&[&IDR_FIRST, &[0, 0, 1]]);
    assert!(!is_splittable(&buf));
}

#[test]
fn an_unreadable_second_slice_cannot_be_split() {
    // the second slice's payload is empty, so its first_mb_in_slice is 32+ zero bits
    let buf = stream(&[&IDR_FIRST, &[0, 0, 1, 0x41]]);
    assert!(!is_splittable(&buf));
    // four zero payload bytes are just as unreadable
    let buf = stream(&[&IDR_FIRST, &[0, 0, 1, 0x41, 0, 0, 0, 0, 0x80]]);
    assert!(!is_splittable(&buf));
}

#[test]
fn the_first_slice_is_never_read() {
    // nothing precedes it, so whether its header reads is not asked
    let buf = [0u8, 0, 1, 0x65];
    assert!(is_splittable(&buf));
    let units = to_access_units(&buf);
    assert_eq!(units.len(), 1);
    assert!(units[0].key);
}

#[test]
fn long_exp_golomb_prefix_is_read() {
    // 22 zero bits then a one: first_mb_in_slice is large, not a new picture
    let second = [0u8, 0, 1, 0x41, 0, 0, 0x02, 0xff, 0xff, 0xff];
    let buf = stream(&[&IDR_FIRST, &second]);
    assert!(is_splittable(&buf));
    let units = to_access_units(&buf);
    assert_eq!(units.len(), 1);
}

#[test]
fn count_keyframes_counts_idr_units() {
    let buf = stream(&[&IDR_FIRST, &P_FIRST, &IDR_FIRST, &IDR_FIRST, &P_FIRST]);
    let units = units_of(&buf);
    assert_eq!(units.len(), 5);
    assert_eq!(count_keyframes(&units), 3);
    assert_eq!(count_keyframes(&[]), 0);
}

#[test]
fn the_stream_loops_over_its_units() {
    assert_eq!(naqix_remote_support::annexb::next_unit(0, 3), 1);
    assert_eq!(naqix_remote_support::annexb::next_unit(2, 3), 0);
    assert_eq!(naqix_remote_support::annexb::next_unit(0, 1), 0);
}
