use cvvc::shared::helpers::{datetime_to_bytes, u16_from_be_bytes_unchecked, u32_from_be_bytes_unchecked, u64_from_be_bytes_unchecked};

#[test]
fn reads_big_endian_u32() {
    let data = [9u8, 0x12, 0x34, 0x56, 0x78, 7];
    assert_eq!(u32_from_be_bytes_unchecked(&data, 1), 0x1234_5678);
    assert_eq!(u32_from_be_bytes_unchecked(&[0xff, 0xff, 0xff, 0xff], 0), u32::MAX);
}

#[test]
fn reads_big_endian_u16() {
    let data = [0xab, 0xcd, 0xef];
    assert_eq!(u16_from_be_bytes_unchecked(&data, 0), 0xabcd);
    assert_eq!(u16_from_be_bytes_unchecked(&data, 1), 0xcdef);
}

#[test]
fn reads_big_endian_u64() {
    let data = [1u8, 2, 3, 4, 5, 6, 7, 8];
    assert_eq!(u64_from_be_bytes_unchecked(&data, 0), 0x0102_0304_0506_0708);
}

#[test]
fn timestamp_bytes() {
    assert_eq!(datetime_to_bytes(0x1234_5678, 0x9abc_def0), vec![0x12, 0x34, 0x56, 0x78, 0x9a, 0xbc, 0xde, 0xf0]);
    // whole seconds are truncated to their low 32 bits
    assert_eq!(datetime_to_bytes(0x1_0000_0001, 5), vec![0, 0, 0, 1, 0, 0, 0, 5]);
    assert_eq!(datetime_to_bytes(-1, 0), vec![0xff, 0xff, 0xff, 0xff, 0, 0, 0, 0]);
}

#[test]
fn timestamp_bytes_from_chrono() {
    let dt = chrono::DateTime::from_timestamp(1_700_000_000, 123_456_789).unwrap();
    let bytes = datetime_to_bytes(dt.timestamp(), dt.timestamp_subsec_nanos());
    let mut expected = (1_700_000_000u32).to_be_bytes().to_vec();
    expected.extend_from_slice(&123_456_789u32.to_be_bytes());
    assert_eq!(bytes, expected);
}
