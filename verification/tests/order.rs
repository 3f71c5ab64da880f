use mzsocket::order::be_array;
use mzsocket::order::be_number;
use mzsocket::order::host_array;
use mzsocket::order::host_is_little;
use mzsocket::order::host_number;
use mzsocket::order::htonl;
use mzsocket::order::htons;
use mzsocket::order::le_array;
use mzsocket::order::le_number;

#[test]
fn host_order_is_that_of_the_machine() {
    assert_eq!(host_is_little(), u16::from_ne_bytes([1, 0]) == 1);
    assert_eq!(host_is_little(), 1u16.to_le() == 1);
}

#[test]
fn big_endian_bytes() {
    assert_eq!(be_array::<2>(0x1234), [0x12, 0x34]);
    assert_eq!(be_array::<4>(0x7f000001), [0x7f, 0, 0, 1]);
    assert_eq!(be_array::<4>(0x01020304), 0x01020304u32.to_be_bytes());
    assert_eq!(
        be_array::<16>(0x000102030405060708090a0b0c0d0e0f),
        [0, 1, 2, 3, 4, 5, 6, 7, 8, 9, 10, 11, 12, 13, 14, 15]
    );
    assert_eq!(be_array::<16>(u128::MAX), [0xff; 16]);
    assert_eq!(be_array::<0>(7), []);
}

#[test]
fn bytes_beyond_the_width_are_dropped() {
    assert_eq!(be_array::<2>(0x123456), [0x34, 0x56]);
    assert_eq!(le_array::<2>(0x123456), [0x56, 0x34]);
}

#[test]
fn little_endian_bytes() {
    assert_eq!(le_array::<2>(0x1234), [0x34, 0x12]);
    assert_eq!(le_array::<4>(0x01020304), 0x01020304u32.to_le_bytes());
    assert_eq!(le_array::<8>(0x0102030405060708), 0x0102030405060708u64.to_le_bytes());
}

#[test]
fn host_bytes_are_those_of_memory() {
    assert_eq!(host_array::<2>(0x1234), 0x1234u16.to_ne_bytes());
    assert_eq!(host_array::<4>(0x01020304), 0x01020304u32.to_ne_bytes());
    assert_eq!(host_array::<8>(0x0102030405060708), 0x0102030405060708u64.to_ne_bytes());
    assert_eq!(host_array::<16>(1 << 100), (1u128 << 100).to_ne_bytes());
}

#[test]
fn numbers_read_back() {
    assert_eq!(be_number::<2>(&[0x12, 0x34]), 0x1234);
    assert_eq!(le_number::<2>(&[0x12, 0x34]), 0x3412);
    assert_eq!(be_number::<16>(&[0xff; 16]), u128::MAX);
    assert_eq!(le_number::<16>(&[0xff; 16]), u128::MAX);
    assert_eq!(be_number::<0>(&[]), 0);
    assert_eq!(host_number::<4>(&[1, 2, 3, 4]), u32::from_ne_bytes([1, 2, 3, 4]) as u128);
    assert_eq!(host_number::<8>(&host_array::<8>(0xdead_beef_0000_0001)), 0xdead_beef_0000_0001);
}

#[test]
fn host_to_network() {
    assert_eq!(htons(0x1234), 0x1234u16.to_be());
    assert_eq!(htons(80), 80u16.to_be());
    assert_eq!(htons(0), 0);
    assert_eq!(htons(0xffff), 0xffff);
    assert_eq!(htonl(0x7f000001), 0x7f000001u32.to_be());
    assert_eq!(htonl(0x01020304).to_ne_bytes(), [1, 2, 3, 4]);
    assert_eq!(htons(0x0102).to_ne_bytes(), [1, 2]);
}
