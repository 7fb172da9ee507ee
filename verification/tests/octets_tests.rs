use net_util::Octets;

#[test]
fn u64_octets_big_endian() {
    assert_eq!(
        0x0102030405060708u64.octets(),
        [1, 2, 3, 4, 5, 6, 7, 8]
    );
    assert_eq!(0xFFu64.octets(), [0, 0, 0, 0, 0, 0, 0, 0xFF]);
}

#[test]
fn u32_octets_big_endian() {
    assert_eq!(0x01020304u32.octets(), [1, 2, 3, 4]);
    assert_eq!(0xFF000000u32.octets(), [0xFF, 0, 0, 0]);
}

#[test]
fn u16_octets_big_endian() {
    assert_eq!(0x0102u16.octets(), [1, 2]);
    assert_eq!(0x00FFu16.octets(), [0, 0xFF]);
}

#[test]
fn u8_octets_identity() {
    assert_eq!(0x7Fu8.octets(), [0x7F]);
}
