use net_util::checksum;
use net_util::finalize_checksum;
use net_util::ipv4_checksum;
use net_util::ipv6_checksum;
use net_util::sum_be_words;
use net_util::Ipv4Addr;
use net_util::Ipv6Addr;

#[test]
fn all_zero_data_checksums_to_all_ones() {
    assert_eq!(checksum(&[0u8; 20], 5), 0xFFFF);
}

#[test]
fn rfc1071_example_vector() {
    // The worked example of RFC 1071: words 0001 f203 f4f5 f6f7 sum to
    // 0x2ddf2 after folding, whose complement is 0x220d.
    let data = [0x00, 0x01, 0xF2, 0x03, 0xF4, 0xF5, 0xF6, 0xF7];
    assert_eq!(checksum(&data, data.len() / 2), 0x220D);
}

#[test]
fn finalize_folds_carries_and_complements() {
    assert_eq!(finalize_checksum(0), 0xFFFF);
    assert_eq!(finalize_checksum(0x2DDF0), 0x220D);
    // A value whose first fold overflows 16 bits again.
    assert_eq!(finalize_checksum(0xFFFF_FFFF), 0);
    // Idempotence of the fold: a value already in 16 bits only gets
    // complemented.
    assert_eq!(finalize_checksum(0x1234), !0x1234u16);
}

#[test]
fn round_trip_even_length() {
    let mut data = [0x00, 0x01, 0xF2, 0x03, 0xF4, 0xF5, 0xF6, 0xF7];
    let skip = 2;
    let c = checksum(&data, skip);
    data[2 * skip] = (c >> 8) as u8;
    data[2 * skip + 1] = (c & 0xFF) as u8;
    // With the checksum in place the one's-complement sum of the whole
    // buffer folds to 0xFFFF, so the checksum of the stamped buffer is 0.
    assert_eq!(finalize_checksum(sum_be_words(&data, data.len() / 2)), 0);
    assert_eq!(checksum(&data, data.len() / 2), 0);
}

#[test]
fn round_trip_odd_length() {
    let mut data = [0x11, 0x22, 0x33, 0x44, 0x55, 0x66, 0x77];
    let skip = 1;
    let c = checksum(&data, skip);
    data[2 * skip] = (c >> 8) as u8;
    data[2 * skip + 1] = (c & 0xFF) as u8;
    assert_eq!(checksum(&data, data.len() / 2), 0);
}

#[test]
fn odd_tail_contributes_high_byte() {
    // A single unpaired byte counts as `byte << 8`.
    assert_eq!(sum_be_words(&[0xAB], 0), 0xAB00);
    assert_eq!(checksum(&[0xAB], 0), 0x54FF);
    assert_eq!(sum_be_words(&[0x01, 0x02, 0x03], 1), 0x0102 + 0x0300);
    assert_eq!(checksum(&[0x01, 0x02, 0x03], 1), 0xFBFD);
    let mut long = [0u8; 21];
    long[20] = 0x7F;
    assert_eq!(sum_be_words(&long, 10), 0x7F00);
    assert_eq!(checksum(&long, 10), 0x80FF);
    // Padding the odd byte with a zero changes nothing.
    assert_eq!(checksum(&[0xAB], 0), checksum(&[0xAB, 0x00], 1));
}

#[test]
fn skipword_substitutes_zero_without_shortening() {
    // Excluding a word is the same as summing a buffer that holds zeros
    // there.
    let with_field = [0xDE, 0xAD, 0x12, 0x34];
    let zeroed = [0x00, 0x00, 0x12, 0x34];
    assert_eq!(checksum(&with_field, 0), checksum(&zeroed, 2));
}

#[test]
fn ipv4_pseudo_header_matches_manual_sum() {
    // Manual computation: c0a8 + 0001 + 0a00 + 0002 (addresses) + 6
    // (protocol) + 11 (length) + 0001 + 0203 + 0607 (data, word 2 excluded)
    // + 0809 + 0a00 (payload with odd tail) = 0xe4d0; complement 0x1b2f.
    let data = [0x00, 0x01, 0x02, 0x03, 0x00, 0x00, 0x06, 0x07];
    let extra = [0x08, 0x09, 0x0A];
    let r = ipv4_checksum(
        &data,
        2,
        &extra,
        Ipv4Addr::new(192, 168, 0, 1),
        Ipv4Addr::new(10, 0, 0, 2),
        6,
    );
    assert_eq!(r, 0x1B2F);
}

#[test]
fn ipv6_pseudo_header_matches_manual_sum() {
    // Manual computation: (2001 + 0db8 + 0001) + (fe80 + 0002) (segments)
    // + 17 (protocol) + 11 (length) + data and payload words as in the IPv4
    // case = 0x1466c, folded 0x466d, complement 0xb992.
    let data = [0x00, 0x01, 0x02, 0x03, 0x00, 0x00, 0x06, 0x07];
    let extra = [0x08, 0x09, 0x0A];
    let r = ipv6_checksum(
        &data,
        2,
        &extra,
        Ipv6Addr::new(0x2001, 0x0DB8, 0, 0, 0, 0, 0, 1),
        Ipv6Addr::new(0xFE80, 0, 0, 0, 0, 0, 0, 2),
        17,
    );
    assert_eq!(r, 0xB992);
}

#[test]
fn empty_buffers_checksum_to_all_ones() {
    assert_eq!(checksum(&[], 0), 0xFFFF);
    assert_eq!(
        ipv4_checksum(
            &[],
            0,
            &[],
            Ipv4Addr::new(0, 0, 0, 0),
            Ipv4Addr::new(0, 0, 0, 0),
            0,
        ),
        0xFFFF
    );
}
