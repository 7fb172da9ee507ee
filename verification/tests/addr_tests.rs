use net_util::MacAddr;
use net_util::ParseMacAddrErr;

#[test]
fn mac_addr_from_str() {
    assert_eq!(
        MacAddr::from_str("00:00:00:00:00:00"),
        Ok(MacAddr::new(0, 0, 0, 0, 0, 0))
    );
    assert_eq!(
        MacAddr::from_str("ff:ff:ff:ff:ff:ff"),
        Ok(MacAddr::new(0xFF, 0xFF, 0xFF, 0xFF, 0xFF, 0xFF))
    );
    assert_eq!(
        MacAddr::from_str("12:34:56:78:90:ab"),
        Ok(MacAddr::new(0x12, 0x34, 0x56, 0x78, 0x90, 0xAB))
    );
    assert_eq!(
        MacAddr::from_str("::::::"),
        Err(ParseMacAddrErr::InvalidComponent)
    );
    assert_eq!(
        MacAddr::from_str("0::::::"),
        Err(ParseMacAddrErr::InvalidComponent)
    );
    assert_eq!(
        MacAddr::from_str("::::0::"),
        Err(ParseMacAddrErr::InvalidComponent)
    );
    assert_eq!(
        MacAddr::from_str("12:34:56:78"),
        Err(ParseMacAddrErr::TooFewComponents)
    );
    assert_eq!(
        MacAddr::from_str("12:34:56:78:"),
        Err(ParseMacAddrErr::InvalidComponent)
    );
    assert_eq!(
        MacAddr::from_str("12:34:56:78:90"),
        Err(ParseMacAddrErr::TooFewComponents)
    );
    assert_eq!(
        MacAddr::from_str("12:34:56:78:90:"),
        Err(ParseMacAddrErr::InvalidComponent)
    );
    assert_eq!(
        MacAddr::from_str("12:34:56:78:90:00:00"),
        Err(ParseMacAddrErr::TooManyComponents)
    );
    assert_eq!(
        MacAddr::from_str("xx:xx:xx:xx:xx:xx"),
        Err(ParseMacAddrErr::InvalidComponent)
    );
}

#[test]
fn str_from_mac_addr() {
    assert_eq!(MacAddr::new(0, 0, 0, 0, 0, 0).to_text(), "00:00:00:00:00:00");
    assert_eq!(
        MacAddr::new(0xFF, 0xFF, 0xFF, 0xFF, 0xFF, 0xFF).to_text(),
        "ff:ff:ff:ff:ff:ff"
    );
    assert_eq!(
        MacAddr::new(0x12, 0x34, 0x56, 0x78, 0x09, 0xAB).to_text(),
        "12:34:56:78:09:ab"
    );
}

#[test]
fn parse_then_format_reproduces_canonical_text() {
    let text = "aa:bb:cc:dd:ee:ff";
    let mac = MacAddr::from_str(text).unwrap();
    assert_eq!(mac, MacAddr::new(0xAA, 0xBB, 0xCC, 0xDD, 0xEE, 0xFF));
    assert_eq!(mac.to_text(), text);
}

#[test]
fn parse_is_case_insensitive() {
    assert_eq!(
        MacAddr::from_str("AA:BB:CC:DD:EE:FF"),
        MacAddr::from_str("aa:bb:cc:dd:ee:ff")
    );
    assert_eq!(
        MacAddr::from_str("1A:2b:3C:4d:5E:6f"),
        Ok(MacAddr::new(0x1A, 0x2B, 0x3C, 0x4D, 0x5E, 0x6F))
    );
}

#[test]
fn parse_error_kinds() {
    assert_eq!(
        MacAddr::from_str("00:00:00:00:00:00"),
        Ok(MacAddr::new(0, 0, 0, 0, 0, 0))
    );
    assert_eq!(
        MacAddr::from_str("12:34:56:78:90:ab:cd"),
        Err(ParseMacAddrErr::TooManyComponents)
    );
    assert_eq!(
        MacAddr::from_str("12:34:56"),
        Err(ParseMacAddrErr::TooFewComponents)
    );
    assert_eq!(
        MacAddr::from_str("gg:34:56:78:90:ab"),
        Err(ParseMacAddrErr::InvalidComponent)
    );
    assert_eq!(MacAddr::from_str(""), Err(ParseMacAddrErr::InvalidComponent));
}

#[test]
fn single_digit_components_are_accepted() {
    assert_eq!(
        MacAddr::from_str("0:1:2:3:4:f"),
        Ok(MacAddr::new(0, 1, 2, 3, 4, 0xF))
    );
}

#[test]
fn components_longer_than_two_digits_are_rejected() {
    assert_eq!(
        MacAddr::from_str("004:34:56:78:90:ab"),
        Err(ParseMacAddrErr::InvalidComponent)
    );
    assert_eq!(
        MacAddr::from_str("+2:34:56:78:90:ab"),
        Err(ParseMacAddrErr::InvalidComponent)
    );
}

#[test]
fn seventh_component_reported_before_its_validity() {
    assert_eq!(
        MacAddr::from_str("12:34:56:78:90:ab:zz"),
        Err(ParseMacAddrErr::TooManyComponents)
    );
}

#[test]
fn format_then_parse_returns_the_same_address() {
    let mac = MacAddr::new(0x01, 0x00, 0x9A, 0xF0, 0x0B, 0xFF);
    assert_eq!(MacAddr::from_str(&mac.to_text()), Ok(mac));
}

#[test]
fn to_primitive_values_gives_the_octets() {
    let mac = MacAddr::new(1, 2, 3, 4, 5, 6);
    assert_eq!(mac.to_primitive_values(), (1, 2, 3, 4, 5, 6));
}
