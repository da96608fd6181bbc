use ifcfg_devname::mac::{mac_to_lower_string, mac_to_string, parse_mac_address, MacAddress, MacParseError};

#[test]
fn parses_colon_separated_text() {
    let mac = parse_mac_address("80:FA:5B:41:10:6B").unwrap();
    assert_eq!(mac.bytes, [128, 250, 91, 65, 16, 107]);
}

#[test]
fn parses_lower_case_text() {
    let mac = parse_mac_address("aa:bb:cc:dd:ee:3f").unwrap();
    assert_eq!(mac.bytes, [0xaa, 0xbb, 0xcc, 0xdd, 0xee, 0x3f]);
}

#[test]
fn parses_hyphen_separated_text() {
    let mac = parse_mac_address("01-23-45-67-89-AB").unwrap();
    assert_eq!(mac.bytes, [0x01, 0x23, 0x45, 0x67, 0x89, 0xAB]);
}

#[test]
fn parses_bare_text() {
    let mac = parse_mac_address("4827e24425d8").unwrap();
    assert_eq!(mac.bytes, [0x48, 0x27, 0xE2, 0x44, 0x25, 0xD8]);
}

#[test]
fn rejects_wrong_lengths() {
    assert_eq!(parse_mac_address("80:FA:5B:41:10:6B:AC"), Err(MacParseError::InvalidLength));
    assert_eq!(parse_mac_address("80:FA:5B:41"), Err(MacParseError::InvalidLength));
    assert_eq!(parse_mac_address("80FA5B41"), Err(MacParseError::InvalidLength));
    assert_eq!(parse_mac_address(""), Err(MacParseError::InvalidLength));
}

#[test]
fn rejects_non_ascii_text() {
    assert_eq!(parse_mac_address("80:F\u{c1}:5B:41:10:6B"), Err(MacParseError::InvalidLength));
}

#[test]
fn rejects_invalid_digits() {
    assert_eq!(parse_mac_address("80:FA:ZZ:41:10:6B"), Err(MacParseError::InvalidDigit));
    assert_eq!(parse_mac_address("80|FA|AA|41|10|6B"), Err(MacParseError::InvalidDigit));
    assert_eq!(parse_mac_address("80FA5B41106G"), Err(MacParseError::InvalidDigit));
}

#[test]
fn error_messages() {
    assert_eq!(MacParseError::InvalidDigit.message(), "invalid digit");
    assert_eq!(MacParseError::InvalidLength.message(), "invalid length");
}

#[test]
fn writes_upper_case_text() {
    let mac = MacAddress { bytes: [0x01, 0x23, 0x45, 0x67, 0x89, 0xAB] };
    assert_eq!(mac_to_string(&mac), "01:23:45:67:89:AB");
    assert_eq!(mac_to_lower_string(&mac), "01:23:45:67:89:ab");
}

#[test]
fn writes_zero_padded_text() {
    let mac = MacAddress { bytes: [0, 1, 2, 0x0a, 0x0f, 0xff] };
    assert_eq!(mac_to_string(&mac), "00:01:02:0A:0F:FF");
    assert_eq!(mac_to_lower_string(&mac), "00:01:02:0a:0f:ff");
}

#[test]
fn text_round_trip() {
    let mac = MacAddress { bytes: [0xde, 0xad, 0xbe, 0xef, 0x00, 0x42] };
    let text = mac_to_string(&mac);
    assert_eq!(parse_mac_address(&text), Ok(mac));
    let lower = mac_to_lower_string(&mac);
    assert_eq!(parse_mac_address(&lower), Ok(mac));
}
