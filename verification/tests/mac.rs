use wololo::mac::{MacAddress, MacAddressError};

#[test]
fn test_macaddress() {
    assert_eq!(MacAddress::try_from(""), Err(MacAddressError::Length));
    assert_eq!(
        MacAddress::try_from("01/02/03/04/05/06"),
        Err(MacAddressError::Separator)
    );
    assert_eq!(
        MacAddress::try_from("01:02:03:04:05:0g"),
        Err(MacAddressError::Format)
    );

    assert!(MacAddress::try_from("01:02:03:04:05:06").is_ok());
}

#[test]
fn parse_rejects_bad_hex_with_format_error() {
    assert_eq!(
        MacAddress::try_from("zz:01:02:03:04:05"),
        Err(MacAddressError::Format)
    );
}

#[test]
fn parse_rejects_wrong_length() {
    assert_eq!(MacAddress::try_from("00:01:02"), Err(MacAddressError::Length));
    assert_eq!(
        MacAddress::try_from("00:01:02:03:04:05:06"),
        Err(MacAddressError::Length)
    );
}

#[test]
fn parse_rejects_mixed_separators() {
    assert_eq!(
        MacAddress::try_from("00:01-02:03:04:05"),
        Err(MacAddressError::Format)
    );
}

#[test]
fn parse_accepts_both_uniform_separators() {
    let colon = MacAddress::try_from("00:01:02:03:04:05").unwrap();
    let hyphen = MacAddress::try_from("00-01-02-03-04-05").unwrap();
    assert_eq!(colon, hyphen);
    assert_eq!(colon.as_bytes(), [0x00, 0x01, 0x02, 0x03, 0x04, 0x05]);
}

#[test]
fn canonical_text_is_lower_case_with_colons() {
    let from_hyphens = MacAddress::try_from("00-01-02-03-04-05").unwrap();
    assert_eq!(from_hyphens.to_string(), "00:01:02:03:04:05");
    let from_upper = MacAddress::try_from("AA:BB:CC:DD:EE:FF").unwrap();
    assert_eq!(from_upper.to_string(), "aa:bb:cc:dd:ee:ff");
}

#[test]
fn error_messages_name_the_rejection() {
    assert_eq!(MacAddressError::Length.message(), "invalid mac address length");
    assert_eq!(MacAddressError::Format.message(), "invalid mac address format");
    assert_eq!(
        MacAddressError::Separator.message(),
        "invalid mac address separator (should be ':' or '-')"
    );
}
