use gluon_update_manager::mac::{InvalidMacAddr, MacAddr};

#[test]
fn test_parse_mac() {
    assert_eq!("00:11:22:33:44:55".parse::<MacAddr>().unwrap(), MacAddr([0x00, 0x11, 0x22, 0x33, 0x44, 0x55]));
}

#[test]
fn test_ser() {
    let text = MacAddr([0x00, 0x11, 0x22, 0x33, 0x44, 0x55]).to_string();
    assert_eq!(serde_json::to_string(&text).unwrap(), "\"00:11:22:33:44:55\"");
}

#[test]
fn test_deser() {
    let text: String = serde_json::from_str("\"00:11:22:33:44:55\"").unwrap();
    assert_eq!(text.parse::<MacAddr>().unwrap(), MacAddr([0x00, 0x11, 0x22, 0x33, 0x44, 0x55]));
}

#[test]
fn test_display() {
    assert_eq!(&MacAddr([0xaa, 0xbb, 0xcc, 0xdd, 0xee, 0xff]).to_string(), "aa:bb:cc:dd:ee:ff")
}

#[test]
fn test_display_alt() {
    assert_eq!(&MacAddr([0xaa, 0xbb, 0xcc, 0xdd, 0xee, 0xff]).to_upper_string(), "AA:BB:CC:DD:EE:FF")
}

#[test]
fn mac_parse_accepts_uppercase_digits() {
    assert_eq!(MacAddr::parse("AA:bb:0C:dd:EE:0f"), Some(MacAddr([0xaa, 0xbb, 0x0c, 0xdd, 0xee, 0x0f])));
}

#[test]
fn mac_parse_rejects_malformed_text() {
    assert_eq!("00:11:22:33:44".parse::<MacAddr>(), Err(InvalidMacAddr));
    assert_eq!(MacAddr::parse("001122334455"), None);
    assert_eq!(MacAddr::parse("00-11-22-33-44-55"), None);
    assert_eq!(MacAddr::parse("00:11:22:33:44:5g"), None);
    assert_eq!(MacAddr::parse("00:11:22:33:44:55:"), None);
    assert_eq!(MacAddr::parse(""), None);
}

#[test]
fn mac_bytes_accessors() {
    let m = MacAddr::from_bytes([1, 2, 3, 4, 5, 6]);
    assert_eq!(m.to_bytes(), &[1, 2, 3, 4, 5, 6]);
    assert_eq!(m.into_bytes(), [1, 2, 3, 4, 5, 6]);
    assert_eq!(MacAddr::unspecified().into_bytes(), [0; 6]);
    assert_eq!(MacAddr::unspecified().to_string(), "00:00:00:00:00:00");
}
