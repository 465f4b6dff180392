use gluon_update_manager::node_id::NodeID;

#[test]
fn test_deserialize() {
    assert_eq!(
        "001122334455".parse::<NodeID>().unwrap(),
        NodeID([00, 0x11, 0x22, 0x33, 0x44, 0x55])
    );
}

#[test]
fn test_deserialize_mac() {
    assert_eq!(
        "00:11:22:33:44:55".parse::<NodeID>().unwrap(),
        NodeID([00, 0x11, 0x22, 0x33, 0x44, 0x55])
    );
}

#[test]
fn node_id_canonical_text_round_trip() {
    for text in ["001122334455", "a0b1c2d3e4f5", "ffffffffffff", "000000000000"] {
        let id = NodeID::parse(text).unwrap();
        assert_eq!(id.to_string(), text);
    }
}

#[test]
fn node_id_renders_lowercase() {
    let id = NodeID::parse("AABBCCDDEEFF").unwrap();
    assert_eq!(id, NodeID::from_bytes([0xaa, 0xbb, 0xcc, 0xdd, 0xee, 0xff]));
    assert_eq!(id.to_string(), "aabbccddeeff");
}

#[test]
fn node_id_rejects_malformed_text() {
    assert_eq!("00112233445".parse::<NodeID>(), Err(()));
    assert_eq!(NodeID::parse("0011223344556"), None);
    assert_eq!(NodeID::parse("00112233445g"), None);
    assert_eq!(NodeID::parse("+01122334455"), None);
    assert_eq!(NodeID::parse(""), None);
    assert_eq!(NodeID::parse("::::"), None);
}

#[test]
fn node_id_key_is_big_endian() {
    assert_eq!(NodeID::from_bytes([0, 0, 0, 0, 0, 1]).key(), 1);
    assert_eq!(NodeID::from_bytes([1, 0, 0, 0, 0, 0]).key(), 0x0100_0000_0000);
    assert_eq!(NodeID::from_bytes([0xff; 6]).key(), 0xffff_ffff_ffff);
    assert_eq!(NodeID::from_bytes([1, 2, 3, 4, 5, 6]).to_bytes(), [1, 2, 3, 4, 5, 6]);
}

#[test]
fn node_id_from_key_inverts_key() {
    let id = NodeID::from_key(0x0211_2233_4455);
    assert_eq!(id.to_bytes(), [0x02, 0x11, 0x22, 0x33, 0x44, 0x55]);
    assert_eq!(id.key(), 0x0211_2233_4455);
    assert_eq!(NodeID::from_key(0xabcd_0000_0000_0001).to_bytes(), [0, 0, 0, 0, 0, 1]);
}

#[test]
fn node_id_upper_text() {
    assert_eq!(NodeID::from_bytes([0xaa, 0xbb, 0xcc, 0x01, 0x23, 0xef]).to_upper_string(), "AABBCC0123EF");
}
