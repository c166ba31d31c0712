use boxercrab::codec::Cursor;
use boxercrab::connector::HandshakeResponse41;

fn caps_with_bits(bits: &[u32]) -> u32 {
    let mut caps = 0u32;
    for b in bits {
        caps |= 1 << b;
    }
    caps
}

#[test]
fn test_handshake_response_round_trip() {
    // length-encoded auth data, a database, a plugin name, and attributes
    let caps = caps_with_bits(&[0, 9, 3, 19, 20, 21]);
    let original = HandshakeResponse41 {
        caps,
        max_packet_size: 1 << 24,
        charset: 255,
        user_name: "replica".to_string(),
        auth_resp: vec![1, 2, 3, 4],
        database: Some("test".to_string()),
        plugin_name: Some("mysql_native_password".to_string()),
        connect_attrs: vec![("program".to_string(), "boxercrab".to_string())],
        zstd_level: 0,
    };
    let mut wire: Vec<u8> = Vec::new();
    original.encode(&mut wire);
    let mut cur = Cursor::new(&wire);
    let decoded = HandshakeResponse41::decode(&mut cur).unwrap();
    assert_eq!(decoded, original);
    assert_eq!(cur.remaining(), 0);
}

#[test]
fn test_handshake_response_round_trip_minimal_caps() {
    // the one-byte auth length shape, with no optional regions
    let caps = caps_with_bits(&[0, 9]);
    let original = HandshakeResponse41 {
        caps,
        max_packet_size: 1 << 24,
        charset: 33,
        user_name: "root".to_string(),
        auth_resp: Vec::new(),
        database: None,
        plugin_name: None,
        connect_attrs: Vec::new(),
        zstd_level: 0,
    };
    let mut wire: Vec<u8> = Vec::new();
    original.encode(&mut wire);
    let mut cur = Cursor::new(&wire);
    let decoded = HandshakeResponse41::decode(&mut cur).unwrap();
    assert_eq!(decoded, original);
}

#[test]
fn test_empty_auth_response_is_one_zero_byte() {
    // the wire region of an empty auth response is a lone zero length byte:
    // user "u" ends with its terminator at offset 33, so the byte after it
    // is the auth length
    let caps = caps_with_bits(&[0, 9]);
    let r = HandshakeResponse41 {
        caps,
        max_packet_size: 1 << 24,
        charset: 33,
        user_name: "u".to_string(),
        auth_resp: Vec::new(),
        database: None,
        plugin_name: None,
        connect_attrs: Vec::new(),
        zstd_level: 0,
    };
    let mut wire: Vec<u8> = Vec::new();
    r.encode(&mut wire);
    assert_eq!(wire[32 + 2], 0);
    assert_eq!(wire.len(), 32 + 2 + 1 + 1);
}
