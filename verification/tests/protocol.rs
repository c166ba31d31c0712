use boxercrab::codec::Cursor;
use boxercrab::connector::{
    decode_packet, encode_packet, is_end_of_result, ComBinLogDump, ComQuery, ComQuit, ErrPacket,
    OkOrErr, OkPacket,
};

#[test]
fn test_packet_round_trip() {
    let payload = b"hello binlog";
    let mut buf: Vec<u8> = Vec::new();
    encode_packet(3, payload, &mut buf);
    assert_eq!(buf.len(), 4 + payload.len());
    let mut cur = Cursor::new(&buf);
    let packet = decode_packet(&mut cur).unwrap();
    assert_eq!(packet.len as usize, payload.len());
    assert_eq!(packet.seq_id, 3);
    assert_eq!(packet.payload, payload.to_vec());
    assert_eq!(cur.remaining(), 0);
}

#[test]
fn test_ok_packet() {
    let payload: Vec<u8> = vec![0x00, 0x01, 0x00, 0x02, 0x00, 0x00, 0x00];
    let mut cur = Cursor::new(&payload);
    let ok = OkPacket::decode(&mut cur).unwrap();
    assert!(ok.is_ok());
    assert!(!ok.is_eof());
    assert_eq!(ok.affected_rows.value(), 1);
    assert_eq!(ok.last_insert_id.value(), 0);
    assert_eq!(ok.status_flags, 2);
    assert_eq!(ok.warnings, 0);
    assert_eq!(cur.remaining(), 0);
}

#[test]
fn test_err_packet() {
    let mut payload: Vec<u8> = vec![0xff];
    payload.extend_from_slice(&1045u16.to_le_bytes());
    payload.push(b'#');
    payload.extend_from_slice(b"28000");
    payload.extend_from_slice(b"Access denied");
    let mut cur = Cursor::new(&payload);
    let err = ErrPacket::decode(&mut cur).unwrap();
    assert_eq!(err.code, 1045);
    assert_eq!(err.sql_state, "28000");
    assert_eq!(err.error_msg, "Access denied");
    assert_eq!(cur.remaining(), 0);
}

#[test]
fn test_ok_or_err_dispatch() {
    let payload: Vec<u8> = vec![0xfe, 0x00, 0x00, 0x02, 0x00, 0x00, 0x00];
    let mut cur = Cursor::new(&payload);
    match OkOrErr::decode(&mut cur).unwrap() {
        OkOrErr::Success(p) => assert!(p.is_eof()),
        OkOrErr::Failure(_) => panic!("should be an OK packet"),
    }
}

#[test]
fn test_end_of_result_rule() {
    assert!(is_end_of_result(&vec![0xfe, 0, 0, 2, 0]));
    assert!(!is_end_of_result(&vec![0xfe, 0, 0, 2, 0, 0, 0, 0, 0]));
    assert!(!is_end_of_result(&vec![0x00, 0, 0, 2, 0]));
    assert!(!is_end_of_result(&Vec::new()));
}

#[test]
fn test_command_encodings() {
    let mut buf: Vec<u8> = Vec::new();
    ComQuit.encode(&mut buf);
    assert_eq!(buf, vec![0x01]);

    let mut buf: Vec<u8> = Vec::new();
    ComQuery { query: "select 1".to_string() }.encode(&mut buf);
    assert_eq!(buf[0], 0x03);
    assert_eq!(&buf[1..], b"select 1");

    let mut buf: Vec<u8> = Vec::new();
    ComBinLogDump {
        pos: 4,
        flags: 0,
        server_id: 100,
        filename: "mysql_bin.000002".to_string(),
    }
        .encode(&mut buf);
    assert_eq!(buf[0], 0x12);
    assert_eq!(&buf[1..5], &4u32.to_le_bytes());
    assert_eq!(&buf[5..7], &0u16.to_le_bytes());
    assert_eq!(&buf[7..11], &100u32.to_le_bytes());
    assert_eq!(&buf[11..], b"mysql_bin.000002");
}
