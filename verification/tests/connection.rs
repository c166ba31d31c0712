use boxercrab::connector::{decode_text_result_set, HandshakeV10};
use boxercrab::codec::Cursor;
use boxercrab::state::{ConnAction, ConnState, Connection};

fn greeting_payload() -> Vec<u8> {
    let mut p = vec![10u8];
    p.extend_from_slice(b"5.7.29-log\0");
    p.extend_from_slice(&7u32.to_le_bytes()); // thread id
    p.extend_from_slice(&[1, 2, 3, 4, 5, 6, 7, 8]); // challenge, first half
    p.push(0); // filler
    p.extend_from_slice(&0u16.to_le_bytes()); // capabilities, low half
    p.push(33); // charset
    p.extend_from_slice(&2u16.to_le_bytes()); // status
    p.extend_from_slice(&0x0008u16.to_le_bytes()); // capabilities, high half: plugin auth
    p.push(21); // declared challenge length
    p.extend_from_slice(&[0u8; 10]); // reserved
    p.extend_from_slice(&[9, 10, 11, 12, 13, 14, 15, 16, 17, 18, 19, 20, 0]); // second half
    p.extend_from_slice(b"mysql_native_password\0");
    p
}

#[test]
fn test_handshake_v10_decode() {
    let payload = greeting_payload();
    let mut cur = Cursor::new(&payload);
    let greeting = HandshakeV10::decode(&mut cur).unwrap();
    assert_eq!(greeting.protocol_version, 10);
    assert_eq!(greeting.server_version, "5.7.29-log");
    assert_eq!(greeting.thread_id, 7);
    assert_eq!(greeting.caps, 0x80000);
    assert_eq!(greeting.auth_plugin_name, "mysql_native_password");
    assert_eq!(greeting.auth_plugin_data.len(), 8 + 13);
}

#[test]
fn test_connection_phase() {
    let mut conn = Connection::new("replica".to_string(), b"secret_pw".to_vec(), None);
    assert_eq!(conn.state, ConnState::AwaitGreeting);

    // the greeting is answered with a handshake response
    let action = conn.on_packet(&greeting_payload()).unwrap();
    assert_eq!(conn.state, ConnState::SentResponse);
    match action {
        ConnAction::SendHandshakeResponse(resp) => {
            assert_eq!(resp.user_name, "replica");
            assert_eq!(resp.auth_resp.len(), 20);
            assert_eq!(resp.plugin_name.as_deref(), Some("mysql_native_password"));
        },
        _ => panic!("should answer the greeting"),
    }

    // an OK packet authenticates
    let ok: Vec<u8> = vec![0x00, 0x00, 0x00, 0x02, 0x00, 0x00, 0x00];
    assert_eq!(conn.on_packet(&ok).unwrap(), ConnAction::Proceed);
    assert_eq!(conn.state, ConnState::Authenticated);

    // the dump command moves to streaming
    let dump = conn.request_dump("mysql_bin.000002".to_string(), 4, 100).unwrap();
    assert_eq!(dump.pos, 4);
    assert_eq!(conn.state, ConnState::Streaming);
}

#[test]
fn test_connection_auth_failure() {
    let mut conn = Connection::new("replica".to_string(), b"pw".to_vec(), None);
    let _ = conn.on_packet(&greeting_payload()).unwrap();
    let mut err: Vec<u8> = vec![0xff];
    err.extend_from_slice(&1045u16.to_le_bytes());
    err.push(b'#');
    err.extend_from_slice(b"28000");
    err.extend_from_slice(b"Access denied");
    assert_eq!(conn.on_packet(&err), Err(boxercrab::codec::DecodeError::AuthFailed));
    assert_eq!(conn.state, ConnState::Closed);
}

#[test]
fn test_text_result_set() {
    // one column, one row, then the end-of-result packet
    let count = vec![1u8];
    let mut coldef: Vec<u8> = Vec::new();
    coldef.push(3);
    coldef.extend_from_slice(b"def");
    coldef.extend_from_slice(&[0, 0, 0]); // schema, table, original table
    coldef.push(1);
    coldef.push(b'a');
    coldef.push(0); // original name
    coldef.push(0x0c); // length of fixed-length fields
    coldef.extend_from_slice(&33u16.to_le_bytes());
    coldef.extend_from_slice(&80u32.to_le_bytes());
    coldef.push(15);
    coldef.extend_from_slice(&0u16.to_le_bytes());
    coldef.push(0);
    let row = vec![5u8, b'h', b'e', b'l', b'l', b'o'];
    let eof = vec![0xfe, 0x00, 0x00, 0x02, 0x00, 0x00, 0x00];
    let packets = vec![count, coldef, row, eof];
    let result = decode_text_result_set(&packets).unwrap();
    assert_eq!(result.column_count.value(), 1);
    assert_eq!(result.col_defs.len(), 1);
    assert_eq!(result.col_defs[0].catalog, "def");
    assert_eq!(result.col_defs[0].name, "a");
    assert_eq!(result.rows.len(), 1);
    assert_eq!(result.rows[0].columns, vec![b"hello".to_vec()]);
}
