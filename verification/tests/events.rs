use boxercrab::codec::Cursor;
use boxercrab::events::{
    parse_anonymous_gtid, parse_format_desc, parse_header, parse_previous_gtids, parse_rotate,
    parse_xid, Event,
};

#[test]
fn test_anonymous_gtids() {
    let input: Vec<u8> = vec![
        54, 157, 253, 94, 34, 123, 0, 0, 0, 65, 0, 0, 0, 219, 0, 0, 0, 0, 0, 1, 0, 0, 0, 0, 0, 0,
        0, 0, 0, 0, 0, 0, 0, 0, 0, 0, 0, 0, 0, 0, 0, 0, 0, 0, 2, 0, 0, 0, 0, 0, 0, 0, 0, 1, 0, 0,
        0, 0, 0, 0, 0, 10, 21, 198, 18,
    ];
    let mut cur = Cursor::new(&input);
    let header = parse_header(&mut cur).unwrap();
    let event = parse_anonymous_gtid(&mut cur, header).unwrap();
    match event {
        Event::AnonymousGtid { last_committed, sequence_number, rbr_only, .. } => {
            assert_eq!(last_committed, 0);
            assert_eq!(sequence_number, 1);
            assert_eq!(rbr_only, false);
            assert_eq!(cur.remaining(), 0);
        },
        _ => panic!("should be anonymous gtid"),
    }
}

#[test]
fn test_previous_gtids() {
    let input: Vec<u8> = vec![
        220, 156, 253, 94, 35, 123, 0, 0, 0, 31, 0, 0, 0, 154, 0, 0, 0, 128, 0, 0, 0, 0, 0, 0, 0,
        0, 0, 82, 75, 196, 253,
    ];
    let mut cur = Cursor::new(&input);
    let header = parse_header(&mut cur).unwrap();
    let _ = parse_previous_gtids(&mut cur, header).unwrap();
    assert_eq!(cur.remaining(), 0);
}

/// A 19-byte header for a synthetic event of the given type and total size.
fn header_bytes(event_type: u8, event_size: u32) -> Vec<u8> {
    let mut h = vec![0x36, 0x9d, 0xfd, 0x5e];
    h.push(event_type);
    h.extend_from_slice(&123u32.to_le_bytes());
    h.extend_from_slice(&event_size.to_le_bytes());
    h.extend_from_slice(&0u32.to_le_bytes());
    h.extend_from_slice(&0u16.to_le_bytes());
    h
}

#[test]
fn test_xid() {
    let mut input = header_bytes(0x10, 31);
    input.extend_from_slice(&11u64.to_le_bytes());
    input.extend_from_slice(&0x86eb78bcu32.to_le_bytes());
    let mut cur = Cursor::new(&input);
    let header = parse_header(&mut cur).unwrap();
    let event = parse_xid(&mut cur, header).unwrap();
    match event {
        Event::XID { xid, checksum, .. } => {
            assert_eq!(cur.remaining(), 0);
            assert_eq!(xid, 11);
            assert_eq!(checksum, 0x86eb78bc);
        },
        _ => panic!("should be xid"),
    }
}

#[test]
fn test_rotate() {
    let name = b"mysql_bin.000002";
    let mut input = header_bytes(0x04, 19 + 8 + name.len() as u32 + 4);
    input.extend_from_slice(&4u64.to_le_bytes());
    input.extend_from_slice(name);
    input.extend_from_slice(&0u32.to_le_bytes());
    let mut cur = Cursor::new(&input);
    let header = parse_header(&mut cur).unwrap();
    let event = parse_rotate(&mut cur, header).unwrap();
    match event {
        Event::Rotate { position, next_binlog, .. } => {
            assert_eq!(cur.remaining(), 0);
            assert_eq!(position, 4);
            assert_eq!(next_binlog, "mysql_bin.000002");
        },
        _ => panic!("should be rotate"),
    }
}

#[test]
fn test_format_desc() {
    let mut input = header_bytes(0x0f, 19 + 62);
    input.extend_from_slice(&4u16.to_le_bytes());
    let mut server = b"5.7.29-log".to_vec();
    server.resize(50, 0);
    input.extend_from_slice(&server);
    input.extend_from_slice(&1593679068u32.to_le_bytes());
    input.push(19);
    input.push(1); // checksum algorithm
    input.extend_from_slice(&0u32.to_le_bytes());
    let mut cur = Cursor::new(&input);
    let header = parse_header(&mut cur).unwrap();
    let event = parse_format_desc(&mut cur, header).unwrap();
    match event {
        Event::FormatDesc { binlog_version, mysql_server_version, create_timestamp, .. } => {
            assert_eq!(cur.remaining(), 0);
            assert_eq!(binlog_version, 4);
            assert_eq!(mysql_server_version, "5.7.29-log");
            assert_eq!(create_timestamp, 1593679068);
        },
        _ => panic!("should be format desc"),
    }
}

#[test]
fn test_unknown_event_is_kept() {
    let mut input = header_bytes(0x55, 19 + 7);
    input.extend_from_slice(&[1, 2, 3]);
    input.extend_from_slice(&9u32.to_le_bytes());
    let mut cur = Cursor::new(&input);
    let header = parse_header(&mut cur).unwrap();
    let event = boxercrab::events::parse_unknown(&mut cur, header).unwrap();
    match event {
        Event::Unknown { payload, checksum, .. } => {
            assert_eq!(payload, vec![1, 2, 3]);
            assert_eq!(checksum, 9);
        },
        _ => panic!("should be unknown"),
    }
}

#[test]
fn test_query_status_vars() {
    // a chain like the one a CREATE TABLE query carries: a charset triple,
    // a catalog name, and one updated database name
    let region: Vec<u8> = vec![
        0x04, 33, 0, 33, 0, 224, 0, // charset (33, 33, 224)
        0x06, 3, b's', b't', b'd', // catalog "std"
        0x0c, 1, b't', b'e', b's', b't', 0, // updated db names ["test"]
    ];
    let mut cur = Cursor::new(&region);
    let end = region.len();
    let vars = boxercrab::query::parse_status_vars(&mut cur, end).unwrap();
    assert_eq!(vars.len(), 3);
    assert_eq!(vars[0], boxercrab::query::QueryStatusVar::Q_CHARSET_CODE(33, 33, 224));
    assert_eq!(vars[1], boxercrab::query::QueryStatusVar::Q_CATALOG_NZ_CODE("std".to_string()));
    assert_eq!(
        vars[2],
        boxercrab::query::QueryStatusVar::Q_UPDATED_DB_NAMES(vec!["test".to_string()])
    );
}

#[test]
fn test_gtid_rendering() {
    // all-zero uuid and transaction number render as dash-joined decimals
    let mut input = header_bytes(0x22, 19 + 46);
    input.push(1); // not rbr-only
    input.extend_from_slice(&[0u8; 16]);
    input.extend_from_slice(&[0u8; 8]);
    input.push(2);
    input.extend_from_slice(&0i64.to_le_bytes());
    input.extend_from_slice(&1i64.to_le_bytes());
    input.extend_from_slice(&0u32.to_le_bytes());
    let mut cur = Cursor::new(&input);
    let header = parse_header(&mut cur).unwrap();
    let event = parse_anonymous_gtid(&mut cur, header).unwrap();
    match event {
        Event::AnonymousGtid { source_id, transaction_id, ts_type, .. } => {
            assert_eq!(source_id, "0000-00-00-00-000000");
            assert_eq!(transaction_id, "00000000");
            assert_eq!(ts_type, 2);
        },
        _ => panic!("should be anonymous gtid"),
    }
}

#[test]
fn test_query() {
    let status_vars: Vec<u8> = vec![
        0x04, 33, 0, 33, 0, 224, 0, // charset (33, 33, 224)
        0x06, 3, b's', b't', b'd', // catalog "std"
        0x0c, 1, b't', b'e', b's', b't', 0, // updated db names ["test"]
    ];
    let schema = b"test";
    let query = b"CREATE TABLE IF NOT EXISTS `runoob_tbl`";
    let body_len = 13 + status_vars.len() + schema.len() + 1 + query.len() + 4;
    let mut input = header_bytes(0x02, 19 + body_len as u32);
    input.extend_from_slice(&3u32.to_le_bytes()); // thread id
    input.extend_from_slice(&0u32.to_le_bytes()); // execution time
    input.push(schema.len() as u8);
    input.extend_from_slice(&0u16.to_le_bytes()); // error code
    input.extend_from_slice(&(status_vars.len() as u16).to_le_bytes());
    input.extend_from_slice(&status_vars);
    input.extend_from_slice(schema);
    input.push(0);
    input.extend_from_slice(query);
    input.extend_from_slice(&1424651384u32.to_le_bytes());
    let mut cur = Cursor::new(&input);
    let header = parse_header(&mut cur).unwrap();
    let event = boxercrab::events::parse_query(&mut cur, header).unwrap();
    match event {
        Event::Query { slave_proxy_id, schema, status_vars, query, checksum, .. } => {
            assert_eq!(cur.remaining(), 0);
            assert_eq!(slave_proxy_id, 3);
            assert_eq!(schema, "test");
            assert_eq!(status_vars.len(), 3);
            assert_eq!(
                status_vars[0],
                boxercrab::query::QueryStatusVar::Q_CHARSET_CODE(33, 33, 224)
            );
            assert!(query.starts_with("CREATE TABLE IF NOT EXISTS `runoob_tbl`"));
            assert_eq!(checksum, 1424651384);
        },
        _ => panic!("should be a query event"),
    }
}
