use boxercrab::codec::Cursor;
use boxercrab::context::TableMapContext;
use boxercrab::events::Event;

/// A 19-byte header for a synthetic event of the given type and total size.
fn header_bytes(event_type: u8, event_size: u32) -> Vec<u8> {
    let mut h = vec![0x36, 0x9d, 0xfd, 0x5e];
    h.push(event_type);
    h.extend_from_slice(&123u32.to_le_bytes());
    h.extend_from_slice(&event_size.to_le_bytes());
    h.extend_from_slice(&0u32.to_le_bytes());
    h.extend_from_slice(&0u16.to_le_bytes());
    h
}

fn checksum_only_event(event_type: u8, checksum: u32) -> Vec<u8> {
    let mut e = header_bytes(event_type, 23);
    e.extend_from_slice(&checksum.to_le_bytes());
    e
}

#[test]
fn test_stop() {
    let input = checksum_only_event(0x03, 5);
    let mut ctx = TableMapContext::new();
    let mut cur = Cursor::new(&input);
    match Event::parse(&mut cur, &mut ctx).unwrap() {
        Event::Stop { checksum, .. } => assert_eq!(checksum, 5),
        _ => panic!("should be stop event"),
    }
}

#[test]
fn test_intvar() {
    let mut input = header_bytes(0x05, 19 + 13);
    input.push(1); // last-insert-id subtype
    input.extend_from_slice(&0u64.to_le_bytes());
    input.extend_from_slice(&2u32.to_le_bytes());
    let mut ctx = TableMapContext::new();
    let mut cur = Cursor::new(&input);
    match Event::parse(&mut cur, &mut ctx).unwrap() {
        Event::IntVar { e_type, value, .. } => {
            assert_eq!(e_type, boxercrab::events::IntVarEventType::LastInsertIdEvent);
            assert_eq!(value, 0);
        },
        _ => panic!("should be intvar"),
    }
}

#[test]
fn test_rand() {
    let mut input = header_bytes(0x0d, 19 + 20);
    input.extend_from_slice(&694882935u64.to_le_bytes());
    input.extend_from_slice(&292094996u64.to_le_bytes());
    input.extend_from_slice(&2u32.to_le_bytes());
    let mut ctx = TableMapContext::new();
    let mut cur = Cursor::new(&input);
    match Event::parse(&mut cur, &mut ctx).unwrap() {
        Event::Rand { seed1, seed2, .. } => {
            assert_eq!(seed1, 694882935);
            assert_eq!(seed2, 292094996);
        },
        _ => panic!("should be rand"),
    }
}

#[test]
fn test_row_query() {
    let text = b"INSERT INTO `boxercrab` (`title`) VALUES ('hahhhhhhhhh')";
    let mut input = header_bytes(0x1d, 19 + 5 + text.len() as u32);
    input.push(text.len() as u8);
    input.extend_from_slice(text);
    input.extend_from_slice(&2u32.to_le_bytes());
    let mut ctx = TableMapContext::new();
    let mut cur = Cursor::new(&input);
    match Event::parse(&mut cur, &mut ctx).unwrap() {
        Event::RowQuery { query_text, .. } => assert_eq!(
            query_text,
            "INSERT INTO `boxercrab` (`title`) VALUES ('hahhhhhhhhh')"
        ),
        _ => panic!("should be row_query"),
    }
}

#[test]
fn test_begin_load_query_and_exec_load_query() {
    let block = b"1,\"abc\"\n";
    let mut input = header_bytes(0x11, 19 + 8 + block.len() as u32);
    input.extend_from_slice(&1u32.to_le_bytes());
    input.extend_from_slice(block);
    input.extend_from_slice(&2u32.to_le_bytes());
    let mut ctx = TableMapContext::new();
    let mut cur = Cursor::new(&input);
    match Event::parse(&mut cur, &mut ctx).unwrap() {
        Event::BeginLoadQuery { file_id, block_data, .. } => {
            assert_eq!(file_id, 1);
            assert_eq!(block_data, "1,\"abc\"\n");
        },
        _ => panic!("should be begin load query"),
    }

    let mut input = header_bytes(0x12, 19 + 30);
    input.extend_from_slice(&23u32.to_le_bytes()); // thread id
    input.extend_from_slice(&0u32.to_le_bytes());
    input.push(7); // schema length
    input.extend_from_slice(&0u16.to_le_bytes());
    input.extend_from_slice(&0u16.to_le_bytes());
    input.extend_from_slice(&1u32.to_le_bytes()); // file id
    input.extend_from_slice(&9u32.to_le_bytes()); // start pos
    input.extend_from_slice(&37u32.to_le_bytes()); // end pos
    input.push(0); // duplicate handling
    input.extend_from_slice(&2u32.to_le_bytes());
    let mut cur = Cursor::new(&input);
    match Event::parse(&mut cur, &mut ctx).unwrap() {
        Event::ExecuteLoadQueryEvent { thread_id, file_id, start_pos, end_pos, .. } => {
            assert_eq!(thread_id, 23);
            assert_eq!(file_id, 1);
            assert_eq!(start_pos, 9);
            assert_eq!(end_pos, 37);
        },
        _ => panic!("should be exec load query"),
    }
}

#[test]
fn test_from_bytes_walks_a_file() {
    let mut input = vec![254, b'b', b'i', b'n'];
    // a format description, then a transaction id event
    let mut fd = header_bytes(0x0f, 19 + 62);
    fd.extend_from_slice(&4u16.to_le_bytes());
    let mut server = b"5.7.29-log".to_vec();
    server.resize(50, 0);
    fd.extend_from_slice(&server);
    fd.extend_from_slice(&1593679068u32.to_le_bytes());
    fd.push(19);
    fd.push(1);
    fd.extend_from_slice(&0u32.to_le_bytes());
    input.extend_from_slice(&fd);
    let mut xid = header_bytes(0x10, 31);
    xid.extend_from_slice(&11u64.to_le_bytes());
    xid.extend_from_slice(&0x86eb78bcu32.to_le_bytes());
    input.extend_from_slice(&xid);
    let mut ctx = TableMapContext::new();
    let events = Event::from_bytes(&input, &mut ctx).unwrap();
    assert_eq!(events.len(), 2);
    assert!(matches!(events[0], Event::FormatDesc { .. }));
    assert!(matches!(events[1], Event::XID { xid: 11, .. }));
}

#[test]
fn test_unknown_type_code_is_kept_by_the_dispatcher() {
    // a code the dispatcher does not know yields the opaque record
    let mut input = header_bytes(0x55, 19 + 7);
    input.extend_from_slice(&[1, 2, 3]);
    input.extend_from_slice(&9u32.to_le_bytes());
    let mut ctx = TableMapContext::new();
    let mut cur = Cursor::new(&input);
    match Event::parse(&mut cur, &mut ctx).unwrap() {
        Event::Unknown { payload, .. } => assert_eq!(payload, vec![1, 2, 3]),
        _ => panic!("should be unknown"),
    }
}
