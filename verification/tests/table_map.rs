use boxercrab::codec::Cursor;
use boxercrab::context::TableMapContext;
use boxercrab::events::{parse_header, parse_table_map, parse_write_rows_v2, Event};
use boxercrab::mysql::{ColTypes, ColValues};

#[test]
fn test_table_map() {
    let input: Vec<u8> = vec![
        170, 157, 253, 94, 19, 123, 0, 0, 0, 60, 0, 0, 0, 246, 2, 0, 0, 0, 0, 109, 0, 0, 0, 0, 0,
        1, 0, 4, 116, 101, 115, 116, 0, 10, 114, 117, 110, 111, 111, 98, 95, 116, 98, 108, 0, 4, 3,
        15, 15, 10, 4, 44, 1, 120, 0, 8, 194, 168, 53, 68,
    ];
    let mut ctx = TableMapContext::new();
    let mut cur = Cursor::new(&input);
    let header = parse_header(&mut cur).unwrap();
    let event = parse_table_map(&mut cur, header, &mut ctx).unwrap();
    assert_eq!(cur.remaining(), 0);
    match event {
        Event::TableMap { table_id, schema, table_name, column_count, columns_type, checksum, .. } =>
        {
            assert_eq!(table_id, 109);
            assert_eq!(schema, "test".to_string());
            assert_eq!(table_name, "runoob_tbl".to_string());
            assert_eq!(column_count, 4);
            assert_eq!(
                columns_type,
                vec![
                    ColTypes::Long,
                    ColTypes::VarChar(300),
                    ColTypes::VarChar(120),
                    ColTypes::Date,
                ]
            );
            assert_eq!(checksum, 0x4435a8c2);
            // the registry now holds the columns for later row events
            assert_eq!(*ctx.lookup(109).unwrap(), columns_type);
        },
        _ => panic!("should be table_map"),
    }
}

/// A 19-byte header for a synthetic event of the given type and total size.
fn header_bytes(event_type: u8, event_size: u32) -> Vec<u8> {
    let mut h = vec![0x36, 0x9d, 0xfd, 0x5e];
    h.push(event_type);
    h.extend_from_slice(&123u32.to_le_bytes());
    h.extend_from_slice(&event_size.to_le_bytes());
    h.extend_from_slice(&0u32.to_le_bytes());
    h.extend_from_slice(&0u16.to_le_bytes());
    h
}

#[test]
fn test_write_rows_v2() {
    // a table with an integer and a short var-char column, one inserted row
    let mut ctx = TableMapContext::new();
    ctx.install(7, vec![ColTypes::Long, ColTypes::VarChar(5)]);
    let mut input = header_bytes(0x1e, 19 + 27);
    input.extend_from_slice(&[7, 0, 0, 0, 0, 0]); // table id
    input.extend_from_slice(&1u16.to_le_bytes()); // row flags
    input.extend_from_slice(&2u16.to_le_bytes()); // extra data length: none
    input.push(2); // column count
    input.push(0b11); // present mask: both columns
    input.push(0); // null-bit mask of the single row
    input.extend_from_slice(&[1, 0, 0, 0]); // integer value
    input.push(5);
    input.extend_from_slice(b"abcde"); // var-char value
    input.extend_from_slice(&9u32.to_le_bytes());
    let mut cur = Cursor::new(&input);
    let header = parse_header(&mut cur).unwrap();
    let event = parse_write_rows_v2(&mut cur, header, &ctx).unwrap();
    assert_eq!(cur.remaining(), 0);
    match event {
        Event::WriteRowsV2 { table_id, column_count, rows, checksum, .. } => {
            assert_eq!(table_id, 7);
            assert_eq!(column_count, 2);
            assert_eq!(
                rows,
                vec![vec![
                    ColValues::Long(vec![1, 0, 0, 0]),
                    ColValues::VarChar(vec![97, 98, 99, 100, 101]),
                ]]
            );
            assert_eq!(checksum, 9);
        },
        _ => panic!("should be write_rows_v2"),
    }
}

#[test]
fn test_write_rows_v2_no_columns() {
    // a row event for a zero-column table decodes to one row with an empty
    // value vector and consumes nothing past the masks
    let mut ctx = TableMapContext::new();
    ctx.install(9, Vec::new());
    let mut input = header_bytes(0x1e, 19 + 15);
    input.extend_from_slice(&[9, 0, 0, 0, 0, 0]);
    input.extend_from_slice(&1u16.to_le_bytes());
    input.extend_from_slice(&2u16.to_le_bytes());
    input.push(0); // column count
    input.extend_from_slice(&3u32.to_le_bytes());
    let mut cur = Cursor::new(&input);
    let header = parse_header(&mut cur).unwrap();
    let event = parse_write_rows_v2(&mut cur, header, &ctx).unwrap();
    assert_eq!(cur.remaining(), 0);
    match event {
        Event::WriteRowsV2 { column_count, rows, .. } => {
            assert_eq!(column_count, 0);
            assert_eq!(rows, vec![Vec::<ColValues>::new()]);
        },
        _ => panic!("should be write_rows_v2"),
    }
}

#[test]
fn test_rows_need_prior_table_map() {
    // the same bytes are refused when no table-map was installed
    let ctx = TableMapContext::new();
    let mut input = header_bytes(0x1e, 19 + 15);
    input.extend_from_slice(&[9, 0, 0, 0, 0, 0]);
    input.extend_from_slice(&1u16.to_le_bytes());
    input.extend_from_slice(&2u16.to_le_bytes());
    input.push(0);
    input.extend_from_slice(&3u32.to_le_bytes());
    let mut cur = Cursor::new(&input);
    let header = parse_header(&mut cur).unwrap();
    assert_eq!(
        parse_write_rows_v2(&mut cur, header, &ctx),
        Err(boxercrab::codec::DecodeError::InvalidData)
    );
}
