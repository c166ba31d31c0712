use boxercrab::codec::{
    extract_string, get_var_bytes, put_var_bytes, string_var, Cursor, DecodeError, VLenInt,
};

#[test]
fn test_fixed_int_round_trip() {
    // every width: encode then decode gives the value back
    let cases: [(u64, usize); 6] = [
        (0xab, 1),
        (0xbeef, 2),
        (0xc0ffee, 3),
        (0xdeadbeef, 4),
        (0xfeedfacecafe, 6),
        (0x0123456789abcdef, 8),
    ];
    for (v, n) in cases {
        let mut buf: Vec<u8> = Vec::new();
        boxercrab::codec::push_le(&mut buf, v, n);
        assert_eq!(buf.len(), n);
        let mut cur = Cursor::new(&buf);
        assert_eq!(cur.read_le(n).unwrap(), v);
        assert_eq!(cur.remaining(), 0);
    }
}

#[test]
fn test_le_readers() {
    let data: Vec<u8> = vec![0x78, 0x56, 0x34, 0x12, 0xff, 0x00];
    let mut cur = Cursor::new(&data);
    assert_eq!(cur.read_u32().unwrap(), 0x12345678);
    let mut cur = Cursor::new(&data);
    assert_eq!(cur.read_u16().unwrap(), 0x5678);
    let mut cur = Cursor::new(&data);
    assert_eq!(cur.read_u24().unwrap(), 0x345678);
    let mut cur = Cursor::new(&data);
    assert_eq!(cur.read_le(6).unwrap(), 0x00ff12345678);
}

#[test]
fn test_lenenc_boundaries() {
    // the encoded form uses the minimal shape at each boundary
    let cases: [(u64, usize); 7] = [
        (0, 1),
        (250, 1),
        (251, 3),
        (65535, 3),
        (65536, 4),
        (16777215, 4),
        (16777216, 9),
    ];
    for (v, want_len) in cases {
        let enc = VLenInt::new(v).bytes();
        assert_eq!(enc.len(), want_len);
        let mut cur = Cursor::new(&enc);
        let back = VLenInt::decode(&mut cur).unwrap();
        assert_eq!(back.value(), v);
        assert_eq!(cur.remaining(), 0);
    }
}

#[test]
fn test_lenenc_invalid_lead_bytes() {
    for b in [0xfbu8, 0xffu8] {
        let data = vec![b];
        let mut cur = Cursor::new(&data);
        assert_eq!(VLenInt::decode(&mut cur), Err(DecodeError::InvalidData));
    }
}

#[test]
fn test_null_terminated_bytes() {
    let data: Vec<u8> = vec![b'a', b'b', b'c', 0, b'd'];
    let mut cur = Cursor::new(&data);
    let run = cur.read_null_term_bytes().unwrap();
    assert_eq!(run, vec![b'a', b'b', b'c']);
    assert_eq!(cur.remaining(), 1);

    let data: Vec<u8> = vec![b'a', b'b'];
    let mut cur = Cursor::new(&data);
    assert_eq!(cur.read_null_term_bytes(), Err(DecodeError::MissingNullTerminator));
    assert_eq!(cur.remaining(), 2);
}

#[test]
fn test_var_bytes_round_trip() {
    let payload: Vec<u8> = vec![9, 8, 7, 6];
    let mut buf: Vec<u8> = Vec::new();
    put_var_bytes(&payload, &mut buf);
    assert_eq!(buf, vec![4, 9, 8, 7, 6]);
    let mut cur = Cursor::new(&buf);
    assert_eq!(get_var_bytes(&mut cur).unwrap(), payload);
    assert_eq!(cur.remaining(), 0);
}

#[test]
fn test_strings() {
    let data: Vec<u8> = vec![3, b'a', b'b', b'c'];
    let mut cur = Cursor::new(&data);
    assert_eq!(boxercrab::codec::get_var_str(&mut cur).unwrap(), "abc".to_string());
    assert_eq!(extract_string(&[b'a', b'b', 0, b'c']), "ab".to_string());
    assert_eq!(extract_string(&[b'x', b'y']), "xy".to_string());
    assert_eq!(string_var(&[b'h', b'e', b'l', b'l', b'o'], 3), "hel".to_string());
    assert_eq!(string_var(&[b'h', b'i'], 9), "hi".to_string());
}
