use xiprfs_fae_tools::cstr_buf::{CStrBuf, CStrBufError};

#[test]
fn cstr_buf_writes_and_terminates() {
    let mut storage = [0xAAu8; 8];
    let mut buf = CStrBuf::new(&mut storage);
    assert_eq!(buf.write_str("abc"), Ok(()));
    assert_eq!(buf.write_str("defg"), Ok(()));
    assert_eq!(buf.write_str("h"), Err(CStrBufError));
    let c = buf.add_null_terminator().unwrap();
    assert_eq!(c, b"abcdefg\0");
    assert_eq!(storage, *b"abcdefg\0");
}

#[test]
fn cstr_buf_rejects_interior_nul_and_keeps_text() {
    let mut storage = [0x55u8; 16];
    let mut buf = CStrBuf::new(&mut storage);
    assert_eq!(buf.write_str("ok"), Ok(()));
    assert_eq!(buf.write_str("a\0b"), Err(CStrBufError));
    assert_eq!(buf.write_str("é"), Ok(()));
    assert_eq!(buf.add_null_terminator(), Ok(&[b'o', b'k', 0xC3, 0xA9, 0][..]));
    assert_eq!(&storage[..5], &[b'o', b'k', 0xC3, 0xA9, 0]);
    assert!(storage[5..].iter().all(|&b| b == 0x55));
}

#[test]
fn cstr_buf_needs_room_for_the_terminator() {
    let mut empty: [u8; 0] = [];
    assert_eq!(CStrBuf::new(&mut empty).add_null_terminator(), Err(CStrBufError));
    let mut storage = [9u8; 1];
    let mut one = CStrBuf::new(&mut storage);
    assert_eq!(one.write_str("x"), Err(CStrBufError));
    assert_eq!(one.add_null_terminator(), Ok(&[0u8][..]));
    assert_eq!(storage, [0]);
}

#[test]
fn cstr_buf_refusal_leaves_buffer_unchanged() {
    let mut storage = [1u8, 2, 3, 4];
    let mut buf = CStrBuf::new(&mut storage);
    assert_eq!(buf.write_str("abcd"), Err(CStrBufError));
    assert_eq!(buf.write_str("a\0"), Err(CStrBufError));
    assert_eq!(buf.write_str("ab"), Ok(()));
    drop(buf);
    assert_eq!(storage, [b'a', b'b', 3, 4]);
}
