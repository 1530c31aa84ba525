use tzfile::{ReadError, Reader};

#[test]
fn reads_go_forward() {
    let mut r = Reader::new(vec![1, 2, 3, 4, 5, 6, 7]);
    assert_eq!(r.position(), 0);
    assert_eq!(r.remaining_len(), 7);
    assert_eq!(r.read_u8(), Ok(1));
    assert_eq!(r.read_exact(2), Ok(vec![2, 3]));
    assert_eq!(r.skip(1), Ok(()));
    assert_eq!(r.position(), 4);
    assert_eq!(r.read_exact(0), Ok(vec![]));
    assert_eq!(r.read_exact(3), Ok(vec![5, 6, 7]));
    assert_eq!(r.remaining_len(), 0);
    assert_eq!(r.read_exact(0), Ok(vec![]));
    assert_eq!(r.skip(0), Ok(()));
}

#[test]
fn failed_read_leaves_the_reader_where_it_was() {
    let mut r = Reader::new(vec![1, 2, 3]);
    assert_eq!(r.read_be_u32(), Err(ReadError::UnexpectedEof));
    assert_eq!(r.read_be_i32(), Err(ReadError::UnexpectedEof));
    assert_eq!(r.read_be_int_n(4), Err(ReadError::UnexpectedEof));
    assert_eq!(r.read_be_int_n(8), Err(ReadError::UnexpectedEof));
    assert_eq!(r.read_exact(4), Err(ReadError::UnexpectedEof));
    assert_eq!(r.skip(4), Err(ReadError::UnexpectedEof));
    assert_eq!(r.skip(u64::MAX), Err(ReadError::UnexpectedEof));
    assert_eq!(r.position(), 0);
    assert_eq!(r.read_exact(3), Ok(vec![1, 2, 3]));
    assert_eq!(r.read_u8(), Err(ReadError::UnexpectedEof));
    assert_eq!(r.position(), 3);
}

#[test]
fn unsigned_numbers_most_significant_byte_first() {
    let mut r = Reader::new(vec![
        0, 0, 0, 0, 0, 0, 0, 1, 0x54, 0x5a, 0x69, 0x66, 0x12, 0x34, 0x56, 0x78, 0x80, 0, 0, 0, 0xff,
        0xff, 0xff, 0xff,
    ]);
    assert_eq!(r.read_be_u32(), Ok(0));
    assert_eq!(r.read_be_u32(), Ok(1));
    assert_eq!(r.read_be_u32(), Ok(0x545a6966));
    assert_eq!(r.read_be_u32(), Ok(0x12345678));
    assert_eq!(r.read_be_u32(), Ok(2_147_483_648));
    assert_eq!(r.read_be_u32(), Ok(4_294_967_295));
}

#[test]
fn signed_numbers_of_four_bytes() {
    let mut r = Reader::new(vec![
        0, 0, 0x0e, 0x10, 0x7f, 0xff, 0xff, 0xff, 0x80, 0, 0, 0, 0xff, 0xff, 0xff, 0xff, 0xff, 0xff,
        0xb9, 0xb0,
    ]);
    assert_eq!(r.read_be_i32(), Ok(3600));
    assert_eq!(r.read_be_i32(), Ok(i32::MAX));
    assert_eq!(r.read_be_i32(), Ok(i32::MIN));
    assert_eq!(r.read_be_int_n(4), Ok(-1));
    assert_eq!(r.read_be_int_n(4), Ok(-18000));
}

#[test]
fn signed_numbers_of_eight_bytes() {
    let mut bytes = Vec::new();
    let values =
        [0i64, 1, -1, 0x0102_0304_0506_0708, i64::MAX, i64::MIN, i64::MIN + 1, -0x1_0000_0000];
    for v in values {
        bytes.extend_from_slice(&v.to_be_bytes());
    }
    let mut r = Reader::new(bytes);
    for v in values {
        assert_eq!(r.read_be_int_n(8), Ok(v));
    }
    assert_eq!(r.remaining_len(), 0);
}

#[test]
fn numbers_of_four_bytes_widen_with_their_sign() {
    let mut bytes = Vec::new();
    let values = [0i32, 7, -7, i32::MAX, i32::MIN];
    for v in values {
        bytes.extend_from_slice(&v.to_be_bytes());
    }
    let mut r = Reader::new(bytes);
    for v in values {
        assert_eq!(r.read_be_int_n(4), Ok(v as i64));
    }
}
