use crab_nbt::error::Error;
use crab_nbt::slice_cursor::BinarySliceCursor;

#[test]
fn slice_cursor_test_get_slice() {
    let data = [0u8, 1, 2, 3, 4, 5, 6];
    let mut cursor = BinarySliceCursor::new(&data[..]);
    cursor.set_pos(2);
    let slice = cursor.read(3).unwrap();
    assert_eq!(slice, &[2, 3, 4][..]);
    let slice2 = cursor.read(10).unwrap_err();
    assert!(matches!(
        slice2,
        Error::NotEnoughBytes {
            available: 2,
            requested: 10
        }
    ));
}

#[test]
fn read_past_end_reports_request_and_rest_and_stays() {
    let data = [1u8, 2, 3];
    let mut cursor = BinarySliceCursor::new(&data[..]);
    assert_eq!(cursor.read(1).unwrap(), &[1][..]);
    assert_eq!(
        cursor.read(5).unwrap_err(),
        Error::NotEnoughBytes { requested: 5, available: 2 }
    );
    assert_eq!(cursor.pos(), 1);
    assert_eq!(cursor.read(2).unwrap(), &[2, 3][..]);
    assert!(!cursor.has_remaining());
    assert_eq!(
        cursor.read(1).unwrap_err(),
        Error::NotEnoughBytes { requested: 1, available: 0 }
    );
}

#[test]
fn skip_within_and_past_end() {
    let data = [0u8; 4];
    let mut cursor = BinarySliceCursor::new(&data[..]);
    assert_eq!(cursor.skip(4), Ok(()));
    assert_eq!(cursor.position(), 4);
    cursor.set_pos(1);
    assert_eq!(
        cursor.skip(4).unwrap_err(),
        Error::InvalidSkip { amount: 4, available: 3 }
    );
    assert_eq!(cursor.pos(), 1);
}

#[test]
fn scalar_readers_are_big_endian() {
    let data = [
        0xffu8, 0x12, 0x34, 0xff, 0xfe, 0x00, 0x00, 0x08, 0x59, 0x80, 0x00, 0x00, 0x00, 0x00, 0x00, 0x00,
        0x01, 0xde, 0xad, 0xbe, 0xef,
    ];
    let mut c = BinarySliceCursor::new(&data[..]);
    assert_eq!(c.read_i8(), Ok(-1));
    assert_eq!(c.read_u16_be(), Ok(0x1234));
    assert_eq!(c.read_i16_be(), Ok(-2));
    assert_eq!(c.read_i32_be(), Ok(2137));
    assert_eq!(c.read_i64_be(), Ok(i64::MIN + 1));
    assert_eq!(c.read_u32_be(), Ok(0xdeadbeef));
    assert!(c.read_u8().is_err());

    let mut c = BinarySliceCursor::new(&data[..]);
    assert_eq!(c.read_u8(), Ok(0xff));
    assert_eq!(c.read_array::<3>(), Ok([0x12, 0x34, 0xff]));
    assert_eq!(c.remaining_len(), data.len() - 4);
    c.set_pos(9);
    assert_eq!(c.read_u64_be(), Ok(0x8000_0000_0000_0001));
}
