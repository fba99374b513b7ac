use classfile::atom::Cursor;
use classfile::error::DecodeError;

#[test]
fn read_u1_takes_one_byte() {
    let bytes = [0xAB_u8, 0xCD];
    let (v, cur) = Cursor::new(&bytes).read_u1().unwrap();
    assert_eq!(v, 0xAB);
    assert_eq!(cur.position(), 1);
    let (w, cur) = cur.read_u1().unwrap();
    assert_eq!(w, 0xCD);
    assert_eq!(cur.position(), 2);
}

#[test]
fn read_u2_is_big_endian() {
    let bytes = [0x12_u8, 0x34, 0xFF, 0xFF];
    let (v, cur) = Cursor::new(&bytes).read_u2().unwrap();
    assert_eq!(v, 0x1234);
    assert_eq!(cur.position(), 2);
    let (w, cur) = cur.read_u2().unwrap();
    assert_eq!(w, 0xFFFF);
    assert_eq!(cur.position(), 4);
}

#[test]
fn read_u4_is_big_endian() {
    let bytes = [0xCA_u8, 0xFE, 0xBA, 0xBE, 0xFF, 0xFF, 0xFF, 0xFF];
    let (v, cur) = Cursor::new(&bytes).read_u4().unwrap();
    assert_eq!(v, 0xCAFE_BABE);
    assert_eq!(cur.position(), 4);
    let (w, cur) = cur.read_u4().unwrap();
    assert_eq!(w, u32::MAX);
    assert_eq!(cur.position(), 8);
}

#[test]
fn reads_fail_at_the_end() {
    let empty: [u8; 0] = [];
    assert_eq!(Cursor::new(&empty).read_u1().err(), Some(DecodeError::UnexpectedEof));
    let one = [1_u8];
    assert_eq!(Cursor::new(&one).read_u2().err(), Some(DecodeError::UnexpectedEof));
    let three = [1_u8, 2, 3];
    assert_eq!(Cursor::new(&three).read_u4().err(), Some(DecodeError::UnexpectedEof));
    let (_, cur) = Cursor::new(&three).read_u2().unwrap();
    assert_eq!(cur.read_u2().err(), Some(DecodeError::UnexpectedEof));
}

#[test]
fn read_bytes_copies_what_it_is_asked_for() {
    let bytes = [1_u8, 2, 3, 4, 5];
    let (_, cur) = Cursor::new(&bytes).read_u1().unwrap();
    let (taken, cur) = cur.read_bytes(3).unwrap();
    assert_eq!(taken, vec![2, 3, 4]);
    assert_eq!(cur.position(), 4);
    let (none, cur) = cur.read_bytes(0).unwrap();
    assert_eq!(none, Vec::<u8>::new());
    assert_eq!(cur.position(), 4);
    assert_eq!(cur.read_bytes(2).err(), Some(DecodeError::UnexpectedEof));
}

#[test]
fn take_fences_the_window() {
    let bytes = [9_u8, 0, 1, 0, 2, 7];
    let (_, cur) = Cursor::new(&bytes).read_u1().unwrap();
    let (window, rest) = cur.take(4).unwrap();
    assert_eq!(window.position(), 0);
    assert_eq!(rest.position(), 5);
    let (a, window) = window.read_u2().unwrap();
    let (b, window) = window.read_u2().unwrap();
    assert_eq!((a, b), (1, 2));
    assert_eq!(window.read_u1().err(), Some(DecodeError::UnexpectedEof));
    let (last, rest) = rest.read_u1().unwrap();
    assert_eq!(last, 7);
    assert_eq!(rest.take(1).err(), Some(DecodeError::UnexpectedEof));
}

#[test]
fn take_of_nothing_succeeds_at_the_end() {
    let bytes = [1_u8];
    let (_, cur) = Cursor::new(&bytes).read_u1().unwrap();
    let (window, rest) = cur.take(0).unwrap();
    assert_eq!(window.read_u1().err(), Some(DecodeError::UnexpectedEof));
    assert_eq!(rest.position(), 1);
}
