use classfile::atom::Cursor;
use classfile::constant_pool::{Constant, ConstantPool};
use classfile::error::DecodeError;

fn pool_of(count: u16, entries: &[&[u8]]) -> Vec<u8> {
    let mut bytes = vec![(count >> 8) as u8, count as u8];
    for entry in entries {
        bytes.extend_from_slice(entry);
    }
    bytes
}

fn utf8(text: &[u8]) -> Vec<u8> {
    let mut bytes = vec![1, (text.len() >> 8) as u8, text.len() as u8];
    bytes.extend_from_slice(text);
    bytes
}

fn decode(bytes: &[u8]) -> ConstantPool {
    let (pool, cur) = ConstantPool::read(Cursor::new(bytes)).unwrap();
    assert_eq!(cur.position(), bytes.len());
    pool
}

#[test]
fn every_kind_of_entry_is_decoded() {
    let bytes = pool_of(
        20,
        &[
            &utf8(b"Hi"),
            &[3, 0x01, 0x02, 0x03, 0x04],
            &[4, 0x3F, 0x80, 0x00, 0x00],
            &[5, 0x01, 0x02, 0x03, 0x04, 0x05, 0x06, 0x07, 0x08],
            &[6, 0x40, 0x09, 0x21, 0xFB, 0x54, 0x44, 0x2D, 0x18],
            &[7, 0x00, 0x01],
            &[8, 0x00, 0x01],
            &[9, 0x00, 0x08, 0x00, 0x0D],
            &[10, 0x00, 0x08, 0x00, 0x0D],
            &[11, 0x00, 0x08, 0x00, 0x0D],
            &[12, 0x00, 0x01, 0x00, 0x01],
            &[15, 0x06, 0x00, 0x0B],
            &[16, 0x00, 0x01],
            &[17, 0x00, 0x02, 0x00, 0x0D],
            &[18, 0x01, 0x00, 0x00, 0x0D],
            &[19, 0x00, 0x01],
            &[20, 0x00, 0x01],
        ],
    );
    let pool = decode(&bytes);
    assert_eq!(pool.len(), 20);
    assert_eq!(pool.get(1), Ok(&Constant::Utf8(vec![b'H', b'i'])));
    assert_eq!(pool.get(2), Ok(&Constant::Integer(0x0102_0304)));
    assert_eq!(pool.get(3), Ok(&Constant::Float(0x3F80_0000)));
    assert_eq!(pool.get(4), Ok(&Constant::Long(0x0102_0304_0506_0708)));
    assert_eq!(pool.get(5), Err(DecodeError::IndexOutOfRange));
    assert_eq!(pool.get(6), Ok(&Constant::Double(0x4009_21FB_5444_2D18)));
    assert_eq!(pool.get(7), Err(DecodeError::IndexOutOfRange));
    assert_eq!(pool.get(8), Ok(&Constant::ClassRef(1)));
    assert_eq!(pool.get(9), Ok(&Constant::StringRef(1)));
    assert_eq!(pool.get(10), Ok(&Constant::FieldRef(8, 13)));
    assert_eq!(pool.get(11), Ok(&Constant::MethodRef(8, 13)));
    assert_eq!(pool.get(12), Ok(&Constant::InterfaceMethodRef(8, 13)));
    assert_eq!(pool.get(13), Ok(&Constant::NameAndType(1, 1)));
    assert_eq!(pool.get(14), Ok(&Constant::MethodHandle(6, 11)));
    assert_eq!(pool.get(15), Ok(&Constant::MethodType(1)));
    assert_eq!(pool.get(16), Ok(&Constant::Dynamic(2, 13)));
    assert_eq!(pool.get(17), Ok(&Constant::InvokeDynamic(0x0100, 13)));
    assert_eq!(pool.get(18), Ok(&Constant::Module(1)));
    assert_eq!(pool.get(19), Ok(&Constant::Package(1)));
}

#[test]
fn one_entry_is_read_on_its_own() {
    let bytes = [12_u8, 0x00, 0x05, 0x00, 0x06, 0xFF];
    let (entry, cur) = Constant::read(Cursor::new(&bytes)).unwrap();
    assert_eq!(entry, Constant::NameAndType(5, 6));
    assert_eq!(cur.position(), 5);
}

#[test]
fn index_zero_and_indices_past_the_end_are_out_of_range() {
    let pool = decode(&pool_of(3, &[&utf8(b"a"), &utf8(b"b")]));
    assert_eq!(pool.len(), 3);
    assert_eq!(pool.get(0), Err(DecodeError::IndexOutOfRange));
    assert_eq!(pool.get(1), Ok(&Constant::Utf8(vec![b'a'])));
    assert_eq!(pool.get(2), Ok(&Constant::Utf8(vec![b'b'])));
    assert_eq!(pool.get(3), Err(DecodeError::IndexOutOfRange));
    assert_eq!(pool.get(u16::MAX), Err(DecodeError::IndexOutOfRange));
}

#[test]
fn counts_of_zero_and_one_give_a_pool_without_entries() {
    for count in [0_u16, 1] {
        let pool = decode(&pool_of(count, &[]));
        assert_eq!(pool.len(), 1);
        assert_eq!(pool.get(0), Err(DecodeError::IndexOutOfRange));
        assert_eq!(pool.get(1), Err(DecodeError::IndexOutOfRange));
    }
}

#[test]
fn the_slot_behind_a_long_or_double_cannot_be_queried() {
    let long = [5_u8, 0, 0, 0, 0, 0, 0, 0, 42];
    let double = [6_u8, 0x3F, 0xF0, 0, 0, 0, 0, 0, 0];
    let pool = decode(&pool_of(7, &[&utf8(b"x"), &long, &double, &utf8(b"y")]));
    assert_eq!(pool.len(), 7);
    assert_eq!(pool.get(2), Ok(&Constant::Long(42)));
    assert_eq!(pool.get(3), Err(DecodeError::IndexOutOfRange));
    assert_eq!(pool.get_utf8(3), Err(DecodeError::IndexOutOfRange));
    assert_eq!(pool.get_str(3), Err(DecodeError::IndexOutOfRange));
    assert_eq!(pool.get_class_ref(3), Err(DecodeError::IndexOutOfRange));
    assert_eq!(pool.get_name_and_type(3), Err(DecodeError::IndexOutOfRange));
    assert_eq!(pool.get(4), Ok(&Constant::Double(0x3FF0_0000_0000_0000)));
    assert_eq!(pool.get(5), Err(DecodeError::IndexOutOfRange));
    assert_eq!(pool.get(1), Ok(&Constant::Utf8(vec![b'x'])));
    assert_eq!(pool.get(6), Ok(&Constant::Utf8(vec![b'y'])));
    assert_eq!(pool.get_str(1), Ok("x"));
    assert_eq!(pool.get_str(6), Ok("y"));
}

#[test]
fn a_long_in_the_last_slot_still_hides_the_slot_behind_it() {
    let long = [5_u8, 0xFF, 0xFF, 0xFF, 0xFF, 0xFF, 0xFF, 0xFF, 0xFF];
    let pool = decode(&pool_of(2, &[&long]));
    assert_eq!(pool.len(), 3);
    assert_eq!(pool.get(1), Ok(&Constant::Long(u64::MAX)));
    assert_eq!(pool.get(2), Err(DecodeError::IndexOutOfRange));
}

#[test]
fn a_pool_cut_short_is_an_unexpected_end() {
    let whole = pool_of(3, &[&utf8(b"Test"), &[7, 0, 1]]);
    assert!(ConstantPool::read(Cursor::new(&whole)).is_ok());
    for keep in 0..whole.len() {
        let res = ConstantPool::read(Cursor::new(&whole[..keep]));
        assert_eq!(res.err(), Some(DecodeError::UnexpectedEof), "kept {} bytes", keep);
    }
}

#[test]
fn an_unassigned_tag_is_refused() {
    for tag in [0_u8, 2, 13, 14, 21, 0xFF] {
        let bytes = pool_of(2, &[&[tag, 0, 0, 0, 0, 0, 0, 0, 0]]);
        let res = ConstantPool::read(Cursor::new(&bytes));
        assert_eq!(res.err(), Some(DecodeError::UnknownConstantTag), "tag {}", tag);
    }
}

#[test]
fn an_unassigned_tag_is_refused_even_at_the_end_of_the_buffer() {
    let bytes = pool_of(2, &[&[2]]);
    let res = ConstantPool::read(Cursor::new(&bytes));
    assert_eq!(res.err(), Some(DecodeError::UnknownConstantTag));
}

#[test]
fn the_first_fault_is_the_one_reported() {
    let bytes = pool_of(3, &[&[99], &[7, 0]]);
    let res = ConstantPool::read(Cursor::new(&bytes));
    assert_eq!(res.err(), Some(DecodeError::UnknownConstantTag));
    let bytes = pool_of(3, &[&[7, 0, 1], &[3, 0]]);
    let res = ConstantPool::read(Cursor::new(&bytes));
    assert_eq!(res.err(), Some(DecodeError::UnexpectedEof));
}

#[test]
fn bytes_behind_the_pool_are_left_for_the_caller() {
    let mut bytes = pool_of(2, &[&utf8(b"a")]);
    bytes.extend_from_slice(&[0xDE, 0xAD]);
    let (pool, cur) = ConstantPool::read(Cursor::new(&bytes)).unwrap();
    assert_eq!(pool.len(), 2);
    assert_eq!(cur.position(), bytes.len() - 2);
    let (next, _) = cur.read_u2().unwrap();
    assert_eq!(next, 0xDEAD);
}

#[test]
fn get_str_reads_text_directly_and_through_one_reference() {
    let pool = decode(&pool_of(
        6,
        &[&utf8(b"java/lang/Object"), &[7, 0, 1], &[8, 0, 1], &[7, 0, 2], &[3, 0, 0, 0, 7]],
    ));
    assert_eq!(pool.get_str(1), Ok("java/lang/Object"));
    assert_eq!(pool.get_str(2), Ok("java/lang/Object"));
    assert_eq!(pool.get_str(3), Ok("java/lang/Object"));
    assert_eq!(pool.get_str(4), Err(DecodeError::TypeMismatch));
    assert_eq!(pool.get_str(5), Err(DecodeError::TypeMismatch));
    assert_eq!(pool.get_str(0), Err(DecodeError::IndexOutOfRange));
    assert_eq!(pool.get_str(6), Err(DecodeError::IndexOutOfRange));
}

#[test]
fn get_str_reports_a_reference_that_leads_nowhere() {
    let pool = decode(&pool_of(3, &[&[7, 0, 9], &[8, 0, 0]]));
    assert_eq!(pool.get_str(1), Err(DecodeError::IndexOutOfRange));
    assert_eq!(pool.get_str(2), Err(DecodeError::IndexOutOfRange));
}

#[test]
fn get_str_decodes_utf8() {
    let pool = decode(&pool_of(
        4,
        &[&utf8(&[0xC3, 0xA9, 0x74, 0xC3, 0xA9]), &utf8(&[0xE2, 0x82, 0xAC]), &utf8(b"")],
    ));
    assert_eq!(pool.get_str(1), Ok("\u{e9}t\u{e9}"));
    assert_eq!(pool.get_str(2), Ok("\u{20ac}"));
    assert_eq!(pool.get_str(3), Ok(""));
    assert_eq!(pool.get_utf8(1), Ok(&[0xC3_u8, 0xA9, 0x74, 0xC3, 0xA9][..]));
}

#[test]
fn bytes_that_are_not_utf8_are_kept_but_are_no_text() {
    let pool = decode(&pool_of(
        5,
        &[&utf8(&[0x41, 0xFF]), &[7, 0, 1], &utf8(&[0xC0, 0x80]), &utf8(&[0xED, 0xA0, 0x80])],
    ));
    assert_eq!(pool.get_utf8(1), Ok(&[0x41_u8, 0xFF][..]));
    assert_eq!(pool.get_str(1), Err(DecodeError::TypeMismatch));
    assert_eq!(pool.get_str(2), Err(DecodeError::TypeMismatch));
    assert_eq!(pool.get_str(3), Err(DecodeError::TypeMismatch));
    assert_eq!(pool.get_str(4), Err(DecodeError::TypeMismatch));
}

#[test]
fn typed_lookups_refuse_other_kinds() {
    let pool = decode(&pool_of(4, &[&utf8(b"n"), &[7, 0, 1], &[12, 0, 1, 0, 1]]));
    assert_eq!(pool.get_utf8(1), Ok(&b"n"[..]));
    assert_eq!(pool.get_utf8(2), Err(DecodeError::TypeMismatch));
    assert_eq!(pool.get_class_ref(2), Ok(1));
    assert_eq!(pool.get_class_ref(1), Err(DecodeError::TypeMismatch));
    assert_eq!(pool.get_class_ref(3), Err(DecodeError::TypeMismatch));
    assert_eq!(pool.get_name_and_type(3), Ok((1, 1)));
    assert_eq!(pool.get_name_and_type(2), Err(DecodeError::TypeMismatch));
    assert_eq!(pool.get_class_ref(0), Err(DecodeError::IndexOutOfRange));
    assert_eq!(pool.get_name_and_type(4), Err(DecodeError::IndexOutOfRange));
}
