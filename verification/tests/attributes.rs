use classfile::atom::Cursor;
use classfile::attribute::{read_attributes, read_handlers, Attribute, ExceptionHandler};
use classfile::constant_pool::ConstantPool;
use classfile::error::DecodeError;
use classfile::field::{read_fields, Field};
use classfile::interface::read_interfaces;
use std::sync::Arc;

/// Slots: 1 "Code", 2 "Other", 3 Integer, 4 ClassRef -> 1, 5 bytes that are no text.
fn pool() -> ConstantPool {
    let bytes = [
        0, 6, 1, 0, 4, b'C', b'o', b'd', b'e', 1, 0, 5, b'O', b't', b'h', b'e', b'r', 3, 0, 0, 0,
        1, 7, 0, 1, 1, 0, 1, 0xFF,
    ];
    let (pool, cur) = ConstantPool::read(Cursor::new(&bytes)).unwrap();
    assert_eq!(cur.position(), bytes.len());
    pool
}

fn attribute(name_index: u16, body: &[u8]) -> Vec<u8> {
    let len = body.len() as u32;
    let mut bytes = vec![
        (name_index >> 8) as u8,
        name_index as u8,
        (len >> 24) as u8,
        (len >> 16) as u8,
        (len >> 8) as u8,
        len as u8,
    ];
    bytes.extend_from_slice(body);
    bytes
}

fn code_body(max_stack: u16, max_locals: u16, code: &[u8], handlers: &[u8], attrs: &[u8]) -> Vec<u8> {
    let len = code.len() as u32;
    let mut bytes = vec![
        (max_stack >> 8) as u8,
        max_stack as u8,
        (max_locals >> 8) as u8,
        max_locals as u8,
        (len >> 24) as u8,
        (len >> 16) as u8,
        (len >> 8) as u8,
        len as u8,
    ];
    bytes.extend_from_slice(code);
    bytes.extend_from_slice(handlers);
    bytes.extend_from_slice(attrs);
    bytes
}

#[test]
fn an_unknown_attribute_keeps_its_bytes() {
    let pool = pool();
    let mut bytes = attribute(2, &[1, 2, 3]);
    bytes.push(0x77);
    let (attr, cur) = Attribute::read(Cursor::new(&bytes), &pool).unwrap();
    assert_eq!(attr, Attribute::Opaque(2, vec![1, 2, 3]));
    assert_eq!(cur.position(), 6 + 3);
}

#[test]
fn an_empty_attribute_is_six_bytes() {
    let pool = pool();
    let bytes = attribute(2, &[]);
    let (attr, cur) = Attribute::read(Cursor::new(&bytes), &pool).unwrap();
    assert_eq!(attr, Attribute::Opaque(2, vec![]));
    assert_eq!(cur.position(), 6);
}

#[test]
fn a_code_attribute_is_decoded() {
    let pool = pool();
    let handlers = [0, 2, 0, 0, 0, 4, 0, 8, 0, 0, 0, 1, 0, 5, 0, 9, 0, 4];
    let nested = [&[0_u8, 1][..], &attribute(2, &[0xAA])[..]].concat();
    let body = code_body(3, 2, &[0x2A, 0xB7, 0xB1], &handlers, &nested);
    let bytes = attribute(1, &body);
    let (attr, cur) = Attribute::read(Cursor::new(&bytes), &pool).unwrap();
    assert_eq!(cur.position(), 6 + body.len());
    assert_eq!(
        attr,
        Attribute::Code(
            3,
            2,
            Arc::new(vec![0x2A, 0xB7, 0xB1]),
            Arc::new(vec![
                ExceptionHandler { start_pc: 0, end_pc: 4, handler_pc: 8, catch_type: 0 },
                ExceptionHandler { start_pc: 1, end_pc: 5, handler_pc: 9, catch_type: 4 },
            ]),
            Arc::new(vec![Attribute::Opaque(2, vec![0xAA])]),
        )
    );
}

#[test]
fn the_cursor_moves_by_the_declared_length_whatever_the_body_is() {
    let pool = pool();
    let body = code_body(1, 1, &[0xB1], &[0, 0], &[0, 0]);
    let padded = [&body[..], &[0xEE, 0xEE, 0xEE][..]].concat();
    for (name_index, body) in [(1_u16, &body), (2, &body), (1, &padded), (2, &padded)] {
        let mut bytes = vec![0xFF, 0xFF];
        bytes.extend_from_slice(&attribute(name_index, body));
        bytes.extend_from_slice(&[0x12, 0x34]);
        let (_, start) = Cursor::new(&bytes).read_u2().unwrap();
        let (_, cur) = Attribute::read(start, &pool).unwrap();
        assert_eq!(cur.position(), 2 + 6 + body.len());
        let (behind, _) = cur.read_u2().unwrap();
        assert_eq!(behind, 0x1234);
    }
}

#[test]
fn bytes_of_a_code_body_behind_its_tables_are_skipped() {
    let pool = pool();
    let body = code_body(1, 1, &[0xB1], &[0, 0], &[0, 0]);
    let padded = [&body[..], &[0xEE, 0xEE, 0xEE][..]].concat();
    let (attr, _) = Attribute::read(Cursor::new(&attribute(1, &padded)), &pool).unwrap();
    assert_eq!(
        attr,
        Attribute::Code(1, 1, Arc::new(vec![0xB1]), Arc::new(vec![]), Arc::new(vec![]))
    );
}

#[test]
fn a_code_body_cannot_read_past_its_declared_length() {
    let pool = pool();
    let body = code_body(1, 1, &[0xB1], &[0, 0], &[0, 0]);
    let mut bytes = attribute(1, &body[..body.len() - 1]);
    bytes.extend_from_slice(&[0, 0, 0, 0]);
    let res = Attribute::read(Cursor::new(&bytes), &pool);
    assert_eq!(res.err(), Some(DecodeError::UnexpectedEof));
}

#[test]
fn an_attribute_cut_short_is_an_unexpected_end() {
    let pool = pool();
    for name_index in [1_u16, 2] {
        let whole = attribute(name_index, &code_body(1, 1, &[0xB1], &[0, 0], &[0, 0]));
        assert!(Attribute::read(Cursor::new(&whole), &pool).is_ok());
        for keep in 0..whole.len() {
            let res = Attribute::read(Cursor::new(&whole[..keep]), &pool);
            assert_eq!(res.err(), Some(DecodeError::UnexpectedEof), "kept {} bytes", keep);
        }
    }
}

#[test]
fn the_name_of_an_attribute_must_be_text() {
    let pool = pool();
    let expected = [
        (3_u16, DecodeError::TypeMismatch),
        (5, DecodeError::TypeMismatch),
        (0, DecodeError::IndexOutOfRange),
        (6, DecodeError::IndexOutOfRange),
    ];
    for (name_index, fault) in expected {
        let bytes = attribute(name_index, &[]);
        let res = Attribute::read(Cursor::new(&bytes), &pool);
        assert_eq!(res.err(), Some(fault), "name index {}", name_index);
    }
}

#[test]
fn the_name_is_resolved_before_the_body_is_looked_at() {
    let pool = pool();
    let bytes = [0_u8, 3, 0, 0, 0, 9];
    let res = Attribute::read(Cursor::new(&bytes), &pool);
    assert_eq!(res.err(), Some(DecodeError::TypeMismatch));
}

#[test]
fn a_name_reached_through_a_class_reference_counts() {
    let pool = pool();
    let body = code_body(7, 8, &[], &[0, 0], &[0, 0]);
    let (attr, _) = Attribute::read(Cursor::new(&attribute(4, &body)), &pool).unwrap();
    assert_eq!(attr, Attribute::Code(7, 8, Arc::new(vec![]), Arc::new(vec![]), Arc::new(vec![])));
}

#[test]
fn code_inside_code_is_decoded_too() {
    let pool = pool();
    let inner = attribute(1, &code_body(1, 0, &[0x00], &[0, 0], &[0, 0]));
    let nested = [&[0_u8, 1][..], &inner[..]].concat();
    let outer = attribute(1, &code_body(2, 0, &[0xB1], &[0, 0], &nested));
    let (attr, cur) = Attribute::read(Cursor::new(&outer), &pool).unwrap();
    assert_eq!(cur.position(), outer.len());
    assert_eq!(
        attr,
        Attribute::Code(
            2,
            0,
            Arc::new(vec![0xB1]),
            Arc::new(vec![]),
            Arc::new(vec![Attribute::Code(
                1,
                0,
                Arc::new(vec![0x00]),
                Arc::new(vec![]),
                Arc::new(vec![]),
            )]),
        )
    );
}

#[test]
fn a_fault_inside_a_code_body_fails_the_attribute() {
    let pool = pool();
    let nested = [&[0_u8, 1][..], &attribute(3, &[])[..]].concat();
    let outer = attribute(1, &code_body(2, 0, &[0xB1], &[0, 0], &nested));
    let res = Attribute::read(Cursor::new(&outer), &pool);
    assert_eq!(res.err(), Some(DecodeError::TypeMismatch));
}

#[test]
fn read_code_reads_a_bare_body() {
    let pool = pool();
    let body = code_body(1, 1, &[0xB1], &[0, 0], &[0, 0]);
    let code = Attribute::read_code(Cursor::new(&body), &pool).unwrap();
    assert_eq!(code, Attribute::Code(1, 1, Arc::new(vec![0xB1]), Arc::new(vec![]), Arc::new(vec![])));
    let res = Attribute::read_code(Cursor::new(&body[..7]), &pool);
    assert_eq!(res.err(), Some(DecodeError::UnexpectedEof));
}

#[test]
fn a_table_of_attributes_is_read_in_order() {
    let pool = pool();
    let mut bytes = vec![0, 3];
    bytes.extend_from_slice(&attribute(2, &[1]));
    bytes.extend_from_slice(&attribute(1, &code_body(1, 1, &[0xB1], &[0, 0], &[0, 0])));
    bytes.extend_from_slice(&attribute(2, &[2, 3]));
    let (attrs, cur) = read_attributes(Cursor::new(&bytes), &pool).unwrap();
    assert_eq!(cur.position(), bytes.len());
    assert_eq!(
        attrs,
        vec![
            Attribute::Opaque(2, vec![1]),
            Attribute::Code(1, 1, Arc::new(vec![0xB1]), Arc::new(vec![]), Arc::new(vec![])),
            Attribute::Opaque(2, vec![2, 3]),
        ]
    );
    let (none, cur) = read_attributes(Cursor::new(&[0, 0, 9]), &pool).unwrap();
    assert_eq!(none, vec![]);
    assert_eq!(cur.position(), 2);
    let res = read_attributes(Cursor::new(&bytes[..bytes.len() - 1]), &pool);
    assert_eq!(res.err(), Some(DecodeError::UnexpectedEof));
    assert_eq!(read_attributes(Cursor::new(&[0]), &pool).err(), Some(DecodeError::UnexpectedEof));
}

#[test]
fn an_exception_table_is_read_in_order() {
    let bytes = [0_u8, 2, 0, 1, 0, 2, 0, 3, 0, 4, 1, 0, 2, 0, 3, 0, 4, 0, 0xFF];
    let (handlers, cur) = read_handlers(Cursor::new(&bytes)).unwrap();
    assert_eq!(cur.position(), 18);
    assert_eq!(
        handlers,
        vec![
            ExceptionHandler { start_pc: 1, end_pc: 2, handler_pc: 3, catch_type: 4 },
            ExceptionHandler {
                start_pc: 0x100,
                end_pc: 0x200,
                handler_pc: 0x300,
                catch_type: 0x400
            },
        ]
    );
    for keep in 0..18 {
        let res = read_handlers(Cursor::new(&bytes[..keep]));
        assert_eq!(res.err(), Some(DecodeError::UnexpectedEof), "kept {} bytes", keep);
    }
}

#[test]
fn interfaces_are_read_in_order() {
    let bytes = [0_u8, 3, 0, 7, 1, 0, 0xFF, 0xFF, 0xAA];
    let (interfaces, cur) = read_interfaces(Cursor::new(&bytes)).unwrap();
    assert_eq!(interfaces, vec![7, 0x100, 0xFFFF]);
    assert_eq!(cur.position(), 8);
    let (none, cur) = read_interfaces(Cursor::new(&[0, 0])).unwrap();
    assert_eq!(none, Vec::<u16>::new());
    assert_eq!(cur.position(), 2);
    for keep in 0..8 {
        let res = read_interfaces(Cursor::new(&bytes[..keep]));
        assert_eq!(res.err(), Some(DecodeError::UnexpectedEof), "kept {} bytes", keep);
    }
}

#[test]
fn a_field_is_decoded_with_its_name_and_descriptor() {
    let pool = pool();
    let mut bytes = vec![0x00, 0x1A, 0, 2, 0, 1, 0, 1];
    bytes.extend_from_slice(&attribute(2, &[5]));
    let (field, cur) = Field::read(Cursor::new(&bytes), &pool).unwrap();
    assert_eq!(cur.position(), bytes.len());
    assert_eq!(
        field,
        Field {
            access_flag: 0x1A,
            name_index: 2,
            descriptor_index: 1,
            name: "Other".to_string(),
            descriptor: "Code".to_string(),
            attributes: vec![Attribute::Opaque(2, vec![5])],
        }
    );
}

#[test]
fn a_table_of_fields_is_read_in_order() {
    let pool = pool();
    let bytes = [0_u8, 2, 0, 1, 0, 1, 0, 2, 0, 0, 0, 2, 0, 2, 0, 1, 0, 0];
    let (fields, cur) = read_fields(Cursor::new(&bytes), &pool).unwrap();
    assert_eq!(cur.position(), bytes.len());
    assert_eq!(fields.len(), 2);
    assert_eq!((fields[0].name.as_str(), fields[0].descriptor.as_str()), ("Code", "Other"));
    assert_eq!((fields[1].name.as_str(), fields[1].descriptor.as_str()), ("Other", "Code"));
    assert_eq!((fields[0].access_flag, fields[1].access_flag), (1, 2));
    for keep in 0..bytes.len() {
        let res = read_fields(Cursor::new(&bytes[..keep]), &pool);
        assert_eq!(res.err(), Some(DecodeError::UnexpectedEof), "kept {} bytes", keep);
    }
}

#[test]
fn a_field_whose_name_is_no_text_is_refused() {
    let pool = pool();
    let res = Field::read(Cursor::new(&[0, 0, 0, 3, 0, 1, 0, 0]), &pool);
    assert_eq!(res.err(), Some(DecodeError::TypeMismatch));
    let res = Field::read(Cursor::new(&[0, 0, 0, 1, 0, 9, 0, 0]), &pool);
    assert_eq!(res.err(), Some(DecodeError::IndexOutOfRange));
    let res = Field::read(Cursor::new(&[0, 0, 0, 9, 0, 3, 0, 0]), &pool);
    assert_eq!(res.err(), Some(DecodeError::IndexOutOfRange));
}
