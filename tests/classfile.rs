use javadec::bytes::ClassFileError;
use javadec::classfile::{read_classfile, AttributeInfo, ClassFile};
use javadec::constant_pool::ConstantPoolInfo;

fn utf8(s: &str) -> Vec<u8> {
    let mut v = vec![1, 0, s.len() as u8];
    v.extend_from_slice(s.as_bytes());
    v
}

fn u16be(v: u16) -> [u8; 2] {
    v.to_be_bytes()
}

fn class_bytes(entries: &[Vec<u8>], count: u16, members: &[u8]) -> Vec<u8> {
    let mut v = vec![0xCA, 0xFE, 0xBA, 0xBE, 0, 3, 0, 52];
    v.extend_from_slice(&u16be(count));
    for e in entries {
        v.extend_from_slice(e);
    }
    v.extend_from_slice(&[0x00, 0x21, 0, 2, 0, 0]);
    v.extend_from_slice(members);
    v
}

fn empty_tables() -> Vec<u8> {
    vec![0, 0, 0, 0, 0, 0, 0, 0]
}

fn read(bytes: &[u8]) -> ClassFile {
    match read_classfile(bytes) {
        Ok(c) => c,
        Err(e) => panic!("unexpected error {:?}", e),
    }
}

#[test]
fn bad_magic_is_rejected() {
    let mut bytes = class_bytes(&[utf8("A")], 2, &empty_tables());
    bytes[3] = 0xBF;
    assert_eq!(read_classfile(&bytes).err(), Some(ClassFileError::InvalidMagic));
    assert_eq!(read_classfile(&[0x00, 0x01, 0x02, 0x03]).err(), Some(ClassFileError::InvalidMagic));
}

#[test]
fn short_input_is_end_of_file() {
    assert_eq!(read_classfile(&[0xCA, 0xFE]).err(), Some(ClassFileError::EndOfFile));
    let bytes = class_bytes(&[utf8("A")], 2, &empty_tables());
    assert_eq!(read_classfile(&bytes[..bytes.len() - 1]).err(), Some(ClassFileError::EndOfFile));
}

#[test]
fn minimal_class() {
    let bytes = class_bytes(&[utf8("A"), vec![7, 0, 1]], 3, &empty_tables());
    let c = read(&bytes);
    assert_eq!(c.minor_version, 3);
    assert_eq!(c.major_version, 52);
    assert!(c.access_flags.acc_public);
    assert!(c.access_flags.acc_super);
    assert!(!c.access_flags.acc_interface);
    assert_eq!(c.this_class, 2);
    assert_eq!(c.super_class, 0);
    assert_eq!(c.constant_pool.len(), 2);
    assert_eq!(c.constant_pool.get_class_entry(2).ok().unwrap().name, "A");
    assert_eq!(c.constant_pool.get_utf8_entry(2).err(), Some(ClassFileError::InvalidCPEntry));
    assert_eq!(c.constant_pool.get_entry(0).err(), Some(ClassFileError::InvalidCPEntry));
    assert_eq!(c.constant_pool.get_entry(3).err(), Some(ClassFileError::InvalidCPEntry));
}

#[test]
fn trailing_byte_is_more_data() {
    let mut bytes = class_bytes(&[utf8("A")], 2, &empty_tables());
    assert!(read_classfile(&bytes).is_ok());
    bytes.push(0);
    assert_eq!(read_classfile(&bytes).err(), Some(ClassFileError::MoreData));
}

#[test]
fn long_takes_two_slots() {
    let long = vec![5, 0, 0, 0, 1, 0, 0, 0, 2];
    let bytes = class_bytes(&[long, utf8("x")], 4, &empty_tables());
    let c = read(&bytes);
    match c.constant_pool.get_entry(1) {
        Ok(ConstantPoolInfo::Long { data }) => assert_eq!(data, 0x1_0000_0002),
        other => panic!("unexpected {:?}", other),
    }
    assert_eq!(c.constant_pool.get_entry(2).err(), Some(ClassFileError::InvalidCPEntry));
    assert_eq!(c.constant_pool.get_utf8_entry(3).ok().unwrap(), "x");
    assert_eq!(c.constant_pool.len(), 2);
}

#[test]
fn negative_long_and_double_bits() {
    let long = vec![5, 0xFF, 0xFF, 0xFF, 0xFF, 0xFF, 0xFF, 0xFF, 0xFE];
    let double = vec![6, 0x3F, 0xF0, 0, 0, 0, 0, 0, 0];
    let bytes = class_bytes(&[long, double], 5, &empty_tables());
    let c = read(&bytes);
    assert!(matches!(c.constant_pool.get_entry(1), Ok(ConstantPoolInfo::Long { data: -2 })));
    match c.constant_pool.get_entry(3) {
        Ok(ConstantPoolInfo::Double { bits }) => assert_eq!(f64::from_bits(bits), 1.0),
        other => panic!("unexpected {:?}", other),
    }
    assert_eq!(c.constant_pool.get_entry(4).err(), Some(ClassFileError::InvalidCPEntry));
}

#[test]
fn integer_and_float_entries() {
    let int = vec![3, 0xFF, 0xFF, 0xFF, 0x85];
    let float = vec![4, 0x3F, 0x80, 0, 0];
    let bytes = class_bytes(&[int, float], 3, &empty_tables());
    let c = read(&bytes);
    assert!(matches!(c.constant_pool.get_entry(1), Ok(ConstantPoolInfo::Integer { data: -123 })));
    match c.constant_pool.get_entry(2) {
        Ok(ConstantPoolInfo::Float { bits }) => assert_eq!(f32::from_bits(bits), 1.0),
        other => panic!("unexpected {:?}", other),
    }
}

#[test]
fn unknown_tag_is_invalid_cp_type() {
    let bytes = class_bytes(&[vec![2, 0, 0]], 2, &empty_tables());
    assert_eq!(read_classfile(&bytes).err(), Some(ClassFileError::InvalidCPType));
}

#[test]
fn bad_utf8_is_mutf8_format() {
    let bytes = class_bytes(&[vec![1, 0, 1, 0x80]], 2, &empty_tables());
    assert_eq!(read_classfile(&bytes).err(), Some(ClassFileError::MUtf8Format));
}

#[test]
fn references_resolve() {
    let entries = vec![
        utf8("Foo"),
        vec![7, 0, 1],
        utf8("bar"),
        utf8("(II)V"),
        vec![12, 0, 3, 0, 4],
        vec![10, 0, 2, 0, 5],
        vec![11, 0, 2, 0, 5],
        vec![9, 0, 2, 0, 5],
    ];
    let bytes = class_bytes(&entries, 9, &empty_tables());
    let c = read(&bytes);
    let nt = c.constant_pool.get_name_type_entry(5).ok().unwrap();
    assert_eq!((nt.name.as_str(), nt.descriptor.as_str()), ("bar", "(II)V"));
    let m = c.constant_pool.get_method_or_interface_entry(6).ok().unwrap();
    assert_eq!(m.class.name, "Foo");
    assert!(!m.is_interface);
    let im = c.constant_pool.get_method_or_interface_entry(7).ok().unwrap();
    assert!(im.is_interface);
    let f = c.constant_pool.get_field_entry(8).ok().unwrap();
    assert_eq!(f.name_and_type.name, "bar");
    assert_eq!(c.constant_pool.get_field_entry(6).err(), Some(ClassFileError::InvalidCPEntry));
    assert_eq!(c.constant_pool.get_method_or_interface_entry(8).err(), Some(ClassFileError::InvalidCPEntry));
    assert_eq!(c.constant_pool.get_class_entry(1).err(), Some(ClassFileError::InvalidCPEntry));
}

#[test]
fn method_with_code_and_nested_attribute() {
    let entries = vec![utf8("Code"), utf8("m"), utf8("()V"), utf8("Extra"), utf8("SourceFile")];
    let members = vec![
        0, 1, 0, 4, // one interface
        0, 0, // no fields
        0, 1, 0, 1, 0, 2, 0, 3, 0, 1, // one method, one attribute
        0, 1, 0, 0, 0, 29, 0, 2, 0, 1, 0, 0, 0, 1, 0xB1, // Code
        0, 1, 0, 0, 0, 1, 0, 0, 0, 2, // exception table
        0, 1, 0, 4, 0, 0, 0, 2, 0xAB, 0xCD, // nested attribute
        0, 1, 0, 5, 0, 0, 0, 2, 0, 2, // SourceFile
    ];
    let bytes = class_bytes(&entries, 6, &members);
    let c = read(&bytes);
    assert_eq!(c.interfaces, vec![4]);
    assert!(c.fields.is_empty());
    assert_eq!(c.methods.len(), 1);
    let m = &c.methods[0];
    assert!(m.access_flags.acc_public);
    assert!(!m.access_flags.acc_static);
    assert_eq!((m.name_index, m.descriptor_index), (2, 3));
    match &m.attributes[0] {
        AttributeInfo::Code { max_stack, max_locals, code, exception_table, attributes } => {
            assert_eq!((*max_stack, *max_locals), (2, 1));
            assert_eq!(code, &vec![0xB1]);
            assert_eq!(exception_table.len(), 1);
            assert_eq!(exception_table[0].handler_pc, 0);
            assert_eq!(exception_table[0].catch_type, 2);
            match &attributes[0] {
                AttributeInfo::Raw { attribute_name, info } => {
                    assert_eq!(attribute_name, "Extra");
                    assert_eq!(info, &vec![0xAB, 0xCD]);
                }
                other => panic!("unexpected {:?}", other),
            }
        }
        other => panic!("unexpected {:?}", other),
    }
    assert!(matches!(c.attributes[0], AttributeInfo::SourceFile { sourcefile_index: 2 }));
}

#[test]
fn attribute_name_must_be_utf8() {
    let members = vec![0, 0, 0, 0, 0, 0, 0, 1, 0, 9, 0, 0, 0, 0];
    let bytes = class_bytes(&[utf8("A")], 2, &members);
    assert_eq!(read_classfile(&bytes).err(), Some(ClassFileError::InvalidCPEntry));
}

#[test]
fn error_messages() {
    assert_eq!(ClassFileError::MoreData.message(), "more data after expected end of file");
    assert_eq!(ClassFileError::InvalidMagic.message(), "invalid magic value");
}
