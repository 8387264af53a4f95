use javadec::descriptors::{parse_method, DescriptorParseError, FieldType};

#[test]
fn no_args_void() {
    let (params, ret) = parse_method("()V").ok().unwrap();
    assert!(params.is_empty());
    assert_eq!(ret, FieldType::Void);
}

#[test]
fn int_and_string_array_to_long() {
    let (params, ret) = parse_method("(I[Ljava/lang/String;)J").ok().unwrap();
    assert_eq!(
        params,
        vec![
            FieldType::Int,
            FieldType::Array {
                inner: Box::new(FieldType::Reference { name: String::from("java/lang/String") })
            }
        ]
    );
    assert_eq!(ret, FieldType::Long);
}

#[test]
fn missing_return_is_eof() {
    assert_eq!(parse_method("(I)").err(), Some(DescriptorParseError::EOF));
}

#[test]
fn unknown_field_type() {
    assert_eq!(
        parse_method("(X)V").err(),
        Some(DescriptorParseError::Expect { expected: String::from("field type"), got: 'X' })
    );
}

#[test]
fn missing_open_paren() {
    assert_eq!(
        parse_method("I)V").err(),
        Some(DescriptorParseError::Expect { expected: String::from("("), got: 'I' })
    );
    assert_eq!(parse_method("").err(), Some(DescriptorParseError::EOF));
}

#[test]
fn all_primitives_and_nested_arrays() {
    let (params, ret) = parse_method("(BCDFIJSZ[[I)Ljava/lang/Object;").ok().unwrap();
    assert_eq!(
        params,
        vec![
            FieldType::Byte,
            FieldType::Char,
            FieldType::Double,
            FieldType::Float,
            FieldType::Int,
            FieldType::Long,
            FieldType::Short,
            FieldType::Boolean,
            FieldType::Array { inner: Box::new(FieldType::Array { inner: Box::new(FieldType::Int) }) },
        ]
    );
    assert_eq!(ret, FieldType::Reference { name: String::from("java/lang/Object") });
}

#[test]
fn unterminated_reference_is_eof() {
    assert_eq!(parse_method("(Ljava/lang").err(), Some(DescriptorParseError::EOF));
}

#[test]
fn non_ascii_class_name() {
    let (params, _) = parse_method("(L\u{e9}t\u{e9};)V").ok().unwrap();
    assert_eq!(params, vec![FieldType::Reference { name: String::from("\u{e9}t\u{e9}") }]);
}
