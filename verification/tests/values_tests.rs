use pact_protobuf_plugin::float_bits::{f32_as_int, f32_bits_of_i64, f32_bits_of_u64, f64_as_int, f64_bits_of_i64, f64_bits_of_u64, f64_trunc};
use pact_protobuf_plugin::descriptor::{
    EnumDescriptor, EnumValueDescriptor, FieldDescriptor, FileDescriptor, FileDescriptorSet, MessageDescriptor,
};
use pact_protobuf_plugin::field_config::build_field_value;
use pact_protobuf_plugin::field_values::{bytes_of_text, construct_numeric_value, value_for_type, JsonNumber};
use pact_protobuf_plugin::generators::{
    bool_data, decimal_data, generate_random_boolean, generate_random_int, int_data, state_data, text_data,
    to_ascii_upper, GenerateError, Generator, IntKind, JsonValue, UuidFormat,
};
use pact_protobuf_plugin::message_builder::{field_type_name, EncodeError, MessageBuilder, MessageFieldValue, MessageFieldValueType, RType};
use pact_protobuf_plugin::message_decoder::ProtobufFieldData;

fn fd(name: &str, number: i32, type_code: i32, type_ref: Option<&str>) -> FieldDescriptor {
    FieldDescriptor {
        name: Some(name.to_string()),
        number: Some(number),
        label: Some(1),
        proto_type: Some(type_code),
        type_ref: type_ref.map(|t| t.to_string()),
        default_value: None,
    }
}

fn colours() -> EnumDescriptor {
    EnumDescriptor {
        name: Some("Colour".to_string()),
        values: vec![
            EnumValueDescriptor { name: Some("RED".to_string()), number: Some(0) },
            EnumValueDescriptor { name: Some("BLUE".to_string()), number: Some(2) },
        ],
    }
}

fn message() -> MessageDescriptor {
    MessageDescriptor { name: Some("M".to_string()), fields: vec![], nested_types: vec![], enum_types: vec![colours()] }
}

fn no_files() -> FileDescriptorSet {
    FileDescriptorSet { files: vec![] }
}

#[test]
fn value_for_type_reads_scalars() {
    let v = value_for_type("n", "42", &fd("n", 1, 5, None), &message(), &no_files()).unwrap();
    assert_eq!(v.rtype, RType::Integer32(42));
    assert_eq!(v.raw_value, Some("42".to_string()));
    assert_eq!(value_for_type("n", "x", &fd("n", 1, 4, None), &message(), &no_files()), Err(EncodeError::InvalidText));
    assert_eq!(value_for_type("b", "true", &fd("b", 1, 8, None), &message(), &no_files()).unwrap().rtype, RType::Boolean(true));
    assert_eq!(value_for_type("s", "hi", &fd("s", 1, 9, None), &message(), &no_files()).unwrap().rtype, RType::String("hi".to_string()));
    assert_eq!(value_for_type("d", "1.5", &fd("d", 1, 1, None), &message(), &no_files()), Err(EncodeError::FloatConversion));
}

#[test]
fn value_for_type_reads_bytes_and_enums() {
    // Base64 text is decoded, other text is taken as its bytes
    assert_eq!(value_for_type("b", "aGk=", &fd("b", 1, 12, None), &message(), &no_files()).unwrap().rtype, RType::Bytes(b"hi".to_vec()));
    assert_eq!(value_for_type("b", "hi!", &fd("b", 1, 12, None), &message(), &no_files()).unwrap().rtype, RType::Bytes(b"hi!".to_vec()));
    let wrapped = fd("w", 1, 11, Some(".google.protobuf.BytesValue"));
    assert_eq!(value_for_type("w", "aGk=", &wrapped, &message(), &no_files()).unwrap().rtype, RType::Bytes(b"hi".to_vec()));
    assert_eq!(value_for_type("m", "x", &fd("m", 1, 11, Some("Other")), &message(), &no_files()), Err(EncodeError::UnsupportedType));

    let colour = fd("c", 1, 14, Some(".pkg.M.Colour"));
    assert_eq!(value_for_type("c", "BLUE", &colour, &message(), &no_files()).unwrap().rtype, RType::Enum(2, colours()));
    assert_eq!(value_for_type("c", "GREEN", &colour, &message(), &no_files()), Err(EncodeError::EnumValueNotFound));
    // an enum declared at the top level of a file
    let global = fd("c", 1, 14, Some(".pkg.Colour"));
    let files = FileDescriptorSet {
        files: vec![FileDescriptor { name: None, package: Some("pkg".to_string()), message_types: vec![], enum_types: vec![colours()] }],
    };
    let plain = MessageDescriptor { name: Some("M".to_string()), fields: vec![], nested_types: vec![], enum_types: vec![] };
    assert_eq!(value_for_type("c", "RED", &global, &plain, &files).unwrap().rtype, RType::Enum(0, colours()));
}

#[test]
fn construct_numeric_value_converts_and_sets() {
    let descriptor = MessageDescriptor {
        name: Some("M".to_string()),
        fields: vec![fd("a", 1, 13, None), fd("b", 2, 5, None)],
        nested_types: vec![],
        enum_types: vec![],
    };
    let file = FileDescriptor { name: None, package: None, message_types: vec![], enum_types: vec![] };
    let mut builder = MessageBuilder::new(&descriptor, "M", &file);
    let a = fd("a", 1, 13, None);
    let v = construct_numeric_value(&mut builder, MessageFieldValueType::Normal, &a, "a", JsonNumber::PosInt(7)).unwrap();
    assert_eq!(v.rtype, RType::UInteger32(7));
    assert_eq!(v.raw_value, Some("7".to_string()));
    assert_eq!(
        construct_numeric_value(&mut builder, MessageFieldValueType::Normal, &a, "a", JsonNumber::NegInt(-1)),
        Err(EncodeError::NotConvertible)
    );
    let b = fd("b", 2, 5, None);
    construct_numeric_value(&mut builder, MessageFieldValueType::Repeated, &b, "b", JsonNumber::NegInt(-5)).unwrap();
    construct_numeric_value(&mut builder, MessageFieldValueType::Repeated, &b, "b", JsonNumber::PosInt(6)).unwrap();
    assert_eq!(builder.fields[1].1.values.len(), 2);
    assert_eq!(builder.fields[1].1.values[0].raw_value, Some("-5".to_string()));
    // a floating point number sets an integer field to its integer part
    let mut other = MessageBuilder::new(&descriptor, "M", &file);
    let v = construct_numeric_value(&mut other, MessageFieldValueType::Normal, &b, "b", JsonNumber::Float((-2.5f64).to_bits()))
        .unwrap();
    assert_eq!(v.rtype, RType::Integer32(-2));
    assert_eq!(v.raw_value, Some("-2".to_string()));
    assert_eq!(
        construct_numeric_value(&mut other, MessageFieldValueType::Normal, &b, "b", JsonNumber::Float(3.0e10f64.to_bits())),
        Err(EncodeError::NotConvertible)
    );
    assert_eq!(
        construct_numeric_value(&mut other, MessageFieldValueType::Normal, &b, "b", JsonNumber::Float(f64::NAN.to_bits())),
        Err(EncodeError::NotConvertible)
    );
    // integers set floating point fields to the nearest floating point number
    let d = fd("d", 4, 1, None);
    let v = construct_numeric_value(&mut other, MessageFieldValueType::Normal, &d, "d", JsonNumber::NegInt(-3)).unwrap();
    assert_eq!(v.rtype, RType::Double((-3.0f64).to_bits()));
    assert_eq!(v.raw_value, Some("-3".to_string()));
    let f = fd("f", 5, 2, None);
    let v = construct_numeric_value(&mut other, MessageFieldValueType::Normal, &f, "f", JsonNumber::PosInt(16777217)).unwrap();
    assert_eq!(v.rtype, RType::Float((16777217u64 as f32).to_bits()));
    assert_eq!(
        construct_numeric_value(&mut other, MessageFieldValueType::Normal, &d, "d", JsonNumber::Float(2.5f64.to_bits())),
        Err(EncodeError::FloatConversion)
    );
    let s = fd("s", 3, 9, None);
    assert_eq!(
        construct_numeric_value(&mut builder, MessageFieldValueType::Normal, &s, "s", JsonNumber::PosInt(1)),
        Err(EncodeError::MismatchedType)
    );
    // repeated int32 values are written in packed form
    assert_eq!(builder.encode_message().unwrap(), vec![8, 7, 18, 11, 251, 255, 255, 255, 255, 255, 255, 255, 255, 1, 6]);
}

#[test]
fn generated_integers_take_the_field_kind() {
    assert_eq!(int_data(&ProtobufFieldData::String(String::new()), -12), Ok(ProtobufFieldData::String("-12".to_string())));
    assert_eq!(int_data(&ProtobufFieldData::UInteger64(0), 5), Ok(ProtobufFieldData::UInteger64(5)));
    assert_eq!(int_data(&ProtobufFieldData::Double(0), 5), Ok(ProtobufFieldData::Double(5.0f64.to_bits())));
    assert_eq!(int_data(&ProtobufFieldData::Float(0), -7), Ok(ProtobufFieldData::Float((-7.0f32).to_bits())));
    assert_eq!(int_data(&ProtobufFieldData::Bytes(vec![]), 5), Err(GenerateError::UnsupportedDataType));
    for _ in 0..20 {
        match generate_random_int(&ProtobufFieldData::Integer32(0), 1, 10).unwrap() {
            ProtobufFieldData::Integer32(n) => assert!((1..=10).contains(&n)),
            other => panic!("unexpected {:?}", other),
        }
    }
    assert_eq!(generate_random_int(&ProtobufFieldData::Integer32(0), 3, 3), Ok(ProtobufFieldData::Integer32(3)));
}

#[test]
fn generated_booleans_and_text() {
    assert_eq!(bool_data(&ProtobufFieldData::Double(0), true), Ok(ProtobufFieldData::Double(1.0f64.to_bits())));
    assert_eq!(bool_data(&ProtobufFieldData::Float(0), true), Ok(ProtobufFieldData::Float(1.0f32.to_bits())));
    assert_eq!(bool_data(&ProtobufFieldData::String(String::new()), false), Ok(ProtobufFieldData::String("false".to_string())));
    match generate_random_boolean(&ProtobufFieldData::Boolean(false)).unwrap() {
        ProtobufFieldData::Boolean(_) => {}
        other => panic!("unexpected {:?}", other),
    }
    assert_eq!(text_data(&ProtobufFieldData::String(String::new()), "abc".to_string()), Ok(ProtobufFieldData::String("abc".to_string())));
    assert_eq!(text_data(&ProtobufFieldData::Integer32(0), "abc".to_string()), Err(GenerateError::UnsupportedDataType));
    assert_eq!(decimal_data(&ProtobufFieldData::Integer64(0), "123", Some(123.0f64.to_bits()), Some(123.0f32.to_bits())), Ok(ProtobufFieldData::Integer64(123)));
    assert_eq!(decimal_data(&ProtobufFieldData::Integer64(0), "12.5", Some(12.5f64.to_bits()), Some(12.5f32.to_bits())), Err(GenerateError::InvalidText));
    assert_eq!(decimal_data(&ProtobufFieldData::Double(0), "12.5", Some(12.5f64.to_bits()), Some(12.5f32.to_bits())), Ok(ProtobufFieldData::Double(12.5f64.to_bits())));
    assert_eq!(decimal_data(&ProtobufFieldData::Float(0), "12.5", Some(12.5f64.to_bits()), Some(12.5f32.to_bits())), Ok(ProtobufFieldData::Float(12.5f32.to_bits())));
    assert_eq!(decimal_data(&ProtobufFieldData::Float(0), "x", None, None), Err(GenerateError::InvalidText));
}

#[test]
fn markup_of_a_message() {
    let descriptor = MessageDescriptor {
        name: Some("Request".to_string()),
        fields: vec![fd("id", 1, 13, None), fd("tags", 2, 9, None), fd("kind", 3, 14, Some(".Kind"))],
        nested_types: vec![],
        enum_types: vec![],
    };
    let file = FileDescriptor { name: None, package: None, message_types: vec![], enum_types: vec![] };
    let mut builder = MessageBuilder::new(&descriptor, "Request", &file);
    builder.add_repeated_field_value(&fd("tags", 2, 9, None), "tags", MessageFieldValue::string("tags", "a"));
    builder.set_field_value(&fd("kind", 3, 14, Some(".Kind")), "kind", MessageFieldValue::string("kind", "A"));
    builder.set_field_value(&fd("id", 1, 13, None), "id", MessageFieldValue::string("id", "1"));
    assert_eq!(
        builder.generate_markup("  ").unwrap(),
        "```protobuf\n  message Request {\n      uint32 id = 1;\n      repeated string tags = 2;\n      enum .Kind kind = 3;\n  }\n```\n"
    );
    assert_eq!(field_type_name(&builder.fields[0].1).unwrap(), "uint32");
    builder.set_field_value(&fd("m", 4, 11, None), "m", MessageFieldValue::string("m", "x"));
    assert_eq!(builder.generate_markup(""), Err(EncodeError::MissingTypeRef));
}

fn is_uuid_form(s: &str, upper: bool) -> bool {
    let chars: Vec<char> = s.chars().collect();
    chars.len() == 36
        && chars.iter().enumerate().all(|(i, c)| {
            if i == 8 || i == 13 || i == 18 || i == 23 {
                *c == '-'
            } else if upper {
                c.is_ascii_digit() || ('A'..='F').contains(c)
            } else {
                c.is_ascii_digit() || ('a'..='f').contains(c)
            }
        })
}

fn generated_text(r: Result<ProtobufFieldData, GenerateError>) -> String {
    match r.unwrap() {
        ProtobufFieldData::String(s) => s,
        other => panic!("unexpected {:?}", other),
    }
}

#[test]
fn generate_uuid() {
    let enum_value = ProtobufFieldData::Enum(1, EnumDescriptor { name: None, values: vec![] });
    let message_value = ProtobufFieldData::Message(
        vec![],
        MessageDescriptor { name: None, fields: vec![], nested_types: vec![], enum_types: vec![] },
    );
    for value in [
        ProtobufFieldData::Integer64(100),
        ProtobufFieldData::UInteger64(100),
        ProtobufFieldData::Integer32(100),
        ProtobufFieldData::UInteger32(100),
        ProtobufFieldData::Boolean(true),
        ProtobufFieldData::Float(100.0f32.to_bits()),
        ProtobufFieldData::Double(100.0f64.to_bits()),
        ProtobufFieldData::Bytes(vec![]),
        enum_value,
        message_value,
    ] {
        assert_eq!(pact_protobuf_plugin::generators::generate_uuid(&value, None), Err(GenerateError::UnsupportedDataType));
    }

    let value = ProtobufFieldData::String("100".to_string());
    let s = generated_text(pact_protobuf_plugin::generators::generate_uuid(&value, None));
    assert_ne!(s, "100");
    assert!(is_uuid_form(&s, false));

    let s = generated_text(pact_protobuf_plugin::generators::generate_uuid(&value, Some(UuidFormat::Urn)));
    assert!(s.starts_with("urn:uuid:"));
    assert!(is_uuid_form(&s[9..], false));

    let s = generated_text(pact_protobuf_plugin::generators::generate_uuid(&value, Some(UuidFormat::LowerCaseHyphenated)));
    assert!(is_uuid_form(&s, false));

    let s = generated_text(pact_protobuf_plugin::generators::generate_uuid(&value, Some(UuidFormat::UpperCaseHyphenated)));
    assert!(is_uuid_form(&s, true));

    let s = generated_text(pact_protobuf_plugin::generators::generate_uuid(&value, Some(UuidFormat::Simple)));
    assert_eq!(s.len(), 32);
    assert!(s.chars().all(|c| c.is_ascii_digit() || ('a'..='f').contains(&c)));
}

#[test]
fn upper_case_keeps_other_characters() {
    assert_eq!(to_ascii_upper("ab-9z \u{e9}"), "AB-9Z \u{e9}");
    assert_eq!(to_ascii_upper(""), "");
}

#[test]
fn bytes_of_text_prefers_the_decoded_bytes() {
    assert_eq!(bytes_of_text("aGk=", Some(b"hi".to_vec())), b"hi".to_vec());
    assert_eq!(bytes_of_text("hi!", None), b"hi!".to_vec());
    assert_eq!(bytes_of_text("\u{e9}", None), vec![0xc3, 0xa9]);
}

#[test]
fn integers_convert_to_the_nearest_floating_point_number() {
    let signed: Vec<i64> = vec![
        0, 1, -1, 2, 3, 100, -100, 16777216, 16777217, 16777218, 16777219, -16777217, 33554433, 33554435,
        9007199254740992, 9007199254740993, 9007199254740995, -9007199254740993, i32::MAX as i64, i32::MIN as i64,
        i64::MAX, i64::MIN, i64::MIN + 1, 1 << 62, (1 << 62) + (1 << 38), (1 << 62) + (1 << 39) + (1 << 38),
    ];
    for n in signed {
        assert_eq!(f64_bits_of_i64(n), (n as f64).to_bits(), "f64 of {}", n);
        assert_eq!(f32_bits_of_i64(n), (n as f32).to_bits(), "f32 of {}", n);
    }
    let unsigned: Vec<u64> = vec![0, 1, 7, u32::MAX as u64, u64::MAX, u64::MAX - 1, 1 << 63, (1 << 63) + 1024, (1 << 63) + 1025];
    for n in unsigned {
        assert_eq!(f64_bits_of_u64(n), (n as f64).to_bits(), "f64 of {}", n);
        assert_eq!(f32_bits_of_u64(n), (n as f32).to_bits(), "f32 of {}", n);
    }
}

#[test]
fn floating_point_numbers_truncate_toward_zero() {
    let cases: Vec<f64> = vec![0.0, -0.0, 0.5, -0.5, 1.0, -1.0, 2.75, -2.75, 1e-300, 4503599627370497.5, 1e15 + 0.5,
        9.2e18, -9.2e18, 1.8e19, -1.8e19];
    for f in cases {
        let expected = (f.trunc().abs() as u64, f.trunc() < 0.0);
        assert_eq!(f64_trunc(f.to_bits()), Some((expected.1, expected.0)), "trunc of {}", f);
    }
    assert_eq!(f64_trunc(f64::NAN.to_bits()), None);
    assert_eq!(f64_trunc(f64::INFINITY.to_bits()), None);
    assert_eq!(f64_trunc(f64::NEG_INFINITY.to_bits()), None);
    assert_eq!(f64_trunc(1.9e19f64.to_bits()), None);
    assert_eq!(f64_trunc((-1e300f64).to_bits()), None);
}

#[test]
fn floating_point_numbers_cast_to_integers_as_as_casts_them() {
    let doubles: Vec<f64> = vec![0.0, -0.0, 1.5, -1.5, 2.9, -2.9, 1e10, -1e10, 3e9, 4.5e9, 1e19, -1e19, 1e300, -1e300,
        f64::NAN, f64::INFINITY, f64::NEG_INFINITY, 5e-324, 9.3e18];
    for d in doubles {
        let b = d.to_bits();
        assert_eq!(f64_as_int(b, 0, u64::MAX as i128) as u64, d as u64, "u64 of {}", d);
        assert_eq!(f64_as_int(b, i64::MIN as i128, i64::MAX as i128) as i64, d as i64, "i64 of {}", d);
        assert_eq!(f64_as_int(b, 0, u32::MAX as i128) as u32, d as u32, "u32 of {}", d);
        assert_eq!(f64_as_int(b, i32::MIN as i128, i32::MAX as i128) as i32, d as i32, "i32 of {}", d);
    }
    let floats: Vec<f32> = vec![0.0, -0.0, 1.5, -1.5, 1e10, -1e10, 3e9, 1e19, -1e19, 3e38, f32::NAN, f32::INFINITY,
        f32::NEG_INFINITY, 1e-45, 16777217.0];
    for f in floats {
        let b = f.to_bits();
        assert_eq!(f32_as_int(b, 0, u64::MAX as i128) as u64, f as u64, "u64 of {}", f);
        assert_eq!(f32_as_int(b, i64::MIN as i128, i64::MAX as i128) as i64, f as i64, "i64 of {}", f);
        assert_eq!(f32_as_int(b, 0, u32::MAX as i128) as u32, f as u32, "u32 of {}", f);
        assert_eq!(f32_as_int(b, i32::MIN as i128, i32::MAX as i128) as i32, f as i32, "i32 of {}", f);
    }
}

fn other_kinds() -> Vec<ProtobufFieldData> {
    vec![
        ProtobufFieldData::Bytes(vec![]),
        ProtobufFieldData::Enum(1, EnumDescriptor { name: None, values: vec![] }),
        ProtobufFieldData::Message(vec![], MessageDescriptor { name: None, fields: vec![], nested_types: vec![], enum_types: vec![] }),
    ]
}

#[test]
fn generate_int() {
    let generator = Generator::RandomInt(1, 50);
    assert_ne!(generator.generate_value(&ProtobufFieldData::Integer64(100)).unwrap().as_i64().unwrap(), 100);
    assert_ne!(generator.generate_value(&ProtobufFieldData::UInteger64(100)).unwrap().as_u64().unwrap(), 100);
    assert_ne!(generator.generate_value(&ProtobufFieldData::Integer32(100)).unwrap().as_i32().unwrap(), 100);
    assert_ne!(generator.generate_value(&ProtobufFieldData::UInteger32(100)).unwrap().as_u32().unwrap(), 100);
    assert_ne!(generator.generate_value(&ProtobufFieldData::String("100".to_string())).unwrap(), ProtobufFieldData::String("100".to_string()));
    assert!(generator.generate_value(&ProtobufFieldData::Boolean(true)).is_err());
    let f = f32::from_bits(generator.generate_value(&ProtobufFieldData::Float(100.0f32.to_bits())).unwrap().float_bits().unwrap());
    assert_ne!(f, 100.0);
    assert!((1.0..=50.0).contains(&f) && f.fract() == 0.0);
    let d = f64::from_bits(generator.generate_value(&ProtobufFieldData::Double(100.0f64.to_bits())).unwrap().double_bits().unwrap());
    assert_ne!(d, 100.0);
    assert!((1.0..=50.0).contains(&d) && d.fract() == 0.0);
    for value in other_kinds() {
        assert!(generator.generate_value(&value).is_err());
    }
}

#[test]
fn generate_bool() {
    let generator = Generator::RandomBoolean;
    assert_ne!(generator.generate_value(&ProtobufFieldData::Integer64(100)).unwrap().as_i64().unwrap(), 100);
    assert_ne!(generator.generate_value(&ProtobufFieldData::UInteger64(100)).unwrap().as_u64().unwrap(), 100);
    assert_ne!(generator.generate_value(&ProtobufFieldData::Integer32(100)).unwrap().as_i32().unwrap(), 100);
    assert_ne!(generator.generate_value(&ProtobufFieldData::UInteger32(100)).unwrap().as_u32().unwrap(), 100);
    match generator.generate_value(&ProtobufFieldData::String("100".to_string())).unwrap() {
        ProtobufFieldData::String(s) => assert!(s == "true" || s == "false"),
        other => panic!("unexpected {:?}", other),
    }
    assert!(matches!(generator.generate_value(&ProtobufFieldData::Boolean(true)).unwrap(), ProtobufFieldData::Boolean(_)));
    let f = f32::from_bits(generator.generate_value(&ProtobufFieldData::Float(100.0f32.to_bits())).unwrap().float_bits().unwrap());
    assert_ne!(f, 100.0);
    let d = f64::from_bits(generator.generate_value(&ProtobufFieldData::Double(100.0f64.to_bits())).unwrap().double_bits().unwrap());
    assert_ne!(d, 100.0);
    for value in other_kinds() {
        assert!(generator.generate_value(&value).is_err());
    }
}

#[test]
fn generate_decimal() {
    let text = "12345.67891";
    let generator = Generator::Decimal(
        text.to_string(),
        text.parse::<f64>().ok().map(|d| d.to_bits()),
        text.parse::<f32>().ok().map(|f| f.to_bits()),
    );
    assert_ne!(generator.generate_value(&ProtobufFieldData::String("100".to_string())).unwrap(), ProtobufFieldData::String("100".to_string()));
    assert_eq!(
        generator.generate_value(&ProtobufFieldData::Float(100.0f32.to_bits())),
        Ok(ProtobufFieldData::Float(12345.67891f32.to_bits()))
    );
    assert_eq!(
        generator.generate_value(&ProtobufFieldData::Double(100.0f64.to_bits())),
        Ok(ProtobufFieldData::Double(12345.67891f64.to_bits()))
    );
    assert!(generator.generate_value(&ProtobufFieldData::Integer64(100)).is_err());
    assert!(generator.generate_value(&ProtobufFieldData::UInteger64(100)).is_err());
    assert!(generator.generate_value(&ProtobufFieldData::Integer32(100)).is_err());
    assert!(generator.generate_value(&ProtobufFieldData::UInteger32(100)).is_err());
    assert!(generator.generate_value(&ProtobufFieldData::Boolean(true)).is_err());
    for value in other_kinds() {
        assert!(generator.generate_value(&value).is_err());
    }
}

#[test]
fn generate_provider_state() {
    let generator = Generator::ProviderState(JsonValue::String("50".to_string()));
    assert_ne!(generator.generate_value(&ProtobufFieldData::Integer64(100)).unwrap().as_i64().unwrap(), 100);
    assert_ne!(generator.generate_value(&ProtobufFieldData::UInteger64(100)).unwrap().as_u64().unwrap(), 100);
    assert_ne!(generator.generate_value(&ProtobufFieldData::Integer32(100)).unwrap().as_i32().unwrap(), 100);
    assert_ne!(generator.generate_value(&ProtobufFieldData::UInteger32(100)).unwrap().as_u32().unwrap(), 100);
    let s = generator.generate_value(&ProtobufFieldData::String("100".to_string())).unwrap();
    assert_ne!(s.as_str().unwrap(), "100");
    let generator2 = Generator::ProviderState(JsonValue::Bool(false));
    let b = generator2.generate_value(&ProtobufFieldData::Boolean(true)).unwrap();
    assert_eq!(b, ProtobufFieldData::Boolean(false));
    let f = f32::from_bits(generator.generate_value(&ProtobufFieldData::Float(100.0f32.to_bits())).unwrap().float_bits().unwrap());
    assert_ne!(f, 100.0);
    let d = f64::from_bits(generator.generate_value(&ProtobufFieldData::Double(100.0f64.to_bits())).unwrap().double_bits().unwrap());
    assert_ne!(d, 100.0);
    for value in other_kinds() {
        assert!(generator.generate_value(&value).is_err());
    }
}

#[test]
fn provider_state_conversions() {
    let text = JsonValue::String("50".to_string());
    assert_eq!(state_data(&ProtobufFieldData::Integer64(100), &text), Ok(ProtobufFieldData::Integer64(50)));
    assert_eq!(state_data(&ProtobufFieldData::UInteger32(100), &text), Ok(ProtobufFieldData::UInteger32(50)));
    assert_eq!(state_data(&ProtobufFieldData::String("x".to_string()), &text), Ok(ProtobufFieldData::String("50".to_string())));
    assert_eq!(state_data(&ProtobufFieldData::Float(0), &text), Ok(ProtobufFieldData::Float(50.0f32.to_bits())));
    assert_eq!(state_data(&ProtobufFieldData::Double(0), &text), Ok(ProtobufFieldData::Double(50.0f64.to_bits())));
    let negative = JsonValue::Number(JsonNumber::NegInt(-7));
    assert_eq!(state_data(&ProtobufFieldData::Integer32(1), &negative), Ok(ProtobufFieldData::Integer32(-7)));
    assert_eq!(state_data(&ProtobufFieldData::UInteger64(1), &negative), Err(GenerateError::NotConvertible));
    assert_eq!(state_data(&ProtobufFieldData::String("x".to_string()), &negative), Ok(ProtobufFieldData::String("-7".to_string())));
    assert_eq!(state_data(&ProtobufFieldData::Double(0), &negative), Ok(ProtobufFieldData::Double((-7.0f64).to_bits())));
    // 32 bit fields keep the lower 32 bits of the 64 bit integer
    let big = JsonValue::Number(JsonNumber::PosInt(0x1_0000_0005));
    assert_eq!(state_data(&ProtobufFieldData::UInteger32(1), &big), Ok(ProtobufFieldData::UInteger32(5)));
    let float = JsonValue::Number(JsonNumber::Float(2.75f64.to_bits()));
    assert_eq!(state_data(&ProtobufFieldData::Integer64(1), &float), Ok(ProtobufFieldData::Integer64(2)));
    assert_eq!(state_data(&ProtobufFieldData::Double(0), &float), Ok(ProtobufFieldData::Double(2.75f64.to_bits())));
    assert_eq!(state_data(&ProtobufFieldData::Float(0), &float), Err(GenerateError::FloatConversion));
    assert_eq!(state_data(&ProtobufFieldData::Double(0), &JsonValue::String("1.5".to_string())), Err(GenerateError::FloatConversion));
    assert_eq!(state_data(&ProtobufFieldData::Boolean(false), &JsonValue::String("true".to_string())), Ok(ProtobufFieldData::Boolean(true)));
    assert_eq!(state_data(&ProtobufFieldData::Boolean(false), &JsonValue::String("yes".to_string())), Err(GenerateError::InvalidText));
    assert_eq!(state_data(&ProtobufFieldData::Integer64(1), &JsonValue::Bool(true)), Ok(ProtobufFieldData::Integer64(1)));
    assert_eq!(state_data(&ProtobufFieldData::Integer64(1), &JsonValue::Null), Err(GenerateError::NotConvertible));
    assert_eq!(state_data(&ProtobufFieldData::String("x".to_string()), &JsonValue::Null), Ok(ProtobufFieldData::String("null".to_string())));
    let e = state_data(&ProtobufFieldData::UInteger64(1), &JsonValue::String("-1".to_string())).unwrap_err();
    assert_eq!(e, GenerateError::InvalidNumber(IntKind::U64, "-1".to_string()));
    assert_eq!(e.message(), "u64 can not be generated from '-1' - invalid digit found in string");
    assert_eq!(state_data(&ProtobufFieldData::Bytes(vec![]), &text), Err(GenerateError::UnsupportedDataType));
    assert_eq!(
        state_data(&ProtobufFieldData::String("x".to_string()), &JsonValue::Array(vec![])),
        Err(GenerateError::ValueIsCollection)
    );
}

fn basic_values() -> (MessageDescriptor, FileDescriptor) {
    let descriptor = MessageDescriptor {
        name: Some("MessageIn".to_string()),
        fields: vec![fd("f1", 1, 8, None), fd("f2", 2, 5, None), fd("f5", 5, 9, None), fd("f6", 6, 12, None)],
        nested_types: vec![],
        enum_types: vec![],
    };
    let file = FileDescriptor { name: Some("basic_values.proto".to_string()), package: None, message_types: vec![], enum_types: vec![] };
    (descriptor, file)
}

fn num(n: u64) -> JsonValue {
    JsonValue::Number(JsonNumber::PosInt(n))
}

#[test]
fn build_field_value_with_bytes_field() {
    let (descriptor, file) = basic_values();
    let mut builder = MessageBuilder::new(&descriptor, "MessageIn", &file);
    let f6 = fd("f6", 6, 12, None);
    let config = JsonValue::Array(vec![num(1), num(2), num(3), num(4), num(5)]);
    let result = build_field_value(&mut builder, &f6, MessageFieldValueType::Normal, "f6", &config, &no_files());
    assert_eq!(result, Ok(Some(MessageFieldValue {
        name: "f6".to_string(),
        raw_value: Some("[1,2,3,4,5]".to_string()),
        rtype: RType::Bytes(vec![1, 2, 3, 4, 5]),
    })));

    let config = JsonValue::Array(vec![num(1), num(2), JsonValue::String("3".to_string()), num(4), num(5)]);
    let result = build_field_value(&mut builder, &f6, MessageFieldValueType::Normal, "f6", &config, &no_files());
    assert_eq!(result, Err(EncodeError::NotConvertible));

    let config = JsonValue::String("1234567890".to_string());
    let result = build_field_value(&mut builder, &f6, MessageFieldValueType::Normal, "f6", &config, &no_files());
    assert_eq!(result, Ok(Some(MessageFieldValue {
        name: "f6".to_string(),
        raw_value: Some("1234567890".to_string()),
        rtype: RType::Bytes(vec![49, 50, 51, 52, 53, 54, 55, 56, 57, 48]),
    })));

    let config = JsonValue::String("AQIDBAU=".to_string());
    let result = build_field_value(&mut builder, &f6, MessageFieldValueType::Normal, "f6", &config, &no_files());
    assert_eq!(result, Ok(Some(MessageFieldValue {
        name: "f6".to_string(),
        raw_value: Some("AQIDBAU=".to_string()),
        rtype: RType::Bytes(vec![1, 2, 3, 4, 5]),
    })));
    assert_eq!(builder.fields.len(), 1);
    assert_eq!(builder.fields[0].1.values[0].rtype, RType::Bytes(vec![1, 2, 3, 4, 5]));
}

#[test]
fn build_field_value_dispatches_on_json_kind() {
    let (descriptor, file) = basic_values();
    let mut builder = MessageBuilder::new(&descriptor, "MessageIn", &file);
    let f1 = fd("f1", 1, 8, None);
    let f2 = fd("f2", 2, 5, None);
    let f5 = fd("f5", 5, 9, None);
    assert_eq!(build_field_value(&mut builder, &f1, MessageFieldValueType::Normal, "f1", &JsonValue::Null, &no_files()), Ok(None));
    assert!(builder.fields.is_empty());
    let v = build_field_value(&mut builder, &f1, MessageFieldValueType::Normal, "f1", &JsonValue::Bool(true), &no_files()).unwrap().unwrap();
    assert_eq!(v.rtype, RType::Boolean(true));
    assert_eq!(v.raw_value, Some("true".to_string()));
    assert_eq!(
        build_field_value(&mut builder, &f2, MessageFieldValueType::Normal, "f2", &JsonValue::Bool(true), &no_files()),
        Err(EncodeError::MismatchedType)
    );
    assert_eq!(
        build_field_value(&mut builder, &f5, MessageFieldValueType::Normal, "f5", &JsonValue::Object(vec![]), &no_files()),
        Err(EncodeError::MismatchedType)
    );
    assert_eq!(
        build_field_value(&mut builder, &f2, MessageFieldValueType::Normal, "f2", &JsonValue::Array(vec![num(1)]), &no_files()),
        Err(EncodeError::MismatchedType)
    );
    let v = build_field_value(&mut builder, &f5, MessageFieldValueType::Normal, "f5", &JsonValue::String("hello".to_string()), &no_files())
        .unwrap()
        .unwrap();
    assert_eq!(v.rtype, RType::String("hello".to_string()));
    let v = build_field_value(&mut builder, &f2, MessageFieldValueType::Normal, "f2", &num(12), &no_files()).unwrap().unwrap();
    assert_eq!(v.rtype, RType::Integer32(12));
    assert_eq!(builder.fields.len(), 3);
}

#[test]
fn build_field_value_with_array_for_repeated_field() {
    let (descriptor, file) = basic_values();
    let mut builder = MessageBuilder::new(&descriptor, "MessageIn", &file);
    let f2 = fd("f2", 2, 5, None);
    let config = JsonValue::Array(vec![num(1), JsonValue::String("2".to_string()), num(3)]);
    let v = build_field_value(&mut builder, &f2, MessageFieldValueType::Repeated, "f2", &config, &no_files()).unwrap();
    assert_eq!(v.unwrap().rtype, RType::Integer32(1));
    let values: Vec<&RType> = builder.fields[0].1.values.iter().map(|v| &v.rtype).collect();
    assert_eq!(values, vec![&RType::Integer32(1), &RType::Integer32(2), &RType::Integer32(3)]);
    assert_eq!(builder.fields[0].1.field_type, MessageFieldValueType::Repeated);

    let empty = JsonValue::Array(vec![]);
    assert_eq!(build_field_value(&mut builder, &f2, MessageFieldValueType::Repeated, "f2", &empty, &no_files()), Ok(None));

    // a value that is refused stops the array; the values before it stay
    let mut other = MessageBuilder::new(&descriptor, "MessageIn", &file);
    let config = JsonValue::Array(vec![num(4), JsonValue::String("x".to_string()), num(6)]);
    assert_eq!(
        build_field_value(&mut other, &f2, MessageFieldValueType::Repeated, "f2", &config, &no_files()),
        Err(EncodeError::InvalidText)
    );
    assert_eq!(other.fields[0].1.values.len(), 1);
}
