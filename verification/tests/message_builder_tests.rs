use pact_protobuf_plugin::descriptor::{
    EnumDescriptor, EnumValueDescriptor, FieldDescriptor, FileDescriptor, FileDescriptorSet, MessageDescriptor,
};
use pact_protobuf_plugin::message_builder::{EncodeError, MessageBuilder, MessageFieldValue, MessageFieldValueType, RType};
use pact_protobuf_plugin::message_decoder::{decode_message, ProtobufFieldData};

const OPTIONAL: i32 = 1;
const REPEATED: i32 = 3;

fn fd(name: &str, number: i32, type_code: i32, label: i32, type_ref: Option<&str>) -> FieldDescriptor {
    FieldDescriptor {
        name: Some(name.to_string()),
        number: Some(number),
        label: Some(label),
        proto_type: Some(type_code),
        type_ref: type_ref.map(|t| t.to_string()),
        default_value: None,
    }
}

fn file() -> FileDescriptor {
    FileDescriptor { name: Some("test.proto".to_string()), package: None, message_types: vec![], enum_types: vec![] }
}

fn value(name: &str, rtype: RType) -> MessageFieldValue {
    MessageFieldValue { name: name.to_string(), raw_value: None, rtype }
}

fn simple_descriptor() -> MessageDescriptor {
    MessageDescriptor {
        name: Some("Simple".to_string()),
        fields: vec![
            fd("id", 1, 13, OPTIONAL, None),
            fd("name", 2, 9, OPTIONAL, None),
            fd("active", 3, 8, OPTIONAL, None),
            fd("total", 4, 18, OPTIONAL, None),
        ],
        nested_types: vec![],
        enum_types: vec![],
    }
}

#[test]
fn encode_simple_message_and_decode_it() {
    let descriptor = simple_descriptor();
    let mut builder = MessageBuilder::new(&descriptor, "Simple", &file());
    let name_fd = builder.field_by_name("name").unwrap();
    builder.set_field_value(&name_fd, "name", MessageFieldValue::string("name", "Fred"));
    let id_fd = builder.field_by_name("id").unwrap();
    builder.set_field_value(&id_fd, "id", MessageFieldValue::uinteger_32("id", "150").unwrap());
    let total_fd = builder.field_by_name("total").unwrap();
    builder.set_field_value(&total_fd, "total", MessageFieldValue::integer_64("total", "-3").unwrap());
    let active_fd = builder.field_by_name("active").unwrap();
    builder.set_field_value(&active_fd, "active", MessageFieldValue::boolean("active", "true").unwrap());

    let bytes = builder.encode_message().unwrap();
    // fields come out in field number order
    assert_eq!(bytes, vec![8, 150, 1, 18, 4, b'F', b'r', b'e', b'd', 24, 1, 32, 5]);

    let decoded = decode_message(&bytes, &descriptor, &FileDescriptorSet { files: vec![] }).unwrap();
    let data: Vec<ProtobufFieldData> = decoded.iter().map(|f| f.data.duplicate()).collect();
    assert_eq!(
        data,
        vec![
            ProtobufFieldData::UInteger32(150),
            ProtobufFieldData::String("Fred".to_string()),
            ProtobufFieldData::Boolean(true),
            ProtobufFieldData::Integer64(-3),
        ]
    );
}

#[test]
fn setting_a_field_again_replaces_its_value() {
    let descriptor = simple_descriptor();
    let mut builder = MessageBuilder::new(&descriptor, "Simple", &file());
    let id_fd = builder.field_by_name("id").unwrap();
    builder.set_field_value(&id_fd, "id", MessageFieldValue::uinteger_32("id", "1").unwrap());
    builder.set_field_value(&id_fd, "id", MessageFieldValue::uinteger_32("id", "2").unwrap());
    assert_eq!(builder.fields.len(), 1);
    assert_eq!(builder.encode_message().unwrap(), vec![8, 2]);
}

#[test]
fn values_are_converted_to_the_field_type() {
    let descriptor = simple_descriptor();
    let mut builder = MessageBuilder::new(&descriptor, "Simple", &file());
    let name_fd = builder.field_by_name("name").unwrap();
    builder.set_field_value(&name_fd, "name", value("name", RType::Integer32(-12)));
    let id_fd = builder.field_by_name("id").unwrap();
    builder.set_field_value(&id_fd, "id", value("id", RType::String("7".to_string())));
    assert_eq!(builder.encode_message().unwrap(), vec![8, 7, 18, 3, b'-', b'1', b'2']);

    builder.set_field_value(&id_fd, "id", value("id", RType::String("seven".to_string())));
    assert_eq!(builder.encode_message(), Err(EncodeError::InvalidText));
    // a floating point number is cast to the integer type as `as` casts it
    builder.set_field_value(&id_fd, "id", value("id", RType::Double(1.5f64.to_bits())));
    assert_eq!(builder.encode_message().unwrap(), vec![8, 1, 18, 3, b'-', b'1', b'2']);
    builder.set_field_value(&id_fd, "id", value("id", RType::Double(1.5f64.to_bits())));
    builder.set_field_value(&name_fd, "name", value("name", RType::Double(1.5f64.to_bits())));
    assert_eq!(builder.encode_message(), Err(EncodeError::FloatConversion));
}

#[test]
fn test_packed_repeated_fields() {
    let descriptor = MessageDescriptor {
        name: Some("Packed".to_string()),
        fields: vec![fd("ids", 1, 5, REPEATED, None), fd("names", 2, 9, REPEATED, None)],
        nested_types: vec![],
        enum_types: vec![],
    };
    let mut builder = MessageBuilder::new(&descriptor, "Packed", &file());
    let ids = builder.field_by_name("ids").unwrap();
    builder.add_repeated_field_value(&ids, "ids", value("ids", RType::Integer32(3)));
    builder.add_repeated_field_value(&ids, "ids", value("ids", RType::Integer32(270)));
    builder.add_repeated_field_value(&ids, "ids", value("ids", RType::String("not a number".to_string())));
    let names = builder.field_by_name("names").unwrap();
    builder.add_repeated_field_value(&names, "names", MessageFieldValue::string("names", "a"));
    builder.add_repeated_field_value(&names, "names", MessageFieldValue::string("names", "b"));
    let bytes = builder.encode_message().unwrap();
    // ints packed (a value that does not convert is written as zero), strings one by one
    assert_eq!(bytes, vec![10, 4, 3, 142, 2, 0, 18, 1, b'a', 18, 1, b'b']);
    assert_eq!(builder.fields[0].1.field_type, MessageFieldValueType::Repeated);
}

#[test]
fn encode_message_with_map_field_test() {
    let entry = MessageDescriptor {
        name: Some("AttributesEntry".to_string()),
        fields: vec![fd("key", 1, 9, OPTIONAL, None), fd("value", 2, 9, OPTIONAL, None)],
        nested_types: vec![],
        enum_types: vec![],
    };
    let descriptor = MessageDescriptor {
        name: Some("WithMap".to_string()),
        fields: vec![fd("attributes", 1, 11, REPEATED, Some(".test.WithMap.AttributesEntry"))],
        nested_types: vec![entry],
        enum_types: vec![],
    };
    let mut builder = MessageBuilder::new(&descriptor, "WithMap", &file());
    let attrs = builder.field_by_name("attributes").unwrap();
    builder.add_map_field_value(&attrs, "attributes", MessageFieldValue::string("key", "a"), MessageFieldValue::string("value", "1"));
    builder.add_map_field_value(&attrs, "attributes", MessageFieldValue::string("key", "b"), MessageFieldValue::string("value", "2"));
    assert_eq!(builder.fields[0].1.field_type, MessageFieldValueType::MapField);
    let bytes = builder.encode_message().unwrap();
    assert_eq!(bytes, vec![10, 6, 10, 1, b'a', 18, 1, b'1', 10, 6, 10, 1, b'b', 18, 1, b'2']);
}

#[test]
fn map_field_errors() {
    let descriptor = MessageDescriptor {
        name: Some("WithMap".to_string()),
        fields: vec![fd("attributes", 1, 11, REPEATED, Some("Missing"))],
        nested_types: vec![],
        enum_types: vec![],
    };
    let mut builder = MessageBuilder::new(&descriptor, "WithMap", &file());
    let attrs = builder.field_by_name("attributes").unwrap();
    builder.add_map_field_value(&attrs, "attributes", MessageFieldValue::string("key", "a"), MessageFieldValue::string("value", "1"));
    assert_eq!(builder.encode_message(), Err(EncodeError::MapEntryNotFound));
}

#[test]
fn test_field_with_global_enum() {
    let enum_descriptor = EnumDescriptor {
        name: Some("Colour".to_string()),
        values: vec![
            EnumValueDescriptor { name: Some("RED".to_string()), number: Some(0) },
            EnumValueDescriptor { name: Some("BLUE".to_string()), number: Some(2) },
        ],
    };
    let descriptor = MessageDescriptor {
        name: Some("Paint".to_string()),
        fields: vec![fd("colour", 4, 14, OPTIONAL, Some(".Colour"))],
        nested_types: vec![],
        enum_types: vec![],
    };
    let mut builder = MessageBuilder::new(&descriptor, "Paint", &file());
    let colour = builder.field_by_name("colour").unwrap();
    builder.set_field_value(&colour, "colour", value("colour", RType::Enum(2, enum_descriptor.clone())));
    assert_eq!(builder.encode_message().unwrap(), vec![32, 2]);
    builder.set_field_value(&colour, "colour", value("colour", RType::Enum(3, enum_descriptor)));
    assert_eq!(builder.encode_message(), Err(EncodeError::EnumValueNotFound));
}

#[test]
fn encode_message_bytes_test() {
    let descriptor = MessageDescriptor {
        name: Some("WithBytes".to_string()),
        fields: vec![fd("data", 1, 12, OPTIONAL, None), fd("wrapped", 2, 11, OPTIONAL, Some(".google.protobuf.BytesValue"))],
        nested_types: vec![],
        enum_types: vec![],
    };
    let mut builder = MessageBuilder::new(&descriptor, "WithBytes", &file());
    let data = builder.field_by_name("data").unwrap();
    builder.set_field_value(&data, "data", MessageFieldValue::bytes("data", "hi"));
    let wrapped = builder.field_by_name("wrapped").unwrap();
    builder.set_field_value(&wrapped, "wrapped", MessageFieldValue::bytes("wrapped", "yo"));
    assert_eq!(builder.encode_message().unwrap(), vec![10, 2, b'h', b'i', 18, 4, 10, 2, b'y', b'o']);
}

#[test]
fn embedded_messages_are_encoded_length_delimited() {
    let inner_descriptor = MessageDescriptor {
        name: Some("Inner".to_string()),
        fields: vec![fd("n", 1, 4, OPTIONAL, None)],
        nested_types: vec![],
        enum_types: vec![],
    };
    let outer_descriptor = MessageDescriptor {
        name: Some("Outer".to_string()),
        fields: vec![fd("inner", 3, 11, OPTIONAL, Some("Inner"))],
        nested_types: vec![],
        enum_types: vec![],
    };
    let mut inner = MessageBuilder::new(&inner_descriptor, "Inner", &file());
    let n = inner.field_by_name("n").unwrap();
    inner.set_field_value(&n, "n", value("n", RType::UInteger64(300)));
    let mut outer = MessageBuilder::new(&outer_descriptor, "Outer", &file());
    let f = outer.field_by_name("inner").unwrap();
    outer.set_field_value(&f, "inner", value("inner", RType::Message(Box::new(inner))));
    assert_eq!(outer.encode_message().unwrap(), vec![26, 3, 8, 172, 2]);
}

#[test]
fn value_constructors() {
    assert_eq!(MessageFieldValue::boolean("b", "yes"), Err(EncodeError::InvalidText));
    assert_eq!(MessageFieldValue::uinteger_32("u", "-1"), Err(EncodeError::InvalidText));
    assert_eq!(MessageFieldValue::integer_32("i", "-1").unwrap().rtype, RType::Integer32(-1));
    assert_eq!(MessageFieldValue::uinteger_64("u", "18446744073709551615").unwrap().rtype, RType::UInteger64(u64::MAX));
    assert_eq!(RType::Boolean(true).as_str().unwrap(), "true");
    assert_eq!(RType::Integer64(-42).as_str().unwrap(), "-42");
    assert_eq!(RType::UInteger32(7).as_bool(), Ok(true));
    assert_eq!(RType::Float(0).as_bool(), Ok(false));
    assert_eq!(RType::Integer32(-1).as_u64(), Ok(u64::MAX));
    assert_eq!(RType::Bytes(vec![]).as_u32(), Err(EncodeError::NotConvertible));
    assert_eq!(RType::Boolean(true).as_f64_bits(), Ok(1.0f64.to_bits()));
    assert_eq!(RType::Boolean(true).as_f32_bits(), Ok(1.0f32.to_bits()));
}

#[test]
fn builder_keeps_fields_in_number_order() {
    let descriptor = simple_descriptor();
    let mut builder = MessageBuilder::new(&descriptor, "Simple", &file());
    for name in ["total", "id", "active", "name"] {
        let f = builder.field_by_name(name).unwrap();
        builder.add_repeated_field_value(&f, name, MessageFieldValue::string(name, "1"));
    }
    let names: Vec<String> = builder.fields.iter().map(|(n, _)| n.clone()).collect();
    assert_eq!(names, vec!["id", "name", "active", "total"]);
    let mut sorted = builder.fields.iter().map(|(_, f)| f.descriptor.number.unwrap()).collect::<Vec<_>>();
    let copy = sorted.clone();
    sorted.sort();
    assert_eq!(sorted, copy);
}

#[test]
fn repeated_and_fixed_fields_read_back_as_written() {
    let descriptor = MessageDescriptor {
        name: Some("Mixed".to_string()),
        fields: vec![
            fd("counts", 1, 13, REPEATED, None),
            fd("flags", 2, 8, REPEATED, None),
            fd("blob", 3, 12, OPTIONAL, None),
            fd("weight", 4, 1, OPTIONAL, None),
            fd("delta", 5, 17, OPTIONAL, None),
        ],
        nested_types: vec![],
        enum_types: vec![],
    };
    let mut builder = MessageBuilder::new(&descriptor, "Mixed", &file());
    let counts = builder.field_by_name("counts").unwrap();
    builder.add_repeated_field_value(&counts, "counts", value("counts", RType::UInteger32(1)));
    builder.add_repeated_field_value(&counts, "counts", value("counts", RType::UInteger32(300)));
    let flags = builder.field_by_name("flags").unwrap();
    builder.add_repeated_field_value(&flags, "flags", value("flags", RType::Boolean(true)));
    builder.add_repeated_field_value(&flags, "flags", value("flags", RType::Boolean(false)));
    let delta = builder.field_by_name("delta").unwrap();
    builder.set_field_value(&delta, "delta", value("delta", RType::Integer32(-2)));
    let weight = builder.field_by_name("weight").unwrap();
    builder.set_field_value(&weight, "weight", value("weight", RType::Double(2.5f64.to_bits())));
    let blob = builder.field_by_name("blob").unwrap();
    builder.set_field_value(&blob, "blob", value("blob", RType::Bytes(vec![0, 255])));

    let bytes = builder.encode_message().unwrap();
    let decoded = decode_message(&bytes, &descriptor, &FileDescriptorSet { files: vec![] }).unwrap();
    let read: Vec<(u32, ProtobufFieldData)> = decoded.iter().map(|f| (f.field_num, f.data.duplicate())).collect();
    assert_eq!(
        read,
        vec![
            (1, ProtobufFieldData::UInteger32(1)),
            (1, ProtobufFieldData::UInteger32(300)),
            (2, ProtobufFieldData::Boolean(true)),
            (2, ProtobufFieldData::Boolean(false)),
            (3, ProtobufFieldData::Bytes(vec![0, 255])),
            (4, ProtobufFieldData::Double(2.5f64.to_bits())),
            (5, ProtobufFieldData::Integer32(-2)),
        ]
    );
}

#[test]
fn enum_values_read_back_with_the_enum_found_for_the_field() {
    let colour = EnumDescriptor {
        name: Some("Colour".to_string()),
        values: vec![
            EnumValueDescriptor { name: Some("RED".to_string()), number: Some(0) },
            EnumValueDescriptor { name: Some("BLUE".to_string()), number: Some(2) },
        ],
    };
    let descriptor = MessageDescriptor {
        name: Some("Paint".to_string()),
        fields: vec![fd("colour", 4, 14, OPTIONAL, Some(".Paint.Colour")), fd("name", 5, 9, OPTIONAL, None)],
        nested_types: vec![],
        enum_types: vec![colour.clone()],
    };
    let mut builder = MessageBuilder::new(&descriptor, "Paint", &file());
    let colour_fd = builder.field_by_name("colour").unwrap();
    builder.set_field_value(&colour_fd, "colour", value("colour", RType::Enum(2, colour.clone())));
    let name_fd = builder.field_by_name("name").unwrap();
    builder.set_field_value(&name_fd, "name", MessageFieldValue::string("name", "sky"));
    let bytes = builder.encode_message().unwrap();
    let decoded = decode_message(&bytes, &descriptor, &FileDescriptorSet { files: vec![] }).unwrap();
    assert_eq!(decoded.len(), 2);
    assert_eq!(decoded[0].data, ProtobufFieldData::Enum(2, colour));
    assert_eq!(decoded[1].data, ProtobufFieldData::String("sky".to_string()));
}

#[test]
fn embedded_messages_read_back_as_their_encoding() {
    let inner_descriptor = MessageDescriptor {
        name: Some("Inner".to_string()),
        fields: vec![fd("n", 1, 4, OPTIONAL, None)],
        nested_types: vec![],
        enum_types: vec![],
    };
    let outer_descriptor = MessageDescriptor {
        name: Some("Outer".to_string()),
        fields: vec![fd("inner", 3, 11, OPTIONAL, Some(".Outer.Inner"))],
        nested_types: vec![inner_descriptor.duplicate()],
        enum_types: vec![],
    };
    let mut inner = MessageBuilder::new(&inner_descriptor, "Inner", &file());
    let n = inner.field_by_name("n").unwrap();
    inner.set_field_value(&n, "n", value("n", RType::UInteger64(300)));
    let inner_bytes = inner.encode_message().unwrap();
    let mut outer = MessageBuilder::new(&outer_descriptor, "Outer", &file());
    let f = outer.field_by_name("inner").unwrap();
    outer.set_field_value(&f, "inner", value("inner", RType::Message(Box::new(inner))));
    let bytes = outer.encode_message().unwrap();
    let decoded = decode_message(&bytes, &outer_descriptor, &FileDescriptorSet { files: vec![] }).unwrap();
    assert_eq!(decoded.len(), 1);
    assert_eq!(decoded[0].data, ProtobufFieldData::Message(inner_bytes.clone(), inner_descriptor.duplicate()));
    let nested = decode_message(&inner_bytes, &inner_descriptor, &FileDescriptorSet { files: vec![] }).unwrap();
    assert_eq!(nested[0].data, ProtobufFieldData::UInteger64(300));
}

#[test]
fn map_entries_read_back_as_entry_messages() {
    let entry = MessageDescriptor {
        name: Some("AttributesEntry".to_string()),
        fields: vec![fd("key", 1, 9, OPTIONAL, None), fd("value", 2, 13, OPTIONAL, None)],
        nested_types: vec![],
        enum_types: vec![],
    };
    let descriptor = MessageDescriptor {
        name: Some("WithMap".to_string()),
        fields: vec![fd("attributes", 1, 11, REPEATED, Some(".WithMap.AttributesEntry"))],
        nested_types: vec![entry.duplicate()],
        enum_types: vec![],
    };
    let mut builder = MessageBuilder::new(&descriptor, "WithMap", &file());
    let attrs = builder.field_by_name("attributes").unwrap();
    builder.add_map_field_value(&attrs, "attributes", MessageFieldValue::string("key", "a"), value("value", RType::UInteger32(1)));
    builder.add_map_field_value(&attrs, "attributes", MessageFieldValue::string("key", "b"), value("value", RType::UInteger32(300)));
    let bytes = builder.encode_message().unwrap();
    let decoded = decode_message(&bytes, &descriptor, &FileDescriptorSet { files: vec![] }).unwrap();
    assert_eq!(decoded.len(), 2);
    let mut entries = vec![];
    for field in &decoded {
        assert_eq!(field.field_num, 1);
        match &field.data {
            ProtobufFieldData::Message(payload, d) => {
                assert_eq!(d, &entry);
                let kv = decode_message(payload, d, &FileDescriptorSet { files: vec![] }).unwrap();
                entries.push((kv[0].data.duplicate(), kv[1].data.duplicate()));
            }
            other => panic!("unexpected {:?}", other),
        }
    }
    assert_eq!(
        entries,
        vec![
            (ProtobufFieldData::String("a".to_string()), ProtobufFieldData::UInteger32(1)),
            (ProtobufFieldData::String("b".to_string()), ProtobufFieldData::UInteger32(300)),
        ]
    );
}

#[test]
fn integers_in_floating_point_fields_are_written_as_floating_point_numbers() {
    let descriptor = MessageDescriptor {
        name: Some("Weights".to_string()),
        fields: vec![fd("weights", 1, 1, REPEATED, None), fd("ratio", 2, 2, OPTIONAL, None)],
        nested_types: vec![],
        enum_types: vec![],
    };
    let mut builder = MessageBuilder::new(&descriptor, "Weights", &file());
    let weights = builder.field_by_name("weights").unwrap();
    builder.add_repeated_field_value(&weights, "weights", value("weights", RType::Integer32(2)));
    builder.add_repeated_field_value(&weights, "weights", value("weights", RType::UInteger64(5)));
    let ratio = builder.field_by_name("ratio").unwrap();
    builder.set_field_value(&ratio, "ratio", value("ratio", RType::Integer64(-3)));
    let mut expected = vec![10, 16];
    expected.extend_from_slice(&2.0f64.to_le_bytes());
    expected.extend_from_slice(&5.0f64.to_le_bytes());
    expected.push(21);
    expected.extend_from_slice(&(-3.0f32).to_le_bytes());
    assert_eq!(builder.encode_message().unwrap(), expected);
}
