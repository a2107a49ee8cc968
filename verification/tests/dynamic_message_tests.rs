use pact_protobuf_plugin::descriptor::{FieldDescriptor, FileDescriptor, FileDescriptorSet, MessageDescriptor};
use pact_protobuf_plugin::dynamic_message::{ApplyError, DynamicMessage, DynamicMessageEncoder, PathError, PathToken, WriteError};
use pact_protobuf_plugin::field_values::JsonNumber;
use pact_protobuf_plugin::generators::{GenerateError, Generator, IntKind, JsonValue};
use pact_protobuf_plugin::message_decoder::{decode_message, ProtobufField, ProtobufFieldData};
use pact_protobuf_plugin::wire::WireType;

const REPEATED: i32 = 3;

fn fd(name: &str, number: i32, type_code: i32, label: Option<i32>) -> FieldDescriptor {
    FieldDescriptor {
        name: Some(name.to_string()),
        number: Some(number),
        label,
        proto_type: Some(type_code),
        type_ref: None,
        default_value: None,
    }
}

fn pf(num: u32, name: &str, wire_type: WireType, data: ProtobufFieldData, descriptor: &FieldDescriptor) -> ProtobufField {
    ProtobufField {
        field_num: num,
        field_name: name.to_string(),
        wire_type,
        data,
        additional_data: vec![],
        descriptor: descriptor.clone(),
    }
}

fn msg(fields: Vec<FieldDescriptor>) -> MessageDescriptor {
    MessageDescriptor { name: None, fields, nested_types: vec![], enum_types: vec![] }
}

fn no_files() -> FileDescriptorSet {
    FileDescriptorSet { files: vec![] }
}

#[test]
fn dynamic_message_write_to_test() {
    let d = fd("one", 1, 3, None);
    let field = pf(1, "one", WireType::Varint, ProtobufFieldData::Integer64(100), &d);
    let message = DynamicMessage::new(&[field.duplicate()], &no_files());
    let mut buffer = vec![];
    message.write_to(&mut buffer).unwrap();
    let result = decode_message(&buffer, &msg(vec![d.clone()]), &no_files()).unwrap();
    assert_eq!(result, vec![field]);
}

fn three_fields(repeated_first: bool) -> (FieldDescriptor, FieldDescriptor, FieldDescriptor) {
    (
        fd("one", 1, 3, if repeated_first { Some(REPEATED) } else { None }),
        fd("two", 2, 9, None),
        fd("three", 3, 8, None),
    )
}

#[test]
fn dynamic_message_write_to_test_with_multiple_fields() {
    let (d1, d2, d3) = three_fields(false);
    let f1 = pf(1, "one", WireType::Varint, ProtobufFieldData::Integer64(100), &d1);
    let f2 = pf(2, "two", WireType::LengthDelimited, ProtobufFieldData::String("test".to_string()), &d2);
    let f3 = pf(3, "three", WireType::Varint, ProtobufFieldData::Boolean(true), &d3);
    let message = DynamicMessage::new(&[f1.duplicate(), f3.duplicate(), f2.duplicate()], &no_files());
    let mut buffer = vec![];
    message.write_to(&mut buffer).unwrap();
    let result = decode_message(&buffer, &msg(vec![d1.clone(), d2.clone(), d3.clone()]), &no_files()).unwrap();
    assert_eq!(result, vec![f1, f2, f3]);
}

#[test]
fn dynamic_message_write_to_test_with_child_field() {
    let child_1 = fd("two", 1, 3, None);
    let child_2 = fd("three", 2, 3, None);
    let child_descriptor = MessageDescriptor {
        name: Some("child".to_string()),
        fields: vec![child_1.clone(), child_2.clone()],
        nested_types: vec![],
        enum_types: vec![],
    };
    let child_field = pf(1, "two", WireType::Varint, ProtobufFieldData::Integer64(100), &child_1);
    let child_field2 = pf(2, "three", WireType::Varint, ProtobufFieldData::Integer64(200), &child_2);
    let mut field_descriptor = fd("one", 1, 11, None);
    field_descriptor.type_ref = Some("child".to_string());
    let descriptor = MessageDescriptor {
        name: Some("parent".to_string()),
        fields: vec![field_descriptor.clone()],
        nested_types: vec![],
        enum_types: vec![],
    };
    let descriptors = FileDescriptorSet {
        files: vec![FileDescriptor {
            name: None,
            package: None,
            message_types: vec![descriptor.duplicate(), child_descriptor.duplicate()],
            enum_types: vec![],
        }],
    };
    let child_message = DynamicMessage::new(&[child_field, child_field2], &descriptors);
    let mut child_buffer = vec![];
    child_message.write_to(&mut child_buffer).unwrap();

    let field = pf(1, "one", WireType::LengthDelimited, ProtobufFieldData::Message(child_buffer, child_descriptor), &field_descriptor);
    let message = DynamicMessage::new(&[field.duplicate()], &descriptors);
    let mut buffer = vec![];
    message.write_to(&mut buffer).unwrap();
    let result = decode_message(&buffer, &descriptor, &descriptors).unwrap();
    assert_eq!(result, vec![field]);
}

#[test]
fn dynamic_message_write_to_test_with_repeated_fields() {
    let (d1, d2, d3) = three_fields(true);
    let f1_1 = pf(1, "one", WireType::Varint, ProtobufFieldData::Integer64(100), &d1);
    let f1_2 = pf(1, "one", WireType::Varint, ProtobufFieldData::Integer64(101), &d1);
    let f1_3 = pf(1, "one", WireType::Varint, ProtobufFieldData::Integer64(102), &d1);
    let f2 = pf(2, "two", WireType::LengthDelimited, ProtobufFieldData::String("test".to_string()), &d2);
    let f3 = pf(3, "three", WireType::Varint, ProtobufFieldData::Boolean(true), &d3);
    let fields = vec![f1_1.duplicate(), f3.duplicate(), f1_2.duplicate(), f2.duplicate(), f1_3.duplicate()];
    let message = DynamicMessage::new(&fields, &no_files());
    let mut buffer = vec![];
    message.write_to(&mut buffer).unwrap();
    let result = decode_message(&buffer, &msg(vec![d1.clone(), d2.clone(), d3.clone()]), &no_files()).unwrap();
    assert_eq!(result, vec![f1_1, f1_2, f1_3, f2, f3]);
}

#[test]
fn dynamic_message_write_to_test_with_repeated_field_with_additional_values() {
    let (d1, d2, d3) = three_fields(true);
    let mut f1 = pf(1, "one", WireType::Varint, ProtobufFieldData::Integer64(100), &d1);
    f1.additional_data = vec![ProtobufFieldData::Integer64(101), ProtobufFieldData::Integer64(102)];
    let f2 = pf(2, "two", WireType::LengthDelimited, ProtobufFieldData::String("test".to_string()), &d2);
    let f3 = pf(3, "three", WireType::Varint, ProtobufFieldData::Boolean(true), &d3);
    let message = DynamicMessage::new(&[f1, f3.duplicate(), f2.duplicate()], &no_files());
    let mut buffer = vec![];
    message.write_to(&mut buffer).unwrap();
    let result = decode_message(&buffer, &msg(vec![d1.clone(), d2.clone(), d3.clone()]), &no_files()).unwrap();
    let f1_1 = pf(1, "one", WireType::Varint, ProtobufFieldData::Integer64(100), &d1);
    let f1_2 = pf(1, "one", WireType::Varint, ProtobufFieldData::Integer64(101), &d1);
    let f1_3 = pf(1, "one", WireType::Varint, ProtobufFieldData::Integer64(102), &d1);
    assert_eq!(result, vec![f1_1, f1_2, f1_3, f2, f3]);
}

#[test]
fn new_consolidates_fields_by_number() {
    let (d1, d2, _) = three_fields(true);
    let fields = vec![
        pf(2, "two", WireType::LengthDelimited, ProtobufFieldData::String("a".to_string()), &d2),
        pf(1, "one", WireType::Varint, ProtobufFieldData::Integer64(1), &d1),
        pf(2, "two", WireType::LengthDelimited, ProtobufFieldData::String("b".to_string()), &d2),
        pf(1, "one", WireType::Varint, ProtobufFieldData::Integer64(2), &d1),
    ];
    let message = DynamicMessage::new(&fields, &no_files());
    let proto = message.proto_fields();
    assert_eq!(proto.len(), 2);
    assert_eq!(proto[0].field_num, 1);
    assert_eq!(proto[0].data, ProtobufFieldData::Integer64(1));
    assert_eq!(proto[0].additional_data, vec![ProtobufFieldData::Integer64(2)]);
    assert_eq!(proto[1].field_num, 2);
    assert_eq!(proto[1].additional_data, vec![ProtobufFieldData::String("b".to_string())]);
    // only repeated fields are expanded
    let flat = message.flatten_fields();
    assert_eq!(flat.len(), 3);
    assert_eq!(flat[1].data, ProtobufFieldData::Integer64(2));
    assert!(flat[1].additional_data.is_empty());
    assert_eq!(flat[2].field_num, 2);
}

#[test]
fn write_errors() {
    let d = fd("one", 1, 3, None);
    let bad = pf(1, "one", WireType::Varint, ProtobufFieldData::String("x".to_string()), &d);
    let message = DynamicMessage::new(&[bad], &no_files());
    let mut buffer = vec![];
    assert_eq!(message.write_to(&mut buffer), Err(WriteError::MismatchedData { field_num: 1 }));
    let zero = pf(0, "zero", WireType::Varint, ProtobufFieldData::Integer64(1), &d);
    let message = DynamicMessage::new(&[zero], &no_files());
    assert_eq!(message.write_to(&mut vec![]), Err(WriteError::InvalidTag { field_num: 0 }));
    let group = pf(4, "g", WireType::StartGroup, ProtobufFieldData::Integer64(1), &d);
    let message = DynamicMessage::new(&[group], &no_files());
    assert_eq!(DynamicMessageEncoder {}.encode(&message, &mut vec![]), Err(WriteError::GroupsNotSupported { field_num: 4 }));
}

#[test]
fn write_unknown_and_fixed_data() {
    let d = fd("x", 5, 6, None);
    let f = pf(5, "x", WireType::SixtyFourBit, ProtobufFieldData::UInteger64(0x0102030405060708), &d);
    let message = DynamicMessage::new(&[f], &no_files());
    let mut buffer = vec![];
    message.write_to(&mut buffer).unwrap();
    assert_eq!(buffer, vec![41, 8, 7, 6, 5, 4, 3, 2, 1]);
    let u = pf(6, "u", WireType::Varint, ProtobufFieldData::Unknown(vec![0x96, 0x01]), &d);
    let message = DynamicMessage::new(&[u], &no_files());
    let mut buffer = vec![];
    message.write_to(&mut buffer).unwrap();
    assert_eq!(buffer, vec![48, 0x96, 0x01]);
}

/// The tokens of a path such as `$.one.two`.
fn path(fields: &[&str]) -> Vec<PathToken> {
    let mut tokens = vec![PathToken::Root];
    tokens.extend(fields.iter().map(|f| PathToken::Field(f.to_string())));
    tokens
}

fn plain_field() -> ProtobufField {
    pf(1, "one", WireType::Varint, ProtobufFieldData::Integer64(100), &FieldDescriptor::default())
}

#[test]
fn dynamic_message_fetch_value_with_no_fields() {
    let mut message = DynamicMessage::new(&[], &no_files());
    assert!(message.fetch_field_value(&path(&["one", "two", "three"])).is_none());
}

#[test]
fn dynamic_message_fetch_value_with_no_root() {
    // A path written without its root marker ("one") is read as starting at the root.
    let mut message = DynamicMessage::new(&[plain_field()], &no_files());
    assert_eq!(message.fetch_field_value(&path(&["one"])), Some(plain_field()));
    assert_eq!(message.fetch_field_value(&vec![PathToken::Field("one".to_string())]), None);
}

#[test]
fn dynamic_message_fetch_value_with_matching_field() {
    let mut message = DynamicMessage::new(&[plain_field()], &no_files());
    assert_eq!(message.fetch_field_value(&path(&["one"])), Some(plain_field()));
}

fn child_message_field() -> (ProtobufField, ProtobufField, MessageDescriptor) {
    let child_1 = fd("two", 1, 3, None);
    let child_2 = fd("three", 2, 3, None);
    let child_descriptor = MessageDescriptor {
        name: Some("child".to_string()),
        fields: vec![child_1.clone(), child_2.clone()],
        nested_types: vec![],
        enum_types: vec![],
    };
    let child_field = pf(1, "two", WireType::Varint, ProtobufFieldData::Integer64(100), &child_1);
    let child_field2 = pf(2, "three", WireType::Varint, ProtobufFieldData::Integer64(200), &child_2);
    let child_message = DynamicMessage::new(&[child_field.duplicate(), child_field2], &no_files());
    let mut buffer = vec![];
    child_message.write_to(&mut buffer).unwrap();
    let field = pf(1, "one", WireType::LengthDelimited, ProtobufFieldData::Message(buffer, child_descriptor.duplicate()), &child_1);
    (field, child_field, child_descriptor)
}

#[test]
fn dynamic_message_fetch_value_with_matching_child_field() {
    let (field, child_field, _) = child_message_field();
    let mut message = DynamicMessage::new(&[field], &no_files());
    assert_eq!(message.fetch_field_value(&path(&["one", "two"])), Some(child_field));
}

#[test]
fn set_value_in_child_message() {
    let (field, _, child_descriptor) = child_message_field();
    let mut message = DynamicMessage::new(&[field], &no_files());
    message.set_field_value(&path(&["one", "three"]), ProtobufFieldData::Integer64(7)).unwrap();
    let updated = message.fetch_field_value(&path(&["one", "three"])).unwrap();
    assert_eq!(updated.data, ProtobufFieldData::Integer64(7));
    // the child message was written back with the new value
    match &message.proto_fields()[0].data {
        ProtobufFieldData::Message(bytes, d) => {
            assert_eq!(d, &child_descriptor);
            assert_eq!(bytes, &vec![8, 100, 16, 7]);
        }
        other => panic!("unexpected data {:?}", other),
    }
}

#[test]
fn set_value_at_index_of_repeated_field() {
    let d = fd("one", 1, 3, Some(REPEATED));
    let f = pf(1, "one", WireType::Varint, ProtobufFieldData::Integer64(100), &d);
    let mut message = DynamicMessage::new(&[f], &no_files());
    let mut p = path(&["one"]);
    p.push(PathToken::Index(3));
    message.set_field_value(&p, ProtobufFieldData::Integer64(4)).unwrap();
    let field = &message.proto_fields()[0];
    assert_eq!(field.data, ProtobufFieldData::Integer64(100));
    assert_eq!(
        field.additional_data,
        vec![ProtobufFieldData::Integer64(100), ProtobufFieldData::Integer64(100), ProtobufFieldData::Integer64(4)]
    );
    let mut p0 = path(&["one"]);
    p0.push(PathToken::Index(0));
    message.set_field_value(&p0, ProtobufFieldData::Integer64(1)).unwrap();
    assert_eq!(message.proto_fields()[0].data, ProtobufFieldData::Integer64(1));
}

#[test]
fn path_errors() {
    let mut message = DynamicMessage::new(&[plain_field()], &no_files());
    assert_eq!(message.set_field_value(&vec![], ProtobufFieldData::Integer64(1)), Err(PathError::NoRoot));
    assert_eq!(message.set_field_value(&path(&[]), ProtobufFieldData::Integer64(1)), Err(PathError::EndOfPath));
    assert_eq!(message.set_field_value(&path(&["two"]), ProtobufFieldData::Integer64(1)), Err(PathError::NoSuchField));
    let mut p = path(&["one"]);
    p.push(PathToken::Index(1));
    assert_eq!(message.set_field_value(&p, ProtobufFieldData::Integer64(1)), Err(PathError::IndexOnNonRepeated));
    assert_eq!(message.set_field_value(&path(&["one", "x"]), ProtobufFieldData::Integer64(1)), Err(PathError::SegmentNotApplicable));
    let mut star = path(&["one"]);
    star.push(PathToken::Star);
    assert_eq!(message.set_field_value(&star, ProtobufFieldData::Integer64(5)), Ok(()));
    assert_eq!(message.proto_fields()[0].data, ProtobufFieldData::Integer64(5));
}

#[test]
fn dynamic_message_generate_value_with_no_fields() {
    let mut message = DynamicMessage::new(&[], &no_files());
    let generators = vec![(path(&["one", "two", "three"]), Generator::RandomInt(1, 10))];
    assert_eq!(message.apply_generators(&generators), Ok(()));
}

#[test]
fn dynamic_message_generate_value_with_no_matching_field() {
    let mut message = DynamicMessage::new(&[plain_field()], &no_files());
    let generators = vec![(path(&["two"]), Generator::RandomInt(1, 10))];
    assert_eq!(message.apply_generators(&generators), Ok(()));
    assert_eq!(message.proto_fields()[0].data, ProtobufFieldData::Integer64(100));
}

#[test]
fn dynamic_message_generate_value_with_matching_field() {
    let mut message = DynamicMessage::new(&[plain_field()], &no_files());
    let generators = vec![(path(&["one"]), Generator::RandomInt(1, 10))];
    assert_eq!(message.apply_generators(&generators), Ok(()));
    let value = message.proto_fields()[0].data.as_i64().unwrap();
    assert_ne!(value, 100);
    assert!((1..=10).contains(&value));
}

#[test]
fn dynamic_message_generate_value_with_matching_child_field() {
    let (field, _, _) = child_message_field();
    let mut message = DynamicMessage::new(&[field], &no_files());
    let generators = vec![(path(&["one", "two"]), Generator::RandomInt(1, 10))];
    assert_eq!(message.apply_generators(&generators), Ok(()));
    let value = message.fetch_field_value(&path(&["one", "two"])).unwrap().data.as_i64().unwrap();
    assert_ne!(value, 100);
    assert!((1..=10).contains(&value));
}

#[test]
fn generators_stop_at_the_first_failure() {
    let text = pf(2, "two", WireType::LengthDelimited, ProtobufFieldData::String("x".to_string()), &fd("two", 2, 9, None));
    let mut message = DynamicMessage::new(&[plain_field(), text], &no_files());
    let generators = vec![
        (path(&["two"]), Generator::Text("generated".to_string())),
        (path(&["one"]), Generator::Text("not a number".to_string())),
        (path(&["two"]), Generator::Text("never".to_string())),
    ];
    assert_eq!(
        message.apply_generators(&generators),
        Err(ApplyError::Generate(GenerateError::UnsupportedDataType))
    );
    let fields = message.proto_fields();
    assert_eq!(fields[0].data, ProtobufFieldData::Integer64(100));
    assert_eq!(fields[1].data, ProtobufFieldData::String("generated".to_string()));

    let generators = vec![(path(&["one"]), Generator::Decimal("42".to_string(), Some(42.0f64.to_bits()), Some(42.0f32.to_bits())))];
    assert_eq!(message.apply_generators(&generators), Ok(()));
    assert_eq!(message.proto_fields()[0].data, ProtobufFieldData::Integer64(42));
}

fn repeated_int_field(label: Option<i32>) -> ProtobufField {
    pf(1, "one", WireType::Varint, ProtobufFieldData::Integer64(100), &FieldDescriptor { label, ..FieldDescriptor::default() })
}

fn num(n: u64) -> JsonValue {
    JsonValue::Number(JsonNumber::PosInt(n))
}

#[test]
fn dynamic_message_inject_array_into_repeated_field() {
    let mut message = DynamicMessage::new(&[repeated_int_field(Some(REPEATED))], &no_files());
    let array = JsonValue::Array(vec![num(1), num(2), JsonValue::String("3".to_string()), num(4)]);
    let generators = vec![(path(&["one"]), Generator::ProviderState(array))];
    assert_eq!(message.apply_generators(&generators), Ok(()));
    let fields = message.proto_fields();
    assert_eq!(fields.len(), 1);
    assert_eq!(fields[0].data.as_i64().unwrap(), 1);
    assert_eq!(fields[0].additional_data.len(), 3);
    assert_eq!(fields[0].additional_data[0].as_i64().unwrap(), 2);
    assert_eq!(fields[0].additional_data[1].as_i64().unwrap(), 3);
    assert_eq!(fields[0].additional_data[2].as_i64().unwrap(), 4);
}

#[test]
fn dynamic_message_inject_array_into_non_repeated_field() {
    let mut message = DynamicMessage::new(&[repeated_int_field(None)], &no_files());
    let array = JsonValue::Array(vec![num(1), num(2), num(3), num(4)]);
    let generators = vec![(path(&["one"]), Generator::ProviderState(array))];
    let result = message.apply_generators(&generators);
    assert!(result.is_err());
    assert_eq!(
        result.unwrap_err().message(),
        "Provider state value is a collection (Array or Object), and can not be injected into a single field"
    );
    assert_eq!(message.proto_fields()[0].data, ProtobufFieldData::Integer64(100));
}

#[test]
fn dynamic_message_inject_array_with_incorrect_type() {
    let mut message = DynamicMessage::new(&[repeated_int_field(Some(REPEATED))], &no_files());
    let array = JsonValue::Array(vec![num(1), num(2), JsonValue::String("sss".to_string()), num(4)]);
    let generators = vec![(path(&["one"]), Generator::ProviderState(array))];
    let result = message.apply_generators(&generators);
    assert!(result.is_err());
    let err = result.unwrap_err();
    assert_eq!(err.message(), "i64 can not be generated from 'sss' - invalid digit found in string");
    assert_eq!(err, ApplyError::Generate(GenerateError::InvalidNumber(IntKind::I64, "sss".to_string())));
    let fields = message.proto_fields();
    assert_eq!(fields[0].data, ProtobufFieldData::Integer64(1));
    assert_eq!(fields[0].additional_data, vec![ProtobufFieldData::Integer64(2)]);
}

#[test]
fn provider_state_value_into_fields() {
    let field = pf(1, "one", WireType::Varint, ProtobufFieldData::Integer64(100), &FieldDescriptor::default());
    let text = pf(2, "two", WireType::LengthDelimited, ProtobufFieldData::String("x".to_string()), &fd("two", 2, 9, None));
    let mut message = DynamicMessage::new(&[field, text], &no_files());
    let generators = vec![
        (path(&["one"]), Generator::ProviderState(JsonValue::String("-42".to_string()))),
        (path(&["two"]), Generator::ProviderState(JsonValue::Bool(true))),
    ];
    assert_eq!(message.apply_generators(&generators), Ok(()));
    let fields = message.proto_fields();
    assert_eq!(fields[0].data, ProtobufFieldData::Integer64(-42));
    assert_eq!(fields[1].data, ProtobufFieldData::String("true".to_string()));
    let empty = vec![(path(&["one"]), Generator::ProviderState(JsonValue::Array(vec![])))];
    assert_eq!(message.apply_generators(&empty), Err(ApplyError::Generate(GenerateError::ValueIsCollection)));
    let object = vec![(path(&["two"]), Generator::ProviderState(JsonValue::Object(vec![("a".to_string(), JsonValue::Null)])))];
    assert_eq!(message.apply_generators(&object), Err(ApplyError::Generate(GenerateError::ValueIsCollection)));
}
