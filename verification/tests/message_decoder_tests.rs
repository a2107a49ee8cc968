use pact_protobuf_plugin::descriptor::{
    EnumDescriptor, EnumValueDescriptor, FieldDescriptor, FileDescriptorSet, MessageDescriptor,
};
use pact_protobuf_plugin::message_decoder::{decode_message, ProtobufFieldData};
use pact_protobuf_plugin::wire::{DecodingError, WireType};

const OPTIONAL: i32 = 1;
const REPEATED: i32 = 3;

fn field(name: &str, number: i32, type_code: i32, type_ref: &str) -> FieldDescriptor {
    FieldDescriptor {
        name: Some(name.to_string()),
        number: Some(number),
        label: Some(OPTIONAL),
        proto_type: Some(type_code),
        type_ref: Some(type_ref.to_string()),
        default_value: None,
    }
}

fn with_default(mut f: FieldDescriptor, default: &str) -> FieldDescriptor {
    f.default_value = Some(default.to_string());
    f
}

fn bool_field(name: &str, n: i32) -> FieldDescriptor { field(name, n, 8, "Bool") }
fn string_field(name: &str, n: i32) -> FieldDescriptor { field(name, n, 9, "String") }
fn u32_field(name: &str, n: i32) -> FieldDescriptor { field(name, n, 13, "Uint32") }
fn i32_field(name: &str, n: i32) -> FieldDescriptor { field(name, n, 5, "Int32") }
fn u64_field(name: &str, n: i32) -> FieldDescriptor { field(name, n, 4, "Uint64") }
fn i64_field(name: &str, n: i32) -> FieldDescriptor { field(name, n, 3, "Int64") }
fn f32_field(name: &str, n: i32) -> FieldDescriptor { field(name, n, 2, "Float") }
fn f64_field(name: &str, n: i32) -> FieldDescriptor { field(name, n, 1, "Double") }
fn bytes_field(name: &str, n: i32) -> FieldDescriptor { field(name, n, 12, "Bytes") }
fn enum_field(name: &str, n: i32, t: &str) -> FieldDescriptor { field(name, n, 14, t) }
fn message_field(name: &str, n: i32, t: &str) -> FieldDescriptor { field(name, n, 11, t) }

fn message(name: &str, fields: Vec<FieldDescriptor>) -> MessageDescriptor {
    MessageDescriptor { name: Some(name.to_string()), fields, nested_types: vec![], enum_types: vec![] }
}

fn no_files() -> FileDescriptorSet {
    FileDescriptorSet { files: vec![] }
}

fn content_type_hint() -> EnumDescriptor {
    EnumDescriptor {
        name: Some("ContentTypeHint".to_string()),
        values: vec![
            EnumValueDescriptor { name: Some("DEFAULT".to_string()), number: Some(0) },
            EnumValueDescriptor { name: Some("TEXT".to_string()), number: Some(55) },
            EnumValueDescriptor { name: Some("BINARY".to_string()), number: Some(66) },
        ],
    }
}

fn init_plugin_request() -> MessageDescriptor {
    message("InitPluginRequest", vec![string_field("implementation", 1), string_field("version", 2)])
}

/// An `InitPluginRequest` with implementation "test" and version "1.2.3.4", encoded.
fn encoded_init_plugin_request() -> Vec<u8> {
    let mut v = vec![10u8, 4];
    v.extend_from_slice(b"test");
    v.extend_from_slice(&[18u8, 7]);
    v.extend_from_slice(b"1.2.3.4");
    v
}

fn check_decode_boolean() {
    let descriptor = message("TestMessage", vec![bool_field("bool_field", 1)]);
    let result = decode_message(&[8, 1], &descriptor, &no_files()).unwrap();
    assert_eq!(result.len(), 1);
    let f = &result[0];
    assert_eq!(f.field_num, 1);
    assert_eq!(f.wire_type, WireType::Varint);
    assert_eq!(f.data, ProtobufFieldData::Boolean(true));
}

fn check_decode_int32() {
    let descriptor = message("TestMessage", vec![i32_field("field_1", 2)]);
    let result = decode_message(&[16, 55], &descriptor, &no_files()).unwrap();
    assert_eq!(result.len(), 1);
    let f = &result[0];
    assert_eq!(f.field_num, 2);
    assert_eq!(f.wire_type, WireType::Varint);
    assert_eq!(f.data, ProtobufFieldData::Integer32(55));
}

fn check_decode_uint64() {
    let descriptor = message("TestMessage", vec![u64_field("field_1", 5)]);
    let result = decode_message(&[0b101000, 0b10110011, 0b101011], &descriptor, &no_files()).unwrap();
    assert_eq!(result.len(), 1);
    let f = &result[0];
    assert_eq!(f.field_num, 5);
    assert_eq!(f.wire_type, WireType::Varint);
    assert_eq!(f.data, ProtobufFieldData::UInteger64(5555));
}

fn check_decode_enum() {
    let mut descriptor = message("TestMessage", vec![enum_field("field_1", 2, "ContentTypeHint")]);
    descriptor.enum_types = vec![content_type_hint()];
    let result = decode_message(&[16, 55], &descriptor, &no_files()).unwrap();
    assert_eq!(result.len(), 1);
    let f = &result[0];
    assert_eq!(f.field_num, 2);
    assert_eq!(f.wire_type, WireType::Varint);
    assert_eq!(f.data, ProtobufFieldData::Enum(55, content_type_hint()));
}

fn check_decode_f32() {
    let mut buffer = vec![21u8];
    buffer.extend_from_slice(&12.34f32.to_le_bytes());
    let descriptor = message("TestMessage", vec![f32_field("field_1", 2)]);
    let result = decode_message(&buffer, &descriptor, &no_files()).unwrap();
    assert_eq!(result.len(), 1);
    let f = &result[0];
    assert_eq!(f.field_num, 2);
    assert_eq!(f.wire_type, WireType::ThirtyTwoBit);
    assert_eq!(f.data, ProtobufFieldData::Float(12.34f32.to_bits()));
}

fn check_decode_f64() {
    let mut buffer = vec![17u8];
    buffer.extend_from_slice(&12.34f64.to_le_bytes());
    let descriptor = message("TestMessage", vec![f64_field("field_1", 2)]);
    let result = decode_message(&buffer, &descriptor, &no_files()).unwrap();
    assert_eq!(result.len(), 1);
    let f = &result[0];
    assert_eq!(f.field_num, 2);
    assert_eq!(f.wire_type, WireType::SixtyFourBit);
    assert_eq!(f.data, ProtobufFieldData::Double(12.34f64.to_bits()));
}

fn check_decode_string() {
    let str_data = "this is a string!";
    let mut buffer = vec![10u8, str_data.len() as u8];
    buffer.extend_from_slice(str_data.as_bytes());
    let descriptor = message("TestMessage", vec![string_field("type", 1)]);
    let result = decode_message(&buffer, &descriptor, &no_files()).unwrap();
    assert_eq!(result.len(), 1);
    let f = &result[0];
    assert_eq!(f.field_num, 1);
    assert_eq!(f.wire_type, WireType::LengthDelimited);
    assert_eq!(f.data, ProtobufFieldData::String(str_data.to_string()));
}

fn check_decode_message() {
    let encoded = encoded_init_plugin_request();
    let mut buffer = vec![10u8, encoded.len() as u8];
    buffer.extend_from_slice(&encoded);
    let mut descriptor = message("TestMessage", vec![message_field("message", 1, "InitPluginRequest")]);
    descriptor.nested_types = vec![init_plugin_request()];
    let result = decode_message(&buffer, &descriptor, &no_files()).unwrap();
    assert_eq!(result.len(), 1);
    let f = &result[0];
    assert_eq!(f.field_num, 1);
    assert_eq!(f.wire_type, WireType::LengthDelimited);
    assert_eq!(f.data, ProtobufFieldData::Message(encoded, init_plugin_request()));
}

#[test]
fn mod_decode_boolean() { check_decode_boolean(); }
#[test]
fn message_decoder_decode_boolean() { check_decode_boolean(); }
#[test]
fn mod_decode_int32() { check_decode_int32(); }
#[test]
fn message_decoder_decode_int32() { check_decode_int32(); }
#[test]
fn mod_decode_uint64() { check_decode_uint64(); }
#[test]
fn message_decoder_decode_uint64() { check_decode_uint64(); }
#[test]
fn mod_decode_enum() { check_decode_enum(); }
#[test]
fn message_decoder_decode_enum() { check_decode_enum(); }
#[test]
fn mod_decode_f32() { check_decode_f32(); }
#[test]
fn message_decoder_decode_f32() { check_decode_f32(); }
#[test]
fn mod_decode_f64() { check_decode_f64(); }
#[test]
fn message_decoder_decode_f64() { check_decode_f64(); }
#[test]
fn mod_decode_string() { check_decode_string(); }
#[test]
fn message_decoder_decode_string() { check_decode_string(); }
#[test]
fn mod_decode_message_test() { check_decode_message(); }
#[test]
fn message_decoder_decode_message_test() { check_decode_message(); }

#[test]
fn decode_message_with_unknown_field() {
    let descriptor = message("InitPluginRequest", vec![string_field("implementation", 1)]);
    let result = decode_message(&encoded_init_plugin_request(), &descriptor, &no_files()).unwrap();
    assert_eq!(result.len(), 2);
    assert_eq!(result[0].field_num, 1);
    assert_eq!(result[0].wire_type, WireType::LengthDelimited);
    assert_eq!(result[0].data, ProtobufFieldData::String("test".to_string()));
    assert_eq!(result[1].field_num, 2);
    assert_eq!(result[1].wire_type, WireType::LengthDelimited);
    assert_eq!(result[1].data.data_type_name(), "Unknown");
}

#[test]
fn default_field_value_test_boolean() {
    let d = bool_field("bool_field", 1);
    assert_eq!(ProtobufFieldData::Boolean(true).default_field_value(&d, None), ProtobufFieldData::Boolean(false));
    let d = with_default(bool_field("bool_field", 1), "true");
    assert_eq!(ProtobufFieldData::Boolean(true).default_field_value(&d, None), ProtobufFieldData::Boolean(true));
    let d = with_default(bool_field("bool_field", 1), "false");
    assert_eq!(ProtobufFieldData::Boolean(true).default_field_value(&d, None), ProtobufFieldData::Boolean(false));
}

#[test]
fn default_field_value_test_string() {
    let d = string_field("field", 1);
    assert_eq!(ProtobufFieldData::String("true".to_string()).default_field_value(&d, None), ProtobufFieldData::String("".to_string()));
    let d = with_default(string_field("field", 1), "true");
    assert_eq!(ProtobufFieldData::String("other".to_string()).default_field_value(&d, None), ProtobufFieldData::String("true".to_string()));
}

#[test]
fn default_field_value_test_u32() {
    let d = u32_field("field", 1);
    assert_eq!(ProtobufFieldData::UInteger32(123).default_field_value(&d, None), ProtobufFieldData::UInteger32(0));
    let d = with_default(u32_field("field", 1), "100");
    assert_eq!(ProtobufFieldData::UInteger32(123).default_field_value(&d, None), ProtobufFieldData::UInteger32(100));
    let d = with_default(u32_field("field", 1), "sdsd");
    assert_eq!(ProtobufFieldData::UInteger32(123).default_field_value(&d, None), ProtobufFieldData::UInteger32(0));
}

#[test]
fn default_field_value_test_i32() {
    let d = i32_field("field", 1);
    assert_eq!(ProtobufFieldData::Integer32(123).default_field_value(&d, None), ProtobufFieldData::Integer32(0));
    let d = with_default(i32_field("field", 1), "100");
    assert_eq!(ProtobufFieldData::Integer32(123).default_field_value(&d, None), ProtobufFieldData::Integer32(100));
    let d = with_default(i32_field("field", 1), "sdsd");
    assert_eq!(ProtobufFieldData::Integer32(123).default_field_value(&d, None), ProtobufFieldData::Integer32(0));
}

#[test]
fn default_field_value_test_u64() {
    let d = u64_field("field", 1);
    assert_eq!(ProtobufFieldData::UInteger64(123).default_field_value(&d, None), ProtobufFieldData::UInteger64(0));
    let d = with_default(u64_field("field", 1), "100");
    assert_eq!(ProtobufFieldData::UInteger64(123).default_field_value(&d, None), ProtobufFieldData::UInteger64(100));
    let d = with_default(u64_field("field", 1), "sdsd");
    assert_eq!(ProtobufFieldData::UInteger64(123).default_field_value(&d, None), ProtobufFieldData::UInteger64(0));
}

#[test]
fn default_field_value_test_i64() {
    let d = i64_field("field", 1);
    assert_eq!(ProtobufFieldData::Integer64(123).default_field_value(&d, None), ProtobufFieldData::Integer64(0));
    let d = with_default(i64_field("field", 1), "100");
    assert_eq!(ProtobufFieldData::Integer64(123).default_field_value(&d, None), ProtobufFieldData::Integer64(100));
    let d = with_default(i64_field("field", 1), "sdsd");
    assert_eq!(ProtobufFieldData::Integer64(123).default_field_value(&d, None), ProtobufFieldData::Integer64(0));
}

/// The bit pattern of a default text parsed as an `f32`, as a caller hands it to the library.
fn f32_default_bits(text: &str) -> Option<u64> {
    text.parse::<f32>().ok().map(|f| f.to_bits() as u64)
}

/// The bit pattern of a default text parsed as an `f64`.
fn f64_default_bits(text: &str) -> Option<u64> {
    text.parse::<f64>().ok().map(|f| f.to_bits())
}

#[test]
fn default_field_value_test_f32() {
    let d = f32_field("field", 1);
    assert_eq!(ProtobufFieldData::Float(123.0f32.to_bits()).default_field_value(&d, None), ProtobufFieldData::Float(0.0f32.to_bits()));
    let d = with_default(f32_field("field", 1), "100");
    assert_eq!(
        ProtobufFieldData::Float(123.0f32.to_bits()).default_field_value(&d, f32_default_bits("100")),
        ProtobufFieldData::Float(100.0f32.to_bits())
    );
    let d = with_default(f32_field("field", 1), "sdsd");
    assert_eq!(
        ProtobufFieldData::Float(123.0f32.to_bits()).default_field_value(&d, f32_default_bits("sdsd")),
        ProtobufFieldData::Float(0.0f32.to_bits())
    );
}

#[test]
fn default_field_value_test_f64() {
    let d = f64_field("field", 1);
    assert_eq!(ProtobufFieldData::Double(123.0f64.to_bits()).default_field_value(&d, None), ProtobufFieldData::Double(0.0f64.to_bits()));
    let d = with_default(f64_field("field", 1), "100");
    assert_eq!(
        ProtobufFieldData::Double(123.0f64.to_bits()).default_field_value(&d, f64_default_bits("100")),
        ProtobufFieldData::Double(100.0f64.to_bits())
    );
    let d = with_default(f64_field("field", 1), "sdsd");
    assert_eq!(
        ProtobufFieldData::Double(123.0f64.to_bits()).default_field_value(&d, f64_default_bits("sdsd")),
        ProtobufFieldData::Double(0.0f64.to_bits())
    );
}

fn enum_value() -> EnumDescriptor {
    EnumDescriptor {
        name: Some("EnumValue".to_string()),
        values: vec![
            EnumValueDescriptor { name: Some("OPT1".to_string()), number: Some(0) },
            EnumValueDescriptor { name: Some("OPT2".to_string()), number: Some(1) },
            EnumValueDescriptor { name: Some("OPT3".to_string()), number: Some(2) },
        ],
    }
}

#[test]
fn default_field_value_test_enum() {
    let d = enum_field("field", 1, "OPT1");
    assert_eq!(ProtobufFieldData::Enum(2, enum_value()).default_field_value(&d, None), ProtobufFieldData::Enum(0, enum_value()));
    let d = with_default(enum_field("field", 1, "OPT2"), "1");
    assert_eq!(ProtobufFieldData::Enum(2, enum_value()).default_field_value(&d, None), ProtobufFieldData::Enum(1, enum_value()));
    let d = with_default(enum_field("field", 1, "OPT2"), "sdsd");
    assert_eq!(ProtobufFieldData::Enum(2, enum_value()).default_field_value(&d, None), ProtobufFieldData::Enum(0, enum_value()));
}

#[test]
fn default_field_value_test_bytes() {
    let d = bytes_field("field", 1);
    assert_eq!(ProtobufFieldData::Bytes(vec![1, 2, 3, 4]).default_field_value(&d, None), ProtobufFieldData::Bytes(vec![]));
    let d = with_default(bytes_field("field", 1), "true");
    assert_eq!(ProtobufFieldData::Bytes(vec![1, 2, 3, 4]).default_field_value(&d, None), ProtobufFieldData::Bytes(vec![116, 114, 117, 101]));
}

#[test]
fn default_field_value_test_message() {
    let d = message_field("field", 1, "InitPluginRequest");
    assert_eq!(
        ProtobufFieldData::Message(vec![1, 2, 3, 4], init_plugin_request()).default_field_value(&d, None),
        ProtobufFieldData::Message(vec![], init_plugin_request())
    );
    let d = with_default(message_field("field", 1, "InitPluginRequest"), "true");
    assert_eq!(
        ProtobufFieldData::Message(vec![1, 2, 3, 4], init_plugin_request()).default_field_value(&d, None),
        ProtobufFieldData::Message(vec![], init_plugin_request())
    );
}

#[test]
fn default_field_value_test_unknown() {
    let d = bytes_field("field", 1);
    assert_eq!(ProtobufFieldData::Unknown(vec![1, 2, 3, 4]).default_field_value(&d, None), ProtobufFieldData::Unknown(vec![]));
    let d = with_default(bytes_field("field", 1), "true");
    assert_eq!(ProtobufFieldData::Unknown(vec![1, 2, 3, 4]).default_field_value(&d, None), ProtobufFieldData::Unknown(vec![]));
}

#[test]
fn decode_packed_field() {
    let mut buffer = vec![10u8, 8];
    buffer.extend_from_slice(&12.0f32.to_le_bytes());
    buffer.extend_from_slice(&9.0f32.to_le_bytes());
    let mut f = f32_field("field_1", 1);
    f.label = Some(REPEATED);
    let descriptor = message("PackedFieldMessage", vec![f]);
    let result = decode_message(&buffer, &descriptor, &no_files()).unwrap();
    assert_eq!(result.len(), 2);
    assert_eq!(result[0].field_num, 1);
    assert_eq!(result[0].wire_type, WireType::ThirtyTwoBit);
    assert_eq!(result[0].data, ProtobufFieldData::Float(12.0f32.to_bits()));
    assert_eq!(result[1].data, ProtobufFieldData::Float(9.0f32.to_bits()));
}

#[test]
fn decode_keeps_byte_order() {
    let descriptor = message("M", vec![u64_field("a", 1), u64_field("b", 2)]);
    let result = decode_message(&[16, 7, 8, 3, 16, 9], &descriptor, &no_files()).unwrap();
    let nums: Vec<u32> = result.iter().map(|f| f.field_num).collect();
    assert_eq!(nums, vec![2, 1, 2]);
    assert_eq!(result[0].data, ProtobufFieldData::UInteger64(7));
    assert_eq!(result[1].data, ProtobufFieldData::UInteger64(3));
    assert_eq!(result[2].data, ProtobufFieldData::UInteger64(9));
    let two = decode_message(&[16, 1, 8, 2], &descriptor, &no_files()).unwrap();
    assert_eq!(two[0].field_num, 2);
    assert_eq!(two[0].data, ProtobufFieldData::UInteger64(1));
    assert_eq!(two[1].field_num, 1);
    assert_eq!(two[1].data, ProtobufFieldData::UInteger64(2));
}

#[test]
fn decode_errors() {
    let descriptor = message("M", vec![u64_field("a", 1), string_field("s", 2)]);
    assert_eq!(decode_message(&[8, 0x80], &descriptor, &no_files()).unwrap_err(), DecodingError::InvalidVarint);
    assert_eq!(decode_message(&[0], &descriptor, &no_files()).unwrap_err(), DecodingError::InvalidKey);
    assert!(matches!(
        decode_message(&[18, 5, 65], &descriptor, &no_files()).unwrap_err(),
        DecodingError::InsufficientData { field_num: 2, .. }
    ));
    assert!(decode_message(&[], &descriptor, &no_files()).unwrap().is_empty());
}
