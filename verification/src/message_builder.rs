//! Building Protobuf messages from field values, and encoding them.
//!
//! Floating point values are carried as their IEEE-754 bit patterns. Integers and booleans are
//! converted to floating point numbers, and floating point numbers to integers, as `as` converts
//! them. Converting text or a floating point number of the other width to a floating point
//! number, or a floating point number to text, needs floating point arithmetic, which is left to
//! the caller: those conversions fail with `EncodeError::FloatConversion`.
use vstd::prelude::*;
use vstd::slice::slice_to_vec;
use vstd::string::StringExecFns;
use vstd::utf8::encode_utf8;
use crate::builder_encoding::number_or_zero;
use crate::float_bits::{
    f32_as_int, f32_bits_of_i64, f32_bits_of_u64, f64_as_int, f64_bits_of_i64, f64_bits_of_u64, spec_f32_as_int,
    spec_f32_bits_of_int, spec_f64_as_int, spec_f64_bits_of_int, spec_text_int, text_f32_bits, text_f64_bits,
};
use crate::lookup::{find_field_by_name, opt_map_view, spec_find_field_by_name};
use crate::descriptor::{EnumDescriptor, FieldDescriptor, FieldDescriptorView, FieldType, FileDescriptor, MessageDescriptor};
use crate::text::{
    bool_to_text, i64_to_decimal, parse_bool, parse_i32, parse_i64, parse_u32, parse_u64, spec_parse_i32,
    spec_parse_i64, spec_parse_u32, spec_parse_u64, spec_signed_decimal, true_text, false_text,
};

verus! {

/// Why a message could not be encoded, or a value converted.
#[derive(Clone, Copy, Debug, PartialEq, Eq, Structural)]
pub enum EncodeError {
    /// The value can not be converted to the type the field needs.
    NotConvertible,
    /// A text value does not read as the type the field needs.
    InvalidText,
    /// The conversion needs floating point arithmetic, which is left to the caller.
    FloatConversion,
    /// The value is not of the kind the field needs (a message, bytes or an enum).
    MismatchedType,
    /// Group fields are not supported.
    UnsupportedType,
    /// An enum or map field has no type reference.
    MissingTypeRef,
    /// An enum value is not a value of its enum.
    EnumValueNotFound,
    /// A map field holds an odd number of values (they go in key-value pairs).
    OddMapValues,
    /// The entry type of a map field is not a nested type of the message.
    MapEntryNotFound,
    /// The entry type of a map field has no field named "key".
    MapKeyNotFound,
    /// The entry type of a map field has no field named "value".
    MapValueNotFound,
    /// Fields of this type can not be written in packed form.
    NotPackable,
    /// A packed field has no field number.
    MissingTag,
    /// A field number lies outside `1 ..= MAX_TAG`.
    InvalidTag,
}

/// What type of field the value is for.
#[derive(Clone, Copy, Debug, PartialEq, Eq, Structural)]
pub enum MessageFieldValueType {
    /// Normal field value
    Normal,
    /// Map field value
    MapField,
    /// Repeated field value
    Repeated,
}

/// A value to set a field to.
#[derive(Debug, PartialEq)]
pub enum RType {
    /// String value
    String(String),
    /// Boolean value
    Boolean(bool),
    /// Unsigned 32 bit integer
    UInteger32(u32),
    /// Signed 32 bit integer
    Integer32(i32),
    /// Unsigned 64 bit integer
    UInteger64(u64),
    /// Signed 64 bit integer
    Integer64(i64),
    /// 32 bit floating point number, as its bit pattern
    Float(u32),
    /// 64 bit floating point number, as its bit pattern
    Double(u64),
    /// Array of bytes
    Bytes(Vec<u8>),
    /// Enum value, with the descriptor of the enum
    Enum(i32, EnumDescriptor),
    /// Embedded message
    Message(Box<MessageBuilder>),
    /// Embedded `google.protobuf.Struct`, in its encoded form
    Struct(Vec<u8>),
}

/// Value of a message field.
#[derive(Debug, PartialEq)]
pub struct MessageFieldValue {
    /// Name of the field
    pub name: String,
    /// Raw value in text form
    pub raw_value: Option<String>,
    /// Value
    pub rtype: RType,
}

/// The values set for a field.
#[derive(Debug, PartialEq)]
pub struct FieldValueInner {
    /// Values for the field, only repeated and map fields will have more than one value (a map
    /// field holds keys and values in turn).
    pub values: Vec<MessageFieldValue>,
    /// Descriptor of the field.
    pub descriptor: FieldDescriptor,
    /// Type of field (singular, map or repeated)
    pub field_type: MessageFieldValueType,
    /// Field data type
    pub proto_type: FieldType,
}

/// Builder for a Protobuf message.
#[derive(Debug, PartialEq)]
pub struct MessageBuilder {
    /// Descriptor of the file the message belongs to
    pub file_descriptor: FileDescriptor,
    /// Descriptor of the message
    pub descriptor: MessageDescriptor,
    /// Message name
    pub message_name: String,
    /// The fields set, by name, in the order they were first set
    pub fields: Vec<(String, FieldValueInner)>,
}

// ---------------------------------------------------------------------------------------------
// Conversions of values
// ---------------------------------------------------------------------------------------------

/// Bit pattern of the `f64` value 1.0.
pub open spec fn f64_one_bits() -> u64 {
    0x3FF0_0000_0000_0000
}

/// Bit pattern of the `f32` value 1.0.
pub open spec fn f32_one_bits() -> u32 {
    0x3F80_0000
}

/// The value as the bit pattern of an `f64`: integers and booleans as the nearest `f64`, text
/// in integer form as the `f64` it reads as. Reading other text (with a fraction or an exponent)
/// and widening an `f32` need floating point arithmetic, which the library does not do: they
/// give `FloatConversion`.
pub open spec fn spec_as_f64_bits(r: RType) -> Result<u64, EncodeError> {
    match r {
        RType::Double(bits) => Ok(bits),
        RType::Boolean(b) => Ok(if b { f64_one_bits() } else { 0 }),
        RType::UInteger32(u) => Ok(spec_f64_bits_of_int(u as int)),
        RType::Integer32(i) => Ok(spec_f64_bits_of_int(i as int)),
        RType::UInteger64(u) => Ok(spec_f64_bits_of_int(u as int)),
        RType::Integer64(i) => Ok(spec_f64_bits_of_int(i as int)),
        RType::String(s) => match spec_text_int(s@) {
            Some(n) => Ok(spec_f64_bits_of_int(n)),
            None => Err(EncodeError::FloatConversion),
        },
        RType::Float(_) => Err(EncodeError::FloatConversion),
        _ => Err(EncodeError::NotConvertible),
    }
}

/// The value as the bit pattern of an `f32`: integers and booleans as the nearest `f32`, text
/// in integer form as the `f32` it reads as. Reading other text and narrowing an `f64` need
/// floating point arithmetic, which the library does not do: they give `FloatConversion`.
pub open spec fn spec_as_f32_bits(r: RType) -> Result<u32, EncodeError> {
    match r {
        RType::Float(bits) => Ok(bits),
        RType::Boolean(b) => Ok(if b { f32_one_bits() } else { 0 }),
        RType::UInteger32(u) => Ok(spec_f32_bits_of_int(u as int)),
        RType::Integer32(i) => Ok(spec_f32_bits_of_int(i as int)),
        RType::UInteger64(u) => Ok(spec_f32_bits_of_int(u as int)),
        RType::Integer64(i) => Ok(spec_f32_bits_of_int(i as int)),
        RType::String(s) => match spec_text_int(s@) {
            Some(n) => Ok(spec_f32_bits_of_int(n)),
            None => Err(EncodeError::FloatConversion),
        },
        RType::Double(_) => Err(EncodeError::FloatConversion),
        _ => Err(EncodeError::NotConvertible),
    }
}

/// The value as a `u64` (integers and floating point numbers are cast as `as` casts them).
pub open spec fn spec_as_u64(r: RType) -> Result<u64, EncodeError> {
    match r {
        RType::String(s) => match spec_parse_u64(s@) {
            Some(v) => Ok(v),
            None => Err(EncodeError::InvalidText),
        },
        RType::Boolean(b) => Ok(if b { 1 } else { 0 }),
        RType::UInteger32(u) => Ok(u as u64),
        RType::Integer32(i) => Ok(i as u64),
        RType::UInteger64(u) => Ok(u),
        RType::Integer64(i) => Ok(i as u64),
        RType::Float(b) => Ok(spec_f32_as_int(b, 0 as int, u64::MAX as int) as u64),
        RType::Double(b) => Ok(spec_f64_as_int(b, 0 as int, u64::MAX as int) as u64),
        _ => Err(EncodeError::NotConvertible),
    }
}

/// The value as an `i64`.
pub open spec fn spec_as_i64(r: RType) -> Result<i64, EncodeError> {
    match r {
        RType::String(s) => match spec_parse_i64(s@) {
            Some(v) => Ok(v),
            None => Err(EncodeError::InvalidText),
        },
        RType::Boolean(b) => Ok(if b { 1 } else { 0 }),
        RType::UInteger32(u) => Ok(u as i64),
        RType::Integer32(i) => Ok(i as i64),
        RType::UInteger64(u) => Ok(u as i64),
        RType::Integer64(i) => Ok(i),
        RType::Float(b) => Ok(spec_f32_as_int(b, i64::MIN as int, i64::MAX as int) as i64),
        RType::Double(b) => Ok(spec_f64_as_int(b, i64::MIN as int, i64::MAX as int) as i64),
        _ => Err(EncodeError::NotConvertible),
    }
}

/// The value as a `u32`.
pub open spec fn spec_as_u32(r: RType) -> Result<u32, EncodeError> {
    match r {
        RType::String(s) => match spec_parse_u32(s@) {
            Some(v) => Ok(v),
            None => Err(EncodeError::InvalidText),
        },
        RType::Boolean(b) => Ok(if b { 1 } else { 0 }),
        RType::UInteger32(u) => Ok(u),
        RType::Integer32(i) => Ok(i as u32),
        RType::UInteger64(u) => Ok(u as u32),
        RType::Integer64(i) => Ok(i as u32),
        RType::Float(b) => Ok(spec_f32_as_int(b, 0 as int, u32::MAX as int) as u32),
        RType::Double(b) => Ok(spec_f64_as_int(b, 0 as int, u32::MAX as int) as u32),
        _ => Err(EncodeError::NotConvertible),
    }
}

/// The value as an `i32`.
pub open spec fn spec_as_i32(r: RType) -> Result<i32, EncodeError> {
    match r {
        RType::String(s) => match spec_parse_i32(s@) {
            Some(v) => Ok(v),
            None => Err(EncodeError::InvalidText),
        },
        RType::Boolean(b) => Ok(if b { 1 } else { 0 }),
        RType::UInteger32(u) => Ok(u as i32),
        RType::Integer32(i) => Ok(i),
        RType::UInteger64(u) => Ok(u as i32),
        RType::Integer64(i) => Ok(i as i32),
        RType::Float(b) => Ok(spec_f32_as_int(b, i32::MIN as int, i32::MAX as int) as i32),
        RType::Double(b) => Ok(spec_f64_as_int(b, i32::MIN as int, i32::MAX as int) as i32),
        _ => Err(EncodeError::NotConvertible),
    }
}

/// The value as text: strings as they are, booleans as "true" or "false", integers and enum
/// values in decimal.
pub open spec fn spec_as_str(r: RType) -> Result<Seq<char>, EncodeError> {
    match r {
        RType::String(s) => Ok(s@),
        RType::Boolean(b) => Ok(if b { true_text() } else { false_text() }),
        RType::UInteger32(u) => Ok(spec_signed_decimal(u as int)),
        RType::Integer32(i) => Ok(spec_signed_decimal(i as int)),
        RType::UInteger64(u) => Ok(spec_signed_decimal(u as int)),
        RType::Integer64(i) => Ok(spec_signed_decimal(i as int)),
        RType::Enum(n, _) => Ok(spec_signed_decimal(n as int)),
        RType::Float(_) | RType::Double(_) => Err(EncodeError::FloatConversion),
        _ => Err(EncodeError::NotConvertible),
    }
}

/// The value as a boolean: text must read "true" or "false"; numbers are true when greater
/// than zero (for floating point numbers: positive, not zero and not NaN).
pub open spec fn spec_as_bool(r: RType) -> Result<bool, EncodeError> {
    match r {
        RType::String(s) => if s@ == true_text() {
            Ok(true)
        } else if s@ == false_text() {
            Ok(false)
        } else {
            Err(EncodeError::InvalidText)
        },
        RType::Boolean(b) => Ok(b),
        RType::UInteger32(u) => Ok(u > 0),
        RType::Integer32(i) => Ok(i > 0),
        RType::UInteger64(u) => Ok(u > 0),
        RType::Integer64(i) => Ok(i > 0),
        RType::Float(bits) => Ok(0 < bits && bits <= 0x7F80_0000),
        RType::Double(bits) => Ok(0 < bits && bits <= 0x7FF0_0000_0000_0000),
        _ => Err(EncodeError::NotConvertible),
    }
}

impl RType {
    /// Converts this value to the bit pattern of an `f64`.
    pub fn as_f64_bits(&self) -> (r: Result<u64, EncodeError>)
        ensures
            r == spec_as_f64_bits(*self),
    {
        match self {
            RType::Double(bits) => Ok(*bits),
            RType::Boolean(b) => Ok(if *b { 0x3FF0_0000_0000_0000 } else { 0 }),
            RType::UInteger32(u) => Ok(f64_bits_of_u64(*u as u64)),
            RType::Integer32(i) => Ok(f64_bits_of_i64(*i as i64)),
            RType::UInteger64(u) => Ok(f64_bits_of_u64(*u)),
            RType::Integer64(i) => Ok(f64_bits_of_i64(*i)),
            RType::String(s) => match text_f64_bits(s.as_str()) {
                Some(bits) => Ok(bits),
                None => Err(EncodeError::FloatConversion),
            },
            RType::Float(_) => Err(EncodeError::FloatConversion),
            _ => Err(EncodeError::NotConvertible),
        }
    }

    /// Converts this value to the bit pattern of an `f32`.
    pub fn as_f32_bits(&self) -> (r: Result<u32, EncodeError>)
        ensures
            r == spec_as_f32_bits(*self),
    {
        match self {
            RType::Float(bits) => Ok(*bits),
            RType::Boolean(b) => Ok(if *b { 0x3F80_0000 } else { 0 }),
            RType::UInteger32(u) => Ok(f32_bits_of_u64(*u as u64)),
            RType::Integer32(i) => Ok(f32_bits_of_i64(*i as i64)),
            RType::UInteger64(u) => Ok(f32_bits_of_u64(*u)),
            RType::Integer64(i) => Ok(f32_bits_of_i64(*i)),
            RType::String(s) => match text_f32_bits(s.as_str()) {
                Some(bits) => Ok(bits),
                None => Err(EncodeError::FloatConversion),
            },
            RType::Double(_) => Err(EncodeError::FloatConversion),
            _ => Err(EncodeError::NotConvertible),
        }
    }

    /// Converts this value to a `u64`.
    pub fn as_u64(&self) -> (r: Result<u64, EncodeError>)
        ensures
            r == spec_as_u64(*self),
    {
        match self {
            RType::String(s) => match parse_u64(s.as_str()) {
                Some(v) => Ok(v),
                None => Err(EncodeError::InvalidText),
            },
            RType::Boolean(b) => Ok(if *b { 1 } else { 0 }),
            RType::UInteger32(u) => Ok(*u as u64),
            RType::Integer32(i) => Ok(*i as u64),
            RType::UInteger64(u) => Ok(*u),
            RType::Integer64(i) => Ok(*i as u64),
            RType::Float(b) => Ok(f32_as_int(*b, 0, 0xFFFF_FFFF_FFFF_FFFF) as u64),
            RType::Double(b) => Ok(f64_as_int(*b, 0, 0xFFFF_FFFF_FFFF_FFFF) as u64),
            _ => Err(EncodeError::NotConvertible),
        }
    }

    /// Converts this value to an `i64`.
    pub fn as_i64(&self) -> (r: Result<i64, EncodeError>)
        ensures
            r == spec_as_i64(*self),
    {
        match self {
            RType::String(s) => match parse_i64(s.as_str()) {
                Some(v) => Ok(v),
                None => Err(EncodeError::InvalidText),
            },
            RType::Boolean(b) => Ok(if *b { 1 } else { 0 }),
            RType::UInteger32(u) => Ok(*u as i64),
            RType::Integer32(i) => Ok(*i as i64),
            RType::UInteger64(u) => Ok(*u as i64),
            RType::Integer64(i) => Ok(*i),
            RType::Float(b) => Ok(f32_as_int(*b, -0x8000_0000_0000_0000, 0x7FFF_FFFF_FFFF_FFFF) as i64),
            RType::Double(b) => Ok(f64_as_int(*b, -0x8000_0000_0000_0000, 0x7FFF_FFFF_FFFF_FFFF) as i64),
            _ => Err(EncodeError::NotConvertible),
        }
    }

    /// Converts this value to a `u32`.
    pub fn as_u32(&self) -> (r: Result<u32, EncodeError>)
        ensures
            r == spec_as_u32(*self),
    {
        match self {
            RType::String(s) => match parse_u32(s.as_str()) {
                Some(v) => Ok(v),
                None => Err(EncodeError::InvalidText),
            },
            RType::Boolean(b) => Ok(if *b { 1 } else { 0 }),
            RType::UInteger32(u) => Ok(*u),
            RType::Integer32(i) => Ok(*i as u32),
            RType::UInteger64(u) => Ok(*u as u32),
            RType::Integer64(i) => Ok(*i as u32),
            RType::Float(b) => Ok(f32_as_int(*b, 0, 0xFFFF_FFFF) as u32),
            RType::Double(b) => Ok(f64_as_int(*b, 0, 0xFFFF_FFFF) as u32),
            _ => Err(EncodeError::NotConvertible),
        }
    }

    /// Converts this value to an `i32`.
    pub fn as_i32(&self) -> (r: Result<i32, EncodeError>)
        ensures
            r == spec_as_i32(*self),
    {
        match self {
            RType::String(s) => match parse_i32(s.as_str()) {
                Some(v) => Ok(v),
                None => Err(EncodeError::InvalidText),
            },
            RType::Boolean(b) => Ok(if *b { 1 } else { 0 }),
            RType::UInteger32(u) => Ok(*u as i32),
            RType::Integer32(i) => Ok(*i),
            RType::UInteger64(u) => Ok(*u as i32),
            RType::Integer64(i) => Ok(*i as i32),
            RType::Float(b) => Ok(f32_as_int(*b, -0x8000_0000, 0x7FFF_FFFF) as i32),
            RType::Double(b) => Ok(f64_as_int(*b, -0x8000_0000, 0x7FFF_FFFF) as i32),
            _ => Err(EncodeError::NotConvertible),
        }
    }

    /// Converts this value to text.
    pub fn as_str(&self) -> (r: Result<String, EncodeError>)
        ensures
            match spec_as_str(*self) {
                Ok(s) => r matches Ok(t) && t@ == s,
                Err(e) => r == Err::<String, EncodeError>(e),
            },
    {
        match self {
            RType::String(s) => Ok(s.clone()),
            RType::Boolean(b) => Ok(bool_to_text(*b)),
            RType::UInteger32(u) => Ok(i64_to_decimal(*u as i64)),
            RType::Integer32(i) => Ok(i64_to_decimal(*i as i64)),
            RType::UInteger64(u) => {
                let r = crate::text::u64_to_decimal(*u);
                Ok(r)
            },
            RType::Integer64(i) => Ok(i64_to_decimal(*i)),
            RType::Enum(n, _) => Ok(i64_to_decimal(*n as i64)),
            RType::Float(_) | RType::Double(_) => Err(EncodeError::FloatConversion),
            _ => Err(EncodeError::NotConvertible),
        }
    }

    /// Converts this value to a boolean.
    pub fn as_bool(&self) -> (r: Result<bool, EncodeError>)
        ensures
            r == spec_as_bool(*self),
    {
        match self {
            RType::String(s) => match parse_bool(s.as_str()) {
                Some(b) => Ok(b),
                None => Err(EncodeError::InvalidText),
            },
            RType::Boolean(b) => Ok(*b),
            RType::UInteger32(u) => Ok(*u > 0),
            RType::Integer32(i) => Ok(*i > 0),
            RType::UInteger64(u) => Ok(*u > 0),
            RType::Integer64(i) => Ok(*i > 0),
            RType::Float(bits) => Ok(0 < *bits && *bits <= 0x7F80_0000),
            RType::Double(bits) => Ok(0 < *bits && *bits <= 0x7FF0_0000_0000_0000),
            _ => Err(EncodeError::NotConvertible),
        }
    }
}

// ---------------------------------------------------------------------------------------------
// Field values
// ---------------------------------------------------------------------------------------------

/// The value is named `name`, has the raw text `text` and holds `rtype`.
pub open spec fn is_field_value(v: MessageFieldValue, name: Seq<char>, text: Seq<char>, rtype: RType) -> bool {
    &&& v.name@ == name
    &&& v.raw_value is Some
    &&& v.raw_value->0@ == text
    &&& v.rtype == rtype
}

impl MessageFieldValue {
    /// A string value.
    pub fn string(field_name: &str, field_value: &str) -> (r: MessageFieldValue)
        ensures
            r.name@ == field_name@,
            r.raw_value matches Some(raw) && raw@ == field_value@,
            r.rtype matches RType::String(s) && s@ == field_value@,
    {
        MessageFieldValue {
            name: String::from_str(field_name),
            raw_value: Some(String::from_str(field_value)),
            rtype: RType::String(String::from_str(field_value)),
        }
    }

    /// A boolean value; fails where the text is not "true" or "false".
    pub fn boolean(field_name: &str, field_value: &str) -> (r: Result<MessageFieldValue, EncodeError>)
        ensures
            field_value@ == true_text() || field_value@ == false_text() ==> (r matches Ok(v)
                && is_field_value(v, field_name@, field_value@, RType::Boolean(field_value@ == true_text()))),
            !(field_value@ == true_text() || field_value@ == false_text()) ==> r == Err::<MessageFieldValue, EncodeError>(EncodeError::InvalidText),
    {
        match parse_bool(field_value) {
            Some(v) => Ok(MessageFieldValue {
                name: String::from_str(field_name),
                raw_value: Some(String::from_str(field_value)),
                rtype: RType::Boolean(v),
            }),
            None => Err(EncodeError::InvalidText),
        }
    }

    /// An unsigned 32 bit integer value; fails where the text is not such a number.
    pub fn uinteger_32(field_name: &str, field_value: &str) -> (r: Result<MessageFieldValue, EncodeError>)
        ensures
            match spec_parse_u32(field_value@) {
                Some(n) => (r matches Ok(v) && is_field_value(v, field_name@, field_value@, RType::UInteger32(n))),
                None => r == Err::<MessageFieldValue, EncodeError>(EncodeError::InvalidText),
            },
    {
        match parse_u32(field_value) {
            Some(v) => Ok(MessageFieldValue {
                name: String::from_str(field_name),
                raw_value: Some(String::from_str(field_value)),
                rtype: RType::UInteger32(v),
            }),
            None => Err(EncodeError::InvalidText),
        }
    }

    /// A signed 32 bit integer value; fails where the text is not such a number.
    pub fn integer_32(field_name: &str, field_value: &str) -> (r: Result<MessageFieldValue, EncodeError>)
        ensures
            match spec_parse_i32(field_value@) {
                Some(n) => (r matches Ok(v) && is_field_value(v, field_name@, field_value@, RType::Integer32(n))),
                None => r == Err::<MessageFieldValue, EncodeError>(EncodeError::InvalidText),
            },
    {
        match parse_i32(field_value) {
            Some(v) => Ok(MessageFieldValue {
                name: String::from_str(field_name),
                raw_value: Some(String::from_str(field_value)),
                rtype: RType::Integer32(v),
            }),
            None => Err(EncodeError::InvalidText),
        }
    }

    /// An unsigned 64 bit integer value; fails where the text is not such a number.
    pub fn uinteger_64(field_name: &str, field_value: &str) -> (r: Result<MessageFieldValue, EncodeError>)
        ensures
            match spec_parse_u64(field_value@) {
                Some(n) => (r matches Ok(v) && is_field_value(v, field_name@, field_value@, RType::UInteger64(n))),
                None => r == Err::<MessageFieldValue, EncodeError>(EncodeError::InvalidText),
            },
    {
        match parse_u64(field_value) {
            Some(v) => Ok(MessageFieldValue {
                name: String::from_str(field_name),
                raw_value: Some(String::from_str(field_value)),
                rtype: RType::UInteger64(v),
            }),
            None => Err(EncodeError::InvalidText),
        }
    }

    /// A signed 64 bit integer value; fails where the text is not such a number.
    pub fn integer_64(field_name: &str, field_value: &str) -> (r: Result<MessageFieldValue, EncodeError>)
        ensures
            match spec_parse_i64(field_value@) {
                Some(n) => (r matches Ok(v) && is_field_value(v, field_name@, field_value@, RType::Integer64(n))),
                None => r == Err::<MessageFieldValue, EncodeError>(EncodeError::InvalidText),
            },
    {
        match parse_i64(field_value) {
            Some(v) => Ok(MessageFieldValue {
                name: String::from_str(field_name),
                raw_value: Some(String::from_str(field_value)),
                rtype: RType::Integer64(v),
            }),
            None => Err(EncodeError::InvalidText),
        }
    }

    /// A byte array value holding the UTF-8 bytes of the text.
    pub fn bytes(field_name: &str, field_value: &str) -> (r: MessageFieldValue)
        ensures
            r.name@ == field_name@,
            r.raw_value matches Some(raw) && raw@ == field_value@,
            r.rtype matches RType::Bytes(b) && b@ == encode_utf8(field_value@),
    {
        MessageFieldValue {
            name: String::from_str(field_name),
            raw_value: Some(String::from_str(field_value)),
            rtype: RType::Bytes(slice_to_vec(field_value.as_bytes())),
        }
    }
}

// ---------------------------------------------------------------------------------------------
// The builder
// ---------------------------------------------------------------------------------------------

/// The field number of an entry of the builder (zero where the descriptor has none).
pub open spec fn entry_number(e: (String, FieldValueInner)) -> i32 {
    number_or_zero(e.1.descriptor@)
}

/// The entries are ordered by field number.
pub open spec fn fields_ordered(fields: Seq<(String, FieldValueInner)>) -> bool {
    forall|i: int, j: int| 0 <= i < j < fields.len() ==> entry_number(#[trigger] fields[i]) <= entry_number(#[trigger] fields[j])
}

/// No two entries have the same name.
pub open spec fn names_unique(fields: Seq<(String, FieldValueInner)>) -> bool {
    forall|i: int, j: int| 0 <= i < j < fields.len() ==> (#[trigger] fields[i]).0@ != (#[trigger] fields[j]).0@
}

/// The index of the entry named `name`, if there is one.
pub open spec fn spec_find_name(fields: Seq<(String, FieldValueInner)>, name: Seq<char>) -> Option<int>
    decreases fields.len(),
{
    if fields.len() == 0 {
        None
    } else if fields[0].0@ == name {
        Some(0)
    } else {
        match spec_find_name(fields.drop_first(), name) {
            Some(i) => Some(i + 1),
            None => None,
        }
    }
}

/// The entries without the one named `name`.
pub open spec fn spec_without_name(fields: Seq<(String, FieldValueInner)>, name: Seq<char>) -> Seq<(String, FieldValueInner)> {
    match spec_find_name(fields, name) {
        Some(i) => fields.remove(i),
        None => fields,
    }
}

/// Where an entry with field number `num` goes among entries ordered by number: after the last
/// one whose number is not greater.
pub open spec fn spec_entry_pos(fields: Seq<(String, FieldValueInner)>, num: i32) -> int
    decreases fields.len(),
{
    if fields.len() == 0 {
        0
    } else if entry_number(fields.last()) <= num {
        fields.len() as int
    } else {
        spec_entry_pos(fields.drop_last(), num)
    }
}

/// The entry holds a new field: the values `values`, the descriptor `desc`, the kind `kind` and
/// the type of the descriptor.
pub open spec fn is_new_entry(
    e: (String, FieldValueInner),
    name: Seq<char>,
    values: Seq<MessageFieldValue>,
    desc: FieldDescriptorView,
    kind: MessageFieldValueType,
) -> bool {
    &&& e.0@ == name
    &&& e.1.values@ == values
    &&& e.1.descriptor@ == desc
    &&& e.1.field_type == kind
    &&& e.1.proto_type == desc.field_type()
}

/// `after` is `before` with a new entry inserted where its field number puts it; the new entry
/// is returned.
pub open spec fn inserted_by_number(
    after: Seq<(String, FieldValueInner)>,
    before: Seq<(String, FieldValueInner)>,
    num: i32,
) -> bool {
    let p = spec_entry_pos(before, num);
    &&& 0 <= p < after.len()
    &&& after == before.insert(p, after[p])
}

proof fn lemma_find_name_first(fields: Seq<(String, FieldValueInner)>, name: Seq<char>, i: int)
    requires
        0 <= i < fields.len(),
        fields[i].0@ == name,
        forall|k: int| 0 <= k < i ==> (#[trigger] fields[k]).0@ != name,
    ensures
        spec_find_name(fields, name) == Some(i),
    decreases i,
{
    if i > 0 {
        let rest = fields.drop_first();
        assert forall|k: int| 0 <= k < i - 1 implies (#[trigger] rest[k]).0@ != name by {
            assert(rest[k] == fields[k + 1]);
        }
        lemma_find_name_first(rest, name, i - 1);
    }
}

proof fn lemma_find_name_none(fields: Seq<(String, FieldValueInner)>, name: Seq<char>)
    requires
        forall|k: int| 0 <= k < fields.len() ==> (#[trigger] fields[k]).0@ != name,
    ensures
        spec_find_name(fields, name) is None,
    decreases fields.len(),
{
    if fields.len() > 0 {
        let rest = fields.drop_first();
        assert forall|k: int| 0 <= k < rest.len() implies (#[trigger] rest[k]).0@ != name by {
            assert(rest[k] == fields[k + 1]);
        }
        lemma_find_name_none(rest, name);
    }
}

proof fn lemma_entry_pos(fields: Seq<(String, FieldValueInner)>, num: i32)
    requires
        fields_ordered(fields),
    ensures
        0 <= spec_entry_pos(fields, num) <= fields.len(),
        forall|i: int| 0 <= i < spec_entry_pos(fields, num) ==> entry_number(#[trigger] fields[i]) <= num,
        forall|i: int| spec_entry_pos(fields, num) <= i < fields.len() ==> entry_number(#[trigger] fields[i]) > num,
    decreases fields.len(),
{
    if fields.len() > 0 {
        let d = fields.drop_last();
        assert forall|i: int, j: int| 0 <= i < j < d.len() implies entry_number(#[trigger] d[i]) <= entry_number(#[trigger] d[j]) by {
            assert(d[i] == fields[i] && d[j] == fields[j]);
        }
        lemma_entry_pos(d, num);
        if entry_number(fields.last()) <= num {
            assert forall|i: int| 0 <= i < fields.len() implies entry_number(#[trigger] fields[i]) <= num by {
                if i < fields.len() - 1 {
                    assert(entry_number(fields[i]) <= entry_number(fields[fields.len() - 1]));
                }
            }
        } else {
            assert forall|i: int| 0 <= i < spec_entry_pos(fields, num) implies entry_number(#[trigger] fields[i]) <= num by {
                assert(d[i] == fields[i]);
            }
            assert forall|i: int| spec_entry_pos(fields, num) <= i < fields.len() implies entry_number(#[trigger] fields[i]) > num by {
                if i < fields.len() - 1 {
                    assert(d[i] == fields[i]);
                }
            }
        }
    }
}

/// Inserting an entry where its number puts it keeps the entries ordered, and keeps names
/// unique where the name is new.
proof fn lemma_insert_keeps_wf(before: Seq<(String, FieldValueInner)>, e: (String, FieldValueInner))
    requires
        fields_ordered(before),
        names_unique(before),
        forall|k: int| 0 <= k < before.len() ==> (#[trigger] before[k]).0@ != e.0@,
    ensures
        fields_ordered(before.insert(spec_entry_pos(before, entry_number(e)), e)),
        names_unique(before.insert(spec_entry_pos(before, entry_number(e)), e)),
{
    let p = spec_entry_pos(before, entry_number(e));
    lemma_entry_pos(before, entry_number(e));
    let after = before.insert(p, e);
    assert forall|i: int, j: int| 0 <= i < j < after.len() implies entry_number(#[trigger] after[i]) <= entry_number(#[trigger] after[j]) by {
        if j < p {
            assert(after[i] == before[i] && after[j] == before[j]);
        } else if j == p {
            assert(after[i] == before[i]);
        } else if i < p {
            assert(after[i] == before[i] && after[j] == before[j - 1]);
        } else if i == p {
            assert(after[j] == before[j - 1]);
        } else {
            assert(after[i] == before[i - 1] && after[j] == before[j - 1]);
        }
    }
    assert forall|i: int, j: int| 0 <= i < j < after.len() implies (#[trigger] after[i]).0@ != (#[trigger] after[j]).0@ by {
        if j < p {
            assert(after[i] == before[i] && after[j] == before[j]);
        } else if j == p {
            assert(after[i] == before[i]);
        } else if i < p {
            assert(after[i] == before[i] && after[j] == before[j - 1]);
        } else if i == p {
            assert(after[j] == before[j - 1]);
        } else {
            assert(after[i] == before[i - 1] && after[j] == before[j - 1]);
        }
    }
}

/// Removing an entry keeps the entries ordered and their names unique.
proof fn lemma_remove_keeps_wf(fields: Seq<(String, FieldValueInner)>, i: int)
    requires
        fields_ordered(fields),
        names_unique(fields),
        0 <= i < fields.len(),
    ensures
        fields_ordered(fields.remove(i)),
        names_unique(fields.remove(i)),
        forall|k: int| 0 <= k < fields.remove(i).len() ==> (#[trigger] fields.remove(i)[k]).0@ != fields[i].0@,
{
    let r = fields.remove(i);
    assert forall|a: int, b: int| 0 <= a < b < r.len() implies entry_number(#[trigger] r[a]) <= entry_number(#[trigger] r[b]) by {
        let a2 = if a < i { a } else { a + 1 };
        let b2 = if b < i { b } else { b + 1 };
        assert(r[a] == fields[a2] && r[b] == fields[b2]);
    }
    assert forall|a: int, b: int| 0 <= a < b < r.len() implies (#[trigger] r[a]).0@ != (#[trigger] r[b]).0@ by {
        let a2 = if a < i { a } else { a + 1 };
        let b2 = if b < i { b } else { b + 1 };
        assert(r[a] == fields[a2] && r[b] == fields[b2]);
    }
    assert forall|k: int| 0 <= k < r.len() implies (#[trigger] r[k]).0@ != fields[i].0@ by {
        let k2 = if k < i { k } else { k + 1 };
        assert(r[k] == fields[k2]);
    }
}

/// Finds the index of the entry named `name`.
fn find_name(fields: &Vec<(String, FieldValueInner)>, name: &String) -> (r: Option<usize>)
    ensures
        match r {
            Some(i) => spec_find_name(fields@, name@) == Some(i as int) && i < fields@.len() && fields@[i as int].0@ == name@,
            None => spec_find_name(fields@, name@) is None,
        },
        r is None ==> forall|k: int| 0 <= k < fields@.len() ==> (#[trigger] fields@[k]).0@ != name@,
{
    let mut i: usize = 0;
    while i < fields.len()
        invariant
            i <= fields@.len(),
            forall|k: int| 0 <= k < i ==> (#[trigger] fields@[k]).0@ != name@,
        decreases fields@.len() - i,
    {
        if fields[i].0 == *name {
            proof {
                lemma_find_name_first(fields@, name@, i as int);
            }
            return Some(i);
        }
        i = i + 1;
    }
    proof {
        lemma_find_name_none(fields@, name@);
    }
    None
}

/// The field number of an entry (zero where its descriptor has none).
fn entry_num(e: &(String, FieldValueInner)) -> (r: i32)
    ensures
        r == entry_number(*e),
{
    match e.1.descriptor.number {
        Some(n) => n,
        None => 0,
    }
}

/// Inserts an entry where its field number puts it.
fn insert_by_number(fields: &mut Vec<(String, FieldValueInner)>, e: (String, FieldValueInner))
    ensures
        final(fields)@ == old(fields)@.insert(spec_entry_pos(old(fields)@, entry_number(e)), e),
{
    let num = entry_num(&e);
    let ghost before = fields@;
    let mut j = fields.len();
    assert(before.take(j as int) =~= before);
    while j > 0 && entry_num(&fields[j - 1]) > num
        invariant
            before == fields@,
            j <= fields@.len(),
            num == entry_number(e),
            spec_entry_pos(before, num) == spec_entry_pos(before.take(j as int), num),
        decreases j,
    {
        assert(before.take(j as int).drop_last() =~= before.take(j - 1));
        j = j - 1;
    }
    proof {
        if j > 0 {
            assert(before.take(j as int).last() == before[j - 1]);
        }
    }
    fields.insert(j, e);
}

impl MessageBuilder {
    /// The builder is well formed: its entries are ordered by field number and no two have the
    /// same name.
    pub open spec fn wf(&self) -> bool {
        fields_ordered(self.fields@) && names_unique(self.fields@)
    }

    /// A builder for the message, with no field set.
    pub fn new(descriptor: &MessageDescriptor, message_name: &str, file_descriptor: &FileDescriptor) -> (r: MessageBuilder)
        ensures
            r.wf(),
            r.descriptor@ == descriptor@,
            r.file_descriptor@ == file_descriptor@,
            r.message_name@ == message_name@,
            r.fields@.len() == 0,
    {
        MessageBuilder {
            file_descriptor: file_descriptor.duplicate(),
            descriptor: descriptor.duplicate(),
            message_name: String::from_str(message_name),
            fields: Vec::new(),
        }
    }

    /// The descriptor of the message's field with the given name.
    pub fn field_by_name(&self, name: &str) -> (r: Option<FieldDescriptor>)
        ensures
            opt_map_view(r) == spec_find_field_by_name(self.descriptor@.fields, name@),
    {
        find_field_by_name(&self.descriptor.fields, name)
    }

    /// Removes the entry named `name`, if there is one.
    fn remove_named(&mut self, name: &String)
        requires
            old(self).wf(),
        ensures
            final(self).wf(),
            final(self).fields@ == spec_without_name(old(self).fields@, name@),
            forall|k: int| 0 <= k < final(self).fields@.len() ==> (#[trigger] final(self).fields@[k]).0@ != name@,
            final(self).descriptor == old(self).descriptor,
            final(self).file_descriptor == old(self).file_descriptor,
            final(self).message_name == old(self).message_name,
    {
        let ghost before = self.fields@;
        match find_name(&self.fields, name) {
            Some(i) => {
                proof {
                    lemma_remove_keeps_wf(self.fields@, i as int);
                }
                self.fields.remove(i);
            },
            None => {},
        }
    }

    /// Sets the field to the given value, replacing any values it had.
    pub fn set_field_value(&mut self, field_descriptor: &FieldDescriptor, field_name: &str, field_value: MessageFieldValue)
        requires
            old(self).wf(),
        ensures
            final(self).wf(),
            field_set(*final(self), *old(self), field_descriptor@, field_name@, field_value),
    {
        let name = String::from_str(field_name);
        self.remove_named(&name);
        let mut values: Vec<MessageFieldValue> = Vec::new();
        values.push(field_value);
        assert(values@ =~= seq![field_value]);
        self.insert_new(name, values, field_descriptor, MessageFieldValueType::Normal);
    }

    /// Appends values to the entry at `i`; with `repeated` the field becomes a repeated field.
    fn append_values(&mut self, i: usize, extra: Vec<MessageFieldValue>, repeated: bool)
        requires
            old(self).wf(),
            i < old(self).fields@.len(),
        ensures
            final(self).wf(),
            extended_at(final(self).fields@, old(self).fields@, i as int, extra@, repeated),
            final(self).descriptor == old(self).descriptor,
            final(self).file_descriptor == old(self).file_descriptor,
            final(self).message_name == old(self).message_name,
    {
        let ghost before = self.fields@;
        let (name, mut inner) = self.fields.remove(i);
        if repeated {
            inner.field_type = MessageFieldValueType::Repeated;
        }
        let mut extra = extra;
        inner.values.append(&mut extra);
        self.fields.insert(i, (name, inner));
        proof {
            let after = self.fields@;
            assert(after =~= before.update(i as int, after[i as int]));
            assert forall|a: int, b: int| 0 <= a < b < after.len() implies entry_number(#[trigger] after[a]) <= entry_number(#[trigger] after[b]) by {
                assert(entry_number(after[a]) == entry_number(before[a]));
                assert(entry_number(after[b]) == entry_number(before[b]));
            }
            assert forall|a: int, b: int| 0 <= a < b < after.len() implies (#[trigger] after[a]).0@ != (#[trigger] after[b]).0@ by {
                assert(after[a].0 == before[a].0);
                assert(after[b].0 == before[b].0);
            }
        }
    }

    /// Adds a value to a repeated field. A field that is not set yet is added as a repeated
    /// field; one that is set becomes a repeated field and keeps its values and descriptor.
    pub fn add_repeated_field_value(&mut self, field_descriptor: &FieldDescriptor, field_name: &str, field_value: MessageFieldValue)
        requires
            old(self).wf(),
        ensures
            final(self).wf(),
            repeated_value_added(*final(self), *old(self), field_descriptor@, field_name@, field_value),
    {
        let name = String::from_str(field_name);
        let mut values: Vec<MessageFieldValue> = Vec::new();
        values.push(field_value);
        assert(values@ =~= seq![field_value]);
        match find_name(&self.fields, &name) {
            Some(i) => {
                self.append_values(i, values, true);
            },
            None => {
                self.insert_new(name, values, field_descriptor, MessageFieldValueType::Repeated);
            },
        }
    }

    /// Adds a key and a value to a map field. A field that is not set yet is added as a map
    /// field; one that is set keeps its kind and descriptor.
    pub fn add_map_field_value(
        &mut self,
        field_descriptor: &FieldDescriptor,
        field_name: &str,
        key: MessageFieldValue,
        value: MessageFieldValue,
    )
        requires
            old(self).wf(),
        ensures
            final(self).wf(),
            match spec_find_name(old(self).fields@, field_name@) {
                Some(i) => extended_at(final(self).fields@, old(self).fields@, i, seq![key, value], false),
                None => inserted_by_number(final(self).fields@, old(self).fields@, number_or_zero(field_descriptor@))
                    && is_new_entry(
                        final(self).fields@[spec_entry_pos(old(self).fields@, number_or_zero(field_descriptor@))],
                        field_name@,
                        seq![key, value],
                        field_descriptor@,
                        MessageFieldValueType::MapField,
                    ),
            },
            final(self).descriptor == old(self).descriptor,
            final(self).file_descriptor == old(self).file_descriptor,
            final(self).message_name == old(self).message_name,
    {
        let name = String::from_str(field_name);
        let mut values: Vec<MessageFieldValue> = Vec::new();
        values.push(key);
        values.push(value);
        assert(values@ =~= seq![key, value]);
        match find_name(&self.fields, &name) {
            Some(i) => {
                self.append_values(i, values, false);
            },
            None => {
                self.insert_new(name, values, field_descriptor, MessageFieldValueType::MapField);
            },
        }
    }

    /// Adds a new entry, where no entry has its name.
    fn insert_new(&mut self, name: String, values: Vec<MessageFieldValue>, field_descriptor: &FieldDescriptor, kind: MessageFieldValueType)
        requires
            old(self).wf(),
            forall|k: int| 0 <= k < old(self).fields@.len() ==> (#[trigger] old(self).fields@[k]).0@ != name@,
        ensures
            final(self).wf(),
            inserted_by_number(final(self).fields@, old(self).fields@, number_or_zero(field_descriptor@)),
            is_new_entry(
                final(self).fields@[spec_entry_pos(old(self).fields@, number_or_zero(field_descriptor@))],
                name@,
                values@,
                field_descriptor@,
                kind,
            ),
            final(self).descriptor == old(self).descriptor,
            final(self).file_descriptor == old(self).file_descriptor,
            final(self).message_name == old(self).message_name,
    {
        let ghost base = self.fields@;
        let e = (name, FieldValueInner {
            values,
            descriptor: field_descriptor.duplicate(),
            field_type: kind,
            proto_type: field_descriptor.field_type(),
        });
        proof {
            lemma_insert_keeps_wf(base, e);
            lemma_entry_pos(base, entry_number(e));
        }
        insert_by_number(&mut self.fields, e);
    }
}

/// After a field is set, looking the field up by its name finds the entry that holds exactly the
/// value set.
pub proof fn lemma_set_field_then_find(
    after: Seq<(String, FieldValueInner)>,
    before: Seq<(String, FieldValueInner)>,
    name: Seq<char>,
    value: MessageFieldValue,
    desc: FieldDescriptorView,
)
    requires
        names_unique(after),
        inserted_by_number(after, spec_without_name(before, name), number_or_zero(desc)),
        is_new_entry(
            after[spec_entry_pos(spec_without_name(before, name), number_or_zero(desc))],
            name,
            seq![value],
            desc,
            MessageFieldValueType::Normal,
        ),
    ensures
        spec_find_name(after, name) matches Some(i) && after[i].1.values@ == seq![value]
            && after[i].1.field_type == MessageFieldValueType::Normal,
{
    let p = spec_entry_pos(spec_without_name(before, name), number_or_zero(desc));
    assert forall|k: int| 0 <= k < p implies (#[trigger] after[k]).0@ != name by {
        assert(after[k].0@ != after[p].0@);
    }
    lemma_find_name_first(after, name, p);
}

/// The builders describe the same message (only their fields may differ).
pub open spec fn same_message(after: MessageBuilder, before: MessageBuilder) -> bool {
    &&& after.descriptor == before.descriptor
    &&& after.file_descriptor == before.file_descriptor
    &&& after.message_name == before.message_name
}

/// `after` is `before` with the field `name` set to `value` alone: any entry of that name is
/// gone, and a new entry goes in where its field number puts it.
pub open spec fn field_set(
    after: MessageBuilder,
    before: MessageBuilder,
    desc: FieldDescriptorView,
    name: Seq<char>,
    value: MessageFieldValue,
) -> bool {
    &&& inserted_by_number(after.fields@, spec_without_name(before.fields@, name), number_or_zero(desc))
    &&& is_new_entry(
        after.fields@[spec_entry_pos(spec_without_name(before.fields@, name), number_or_zero(desc))],
        name,
        seq![value],
        desc,
        MessageFieldValueType::Normal,
    )
    &&& same_message(after, before)
}

/// `after` is `before` with `value` added to the repeated field `name`: appended to the entry of
/// that name (which becomes a repeated field), or in a new repeated entry.
pub open spec fn repeated_value_added(
    after: MessageBuilder,
    before: MessageBuilder,
    desc: FieldDescriptorView,
    name: Seq<char>,
    value: MessageFieldValue,
) -> bool {
    &&& match spec_find_name(before.fields@, name) {
        Some(i) => extended_at(after.fields@, before.fields@, i, seq![value], true),
        None => inserted_by_number(after.fields@, before.fields@, number_or_zero(desc)) && is_new_entry(
            after.fields@[spec_entry_pos(before.fields@, number_or_zero(desc))],
            name,
            seq![value],
            desc,
            MessageFieldValueType::Repeated,
        ),
    }
    &&& same_message(after, before)
}

/// `after` is `before` with values appended to the entry at `i` (which, with `repeated`, becomes
/// a repeated field); the entry keeps its name and descriptor, and the others are unchanged.
pub open spec fn extended_at(
    after: Seq<(String, FieldValueInner)>,
    before: Seq<(String, FieldValueInner)>,
    i: int,
    extra: Seq<MessageFieldValue>,
    repeated: bool,
) -> bool {
    &&& 0 <= i < before.len()
    &&& after.len() == before.len()
    &&& forall|k: int| 0 <= k < before.len() && k != i ==> #[trigger] after[k] == before[k]
    &&& after[i].0 == before[i].0
    &&& after[i].1.values@ == before[i].1.values@ + extra
    &&& after[i].1.descriptor == before[i].1.descriptor
    &&& after[i].1.proto_type == before[i].1.proto_type
    &&& after[i].1.field_type == (if repeated { MessageFieldValueType::Repeated } else { before[i].1.field_type })
}

// ---------------------------------------------------------------------------------------------
// Markup
// ---------------------------------------------------------------------------------------------

/// The name of a field's type as a `.proto` file writes it; message and enum fields name their
/// type, which they must have.
pub open spec fn spec_field_type_name(field: FieldValueInner) -> Result<Seq<char>, EncodeError> {
    match field.proto_type {
        FieldType::Double => Ok("double"@),
        FieldType::Float => Ok("float"@),
        FieldType::Int64 => Ok("int64"@),
        FieldType::Uint64 => Ok("uint64"@),
        FieldType::Int32 => Ok("int32"@),
        FieldType::Fixed64 => Ok("fixed64"@),
        FieldType::Fixed32 => Ok("fixed32"@),
        FieldType::Bool => Ok("bool"@),
        FieldType::String => Ok("string"@),
        FieldType::Group => Ok("group"@),
        FieldType::Message => match field.descriptor.type_ref {
            Some(t) => Ok("message "@ + t@),
            None => Err(EncodeError::MissingTypeRef),
        },
        FieldType::Bytes => Ok("bytes"@),
        FieldType::Uint32 => Ok("uint32"@),
        FieldType::Enum => match field.descriptor.type_ref {
            Some(t) => Ok("enum "@ + t@),
            None => Err(EncodeError::MissingTypeRef),
        },
        FieldType::Sfixed32 => Ok("sfixed32"@),
        FieldType::Sfixed64 => Ok("sfixed64"@),
        FieldType::Sint32 => Ok("sint32"@),
        FieldType::Sint64 => Ok("sint64"@),
    }
}

/// The name of a field's type as a `.proto` file writes it.
pub fn field_type_name(field: &FieldValueInner) -> (r: Result<String, EncodeError>)
    ensures
        match spec_field_type_name(*field) {
            Ok(t) => (r matches Ok(s) && s@ == t),
            Err(e) => r == Err::<String, EncodeError>(e),
        },
{
    let name = match field.proto_type {
        FieldType::Double => "double",
        FieldType::Float => "float",
        FieldType::Int64 => "int64",
        FieldType::Uint64 => "uint64",
        FieldType::Int32 => "int32",
        FieldType::Fixed64 => "fixed64",
        FieldType::Fixed32 => "fixed32",
        FieldType::Bool => "bool",
        FieldType::String => "string",
        FieldType::Group => "group",
        FieldType::Message => {
            return match &field.descriptor.type_ref {
                Some(t) => Ok(String::from_str("message ").concat(t.as_str())),
                None => Err(EncodeError::MissingTypeRef),
            };
        },
        FieldType::Bytes => "bytes",
        FieldType::Uint32 => "uint32",
        FieldType::Enum => {
            return match &field.descriptor.type_ref {
                Some(t) => Ok(String::from_str("enum ").concat(t.as_str())),
                None => Err(EncodeError::MissingTypeRef),
            };
        },
        FieldType::Sfixed32 => "sfixed32",
        FieldType::Sfixed64 => "sfixed64",
        FieldType::Sint32 => "sint32",
        FieldType::Sint64 => "sint64",
    };
    Ok(String::from_str(name))
}

/// Two pieces of text one after the other; the first error where there is one.
pub open spec fn join_text(a: Result<Seq<char>, EncodeError>, b: Result<Seq<char>, EncodeError>) -> Result<Seq<char>, EncodeError> {
    match a {
        Ok(x) => match b {
            Ok(y) => Ok(x + y),
            Err(e) => Err(e),
        },
        Err(e) => Err(e),
    }
}

/// The line of markup for a field (none for a field without a number).
pub open spec fn spec_markup_line(indent: Seq<char>, e: (String, FieldValueInner)) -> Result<Seq<char>, EncodeError> {
    match e.1.descriptor.number {
        None => Ok(Seq::empty()),
        Some(n) => match spec_field_type_name(e.1) {
            Err(err) => Err(err),
            Ok(t) => {
                let rest = " "@ + e.0@ + " = "@ + spec_signed_decimal(n as int) + ";\n"@;
                Ok(indent + "    "@ + match e.1.field_type {
                    MessageFieldValueType::Normal => t + rest,
                    MessageFieldValueType::MapField => "map<"@ + t + ">"@ + rest,
                    MessageFieldValueType::Repeated => "repeated "@ + t + rest,
                })
            },
        },
    }
}

/// The markup lines of the fields, in order.
pub open spec fn spec_markup_lines(indent: Seq<char>, fields: Seq<(String, FieldValueInner)>) -> Result<Seq<char>, EncodeError>
    decreases fields.len(),
{
    if fields.len() == 0 {
        Ok(Seq::empty())
    } else {
        join_text(spec_markup_lines(indent, fields.drop_last()), spec_markup_line(indent, fields.last()))
    }
}

/// A Markdown description of a message: a `protobuf` code block declaring the message and, in
/// field number order, each of its fields that has a number.
pub open spec fn spec_generate_markup(b: MessageBuilder, indent: Seq<char>) -> Result<Seq<char>, EncodeError> {
    match spec_markup_lines(indent, b.fields@) {
        Ok(lines) => Ok("```protobuf\n"@ + indent + "message "@ + b.message_name@ + " {\n"@ + lines + indent + "}\n```\n"@),
        Err(e) => Err(e),
    }
}

proof fn lemma_markup_prefix_err(indent: Seq<char>, fields: Seq<(String, FieldValueInner)>, i: int, e: EncodeError)
    requires
        0 <= i <= fields.len(),
        spec_markup_lines(indent, fields.take(i)) == Err::<Seq<char>, EncodeError>(e),
    ensures
        spec_markup_lines(indent, fields) == Err::<Seq<char>, EncodeError>(e),
    decreases fields.len() - i,
{
    if i == fields.len() {
        assert(fields.take(i) =~= fields);
    } else {
        assert(fields.take(i + 1).drop_last() =~= fields.take(i));
        lemma_markup_prefix_err(indent, fields, i + 1, e);
    }
}

/// The markup line of a field.
fn markup_line(indent: &str, e: &(String, FieldValueInner)) -> (r: Result<String, EncodeError>)
    ensures
        match spec_markup_line(indent@, *e) {
            Ok(t) => (r matches Ok(s) && s@ == t),
            Err(err) => r == Err::<String, EncodeError>(err),
        },
{
    match e.1.descriptor.number {
        None => Ok(String::new()),
        Some(n) => match field_type_name(&e.1) {
            Err(err) => Err(err),
            Ok(t) => {
                let rest = String::from_str(" ").concat(e.0.as_str()).concat(" = ").concat(i64_to_decimal(n as i64).as_str()).concat(";\n");
                let line = match e.1.field_type {
                    MessageFieldValueType::Normal => t.concat(rest.as_str()),
                    MessageFieldValueType::MapField => String::from_str("map<").concat(t.as_str()).concat(">").concat(rest.as_str()),
                    MessageFieldValueType::Repeated => String::from_str("repeated ").concat(t.as_str()).concat(rest.as_str()),
                };
                let r = String::from_str(indent).concat("    ").concat(line.as_str());
                proof {
                    let tt = spec_field_type_name(e.1)->Ok_0;
                    let rs = " "@ + e.0@ + " = "@ + spec_signed_decimal(n as int) + ";\n"@;
                    assert(rest@ =~= rs);
                    let body = match e.1.field_type {
                        MessageFieldValueType::Normal => tt + rs,
                        MessageFieldValueType::MapField => "map<"@ + tt + ">"@ + rs,
                        MessageFieldValueType::Repeated => "repeated "@ + tt + rs,
                    };
                    assert(line@ =~= body);
                    assert(r@ =~= indent@ + "    "@ + body);
                }
                Ok(r)
            },
        },
    }
}

impl MessageBuilder {
    /// A Markdown description of the message: a `protobuf` code block declaring the message and,
    /// in field number order, each of its fields that has a number.
    pub fn generate_markup(&self, indent: &str) -> (r: Result<String, EncodeError>)
        ensures
            match spec_generate_markup(*self, indent@) {
                Ok(t) => (r matches Ok(s) && s@ == t),
                Err(e) => r == Err::<String, EncodeError>(e),
            },
    {
        let mut lines = String::new();
        let mut i: usize = 0;
        assert(self.fields@.take(0) =~= Seq::<(String, FieldValueInner)>::empty());
        while i < self.fields.len()
            invariant
                i <= self.fields@.len(),
                spec_markup_lines(indent@, self.fields@.take(i as int)) == Ok::<Seq<char>, EncodeError>(lines@),
            decreases self.fields@.len() - i,
        {
            let r = markup_line(indent, &self.fields[i]);
            assert(self.fields@.take(i + 1).drop_last() =~= self.fields@.take(i as int));
            assert(self.fields@.take(i + 1).last() == self.fields@[i as int]);
            match r {
                Err(e) => {
                    proof {
                        lemma_markup_prefix_err(indent@, self.fields@, i + 1, e);
                    }
                    return Err(e);
                },
                Ok(line) => {
                    lines = lines.concat(line.as_str());
                },
            }
            i = i + 1;
        }
        assert(self.fields@.take(self.fields@.len() as int) =~= self.fields@);
        let r = String::from_str("```protobuf\n").concat(indent).concat("message ").concat(self.message_name.as_str())
            .concat(" {\n").concat(lines.as_str()).concat(indent).concat("}\n```\n");
        Ok(r)
    }
}

} // verus!
