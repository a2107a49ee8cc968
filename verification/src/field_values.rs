//! Field values given as text in a test configuration, read as the type of their field.
use vstd::prelude::*;
use crate::float_bits::{
    f32_bits_of_i64, f32_bits_of_u64, f64_bits_of_i64, f64_bits_of_u64, f64_trunc, spec_f32_bits_of_int, spec_f64_bits_of_int,
    spec_f64_trunc,
};
use base64::Engine;
use vstd::slice::slice_to_vec;
use vstd::utf8::encode_utf8;
use crate::descriptor::{
    EnumDescriptor, EnumDescriptorView, EnumValueDescriptorView, FieldDescriptor, FieldDescriptorView, FieldType,
    FileDescriptorSet, FileDescriptorView, MessageDescriptor, MessageDescriptorView, opt_text,
};
use crate::lookup::{
    find_enum_by_name, find_enum_by_name_in_message, opt_map_view, spec_find_enum_by_name,
    spec_find_enum_by_name_in_message,
};
use crate::message_builder::{
    field_set, is_field_value, repeated_value_added, EncodeError, MessageBuilder, MessageFieldValue,
    MessageFieldValueType, RType,
};
use crate::text::{
    false_text, parse_bool, parse_i32, parse_i64, parse_u32, parse_u64, spec_parse_i32, spec_parse_i64,
    spec_parse_u32, spec_parse_u64, true_text,
};

verus! {

/// What standard Base64 (with padding) decodes the bytes to, where they are valid Base64.
pub uninterp spec fn spec_base64_decode(input: Seq<u8>) -> Option<Seq<u8>>;

/// Calls `Engine::decode` of `base64::engine::general_purpose::STANDARD`. Claimed: the result
/// depends on the input alone (it is `spec_base64_decode` of it), `None` where decoding fails.
#[verifier::external_body]
fn base64_decode(input: &[u8]) -> (r: Option<Vec<u8>>)
    ensures
        opt_map_view(r) == spec_base64_decode(input@),
{
    base64::engine::general_purpose::STANDARD.decode(input).ok()
}

/// The type reference of the wrapper message for byte arrays.
pub open spec fn bytes_value_type() -> Seq<char> {
    ".google.protobuf.BytesValue"@
}

/// The bytes a text stands for: what it decodes to as Base64, or else its UTF-8 bytes.
pub open spec fn spec_text_bytes(text: Seq<char>) -> Seq<u8> {
    match spec_base64_decode(encode_utf8(text)) {
        Some(b) => b,
        None => encode_utf8(text),
    }
}

/// The value of the enum named `name`, if the enum has one.
pub open spec fn spec_enum_value_named(values: Seq<EnumValueDescriptorView>, name: Seq<char>) -> Option<i32>
    decreases values.len(),
{
    if values.len() == 0 {
        None
    } else if opt_text(values[0].name) == name && values[0].number is Some {
        values[0].number
    } else {
        spec_enum_value_named(values.drop_first(), name)
    }
}

/// The enum a type reference names, with the value named `name`: first among the enums of the
/// message, then among all the descriptors.
pub open spec fn spec_enum_value_for(
    type_ref: Seq<char>,
    name: Seq<char>,
    message: MessageDescriptorView,
    files: Seq<FileDescriptorView>,
) -> Option<(i32, EnumDescriptorView)> {
    let local = match spec_find_enum_by_name_in_message(message.enum_types, type_ref) {
        Some(e) => match spec_enum_value_named(e.values, name) {
            Some(n) => Some((n, e)),
            None => None,
        },
        None => None,
    };
    match local {
        Some(x) => Some(x),
        None => match spec_find_enum_by_name(files, type_ref) {
            Some(e) => match spec_enum_value_named(e.values, name) {
                Some(n) => Some((n, e)),
                None => None,
            },
            None => None,
        },
    }
}

/// The value that a text configures a field with, read as the type of the field: numbers and
/// booleans are parsed, strings kept, byte arrays decoded from Base64 where they can be, enum
/// values looked up by name. Floating point values are parsed by the caller.
pub open spec fn spec_value_for_type(
    text: Seq<char>,
    fd: FieldDescriptorView,
    message: MessageDescriptorView,
    files: Seq<FileDescriptorView>,
) -> Result<RType, EncodeError> {
    let type_ref = opt_text(fd.type_ref);
    match fd.field_type() {
        FieldType::Double | FieldType::Float => Err(EncodeError::FloatConversion),
        FieldType::Int64 | FieldType::Sfixed64 | FieldType::Sint64 => match spec_parse_i64(text) {
            Some(v) => Ok(RType::Integer64(v)),
            None => Err(EncodeError::InvalidText),
        },
        FieldType::Uint64 | FieldType::Fixed64 => match spec_parse_u64(text) {
            Some(v) => Ok(RType::UInteger64(v)),
            None => Err(EncodeError::InvalidText),
        },
        FieldType::Int32 | FieldType::Sfixed32 | FieldType::Sint32 => match spec_parse_i32(text) {
            Some(v) => Ok(RType::Integer32(v)),
            None => Err(EncodeError::InvalidText),
        },
        FieldType::Uint32 | FieldType::Fixed32 => match spec_parse_u32(text) {
            Some(v) => Ok(RType::UInteger32(v)),
            None => Err(EncodeError::InvalidText),
        },
        FieldType::Bool => if text == true_text() {
            Ok(RType::Boolean(true))
        } else if text == false_text() {
            Ok(RType::Boolean(false))
        } else {
            Err(EncodeError::InvalidText)
        },
        FieldType::String => Err(EncodeError::NotConvertible),
        FieldType::Message => Err(EncodeError::UnsupportedType),
        FieldType::Bytes => Err(EncodeError::NotConvertible),
        FieldType::Enum => Err(EncodeError::EnumValueNotFound),
        FieldType::Group => Err(EncodeError::UnsupportedType),
    }
}

/// The error reading a text for a field gives, if it gives one.
pub open spec fn spec_value_error(
    text: Seq<char>,
    fd: FieldDescriptorView,
    message: MessageDescriptorView,
    files: Seq<FileDescriptorView>,
) -> Option<EncodeError> {
    let type_ref = opt_text(fd.type_ref);
    match fd.field_type() {
        FieldType::String | FieldType::Bytes => None,
        FieldType::Message => if type_ref == bytes_value_type() {
            None
        } else {
            Some(EncodeError::UnsupportedType)
        },
        FieldType::Enum => match spec_enum_value_for(type_ref, text, message, files) {
            Some(_) => None,
            None => Some(EncodeError::EnumValueNotFound),
        },
        _ => match spec_value_for_type(text, fd, message, files) {
            Ok(_) => None,
            Err(e) => Some(e),
        },
    }
}

/// The value read from a text for a field, where reading succeeds: strings hold the text, byte
/// arrays (and `BytesValue` messages) `spec_text_bytes` of it, enums the value it names, and
/// scalars what `spec_value_for_type` gives.
pub open spec fn spec_value_read(
    rt: RType,
    text: Seq<char>,
    fd: FieldDescriptorView,
    message: MessageDescriptorView,
    files: Seq<FileDescriptorView>,
) -> bool {
    let type_ref = opt_text(fd.type_ref);
    match fd.field_type() {
        FieldType::String => (rt matches RType::String(s) && s@ == text),
        FieldType::Bytes | FieldType::Message => (rt matches RType::Bytes(b) && b@ == spec_text_bytes(text)),
        FieldType::Enum => match spec_enum_value_for(type_ref, text, message, files) {
            Some((n, e)) => (rt matches RType::Enum(m, d) && m == n && d@ == e),
            None => false,
        },
        _ => spec_value_for_type(text, fd, message, files) == Ok::<RType, EncodeError>(rt),
    }
}

/// What `value_for_type` gives: the error where reading fails, else a value named after the
/// field, with the text as its raw value, holding what was read.
pub open spec fn value_for_type_holds(
    r: Result<MessageFieldValue, EncodeError>,
    field_name: Seq<char>,
    text: Seq<char>,
    fd: FieldDescriptorView,
    message: MessageDescriptorView,
    files: Seq<FileDescriptorView>,
) -> bool {
    match r {
        Ok(v) => {
            &&& spec_value_error(text, fd, message, files) is None
            &&& v.name@ == field_name
            &&& v.raw_value is Some
            &&& v.raw_value->0@ == text
            &&& spec_value_read(v.rtype, text, fd, message, files)
        },
        Err(e) => spec_value_error(text, fd, message, files) == Some(e),
    }
}

/// Text configured for an integer field is read as an integer of the field's own width and
/// sign: where the text reads as one (as `str::parse` of that integer type reads it), the value
/// holds that integer, named after the field with the text as its raw value; otherwise the text
/// is refused as `InvalidText`.
pub proof fn lemma_value_for_type_reads_integers(
    r: Result<MessageFieldValue, EncodeError>,
    field_name: Seq<char>,
    text: Seq<char>,
    fd: FieldDescriptorView,
    message: MessageDescriptorView,
    files: Seq<FileDescriptorView>,
)
    requires
        value_for_type_holds(r, field_name, text, fd, message, files),
    ensures
        (fd.field_type() == FieldType::Int64 || fd.field_type() == FieldType::Sfixed64 || fd.field_type() == FieldType::Sint64)
            ==> match spec_parse_i64(text) {
            Some(v) => (r matches Ok(x) && x.rtype == RType::Integer64(v) && x.name@ == field_name && (x.raw_value matches Some(t) && t@ == text)),
            None => r == Err::<MessageFieldValue, EncodeError>(EncodeError::InvalidText),
        },
        (fd.field_type() == FieldType::Uint64 || fd.field_type() == FieldType::Fixed64) ==> match spec_parse_u64(text) {
            Some(v) => (r matches Ok(x) && x.rtype == RType::UInteger64(v) && x.name@ == field_name && (x.raw_value matches Some(t) && t@ == text)),
            None => r == Err::<MessageFieldValue, EncodeError>(EncodeError::InvalidText),
        },
        (fd.field_type() == FieldType::Int32 || fd.field_type() == FieldType::Sfixed32 || fd.field_type() == FieldType::Sint32)
            ==> match spec_parse_i32(text) {
            Some(v) => (r matches Ok(x) && x.rtype == RType::Integer32(v) && x.name@ == field_name && (x.raw_value matches Some(t) && t@ == text)),
            None => r == Err::<MessageFieldValue, EncodeError>(EncodeError::InvalidText),
        },
        (fd.field_type() == FieldType::Uint32 || fd.field_type() == FieldType::Fixed32) ==> match spec_parse_u32(text) {
            Some(v) => (r matches Ok(x) && x.rtype == RType::UInteger32(v) && x.name@ == field_name && (x.raw_value matches Some(t) && t@ == text)),
            None => r == Err::<MessageFieldValue, EncodeError>(EncodeError::InvalidText),
        },
{
}

/// The decimal form of any integer that fits an integer field is read back as that integer:
/// 64 bit fields take every 64 bit integer of their sign, 32 bit fields every 32 bit one.
pub proof fn lemma_value_for_type_reads_decimal(
    r: Result<MessageFieldValue, EncodeError>,
    field_name: Seq<char>,
    n: int,
    fd: FieldDescriptorView,
    message: MessageDescriptorView,
    files: Seq<FileDescriptorView>,
)
    requires
        value_for_type_holds(r, field_name, crate::text::spec_signed_decimal(n), fd, message, files),
    ensures
        (fd.field_type() == FieldType::Int64 || fd.field_type() == FieldType::Sfixed64 || fd.field_type() == FieldType::Sint64)
            && i64::MIN <= n <= i64::MAX ==> (r matches Ok(x) && x.rtype == RType::Integer64(n as i64)),
        (fd.field_type() == FieldType::Uint64 || fd.field_type() == FieldType::Fixed64) && 0 <= n <= u64::MAX
            ==> (r matches Ok(x) && x.rtype == RType::UInteger64(n as u64)),
        (fd.field_type() == FieldType::Int32 || fd.field_type() == FieldType::Sfixed32 || fd.field_type() == FieldType::Sint32)
            && i32::MIN <= n <= i32::MAX ==> (r matches Ok(x) && x.rtype == RType::Integer32(n as i32)),
        (fd.field_type() == FieldType::Uint32 || fd.field_type() == FieldType::Fixed32) && 0 <= n <= u32::MAX
            ==> (r matches Ok(x) && x.rtype == RType::UInteger32(n as u32)),
{
    let text = crate::text::spec_signed_decimal(n);
    lemma_value_for_type_reads_integers(r, field_name, text, fd, message, files);
    if i64::MIN <= n <= i64::MAX {
        crate::text::lemma_parse_decimal(n, i64::MAX as nat);
    }
    if i32::MIN <= n <= i32::MAX {
        crate::text::lemma_parse_decimal(n, i32::MAX as nat);
    }
    if 0 <= n <= u64::MAX {
        crate::text::lemma_parse_decimal(n, u64::MAX as nat);
    }
    if 0 <= n <= u32::MAX {
        crate::text::lemma_parse_decimal(n, u32::MAX as nat);
    }
}

/// The number of the enum value named `name`.
fn enum_value_named(e: &EnumDescriptor, name: &str) -> (r: Option<i32>)
    ensures
        r == spec_enum_value_named(e@.values, name@),
{
    let ghost views = e@.values;
    let target = String::from_str(name);
    let mut i: usize = 0;
    assert(views.skip(0) =~= views);
    while i < e.values.len()
        invariant
            views == e@.values,
            views.len() == e.values@.len(),
            target@ == name@,
            i <= views.len(),
            spec_enum_value_named(views, name@) == spec_enum_value_named(views.skip(i as int), name@),
        decreases views.len() - i,
    {
        assert(views.skip(i as int)[0] == e.values@[i as int]@);
        let v = &e.values[i];
        let matches = match &v.name {
            Some(n) => *n == target,
            None => target.as_str().unicode_len() == 0,
        };
        proof {
            if v.name is None && target@.len() == 0 {
                assert(name@ =~= Seq::<char>::empty());
            }
        }
        if matches && v.number.is_some() {
            return v.number;
        }
        assert(views.skip(i as int).drop_first() =~= views.skip(i + 1));
        i = i + 1;
    }
    None
}

/// The bytes a text stands for, given what it decoded to as Base64 (if it did): the decoded
/// bytes, or else the text's UTF-8 bytes.
pub fn bytes_of_text(text: &str, decoded: Option<Vec<u8>>) -> (r: Vec<u8>)
    ensures
        r@ == match opt_map_view(decoded) {
            Some(b) => b,
            None => encode_utf8(text@),
        },
{
    match decoded {
        Some(b) => b,
        None => slice_to_vec(text.as_bytes()),
    }
}

/// The bytes a text stands for: what it decodes to as Base64, or else its UTF-8 bytes.
fn text_bytes(text: &str) -> (r: Vec<u8>)
    ensures
        r@ == spec_text_bytes(text@),
{
    bytes_of_text(text, base64_decode(text.as_bytes()))
}

/// Reads a text value configured for a field as the type of the field (see
/// `value_for_type_holds`).
pub fn value_for_type(
    field_name: &str,
    field_value: &str,
    descriptor: &FieldDescriptor,
    message_descriptor: &MessageDescriptor,
    descriptors: &FileDescriptorSet,
) -> (r: Result<MessageFieldValue, EncodeError>)
    ensures
        value_for_type_holds(r, field_name@, field_value@, descriptor@, message_descriptor@, descriptors@),
{
    let t = descriptor.field_type();
    let type_ref: String = match &descriptor.type_ref {
        Some(s) => s.clone(),
        None => String::new(),
    };
    let rtype = match t {
        FieldType::Double | FieldType::Float => {
            return Err(EncodeError::FloatConversion);
        },
        FieldType::Int64 | FieldType::Sfixed64 | FieldType::Sint64 => match parse_i64(field_value) {
            Some(v) => RType::Integer64(v),
            None => {
                return Err(EncodeError::InvalidText);
            },
        },
        FieldType::Uint64 | FieldType::Fixed64 => match parse_u64(field_value) {
            Some(v) => RType::UInteger64(v),
            None => {
                return Err(EncodeError::InvalidText);
            },
        },
        FieldType::Int32 | FieldType::Sfixed32 | FieldType::Sint32 => match parse_i32(field_value) {
            Some(v) => RType::Integer32(v),
            None => {
                return Err(EncodeError::InvalidText);
            },
        },
        FieldType::Uint32 | FieldType::Fixed32 => match parse_u32(field_value) {
            Some(v) => RType::UInteger32(v),
            None => {
                return Err(EncodeError::InvalidText);
            },
        },
        FieldType::Bool => match parse_bool(field_value) {
            Some(b) => RType::Boolean(b),
            None => {
                return Err(EncodeError::InvalidText);
            },
        },
        FieldType::String => RType::String(String::from_str(field_value)),
        FieldType::Bytes => RType::Bytes(text_bytes(field_value)),
        FieldType::Message => {
            proof {
                reveal_strlit(".google.protobuf.BytesValue");
            }
            if type_ref == String::from_str(".google.protobuf.BytesValue") {
                RType::Bytes(text_bytes(field_value))
            } else {
                return Err(EncodeError::UnsupportedType);
            }
        },
        FieldType::Enum => {
            let local = match find_enum_by_name_in_message(&message_descriptor.enum_types, type_ref.as_str()) {
                Some(e) => match enum_value_named(&e, field_value) {
                    Some(n) => Some((n, e)),
                    None => None,
                },
                None => None,
            };
            let found = match local {
                Some(x) => Some(x),
                None => match find_enum_by_name(descriptors, type_ref.as_str()) {
                    Some(e) => match enum_value_named(&e, field_value) {
                        Some(n) => Some((n, e)),
                        None => None,
                    },
                    None => None,
                },
            };
            match found {
                Some((n, e)) => RType::Enum(n, e),
                None => {
                    return Err(EncodeError::EnumValueNotFound);
                },
            }
        },
        FieldType::Group => {
            return Err(EncodeError::UnsupportedType);
        },
    };
    Ok(MessageFieldValue {
        name: String::from_str(field_name),
        raw_value: Some(String::from_str(field_value)),
        rtype,
    })
}

// ---------------------------------------------------------------------------------------------
// Numbers configured as JSON numbers
// ---------------------------------------------------------------------------------------------

/// A JSON number, as its parser classifies it.
#[derive(Clone, Copy, Debug, PartialEq, Eq, Structural)]
pub enum JsonNumber {
    /// A non-negative integer.
    PosInt(u64),
    /// A negative integer.
    NegInt(i64),
    /// Any other number, as the bit pattern of an `f64`.
    Float(u64),
}

/// The value of an integer field of type `t` holding the integer `v`, where `v` fits the type.
pub open spec fn spec_int_rtype(t: FieldType, v: int) -> Result<RType, EncodeError> {
    match t {
        FieldType::Int32 | FieldType::Sint32 | FieldType::Sfixed32 => if i32::MIN <= v <= i32::MAX {
            Ok(RType::Integer32(v as i32))
        } else {
            Err(EncodeError::NotConvertible)
        },
        FieldType::Uint32 | FieldType::Fixed32 => if 0 <= v <= u32::MAX {
            Ok(RType::UInteger32(v as u32))
        } else {
            Err(EncodeError::NotConvertible)
        },
        FieldType::Int64 | FieldType::Sint64 | FieldType::Sfixed64 => if i64::MIN <= v <= i64::MAX {
            Ok(RType::Integer64(v as i64))
        } else {
            Err(EncodeError::NotConvertible)
        },
        FieldType::Uint64 | FieldType::Fixed64 => if 0 <= v <= u64::MAX {
            Ok(RType::UInteger64(v as u64))
        } else {
            Err(EncodeError::NotConvertible)
        },
        _ => Err(EncodeError::MismatchedType),
    }
}

/// An integer field type.
pub open spec fn is_integer_type(t: FieldType) -> bool {
    match t {
        FieldType::Int32 | FieldType::Sint32 | FieldType::Sfixed32 | FieldType::Uint32 | FieldType::Fixed32
        | FieldType::Int64 | FieldType::Sint64 | FieldType::Sfixed64 | FieldType::Uint64 | FieldType::Fixed64 => true,
        _ => false,
    }
}

/// The integer a JSON number gives an integer field: the number itself, or the integer part of a
/// floating point number (where it is finite).
pub open spec fn json_integer(n: JsonNumber) -> Option<int> {
    match n {
        JsonNumber::PosInt(u) => Some(u as int),
        JsonNumber::NegInt(i) => Some(i as int),
        JsonNumber::Float(bits) => spec_f64_trunc(bits),
    }
}

/// The value of a field of type `t` set from a JSON number: for an integer field, the integer
/// the number gives (a floating point number rounded toward zero) where it fits the type; for a
/// floating point field, the floating point number nearest to an integer number. A floating
/// point field set from a floating point number gives `FloatConversion`: its text (and, for a
/// 32 bit field, its narrowing) needs floating point arithmetic, which the library does not do.
pub open spec fn spec_numeric_rtype(t: FieldType, n: JsonNumber) -> Result<RType, EncodeError> {
    if is_integer_type(t) {
        match json_integer(n) {
            Some(v) => spec_int_rtype(t, v),
            None => Err(EncodeError::NotConvertible),
        }
    } else if t == FieldType::Double || t == FieldType::Float {
        match n {
            JsonNumber::Float(_) => Err(EncodeError::FloatConversion),
            _ => {
                let v = json_integer(n)->0;
                if t == FieldType::Double {
                    Ok(RType::Double(spec_f64_bits_of_int(v)))
                } else {
                    Ok(RType::Float(spec_f32_bits_of_int(v)))
                }
            },
        }
    } else {
        Err(EncodeError::MismatchedType)
    }
}

/// The text of the value set from a JSON number: the decimal form of the integer it gives. For
/// a floating point field this is the exact integer, which is also the shortest text of the
/// floating point number up to 2^53 (2^24 for 32 bits); beyond that the floating point number
/// may be written with fewer significant digits elsewhere.
pub open spec fn spec_number_text(n: JsonNumber) -> Seq<char> {
    match json_integer(n) {
        Some(v) => crate::text::spec_signed_decimal(v),
        None => Seq::empty(),
    }
}

/// The decimal form of the integer of sign `neg` and magnitude `mag`.
fn signed_text(neg: bool, mag: u64) -> (r: String)
    requires
        !(neg && mag == 0),
    ensures
        r@ == crate::text::spec_signed_decimal(if neg { -(mag as int) } else { mag as int }),
{
    if neg {
        proof {
            reveal_strlit("-");
        }
        let s = String::from_str("-").concat(crate::text::u64_to_decimal(mag).as_str());
        assert(s@ =~= seq!['-'] + crate::text::spec_decimal(mag as nat));
        s
    } else {
        crate::text::u64_to_decimal(mag)
    }
}

/// The value of a field of type `t` set from a JSON number, and its text.
fn numeric_rtype(t: FieldType, n: JsonNumber) -> (r: Result<(RType, String), EncodeError>)
    ensures
        match spec_numeric_rtype(t, n) {
            Ok(rt) => (r matches Ok((v, text)) && v == rt && text@ == spec_number_text(n)),
            Err(e) => r == Err::<(RType, String), EncodeError>(e),
        },
{
    let integer = match t {
        FieldType::Int32 | FieldType::Sint32 | FieldType::Sfixed32 | FieldType::Uint32 | FieldType::Fixed32
        | FieldType::Int64 | FieldType::Sint64 | FieldType::Sfixed64 | FieldType::Uint64 | FieldType::Fixed64 => true,
        FieldType::Double | FieldType::Float => false,
        _ => {
            return Err(EncodeError::MismatchedType);
        },
    };
    let (neg, mag) = match n {
        JsonNumber::Float(bits) => {
            if !integer {
                return Err(EncodeError::FloatConversion);
            }
            match f64_trunc(bits) {
                Some(x) => x,
                None => {
                    return Err(EncodeError::NotConvertible);
                },
            }
        },
        JsonNumber::PosInt(u) => (false, u),
        JsonNumber::NegInt(i) => if i < 0 {
            (true, ((-(i + 1)) as u64) + 1)
        } else {
            (false, i as u64)
        },
    };
    let ghost v: int = if neg { -(mag as int) } else { mag as int };
    assert(json_integer(n) == Some(v));
    let text = signed_text(neg, mag);
    match t {
        FieldType::Double => {
            let bits = if neg {
                proof {
                    assert(n is NegInt);
                }
                match n {
                    JsonNumber::NegInt(i) => f64_bits_of_i64(i),
                    _ => 0,
                }
            } else {
                f64_bits_of_u64(mag)
            };
            Ok((RType::Double(bits), text))
        },
        FieldType::Float => {
            let bits = if neg {
                match n {
                    JsonNumber::NegInt(i) => f32_bits_of_i64(i),
                    _ => 0,
                }
            } else {
                f32_bits_of_u64(mag)
            };
            Ok((RType::Float(bits), text))
        },
        FieldType::Int32 | FieldType::Sint32 | FieldType::Sfixed32 => {
            if (!neg && mag <= 0x7FFF_FFFF) || (neg && mag <= 0x8000_0000) {
                let i: i32 = if neg {
                    if mag == 0x8000_0000 { i32::MIN } else { -(mag as i32) }
                } else {
                    mag as i32
                };
                Ok((RType::Integer32(i), text))
            } else {
                Err(EncodeError::NotConvertible)
            }
        },
        FieldType::Uint32 | FieldType::Fixed32 => {
            if !neg && mag <= 0xFFFF_FFFF {
                Ok((RType::UInteger32(mag as u32), text))
            } else {
                Err(EncodeError::NotConvertible)
            }
        },
        FieldType::Int64 | FieldType::Sint64 | FieldType::Sfixed64 => {
            if (!neg && mag <= 0x7FFF_FFFF_FFFF_FFFF) || (neg && mag <= 0x8000_0000_0000_0000) {
                let i: i64 = if neg {
                    if mag == 0x8000_0000_0000_0000 { i64::MIN } else { -(mag as i64) }
                } else {
                    mag as i64
                };
                Ok((RType::Integer64(i), text))
            } else {
                Err(EncodeError::NotConvertible)
            }
        },
        _ => {
            if !neg {
                Ok((RType::UInteger64(mag), text))
            } else {
                Err(EncodeError::NotConvertible)
            }
        },
    }
}

/// Sets a field of the builder from a JSON number: the value of a repeated field is added to it,
/// any other field is set to it. Returns the value set.
pub fn construct_numeric_value(
    message_builder: &mut MessageBuilder,
    field_type: MessageFieldValueType,
    descriptor: &FieldDescriptor,
    field_name: &str,
    n: JsonNumber,
) -> (r: Result<MessageFieldValue, EncodeError>)
    requires
        old(message_builder).wf(),
    ensures
        final(message_builder).wf(),
        match spec_numeric_rtype(descriptor@.field_type(), n) {
            Ok(rt) => (r matches Ok(v) && is_field_value(v, field_name@, spec_number_text(n), rt))
                && exists|w: MessageFieldValue| #[trigger] is_field_value(w, field_name@, spec_number_text(n), rt)
                    && (if field_type == MessageFieldValueType::Repeated {
                        repeated_value_added(*final(message_builder), *old(message_builder), descriptor@, field_name@, w)
                    } else {
                        field_set(*final(message_builder), *old(message_builder), descriptor@, field_name@, w)
                    }),
            Err(e) => r == Err::<MessageFieldValue, EncodeError>(e) && *final(message_builder) == *old(message_builder),
        },
{
    let (rtype, text) = match numeric_rtype(descriptor.field_type(), n) {
        Ok(x) => x,
        Err(e) => {
            return Err(e);
        },
    };
    let rtype2 = match numeric_rtype(descriptor.field_type(), n) {
        Ok((r2, _)) => r2,
        Err(e) => {
            return Err(e);
        },
    };
    let value = MessageFieldValue { name: String::from_str(field_name), raw_value: Some(text.clone()), rtype };
    let copy = MessageFieldValue { name: String::from_str(field_name), raw_value: Some(text), rtype: rtype2 };
    let ghost w = copy;
    if field_type == MessageFieldValueType::Repeated {
        message_builder.add_repeated_field_value(descriptor, field_name, copy);
    } else {
        message_builder.set_field_value(descriptor, field_name, copy);
    }
    assert(is_field_value(w, field_name@, spec_number_text(n), w.rtype));
    Ok(value)
}

} // verus!
