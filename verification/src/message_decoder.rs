//! Decoding of encoded Protobuf messages using their descriptors.
//!
//! Floating point values are carried as their IEEE-754 bit patterns (`Float` holds the bits of
//! an `f32`, `Double` those of an `f64`).
use vstd::prelude::*;
use vstd::bytes::{
    spec_u32_from_le_bytes, spec_u32_to_le_bytes, spec_u64_from_le_bytes, spec_u64_to_le_bytes, u32_from_le_bytes,
    u32_to_le_bytes, u64_from_le_bytes, u64_to_le_bytes,
};
use vstd::string::StringExecFns;
use vstd::utf8::encode_utf8;
use crate::text::{parse_i32, parse_i64, parse_u32, parse_u64, is_true_text, spec_parse_i32, spec_parse_i64, spec_parse_u32, spec_parse_u64, true_text};
use vstd::slice::{slice_subrange, slice_to_vec};
use vstd::utf8::{decode_utf8, valid_utf8};
use crate::descriptor::{
    opt_text, EnumValueDescriptorView, spec_should_be_packed_type, spec_wire_type_for_type, EnumDescriptor, EnumDescriptorView,
    FieldDescriptor, FieldDescriptorView, FieldType, FileDescriptorSet, FileDescriptorView, MessageDescriptor,
    MessageDescriptorView,
};
use crate::lookup::{
    find_enum_by_name, find_enum_by_name_in_message, find_field_descriptor, find_message_descriptor_for_type,
    find_nested_type, opt_map_view, spec_find_enum_by_name, spec_find_enum_by_name_in_message, spec_find_field, spec_find_message_for_type,
    spec_find_message_named, spec_last_name,
};
use crate::wire::{
    decode_key, decode_varint, encode_varint, zigzag_decode_32, zigzag_decode_64, spec_decode_key, spec_decode_varint, spec_encode_varint, spec_zigzag_decode_32, spec_zigzag_decode_64,
    DecodingError, WireType,
};

verus! {

/// Decoded value of a field.
#[derive(Debug, PartialEq)]
pub enum ProtobufFieldData {
    /// String value
    String(String),
    /// Boolean value
    Boolean(bool),
    /// Unsigned 32 bit integer
    UInteger32(u32),
    /// Signed 32 bit integer
    Integer32(i32),
    /// Unsigned 64 bit integer
    UInteger64(u64),
    /// Signed 64 bit integer
    Integer64(i64),
    /// 32 bit floating point number, as its bit pattern
    Float(u32),
    /// 64 bit floating point number, as its bit pattern
    Double(u64),
    /// Array of bytes
    Bytes(Vec<u8>),
    /// Enum value, with the descriptor of the enum
    Enum(i32, EnumDescriptor),
    /// Embedded message, with the descriptor of its type
    Message(Vec<u8>, MessageDescriptor),
    /// Field data that does not match the descriptor
    Unknown(Vec<u8>),
}

/// The abstract value of field data.
pub enum FieldDataView {
    String(Seq<char>),
    Boolean(bool),
    UInteger32(u32),
    Integer32(i32),
    UInteger64(u64),
    Integer64(i64),
    Float(u32),
    Double(u64),
    Bytes(Seq<u8>),
    Enum(i32, EnumDescriptorView),
    Message(Seq<u8>, MessageDescriptorView),
    Unknown(Seq<u8>),
}

impl View for ProtobufFieldData {
    type V = FieldDataView;

    open spec fn view(&self) -> FieldDataView {
        match self {
            ProtobufFieldData::String(s) => FieldDataView::String(s@),
            ProtobufFieldData::Boolean(b) => FieldDataView::Boolean(*b),
            ProtobufFieldData::UInteger32(n) => FieldDataView::UInteger32(*n),
            ProtobufFieldData::Integer32(n) => FieldDataView::Integer32(*n),
            ProtobufFieldData::UInteger64(n) => FieldDataView::UInteger64(*n),
            ProtobufFieldData::Integer64(n) => FieldDataView::Integer64(*n),
            ProtobufFieldData::Float(n) => FieldDataView::Float(*n),
            ProtobufFieldData::Double(n) => FieldDataView::Double(*n),
            ProtobufFieldData::Bytes(b) => FieldDataView::Bytes(b@),
            ProtobufFieldData::Enum(n, e) => FieldDataView::Enum(*n, e@),
            ProtobufFieldData::Message(b, m) => FieldDataView::Message(b@, m@),
            ProtobufFieldData::Unknown(b) => FieldDataView::Unknown(b@),
        }
    }
}

/// A decoded field.
#[derive(Debug, PartialEq)]
pub struct ProtobufField {
    /// Field number
    pub field_num: u32,
    /// Field name
    pub field_name: String,
    /// Wire type for the field
    pub wire_type: WireType,
    /// Field data
    pub data: ProtobufFieldData,
    /// Additional field data (for repeated fields)
    pub additional_data: Vec<ProtobufFieldData>,
    /// Descriptor for this field
    pub descriptor: FieldDescriptor,
}

/// The abstract value of a decoded field.
pub struct ProtobufFieldView {
    pub field_num: u32,
    pub field_name: Seq<char>,
    pub wire_type: WireType,
    pub data: FieldDataView,
    pub additional_data: Seq<FieldDataView>,
    pub descriptor: FieldDescriptorView,
}

impl View for ProtobufField {
    type V = ProtobufFieldView;

    open spec fn view(&self) -> ProtobufFieldView {
        ProtobufFieldView {
            field_num: self.field_num,
            field_name: self.field_name@,
            wire_type: self.wire_type,
            data: self.data@,
            additional_data: self.additional_data@.map_values(|d: ProtobufFieldData| d@),
            descriptor: self.descriptor@,
        }
    }
}

/// The views of a sequence of fields.
pub open spec fn fields_view(fields: Seq<ProtobufField>) -> Seq<ProtobufFieldView> {
    fields.map_values(|f: ProtobufField| f@)
}

/// The views of a sequence of values with their wire types.
pub open spec fn values_view(values: Seq<(ProtobufFieldData, WireType)>) -> Seq<(FieldDataView, WireType)> {
    values.map_values(|p: (ProtobufFieldData, WireType)| (p.0@, p.1))
}

// ---------------------------------------------------------------------------------------------
// The decoding grammar
// ---------------------------------------------------------------------------------------------

/// Name given to fields that the descriptor does not declare.
pub open spec fn unknown_field_name() -> Seq<char> {
    seq!['u', 'n', 'k', 'n', 'o', 'w', 'n']
}

/// The enum value of a varint for an enum field: the enum is looked up among those of the
/// message by the last component of the field's type reference, then among all the files by its
/// fully qualified name.
pub open spec fn spec_decode_enum(
    desc: MessageDescriptorView,
    files: Seq<FileDescriptorView>,
    fd: FieldDescriptorView,
    v: u64,
) -> Option<FieldDataView> {
    match spec_lookup_enum(desc, files, fd) {
        Some(e) => Some(FieldDataView::Enum(v as i32, e)),
        None => None,
    }
}

/// The enum of an enum field: looked up among the enums of the message by the last component of
/// the field's type reference, then among all the files by its full name.
pub open spec fn spec_lookup_enum(
    desc: MessageDescriptorView,
    files: Seq<FileDescriptorView>,
    fd: FieldDescriptorView,
) -> Option<EnumDescriptorView> {
    let name = opt_text(fd.type_ref);
    match spec_find_enum_by_name_in_message(desc.enum_types, name) {
        Some(e) => Some(e),
        None => spec_find_enum_by_name(files, name),
    }
}

/// The value of a varint for a field of a (non-enum) type; types that are not varint types give
/// the little-endian bytes of the varint as unknown data.
pub open spec fn spec_varint_value(t: FieldType, v: u64) -> FieldDataView {
    match t {
        FieldType::Int64 => FieldDataView::Integer64(v as i64),
        FieldType::Uint64 => FieldDataView::UInteger64(v),
        FieldType::Int32 => FieldDataView::Integer32(v as i32),
        FieldType::Bool => FieldDataView::Boolean(v > 0),
        FieldType::Uint32 => FieldDataView::UInteger32(v as u32),
        FieldType::Sint32 => FieldDataView::Integer32(spec_zigzag_decode_32(v)),
        FieldType::Sint64 => FieldDataView::Integer64(spec_zigzag_decode_64(v)),
        _ => FieldDataView::Unknown(spec_u64_to_le_bytes(v)),
    }
}

/// What a varint means for each varint field type, as Protobuf defines it: unsigned types take
/// the value (32 bit ones its low 32 bits), signed types read those bits as two's complement,
/// `sint` types undo zig-zag coding (an even number is half of it, an odd one minus half of one
/// more than it), and a boolean is true for any value but zero.
pub proof fn lemma_varint_values(v: u64)
    ensures
        spec_varint_value(FieldType::Uint64, v) == FieldDataView::UInteger64(v),
        spec_varint_value(FieldType::Bool, v) == FieldDataView::Boolean(v != 0),
        spec_varint_value(FieldType::Uint32, v) matches FieldDataView::UInteger32(x) && x == v % 0x1_0000_0000,
        spec_varint_value(FieldType::Int64, v) matches FieldDataView::Integer64(x)
            && x == (if v < 0x8000_0000_0000_0000 { v as int } else { v - 0x1_0000_0000_0000_0000 }),
        spec_varint_value(FieldType::Int32, v) matches FieldDataView::Integer32(x) && x == ({
            let w = v % 0x1_0000_0000;
            if w < 0x8000_0000 { w as int } else { w - 0x1_0000_0000 }
        }),
        spec_varint_value(FieldType::Sint32, v) matches FieldDataView::Integer32(x) && x == ({
            let w = v % 0x1_0000_0000;
            if w % 2 == 0 { (w / 2) as int } else { -((w + 1) / 2) }
        }),
        spec_varint_value(FieldType::Sint64, v) matches FieldDataView::Integer64(x)
            && x == (if v % 2 == 0 { (v / 2) as int } else { -((v + 1) / 2) }),
{
    let x64 = v as i64;
    let x32 = v as i32;
    let u32v = v as u32;
    assert(u32v == v % 0x1_0000_0000) by (bit_vector)
        requires u32v == v as u32;
    assert(v < 0x8000_0000_0000_0000 ==> x64 == v) by (bit_vector)
        requires x64 == v as i64;
    assert(v >= 0x8000_0000_0000_0000 ==> x64 + 0x1_0000_0000_0000_0000 == v) by (bit_vector)
        requires x64 == v as i64;
    assert(v % 0x1_0000_0000 < 0x8000_0000 ==> x32 == v % 0x1_0000_0000) by (bit_vector)
        requires x32 == v as i32;
    assert(v % 0x1_0000_0000 >= 0x8000_0000 ==> x32 + 0x1_0000_0000 == v % 0x1_0000_0000) by (bit_vector)
        requires x32 == v as i32;
    crate::wire::lemma_zigzag_32_values(0, v);
    crate::wire::lemma_zigzag_64_values(0, v);
}

/// The value of eight little-endian bytes for a field of the given type.
pub open spec fn spec_fixed64_value(t: FieldType, b: Seq<u8>) -> FieldDataView {
    match t {
        FieldType::Double => FieldDataView::Double(spec_u64_from_le_bytes(b)),
        FieldType::Fixed64 => FieldDataView::UInteger64(spec_u64_from_le_bytes(b)),
        FieldType::Sfixed64 => FieldDataView::Integer64(spec_u64_from_le_bytes(b) as i64),
        _ => FieldDataView::Unknown(b),
    }
}

/// The value of four little-endian bytes for a field of the given type.
pub open spec fn spec_fixed32_value(t: FieldType, b: Seq<u8>) -> FieldDataView {
    match t {
        FieldType::Float => FieldDataView::Float(spec_u32_from_le_bytes(b)),
        FieldType::Fixed32 => FieldDataView::UInteger32(spec_u32_from_le_bytes(b)),
        FieldType::Sfixed32 => FieldDataView::Integer32(spec_u32_from_le_bytes(b) as i32),
        _ => FieldDataView::Unknown(b),
    }
}

/// If values of the type are eight byte values.
pub open spec fn is_fixed64_type(t: FieldType) -> bool {
    t == FieldType::Double || t == FieldType::Fixed64 || t == FieldType::Sfixed64
}

/// If values of the type are four byte values.
pub open spec fn is_fixed32_type(t: FieldType) -> bool {
    t == FieldType::Float || t == FieldType::Fixed32 || t == FieldType::Sfixed32
}

/// The values of a packed repeated field: fixed size values while whole values remain (bytes
/// left over are an error), or varints until the payload is used up.
pub open spec fn spec_packed_values(
    fd: FieldDescriptorView,
    desc: MessageDescriptorView,
    files: Seq<FileDescriptorView>,
    field_num: u32,
    payload: Seq<u8>,
) -> Result<Seq<(FieldDataView, WireType)>, DecodingError>
    decreases payload.len(),
{
    let t = fd.field_type();
    if is_fixed64_type(t) {
        if payload.len() >= 8 {
            match spec_packed_values(fd, desc, files, field_num, payload.skip(8)) {
                Ok(rest) => Ok(seq![(spec_fixed64_value(t, payload.take(8)), WireType::SixtyFourBit)] + rest),
                Err(e) => Err(e),
            }
        } else if payload.len() == 0 {
            Ok(Seq::empty())
        } else {
            Err(DecodingError::PackedTrailingBytes { field_num, remaining: payload.len() as usize })
        }
    } else if is_fixed32_type(t) {
        if payload.len() >= 4 {
            match spec_packed_values(fd, desc, files, field_num, payload.skip(4)) {
                Ok(rest) => Ok(seq![(spec_fixed32_value(t, payload.take(4)), WireType::ThirtyTwoBit)] + rest),
                Err(e) => Err(e),
            }
        } else if payload.len() == 0 {
            Ok(Seq::empty())
        } else {
            Err(DecodingError::PackedTrailingBytes { field_num, remaining: payload.len() as usize })
        }
    } else if payload.len() == 0 {
        Ok(Seq::empty())
    } else {
        match spec_decode_varint(payload) {
            None => Err(DecodingError::InvalidVarint),
            Some((v, n)) => {
                let value = if t == FieldType::Enum {
                    spec_decode_enum(desc, files, fd, v)
                } else {
                    Some(spec_varint_value(t, v))
                };
                match value {
                    None => Err(DecodingError::EnumNotFound { field_num }),
                    Some(d) => if 0 < n <= payload.len() {
                        match spec_packed_values(fd, desc, files, field_num, payload.skip(n as int)) {
                            Ok(rest) => Ok(seq![(d, WireType::Varint)] + rest),
                            Err(e) => Err(e),
                        }
                    } else {
                        Err(DecodingError::InvalidVarint)
                    },
                }
            },
        }
    }
}

/// The values of a length-delimited payload for a known field.
pub open spec fn spec_length_delimited_values(
    fd: FieldDescriptorView,
    desc: MessageDescriptorView,
    files: Seq<FileDescriptorView>,
    field_num: u32,
    length: u64,
    payload: Seq<u8>,
) -> Result<Seq<(FieldDataView, WireType)>, DecodingError> {
    let t = fd.field_type();
    let ld = WireType::LengthDelimited;
    match t {
        FieldType::String => if valid_utf8(payload) {
            Ok(seq![(FieldDataView::String(decode_utf8(payload)), ld)])
        } else {
            Err(DecodingError::InvalidUtf8 { field_num })
        },
        FieldType::Message => {
            let name = opt_text(fd.type_ref);
            match spec_find_message_for_type(files, name) {
                Some(m) => Ok(seq![(FieldDataView::Message(payload, m), ld)]),
                None => match spec_find_message_named(desc.nested_types, spec_last_name(name)) {
                    Some(m) => Ok(seq![(FieldDataView::Message(payload, m), ld)]),
                    None => Err(DecodingError::MessageNotFound { field_num }),
                },
            }
        },
        FieldType::Bytes => Ok(seq![(FieldDataView::Bytes(payload), ld)]),
        _ => if spec_should_be_packed_type(t) && fd.is_repeated() {
            spec_packed_values(fd, desc, files, field_num, payload)
        } else {
            Ok(seq![(FieldDataView::Unknown(spec_encode_varint(length) + payload), ld)])
        },
    }
}

/// The values of a known field whose key has been read, and the number of bytes they take
/// (`rest` starts after the key).
pub open spec fn spec_known_field_values(
    fd: FieldDescriptorView,
    desc: MessageDescriptorView,
    files: Seq<FileDescriptorView>,
    field_num: u32,
    wire_type: WireType,
    rest: Seq<u8>,
) -> Result<(Seq<(FieldDataView, WireType)>, nat), DecodingError> {
    let t = fd.field_type();
    match wire_type {
        WireType::Varint => match spec_decode_varint(rest) {
            None => Err(DecodingError::InvalidVarint),
            Some((v, n)) => if t == FieldType::Enum {
                match spec_decode_enum(desc, files, fd, v) {
                    Some(d) => Ok((seq![(d, WireType::Varint)], n)),
                    None => Err(DecodingError::EnumNotFound { field_num }),
                }
            } else {
                Ok((seq![(spec_varint_value(t, v), WireType::Varint)], n))
            },
        },
        WireType::SixtyFourBit => if rest.len() < 8 {
            Err(DecodingError::Truncated { field_num })
        } else {
            Ok((seq![(spec_fixed64_value(t, rest.take(8)), WireType::SixtyFourBit)], 8))
        },
        WireType::LengthDelimited => match spec_decode_varint(rest) {
            None => Err(DecodingError::InvalidVarint),
            Some((length, n)) => {
                let available = rest.len() - n;
                if available < length {
                    Err(DecodingError::InsufficientData { field_num, remaining: available as usize, length })
                } else {
                    match spec_length_delimited_values(fd, desc, files, field_num, length,
                        rest.subrange(n as int, n + length)) {
                        Ok(values) => Ok((values, (n + length) as nat)),
                        Err(e) => Err(e),
                    }
                }
            },
        },
        WireType::ThirtyTwoBit => if rest.len() < 4 {
            Err(DecodingError::Truncated { field_num })
        } else {
            Ok((seq![(spec_fixed32_value(t, rest.take(4)), WireType::ThirtyTwoBit)], 4))
        },
        _ => Err(DecodingError::UnsupportedWireType { field_num, wire_type }),
    }
}

/// The raw data of a field that the descriptor does not declare, and the number of bytes it
/// takes. A varint is kept in its canonical encoding; a length-delimited payload with its length
/// prefix; fixed size values with their bytes in reverse order (they are read big-endian and
/// written little-endian).
pub open spec fn spec_unknown_field_data(field_num: u32, wire_type: WireType, rest: Seq<u8>) -> Result<(Seq<u8>, nat), DecodingError> {
    match wire_type {
        WireType::Varint => match spec_decode_varint(rest) {
            None => Err(DecodingError::InvalidVarint),
            Some((v, n)) => Ok((spec_encode_varint(v), n)),
        },
        WireType::SixtyFourBit => if rest.len() < 8 {
            Err(DecodingError::Truncated { field_num })
        } else {
            Ok((rest.take(8).reverse(), 8))
        },
        WireType::LengthDelimited => match spec_decode_varint(rest) {
            None => Err(DecodingError::InvalidVarint),
            Some((length, n)) => if rest.len() - n < length {
                Err(DecodingError::Truncated { field_num })
            } else {
                Ok((spec_encode_varint(length) + rest.subrange(n as int, n + length), (n + length) as nat))
            },
        },
        WireType::ThirtyTwoBit => if rest.len() < 4 {
            Err(DecodingError::Truncated { field_num })
        } else {
            Ok((rest.take(4).reverse(), 4))
        },
        _ => Err(DecodingError::UnsupportedWireType { field_num, wire_type }),
    }
}

/// A decoded field of a known field descriptor.
pub open spec fn known_field(field_num: u32, fd: FieldDescriptorView, value: (FieldDataView, WireType)) -> ProtobufFieldView {
    ProtobufFieldView {
        field_num,
        field_name: opt_text(fd.name),
        wire_type: value.1,
        data: value.0,
        additional_data: Seq::empty(),
        descriptor: fd,
    }
}

/// The fields at the start of `s` (one field value, or several for a packed repeated field),
/// and the number of bytes they take.
pub open spec fn spec_decode_field(
    s: Seq<u8>,
    desc: MessageDescriptorView,
    files: Seq<FileDescriptorView>,
) -> Result<(Seq<ProtobufFieldView>, nat), DecodingError> {
    match spec_decode_key(s) {
        None => Err(DecodingError::InvalidKey),
        Some((tag, wire_type, n)) => {
            let rest = s.skip(n as int);
            match spec_find_field(desc.fields, tag as i32) {
                Some(fd) => match spec_known_field_values(fd, desc, files, tag, wire_type, rest) {
                    Ok((values, m)) => Ok((values.map_values(|v: (FieldDataView, WireType)| known_field(tag, fd, v)), n + m)),
                    Err(e) => Err(e),
                },
                None => match spec_unknown_field_data(tag, wire_type, rest) {
                    Ok((data, m)) => Ok((
                        seq![ProtobufFieldView {
                            field_num: tag,
                            field_name: unknown_field_name(),
                            wire_type,
                            data: FieldDataView::Unknown(data),
                            additional_data: Seq::empty(),
                            descriptor: FieldDescriptorView::empty(),
                        }],
                        n + m,
                    )),
                    Err(e) => Err(e),
                },
            }
        },
    }
}

/// All the fields of `s`, in the order they are written.
pub open spec fn spec_decode_fields(
    s: Seq<u8>,
    desc: MessageDescriptorView,
    files: Seq<FileDescriptorView>,
) -> Result<Seq<ProtobufFieldView>, DecodingError>
    decreases s.len(),
{
    if s.len() == 0 {
        Ok(Seq::empty())
    } else {
        match spec_decode_field(s, desc, files) {
            Err(e) => Err(e),
            Ok((fields, n)) => if 0 < n <= s.len() {
                match spec_decode_fields(s.skip(n as int), desc, files) {
                    Ok(rest) => Ok(fields + rest),
                    Err(e) => Err(e),
                }
            } else {
                Err(DecodingError::InvalidKey)
            },
        }
    }
}

/// Where a field goes among fields ordered by number: after the last one whose number is not
/// greater than its own.
pub open spec fn spec_insert_pos(sorted: Seq<ProtobufFieldView>, num: u32) -> int
    decreases sorted.len(),
{
    if sorted.len() == 0 {
        0
    } else if sorted.last().field_num <= num {
        sorted.len() as int
    } else {
        spec_insert_pos(sorted.drop_last(), num)
    }
}

/// The decoded message: one value for each field value in the bytes, in the order the bytes
/// hold them (repeated fields are not consolidated).
pub open spec fn spec_decode_message(
    s: Seq<u8>,
    desc: MessageDescriptorView,
    files: Seq<FileDescriptorView>,
) -> Result<Seq<ProtobufFieldView>, DecodingError> {
    spec_decode_fields(s, desc, files)
}

// ---------------------------------------------------------------------------------------------
// Decoding
// ---------------------------------------------------------------------------------------------

#[verifier::external_type_specification]
#[verifier::external_body]
pub struct ExFromUtf8Error(std::string::FromUtf8Error);

/// Calls `String::from_utf8`. Claimed, as std documents: it succeeds exactly when the bytes are
/// valid UTF-8, and the string then holds the characters they encode.
#[verifier::external_body]
fn string_from_utf8(bytes: Vec<u8>) -> (r: Result<String, std::string::FromUtf8Error>)
    ensures
        r is Ok <==> valid_utf8(bytes@),
        r matches Ok(s) ==> s@ == decode_utf8(bytes@),
{
    String::from_utf8(bytes)
}

/// Joins values decoded so far with the outcome of decoding the rest.
pub open spec fn join_values(
    done: Seq<(FieldDataView, WireType)>,
    rest: Result<Seq<(FieldDataView, WireType)>, DecodingError>,
) -> Result<Seq<(FieldDataView, WireType)>, DecodingError> {
    match rest {
        Ok(r) => Ok(done + r),
        Err(e) => Err(e),
    }
}

/// The type reference of a field, empty where it has none.
fn type_ref_of(fd: &FieldDescriptor) -> (r: String)
    ensures
        r@ == opt_text(fd@.type_ref),
{
    match &fd.type_ref {
        Some(t) => t.clone(),
        None => String::new(),
    }
}

/// Finds the enum of an enum field (see `spec_lookup_enum`).
pub fn lookup_enum(
    descriptor: &MessageDescriptor,
    descriptors: &FileDescriptorSet,
    field_descriptor: &FieldDescriptor,
) -> (r: Option<EnumDescriptor>)
    ensures
        opt_map_view(r) == spec_lookup_enum(descriptor@, descriptors@, field_descriptor@),
{
    let name = type_ref_of(field_descriptor);
    assert(descriptor@.enum_types == descriptor.enum_types@.map_values(|e: EnumDescriptor| e@));
    match find_enum_by_name_in_message(&descriptor.enum_types, name.as_str()) {
        Some(e) => Some(e),
        None => find_enum_by_name(descriptors, name.as_str()),
    }
}

/// Decodes an enum value: the enum is looked up among those of the message by the last
/// component of the field's type reference, then among all the files by its full name.
pub fn decode_enum(
    descriptor: &MessageDescriptor,
    descriptors: &FileDescriptorSet,
    field_descriptor: &FieldDescriptor,
    field_num: u32,
    varint: u64,
) -> (r: Result<ProtobufFieldData, DecodingError>)
    ensures
        match spec_decode_enum(descriptor@, descriptors@, field_descriptor@, varint) {
            Some(d) => r matches Ok(x) && x@ == d,
            None => r == Err::<ProtobufFieldData, DecodingError>(DecodingError::EnumNotFound { field_num }),
        },
{
    match lookup_enum(descriptor, descriptors, field_descriptor) {
        Some(e) => Ok(ProtobufFieldData::Enum(varint as i32, e)),
        None => Err(DecodingError::EnumNotFound { field_num }),
    }
}

/// The value of a varint for a field of a (non-enum) type.
fn varint_value(t: FieldType, v: u64) -> (r: ProtobufFieldData)
    ensures
        r@ == spec_varint_value(t, v),
{
    match t {
        FieldType::Int64 => ProtobufFieldData::Integer64(v as i64),
        FieldType::Uint64 => ProtobufFieldData::UInteger64(v),
        FieldType::Int32 => ProtobufFieldData::Integer32(v as i32),
        FieldType::Bool => ProtobufFieldData::Boolean(v > 0),
        FieldType::Uint32 => ProtobufFieldData::UInteger32(v as u32),
        FieldType::Sint32 => ProtobufFieldData::Integer32(zigzag_decode_32(v)),
        FieldType::Sint64 => ProtobufFieldData::Integer64(zigzag_decode_64(v)),
        _ => ProtobufFieldData::Unknown(u64_to_le_bytes(v)),
    }
}

/// The value of the eight little-endian bytes at `pos`.
fn fixed64_value(t: FieldType, buf: &[u8], pos: usize) -> (r: ProtobufFieldData)
    requires
        pos + 8 <= buf.len(),
    ensures
        r@ == spec_fixed64_value(t, buf@.subrange(pos as int, pos + 8)),
{
    let bytes = slice_subrange(buf, pos, pos + 8);
    match t {
        FieldType::Double => ProtobufFieldData::Double(u64_from_le_bytes(bytes)),
        FieldType::Fixed64 => ProtobufFieldData::UInteger64(u64_from_le_bytes(bytes)),
        FieldType::Sfixed64 => ProtobufFieldData::Integer64(u64_from_le_bytes(bytes) as i64),
        _ => ProtobufFieldData::Unknown(slice_to_vec(bytes)),
    }
}

/// The value of the four little-endian bytes at `pos`.
fn fixed32_value(t: FieldType, buf: &[u8], pos: usize) -> (r: ProtobufFieldData)
    requires
        pos + 4 <= buf.len(),
    ensures
        r@ == spec_fixed32_value(t, buf@.subrange(pos as int, pos + 4)),
{
    let bytes = slice_subrange(buf, pos, pos + 4);
    match t {
        FieldType::Float => ProtobufFieldData::Float(u32_from_le_bytes(bytes)),
        FieldType::Fixed32 => ProtobufFieldData::UInteger32(u32_from_le_bytes(bytes)),
        FieldType::Sfixed32 => ProtobufFieldData::Integer32(u32_from_le_bytes(bytes) as i32),
        _ => ProtobufFieldData::Unknown(slice_to_vec(bytes)),
    }
}

proof fn lemma_values_push(v: Seq<(ProtobufFieldData, WireType)>, x: (ProtobufFieldData, WireType))
    ensures
        values_view(v.push(x)) == values_view(v).push((x.0@, x.1)),
{
    assert(values_view(v.push(x)) =~= values_view(v).push((x.0@, x.1)));
}

/// Decodes the values of a packed repeated field from its payload.
pub fn decode_packed_field(
    field: &FieldDescriptor,
    descriptor: &MessageDescriptor,
    descriptors: &FileDescriptorSet,
    field_num: u32,
    data: &[u8],
) -> (r: Result<Vec<(ProtobufFieldData, WireType)>, DecodingError>)
    ensures
        match spec_packed_values(field@, descriptor@, descriptors@, field_num, data@) {
            Ok(vs) => r matches Ok(v) && values_view(v@) == vs,
            Err(e) => r == Err::<Vec<(ProtobufFieldData, WireType)>, DecodingError>(e),
        },
{
    let t = field.field_type();
    let ghost whole = spec_packed_values(field@, descriptor@, descriptors@, field_num, data@);
    let mut values: Vec<(ProtobufFieldData, WireType)> = Vec::new();
    let mut pos: usize = 0;
    assert(data@.skip(0) =~= data@);
    assert(values_view(values@) =~= Seq::<(FieldDataView, WireType)>::empty());
    if t == FieldType::Double || t == FieldType::Fixed64 || t == FieldType::Sfixed64 {
        while data.len() - pos >= 8
            invariant
                pos <= data@.len(),
                t == field@.field_type(),
                is_fixed64_type(t),
                whole == join_values(values_view(values@),
                    spec_packed_values(field@, descriptor@, descriptors@, field_num, data@.skip(pos as int))),
            decreases data@.len() - pos,
        {
            let ghost rest = data@.skip(pos as int);
            assert(rest.take(8) =~= data@.subrange(pos as int, pos + 8));
            assert(rest.skip(8) =~= data@.skip(pos + 8));
            let value = fixed64_value(t, data, pos);
            let ghost old_a = values_view(values@);
            let ghost x = (value@, WireType::SixtyFourBit);
            proof {
                lemma_values_push(values@, (value, WireType::SixtyFourBit));
            }
            values.push((value, WireType::SixtyFourBit));
            pos = pos + 8;
            proof {
                let a = values_view(values@);
                assert(a == old_a.push(x));
                let tail = spec_packed_values(field@, descriptor@, descriptors@, field_num, data@.skip(pos as int));
                assert(spec_packed_values(field@, descriptor@, descriptors@, field_num, rest) == match tail {
                    Ok(r) => Ok(seq![x] + r),
                    Err(e) => Err(e),
                });
                match tail {
                    Ok(r) => {
                        assert(old_a + (seq![x] + r) =~= a + r);
                    },
                    Err(e) => {},
                }
            }
        }
        if pos < data.len() {
            Err(DecodingError::PackedTrailingBytes { field_num, remaining: data.len() - pos })
        } else {
            assert(values_view(values@) + Seq::<(FieldDataView, WireType)>::empty() =~= values_view(values@));
            Ok(values)
        }
    } else if t == FieldType::Float || t == FieldType::Fixed32 || t == FieldType::Sfixed32 {
        while data.len() - pos >= 4
            invariant
                pos <= data@.len(),
                t == field@.field_type(),
                is_fixed32_type(t),
                !is_fixed64_type(t),
                whole == join_values(values_view(values@),
                    spec_packed_values(field@, descriptor@, descriptors@, field_num, data@.skip(pos as int))),
            decreases data@.len() - pos,
        {
            let ghost rest = data@.skip(pos as int);
            assert(rest.take(4) =~= data@.subrange(pos as int, pos + 4));
            assert(rest.skip(4) =~= data@.skip(pos + 4));
            let value = fixed32_value(t, data, pos);
            let ghost old_a = values_view(values@);
            let ghost x = (value@, WireType::ThirtyTwoBit);
            proof {
                lemma_values_push(values@, (value, WireType::ThirtyTwoBit));
            }
            values.push((value, WireType::ThirtyTwoBit));
            pos = pos + 4;
            proof {
                let a = values_view(values@);
                assert(a == old_a.push(x));
                let tail = spec_packed_values(field@, descriptor@, descriptors@, field_num, data@.skip(pos as int));
                assert(spec_packed_values(field@, descriptor@, descriptors@, field_num, rest) == match tail {
                    Ok(r) => Ok(seq![x] + r),
                    Err(e) => Err(e),
                });
                match tail {
                    Ok(r) => {
                        assert(old_a + (seq![x] + r) =~= a + r);
                    },
                    Err(e) => {},
                }
            }
        }
        if pos < data.len() {
            Err(DecodingError::PackedTrailingBytes { field_num, remaining: data.len() - pos })
        } else {
            assert(values_view(values@) + Seq::<(FieldDataView, WireType)>::empty() =~= values_view(values@));
            Ok(values)
        }
    } else {
        while pos < data.len()
            invariant
                pos <= data@.len(),
                t == field@.field_type(),
                !is_fixed32_type(t),
                !is_fixed64_type(t),
                whole == spec_packed_values(field@, descriptor@, descriptors@, field_num, data@),
                whole == join_values(values_view(values@),
                    spec_packed_values(field@, descriptor@, descriptors@, field_num, data@.skip(pos as int))),
            decreases data@.len() - pos,
        {
            let ghost rest = data@.skip(pos as int);
            let (varint, next) = match decode_varint(data, pos) {
                Ok(x) => x,
                Err(e) => {
                    assert(spec_packed_values(field@, descriptor@, descriptors@, field_num, rest) == Err::<Seq<(FieldDataView, WireType)>, DecodingError>(e));
                    return Err(e);
                },
            };
            let ghost n = (next - pos) as nat;
            assert(rest.skip(n as int) =~= data@.skip(next as int));
            let value = if t == FieldType::Enum {
                match decode_enum(descriptor, descriptors, field, field_num, varint) {
                    Ok(v) => v,
                    Err(e) => {
                        assert(spec_packed_values(field@, descriptor@, descriptors@, field_num, rest) == Err::<Seq<(FieldDataView, WireType)>, DecodingError>(e));
                        return Err(e);
                    },
                }
            } else {
                varint_value(t, varint)
            };
            let ghost old_a = values_view(values@);
            let ghost x = (value@, WireType::Varint);
            proof {
                lemma_values_push(values@, (value, WireType::Varint));
            }
            values.push((value, WireType::Varint));
            pos = next;
            proof {
                let a = values_view(values@);
                assert(a == old_a.push(x));
                let tail = spec_packed_values(field@, descriptor@, descriptors@, field_num, data@.skip(pos as int));
                assert(spec_packed_values(field@, descriptor@, descriptors@, field_num, rest) == match tail {
                    Ok(r) => Ok(seq![x] + r),
                    Err(e) => Err(e),
                });
                match tail {
                    Ok(r) => {
                        assert(old_a + (seq![x] + r) =~= a + r);
                    },
                    Err(e) => {},
                }
            }
        }
        assert(data@.skip(pos as int) =~= Seq::<u8>::empty());
        assert(values_view(values@) + Seq::<(FieldDataView, WireType)>::empty() =~= values_view(values@));
        Ok(values)
    }
}

/// Decodes the values of a length-delimited payload for a known field.
pub fn decode_length_delimited(
    field: &FieldDescriptor,
    descriptor: &MessageDescriptor,
    descriptors: &FileDescriptorSet,
    field_num: u32,
    length: u64,
    payload: &[u8],
) -> (r: Result<Vec<(ProtobufFieldData, WireType)>, DecodingError>)
    ensures
        match spec_length_delimited_values(field@, descriptor@, descriptors@, field_num, length, payload@) {
            Ok(vs) => r matches Ok(v) && values_view(v@) == vs,
            Err(e) => r == Err::<Vec<(ProtobufFieldData, WireType)>, DecodingError>(e),
        },
{
    let t = field.field_type();
    let ld = WireType::LengthDelimited;
    let mut values: Vec<(ProtobufFieldData, WireType)> = Vec::new();
    if t == FieldType::String {
        match string_from_utf8(slice_to_vec(payload)) {
            Ok(text) => {
                values.push((ProtobufFieldData::String(text), ld));
                assert(values_view(values@) =~= seq![(values@[0].0@, ld)]);
                Ok(values)
            },
            Err(_) => Err(DecodingError::InvalidUtf8 { field_num }),
        }
    } else if t == FieldType::Message {
        let name = type_ref_of(field);
        let found = match find_message_descriptor_for_type(name.as_str(), descriptors) {
            Some(m) => Some(m),
            None => {
                assert(descriptor@.nested_types =~= descriptor.nested_types@.map_values(|m: MessageDescriptor| m@));
                find_nested_type(&descriptor.nested_types, name.as_str())
            },
        };
        match found {
            Some(m) => {
                values.push((ProtobufFieldData::Message(slice_to_vec(payload), m), ld));
                assert(values_view(values@) =~= seq![(values@[0].0@, ld)]);
                Ok(values)
            },
            None => Err(DecodingError::MessageNotFound { field_num }),
        }
    } else if t == FieldType::Bytes {
        values.push((ProtobufFieldData::Bytes(slice_to_vec(payload)), ld));
        assert(values_view(values@) =~= seq![(values@[0].0@, ld)]);
        Ok(values)
    } else if crate::descriptor::should_be_packed_type(t) && field.is_repeated_field() {
        decode_packed_field(field, descriptor, descriptors, field_num, payload)
    } else {
        let mut raw: Vec<u8> = Vec::new();
        encode_varint(length, &mut raw);
        let mut tail = slice_to_vec(payload);
        raw.append(&mut tail);
        values.push((ProtobufFieldData::Unknown(raw), ld));
        assert(values_view(values@) =~= seq![(values@[0].0@, ld)]);
        Ok(values)
    }
}

/// Decodes the value(s) of a known field whose key ends at `pos`, returning them with their
/// wire types and the position after them.
pub fn decode_known_field(
    buf: &[u8],
    pos: usize,
    field: &FieldDescriptor,
    descriptor: &MessageDescriptor,
    descriptors: &FileDescriptorSet,
    field_num: u32,
    wire_type: WireType,
) -> (r: Result<(Vec<(ProtobufFieldData, WireType)>, usize), DecodingError>)
    requires
        pos <= buf@.len(),
    ensures
        match spec_known_field_values(field@, descriptor@, descriptors@, field_num, wire_type, buf@.skip(pos as int)) {
            Ok((vs, m)) => r matches Ok((v, next)) && values_view(v@) == vs && next == pos + m,
            Err(e) => r == Err::<(Vec<(ProtobufFieldData, WireType)>, usize), DecodingError>(e),
        },
        r matches Ok((v, next)) ==> pos <= next <= buf@.len(),
{
    let ghost rest = buf@.skip(pos as int);
    let t = field.field_type();
    let mut values: Vec<(ProtobufFieldData, WireType)> = Vec::new();
    match wire_type {
        WireType::Varint => {
            let (varint, next) = match decode_varint(buf, pos) {
                Ok(x) => x,
                Err(e) => {
                    return Err(e);
                },
            };
            let value = if t == FieldType::Enum {
                match decode_enum(descriptor, descriptors, field, field_num, varint) {
                    Ok(v) => v,
                    Err(e) => {
                        return Err(e);
                    },
                }
            } else {
                varint_value(t, varint)
            };
            values.push((value, WireType::Varint));
            assert(values_view(values@) =~= seq![(values@[0].0@, WireType::Varint)]);
            Ok((values, next))
        },
        WireType::SixtyFourBit => {
            if buf.len() - pos < 8 {
                Err(DecodingError::Truncated { field_num })
            } else {
                assert(rest.take(8) =~= buf@.subrange(pos as int, pos + 8));
                values.push((fixed64_value(t, buf, pos), WireType::SixtyFourBit));
                assert(values_view(values@) =~= seq![(values@[0].0@, WireType::SixtyFourBit)]);
                Ok((values, pos + 8))
            }
        },
        WireType::LengthDelimited => {
            let (length, start) = match decode_varint(buf, pos) {
                Ok(x) => x,
                Err(e) => {
                    return Err(e);
                },
            };
            let available = buf.len() - start;
            if (available as u64) < length {
                Err(DecodingError::InsufficientData { field_num, remaining: available, length })
            } else {
                let end = start + length as usize;
                let payload = slice_subrange(buf, start, end);
                assert(payload@ =~= rest.subrange((start - pos) as int, (start - pos) + length));
                match decode_length_delimited(field, descriptor, descriptors, field_num, length, payload) {
                    Ok(vs) => Ok((vs, end)),
                    Err(e) => Err(e),
                }
            }
        },
        WireType::ThirtyTwoBit => {
            if buf.len() - pos < 4 {
                Err(DecodingError::Truncated { field_num })
            } else {
                assert(rest.take(4) =~= buf@.subrange(pos as int, pos + 4));
                values.push((fixed32_value(t, buf, pos), WireType::ThirtyTwoBit));
                assert(values_view(values@) =~= seq![(values@[0].0@, WireType::ThirtyTwoBit)]);
                Ok((values, pos + 4))
            }
        },
        _ => Err(DecodingError::UnsupportedWireType { field_num, wire_type }),
    }
}

/// The bytes at `pos .. pos + n` in reverse order.
fn reversed_bytes(buf: &[u8], pos: usize, n: usize) -> (r: Vec<u8>)
    requires
        pos + n <= buf.len(),
    ensures
        r@ == buf@.subrange(pos as int, pos + n).reverse(),
{
    let mut out: Vec<u8> = Vec::new();
    let mut j: usize = 0;
    while j < n
        invariant
            pos + n <= buf.len(),
            j <= n,
            out@.len() == j,
            forall|k: int| 0 <= k < j ==> #[trigger] out@[k] == buf@[pos + n - 1 - k],
        decreases n - j,
    {
        out.push(buf[pos + n - 1 - j]);
        j = j + 1;
    }
    assert(out@ =~= buf@.subrange(pos as int, pos + n).reverse());
    out
}

/// Reads the raw data of a field that the descriptor does not declare, whose key ends at `pos`.
pub fn decode_unknown_field(buf: &[u8], pos: usize, field_num: u32, wire_type: WireType) -> (r: Result<(Vec<u8>, usize), DecodingError>)
    requires
        pos <= buf@.len(),
    ensures
        match spec_unknown_field_data(field_num, wire_type, buf@.skip(pos as int)) {
            Ok((data, m)) => r matches Ok((v, next)) && v@ == data && next == pos + m,
            Err(e) => r == Err::<(Vec<u8>, usize), DecodingError>(e),
        },
        r matches Ok((v, next)) ==> pos <= next <= buf@.len(),
{
    let ghost rest = buf@.skip(pos as int);
    match wire_type {
        WireType::Varint => {
            let (varint, next) = match decode_varint(buf, pos) {
                Ok(x) => x,
                Err(e) => {
                    return Err(e);
                },
            };
            let mut raw: Vec<u8> = Vec::new();
            encode_varint(varint, &mut raw);
            assert(raw@ =~= spec_encode_varint(varint));
            Ok((raw, next))
        },
        WireType::SixtyFourBit => {
            if buf.len() - pos < 8 {
                Err(DecodingError::Truncated { field_num })
            } else {
                assert(rest.take(8) =~= buf@.subrange(pos as int, pos + 8));
                Ok((reversed_bytes(buf, pos, 8), pos + 8))
            }
        },
        WireType::LengthDelimited => {
            let (length, start) = match decode_varint(buf, pos) {
                Ok(x) => x,
                Err(e) => {
                    return Err(e);
                },
            };
            let available = buf.len() - start;
            if (available as u64) < length {
                Err(DecodingError::Truncated { field_num })
            } else {
                let end = start + length as usize;
                let mut raw: Vec<u8> = Vec::new();
                encode_varint(length, &mut raw);
                let mut tail = slice_to_vec(slice_subrange(buf, start, end));
                raw.append(&mut tail);
                assert(raw@ =~= spec_encode_varint(length) + rest.subrange((start - pos) as int, (start - pos) + length));
                Ok((raw, end))
            }
        },
        WireType::ThirtyTwoBit => {
            if buf.len() - pos < 4 {
                Err(DecodingError::Truncated { field_num })
            } else {
                assert(rest.take(4) =~= buf@.subrange(pos as int, pos + 4));
                Ok((reversed_bytes(buf, pos, 4), pos + 4))
            }
        },
        _ => Err(DecodingError::UnsupportedWireType { field_num, wire_type }),
    }
}

proof fn lemma_fields_push(v: Seq<ProtobufField>, x: ProtobufField)
    ensures
        fields_view(v.push(x)) == fields_view(v).push(x@),
{
    assert(fields_view(v.push(x)) =~= fields_view(v).push(x@));
}

/// Decodes the field that starts at `pos`: one field, or one per value of a packed repeated
/// field. Returns the fields and the position after them.
pub fn decode_field(
    buf: &[u8],
    pos: usize,
    descriptor: &MessageDescriptor,
    descriptors: &FileDescriptorSet,
) -> (r: Result<(Vec<ProtobufField>, usize), DecodingError>)
    requires
        pos <= buf@.len(),
    ensures
        match spec_decode_field(buf@.skip(pos as int), descriptor@, descriptors@) {
            Ok((fs, n)) => r matches Ok((v, next)) && fields_view(v@) == fs && next == pos + n,
            Err(e) => r == Err::<(Vec<ProtobufField>, usize), DecodingError>(e),
        },
        r matches Ok((v, next)) ==> pos < next <= buf@.len(),
{
    let ghost s = buf@.skip(pos as int);
    let (tag, wire_type, start) = match decode_key(buf, pos) {
        Ok(x) => x,
        Err(e) => {
            return Err(e);
        },
    };
    let ghost n = (start - pos) as nat;
    assert(s.skip(n as int) =~= buf@.skip(start as int));
    let mut fields: Vec<ProtobufField> = Vec::new();
    match find_field_descriptor(tag as i32, descriptor) {
        Some(fd) => {
            let (mut values, next) = match decode_known_field(buf, start, &fd, descriptor, descriptors, tag, wire_type) {
                Ok(x) => x,
                Err(e) => {
                    return Err(e);
                },
            };
            let ghost all = values_view(values@);
            let ghost fdv = fd@;
            let ghost target = all.map_values(|v: (FieldDataView, WireType)| known_field(tag, fdv, v));
            let ghost mut k: int = 0;
            while values.len() > 0
                invariant
                    fdv == fd@,
                    0 <= k <= all.len(),
                    values_view(values@) == all.skip(k),
                    fields_view(fields@) == target.take(k),
                    target == all.map_values(|v: (FieldDataView, WireType)| known_field(tag, fdv, v)),
                decreases values@.len(),
            {
                let ghost old_vals = values@;
                let (data, wt) = values.remove(0);
                proof {
                    assert(values_view(old_vals).len() == old_vals.len());
                    assert(k < all.len());
                    assert(values_view(old_vals)[0] == (old_vals[0].0@, old_vals[0].1));
                    assert(all.skip(k)[0] == all[k]);
                    assert(values_view(values@) =~= values_view(old_vals).drop_first());
                    assert(values_view(old_vals).drop_first() =~= all.skip(k + 1));
                }
                let f = ProtobufField {
                    field_num: tag,
                    field_name: fd.name_or_empty(),
                    wire_type: wt,
                    data,
                    additional_data: Vec::new(),
                    descriptor: fd.duplicate(),
                };
                proof {
                    assert(f@.additional_data =~= Seq::<FieldDataView>::empty());
                    assert(f@ == known_field(tag, fdv, all[k]));
                    lemma_fields_push(fields@, f);
                }
                fields.push(f);
                proof {
                    assert(target.take(k + 1) =~= target.take(k).push(target[k]));
                    k = k + 1;
                }
            }
            assert(all.skip(k).len() == 0);
            assert(target.take(k) =~= target);
            Ok((fields, next))
        },
        None => {
            let (data, next) = match decode_unknown_field(buf, start, tag, wire_type) {
                Ok(x) => x,
                Err(e) => {
                    return Err(e);
                },
            };
            proof {
                reveal_strlit("unknown");
            }
            let f = ProtobufField {
                field_num: tag,
                field_name: String::from_str("unknown"),
                wire_type,
                data: ProtobufFieldData::Unknown(data),
                additional_data: Vec::new(),
                descriptor: FieldDescriptor {
                    name: None,
                    number: None,
                    label: None,
                    proto_type: None,
                    type_ref: None,
                    default_value: None,
                },
            };
            proof {
                assert(f@.field_name =~= unknown_field_name());
                assert(f@.additional_data =~= Seq::<FieldDataView>::empty());
                lemma_fields_push(fields@, f);
            }
            fields.push(f);
            assert(fields_view(fields@) =~= seq![fields@[0]@]);
            Ok((fields, next))
        },
    }
}

/// Inserts a field among fields ordered by number, after the last one whose number is not
/// greater than its own.
pub fn insert_sorted(sorted: &mut Vec<ProtobufField>, field: ProtobufField)
    ensures
        fields_view(final(sorted)@) == fields_view(old(sorted)@).insert(
            spec_insert_pos(fields_view(old(sorted)@), field.field_num),
            field@,
        ),
{
    let num = field.field_num;
    let ghost views = fields_view(sorted@);
    let mut j = sorted.len();
    assert(views.take(j as int) =~= views);
    while j > 0 && sorted[j - 1].field_num > num
        invariant
            views == fields_view(sorted@),
            j <= sorted@.len(),
            spec_insert_pos(views, num) == spec_insert_pos(views.take(j as int), num),
        decreases j,
    {
        assert(views.take(j as int).drop_last() =~= views.take(j - 1));
        j = j - 1;
    }
    proof {
        if j > 0 {
            assert(views.take(j as int).last() == views[j - 1]);
        }
    }
    let ghost old_sorted = sorted@;
    sorted.insert(j, field);
    assert(fields_view(sorted@) =~= views.insert(j as int, field@));
}

/// Joins fields decoded so far with the outcome of decoding the rest.
pub open spec fn join_fields(
    done: Seq<ProtobufFieldView>,
    rest: Result<Seq<ProtobufFieldView>, DecodingError>,
) -> Result<Seq<ProtobufFieldView>, DecodingError> {
    match rest {
        Ok(r) => Ok(done + r),
        Err(e) => Err(e),
    }
}

/// Decodes a Protobuf message using its descriptor and all the descriptors available. Returns a
/// value for each field value in the bytes, in the same order as the bytes hold them (repeated
/// fields are not consolidated).
pub fn decode_message(
    buffer: &[u8],
    descriptor: &MessageDescriptor,
    descriptors: &FileDescriptorSet,
) -> (r: Result<Vec<ProtobufField>, DecodingError>)
    ensures
        match spec_decode_message(buffer@, descriptor@, descriptors@) {
            Ok(fs) => r matches Ok(v) && fields_view(v@) == fs,
            Err(e) => r == Err::<Vec<ProtobufField>, DecodingError>(e),
        },
{
    let ghost whole = spec_decode_fields(buffer@, descriptor@, descriptors@);
    let ghost mut decoded: Seq<ProtobufFieldView> = Seq::empty();
    let mut out: Vec<ProtobufField> = Vec::new();
    let mut pos: usize = 0;
    assert(buffer@.skip(0) =~= buffer@);
    assert(decoded + Seq::<ProtobufFieldView>::empty() =~= decoded);
    assert(fields_view(out@) =~= decoded);
    while pos < buffer.len()
        invariant
            pos <= buffer@.len(),
            whole == spec_decode_fields(buffer@, descriptor@, descriptors@),
            whole == join_fields(decoded, spec_decode_fields(buffer@.skip(pos as int), descriptor@, descriptors@)),
            fields_view(out@) == decoded,
        decreases buffer@.len() - pos,
    {
        let ghost rest = buffer@.skip(pos as int);
        let (fields, next) = match decode_field(buffer, pos, descriptor, descriptors) {
            Ok(x) => x,
            Err(e) => {
                return Err(e);
            },
        };
        let ghost n = (next - pos) as nat;
        let ghost fs = fields_view(fields@);
        assert(rest.skip(n as int) =~= buffer@.skip(next as int));
        let ghost before = decoded;
        let ghost old_out = out@;
        let mut fields = fields;
        out.append(&mut fields);
        proof {
            assert(fields_view(out@) =~= fields_view(old_out) + fs);
            decoded = before + fs;
            match spec_decode_fields(buffer@.skip(next as int), descriptor@, descriptors@) {
                Ok(r) => {
                    assert(before + (fs + r) =~= decoded + r);
                },
                Err(e) => {},
            }
        }
        pos = next;
    }
    assert(buffer@.skip(pos as int) =~= Seq::<u8>::empty());
    assert(decoded + Seq::<ProtobufFieldView>::empty() =~= decoded);
    Ok(out)
}

// ---------------------------------------------------------------------------------------------
// Field data
// ---------------------------------------------------------------------------------------------

/// Name of the kind of field data.
pub open spec fn spec_data_type_name(d: FieldDataView) -> Seq<char> {
    match d {
        FieldDataView::String(_) => "String"@,
        FieldDataView::Boolean(_) => "Boolean"@,
        FieldDataView::UInteger32(_) => "UInteger32"@,
        FieldDataView::Integer32(_) => "Integer32"@,
        FieldDataView::UInteger64(_) => "UInteger64"@,
        FieldDataView::Integer64(_) => "Integer64"@,
        FieldDataView::Float(_) => "Float"@,
        FieldDataView::Double(_) => "Double"@,
        FieldDataView::Bytes(_) => "Bytes"@,
        FieldDataView::Enum(_, _) => "Enum"@,
        FieldDataView::Message(_, _) => "Message"@,
        FieldDataView::Unknown(_) => "Unknown"@,
    }
}

/// The text "unknown".
pub open spec fn unknown_text() -> Seq<char> {
    seq!['u', 'n', 'k', 'n', 'o', 'w', 'n']
}

/// The name of the enum value with the given number: the first value with that number (its
/// name, empty where it has none), or "unknown" where there is none.
pub open spec fn spec_enum_value_name(values: Seq<EnumValueDescriptorView>, n: i32) -> Seq<char>
    decreases values.len(),
{
    if values.len() == 0 {
        unknown_text()
    } else if values[0].number == Some(n) {
        opt_text(values[0].name)
    } else {
        spec_enum_value_name(values.drop_first(), n)
    }
}

/// The bytes of field data: UTF-8 for strings, one byte for booleans, little-endian bytes for
/// numbers (and the bit patterns of floating point numbers), the name of the value for enums,
/// and the raw bytes otherwise.
pub open spec fn spec_as_bytes(d: FieldDataView) -> Seq<u8> {
    match d {
        FieldDataView::String(s) => encode_utf8(s),
        FieldDataView::Boolean(b) => seq![if b { 1u8 } else { 0u8 }],
        FieldDataView::UInteger32(n) => spec_u32_to_le_bytes(n),
        FieldDataView::Integer32(n) => spec_u32_to_le_bytes(n as u32),
        FieldDataView::UInteger64(n) => spec_u64_to_le_bytes(n),
        FieldDataView::Integer64(n) => spec_u64_to_le_bytes(n as u64),
        FieldDataView::Float(n) => spec_u32_to_le_bytes(n),
        FieldDataView::Double(n) => spec_u64_to_le_bytes(n),
        FieldDataView::Bytes(b) => b,
        FieldDataView::Enum(n, e) => encode_utf8(spec_enum_value_name(e.values, n)),
        FieldDataView::Message(b, _) => b,
        FieldDataView::Unknown(b) => b,
    }
}

/// If the data is the default value of its type: empty strings, bytes and messages, `false`,
/// zero (either sign of zero for floating point numbers) and the enum value 0.
pub open spec fn spec_is_default_value(d: FieldDataView) -> bool {
    match d {
        FieldDataView::String(s) => s.len() == 0,
        FieldDataView::Boolean(b) => !b,
        FieldDataView::UInteger32(n) => n == 0,
        FieldDataView::Integer32(n) => n == 0,
        FieldDataView::UInteger64(n) => n == 0,
        FieldDataView::Integer64(n) => n == 0,
        FieldDataView::Float(bits) => bits == 0 || bits == 0x8000_0000,
        FieldDataView::Double(bits) => bits == 0 || bits == 0x8000_0000_0000_0000,
        FieldDataView::Bytes(b) => b.len() == 0,
        FieldDataView::Enum(n, _) => n == 0,
        FieldDataView::Message(b, _) => b.len() == 0,
        FieldDataView::Unknown(b) => b.len() == 0,
    }
}

/// The default value for data of the same kind, given the field's descriptor: the descriptor's
/// default text where it has one (numbers that do not parse read as zero; for floating point
/// data, `parsed_float_bits` is the bit pattern of the default text parsed as the data's float
/// type, `None` where it does not parse), otherwise the zero value of the kind. Enums and
/// messages keep their descriptor.
pub open spec fn spec_default_field_value(d: FieldDataView, fd: FieldDescriptorView, parsed_float_bits: Option<u64>) -> FieldDataView {
    match fd.default_value {
        Some(s) => match d {
            FieldDataView::String(_) => FieldDataView::String(s),
            FieldDataView::Boolean(_) => FieldDataView::Boolean(s == true_text()),
            FieldDataView::UInteger32(_) => FieldDataView::UInteger32(spec_parse_u32(s).unwrap_or(0)),
            FieldDataView::Integer32(_) => FieldDataView::Integer32(spec_parse_i32(s).unwrap_or(0)),
            FieldDataView::UInteger64(_) => FieldDataView::UInteger64(spec_parse_u64(s).unwrap_or(0)),
            FieldDataView::Integer64(_) => FieldDataView::Integer64(spec_parse_i64(s).unwrap_or(0)),
            FieldDataView::Float(_) => FieldDataView::Float(parsed_float_bits.unwrap_or(0) as u32),
            FieldDataView::Double(_) => FieldDataView::Double(parsed_float_bits.unwrap_or(0)),
            FieldDataView::Bytes(_) => FieldDataView::Bytes(encode_utf8(s)),
            FieldDataView::Enum(_, e) => FieldDataView::Enum(spec_parse_i32(s).unwrap_or(0), e),
            FieldDataView::Message(_, m) => FieldDataView::Message(Seq::empty(), m),
            FieldDataView::Unknown(_) => FieldDataView::Unknown(Seq::empty()),
        },
        None => match d {
            FieldDataView::String(_) => FieldDataView::String(Seq::empty()),
            FieldDataView::Boolean(_) => FieldDataView::Boolean(false),
            FieldDataView::UInteger32(_) => FieldDataView::UInteger32(0),
            FieldDataView::Integer32(_) => FieldDataView::Integer32(0),
            FieldDataView::UInteger64(_) => FieldDataView::UInteger64(0),
            FieldDataView::Integer64(_) => FieldDataView::Integer64(0),
            FieldDataView::Float(_) => FieldDataView::Float(0),
            FieldDataView::Double(_) => FieldDataView::Double(0),
            FieldDataView::Bytes(_) => FieldDataView::Bytes(Seq::empty()),
            FieldDataView::Enum(_, e) => FieldDataView::Enum(0, e),
            FieldDataView::Message(_, m) => FieldDataView::Message(Seq::empty(), m),
            FieldDataView::Unknown(_) => FieldDataView::Unknown(Seq::empty()),
        },
    }
}

/// Copies a byte vector.
fn copy_bytes(b: &Vec<u8>) -> (r: Vec<u8>)
    ensures
        r@ == b@,
{
    slice_to_vec(b.as_slice())
}

/// The name of the enum value with the given number, or "unknown".
pub fn enum_value_name(e: &EnumDescriptor, n: i32) -> (r: String)
    ensures
        r@ == spec_enum_value_name(e@.values, n),
{
    let ghost views = e@.values;
    let mut i: usize = 0;
    assert(views.skip(0) =~= views);
    while i < e.values.len()
        invariant
            views == e@.values,
            views.len() == e.values@.len(),
            i <= views.len(),
            spec_enum_value_name(views, n) == spec_enum_value_name(views.skip(i as int), n),
        decreases views.len() - i,
    {
        assert(views.skip(i as int)[0] == e.values@[i as int]@);
        let v = &e.values[i];
        if v.number == Some(n) {
            return match &v.name {
                Some(name) => name.clone(),
                None => String::new(),
            };
        }
        assert(views.skip(i as int).drop_first() =~= views.skip(i + 1));
        i = i + 1;
    }
    proof {
        reveal_strlit("unknown");
    }
    let r = String::from_str("unknown");
    assert(r@ =~= unknown_text());
    r
}

impl ProtobufFieldData {
    /// A copy of the data.
    pub fn duplicate(&self) -> (r: ProtobufFieldData)
        ensures
            r@ == self@,
    {
        match self {
            ProtobufFieldData::String(s) => ProtobufFieldData::String(s.clone()),
            ProtobufFieldData::Boolean(b) => ProtobufFieldData::Boolean(*b),
            ProtobufFieldData::UInteger32(n) => ProtobufFieldData::UInteger32(*n),
            ProtobufFieldData::Integer32(n) => ProtobufFieldData::Integer32(*n),
            ProtobufFieldData::UInteger64(n) => ProtobufFieldData::UInteger64(*n),
            ProtobufFieldData::Integer64(n) => ProtobufFieldData::Integer64(*n),
            ProtobufFieldData::Float(n) => ProtobufFieldData::Float(*n),
            ProtobufFieldData::Double(n) => ProtobufFieldData::Double(*n),
            ProtobufFieldData::Bytes(b) => ProtobufFieldData::Bytes(copy_bytes(b)),
            ProtobufFieldData::Enum(n, e) => ProtobufFieldData::Enum(*n, e.duplicate()),
            ProtobufFieldData::Message(b, m) => ProtobufFieldData::Message(copy_bytes(b), m.duplicate()),
            ProtobufFieldData::Unknown(b) => ProtobufFieldData::Unknown(copy_bytes(b)),
        }
    }

    /// Returns the name of the kind of data.
    pub fn data_type_name(&self) -> (r: &'static str)
        ensures
            r@ == spec_data_type_name(self@),
    {
        match self {
            ProtobufFieldData::String(_) => "String",
            ProtobufFieldData::Boolean(_) => "Boolean",
            ProtobufFieldData::UInteger32(_) => "UInteger32",
            ProtobufFieldData::Integer32(_) => "Integer32",
            ProtobufFieldData::UInteger64(_) => "UInteger64",
            ProtobufFieldData::Integer64(_) => "Integer64",
            ProtobufFieldData::Float(_) => "Float",
            ProtobufFieldData::Double(_) => "Double",
            ProtobufFieldData::Bytes(_) => "Bytes",
            ProtobufFieldData::Enum(_, _) => "Enum",
            ProtobufFieldData::Message(_, _) => "Message",
            ProtobufFieldData::Unknown(_) => "Unknown",
        }
    }

    /// Converts the data into a byte array.
    pub fn as_bytes(&self) -> (r: Vec<u8>)
        ensures
            r@ == spec_as_bytes(self@),
    {
        match self {
            ProtobufFieldData::String(s) => slice_to_vec(s.as_str().as_bytes()),
            ProtobufFieldData::Boolean(b) => {
                let mut v: Vec<u8> = Vec::new();
                v.push(if *b { 1u8 } else { 0u8 });
                assert(v@ =~= seq![if *b { 1u8 } else { 0u8 }]);
                v
            },
            ProtobufFieldData::UInteger32(n) => u32_to_le_bytes(*n),
            ProtobufFieldData::Integer32(n) => u32_to_le_bytes(*n as u32),
            ProtobufFieldData::UInteger64(n) => u64_to_le_bytes(*n),
            ProtobufFieldData::Integer64(n) => u64_to_le_bytes(*n as u64),
            ProtobufFieldData::Float(n) => u32_to_le_bytes(*n),
            ProtobufFieldData::Double(n) => u64_to_le_bytes(*n),
            ProtobufFieldData::Bytes(b) => copy_bytes(b),
            ProtobufFieldData::Enum(n, e) => {
                let name = enum_value_name(e, *n);
                slice_to_vec(name.as_str().as_bytes())
            },
            ProtobufFieldData::Message(b, _) => copy_bytes(b),
            ProtobufFieldData::Unknown(b) => copy_bytes(b),
        }
    }

    /// If the data is the default value for its type.
    pub fn is_default_field_value(&self) -> (r: bool)
        ensures
            r == spec_is_default_value(self@),
    {
        match self {
            ProtobufFieldData::String(v) => v.as_str().unicode_len() == 0,
            ProtobufFieldData::Boolean(v) => !*v,
            ProtobufFieldData::UInteger32(v) => *v == 0,
            ProtobufFieldData::Integer32(v) => *v == 0,
            ProtobufFieldData::UInteger64(v) => *v == 0,
            ProtobufFieldData::Integer64(v) => *v == 0,
            ProtobufFieldData::Float(bits) => *bits == 0 || *bits == 0x8000_0000,
            ProtobufFieldData::Double(bits) => *bits == 0 || *bits == 0x8000_0000_0000_0000,
            ProtobufFieldData::Bytes(v) => v.len() == 0,
            ProtobufFieldData::Enum(v, _) => *v == 0,
            ProtobufFieldData::Message(v, _) => v.len() == 0,
            ProtobufFieldData::Unknown(v) => v.len() == 0,
        }
    }

    /// Returns the default value for this kind of data, given the field's descriptor (see
    /// `spec_default_field_value`; `parsed_float_bits` is the bit pattern of the descriptor's
    /// default text parsed as this data's floating point type, and only read for floating point
    /// data).
    pub fn default_field_value(&self, descriptor: &FieldDescriptor, parsed_float_bits: Option<u64>) -> (r: ProtobufFieldData)
        ensures
            r@ == spec_default_field_value(self@, descriptor@, parsed_float_bits),
    {
        match &descriptor.default_value {
            Some(s) => {
                let text = s.as_str();
                match self {
                    ProtobufFieldData::String(_) => ProtobufFieldData::String(s.clone()),
                    ProtobufFieldData::Boolean(_) => ProtobufFieldData::Boolean(is_true_text(text)),
                    ProtobufFieldData::UInteger32(_) => ProtobufFieldData::UInteger32(parse_u32(text).unwrap_or(0)),
                    ProtobufFieldData::Integer32(_) => ProtobufFieldData::Integer32(parse_i32(text).unwrap_or(0)),
                    ProtobufFieldData::UInteger64(_) => ProtobufFieldData::UInteger64(parse_u64(text).unwrap_or(0)),
                    ProtobufFieldData::Integer64(_) => ProtobufFieldData::Integer64(parse_i64(text).unwrap_or(0)),
                    ProtobufFieldData::Float(_) => ProtobufFieldData::Float(parsed_float_bits.unwrap_or(0) as u32),
                    ProtobufFieldData::Double(_) => ProtobufFieldData::Double(parsed_float_bits.unwrap_or(0)),
                    ProtobufFieldData::Bytes(_) => ProtobufFieldData::Bytes(slice_to_vec(text.as_bytes())),
                    ProtobufFieldData::Enum(_, e) => ProtobufFieldData::Enum(parse_i32(text).unwrap_or(0), e.duplicate()),
                    ProtobufFieldData::Message(_, m) => ProtobufFieldData::Message(Vec::new(), m.duplicate()),
                    ProtobufFieldData::Unknown(_) => ProtobufFieldData::Unknown(Vec::new()),
                }
            },
            None => match self {
                ProtobufFieldData::String(_) => ProtobufFieldData::String(String::new()),
                ProtobufFieldData::Boolean(_) => ProtobufFieldData::Boolean(false),
                ProtobufFieldData::UInteger32(_) => ProtobufFieldData::UInteger32(0),
                ProtobufFieldData::Integer32(_) => ProtobufFieldData::Integer32(0),
                ProtobufFieldData::UInteger64(_) => ProtobufFieldData::UInteger64(0),
                ProtobufFieldData::Integer64(_) => ProtobufFieldData::Integer64(0),
                ProtobufFieldData::Float(_) => ProtobufFieldData::Float(0),
                ProtobufFieldData::Double(_) => ProtobufFieldData::Double(0),
                ProtobufFieldData::Bytes(_) => ProtobufFieldData::Bytes(Vec::new()),
                ProtobufFieldData::Enum(_, e) => ProtobufFieldData::Enum(0, e.duplicate()),
                ProtobufFieldData::Message(_, m) => ProtobufFieldData::Message(Vec::new(), m.duplicate()),
                ProtobufFieldData::Unknown(_) => ProtobufFieldData::Unknown(Vec::new()),
            },
        }
    }

    /// The value of unsigned 64 bit integer data.
    pub fn as_u64(&self) -> (r: Option<u64>)
        ensures
            r == (match self@ {
                FieldDataView::UInteger64(n) => Some(n),
                _ => None,
            }),
    {
        match self {
            ProtobufFieldData::UInteger64(n) => Some(*n),
            _ => None,
        }
    }

    /// The value of unsigned 32 bit integer data.
    pub fn as_u32(&self) -> (r: Option<u32>)
        ensures
            r == (match self@ {
                FieldDataView::UInteger32(n) => Some(n),
                _ => None,
            }),
    {
        match self {
            ProtobufFieldData::UInteger32(n) => Some(*n),
            _ => None,
        }
    }

    /// The value of signed 64 bit integer data.
    pub fn as_i64(&self) -> (r: Option<i64>)
        ensures
            r == (match self@ {
                FieldDataView::Integer64(n) => Some(n),
                _ => None,
            }),
    {
        match self {
            ProtobufFieldData::Integer64(n) => Some(*n),
            _ => None,
        }
    }

    /// The value of signed 32 bit integer data.
    pub fn as_i32(&self) -> (r: Option<i32>)
        ensures
            r == (match self@ {
                FieldDataView::Integer32(n) => Some(n),
                _ => None,
            }),
    {
        match self {
            ProtobufFieldData::Integer32(n) => Some(*n),
            _ => None,
        }
    }

    /// The bit pattern of 64 bit floating point data.
    pub fn double_bits(&self) -> (r: Option<u64>)
        ensures
            r == (match self@ {
                FieldDataView::Double(n) => Some(n),
                _ => None,
            }),
    {
        match self {
            ProtobufFieldData::Double(n) => Some(*n),
            _ => None,
        }
    }

    /// The bit pattern of 32 bit floating point data.
    pub fn float_bits(&self) -> (r: Option<u32>)
        ensures
            r == (match self@ {
                FieldDataView::Float(n) => Some(n),
                _ => None,
            }),
    {
        match self {
            ProtobufFieldData::Float(n) => Some(*n),
            _ => None,
        }
    }

    /// The text of string data.
    pub fn as_str(&self) -> (r: Option<&str>)
        ensures
            match self@ {
                FieldDataView::String(s) => r matches Some(x) && x@ == s,
                _ => r is None,
            },
    {
        match self {
            ProtobufFieldData::String(s) => Some(s.as_str()),
            _ => None,
        }
    }
}

// ---------------------------------------------------------------------------------------------
// Fields
// ---------------------------------------------------------------------------------------------

/// The default data of a field, from its descriptor: the default text where there is one (see
/// `spec_default_field_value` for how it is read; `fixed64` and `fixed32` fields give signed
/// values), otherwise the zero value of the type. Enum fields need their enum to be found;
/// group and message fields have no default.
pub open spec fn spec_default_field_data(
    fd: FieldDescriptorView,
    desc: MessageDescriptorView,
    files: Seq<FileDescriptorView>,
    parsed_float_bits: Option<u64>,
) -> Option<FieldDataView> {
    let t = fd.field_type();
    match fd.default_value {
        Some(s) => match t {
            FieldType::Double => Some(FieldDataView::Double(parsed_float_bits.unwrap_or(0))),
            FieldType::Float => Some(FieldDataView::Float(parsed_float_bits.unwrap_or(0) as u32)),
            FieldType::Int64 | FieldType::Fixed64 | FieldType::Sfixed64 | FieldType::Sint64 =>
                Some(FieldDataView::Integer64(spec_parse_i64(s).unwrap_or(0))),
            FieldType::Uint64 => Some(FieldDataView::UInteger64(spec_parse_u64(s).unwrap_or(0))),
            FieldType::Int32 | FieldType::Fixed32 | FieldType::Sfixed32 | FieldType::Sint32 =>
                Some(FieldDataView::Integer32(spec_parse_i32(s).unwrap_or(0))),
            FieldType::Uint32 => Some(FieldDataView::UInteger32(spec_parse_u32(s).unwrap_or(0))),
            FieldType::Bool => Some(FieldDataView::Boolean(s == true_text())),
            FieldType::String => Some(FieldDataView::String(s)),
            FieldType::Bytes => Some(FieldDataView::Bytes(encode_utf8(s))),
            FieldType::Enum => match spec_lookup_enum(desc, files, fd) {
                Some(e) => Some(FieldDataView::Enum(spec_parse_i32(s).unwrap_or(0), e)),
                None => None,
            },
            _ => None,
        },
        None => match t {
            FieldType::Double => Some(FieldDataView::Double(0)),
            FieldType::Float => Some(FieldDataView::Float(0)),
            FieldType::Int64 | FieldType::Fixed64 | FieldType::Sfixed64 | FieldType::Sint64 =>
                Some(FieldDataView::Integer64(0)),
            FieldType::Uint64 => Some(FieldDataView::UInteger64(0)),
            FieldType::Int32 | FieldType::Fixed32 | FieldType::Sfixed32 | FieldType::Sint32 =>
                Some(FieldDataView::Integer32(0)),
            FieldType::Uint32 => Some(FieldDataView::UInteger32(0)),
            FieldType::Bool => Some(FieldDataView::Boolean(false)),
            FieldType::String => Some(FieldDataView::String(Seq::empty())),
            FieldType::Bytes => Some(FieldDataView::Bytes(Seq::empty())),
            FieldType::Enum => match spec_lookup_enum(desc, files, fd) {
                Some(e) => Some(FieldDataView::Enum(0, e)),
                None => None,
            },
            _ => None,
        },
    }
}

/// The default data of a field, from its descriptor (see `spec_default_field_data`).
pub fn default_field_data(
    field_descriptor: &FieldDescriptor,
    descriptor: &MessageDescriptor,
    descriptors: &FileDescriptorSet,
    parsed_float_bits: Option<u64>,
) -> (r: Option<ProtobufFieldData>)
    ensures
        opt_map_view(r) == spec_default_field_data(field_descriptor@, descriptor@, descriptors@, parsed_float_bits),
{
    let t = field_descriptor.field_type();
    match &field_descriptor.default_value {
        Some(s) => {
            let text = s.as_str();
            match t {
                FieldType::Double => Some(ProtobufFieldData::Double(parsed_float_bits.unwrap_or(0))),
                FieldType::Float => Some(ProtobufFieldData::Float(parsed_float_bits.unwrap_or(0) as u32)),
                FieldType::Int64 | FieldType::Fixed64 | FieldType::Sfixed64 | FieldType::Sint64 =>
                    Some(ProtobufFieldData::Integer64(parse_i64(text).unwrap_or(0))),
                FieldType::Uint64 => Some(ProtobufFieldData::UInteger64(parse_u64(text).unwrap_or(0))),
                FieldType::Int32 | FieldType::Fixed32 | FieldType::Sfixed32 | FieldType::Sint32 =>
                    Some(ProtobufFieldData::Integer32(parse_i32(text).unwrap_or(0))),
                FieldType::Uint32 => Some(ProtobufFieldData::UInteger32(parse_u32(text).unwrap_or(0))),
                FieldType::Bool => Some(ProtobufFieldData::Boolean(is_true_text(text))),
                FieldType::String => Some(ProtobufFieldData::String(s.clone())),
                FieldType::Bytes => Some(ProtobufFieldData::Bytes(slice_to_vec(text.as_bytes()))),
                FieldType::Enum => match lookup_enum(descriptor, descriptors, field_descriptor) {
                    Some(e) => Some(ProtobufFieldData::Enum(parse_i32(text).unwrap_or(0), e)),
                    None => None,
                },
                _ => None,
            }
        },
        None => match t {
            FieldType::Double => Some(ProtobufFieldData::Double(0)),
            FieldType::Float => Some(ProtobufFieldData::Float(0)),
            FieldType::Int64 | FieldType::Fixed64 | FieldType::Sfixed64 | FieldType::Sint64 =>
                Some(ProtobufFieldData::Integer64(0)),
            FieldType::Uint64 => Some(ProtobufFieldData::UInteger64(0)),
            FieldType::Int32 | FieldType::Fixed32 | FieldType::Sfixed32 | FieldType::Sint32 =>
                Some(ProtobufFieldData::Integer32(0)),
            FieldType::Uint32 => Some(ProtobufFieldData::UInteger32(0)),
            FieldType::Bool => Some(ProtobufFieldData::Boolean(false)),
            FieldType::String => Some(ProtobufFieldData::String(String::new())),
            FieldType::Bytes => Some(ProtobufFieldData::Bytes(Vec::new())),
            FieldType::Enum => match lookup_enum(descriptor, descriptors, field_descriptor) {
                Some(e) => Some(ProtobufFieldData::Enum(0, e)),
                None => None,
            },
            _ => None,
        },
    }
}

impl ProtobufField {
    /// A copy of the field.
    pub fn duplicate(&self) -> (r: ProtobufField)
        ensures
            r@ == self@,
    {
        let mut additional: Vec<ProtobufFieldData> = Vec::new();
        let mut i: usize = 0;
        while i < self.additional_data.len()
            invariant
                i <= self.additional_data@.len(),
                additional@.len() == i,
                forall|j: int| 0 <= j < i ==> #[trigger] additional@[j]@ == self.additional_data@[j]@,
            decreases self.additional_data@.len() - i,
        {
            additional.push(self.additional_data[i].duplicate());
            i = i + 1;
        }
        let r = ProtobufField {
            field_num: self.field_num,
            field_name: self.field_name.clone(),
            wire_type: self.wire_type,
            data: self.data.duplicate(),
            additional_data: additional,
            descriptor: self.descriptor.duplicate(),
        };
        assert(r@.additional_data =~= self@.additional_data);
        r
    }

    /// A copy of this field with the value replaced by the default for its type (see
    /// `ProtobufFieldData::default_field_value`) and no additional values.
    pub fn default_field_value(&self, parsed_float_bits: Option<u64>) -> (r: ProtobufField)
        ensures
            r@ == (ProtobufFieldView {
                data: spec_default_field_value(self@.data, self@.descriptor, parsed_float_bits),
                additional_data: Seq::empty(),
                ..self@
            }),
    {
        let r = ProtobufField {
            field_num: self.field_num,
            field_name: self.field_name.clone(),
            wire_type: self.wire_type,
            data: self.data.default_field_value(&self.descriptor, parsed_float_bits),
            additional_data: Vec::new(),
            descriptor: self.descriptor.duplicate(),
        };
        assert(r@.additional_data =~= Seq::<FieldDataView>::empty());
        r
    }

    /// A field with the default value of the field described by `field_descriptor`, where there
    /// is one (see `spec_default_field_data`).
    pub fn default_field(
        field_descriptor: &FieldDescriptor,
        descriptor: &MessageDescriptor,
        descriptors: &FileDescriptorSet,
        parsed_float_bits: Option<u64>,
    ) -> (r: Option<ProtobufField>)
        ensures
            match spec_default_field_data(field_descriptor@, descriptor@, descriptors@, parsed_float_bits) {
                Some(d) => r matches Some(f) && f@ == (ProtobufFieldView {
                    field_num: (match field_descriptor@.number { Some(n) => n, None => 0i32 }) as u32,
                    field_name: opt_text(field_descriptor@.name),
                    wire_type: spec_wire_type_for_type(field_descriptor@.field_type()),
                    data: d,
                    additional_data: Seq::empty(),
                    descriptor: field_descriptor@,
                }),
                None => r is None,
            },
    {
        match default_field_data(field_descriptor, descriptor, descriptors, parsed_float_bits) {
            Some(data) => {
                let num: i32 = match field_descriptor.number {
                    Some(n) => n,
                    None => 0,
                };
                let r = ProtobufField {
                    field_num: num as u32,
                    field_name: field_descriptor.name_or_empty(),
                    wire_type: field_descriptor.wire_type_for_field(),
                    data,
                    additional_data: Vec::new(),
                    descriptor: field_descriptor.duplicate(),
                };
                assert(r@.additional_data =~= Seq::<FieldDataView>::empty());
                Some(r)
            },
            None => None,
        }
    }

    /// If the field holds the default value for its type.
    pub fn is_default_value(&self) -> (r: bool)
        ensures
            r == spec_is_default_value(self@.data),
    {
        self.data.is_default_field_value()
    }

    /// If the field is a repeated field.
    pub fn repeated_field(&self) -> (r: bool)
        ensures
            r == self@.descriptor.is_repeated(),
    {
        self.descriptor.is_repeated_field()
    }

    /// A copy of this field with the given data and no additional values.
    pub fn clone_with_data(&self, data: &ProtobufFieldData) -> (r: ProtobufField)
        ensures
            r@ == (ProtobufFieldView { data: data@, additional_data: Seq::empty(), ..self@ }),
    {
        let r = ProtobufField {
            field_num: self.field_num,
            field_name: self.field_name.clone(),
            wire_type: self.wire_type,
            data: data.duplicate(),
            additional_data: Vec::new(),
            descriptor: self.descriptor.duplicate(),
        };
        assert(r@.additional_data =~= Seq::<FieldDataView>::empty());
        r
    }
}

// ---------------------------------------------------------------------------------------------
// Laws of decoding
// ---------------------------------------------------------------------------------------------

/// Fields ordered by field number.
pub open spec fn ordered_by_number(s: Seq<ProtobufFieldView>) -> bool {
    forall|i: int, j: int| 0 <= i < j < s.len() ==> s[i].field_num <= s[j].field_num
}

} // verus!
