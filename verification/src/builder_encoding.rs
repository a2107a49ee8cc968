//! Encoding a message builder to the Protobuf wire format.
//!
//! Fields are written in the order the builder holds them (ordered by field number). Scalar values
//! are converted to the type of their field first; values of repeated scalar fields are written in
//! packed form.
use vstd::prelude::*;
use vstd::bytes::{spec_u32_to_le_bytes, spec_u64_to_le_bytes, u32_to_le_bytes, u64_to_le_bytes};
use vstd::slice::slice_to_vec;
use vstd::utf8::encode_utf8;
use crate::descriptor::{
    opt_text, spec_should_be_packed_type, spec_wire_type_for_type, should_be_packed_type,
    EnumDescriptor, EnumDescriptorView, FieldDescriptor, FieldDescriptorView, FieldType,
    MessageDescriptor, MessageDescriptorView,
};
use crate::lookup::{find_field_by_name, last_name, spec_find_field_by_name, spec_last_name};
use crate::message_builder::{
    spec_as_bool, spec_as_f32_bits, spec_as_f64_bits, spec_as_i32, spec_as_i64, spec_as_str,
    spec_as_u32, spec_as_u64, EncodeError, FieldValueInner, MessageBuilder, MessageFieldValue,
    MessageFieldValueType, RType,
};
use crate::wire::{
    encode_key, encode_varint, spec_decode_varint, spec_encode_key, spec_encode_varint, spec_zigzag_encode_32,
    spec_zigzag_encode_64, zigzag_encode_32, zigzag_encode_64, WireType, MAX_TAG,
};

verus! {

// ---------------------------------------------------------------------------------------------
// The encoding, as spec functions
// ---------------------------------------------------------------------------------------------

/// A length-delimited payload: the length as a varint, then the bytes.
pub open spec fn ld(b: Seq<u8>) -> Seq<u8> {
    spec_encode_varint(b.len() as u64) + b
}

/// The bytes of two encodings one after the other; the first error where there is one.
pub open spec fn join(a: Result<Seq<u8>, EncodeError>, b: Result<Seq<u8>, EncodeError>) -> Result<Seq<u8>, EncodeError> {
    match a {
        Ok(x) => match b {
            Ok(y) => Ok(x + y),
            Err(e) => Err(e),
        },
        Err(e) => Err(e),
    }
}

/// A field number that a key can hold.
pub open spec fn is_valid_tag(n: i32) -> bool {
    1 <= n <= MAX_TAG
}

/// The field number of a descriptor, zero where it has none.
pub open spec fn number_or_zero(d: FieldDescriptorView) -> i32 {
    match d.number {
        Some(n) => n,
        None => 0,
    }
}

/// The key for `tag` before a payload; a field number out of range is an error.
pub open spec fn keyed(tag: i32, p: Result<(WireType, Seq<u8>), EncodeError>) -> Result<Seq<u8>, EncodeError> {
    match p {
        Err(e) => Err(e),
        Ok((wt, b)) => if is_valid_tag(tag) {
            Ok(spec_encode_key(tag as u32, wt) + b)
        } else {
            Err(EncodeError::InvalidTag)
        },
    }
}

/// The bytes of a numeric or boolean value converted to type `t` (without the key).
pub open spec fn spec_scalar_bytes(t: FieldType, r: RType) -> Result<Seq<u8>, EncodeError> {
    match t {
        FieldType::Double => match spec_as_f64_bits(r) {
            Ok(v) => Ok(spec_u64_to_le_bytes(v)),
            Err(e) => Err(e),
        },
        FieldType::Float => match spec_as_f32_bits(r) {
            Ok(v) => Ok(spec_u32_to_le_bytes(v)),
            Err(e) => Err(e),
        },
        FieldType::Int64 => match spec_as_i64(r) {
            Ok(v) => Ok(spec_encode_varint(v as u64)),
            Err(e) => Err(e),
        },
        FieldType::Sfixed64 => match spec_as_i64(r) {
            Ok(v) => Ok(spec_u64_to_le_bytes(v as u64)),
            Err(e) => Err(e),
        },
        FieldType::Sint64 => match spec_as_i64(r) {
            Ok(v) => Ok(spec_encode_varint(spec_zigzag_encode_64(v))),
            Err(e) => Err(e),
        },
        FieldType::Uint64 => match spec_as_u64(r) {
            Ok(v) => Ok(spec_encode_varint(v)),
            Err(e) => Err(e),
        },
        FieldType::Fixed64 => match spec_as_u64(r) {
            Ok(v) => Ok(spec_u64_to_le_bytes(v)),
            Err(e) => Err(e),
        },
        FieldType::Int32 => match spec_as_i32(r) {
            Ok(v) => Ok(spec_encode_varint(v as u64)),
            Err(e) => Err(e),
        },
        FieldType::Sfixed32 => match spec_as_i32(r) {
            Ok(v) => Ok(spec_u32_to_le_bytes(v as u32)),
            Err(e) => Err(e),
        },
        FieldType::Sint32 => match spec_as_i32(r) {
            Ok(v) => Ok(spec_encode_varint(spec_zigzag_encode_32(v))),
            Err(e) => Err(e),
        },
        FieldType::Uint32 => match spec_as_u32(r) {
            Ok(v) => Ok(spec_encode_varint(v as u64)),
            Err(e) => Err(e),
        },
        FieldType::Fixed32 => match spec_as_u32(r) {
            Ok(v) => Ok(spec_u32_to_le_bytes(v)),
            Err(e) => Err(e),
        },
        FieldType::Bool => match spec_as_bool(r) {
            Ok(b) => Ok(spec_encode_varint(if b { 1 } else { 0 })),
            Err(e) => Err(e),
        },
        _ => Err(EncodeError::UnsupportedType),
    }
}

/// The number a varint written for a value of a field's own type carries, as Protobuf defines
/// it: an `int32` or `int64` value as a 64 bit two's complement number (so a negative `int32`
/// takes ten bytes), a `sint` value zig-zag coded (twice a non-negative value, one less than
/// twice the magnitude of a negative one), an unsigned value itself, a boolean 1 or 0. Each is a
/// whole varint.
pub proof fn lemma_varint_numbers(i: i32, l: i64, u: u32, w: u64, b: bool)
    ensures
        spec_scalar_bytes(FieldType::Int32, RType::Integer32(i)) matches Ok(e)
            && spec_decode_varint(e) == Some(((if i >= 0 { i as int } else { i + 0x1_0000_0000_0000_0000 }) as u64, e.len()))
            && (i < 0 ==> e.len() == 10),
        spec_scalar_bytes(FieldType::Int64, RType::Integer64(l)) matches Ok(e)
            && spec_decode_varint(e) == Some(((if l >= 0 { l as int } else { l + 0x1_0000_0000_0000_0000 }) as u64, e.len())),
        spec_scalar_bytes(FieldType::Sint32, RType::Integer32(i)) matches Ok(e)
            && spec_decode_varint(e) == Some(((if i >= 0 { 2 * i } else { -2 * i - 1 }) as u64, e.len())),
        spec_scalar_bytes(FieldType::Sint64, RType::Integer64(l)) matches Ok(e)
            && spec_decode_varint(e) == Some(((if l >= 0 { 2 * l } else { -2 * l - 1 }) as u64, e.len())),
        spec_scalar_bytes(FieldType::Uint32, RType::UInteger32(u)) matches Ok(e)
            && spec_decode_varint(e) == Some((u as u64, e.len())),
        spec_scalar_bytes(FieldType::Uint64, RType::UInteger64(w)) matches Ok(e)
            && spec_decode_varint(e) == Some((w, e.len())),
        spec_scalar_bytes(FieldType::Bool, RType::Boolean(b)) matches Ok(e)
            && spec_decode_varint(e) == Some(((if b { 1u64 } else { 0u64 }), e.len())),
{
    let ii = i as u64;
    let ll = l as u64;
    assert(i >= 0 ==> ii == i) by (bit_vector)
        requires ii == i as u64;
    assert(i < 0 ==> ii == i + 0x1_0000_0000_0000_0000) by (bit_vector)
        requires ii == i as u64;
    assert(l >= 0 ==> ll == l) by (bit_vector)
        requires ll == l as u64;
    assert(l < 0 ==> ll == l + 0x1_0000_0000_0000_0000) by (bit_vector)
        requires ll == l as u64;
    crate::wire::lemma_varint_roundtrip(ii, Seq::empty());
    crate::wire::lemma_varint_roundtrip(ll, Seq::empty());
    crate::wire::lemma_varint_roundtrip(crate::wire::spec_zigzag_encode_32(i), Seq::empty());
    crate::wire::lemma_varint_roundtrip(crate::wire::spec_zigzag_encode_64(l), Seq::empty());
    crate::wire::lemma_zigzag_32_values(i, 0);
    crate::wire::lemma_zigzag_64_values(l, 0);
    crate::wire::lemma_varint_roundtrip(u as u64, Seq::empty());
    crate::wire::lemma_varint_roundtrip(w, Seq::empty());
    crate::wire::lemma_varint_roundtrip(if b { 1u64 } else { 0u64 }, Seq::empty());
    assert(spec_encode_varint(ii) + Seq::<u8>::empty() =~= spec_encode_varint(ii));
    assert(spec_encode_varint(ll) + Seq::<u8>::empty() =~= spec_encode_varint(ll));
    assert(spec_encode_varint(crate::wire::spec_zigzag_encode_32(i)) + Seq::<u8>::empty() =~= spec_encode_varint(crate::wire::spec_zigzag_encode_32(i)));
    assert(spec_encode_varint(crate::wire::spec_zigzag_encode_64(l)) + Seq::<u8>::empty() =~= spec_encode_varint(crate::wire::spec_zigzag_encode_64(l)));
    assert(spec_encode_varint(u as u64) + Seq::<u8>::empty() =~= spec_encode_varint(u as u64));
    assert(spec_encode_varint(w) + Seq::<u8>::empty() =~= spec_encode_varint(w));
    assert(spec_encode_varint(if b { 1u64 } else { 0u64 }) + Seq::<u8>::empty() =~= spec_encode_varint(if b { 1u64 } else { 0u64 }));
    if i < 0 {
        crate::wire::lemma_encode_varint_bounds(ii);
        lemma_long_varint(ii);
    }
}

/// A number of 2^63 or more takes ten bytes as a varint.
proof fn lemma_long_varint(x: u64)
    requires
        x >= 0x8000_0000_0000_0000,
    ensures
        spec_encode_varint(x).len() == 10,
{
    assert(spec_encode_varint(x).len() == 10) by {
        reveal_with_fuel(spec_encode_varint, 11);
        assert(x / 128 >= 128);
        assert(x / 128 / 128 >= 128);
        assert(x / 128 / 128 / 128 >= 128);
        assert(x / 128 / 128 / 128 / 128 >= 128);
        assert(x / 128 / 128 / 128 / 128 / 128 >= 128);
        assert(x / 128 / 128 / 128 / 128 / 128 / 128 >= 128);
        assert(x / 128 / 128 / 128 / 128 / 128 / 128 / 128 >= 128);
        assert(x / 128 / 128 / 128 / 128 / 128 / 128 / 128 / 128 >= 128);
        assert(x / 128 / 128 / 128 / 128 / 128 / 128 / 128 / 128 / 128 < 128);
    }
}

/// The bytes of the zero value of a scalar type.
pub open spec fn spec_default_bytes(t: FieldType) -> Seq<u8> {
    match spec_scalar_bytes(t, RType::Boolean(false)) {
        Ok(b) => b,
        Err(_) => Seq::empty(),
    }
}

/// A value in a packed field: a value that does not convert is written as zero, but a
/// conversion that needs floating point arithmetic (text with a fraction or an exponent, or a
/// floating point number of the other width, for a floating point field) is a
/// `FloatConversion` error, where an encoder with floating point arithmetic would convert it
/// (or write zero).
pub open spec fn spec_packed_value(t: FieldType, r: RType) -> Result<Seq<u8>, EncodeError> {
    match spec_scalar_bytes(t, r) {
        Ok(b) => Ok(b),
        Err(EncodeError::FloatConversion) => Err(EncodeError::FloatConversion),
        Err(_) => Ok(spec_default_bytes(t)),
    }
}

/// The values of a packed field, one after the other.
pub open spec fn spec_packed_values(t: FieldType, values: Seq<MessageFieldValue>) -> Result<Seq<u8>, EncodeError>
    decreases values.len(),
{
    if values.len() == 0 {
        Ok(Seq::empty())
    } else {
        join(spec_packed_values(t, values.drop_last()), spec_packed_value(t, values.last().rtype))
    }
}

/// Types that the packed form can be written for.
pub open spec fn is_packed_encodable(t: FieldType) -> bool {
    spec_should_be_packed_type(t) && t != FieldType::Enum
}

/// A repeated scalar field in packed form: the key, then the length and the values.
pub open spec fn spec_encode_packed(desc: FieldDescriptorView, t: FieldType, values: Seq<MessageFieldValue>) -> Result<Seq<u8>, EncodeError> {
    match desc.number {
        None => Err(EncodeError::MissingTag),
        Some(tag) => if !is_packed_encodable(t) {
            Err(EncodeError::NotPackable)
        } else {
            match spec_packed_values(t, values) {
                Err(e) => Err(e),
                Ok(b) => keyed(tag, Ok((WireType::LengthDelimited, ld(b)))),
            }
        },
    }
}

/// `n` copies of `b`, one after the other.
pub open spec fn spec_repeat(b: Seq<u8>, n: nat) -> Seq<u8>
    decreases n,
{
    if n == 0 {
        Seq::empty()
    } else {
        spec_repeat(b, (n - 1) as nat) + b
    }
}

/// The entries of a map field written in packed form: an entry converts to no scalar type, so
/// each is written as the zero value.
pub open spec fn spec_encode_packed_entries(desc: FieldDescriptorView, t: FieldType, count: nat) -> Result<Seq<u8>, EncodeError> {
    match desc.number {
        None => Err(EncodeError::MissingTag),
        Some(tag) => if !is_packed_encodable(t) {
            Err(EncodeError::NotPackable)
        } else {
            keyed(tag, Ok((WireType::LengthDelimited, ld(spec_repeat(spec_default_bytes(t), count)))))
        },
    }
}

/// The enum has a value with number `n`.
pub open spec fn enum_has_number(e: EnumDescriptorView, n: i32) -> bool {
    exists|k: int| 0 <= k < e.values.len() && #[trigger] e.values[k].number == Some(n)
}

/// The wire type and the bytes after the key of a single value of type `t`; `nested` is the
/// encoding of the value's embedded message, where it has one.
pub open spec fn spec_payload(
    desc: FieldDescriptorView,
    t: FieldType,
    r: RType,
    nested: Result<Seq<u8>, EncodeError>,
) -> Result<(WireType, Seq<u8>), EncodeError> {
    match t {
        FieldType::Message => match r {
            RType::Message(_) => match nested {
                Ok(b) => Ok((WireType::LengthDelimited, ld(b))),
                Err(e) => Err(e),
            },
            RType::Struct(s) => Ok((WireType::LengthDelimited, ld(s@))),
            RType::Bytes(b) => Ok((WireType::LengthDelimited, ld(spec_encode_key(1, WireType::LengthDelimited) + ld(b@)))),
            _ => Err(EncodeError::MismatchedType),
        },
        FieldType::String => match spec_as_str(r) {
            Ok(s) => Ok((WireType::LengthDelimited, ld(encode_utf8(s)))),
            Err(e) => Err(e),
        },
        FieldType::Bytes => match r {
            RType::Bytes(b) => Ok((WireType::LengthDelimited, ld(b@))),
            _ => Err(EncodeError::MismatchedType),
        },
        FieldType::Enum => match r {
            RType::Enum(n, e) => if desc.type_ref is None {
                Err(EncodeError::MissingTypeRef)
            } else if enum_has_number(e@, n) {
                Ok((WireType::Varint, spec_encode_varint(n as u64)))
            } else {
                Err(EncodeError::EnumValueNotFound)
            },
            RType::Integer32(i) => Ok((WireType::Varint, spec_encode_varint(i as u64))),
            _ => Err(EncodeError::MismatchedType),
        },
        FieldType::Group => Err(EncodeError::UnsupportedType),
        _ => match spec_scalar_bytes(t, r) {
            Ok(b) => Ok((spec_wire_type_for_type(t), b)),
            Err(e) => Err(e),
        },
    }
}

/// The payload of a map entry written as a field of type `t`: only a message field can hold it.
pub open spec fn spec_entry_payload(t: FieldType, entry: Result<Seq<u8>, EncodeError>) -> Result<(WireType, Seq<u8>), EncodeError> {
    match t {
        FieldType::Message => match entry {
            Ok(b) => Ok((WireType::LengthDelimited, ld(b))),
            Err(e) => Err(e),
        },
        FieldType::Bytes | FieldType::Enum => Err(EncodeError::MismatchedType),
        FieldType::Group => Err(EncodeError::UnsupportedType),
        _ => Err(EncodeError::NotConvertible),
    }
}

/// A map entry written as one value of the map field.
pub open spec fn spec_encode_entry(desc: FieldDescriptorView, t: FieldType, entry: Result<Seq<u8>, EncodeError>) -> Result<Seq<u8>, EncodeError> {
    match desc.number {
        None => Ok(Seq::empty()),
        Some(tag) => keyed(tag, spec_entry_payload(t, entry)),
    }
}

/// The bytes of a map entry message: its key and value fields, ordered by field number (the key
/// first where the numbers are equal).
pub open spec fn spec_entry_bytes(
    kd: FieldDescriptorView,
    vd: FieldDescriptorView,
    k: Result<Seq<u8>, EncodeError>,
    v: Result<Seq<u8>, EncodeError>,
) -> Result<Seq<u8>, EncodeError> {
    if number_or_zero(kd) <= number_or_zero(vd) {
        join(k, v)
    } else {
        join(v, k)
    }
}

/// The text "key".
pub open spec fn key_text() -> Seq<char> {
    seq!['k', 'e', 'y']
}

/// The text "value".
pub open spec fn value_text() -> Seq<char> {
    seq!['v', 'a', 'l', 'u', 'e']
}

/// The first nested message whose name (empty where it has none) is `name`.
pub open spec fn spec_find_nested_by_text(msgs: Seq<MessageDescriptorView>, name: Seq<char>) -> Option<MessageDescriptorView>
    decreases msgs.len(),
{
    if msgs.len() == 0 {
        None
    } else if opt_text(msgs[0].name) == name {
        Some(msgs[0])
    } else {
        spec_find_nested_by_text(msgs.drop_first(), name)
    }
}

/// The descriptors of the key and the value of a map field's entries, found in the message's
/// nested types by the last name of the field's type reference.
pub open spec fn spec_map_entry_fields(
    msg: MessageDescriptorView,
    desc: FieldDescriptorView,
    n_values: nat,
) -> Result<(FieldDescriptorView, FieldDescriptorView), EncodeError> {
    if n_values % 2 == 1 {
        Err(EncodeError::OddMapValues)
    } else {
        match desc.type_ref {
            None => Err(EncodeError::MissingTypeRef),
            Some(tr) => match spec_find_nested_by_text(msg.nested_types, spec_last_name(tr)) {
                None => Err(EncodeError::MapEntryNotFound),
                Some(entry) => match spec_find_field_by_name(entry.fields, key_text()) {
                    None => Err(EncodeError::MapKeyNotFound),
                    Some(kd) => match spec_find_field_by_name(entry.fields, value_text()) {
                        None => Err(EncodeError::MapValueNotFound),
                        Some(vd) => Ok((kd, vd)),
                    },
                },
            },
        }
    }
}

/// A single value of a field: nothing where the field has no number, else the key and the
/// value's payload.
pub open spec fn spec_encode_single(desc: FieldDescriptorView, t: FieldType, v: MessageFieldValue) -> Result<Seq<u8>, EncodeError>
    decreases v,
{
    match desc.number {
        None => Ok(Seq::empty()),
        Some(tag) => {
            let nested = match v.rtype {
                RType::Message(m) => if t == FieldType::Message {
                    spec_encode_message(*m)
                } else {
                    Ok(Seq::empty())
                },
                _ => Ok(Seq::empty()),
            };
            keyed(tag, spec_payload(desc, t, v.rtype, nested))
        },
    }
}

/// Each value of a repeated field written as a field of its own, in order.
pub open spec fn spec_encode_each(desc: FieldDescriptorView, t: FieldType, values: Seq<MessageFieldValue>) -> Result<Seq<u8>, EncodeError>
    decreases values,
{
    if values.len() == 0 {
        Ok(Seq::empty())
    } else {
        join(
            spec_encode_each(desc, t, values.subrange(0, values.len() - 1)),
            spec_encode_single(desc, t, values[values.len() - 1]),
        )
    }
}

/// The entries of a map field, from its values taken as key-value pairs.
pub open spec fn spec_map_pairs(
    desc: FieldDescriptorView,
    t: FieldType,
    kd: FieldDescriptorView,
    vd: FieldDescriptorView,
    values: Seq<MessageFieldValue>,
) -> Result<Seq<u8>, EncodeError>
    decreases values,
{
    if values.len() < 2 {
        Ok(Seq::empty())
    } else {
        let entry = spec_entry_bytes(
            kd,
            vd,
            spec_encode_single(kd, kd.field_type(), values[values.len() - 2]),
            spec_encode_single(vd, vd.field_type(), values[values.len() - 1]),
        );
        join(
            spec_map_pairs(desc, t, kd, vd, values.subrange(0, values.len() - 2)),
            spec_encode_entry(desc, t, entry),
        )
    }
}

/// One field of a message, as its kind (singular, repeated or map) says.
pub open spec fn spec_encode_field(msg: MessageDescriptorView, inner: FieldValueInner) -> Result<Seq<u8>, EncodeError>
    decreases inner,
{
    match inner.field_type {
        MessageFieldValueType::Normal => if inner.values@.len() > 0 {
            spec_encode_single(inner.descriptor@, inner.proto_type, inner.values@[0])
        } else {
            Ok(Seq::empty())
        },
        MessageFieldValueType::Repeated => if inner.values@.len() == 0 {
            Ok(Seq::empty())
        } else if spec_should_be_packed_type(inner.proto_type) {
            spec_encode_packed(inner.descriptor@, inner.proto_type, inner.values@)
        } else {
            spec_encode_each(inner.descriptor@, inner.proto_type, inner.values@)
        },
        MessageFieldValueType::MapField => if inner.values@.len() == 0 {
            Ok(Seq::empty())
        } else {
            match spec_map_entry_fields(msg, inner.descriptor@, inner.values@.len()) {
                Err(e) => Err(e),
                Ok((kd, vd)) => if spec_should_be_packed_type(inner.proto_type) {
                    spec_encode_packed_entries(inner.descriptor@, inner.proto_type, inner.values@.len() / 2)
                } else {
                    spec_map_pairs(inner.descriptor@, inner.proto_type, kd, vd, inner.values@)
                },
            }
        },
    }
}

/// The fields of a message, in order.
pub open spec fn spec_encode_fields(msg: MessageDescriptorView, fields: Seq<(String, FieldValueInner)>) -> Result<Seq<u8>, EncodeError>
    decreases fields,
{
    if fields.len() == 0 {
        Ok(Seq::empty())
    } else {
        join(
            spec_encode_fields(msg, fields.subrange(0, fields.len() - 1)),
            spec_encode_field(msg, fields[fields.len() - 1].1),
        )
    }
}

/// The encoding of a message builder: each of its fields, in the order it holds them.
pub open spec fn spec_encode_message(b: MessageBuilder) -> Result<Seq<u8>, EncodeError>
    decreases b,
{
    spec_encode_fields(b.descriptor@, b.fields@)
}

// ---------------------------------------------------------------------------------------------
// Lemmas: an error in a prefix is the error of the whole
// ---------------------------------------------------------------------------------------------

proof fn lemma_fields_prefix_err(msg: MessageDescriptorView, fields: Seq<(String, FieldValueInner)>, i: int, e: EncodeError)
    requires
        0 <= i <= fields.len(),
        spec_encode_fields(msg, fields.take(i)) == Err::<Seq<u8>, EncodeError>(e),
    ensures
        spec_encode_fields(msg, fields) == Err::<Seq<u8>, EncodeError>(e),
    decreases fields.len() - i,
{
    if i == fields.len() {
        assert(fields.take(i) =~= fields);
    } else {
        let next = fields.take(i + 1);
        assert(next.subrange(0, next.len() - 1) =~= fields.take(i));
        lemma_fields_prefix_err(msg, fields, i + 1, e);
    }
}

proof fn lemma_each_prefix_err(desc: FieldDescriptorView, t: FieldType, values: Seq<MessageFieldValue>, i: int, e: EncodeError)
    requires
        0 <= i <= values.len(),
        spec_encode_each(desc, t, values.take(i)) == Err::<Seq<u8>, EncodeError>(e),
    ensures
        spec_encode_each(desc, t, values) == Err::<Seq<u8>, EncodeError>(e),
    decreases values.len() - i,
{
    if i == values.len() {
        assert(values.take(i) =~= values);
    } else {
        let next = values.take(i + 1);
        assert(next.subrange(0, next.len() - 1) =~= values.take(i));
        lemma_each_prefix_err(desc, t, values, i + 1, e);
    }
}

proof fn lemma_packed_prefix_err(t: FieldType, values: Seq<MessageFieldValue>, i: int, e: EncodeError)
    requires
        0 <= i <= values.len(),
        spec_packed_values(t, values.take(i)) == Err::<Seq<u8>, EncodeError>(e),
    ensures
        spec_packed_values(t, values) == Err::<Seq<u8>, EncodeError>(e),
    decreases values.len() - i,
{
    if i == values.len() {
        assert(values.take(i) =~= values);
    } else {
        let next = values.take(i + 1);
        assert(next.drop_last() =~= values.take(i));
        lemma_packed_prefix_err(t, values, i + 1, e);
    }
}

proof fn lemma_pairs_prefix_err(
    desc: FieldDescriptorView,
    t: FieldType,
    kd: FieldDescriptorView,
    vd: FieldDescriptorView,
    values: Seq<MessageFieldValue>,
    i: int,
    e: EncodeError,
)
    requires
        0 <= i <= values.len(),
        i % 2 == 0,
        values.len() % 2 == 0,
        spec_map_pairs(desc, t, kd, vd, values.take(i)) == Err::<Seq<u8>, EncodeError>(e),
    ensures
        spec_map_pairs(desc, t, kd, vd, values) == Err::<Seq<u8>, EncodeError>(e),
    decreases values.len() - i,
{
    if i == values.len() {
        assert(values.take(i) =~= values);
    } else {
        let next = values.take(i + 2);
        assert(next.subrange(0, next.len() - 2) =~= values.take(i));
        lemma_pairs_prefix_err(desc, t, kd, vd, values, i + 2, e);
    }
}

// ---------------------------------------------------------------------------------------------
// Executable encoding
// ---------------------------------------------------------------------------------------------

/// The view of a result holding bytes.
pub open spec fn bytes_view(r: Result<Vec<u8>, EncodeError>) -> Result<Seq<u8>, EncodeError> {
    match r {
        Ok(v) => Ok(v@),
        Err(e) => Err(e),
    }
}

/// `r` is what appending the encoding `s` gives: on success the buffer went from `before` to
/// `after` by appending its bytes; on failure the same error.
pub open spec fn appended(r: Result<(), EncodeError>, s: Result<Seq<u8>, EncodeError>, before: Seq<u8>, after: Seq<u8>) -> bool {
    match s {
        Ok(b) => r is Ok && after == before + b,
        Err(e) => r == Err::<(), EncodeError>(e),
    }
}

/// Appends the length of `bytes` as a varint, then the bytes.
fn append_ld(buf: &mut Vec<u8>, bytes: Vec<u8>)
    ensures
        final(buf)@ == old(buf)@ + ld(bytes@),
{
    let mut bytes = bytes;
    encode_varint(bytes.len() as u64, buf);
    buf.append(&mut bytes);
}

/// The varint encoding of `v`.
fn varint_bytes(v: u64) -> (r: Vec<u8>)
    ensures
        r@ == spec_encode_varint(v),
{
    let mut b: Vec<u8> = Vec::new();
    encode_varint(v, &mut b);
    assert(b@ =~= spec_encode_varint(v));
    b
}

/// The bytes of a numeric or boolean value converted to type `t`.
fn scalar_bytes(t: FieldType, r: &RType) -> (res: Result<Vec<u8>, EncodeError>)
    ensures
        bytes_view(res) == spec_scalar_bytes(t, *r),
{
    match t {
        FieldType::Double => match r.as_f64_bits() {
            Ok(v) => Ok(u64_to_le_bytes(v)),
            Err(e) => Err(e),
        },
        FieldType::Float => match r.as_f32_bits() {
            Ok(v) => Ok(u32_to_le_bytes(v)),
            Err(e) => Err(e),
        },
        FieldType::Int64 => match r.as_i64() {
            Ok(v) => Ok(varint_bytes(v as u64)),
            Err(e) => Err(e),
        },
        FieldType::Sfixed64 => match r.as_i64() {
            Ok(v) => Ok(u64_to_le_bytes(v as u64)),
            Err(e) => Err(e),
        },
        FieldType::Sint64 => match r.as_i64() {
            Ok(v) => Ok(varint_bytes(zigzag_encode_64(v))),
            Err(e) => Err(e),
        },
        FieldType::Uint64 => match r.as_u64() {
            Ok(v) => Ok(varint_bytes(v)),
            Err(e) => Err(e),
        },
        FieldType::Fixed64 => match r.as_u64() {
            Ok(v) => Ok(u64_to_le_bytes(v)),
            Err(e) => Err(e),
        },
        FieldType::Int32 => match r.as_i32() {
            Ok(v) => Ok(varint_bytes(v as u64)),
            Err(e) => Err(e),
        },
        FieldType::Sfixed32 => match r.as_i32() {
            Ok(v) => Ok(u32_to_le_bytes(v as u32)),
            Err(e) => Err(e),
        },
        FieldType::Sint32 => match r.as_i32() {
            Ok(v) => Ok(varint_bytes(zigzag_encode_32(v))),
            Err(e) => Err(e),
        },
        FieldType::Uint32 => match r.as_u32() {
            Ok(v) => Ok(varint_bytes(v as u64)),
            Err(e) => Err(e),
        },
        FieldType::Fixed32 => match r.as_u32() {
            Ok(v) => Ok(u32_to_le_bytes(v)),
            Err(e) => Err(e),
        },
        FieldType::Bool => match r.as_bool() {
            Ok(b) => Ok(varint_bytes(if b { 1 } else { 0 })),
            Err(e) => Err(e),
        },
        _ => Err(EncodeError::UnsupportedType),
    }
}

/// The bytes of a value in a packed field.
fn packed_value(t: FieldType, r: &RType) -> (res: Result<Vec<u8>, EncodeError>)
    ensures
        bytes_view(res) == spec_packed_value(t, *r),
{
    match scalar_bytes(t, r) {
        Ok(b) => Ok(b),
        Err(EncodeError::FloatConversion) => Err(EncodeError::FloatConversion),
        Err(_) => match scalar_bytes(t, &RType::Boolean(false)) {
            Ok(b) => Ok(b),
            Err(_) => Ok(Vec::new()),
        },
    }
}

/// Writes the values of a repeated scalar field in packed form.
fn encode_packed(desc: &FieldDescriptor, t: FieldType, values: &Vec<MessageFieldValue>, buf: &mut Vec<u8>) -> (r: Result<(), EncodeError>)
    ensures
        appended(r, spec_encode_packed(desc@, t, values@), old(buf)@, final(buf)@),
{
    let tag = match desc.number {
        None => {
            return Err(EncodeError::MissingTag);
        },
        Some(tag) => tag,
    };
    if !should_be_packed_type(t) || t == FieldType::Enum {
        return Err(EncodeError::NotPackable);
    }
    let mut body: Vec<u8> = Vec::new();
    let mut i: usize = 0;
    assert(values@.take(0) =~= Seq::<MessageFieldValue>::empty());
    while i < values.len()
        invariant
            i <= values@.len(),
            desc.number == Some(tag),
            is_packed_encodable(t),
            spec_packed_values(t, values@.take(i as int)) == Ok::<Seq<u8>, EncodeError>(body@),
        decreases values@.len() - i,
    {
        let r = packed_value(t, &values[i].rtype);
        assert(values@.take(i + 1).drop_last() =~= values@.take(i as int));
        assert(values@.take(i + 1).last() == values@[i as int]);
        match r {
            Ok(b) => {
                let mut b = b;
                body.append(&mut b);
            },
            Err(e) => {
                proof {
                    lemma_packed_prefix_err(t, values@, i + 1, e);
                }
                return Err(e);
            },
        }
        i = i + 1;
    }
    assert(values@.take(values@.len() as int) =~= values@);
    if 1 <= tag && tag <= 536870911 {
        let ghost before = buf@;
        encode_key(tag as u32, WireType::LengthDelimited, buf);
        append_ld(buf, body);
        assert(buf@ =~= before + (spec_encode_key(tag as u32, WireType::LengthDelimited) + ld(body@)));
        Ok(())
    } else {
        Err(EncodeError::InvalidTag)
    }
}

/// `n` copies of `b`.
fn repeat_bytes(b: &Vec<u8>, n: usize) -> (r: Vec<u8>)
    ensures
        r@ == spec_repeat(b@, n as nat),
{
    let mut out: Vec<u8> = Vec::new();
    let mut i: usize = 0;
    while i < n
        invariant
            i <= n,
            out@ == spec_repeat(b@, i as nat),
        decreases n - i,
    {
        out.extend_from_slice(b.as_slice());
        assert(out@ =~= spec_repeat(b@, (i + 1) as nat));
        i = i + 1;
    }
    out
}

/// Writes the entries of a map field in packed form (each as the zero value of the type).
fn encode_packed_entries(desc: &FieldDescriptor, t: FieldType, count: usize, buf: &mut Vec<u8>) -> (r: Result<(), EncodeError>)
    ensures
        appended(r, spec_encode_packed_entries(desc@, t, count as nat), old(buf)@, final(buf)@),
{
    let tag = match desc.number {
        None => {
            return Err(EncodeError::MissingTag);
        },
        Some(tag) => tag,
    };
    if !should_be_packed_type(t) || t == FieldType::Enum {
        return Err(EncodeError::NotPackable);
    }
    let zero = match scalar_bytes(t, &RType::Boolean(false)) {
        Ok(b) => b,
        Err(_) => Vec::new(),
    };
    let body = repeat_bytes(&zero, count);
    if 1 <= tag && tag <= 536870911 {
        let ghost before = buf@;
        encode_key(tag as u32, WireType::LengthDelimited, buf);
        append_ld(buf, body);
        assert(buf@ =~= before + (spec_encode_key(tag as u32, WireType::LengthDelimited) + ld(body@)));
        Ok(())
    } else {
        Err(EncodeError::InvalidTag)
    }
}

/// If the enum has a value with number `n`.
fn has_enum_number(e: &EnumDescriptor, n: i32) -> (r: bool)
    ensures
        r == enum_has_number(e@, n),
{
    let mut i: usize = 0;
    while i < e.values.len()
        invariant
            i <= e.values@.len(),
            forall|k: int| 0 <= k < i ==> e@.values[k].number != Some(n),
        decreases e.values@.len() - i,
    {
        assert(e@.values[i as int] == e.values@[i as int]@);
        if e.values[i].number == Some(n) {
            return true;
        }
        i = i + 1;
    }
    false
}

/// The wire type and the bytes after the key of a single value of type `t`.
fn payload(desc: &FieldDescriptor, t: FieldType, r: &RType, nested: Result<Vec<u8>, EncodeError>) -> (res: Result<(WireType, Vec<u8>), EncodeError>)
    ensures
        match spec_payload(desc@, t, *r, bytes_view(nested)) {
            Ok((wt, b)) => (res matches Ok((w, v)) && w == wt && v@ == b),
            Err(e) => res == Err::<(WireType, Vec<u8>), EncodeError>(e),
        },
{
    match t {
        FieldType::Message => match r {
            RType::Message(_) => match nested {
                Ok(b) => {
                    let mut out: Vec<u8> = Vec::new();
                    append_ld(&mut out, b);
                    Ok((WireType::LengthDelimited, out))
                },
                Err(e) => Err(e),
            },
            RType::Struct(s) => {
                let mut out: Vec<u8> = Vec::new();
                append_ld(&mut out, slice_to_vec(s.as_slice()));
                Ok((WireType::LengthDelimited, out))
            },
            RType::Bytes(b) => {
                let mut inner: Vec<u8> = Vec::new();
                encode_key(1, WireType::LengthDelimited, &mut inner);
                append_ld(&mut inner, slice_to_vec(b.as_slice()));
                let mut out: Vec<u8> = Vec::new();
                append_ld(&mut out, inner);
                Ok((WireType::LengthDelimited, out))
            },
            _ => Err(EncodeError::MismatchedType),
        },
        FieldType::String => match r.as_str() {
            Ok(s) => {
                let mut out: Vec<u8> = Vec::new();
                append_ld(&mut out, slice_to_vec(s.as_str().as_bytes()));
                Ok((WireType::LengthDelimited, out))
            },
            Err(e) => Err(e),
        },
        FieldType::Bytes => match r {
            RType::Bytes(b) => {
                let mut out: Vec<u8> = Vec::new();
                append_ld(&mut out, slice_to_vec(b.as_slice()));
                Ok((WireType::LengthDelimited, out))
            },
            _ => Err(EncodeError::MismatchedType),
        },
        FieldType::Enum => match r {
            RType::Enum(n, e) => if desc.type_ref.is_none() {
                Err(EncodeError::MissingTypeRef)
            } else if has_enum_number(e, *n) {
                Ok((WireType::Varint, varint_bytes(*n as u64)))
            } else {
                Err(EncodeError::EnumValueNotFound)
            },
            RType::Integer32(i) => Ok((WireType::Varint, varint_bytes(*i as u64))),
            _ => Err(EncodeError::MismatchedType),
        },
        FieldType::Group => Err(EncodeError::UnsupportedType),
        _ => match scalar_bytes(t, r) {
            Ok(b) => Ok((wire_type_of(t), b)),
            Err(e) => Err(e),
        },
    }
}

/// The wire type values of a field type are written with.
fn wire_type_of(t: FieldType) -> (r: WireType)
    ensures
        r == spec_wire_type_for_type(t),
{
    match t {
        FieldType::Double | FieldType::Fixed64 | FieldType::Sfixed64 => WireType::SixtyFourBit,
        FieldType::Float | FieldType::Fixed32 | FieldType::Sfixed32 => WireType::ThirtyTwoBit,
        FieldType::Int64 | FieldType::Uint64 | FieldType::Int32 | FieldType::Bool
        | FieldType::Uint32 | FieldType::Enum | FieldType::Sint32 | FieldType::Sint64 => WireType::Varint,
        _ => WireType::LengthDelimited,
    }
}

/// The first nested message whose name (empty where it has none) is `name`.
fn find_nested_by_text<'a>(msgs: &'a Vec<MessageDescriptor>, name: &str) -> (r: Option<&'a MessageDescriptor>)
    ensures
        match spec_find_nested_by_text(msgs@.map_values(|m: MessageDescriptor| m@), name@) {
            Some(d) => (r matches Some(m) && m@ == d),
            None => r is None,
        },
{
    let ghost views = msgs@.map_values(|m: MessageDescriptor| m@);
    let target = String::from_str(name);
    let empty = name.unicode_len() == 0;
    let mut i: usize = 0;
    assert(views.skip(0) =~= views);
    while i < msgs.len()
        invariant
            views == msgs@.map_values(|m: MessageDescriptor| m@),
            target@ == name@,
            empty == (name@.len() == 0),
            i <= views.len(),
            spec_find_nested_by_text(views, name@) == spec_find_nested_by_text(views.skip(i as int), name@),
        decreases views.len() - i,
    {
        assert(views.skip(i as int)[0] == msgs@[i as int]@);
        let m = &msgs[i];
        let matches = match &m.name {
            Some(n) => *n == target,
            None => empty,
        };
        proof {
            if m.name is None && empty {
                assert(name@ =~= Seq::<char>::empty());
            }
        }
        if matches {
            return Some(m);
        }
        assert(views.skip(i as int).drop_first() =~= views.skip(i + 1));
        i = i + 1;
    }
    None
}

/// Finds the descriptors of the key and the value of a map field's entries.
fn map_entry_fields(msg: &MessageDescriptor, desc: &FieldDescriptor, n_values: usize)
    -> (r: Result<(FieldDescriptor, FieldDescriptor), EncodeError>)
    ensures
        match spec_map_entry_fields(msg@, desc@, n_values as nat) {
            Ok((kd, vd)) => (r matches Ok((k, v)) && k@ == kd && v@ == vd),
            Err(e) => r == Err::<(FieldDescriptor, FieldDescriptor), EncodeError>(e),
        },
{
    if n_values % 2 == 1 {
        return Err(EncodeError::OddMapValues);
    }
    let type_ref = match &desc.type_ref {
        None => {
            return Err(EncodeError::MissingTypeRef);
        },
        Some(tr) => tr,
    };
    let entry_name = last_name(type_ref.as_str());
    assert(msg@.nested_types =~= msg.nested_types@.map_values(|m: MessageDescriptor| m@));
    let entry = match find_nested_by_text(&msg.nested_types, entry_name) {
        None => {
            return Err(EncodeError::MapEntryNotFound);
        },
        Some(e) => e,
    };
    assert(entry@.fields == entry.fields@.map_values(|f: FieldDescriptor| f@));
    let key = find_field_by_name(&entry.fields, "key");
    proof {
        reveal_strlit("key");
        assert("key"@ =~= key_text());
    }
    let key = match key {
        None => {
            return Err(EncodeError::MapKeyNotFound);
        },
        Some(k) => k,
    };
    let value = find_field_by_name(&entry.fields, "value");
    proof {
        reveal_strlit("value");
        assert("value"@ =~= value_text());
    }
    match value {
        None => Err(EncodeError::MapValueNotFound),
        Some(v) => Ok((key, v)),
    }
}

/// The view of a payload result.
pub open spec fn payload_view(p: Result<(WireType, Vec<u8>), EncodeError>) -> Result<(WireType, Seq<u8>), EncodeError> {
    match p {
        Ok((wt, b)) => Ok((wt, b@)),
        Err(e) => Err(e),
    }
}

/// Writes the key for `tag` and then the payload.
fn write_keyed(tag: i32, p: Result<(WireType, Vec<u8>), EncodeError>, buf: &mut Vec<u8>) -> (r: Result<(), EncodeError>)
    ensures
        appended(r, keyed(tag, payload_view(p)), old(buf)@, final(buf)@),
{
    match p {
        Err(e) => Err(e),
        Ok((wt, bytes)) => if 1 <= tag && tag <= 536870911 {
            let ghost before = buf@;
            let ghost b = bytes@;
            encode_key(tag as u32, wt, buf);
            let mut bytes = bytes;
            buf.append(&mut bytes);
            assert(buf@ =~= before + (spec_encode_key(tag as u32, wt) + b));
            Ok(())
        } else {
            Err(EncodeError::InvalidTag)
        },
    }
}

/// Writes a single value of a field: nothing where the field has no number, else the key and the
/// value converted to type `t`.
fn encode_single(desc: &FieldDescriptor, t: FieldType, v: &MessageFieldValue, buf: &mut Vec<u8>) -> (r: Result<(), EncodeError>)
    ensures
        appended(r, spec_encode_single(desc@, t, *v), old(buf)@, final(buf)@),
    decreases v, 2nat,
{
    let tag = match desc.number {
        None => {
            return Ok(());
        },
        Some(tag) => tag,
    };
    let nested: Result<Vec<u8>, EncodeError> = match &v.rtype {
        RType::Message(m) => if t == FieldType::Message {
            m.encode_message()
        } else {
            Ok(Vec::new())
        },
        _ => Ok(Vec::new()),
    };
    let p = payload(desc, t, &v.rtype, nested);
    write_keyed(tag, p, buf)
}

/// Writes one field of a message, as its kind (singular, repeated or map) says.
fn encode_field(msg: &MessageDescriptor, inner: &FieldValueInner, buf: &mut Vec<u8>) -> (r: Result<(), EncodeError>)
    ensures
        appended(r, spec_encode_field(msg@, *inner), old(buf)@, final(buf)@),
    decreases inner, 2nat,
{
    let t = inner.proto_type;
    let values = &inner.values;
    match inner.field_type {
        MessageFieldValueType::Normal => if values.len() > 0 {
            encode_single(&inner.descriptor, t, &values[0], buf)
        } else {
            Ok(())
        },
        MessageFieldValueType::Repeated => if values.len() == 0 {
            Ok(())
        } else if should_be_packed_type(t) {
            encode_packed(&inner.descriptor, t, values, buf)
        } else {
            let ghost start = buf@;
            let mut i: usize = 0;
            assert(values@.take(0) =~= Seq::<MessageFieldValue>::empty());
            assert(start + Seq::<u8>::empty() =~= start);
            while i < values.len()
                invariant
                    i <= values@.len(),
                    values == &inner.values,
                    t == inner.proto_type,
                    inner.field_type == MessageFieldValueType::Repeated,
                    values@.len() > 0,
                    !spec_should_be_packed_type(t),
                    match spec_encode_each(inner.descriptor@, t, values@.take(i as int)) {
                        Ok(b) => buf@ == start + b,
                        Err(_) => false,
                    },
                decreases values@.len() - i,
            {
                let ghost mid = buf@;
                let ghost done = spec_encode_each(inner.descriptor@, t, values@.take(i as int));
                let r = encode_single(&inner.descriptor, t, &values[i], buf);
                let ghost next = values@.take(i + 1);
                assert(next.subrange(0, next.len() - 1) =~= values@.take(i as int));
                assert(next[next.len() - 1] == values@[i as int]);
                match r {
                    Err(e) => {
                        proof {
                            lemma_each_prefix_err(inner.descriptor@, t, values@, i + 1, e);
                        }
                        return Err(e);
                    },
                    Ok(()) => {
                        proof {
                            let bi = spec_encode_single(inner.descriptor@, t, values@[i as int])->Ok_0;
                            assert(buf@ =~= start + (done->Ok_0 + bi));
                        }
                    },
                }
                i = i + 1;
            }
            assert(values@.take(values@.len() as int) =~= values@);
            Ok(())
        },
        MessageFieldValueType::MapField => if values.len() == 0 {
            Ok(())
        } else {
            let (kd, vd) = match map_entry_fields(msg, &inner.descriptor, values.len()) {
                Err(e) => {
                    return Err(e);
                },
                Ok(x) => x,
            };
            if should_be_packed_type(t) {
                encode_packed_entries(&inner.descriptor, t, values.len() / 2, buf)
            } else {
                encode_map_pairs(inner, &kd, &vd, buf)
            }
        },
    }
}

/// The number of a field descriptor, zero where it has none.
fn number_of(d: &FieldDescriptor) -> (r: i32)
    ensures
        r == number_or_zero(d@),
{
    match d.number {
        Some(n) => n,
        None => 0,
    }
}

/// The payload of the map entry made of the values at `i` and `i + 1`, written as a field of the
/// map field's type.
fn entry_payload(inner: &FieldValueInner, kd: &FieldDescriptor, vd: &FieldDescriptor, i: usize)
    -> (r: Result<(WireType, Vec<u8>), EncodeError>)
    requires
        i + 1 < inner.values@.len(),
    ensures
        payload_view(r) == spec_entry_payload(
            inner.proto_type,
            spec_entry_bytes(
                kd@,
                vd@,
                spec_encode_single(kd@, kd@.field_type(), inner.values@[i as int]),
                spec_encode_single(vd@, vd@.field_type(), inner.values@[i + 1]),
            ),
        ),
    decreases inner, 0nat,
{
    let t = inner.proto_type;
    let n = inner.values.len();
    let j: usize = i + 1;
    if t == FieldType::Message {
        let ghost ks = spec_encode_single(kd@, kd@.field_type(), inner.values@[i as int]);
        let ghost vs = spec_encode_single(vd@, vd@.field_type(), inner.values@[i + 1]);
        let mut e: Vec<u8> = Vec::new();
        let key_first = number_of(kd) <= number_of(vd);
        let first = if key_first {
            encode_single(kd, kd.field_type(), &inner.values[i], &mut e)
        } else {
            encode_single(vd, vd.field_type(), &inner.values[j], &mut e)
        };
        if let Err(err) = first {
            return Err(err);
        }
        let second = if key_first {
            encode_single(vd, vd.field_type(), &inner.values[j], &mut e)
        } else {
            encode_single(kd, kd.field_type(), &inner.values[i], &mut e)
        };
        if let Err(err) = second {
            return Err(err);
        }
        proof {
            if key_first {
                assert(e@ =~= ks->Ok_0 + vs->Ok_0);
            } else {
                assert(e@ =~= vs->Ok_0 + ks->Ok_0);
            }
        }
        let mut out: Vec<u8> = Vec::new();
        append_ld(&mut out, e);
        Ok((WireType::LengthDelimited, out))
    } else if t == FieldType::Bytes || t == FieldType::Enum {
        Err(EncodeError::MismatchedType)
    } else if t == FieldType::Group {
        Err(EncodeError::UnsupportedType)
    } else {
        Err(EncodeError::NotConvertible)
    }
}

/// Writes the values of a map field, taken as key-value pairs, as entry messages.
fn encode_map_pairs(inner: &FieldValueInner, kd: &FieldDescriptor, vd: &FieldDescriptor, buf: &mut Vec<u8>) -> (r: Result<(), EncodeError>)
    requires
        inner.values@.len() % 2 == 0,
    ensures
        appended(r, spec_map_pairs(inner.descriptor@, inner.proto_type, kd@, vd@, inner.values@), old(buf)@, final(buf)@),
    decreases inner, 1nat,
{
    let t = inner.proto_type;
    let values = &inner.values;
    let ghost desc = inner.descriptor@;
    let ghost start = buf@;
    let mut i: usize = 0;
    assert(values@.take(0) =~= Seq::<MessageFieldValue>::empty());
    assert(start + Seq::<u8>::empty() =~= start);
    while i < values.len()
        invariant
            i <= values@.len(),
            i % 2 == 0,
            values@.len() % 2 == 0,
            values == &inner.values,
            t == inner.proto_type,
            desc == inner.descriptor@,
            match spec_map_pairs(desc, t, kd@, vd@, values@.take(i as int)) {
                Ok(b) => buf@ == start + b,
                Err(_) => false,
            },
        decreases values@.len() - i,
    {
        let ghost mid = buf@;
        let ghost done = spec_map_pairs(desc, t, kd@, vd@, values@.take(i as int));
        let ghost next = values@.take(i + 2);
        assert(next.subrange(0, next.len() - 2) =~= values@.take(i as int));
        assert(next[next.len() - 2] == values@[i as int]);
        assert(next[next.len() - 1] == values@[i + 1]);
        let ghost ks = spec_encode_single(kd@, kd@.field_type(), values@[i as int]);
        let ghost vs = spec_encode_single(vd@, vd@.field_type(), values@[i + 1]);
        let r: Result<(), EncodeError> = match inner.descriptor.number {
            None => Ok(()),
            Some(tag) => {
                let p = entry_payload(inner, kd, vd, i);
                write_keyed(tag, p, buf)
            },
        };
        match r {
            Err(e) => {
                proof {
                    lemma_pairs_prefix_err(desc, t, kd@, vd@, values@, i + 2, e);
                }
                return Err(e);
            },
            Ok(()) => {
                proof {
                    let entry = spec_encode_entry(desc, t, spec_entry_bytes(kd@, vd@, ks, vs))->Ok_0;
                    assert(buf@ =~= start + (done->Ok_0 + entry));
                }
            },
        }
        i = i + 2;
    }
    assert(values@.take(values@.len() as int) =~= values@);
    Ok(())
}

impl MessageBuilder {
    /// Encodes the message: each of its fields in the order the builder holds them (by field
    /// number).
    pub fn encode_message(&self) -> (r: Result<Vec<u8>, EncodeError>)
        ensures
            bytes_view(r) == spec_encode_message(*self),
        decreases self, 2nat,
    {
        let mut buf: Vec<u8> = Vec::new();
        let mut i: usize = 0;
        assert(self.fields@.take(0) =~= Seq::<(String, FieldValueInner)>::empty());
        while i < self.fields.len()
            invariant
                i <= self.fields@.len(),
                spec_encode_fields(self.descriptor@, self.fields@.take(i as int)) == Ok::<Seq<u8>, EncodeError>(buf@),
            decreases self.fields@.len() - i,
        {
            let ghost mid = buf@;
            let r = encode_field(&self.descriptor, &self.fields[i].1, &mut buf);
            let ghost next = self.fields@.take(i + 1);
            assert(next.subrange(0, next.len() - 1) =~= self.fields@.take(i as int));
            assert(next[next.len() - 1] == self.fields@[i as int]);
            match r {
                Err(e) => {
                    proof {
                        lemma_fields_prefix_err(self.descriptor@, self.fields@, i + 1, e);
                    }
                    return Err(e);
                },
                Ok(()) => {},
            }
            i = i + 1;
        }
        assert(self.fields@.take(self.fields@.len() as int) =~= self.fields@);
        Ok(buf)
    }
}

} // verus!
