//! What the decoder reads back of what the builder writes.
use vstd::prelude::*;
use vstd::bytes::{lemma_auto_spec_u32_to_from_le_bytes, lemma_auto_spec_u64_to_from_le_bytes};
use crate::builder_encoding::{
    is_valid_tag, spec_encode_each, spec_encode_field, spec_encode_fields, spec_encode_message, spec_encode_single,
    spec_payload, spec_scalar_bytes,
};
use crate::descriptor::{opt_text, spec_should_be_packed_type, spec_wire_type_for_type, FieldDescriptorView, FieldType, FileDescriptorView, MessageDescriptorView};
use crate::lookup::{spec_find_field, spec_find_message_for_type, spec_find_message_named, spec_last_name};
use crate::builder_encoding::enum_has_number;
use crate::dynamic_message::{
    has_num, lemma_consolidate, lemma_find_num_found, lemma_insert_pos_bounds, spec_add_field, spec_consolidate, spec_find_num,
    spec_write_field, spec_write_payload, strictly_ordered,
};
use vstd::utf8::{encode_utf8, encode_utf8_decode_utf8, encode_utf8_valid_utf8};
use crate::message_builder::{entry_number, fields_ordered, FieldValueInner, MessageBuilder, MessageFieldValue, MessageFieldValueType, RType};
use crate::message_decoder::{
    join_fields, known_field, ordered_by_number, spec_lookup_enum, spec_decode_field, spec_decode_fields, spec_decode_message, spec_insert_pos,
    FieldDataView, ProtobufFieldView,
};
use crate::wire::{
    lemma_key_roundtrip, lemma_varint_roundtrip, lemma_zigzag_32_roundtrip, lemma_zigzag_64_roundtrip,
    spec_decode_varint, spec_encode_key, spec_encode_varint, DecodingError, WireType,
};

verus! {

/// The field data that a value of a field's own type is read back as (none where the value is
/// not of the field's type, or the type is an enum, message or group type).
pub open spec fn same_type_data(t: FieldType, r: RType) -> Option<FieldDataView> {
    match t {
        FieldType::Uint64 | FieldType::Fixed64 => match r {
            RType::UInteger64(x) => Some(FieldDataView::UInteger64(x)),
            _ => None,
        },
        FieldType::Int64 | FieldType::Sint64 | FieldType::Sfixed64 => match r {
            RType::Integer64(x) => Some(FieldDataView::Integer64(x)),
            _ => None,
        },
        FieldType::Uint32 | FieldType::Fixed32 => match r {
            RType::UInteger32(x) => Some(FieldDataView::UInteger32(x)),
            _ => None,
        },
        FieldType::Int32 | FieldType::Sint32 | FieldType::Sfixed32 => match r {
            RType::Integer32(x) => Some(FieldDataView::Integer32(x)),
            _ => None,
        },
        FieldType::Bool => match r {
            RType::Boolean(b) => Some(FieldDataView::Boolean(b)),
            _ => None,
        },
        FieldType::Double => match r {
            RType::Double(bits) => Some(FieldDataView::Double(bits)),
            _ => None,
        },
        FieldType::Float => match r {
            RType::Float(bits) => Some(FieldDataView::Float(bits)),
            _ => None,
        },
        FieldType::String => match r {
            RType::String(s) => Some(FieldDataView::String(s@)),
            _ => None,
        },
        FieldType::Bytes => match r {
            RType::Bytes(b) => Some(FieldDataView::Bytes(b@)),
            _ => None,
        },
        _ => None,
    }
}

/// A value whose length, where it is written length-delimited, a varint can hold.
pub open spec fn value_fits(r: RType) -> bool {
    &&& r matches RType::String(s) ==> encode_utf8(s@).len() <= u64::MAX
    &&& r matches RType::Bytes(b) ==> b@.len() <= u64::MAX
}

/// The number of an enum value: an enum value's own number, or an integer given for it.
pub open spec fn enum_number(r: RType) -> Option<i32> {
    match r {
        RType::Enum(n, _) => Some(n),
        RType::Integer32(i) => Some(i),
        _ => None,
    }
}

/// A value that an enum field can be written with: an integer, or a value that its enum declares
/// (for a field that names its enum type).
pub open spec fn enum_encodable(fd: FieldDescriptorView, r: RType) -> bool {
    match r {
        RType::Enum(n, e) => fd.type_ref is Some && enum_has_number(e@, n),
        RType::Integer32(_) => true,
        _ => false,
    }
}

/// The message type that the decoder finds for a message field: by the field's type reference
/// among all the files, else among the message's nested types by its last component.
pub open spec fn found_message(fd: FieldDescriptorView, desc: MessageDescriptorView, files: Seq<FileDescriptorView>) -> Option<MessageDescriptorView> {
    let name = opt_text(fd.type_ref);
    match spec_find_message_for_type(files, name) {
        Some(m) => Some(m),
        None => spec_find_message_named(desc.nested_types, spec_last_name(name)),
    }
}

/// The payload of a value written as an embedded message: the encoding of an embedded message
/// builder, the encoded form of a `Struct`, or bytes wrapped as the value of a `BytesValue`.
pub open spec fn message_payload(r: RType) -> Result<Seq<u8>, crate::message_builder::EncodeError> {
    match r {
        RType::Message(m) => spec_encode_message(*m),
        RType::Struct(s) => Ok(s@),
        RType::Bytes(b) => Ok(spec_encode_key(1, WireType::LengthDelimited) + crate::builder_encoding::ld(b@)),
        _ => Err(crate::message_builder::EncodeError::MismatchedType),
    }
}

/// A value of a singular field that is read back as written: an enum value the field's enum can
/// be found for, an embedded message (which encodes, with a length that fits a varint) whose type
/// can be found, or a value of the field's own type (whose length fits a varint).
pub open spec fn reads_back_value(fd: FieldDescriptorView, desc: MessageDescriptorView, files: Seq<FileDescriptorView>, r: RType) -> bool {
    if fd.field_type() == FieldType::Enum {
        enum_encodable(fd, r) && spec_lookup_enum(desc, files, fd) is Some
    } else if fd.field_type() == FieldType::Message {
        &&& message_payload(r) is Ok
        &&& message_payload(r)->Ok_0.len() <= u64::MAX
        &&& found_message(fd, desc, files) is Some
    } else {
        same_type_data(fd.field_type(), r) is Some && value_fits(r)
    }
}

/// The data a value of a singular field is read back as: for an enum field, the value's number
/// with the enum that the decoder finds for the field; for a message field, the payload with the
/// message type the decoder finds.
pub open spec fn value_data(fd: FieldDescriptorView, desc: MessageDescriptorView, files: Seq<FileDescriptorView>, r: RType) -> FieldDataView {
    if fd.field_type() == FieldType::Enum {
        FieldDataView::Enum(enum_number(r)->0, spec_lookup_enum(desc, files, fd)->0)
    } else if fd.field_type() == FieldType::Message {
        FieldDataView::Message(message_payload(r)->Ok_0, found_message(fd, desc, files)->0)
    } else {
        same_type_data(fd.field_type(), r)->0
    }
}

/// The decoded field of a value written for field `fd` and read back.
pub open spec fn read_back(fd: FieldDescriptorView, d: FieldDataView) -> ProtobufFieldView {
    known_field(fd.number->0 as u32, fd, (d, spec_wire_type_for_type(fd.field_type())))
}

proof fn lemma_casts()
    ensures
        forall|x: i64| #[trigger] ((x as u64) as i64) == x,
        forall|x: i32| #[trigger] ((x as u64) as i32) == x,
        forall|x: u32| #[trigger] ((x as u64) as u32) == x,
        forall|x: i32| #[trigger] ((x as u32) as i32) == x,
{
    assert forall|x: i64| #[trigger] ((x as u64) as i64) == x by {
        assert(((x as u64) as i64) == x) by (bit_vector);
    }
    assert forall|x: i32| #[trigger] ((x as u64) as i32) == x by {
        assert(((x as u64) as i32) == x) by (bit_vector);
    }
    assert forall|x: u32| #[trigger] ((x as u64) as u32) == x by {
        assert(((x as u64) as u32) == x) by (bit_vector);
    }
    assert forall|x: i32| #[trigger] ((x as u32) as i32) == x by {
        assert(((x as u32) as i32) == x) by (bit_vector);
    }
}

/// A field whose value reads as `d` from payload `p`, written with its key, is read back as
/// that one field.
proof fn lemma_decode_one(
    fd: FieldDescriptorView,
    desc: MessageDescriptorView,
    files: Seq<FileDescriptorView>,
    wt: WireType,
    p: Seq<u8>,
    rest: Seq<u8>,
    d: FieldDataView,
)
    requires
        fd.number is Some,
        is_valid_tag(fd.number->0),
        spec_find_field(desc.fields, fd.number->0) == Some(fd),
        crate::message_decoder::spec_known_field_values(fd, desc, files, fd.number->0 as u32, wt, p + rest)
            == Ok::<(Seq<(FieldDataView, WireType)>, nat), DecodingError>((seq![(d, wt)], p.len())),
    ensures
        spec_decode_field((spec_encode_key(fd.number->0 as u32, wt) + p) + rest, desc, files) == Ok::<
            (Seq<ProtobufFieldView>, nat),
            DecodingError,
        >((seq![known_field(fd.number->0 as u32, fd, (d, wt))], (spec_encode_key(fd.number->0 as u32, wt) + p).len())),
{
    let tag = fd.number->0;
    let key = spec_encode_key(tag as u32, wt);
    let s = (key + p) + rest;
    assert(s =~= key + (p + rest));
    lemma_key_roundtrip(tag as u32, wt, p + rest);
    assert(s.skip(key.len() as int) =~= p + rest);
    assert((tag as u32) as i32 == tag);
    let vals = seq![(d, wt)];
    assert(vals.map_values(|x: (FieldDataView, WireType)| known_field(tag as u32, fd, x)) =~= seq![known_field(tag as u32, fd, (d, wt))]);
}

/// A value of a field's own type (a scalar, string or bytes type), written as that field and read
/// back with a message descriptor that declares the field, gives the same value, and reading
/// takes exactly the bytes written (whatever follows them).
pub proof fn lemma_field_roundtrip(
    fd: FieldDescriptorView,
    desc: MessageDescriptorView,
    files: Seq<FileDescriptorView>,
    v: MessageFieldValue,
    rest: Seq<u8>,
)
    requires
        fd.number is Some,
        is_valid_tag(fd.number->0),
        spec_find_field(desc.fields, fd.number->0) == Some(fd),
        same_type_data(fd.field_type(), v.rtype) is Some,
        value_fits(v.rtype),
    ensures
        spec_encode_single(fd, fd.field_type(), v) is Ok,
        spec_decode_field(spec_encode_single(fd, fd.field_type(), v)->Ok_0 + rest, desc, files) == Ok::<
            (Seq<ProtobufFieldView>, nat),
            DecodingError,
        >((
            seq![read_back(fd, same_type_data(fd.field_type(), v.rtype)->0)],
            spec_encode_single(fd, fd.field_type(), v)->Ok_0.len(),
        )),
{
    let t = fd.field_type();
    let tag = fd.number->0;
    let wt = spec_wire_type_for_type(t);
    let d = same_type_data(t, v.rtype)->0;
    let p = match v.rtype {
        RType::String(s) => crate::builder_encoding::ld(encode_utf8(s@)),
        RType::Bytes(b) => crate::builder_encoding::ld(b@),
        _ => spec_scalar_bytes(t, v.rtype)->Ok_0,
    };
    lemma_casts();
    lemma_auto_spec_u64_to_from_le_bytes();
    lemma_auto_spec_u32_to_from_le_bytes();
    assert(spec_payload(fd, t, v.rtype, Ok(Seq::empty())) == Ok::<(WireType, Seq<u8>), crate::message_builder::EncodeError>((wt, p)));
    let key = spec_encode_key(tag as u32, wt);
    assert(spec_encode_single(fd, t, v) == Ok::<Seq<u8>, crate::message_builder::EncodeError>(key + p));
    match wt {
        WireType::Varint => {
            let enc = match t {
                FieldType::Uint64 => v.rtype->UInteger64_0,
                FieldType::Int64 => v.rtype->Integer64_0 as u64,
                FieldType::Sint64 => crate::wire::spec_zigzag_encode_64(v.rtype->Integer64_0),
                FieldType::Uint32 => v.rtype->UInteger32_0 as u64,
                FieldType::Int32 => v.rtype->Integer32_0 as u64,
                FieldType::Sint32 => crate::wire::spec_zigzag_encode_32(v.rtype->Integer32_0),
                _ => if v.rtype->Boolean_0 { 1u64 } else { 0u64 },
            };
            assert(p == spec_encode_varint(enc));
            lemma_varint_roundtrip(enc, rest);
            if t == FieldType::Sint32 {
                lemma_zigzag_32_roundtrip(v.rtype->Integer32_0);
            }
            if t == FieldType::Sint64 {
                lemma_zigzag_64_roundtrip(v.rtype->Integer64_0);
            }
            assert(crate::message_decoder::spec_varint_value(t, enc) == d);
        },
        WireType::SixtyFourBit => {
            assert((p + rest).take(8) =~= p);
        },
        WireType::ThirtyTwoBit => {
            assert((p + rest).take(4) =~= p);
        },
        _ => {
            let b = match v.rtype {
                RType::String(s) => encode_utf8(s@),
                RType::Bytes(b) => b@,
                _ => Seq::empty(),
            };
            lemma_ld_payload(b, rest);
            if v.rtype is String {
                encode_utf8_valid_utf8(v.rtype->String_0@);
                encode_utf8_decode_utf8(v.rtype->String_0@);
            }
        },
    }
    lemma_decode_one(fd, desc, files, wt, p, rest, d);
}

/// A value of an enum field, written and read back with a message descriptor that declares the
/// field, gives the value's number with the enum the decoder finds, and reading takes exactly the
/// bytes written (whatever follows them).
proof fn lemma_enum_field_roundtrip(
    fd: FieldDescriptorView,
    desc: MessageDescriptorView,
    files: Seq<FileDescriptorView>,
    v: MessageFieldValue,
    rest: Seq<u8>,
)
    requires
        fd.number is Some,
        is_valid_tag(fd.number->0),
        spec_find_field(desc.fields, fd.number->0) == Some(fd),
        fd.field_type() == FieldType::Enum,
        enum_encodable(fd, v.rtype),
        spec_lookup_enum(desc, files, fd) is Some,
    ensures
        spec_encode_single(fd, fd.field_type(), v) is Ok,
        spec_decode_field(spec_encode_single(fd, fd.field_type(), v)->Ok_0 + rest, desc, files) == Ok::<
            (Seq<ProtobufFieldView>, nat),
            DecodingError,
        >((
            seq![read_back(fd, value_data(fd, desc, files, v.rtype))],
            spec_encode_single(fd, fd.field_type(), v)->Ok_0.len(),
        )),
{
    let n = enum_number(v.rtype)->0;
    let enc = n as u64;
    let p = spec_encode_varint(enc);
    lemma_casts();
    assert(spec_payload(fd, FieldType::Enum, v.rtype, Ok(Seq::empty()))
        == Ok::<(WireType, Seq<u8>), crate::message_builder::EncodeError>((WireType::Varint, p)));
    lemma_varint_roundtrip(enc, rest);
    let d = value_data(fd, desc, files, v.rtype);
    assert(crate::message_decoder::spec_decode_enum(desc, files, fd, enc) == Some(d));
    lemma_decode_one(fd, desc, files, WireType::Varint, p, rest, d);
}

/// An embedded message value, written and read back with a message descriptor that declares the
/// field, gives its payload with the message type the decoder finds, and reading takes exactly the
/// bytes written (whatever follows them).
proof fn lemma_message_field_roundtrip(
    fd: FieldDescriptorView,
    desc: MessageDescriptorView,
    files: Seq<FileDescriptorView>,
    v: MessageFieldValue,
    rest: Seq<u8>,
)
    requires
        fd.number is Some,
        is_valid_tag(fd.number->0),
        spec_find_field(desc.fields, fd.number->0) == Some(fd),
        fd.field_type() == FieldType::Message,
        reads_back_value(fd, desc, files, v.rtype),
    ensures
        spec_encode_single(fd, fd.field_type(), v) is Ok,
        spec_decode_field(spec_encode_single(fd, fd.field_type(), v)->Ok_0 + rest, desc, files) == Ok::<
            (Seq<ProtobufFieldView>, nat),
            DecodingError,
        >((
            seq![read_back(fd, value_data(fd, desc, files, v.rtype))],
            spec_encode_single(fd, fd.field_type(), v)->Ok_0.len(),
        )),
{
    let b = message_payload(v.rtype)->Ok_0;
    let p = crate::builder_encoding::ld(b);
    assert(spec_payload(fd, FieldType::Message, v.rtype, match v.rtype {
        RType::Message(m) => spec_encode_message(*m),
        _ => Ok(Seq::empty()),
    }) == Ok::<(WireType, Seq<u8>), crate::message_builder::EncodeError>((WireType::LengthDelimited, p)));
    lemma_ld_payload(b, rest);
    let d = value_data(fd, desc, files, v.rtype);
    lemma_decode_one(fd, desc, files, WireType::LengthDelimited, p, rest, d);
}

/// A value that a singular field reads back as written, written as that field and read back with
/// a message descriptor that declares the field, gives its data, and reading takes exactly the
/// bytes written (whatever follows them).
proof fn lemma_value_roundtrip(
    fd: FieldDescriptorView,
    desc: MessageDescriptorView,
    files: Seq<FileDescriptorView>,
    v: MessageFieldValue,
    rest: Seq<u8>,
)
    requires
        fd.number is Some,
        is_valid_tag(fd.number->0),
        spec_find_field(desc.fields, fd.number->0) == Some(fd),
        reads_back_value(fd, desc, files, v.rtype),
    ensures
        spec_encode_single(fd, fd.field_type(), v) is Ok,
        spec_encode_single(fd, fd.field_type(), v)->Ok_0.len() > 0,
        spec_decode_field(spec_encode_single(fd, fd.field_type(), v)->Ok_0 + rest, desc, files) == Ok::<
            (Seq<ProtobufFieldView>, nat),
            DecodingError,
        >((
            seq![read_back(fd, value_data(fd, desc, files, v.rtype))],
            spec_encode_single(fd, fd.field_type(), v)->Ok_0.len(),
        )),
{
    let t = fd.field_type();
    if t == FieldType::Enum {
        lemma_enum_field_roundtrip(fd, desc, files, v, rest);
    } else if t == FieldType::Message {
        lemma_message_field_roundtrip(fd, desc, files, v, rest);
    } else {
        lemma_field_roundtrip(fd, desc, files, v, rest);
    }
    crate::wire::lemma_encode_varint_bounds((fd.number->0 as u32 * 8 + spec_wire_type_for_type(t).spec_number()) as u64);
}

/// Field data of the kind the decoder reads for a field of type `t` (sint fields, which the
/// dynamic message writes without zig-zag encoding, enums and messages are not among them).
pub open spec fn reads_back_as(t: FieldType, d: FieldDataView) -> bool {
    match d {
        FieldDataView::UInteger64(_) => t == FieldType::Uint64 || t == FieldType::Fixed64,
        FieldDataView::Integer64(_) => t == FieldType::Int64 || t == FieldType::Sfixed64,
        FieldDataView::UInteger32(_) => t == FieldType::Uint32 || t == FieldType::Fixed32,
        FieldDataView::Integer32(_) => t == FieldType::Int32 || t == FieldType::Sfixed32,
        FieldDataView::Boolean(_) => t == FieldType::Bool,
        FieldDataView::Double(_) => t == FieldType::Double,
        FieldDataView::Float(_) => t == FieldType::Float,
        FieldDataView::String(_) => t == FieldType::String,
        FieldDataView::Bytes(_) => t == FieldType::Bytes,
        _ => false,
    }
}

proof fn lemma_ld_payload(b: Seq<u8>, rest: Seq<u8>)
    requires
        b.len() <= u64::MAX,
    ensures
        spec_decode_varint(crate::builder_encoding::ld(b) + rest) == Some((b.len() as u64, spec_encode_varint(b.len() as u64).len())),
        (crate::builder_encoding::ld(b) + rest).subrange(
            spec_encode_varint(b.len() as u64).len() as int,
            (spec_encode_varint(b.len() as u64).len() + b.len()) as int,
        ) == b,
        (crate::builder_encoding::ld(b) + rest).len() - spec_encode_varint(b.len() as u64).len() >= b.len(),
{
    let e = spec_encode_varint(b.len() as u64);
    let s = crate::builder_encoding::ld(b) + rest;
    assert(s =~= e + (b + rest));
    lemma_varint_roundtrip(b.len() as u64, b + rest);
    assert(s.subrange(e.len() as int, (e.len() + b.len()) as int) =~= b);
}

/// Data whose length, where it is length-delimited, a varint can hold.
pub open spec fn fits_length(d: FieldDataView) -> bool {
    &&& d matches FieldDataView::String(s) ==> encode_utf8(s).len() <= u64::MAX
    &&& d matches FieldDataView::Bytes(b) ==> b.len() <= u64::MAX
}

/// A value of a field of a dynamic message, written and read back with a message descriptor
/// that declares the field (with the field's wire type), gives the same value, and reading takes
/// exactly the bytes written (whatever follows them).
pub proof fn lemma_written_field_reads_back(
    f: ProtobufFieldView,
    d: FieldDataView,
    fd: FieldDescriptorView,
    desc: MessageDescriptorView,
    files: Seq<FileDescriptorView>,
    rest: Seq<u8>,
)
    requires
        1 <= f.field_num <= crate::wire::MAX_TAG,
        fd.number == Some(f.field_num as i32),
        spec_find_field(desc.fields, f.field_num as i32) == Some(fd),
        f.wire_type == spec_wire_type_for_type(fd.field_type()),
        reads_back_as(fd.field_type(), d),
        fits_length(d),
    ensures
        spec_write_field(f, d) is Ok,
        spec_decode_field(spec_write_field(f, d)->Ok_0 + rest, desc, files) == Ok::<
            (Seq<ProtobufFieldView>, nat),
            DecodingError,
        >((seq![known_field(f.field_num, fd, (d, f.wire_type))], spec_write_field(f, d)->Ok_0.len())),
{
    let t = fd.field_type();
    let wt = f.wire_type;
    let p = spec_write_payload(f, d)->Ok_0;
    lemma_casts();
    lemma_auto_spec_u64_to_from_le_bytes();
    lemma_auto_spec_u32_to_from_le_bytes();
    assert(spec_write_payload(f, d) is Ok);
    assert((f.field_num as i32) as u32 == f.field_num);
    match wt {
        WireType::Varint => {
            let enc = match d {
                FieldDataView::UInteger64(x) => x,
                FieldDataView::Integer64(x) => x as u64,
                FieldDataView::UInteger32(x) => x as u64,
                FieldDataView::Integer32(x) => x as u64,
                FieldDataView::Boolean(b) => if b { 1u64 } else { 0u64 },
                _ => 0u64,
            };
            assert(p == spec_encode_varint(enc));
            lemma_varint_roundtrip(enc, rest);
            assert(crate::message_decoder::spec_varint_value(t, enc) == d);
        },
        WireType::SixtyFourBit => {
            assert((p + rest).take(8) =~= p);
        },
        WireType::ThirtyTwoBit => {
            assert((p + rest).take(4) =~= p);
        },
        _ => {
            let b = match d {
                FieldDataView::String(s) => encode_utf8(s),
                FieldDataView::Bytes(b) => b,
                _ => Seq::empty(),
            };
            assert(p == crate::builder_encoding::ld(b));
            lemma_ld_payload(b, rest);
            if d is String {
                encode_utf8_valid_utf8(d->String_0);
                encode_utf8_decode_utf8(d->String_0);
            }
        },
    }
    lemma_decode_one(fd, desc, files, wt, p, rest, d);
    assert(spec_write_field(f, d) == Ok::<Seq<u8>, crate::dynamic_message::WriteError>(spec_encode_key(f.field_num, wt) + p));
}

/// Every value is of type `t` (a scalar, string or bytes type), and its length, where it has one,
/// fits a varint.
pub open spec fn plain_values(t: FieldType, values: Seq<MessageFieldValue>) -> bool {
    forall|k: int| 0 <= k < values.len() ==> same_type_data(t, #[trigger] values[k].rtype) is Some && value_fits(values[k].rtype)
}

/// The encoding of a map entry from its key and value.
pub open spec fn entry_encoding(
    kd: FieldDescriptorView,
    vd: FieldDescriptorView,
    k: MessageFieldValue,
    v: MessageFieldValue,
) -> Result<Seq<u8>, crate::message_builder::EncodeError> {
    crate::builder_encoding::spec_entry_bytes(
        kd,
        vd,
        spec_encode_single(kd, kd.field_type(), k),
        spec_encode_single(vd, vd.field_type(), v),
    )
}

/// Each key and value (taken in pairs) encodes, and each entry's length fits a varint.
pub open spec fn map_pairs_encode(kd: FieldDescriptorView, vd: FieldDescriptorView, values: Seq<MessageFieldValue>) -> bool
    decreases values.len(),
{
    if values.len() < 2 {
        true
    } else {
        &&& map_pairs_encode(kd, vd, values.subrange(0, values.len() - 2))
        &&& entry_encoding(kd, vd, values[values.len() - 2], values[values.len() - 1]) is Ok
        &&& entry_encoding(kd, vd, values[values.len() - 2], values[values.len() - 1])->Ok_0.len() <= u64::MAX
    }
}

/// The decoded fields that the entries of a map field are read back as: one embedded entry
/// message per key and value, holding the entry's encoding, with the message type `found`.
pub open spec fn map_read_back(
    fd: FieldDescriptorView,
    found: MessageDescriptorView,
    kd: FieldDescriptorView,
    vd: FieldDescriptorView,
    values: Seq<MessageFieldValue>,
) -> Seq<ProtobufFieldView>
    decreases values.len(),
{
    if values.len() < 2 {
        Seq::empty()
    } else {
        map_read_back(fd, found, kd, vd, values.subrange(0, values.len() - 2)) + seq![read_back(
            fd,
            FieldDataView::Message(entry_encoding(kd, vd, values[values.len() - 2], values[values.len() - 1])->Ok_0, found),
        )]
    }
}

/// A field of a builder that the message descriptor declares and that holds values that read
/// back as written: a value of its own type (scalar, string or bytes), an enum value whose enum
/// the decoder finds, or an embedded message whose type the decoder finds. A singular field has a
/// value; a repeated field written packed has scalar values of its own type, a repeated
/// descriptor, and values that a packed length can count; a map field (a message field whose
/// entry type the decoder finds) has keys and values whose entries encode.
pub open spec fn plain_entry(e: (String, FieldValueInner), desc: MessageDescriptorView, files: Seq<FileDescriptorView>) -> bool {
    let inner = e.1;
    let fd = inner.descriptor@;
    let t = inner.proto_type;
    &&& t == fd.field_type()
    &&& fd.number is Some
    &&& is_valid_tag(fd.number->0)
    &&& spec_find_field(desc.fields, fd.number->0) == Some(fd)
    &&& match inner.field_type {
        MessageFieldValueType::Normal => inner.values@.len() >= 1 && reads_back_value(fd, desc, files, inner.values@[0].rtype),
        MessageFieldValueType::Repeated => if spec_should_be_packed_type(t) {
            &&& plain_values(t, inner.values@)
            &&& fd.is_repeated()
            &&& inner.values@.len() * 10 <= u64::MAX
        } else {
            values_read_back_as_written(fd, desc, files, inner.values@)
        },
        MessageFieldValueType::MapField => inner.values@.len() == 0 || {
            let kv = crate::builder_encoding::spec_map_entry_fields(desc, fd, inner.values@.len());
            &&& t == FieldType::Message
            &&& found_message(fd, desc, files) is Some
            &&& kv is Ok
            &&& map_pairs_encode(kv->Ok_0.0, kv->Ok_0.1, inner.values@)
        },
    }
}

/// The decoded fields that values written for field `fd` are read back as, one per value.
pub open spec fn values_read_back(
    fd: FieldDescriptorView,
    desc: MessageDescriptorView,
    files: Seq<FileDescriptorView>,
    values: Seq<MessageFieldValue>,
) -> Seq<ProtobufFieldView> {
    values.map_values(|v: MessageFieldValue| read_back(fd, value_data(fd, desc, files, v.rtype)))
}

/// Every value is one that a singular field of the descriptor reads back as written.
pub open spec fn values_read_back_as_written(
    fd: FieldDescriptorView,
    desc: MessageDescriptorView,
    files: Seq<FileDescriptorView>,
    values: Seq<MessageFieldValue>,
) -> bool {
    forall|k: int| 0 <= k < values.len() ==> reads_back_value(fd, desc, files, #[trigger] values[k].rtype)
}

/// The decoded fields that a field of a builder is read back as: its value for a singular
/// field, each of its values for a repeated one.
pub open spec fn entry_read_back(
    e: (String, FieldValueInner),
    desc: MessageDescriptorView,
    files: Seq<FileDescriptorView>,
) -> Seq<ProtobufFieldView> {
    let fd = e.1.descriptor@;
    match e.1.field_type {
        MessageFieldValueType::Normal => seq![read_back(fd, value_data(fd, desc, files, e.1.values@[0].rtype))],
        MessageFieldValueType::Repeated => values_read_back(fd, desc, files, e.1.values@),
        MessageFieldValueType::MapField => {
            let kv = crate::builder_encoding::spec_map_entry_fields(desc, fd, e.1.values@.len());
            map_read_back(fd, found_message(fd, desc, files)->0, kv->Ok_0.0, kv->Ok_0.1, e.1.values@)
        },
    }
}

/// The decoded fields that the fields of a builder are read back as, in order.
pub open spec fn entries_read_back(
    fields: Seq<(String, FieldValueInner)>,
    desc: MessageDescriptorView,
    files: Seq<FileDescriptorView>,
) -> Seq<ProtobufFieldView>
    decreases fields.len(),
{
    if fields.len() == 0 {
        Seq::empty()
    } else {
        entries_read_back(fields.subrange(0, fields.len() - 1), desc, files) + entry_read_back(fields[fields.len() - 1], desc, files)
    }
}

/// The values read from a packed payload, before the values read from what follows.
pub open spec fn cons_items(
    x: Seq<(FieldDataView, WireType)>,
    r: Result<Seq<(FieldDataView, WireType)>, DecodingError>,
) -> Result<Seq<(FieldDataView, WireType)>, DecodingError> {
    match r {
        Ok(y) => Ok(x + y),
        Err(e) => Err(e),
    }
}

/// The item that a value of a packed field is read back as.
pub open spec fn packed_item(t: FieldType, v: MessageFieldValue) -> (FieldDataView, WireType) {
    (same_type_data(t, v.rtype)->0, spec_wire_type_for_type(t))
}

/// One value written in a packed payload is read back as one item, before what follows.
proof fn lemma_packed_item(
    fd: FieldDescriptorView,
    desc: MessageDescriptorView,
    files: Seq<FileDescriptorView>,
    num: u32,
    v: MessageFieldValue,
    tail: Seq<u8>,
)
    requires
        same_type_data(fd.field_type(), v.rtype) is Some,
        spec_should_be_packed_type(fd.field_type()),
    ensures
        crate::builder_encoding::spec_packed_value(fd.field_type(), v.rtype) is Ok,
        1 <= crate::builder_encoding::spec_packed_value(fd.field_type(), v.rtype)->Ok_0.len() <= 10,
        crate::message_decoder::spec_packed_values(
            fd,
            desc,
            files,
            num,
            crate::builder_encoding::spec_packed_value(fd.field_type(), v.rtype)->Ok_0 + tail,
        ) == cons_items(seq![packed_item(fd.field_type(), v)], crate::message_decoder::spec_packed_values(fd, desc, files, num, tail)),
{
    let t = fd.field_type();
    let d = same_type_data(t, v.rtype)->0;
    lemma_casts();
    lemma_auto_spec_u64_to_from_le_bytes();
    lemma_auto_spec_u32_to_from_le_bytes();
    assert(spec_scalar_bytes(t, v.rtype) is Ok);
    let p = spec_scalar_bytes(t, v.rtype)->Ok_0;
    assert(crate::builder_encoding::spec_packed_value(t, v.rtype) == Ok::<Seq<u8>, crate::message_builder::EncodeError>(p));
    let s = p + tail;
    if crate::message_decoder::is_fixed64_type(t) {
        assert(s.take(8) =~= p);
        assert(s.skip(8) =~= tail);
    } else if crate::message_decoder::is_fixed32_type(t) {
        assert(s.take(4) =~= p);
        assert(s.skip(4) =~= tail);
    } else {
        let enc = match t {
            FieldType::Uint64 => v.rtype->UInteger64_0,
            FieldType::Int64 => v.rtype->Integer64_0 as u64,
            FieldType::Sint64 => crate::wire::spec_zigzag_encode_64(v.rtype->Integer64_0),
            FieldType::Uint32 => v.rtype->UInteger32_0 as u64,
            FieldType::Int32 => v.rtype->Integer32_0 as u64,
            FieldType::Sint32 => crate::wire::spec_zigzag_encode_32(v.rtype->Integer32_0),
            _ => if v.rtype->Boolean_0 { 1u64 } else { 0u64 },
        };
        assert(p == spec_encode_varint(enc));
        lemma_varint_roundtrip(enc, tail);
        crate::wire::lemma_encode_varint_bounds(enc);
        if t == FieldType::Sint32 {
            lemma_zigzag_32_roundtrip(v.rtype->Integer32_0);
        }
        if t == FieldType::Sint64 {
            lemma_zigzag_64_roundtrip(v.rtype->Integer64_0);
        }
        assert(crate::message_decoder::spec_varint_value(t, enc) == d);
        assert(s.skip(p.len() as int) =~= tail);
    }
}

/// Values written one after the other in a packed payload are read back as one item each, in
/// order, before what follows.
proof fn lemma_packed_items(
    fd: FieldDescriptorView,
    desc: MessageDescriptorView,
    files: Seq<FileDescriptorView>,
    num: u32,
    values: Seq<MessageFieldValue>,
    tail: Seq<u8>,
)
    requires
        plain_values(fd.field_type(), values),
        spec_should_be_packed_type(fd.field_type()),
    ensures
        crate::builder_encoding::spec_packed_values(fd.field_type(), values) is Ok,
        crate::builder_encoding::spec_packed_values(fd.field_type(), values)->Ok_0.len() <= 10 * values.len(),
        crate::message_decoder::spec_packed_values(
            fd,
            desc,
            files,
            num,
            crate::builder_encoding::spec_packed_values(fd.field_type(), values)->Ok_0 + tail,
        ) == cons_items(
            values.map_values(|v: MessageFieldValue| packed_item(fd.field_type(), v)),
            crate::message_decoder::spec_packed_values(fd, desc, files, num, tail),
        ),
    decreases values.len(),
{
    let t = fd.field_type();
    if values.len() == 0 {
        assert(Seq::<u8>::empty() + tail =~= tail);
        assert(values.map_values(|v: MessageFieldValue| packed_item(t, v)) =~= Seq::<(FieldDataView, WireType)>::empty());
        if let Ok(y) = crate::message_decoder::spec_packed_values(fd, desc, files, num, tail) {
            assert(Seq::<(FieldDataView, WireType)>::empty() + y =~= y);
        }
    } else {
        let front = values.drop_last();
        let last = values.last();
        assert(same_type_data(t, values[values.len() - 1].rtype) is Some);
        assert(plain_values(t, front)) by {
            assert forall|k: int| 0 <= k < front.len() implies same_type_data(t, #[trigger] front[k].rtype) is Some && value_fits(front[k].rtype) by {
                assert(front[k] == values[k]);
            }
        }
        lemma_packed_item(fd, desc, files, num, last, tail);
        let w = crate::builder_encoding::spec_packed_value(t, last.rtype)->Ok_0;
        lemma_packed_items(fd, desc, files, num, front, w + tail);
        let wf = crate::builder_encoding::spec_packed_values(t, front)->Ok_0;
        assert((wf + w) + tail =~= wf + (w + tail));
        let xf = front.map_values(|v: MessageFieldValue| packed_item(t, v));
        assert(xf + seq![packed_item(t, last)] =~= values.map_values(|v: MessageFieldValue| packed_item(t, v)));
        if let Ok(y) = crate::message_decoder::spec_packed_values(fd, desc, files, num, tail) {
            assert(xf + (seq![packed_item(t, last)] + y) =~= (xf + seq![packed_item(t, last)]) + y);
        }
    }
}

/// A field whose values are read, after its key, as `items` from exactly `p` is read back as one
/// decoded field per item.
proof fn lemma_decode_known(
    fd: FieldDescriptorView,
    desc: MessageDescriptorView,
    files: Seq<FileDescriptorView>,
    wt: WireType,
    p: Seq<u8>,
    rest: Seq<u8>,
    items: Seq<(FieldDataView, WireType)>,
)
    requires
        fd.number is Some,
        is_valid_tag(fd.number->0),
        spec_find_field(desc.fields, fd.number->0) == Some(fd),
        crate::message_decoder::spec_known_field_values(fd, desc, files, fd.number->0 as u32, wt, p + rest)
            == Ok::<(Seq<(FieldDataView, WireType)>, nat), DecodingError>((items, p.len())),
    ensures
        spec_decode_field((spec_encode_key(fd.number->0 as u32, wt) + p) + rest, desc, files) == Ok::<
            (Seq<ProtobufFieldView>, nat),
            DecodingError,
        >((
            items.map_values(|x: (FieldDataView, WireType)| known_field(fd.number->0 as u32, fd, x)),
            (spec_encode_key(fd.number->0 as u32, wt) + p).len(),
        )),
{
    let tag = fd.number->0;
    let key = spec_encode_key(tag as u32, wt);
    let s = (key + p) + rest;
    assert(s =~= key + (p + rest));
    lemma_key_roundtrip(tag as u32, wt, p + rest);
    assert(s.skip(key.len() as int) =~= p + rest);
    assert((tag as u32) as i32 == tag);
}

/// A repeated scalar field written in packed form is read back as one field per value.
proof fn lemma_packed_field_reads_back(
    fd: FieldDescriptorView,
    desc: MessageDescriptorView,
    files: Seq<FileDescriptorView>,
    values: Seq<MessageFieldValue>,
    rest: Seq<u8>,
)
    requires
        fd.number is Some,
        is_valid_tag(fd.number->0),
        spec_find_field(desc.fields, fd.number->0) == Some(fd),
        fd.is_repeated(),
        spec_should_be_packed_type(fd.field_type()),
        plain_values(fd.field_type(), values),
        0 < values.len(),
        values.len() * 10 <= u64::MAX,
    ensures
        crate::builder_encoding::spec_encode_packed(fd, fd.field_type(), values) is Ok,
        crate::builder_encoding::spec_encode_packed(fd, fd.field_type(), values)->Ok_0.len() > 0,
        spec_decode_field(crate::builder_encoding::spec_encode_packed(fd, fd.field_type(), values)->Ok_0 + rest, desc, files)
            == Ok::<(Seq<ProtobufFieldView>, nat), DecodingError>((
            values_read_back(fd, desc, files, values),
            crate::builder_encoding::spec_encode_packed(fd, fd.field_type(), values)->Ok_0.len(),
        )),
{
    let t = fd.field_type();
    let tag = fd.number->0;
    let num = tag as u32;
    let wt = WireType::LengthDelimited;
    lemma_packed_items(fd, desc, files, num, values, Seq::empty());
    let b = crate::builder_encoding::spec_packed_values(t, values)->Ok_0;
    let p = crate::builder_encoding::ld(b);
    assert(t != FieldType::Enum) by {
        assert(same_type_data(t, values[0].rtype) is Some);
    }
    assert(crate::builder_encoding::spec_encode_packed(fd, t, values) == Ok::<Seq<u8>, crate::message_builder::EncodeError>(
        spec_encode_key(num, wt) + p,
    ));
    lemma_ld_payload(b, rest);
    let n = spec_encode_varint(b.len() as u64).len();
    assert(b + Seq::<u8>::empty() =~= b);
    assert(crate::message_decoder::spec_packed_values(fd, desc, files, num, Seq::<u8>::empty())
        == Ok::<Seq<(FieldDataView, WireType)>, DecodingError>(Seq::empty()));
    let items = values.map_values(|v: MessageFieldValue| packed_item(t, v));
    assert(items + Seq::<(FieldDataView, WireType)>::empty() =~= items);
    assert(crate::message_decoder::spec_packed_values(fd, desc, files, num, b)
        == Ok::<Seq<(FieldDataView, WireType)>, DecodingError>(items));
    assert(p.len() == n + b.len());
    assert(crate::message_decoder::spec_known_field_values(fd, desc, files, num, wt, p + rest)
        == Ok::<(Seq<(FieldDataView, WireType)>, nat), DecodingError>((items, p.len())));
    lemma_decode_known(fd, desc, files, wt, p, rest, items);
    assert(items.map_values(|x: (FieldDataView, WireType)| known_field(num, fd, x)) =~= values_read_back(fd, desc, files, values));
    lemma_key_not_empty(num, wt);
}

/// Values of a repeated field written each as a field of its own are read back as one
/// field each, in order (whatever follows them).
#[verifier::rlimit(40)]
proof fn lemma_each_reads_back(
    fd: FieldDescriptorView,
    desc: MessageDescriptorView,
    files: Seq<FileDescriptorView>,
    values: Seq<MessageFieldValue>,
    rest: Seq<u8>,
)
    requires
        fd.number is Some,
        is_valid_tag(fd.number->0),
        spec_find_field(desc.fields, fd.number->0) == Some(fd),
        values_read_back_as_written(fd, desc, files, values),
    ensures
        spec_encode_each(fd, fd.field_type(), values) is Ok,
        spec_decode_fields(spec_encode_each(fd, fd.field_type(), values)->Ok_0 + rest, desc, files)
            == join_fields(values_read_back(fd, desc, files, values), spec_decode_fields(rest, desc, files)),
    decreases values.len(),
{
    let t = fd.field_type();
    if values.len() == 0 {
        assert(Seq::<u8>::empty() + rest =~= rest);
        assert(values_read_back(fd, desc, files, values) =~= Seq::<ProtobufFieldView>::empty());
        if let Ok(x) = spec_decode_fields(rest, desc, files) {
            assert(Seq::<ProtobufFieldView>::empty() + x =~= x);
        }
    } else {
        let front = values.subrange(0, values.len() - 1);
        let v = values[values.len() - 1];
        assert(values_read_back_as_written(fd, desc, files, front)) by {
            assert forall|k: int| 0 <= k < front.len() implies reads_back_value(fd, desc, files, #[trigger] front[k].rtype) by {
                assert(front[k] == values[k]);
            }
        }
        assert(reads_back_value(fd, desc, files, values[values.len() - 1].rtype));
        lemma_value_roundtrip(fd, desc, files, v, rest);
        let w = spec_encode_single(fd, t, v)->Ok_0;
        let x = seq![read_back(fd, value_data(fd, desc, files, v.rtype))];
        assert(w.len() > 0) by {
            crate::wire::lemma_encode_varint_bounds((fd.number->0 as u32 * 8 + spec_wire_type_for_type(t).spec_number()) as u64);
        }
        lemma_decode_fields_step(w, rest, desc, files, x);
        lemma_each_reads_back(fd, desc, files, front, w + rest);
        let wf = spec_encode_each(fd, t, front)->Ok_0;
        assert((wf + w) + rest =~= wf + (w + rest));
        lemma_join_fields_assoc(values_read_back(fd, desc, files, front), x, spec_decode_fields(rest, desc, files));
        assert(values_read_back(fd, desc, files, front) + x =~= values_read_back(fd, desc, files, values));
    }
}

/// The entries of a map field, written and read back, give one embedded entry message each, in
/// order (whatever follows them).
#[verifier::rlimit(40)]
proof fn lemma_map_pairs_read_back(
    fd: FieldDescriptorView,
    desc: MessageDescriptorView,
    files: Seq<FileDescriptorView>,
    kd: FieldDescriptorView,
    vd: FieldDescriptorView,
    values: Seq<MessageFieldValue>,
    rest: Seq<u8>,
)
    requires
        fd.number is Some,
        is_valid_tag(fd.number->0),
        spec_find_field(desc.fields, fd.number->0) == Some(fd),
        fd.field_type() == FieldType::Message,
        found_message(fd, desc, files) is Some,
        map_pairs_encode(kd, vd, values),
    ensures
        crate::builder_encoding::spec_map_pairs(fd, FieldType::Message, kd, vd, values) is Ok,
        spec_decode_fields(crate::builder_encoding::spec_map_pairs(fd, FieldType::Message, kd, vd, values)->Ok_0 + rest, desc, files)
            == join_fields(map_read_back(fd, found_message(fd, desc, files)->0, kd, vd, values), spec_decode_fields(rest, desc, files)),
    decreases values.len(),
{
    let found = found_message(fd, desc, files)->0;
    if values.len() < 2 {
        assert(Seq::<u8>::empty() + rest =~= rest);
        if let Ok(x) = spec_decode_fields(rest, desc, files) {
            assert(Seq::<ProtobufFieldView>::empty() + x =~= x);
        }
    } else {
        let front = values.subrange(0, values.len() - 2);
        let b = entry_encoding(kd, vd, values[values.len() - 2], values[values.len() - 1])->Ok_0;
        let p = crate::builder_encoding::ld(b);
        let tag = fd.number->0;
        let key = spec_encode_key(tag as u32, WireType::LengthDelimited);
        let w = key + p;
        assert(crate::builder_encoding::spec_encode_entry(fd, FieldType::Message,
            entry_encoding(kd, vd, values[values.len() - 2], values[values.len() - 1]))
            == Ok::<Seq<u8>, crate::message_builder::EncodeError>(w));
        lemma_ld_payload(b, rest);
        let d = FieldDataView::Message(b, found);
        lemma_decode_one(fd, desc, files, WireType::LengthDelimited, p, rest, d);
        let x = seq![read_back(fd, d)];
        lemma_key_not_empty(tag as u32, WireType::LengthDelimited);
        lemma_decode_fields_step(w, rest, desc, files, x);
        lemma_map_pairs_read_back(fd, desc, files, kd, vd, front, w + rest);
        let wf = crate::builder_encoding::spec_map_pairs(fd, FieldType::Message, kd, vd, front)->Ok_0;
        assert((wf + w) + rest =~= wf + (w + rest));
        lemma_join_fields_assoc(map_read_back(fd, found, kd, vd, front), x, spec_decode_fields(rest, desc, files));
    }
}

/// One field of a builder, written and read back, gives its decoded fields (whatever follows
/// it).
proof fn lemma_entry_reads_back(
    desc: MessageDescriptorView,
    files: Seq<FileDescriptorView>,
    e: (String, FieldValueInner),
    rest: Seq<u8>,
)
    requires
        plain_entry(e, desc, files),
    ensures
        spec_encode_field(desc, e.1) is Ok,
        spec_decode_fields(spec_encode_field(desc, e.1)->Ok_0 + rest, desc, files)
            == join_fields(entry_read_back(e, desc, files), spec_decode_fields(rest, desc, files)),
{
    let inner = e.1;
    let fd = inner.descriptor@;
    let t = inner.proto_type;
    let values = inner.values@;
    match inner.field_type {
        MessageFieldValueType::Normal => {
            let v = values[0];
            lemma_value_roundtrip(fd, desc, files, v, rest);
            let w = spec_encode_single(fd, t, v)->Ok_0;
            assert(w.len() > 0) by {
                crate::wire::lemma_encode_varint_bounds((fd.number->0 as u32 * 8 + spec_wire_type_for_type(t).spec_number()) as u64);
            }
            lemma_decode_fields_step(w, rest, desc, files, entry_read_back(e, desc, files));
        },
        _ => {
            if values.len() == 0 {
                assert(Seq::<u8>::empty() + rest =~= rest);
                assert(entry_read_back(e, desc, files) =~= Seq::<ProtobufFieldView>::empty());
                if let Ok(x) = spec_decode_fields(rest, desc, files) {
                    assert(Seq::<ProtobufFieldView>::empty() + x =~= x);
                }
            } else if inner.field_type == MessageFieldValueType::MapField {
                let kv = crate::builder_encoding::spec_map_entry_fields(desc, fd, values.len());
                lemma_map_pairs_read_back(fd, desc, files, kv->Ok_0.0, kv->Ok_0.1, values, rest);
            } else if spec_should_be_packed_type(t) {
                lemma_packed_field_reads_back(fd, desc, files, values, rest);
                let w = crate::builder_encoding::spec_encode_packed(fd, t, values)->Ok_0;
                lemma_decode_fields_step(w, rest, desc, files, entry_read_back(e, desc, files));
            } else {
                lemma_each_reads_back(fd, desc, files, values, rest);
            }
        },
    }
}

/// Fields written in order are read back, in the same order (whatever follows them).
proof fn lemma_entries_read_back(
    desc: MessageDescriptorView,
    files: Seq<FileDescriptorView>,
    fields: Seq<(String, FieldValueInner)>,
    rest: Seq<u8>,
)
    requires
        forall|k: int| 0 <= k < fields.len() ==> plain_entry(#[trigger] fields[k], desc, files),
    ensures
        spec_encode_fields(desc, fields) is Ok,
        spec_decode_fields(spec_encode_fields(desc, fields)->Ok_0 + rest, desc, files)
            == join_fields(entries_read_back(fields, desc, files), spec_decode_fields(rest, desc, files)),
    decreases fields.len(),
{
    if fields.len() == 0 {
        assert(Seq::<u8>::empty() + rest =~= rest);
        if let Ok(x) = spec_decode_fields(rest, desc, files) {
            assert(Seq::<ProtobufFieldView>::empty() + x =~= x);
        }
    } else {
        let front = fields.subrange(0, fields.len() - 1);
        let e = fields[fields.len() - 1];
        assert(plain_entry(e, desc, files));
        assert forall|k: int| 0 <= k < front.len() implies plain_entry(#[trigger] front[k], desc, files) by {
            assert(front[k] == fields[k]);
        }
        lemma_entry_reads_back(desc, files, e, rest);
        let w = spec_encode_field(desc, e.1)->Ok_0;
        lemma_entries_read_back(desc, files, front, w + rest);
        let wf = spec_encode_fields(desc, front)->Ok_0;
        assert((wf + w) + rest =~= wf + (w + rest));
        lemma_join_fields_assoc(entries_read_back(front, desc, files), entry_read_back(e, desc, files), spec_decode_fields(rest, desc, files));
    }
}

/// The entries of a map field are read back with the field's number.
proof fn lemma_map_read_back_numbers(
    fd: FieldDescriptorView,
    found: MessageDescriptorView,
    kd: FieldDescriptorView,
    vd: FieldDescriptorView,
    values: Seq<MessageFieldValue>,
)
    ensures
        forall|k: int| 0 <= k < map_read_back(fd, found, kd, vd, values).len()
            ==> (#[trigger] map_read_back(fd, found, kd, vd, values)[k]).field_num == fd.number->0 as u32,
    decreases values.len(),
{
    if values.len() >= 2 {
        let front = values.subrange(0, values.len() - 2);
        lemma_map_read_back_numbers(fd, found, kd, vd, front);
        let a = map_read_back(fd, found, kd, vd, front);
        let r = map_read_back(fd, found, kd, vd, values);
        assert forall|k: int| 0 <= k < r.len() implies (#[trigger] r[k]).field_num == fd.number->0 as u32 by {
            if k < a.len() {
                assert(r[k] == a[k]);
            }
        }
    }
}

/// The fields read back from fields ordered by number are ordered by number, and none has a
/// greater number than the last field's.
proof fn lemma_entries_numbers(fields: Seq<(String, FieldValueInner)>, desc: MessageDescriptorView, files: Seq<FileDescriptorView>)
    requires
        fields_ordered(fields),
        forall|k: int| 0 <= k < fields.len() ==> plain_entry(#[trigger] fields[k], desc, files),
    ensures
        ordered_by_number(entries_read_back(fields, desc, files)),
        fields.len() > 0 ==> forall|k: int| 0 <= k < entries_read_back(fields, desc, files).len()
            ==> (#[trigger] entries_read_back(fields, desc, files)[k]).field_num <= entry_number(fields[fields.len() - 1]),
    decreases fields.len(),
{
    if fields.len() > 0 {
        let front = fields.subrange(0, fields.len() - 1);
        let e = fields[fields.len() - 1];
        assert(plain_entry(e, desc, files));
        assert forall|k: int| 0 <= k < front.len() implies plain_entry(#[trigger] front[k], desc, files) by {
            assert(front[k] == fields[k]);
        }
        assert(fields_ordered(front)) by {
            assert forall|i: int, j: int| 0 <= i < j < front.len() implies entry_number(#[trigger] front[i]) <= entry_number(#[trigger] front[j]) by {
                assert(front[i] == fields[i] && front[j] == fields[j]);
            }
        }
        lemma_entries_numbers(front, desc, files);
        let a = entries_read_back(front, desc, files);
        let b = entry_read_back(e, desc, files);
        let r = entries_read_back(fields, desc, files);
        assert(r == a + b);
        let num = entry_number(e);
        if e.1.field_type == MessageFieldValueType::MapField && e.1.values@.len() > 0 {
            let fd = e.1.descriptor@;
            let kv = crate::builder_encoding::spec_map_entry_fields(desc, fd, e.1.values@.len());
            lemma_map_read_back_numbers(fd, found_message(fd, desc, files)->0, kv->Ok_0.0, kv->Ok_0.1, e.1.values@);
        }
        assert forall|k: int| 0 <= k < b.len() implies (#[trigger] b[k]).field_num == num by {}
        if front.len() > 0 {
            assert(entry_number(front[front.len() - 1]) <= num) by {
                assert(front[front.len() - 1] == fields[fields.len() - 2]);
            }
        }
        assert forall|i: int, j: int| 0 <= i < j < r.len() implies r[i].field_num <= r[j].field_num by {
            if j < a.len() {
                assert(r[i] == a[i] && r[j] == a[j]);
            } else if i < a.len() {
                assert(r[i] == a[i] && r[j] == b[j - a.len()]);
                assert(a[i].field_num <= entry_number(front[front.len() - 1]));
            } else {
                assert(r[i] == b[i - a.len()] && r[j] == b[j - a.len()]);
            }
        }
        assert forall|k: int| 0 <= k < r.len() implies (#[trigger] r[k]).field_num <= num by {
            if k < a.len() {
                assert(r[k] == a[k]);
                assert(a[k].field_num <= entry_number(front[front.len() - 1]));
            } else {
                assert(r[k] == b[k - a.len()]);
            }
        }
    }
}

/// A message built from fields that hold values of their own types (scalar, string, bytes or
/// embedded message values in singular or repeated fields, enum values in singular fields, and
/// map fields, each declared by the message descriptor), encoded and decoded with the message's descriptor, gives back each field with
/// its values, in the builder's order: one decoded field for a singular field, one per value for
/// a repeated field, one per key and value for a map field. An embedded message (a map entry
/// among them) is read back as its encoding, with the message type the decoder finds for the
/// field. The fields come back ordered by field number.
pub proof fn lemma_message_roundtrip(b: MessageBuilder, files: Seq<FileDescriptorView>)
    requires
        b.wf(),
        forall|k: int| 0 <= k < b.fields@.len() ==> plain_entry(#[trigger] b.fields@[k], b.descriptor@, files),
    ensures
        spec_encode_message(b) is Ok,
        spec_decode_message(spec_encode_message(b)->Ok_0, b.descriptor@, files)
            == Ok::<Seq<ProtobufFieldView>, DecodingError>(entries_read_back(b.fields@, b.descriptor@, files)),
        ordered_by_number(entries_read_back(b.fields@, b.descriptor@, files)),
{
    let desc = b.descriptor@;
    let fields = b.fields@;
    lemma_entries_read_back(desc, files, fields, Seq::empty());
    let w = spec_encode_fields(desc, fields)->Ok_0;
    assert(w + Seq::<u8>::empty() =~= w);
    assert(spec_decode_fields(Seq::<u8>::empty(), desc, files) == Ok::<Seq<ProtobufFieldView>, DecodingError>(Seq::empty()));
    let r = entries_read_back(fields, desc, files);
    assert(r + Seq::<ProtobufFieldView>::empty() =~= r);
    lemma_entries_numbers(fields, desc, files);
}

/// A map entry, encoded from its key and value and decoded with an entry message descriptor that
/// declares both (the key with the lower field number), gives back the key and the value, each
/// read back as written.
#[verifier::rlimit(40)]
pub proof fn lemma_map_entry_roundtrip(
    kd: FieldDescriptorView,
    vd: FieldDescriptorView,
    entry_desc: MessageDescriptorView,
    files: Seq<FileDescriptorView>,
    k: MessageFieldValue,
    v: MessageFieldValue,
)
    requires
        kd.number is Some,
        vd.number is Some,
        is_valid_tag(kd.number->0),
        is_valid_tag(vd.number->0),
        kd.number->0 < vd.number->0,
        spec_find_field(entry_desc.fields, kd.number->0) == Some(kd),
        spec_find_field(entry_desc.fields, vd.number->0) == Some(vd),
        reads_back_value(kd, entry_desc, files, k.rtype),
        reads_back_value(vd, entry_desc, files, v.rtype),
    ensures
        entry_encoding(kd, vd, k, v) is Ok,
        spec_decode_message(entry_encoding(kd, vd, k, v)->Ok_0, entry_desc, files) == Ok::<Seq<ProtobufFieldView>, DecodingError>(
            seq![read_back(kd, value_data(kd, entry_desc, files, k.rtype)), read_back(vd, value_data(vd, entry_desc, files, v.rtype))],
        ),
{
    lemma_value_roundtrip(vd, entry_desc, files, v, Seq::empty());
    let ev = spec_encode_single(vd, vd.field_type(), v)->Ok_0;
    lemma_value_roundtrip(kd, entry_desc, files, k, ev);
    let ek = spec_encode_single(kd, kd.field_type(), k)->Ok_0;
    let xk = seq![read_back(kd, value_data(kd, entry_desc, files, k.rtype))];
    let xv = seq![read_back(vd, value_data(vd, entry_desc, files, v.rtype))];
    assert(entry_encoding(kd, vd, k, v) == Ok::<Seq<u8>, crate::message_builder::EncodeError>(ek + ev));
    lemma_decode_fields_step(ek, ev, entry_desc, files, xk);
    assert(ev + Seq::<u8>::empty() =~= ev);
    lemma_decode_fields_step(ev, Seq::empty(), entry_desc, files, xv);
    assert(spec_decode_fields(Seq::<u8>::empty(), entry_desc, files) == Ok::<Seq<ProtobufFieldView>, DecodingError>(Seq::empty()));
    assert(xv + Seq::<ProtobufFieldView>::empty() =~= xv);
    assert(spec_decode_fields(ev, entry_desc, files) == Ok::<Seq<ProtobufFieldView>, DecodingError>(xv));
    assert(spec_decode_fields(ek + ev, entry_desc, files) == Ok::<Seq<ProtobufFieldView>, DecodingError>(xk + xv));
    let both = xk + xv;
    assert(both =~= seq![xk[0], xv[0]]);
}

// ---------------------------------------------------------------------------------------------
// A dynamic message written and read back
// ---------------------------------------------------------------------------------------------

/// The values that writing a field writes: its value, then, for a repeated field, its
/// additional values.
pub open spec fn written_values(f: ProtobufFieldView) -> Seq<FieldDataView> {
    if f.descriptor.is_repeated() && f.additional_data.len() > 0 {
        seq![f.data] + f.additional_data
    } else {
        seq![f.data]
    }
}

/// The descriptor that a message descriptor declares for the field's number.
pub open spec fn declared(desc: MessageDescriptorView, f: ProtobufFieldView) -> FieldDescriptorView {
    spec_find_field(desc.fields, f.field_num as i32)->0
}

/// The field can be written and read back with the message descriptor: its number can stand in a
/// key, the descriptor declares it with the field's wire type, and each value it writes is of the
/// kind the declared type is read as.
pub open spec fn reads_back(f: ProtobufFieldView, desc: MessageDescriptorView) -> bool {
    &&& 1 <= f.field_num <= crate::wire::MAX_TAG
    &&& spec_find_field(desc.fields, f.field_num as i32) is Some
    &&& declared(desc, f).number == Some(f.field_num as i32)
    &&& f.wire_type == spec_wire_type_for_type(declared(desc, f).field_type())
    &&& forall|k: int| 0 <= k < written_values(f).len() ==> reads_back_as(declared(desc, f).field_type(), #[trigger] written_values(f)[k])
        && fits_length(written_values(f)[k])
}

/// The fields read back for the values written of field `f`, declared as `fd`.
pub open spec fn read_back_values(f: ProtobufFieldView, fd: FieldDescriptorView, ds: Seq<FieldDataView>) -> Seq<ProtobufFieldView> {
    ds.map_values(|d: FieldDataView| known_field(f.field_num, fd, (d, f.wire_type)))
}

/// The fields read back from a written message: for each field, one per value written.
pub open spec fn read_back_fields(fields: Seq<ProtobufFieldView>, desc: MessageDescriptorView) -> Seq<ProtobufFieldView>
    decreases fields.len(),
{
    if fields.len() == 0 {
        Seq::empty()
    } else {
        read_back_fields(fields.drop_last(), desc)
            + read_back_values(fields.last(), declared(desc, fields.last()), written_values(fields.last()))
    }
}

proof fn lemma_decode_fields_step(
    a: Seq<u8>,
    rest: Seq<u8>,
    desc: MessageDescriptorView,
    files: Seq<FileDescriptorView>,
    x: Seq<ProtobufFieldView>,
)
    requires
        a.len() > 0,
        spec_decode_field(a + rest, desc, files) == Ok::<(Seq<ProtobufFieldView>, nat), DecodingError>((x, a.len())),
    ensures
        spec_decode_fields(a + rest, desc, files) == join_fields(x, spec_decode_fields(rest, desc, files)),
{
    assert((a + rest).skip(a.len() as int) =~= rest);
}

proof fn lemma_join_fields_assoc(a: Seq<ProtobufFieldView>, b: Seq<ProtobufFieldView>, r: Result<Seq<ProtobufFieldView>, DecodingError>)
    ensures
        join_fields(a, join_fields(b, r)) == join_fields(a + b, r),
{
    if let Ok(x) = r {
        assert(a + (b + x) =~= (a + b) + x);
    }
}

proof fn lemma_key_not_empty(tag: u32, wt: WireType)
    ensures
        spec_encode_key(tag, wt).len() > 0,
{
    crate::wire::lemma_encode_varint_bounds((tag * 8 + wt.spec_number()) as u64);
}

/// Values written as field `f` read back as one field each.
#[verifier::rlimit(60)]
proof fn lemma_values_read_back(
    f: ProtobufFieldView,
    ds: Seq<FieldDataView>,
    desc: MessageDescriptorView,
    files: Seq<FileDescriptorView>,
    rest: Seq<u8>,
)
    requires
        1 <= f.field_num <= crate::wire::MAX_TAG,
        spec_find_field(desc.fields, f.field_num as i32) is Some,
        declared(desc, f).number == Some(f.field_num as i32),
        f.wire_type == spec_wire_type_for_type(declared(desc, f).field_type()),
        forall|k: int| 0 <= k < ds.len() ==> reads_back_as(declared(desc, f).field_type(), #[trigger] ds[k]) && fits_length(ds[k]),
    ensures
        crate::dynamic_message::spec_write_values(f, ds) is Ok,
        spec_decode_fields(crate::dynamic_message::spec_write_values(f, ds)->Ok_0 + rest, desc, files)
            == join_fields(read_back_values(f, declared(desc, f), ds), spec_decode_fields(rest, desc, files)),
    decreases ds.len(),
{
    let fd = declared(desc, f);
    if ds.len() == 0 {
        assert(Seq::<u8>::empty() + rest =~= rest);
        assert(read_back_values(f, fd, ds) =~= Seq::<ProtobufFieldView>::empty());
        if let Ok(x) = spec_decode_fields(rest, desc, files) {
            assert(Seq::<ProtobufFieldView>::empty() + x =~= x);
        }
    } else {
        let d = ds.last();
        let front = ds.drop_last();
        assert(reads_back_as(fd.field_type(), ds[ds.len() - 1]) && fits_length(ds[ds.len() - 1]));
        assert forall|k: int| 0 <= k < front.len() implies reads_back_as(fd.field_type(), #[trigger] front[k]) && fits_length(front[k]) by {
            assert(front[k] == ds[k]);
        }
        lemma_written_field_reads_back(f, d, fd, desc, files, rest);
        let w = spec_write_field(f, d)->Ok_0;
        lemma_key_not_empty(f.field_num, f.wire_type);
        lemma_decode_fields_step(w, rest, desc, files, seq![known_field(f.field_num, fd, (d, f.wire_type))]);
        lemma_values_read_back(f, front, desc, files, w + rest);
        let wf = crate::dynamic_message::spec_write_values(f, front)->Ok_0;
        assert((wf + w) + rest =~= wf + (w + rest));
        lemma_join_fields_assoc(read_back_values(f, fd, front), seq![known_field(f.field_num, fd, (d, f.wire_type))],
            spec_decode_fields(rest, desc, files));
        assert(read_back_values(f, fd, front) + seq![known_field(f.field_num, fd, (d, f.wire_type))] =~= read_back_values(f, fd, ds));
    }
}

/// A written field reads back as one field per value written.
proof fn lemma_field_reads_back(
    f: ProtobufFieldView,
    desc: MessageDescriptorView,
    files: Seq<FileDescriptorView>,
    rest: Seq<u8>,
)
    requires
        reads_back(f, desc),
    ensures
        crate::dynamic_message::spec_write_all(f) is Ok,
        spec_decode_fields(crate::dynamic_message::spec_write_all(f)->Ok_0 + rest, desc, files)
            == join_fields(read_back_values(f, declared(desc, f), written_values(f)), spec_decode_fields(rest, desc, files)),
{
    let fd = declared(desc, f);
    let ws = written_values(f);
    assert(ws[0] == f.data);
    lemma_written_field_reads_back(f, f.data, fd, desc, files, Seq::empty());
    let w0 = spec_write_field(f, f.data)->Ok_0;
    let k0 = seq![known_field(f.field_num, fd, (f.data, f.wire_type))];
    lemma_key_not_empty(f.field_num, f.wire_type);
    if f.descriptor.is_repeated() && f.additional_data.len() > 0 {
        let add = f.additional_data;
        assert forall|k: int| 0 <= k < add.len() implies reads_back_as(fd.field_type(), #[trigger] add[k]) && fits_length(add[k]) by {
            assert(add[k] == ws[k + 1]);
        }
        lemma_values_read_back(f, add, desc, files, rest);
        let wa = crate::dynamic_message::spec_write_values(f, add)->Ok_0;
        lemma_written_field_reads_back(f, f.data, fd, desc, files, wa + rest);
        lemma_decode_fields_step(w0, wa + rest, desc, files, k0);
        assert((w0 + wa) + rest =~= w0 + (wa + rest));
        lemma_join_fields_assoc(k0, read_back_values(f, fd, add), spec_decode_fields(rest, desc, files));
        assert(k0 + read_back_values(f, fd, add) =~= read_back_values(f, fd, ws));
    } else {
        lemma_written_field_reads_back(f, f.data, fd, desc, files, rest);
        lemma_decode_fields_step(w0, rest, desc, files, k0);
        assert(w0 + Seq::<u8>::empty() =~= w0);
        assert(k0 =~= read_back_values(f, fd, ws));
    }
}

/// Written fields read back as one field per value written, in order.
proof fn lemma_fields_read_back(
    fields: Seq<ProtobufFieldView>,
    desc: MessageDescriptorView,
    files: Seq<FileDescriptorView>,
    rest: Seq<u8>,
)
    requires
        forall|k: int| 0 <= k < fields.len() ==> reads_back(#[trigger] fields[k], desc),
    ensures
        crate::dynamic_message::spec_write_fields(fields) is Ok,
        spec_decode_fields(crate::dynamic_message::spec_write_fields(fields)->Ok_0 + rest, desc, files)
            == join_fields(read_back_fields(fields, desc), spec_decode_fields(rest, desc, files)),
    decreases fields.len(),
{
    if fields.len() == 0 {
        assert(Seq::<u8>::empty() + rest =~= rest);
        if let Ok(x) = spec_decode_fields(rest, desc, files) {
            assert(Seq::<ProtobufFieldView>::empty() + x =~= x);
        }
    } else {
        let last = fields.last();
        let front = fields.drop_last();
        assert(reads_back(fields[fields.len() - 1], desc));
        lemma_field_reads_back(last, desc, files, rest);
        let wl = crate::dynamic_message::spec_write_all(last)->Ok_0;
        assert forall|k: int| 0 <= k < front.len() implies reads_back(#[trigger] front[k], desc) by {
            assert(front[k] == fields[k]);
        }
        lemma_fields_read_back(front, desc, files, wl + rest);
        let wf = crate::dynamic_message::spec_write_fields(front)->Ok_0;
        assert((wf + wl) + rest =~= wf + (wl + rest));
        lemma_join_fields_assoc(read_back_fields(front, desc), read_back_values(last, declared(desc, last), written_values(last)),
            spec_decode_fields(rest, desc, files));
    }
}

/// Every field read back carries the number of a field written, and no greater number than the
/// last one.
proof fn lemma_read_back_numbers(fields: Seq<ProtobufFieldView>, desc: MessageDescriptorView)
    requires
        strictly_ordered(fields),
    ensures
        ordered_by_number(read_back_fields(fields, desc)),
        fields.len() > 0 ==> forall|k: int| 0 <= k < read_back_fields(fields, desc).len()
            ==> (#[trigger] read_back_fields(fields, desc)[k]).field_num <= fields.last().field_num,
    decreases fields.len(),
{
    if fields.len() > 0 {
        let front = fields.drop_last();
        let last = fields.last();
        assert forall|i: int, j: int| 0 <= i < j < front.len() implies (#[trigger] front[i]).field_num < (#[trigger] front[j]).field_num by {
            assert(front[i] == fields[i] && front[j] == fields[j]);
        }
        lemma_read_back_numbers(front, desc);
        let a = read_back_fields(front, desc);
        let b = read_back_values(last, declared(desc, last), written_values(last));
        let r = read_back_fields(fields, desc);
        assert(r == a + b);
        assert forall|k: int| 0 <= k < b.len() implies (#[trigger] b[k]).field_num == last.field_num by {}
        if front.len() > 0 {
            assert(front.last().field_num < last.field_num) by {
                assert(front.last() == fields[fields.len() - 2]);
            }
        }
        assert forall|i: int, j: int| 0 <= i < j < r.len() implies r[i].field_num <= r[j].field_num by {
            if j < a.len() {
                assert(r[i] == a[i] && r[j] == a[j]);
            } else if i < a.len() {
                assert(r[i] == a[i] && r[j] == b[j - a.len()]);
                assert(a[i].field_num <= front.last().field_num);
            } else {
                assert(r[i] == b[i - a.len()] && r[j] == b[j - a.len()]);
            }
        }
        assert forall|k: int| 0 <= k < r.len() implies (#[trigger] r[k]).field_num <= last.field_num by {
            if k < a.len() {
                assert(r[k] == a[k]);
                assert(a[k].field_num <= front.last().field_num);
            } else {
                assert(r[k] == b[k - a.len()]);
            }
        }
    }
}

/// A dynamic message written and decoded with a message descriptor that declares its fields (each
/// with the field's wire type, and values of the kinds the declared types read as) gives back,
/// in order, one field per value written: the value of each field, followed, for a repeated
/// field, by its additional values. The fields come back ordered by field number.
pub proof fn lemma_dynamic_message_roundtrip(
    fields: Seq<ProtobufFieldView>,
    desc: MessageDescriptorView,
    files: Seq<FileDescriptorView>,
)
    requires
        strictly_ordered(fields),
        forall|k: int| 0 <= k < fields.len() ==> reads_back(#[trigger] fields[k], desc),
    ensures
        crate::dynamic_message::spec_write_fields(fields) is Ok,
        spec_decode_message(crate::dynamic_message::spec_write_fields(fields)->Ok_0, desc, files)
            == Ok::<Seq<ProtobufFieldView>, DecodingError>(read_back_fields(fields, desc)),
        ordered_by_number(read_back_fields(fields, desc)),
{
    lemma_fields_read_back(fields, desc, files, Seq::empty());
    let w = crate::dynamic_message::spec_write_fields(fields)->Ok_0;
    assert(w + Seq::<u8>::empty() =~= w);
    assert(spec_decode_fields(Seq::<u8>::empty(), desc, files) == Ok::<Seq<ProtobufFieldView>, DecodingError>(Seq::empty()));
    assert(read_back_fields(fields, desc) + Seq::<ProtobufFieldView>::empty() =~= read_back_fields(fields, desc));
    lemma_read_back_numbers(fields, desc);
}

// ---------------------------------------------------------------------------------------------
// A dynamic message made from fields, written and read back
// ---------------------------------------------------------------------------------------------

/// The fields ordered by field number, by insertion: fields with the same number keep their
/// order.
pub open spec fn stable_sort_by_number(s: Seq<ProtobufFieldView>) -> Seq<ProtobufFieldView>
    decreases s.len(),
{
    if s.len() == 0 {
        s
    } else {
        let sorted = stable_sort_by_number(s.drop_last());
        sorted.insert(spec_insert_pos(sorted, s.last().field_num), s.last())
    }
}

/// A field holding one value of a field that the message descriptor declares, as the decoder
/// reads such a value: with the declared name and descriptor, and the declared type's wire type.
pub open spec fn single_declared(f: ProtobufFieldView, desc: MessageDescriptorView) -> bool {
    &&& reads_back(f, desc)
    &&& f == known_field(f.field_num, declared(desc, f), (f.data, f.wire_type))
}

/// A field number that occurs again is that of a repeated field.
pub open spec fn repeats_repeated(fs: Seq<ProtobufFieldView>) -> bool {
    forall|i: int, j: int|
        0 <= i < j < fs.len() && (#[trigger] fs[i]).field_num == (#[trigger] fs[j]).field_num ==> fs[j].descriptor.is_repeated()
}

/// Consolidated fields that read back: declared as they are, and repeated where they hold more
/// than one value.
spec fn consolidated_ok(c: Seq<ProtobufFieldView>, desc: MessageDescriptorView) -> bool {
    forall|k: int| 0 <= k < c.len() ==> {
        &&& reads_back(#[trigger] c[k], desc)
        &&& c[k].descriptor == declared(desc, c[k])
        &&& (c[k].additional_data.len() > 0 ==> c[k].descriptor.is_repeated())
    }
}

/// Reading back the fields of two parts reads back each part in turn.
proof fn lemma_read_back_concat(a: Seq<ProtobufFieldView>, b: Seq<ProtobufFieldView>, desc: MessageDescriptorView)
    ensures
        read_back_fields(a + b, desc) == read_back_fields(a, desc) + read_back_fields(b, desc),
    decreases b.len(),
{
    if b.len() == 0 {
        assert(a + b =~= a);
        assert(read_back_fields(a, desc) + Seq::<ProtobufFieldView>::empty() =~= read_back_fields(a, desc));
    } else {
        lemma_read_back_concat(a, b.drop_last(), desc);
        assert((a + b).drop_last() =~= a + b.drop_last());
        assert((a + b).last() == b.last());
        let ra = read_back_fields(a, desc);
        let rd = read_back_fields(b.drop_last(), desc);
        let blk = read_back_values(b.last(), declared(desc, b.last()), written_values(b.last()));
        assert(ra + rd + blk =~= ra + (rd + blk));
    }
}

/// The fields read back carry numbers within the bounds of the numbers of the fields written.
proof fn lemma_read_back_bounds(cs: Seq<ProtobufFieldView>, desc: MessageDescriptorView, lo: int, hi: int)
    requires
        forall|k: int| 0 <= k < cs.len() ==> lo <= (#[trigger] cs[k]).field_num <= hi,
    ensures
        forall|j: int| 0 <= j < read_back_fields(cs, desc).len() ==> lo <= (#[trigger] read_back_fields(cs, desc)[j]).field_num <= hi,
    decreases cs.len(),
{
    if cs.len() > 0 {
        let d = cs.drop_last();
        assert forall|k: int| 0 <= k < d.len() implies lo <= (#[trigger] d[k]).field_num <= hi by {
            assert(d[k] == cs[k]);
        }
        lemma_read_back_bounds(d, desc, lo, hi);
        let a = read_back_fields(d, desc);
        let blk = read_back_values(cs.last(), declared(desc, cs.last()), written_values(cs.last()));
        assert forall|j: int| 0 <= j < read_back_fields(cs, desc).len() implies lo <= (#[trigger] read_back_fields(cs, desc)[j]).field_num <= hi by {
            if j >= a.len() {
                assert(read_back_fields(cs, desc)[j] == blk[j - a.len()]);
            } else {
                assert(read_back_fields(cs, desc)[j] == a[j]);
            }
        }
    }
}

/// Where a field of number `n` goes among fields split at `p` into those with numbers up to `n`
/// and those with greater numbers: at `p`.
proof fn lemma_insert_pos_at(s: Seq<ProtobufFieldView>, n: u32, p: int)
    requires
        0 <= p <= s.len(),
        forall|i: int| 0 <= i < p ==> (#[trigger] s[i]).field_num <= n,
        forall|i: int| p <= i < s.len() ==> (#[trigger] s[i]).field_num > n,
    ensures
        spec_insert_pos(s, n) == p,
    decreases s.len(),
{
    if s.len() > 0 {
        if s.last().field_num <= n {
            if p < s.len() {
                assert(s[s.len() - 1].field_num > n);
            }
        } else {
            let d = s.drop_last();
            assert(p < s.len()) by {
                if p == s.len() {
                    assert(s[s.len() - 1].field_num <= n);
                }
            }
            assert forall|i: int| 0 <= i < p implies (#[trigger] d[i]).field_num <= n by {
                assert(d[i] == s[i]);
            }
            assert forall|i: int| p <= i < d.len() implies (#[trigger] d[i]).field_num > n by {
                assert(d[i] == s[i]);
            }
            lemma_insert_pos_at(d, n, p);
        }
    }
}

/// Reading back one field reads back its values.
proof fn lemma_read_back_one(f: ProtobufFieldView, desc: MessageDescriptorView)
    ensures
        read_back_fields(seq![f], desc) == read_back_values(f, declared(desc, f), written_values(f)),
{
    let one = seq![f];
    assert(one.drop_last() =~= Seq::<ProtobufFieldView>::empty());
    assert(one.last() == f);
    let blk = read_back_values(f, declared(desc, f), written_values(f));
    assert(read_back_fields(Seq::<ProtobufFieldView>::empty(), desc) == Seq::<ProtobufFieldView>::empty());
    assert(Seq::<ProtobufFieldView>::empty() + blk =~= blk);
}

/// The numbers of the fields read back from fields split at `p`: up to `n` before, greater after.
proof fn lemma_split_numbers(c: Seq<ProtobufFieldView>, p: int, n: u32, desc: MessageDescriptorView)
    requires
        0 <= p <= c.len(),
        forall|k: int| 0 <= k < p ==> (#[trigger] c[k]).field_num <= n,
        forall|k: int| p <= k < c.len() ==> (#[trigger] c[k]).field_num > n,
    ensures
        forall|j: int| 0 <= j < read_back_fields(c.take(p), desc).len() ==> (#[trigger] read_back_fields(c.take(p), desc)[j]).field_num <= n,
        forall|j: int| 0 <= j < read_back_fields(c.skip(p), desc).len() ==> (#[trigger] read_back_fields(c.skip(p), desc)[j]).field_num > n,
{
    let front = c.take(p);
    let back = c.skip(p);
    assert forall|k: int| 0 <= k < front.len() implies 0 <= (#[trigger] front[k]).field_num <= n by {
        assert(front[k] == c[k]);
    }
    lemma_read_back_bounds(front, desc, 0, n as int);
    assert forall|k: int| 0 <= k < back.len() implies n + 1 <= (#[trigger] back[k]).field_num <= u32::MAX by {
        assert(back[k] == c[k + p]);
    }
    lemma_read_back_bounds(back, desc, n + 1, u32::MAX as int);
}

/// A value added to a consolidated field of its number keeps the consolidated fields reading
/// back.
proof fn lemma_add_to_existing_ok(c: Seq<ProtobufFieldView>, x: ProtobufFieldView, i: int, desc: MessageDescriptorView)
    requires
        consolidated_ok(c, desc),
        single_declared(x, desc),
        x.descriptor.is_repeated(),
        spec_find_num(c, x.field_num) == Some(i),
        0 <= i < c.len(),
        c[i].field_num == x.field_num,
    ensures
        consolidated_ok(spec_add_field(c, x), desc),
{
    let ci = c[i];
    assert(reads_back(ci, desc));
    assert(x.descriptor == declared(desc, x));
    assert(declared(desc, ci) == declared(desc, x));
    assert(written_values(x) =~= seq![x.data]);
    let ci2 = ProtobufFieldView { additional_data: ci.additional_data.push(x.data), ..ci };
    let c2 = c.update(i, ci2);
    assert(c2 == spec_add_field(c, x));
    assert(written_values(ci2) =~= written_values(ci).push(x.data));
    assert forall|k: int| 0 <= k < c2.len() implies {
        &&& reads_back(#[trigger] c2[k], desc)
        &&& c2[k].descriptor == declared(desc, c2[k])
        &&& (c2[k].additional_data.len() > 0 ==> c2[k].descriptor.is_repeated())
    } by {
        if k == i {
            assert forall|m: int| 0 <= m < written_values(ci2).len() implies reads_back_as(
                declared(desc, ci2).field_type(),
                #[trigger] written_values(ci2)[m],
            ) && fits_length(written_values(ci2)[m]) by {
                if m < written_values(ci).len() {
                    assert(written_values(ci2)[m] == written_values(ci)[m]);
                } else {
                    assert(written_values(ci2)[m] == written_values(x)[0]);
                }
            }
        } else {
            assert(c2[k] == c[k]);
        }
    }
}

/// A value added to a consolidated field of its number joins that field's values: it is read
/// back after the fields with numbers up to its own.
#[verifier::rlimit(40)]
proof fn lemma_add_to_existing(c: Seq<ProtobufFieldView>, x: ProtobufFieldView, i: int, desc: MessageDescriptorView)
    requires
        strictly_ordered(c),
        consolidated_ok(c, desc),
        single_declared(x, desc),
        x.descriptor.is_repeated(),
        spec_find_num(c, x.field_num) == Some(i),
        0 <= i < c.len(),
        c[i].field_num == x.field_num,
    ensures
        read_back_fields(spec_add_field(c, x), desc) == read_back_fields(c, desc).insert(
            spec_insert_pos(read_back_fields(c, desc), x.field_num),
            x,
        ),
{
    let r = read_back_fields(c, desc);
    let ci = c[i];
    assert(reads_back(ci, desc));
    assert(x.descriptor == declared(desc, x));
    assert(declared(desc, ci) == declared(desc, x));
    assert(written_values(x) =~= seq![x.data]);
    let ci2 = ProtobufFieldView { additional_data: ci.additional_data.push(x.data), ..ci };
    let c2 = c.update(i, ci2);
    assert(c2 == spec_add_field(c, x));
    assert(written_values(ci2) =~= written_values(ci).push(x.data));
    let fd = declared(desc, ci);
    let blk = read_back_values(ci, fd, written_values(ci));
    let blk2 = read_back_values(ci2, fd, written_values(ci2));
    assert(blk2 =~= blk.push(x));
    let front = c.take(i);
    let back = c.skip(i + 1);
    assert(c =~= front + seq![ci] + back);
    assert(c2 =~= front + seq![ci2] + back);
    lemma_read_back_concat(front + seq![ci], back, desc);
    lemma_read_back_concat(front, seq![ci], desc);
    lemma_read_back_concat(front + seq![ci2], back, desc);
    lemma_read_back_concat(front, seq![ci2], desc);
    lemma_read_back_one(ci, desc);
    lemma_read_back_one(ci2, desc);
    let rf = read_back_fields(front, desc);
    let rb = read_back_fields(back, desc);
    assert(r =~= rf + blk + rb);
    let q = (rf.len() + blk.len()) as int;
    assert(read_back_fields(c2, desc) =~= r.insert(q, x));
    assert forall|k: int| 0 <= k < i + 1 implies (#[trigger] c[k]).field_num <= x.field_num by {}
    assert forall|k: int| i + 1 <= k < c.len() implies (#[trigger] c[k]).field_num > x.field_num by {}
    lemma_split_numbers(c, i + 1, x.field_num, desc);
    assert(c.take(i + 1) =~= front + seq![ci]);
    lemma_read_back_concat(front, seq![ci], desc);
    assert forall|k: int| 0 <= k < q implies (#[trigger] r[k]).field_num <= x.field_num by {
        if k < rf.len() {
            assert(r[k] == rf[k]);
        } else {
            assert(r[k] == blk[k - rf.len()]);
        }
    }
    assert forall|k: int| q <= k < r.len() implies (#[trigger] r[k]).field_num > x.field_num by {
        assert(r[k] == rb[k - q]);
    }
    lemma_insert_pos_at(r, x.field_num, q);
}

/// A field with a new number goes among consolidated fields by its number: it is read back after
/// the fields with smaller numbers.
#[verifier::rlimit(40)]
proof fn lemma_add_new(c: Seq<ProtobufFieldView>, x: ProtobufFieldView, desc: MessageDescriptorView)
    requires
        strictly_ordered(c),
        consolidated_ok(c, desc),
        single_declared(x, desc),
        spec_find_num(c, x.field_num) is None,
    ensures
        consolidated_ok(spec_add_field(c, x), desc),
        read_back_fields(spec_add_field(c, x), desc) == read_back_fields(c, desc).insert(
            spec_insert_pos(read_back_fields(c, desc), x.field_num),
            x,
        ),
{
    let r = read_back_fields(c, desc);
    lemma_find_num_found(c, x.field_num);
    assert(x.descriptor == declared(desc, x));
    assert(written_values(x) =~= seq![x.data]);
    let p = spec_insert_pos(c, x.field_num);
    lemma_insert_pos_bounds(c, x.field_num);
    let c2 = c.insert(p, x);
    assert(c2 == spec_add_field(c, x));
    let front = c.take(p);
    let back = c.skip(p);
    assert(c =~= front + back);
    assert(c2 =~= front + seq![x] + back);
    lemma_read_back_concat(front, back, desc);
    lemma_read_back_concat(front + seq![x], back, desc);
    lemma_read_back_concat(front, seq![x], desc);
    let blk = read_back_values(x, declared(desc, x), written_values(x));
    assert(blk =~= seq![x]);
    lemma_read_back_one(x, desc);
    let rf = read_back_fields(front, desc);
    let rb = read_back_fields(back, desc);
    assert(r =~= rf + rb);
    let q = rf.len() as int;
    assert(read_back_fields(c2, desc) =~= r.insert(q, x));
    lemma_split_numbers(c, p, x.field_num, desc);
    assert forall|k: int| 0 <= k < q implies (#[trigger] r[k]).field_num <= x.field_num by {
        assert(r[k] == rf[k]);
    }
    assert forall|k: int| q <= k < r.len() implies (#[trigger] r[k]).field_num > x.field_num by {
        assert(r[k] == rb[k - q]);
    }
    lemma_insert_pos_at(r, x.field_num, q);
    assert forall|k: int| 0 <= k < c2.len() implies {
        &&& reads_back(#[trigger] c2[k], desc)
        &&& c2[k].descriptor == declared(desc, c2[k])
        &&& (c2[k].additional_data.len() > 0 ==> c2[k].descriptor.is_repeated())
    } by {
        if k < p {
            assert(c2[k] == c[k]);
        } else if k > p {
            assert(c2[k] == c[k - 1]);
        }
    }
}

/// Consolidating fields that each hold one declared value gives fields that read back as the
/// fields given, ordered by number (stably).
proof fn lemma_consolidated_read_back(fs: Seq<ProtobufFieldView>, desc: MessageDescriptorView)
    requires
        forall|k: int| 0 <= k < fs.len() ==> single_declared(#[trigger] fs[k], desc),
        repeats_repeated(fs),
    ensures
        strictly_ordered(spec_consolidate(fs)),
        consolidated_ok(spec_consolidate(fs), desc),
        read_back_fields(spec_consolidate(fs), desc) == stable_sort_by_number(fs),
    decreases fs.len(),
{
    lemma_consolidate(fs);
    if fs.len() > 0 {
        let d = fs.drop_last();
        let x = fs.last();
        assert(single_declared(fs[fs.len() - 1], desc));
        assert forall|k: int| 0 <= k < d.len() implies single_declared(#[trigger] d[k], desc) by {
            assert(d[k] == fs[k]);
        }
        assert forall|i: int, j: int|
            0 <= i < j < d.len() && (#[trigger] d[i]).field_num == (#[trigger] d[j]).field_num implies d[j].descriptor.is_repeated() by {
            assert(d[i] == fs[i] && d[j] == fs[j]);
        }
        lemma_consolidated_read_back(d, desc);
        lemma_consolidate(d);
        let c = spec_consolidate(d);
        lemma_find_num_found(c, x.field_num);
        match spec_find_num(c, x.field_num) {
            Some(i) => {
                assert(c[i].field_num == x.field_num);
                assert(has_num(c, x.field_num));
                assert(has_num(d, x.field_num));
                let j = choose|j: int| 0 <= j < d.len() && #[trigger] d[j].field_num == x.field_num;
                assert(fs[j].field_num == fs[fs.len() - 1].field_num);
                assert(x.descriptor.is_repeated());
                lemma_add_to_existing(c, x, i, desc);
                lemma_add_to_existing_ok(c, x, i, desc);
            },
            None => {
                lemma_add_new(c, x, desc);
            },
        }
    }
}

/// A dynamic message made from fields that each hold one value of a field the message descriptor
/// declares (with the declared name and descriptor, and the declared type's wire type), where a
/// field number that occurs more than once is that of a repeated field, written and decoded with
/// the message descriptor, gives back the fields given, ordered by field number; fields with the
/// same number come back in the order they were given.
pub proof fn lemma_new_write_decode(fs: Seq<ProtobufFieldView>, desc: MessageDescriptorView, files: Seq<FileDescriptorView>)
    requires
        forall|k: int| 0 <= k < fs.len() ==> single_declared(#[trigger] fs[k], desc),
        repeats_repeated(fs),
    ensures
        crate::dynamic_message::spec_write_fields(spec_consolidate(fs)) is Ok,
        spec_decode_message(crate::dynamic_message::spec_write_fields(spec_consolidate(fs))->Ok_0, desc, files)
            == Ok::<Seq<ProtobufFieldView>, DecodingError>(stable_sort_by_number(fs)),
{
    lemma_consolidated_read_back(fs, desc);
    let c = spec_consolidate(fs);
    assert forall|k: int| 0 <= k < c.len() implies reads_back(#[trigger] c[k], desc) by {}
    lemma_dynamic_message_roundtrip(c, desc, files);
}

} // verus!
