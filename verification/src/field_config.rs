//! Field values configured as JSON values: each kind of JSON value sets a field of the message
//! builder, or is refused.
use vstd::prelude::*;
use vstd::string::StringExecFns;
use crate::descriptor::{FieldDescriptor, FieldDescriptorView, FieldType, FileDescriptorSet, FileDescriptorView};
use crate::field_values::{
    construct_numeric_value, spec_number_text, spec_numeric_rtype, spec_value_error, value_for_type, value_for_type_holds,
    JsonNumber,
};
use crate::generators::JsonValue;
use crate::message_builder::{
    field_set, is_field_value, repeated_value_added, EncodeError, MessageBuilder, MessageFieldValue,
    MessageFieldValueType, RType,
};
use crate::text::{bool_to_text, false_text, i64_to_decimal, spec_decimal, spec_signed_decimal, true_text, u64_to_decimal};

verus! {

/// `after` is `before` with `w` stored for the field: added to it for a repeated field, set as
/// its value for any other.
pub open spec fn value_stored(
    after: MessageBuilder,
    before: MessageBuilder,
    fd: FieldDescriptorView,
    name: Seq<char>,
    field_type: MessageFieldValueType,
    w: MessageFieldValue,
) -> bool {
    if field_type == MessageFieldValueType::Repeated {
        repeated_value_added(after, before, fd, name, w)
    } else {
        field_set(after, before, fd, name, w)
    }
}

/// The byte an integer JSON number gives a byte array: its lowest 8 bits.
pub open spec fn number_byte(n: JsonNumber) -> u8 {
    match n {
        JsonNumber::PosInt(u) => u as u8,
        JsonNumber::NegInt(i) => i as u8,
        JsonNumber::Float(_) => 0,
    }
}

/// The decimal text of an integer JSON number.
pub open spec fn number_decimal(n: JsonNumber) -> Seq<char> {
    match n {
        JsonNumber::PosInt(u) => spec_decimal(u as nat),
        JsonNumber::NegInt(i) => spec_signed_decimal(i as int),
        JsonNumber::Float(_) => Seq::empty(),
    }
}

/// Why an array can not be read as bytes: one of its values is not a number, or one is a
/// floating point number (whose text needs floating point arithmetic).
pub open spec fn array_bytes_error(items: Seq<JsonValue>) -> Option<EncodeError> {
    if exists|k: int| 0 <= k < items.len() && !(#[trigger] items[k] is Number) {
        Some(EncodeError::NotConvertible)
    } else if exists|k: int| 0 <= k < items.len() && (#[trigger] items[k] matches JsonValue::Number(JsonNumber::Float(_))) {
        Some(EncodeError::FloatConversion)
    } else {
        None
    }
}

/// The bytes of an array of integer numbers.
pub open spec fn array_bytes(items: Seq<JsonValue>) -> Seq<u8> {
    items.map_values(|v: JsonValue| match v {
        JsonValue::Number(n) => number_byte(n),
        _ => 0u8,
    })
}

/// The numbers of an array of integer numbers, in decimal, separated by commas.
pub open spec fn array_body(items: Seq<JsonValue>) -> Seq<char>
    decreases items.len(),
{
    if items.len() == 0 {
        Seq::empty()
    } else {
        let last = match items.last() {
            JsonValue::Number(n) => number_decimal(n),
            _ => Seq::empty(),
        };
        if items.len() == 1 {
            last
        } else {
            array_body(items.drop_last()) + seq![','] + last
        }
    }
}

/// The JSON text of an array of integer numbers.
pub open spec fn array_text(items: Seq<JsonValue>) -> Seq<char> {
    seq!['['] + array_body(items) + seq![']']
}

/// Reads an array of integer numbers as bytes, with its JSON text.
fn bytes_of_array(items: &Vec<JsonValue>) -> (r: Result<(Vec<u8>, String), EncodeError>)
    ensures
        match array_bytes_error(items@) {
            Some(e) => r == Err::<(Vec<u8>, String), EncodeError>(e),
            None => r matches Ok((b, t)) && b@ == array_bytes(items@) && t@ == array_text(items@),
        },
{
    let mut k: usize = 0;
    while k < items.len()
        invariant
            k <= items@.len(),
            forall|j: int| 0 <= j < k ==> (#[trigger] items@[j]) is Number,
        decreases items@.len() - k,
    {
        match &items[k] {
            JsonValue::Number(_) => {},
            _ => {
                return Err(EncodeError::NotConvertible);
            },
        }
        k = k + 1;
    }
    let mut k: usize = 0;
    while k < items.len()
        invariant
            k <= items@.len(),
            forall|j: int| 0 <= j < items@.len() ==> (#[trigger] items@[j]) is Number,
            forall|j: int| 0 <= j < k ==> !((#[trigger] items@[j]) matches JsonValue::Number(JsonNumber::Float(_))),
        decreases items@.len() - k,
    {
        match &items[k] {
            JsonValue::Number(JsonNumber::Float(_)) => {
                return Err(EncodeError::FloatConversion);
            },
            _ => {},
        }
        k = k + 1;
    }
    let mut bytes: Vec<u8> = Vec::new();
    let mut body = String::from_str("");
    proof {
        reveal_strlit("");
        reveal_strlit(",");
        reveal_strlit("[");
        reveal_strlit("]");
    }
    let mut i: usize = 0;
    assert(items@.take(0) =~= Seq::<JsonValue>::empty());
    while i < items.len()
        invariant
            i <= items@.len(),
            forall|j: int| 0 <= j < items@.len() ==> (#[trigger] items@[j]) is Number,
            forall|j: int| 0 <= j < items@.len() ==> !((#[trigger] items@[j]) matches JsonValue::Number(JsonNumber::Float(_))),
            bytes@ == array_bytes(items@.take(i as int)),
            body@ == array_body(items@.take(i as int)),
        decreases items@.len() - i,
    {
        let ghost prefix = items@.take(i as int);
        let ghost next = items@.take(i + 1);
        proof {
            assert(next.drop_last() =~= prefix);
            assert(next.last() == items@[i as int]);
        }
        let (byte, text) = match &items[i] {
            JsonValue::Number(JsonNumber::PosInt(u)) => ((*u) as u8, u64_to_decimal(*u)),
            JsonValue::Number(JsonNumber::NegInt(n)) => ((*n) as u8, i64_to_decimal(*n)),
            _ => {
                proof {
                    reveal_strlit("");
                }
                (0u8, String::from_str(""))
            },
        };
        let ghost last_text = match items@[i as int] {
            JsonValue::Number(n) => number_decimal(n),
            _ => Seq::<char>::empty(),
        };
        assert(text@ == last_text);
        bytes.push(byte);
        let ghost old_body = body@;
        if i > 0 {
            proof {
                reveal_strlit(",");
            }
            body.append(",");
            assert(body@ =~= old_body + seq![',']);
        }
        body.append(text.as_str());
        proof {
            assert(bytes@ =~= array_bytes(next));
            if i == 0 {
                assert(old_body =~= Seq::<char>::empty());
                assert(body@ =~= last_text);
            } else {
                assert(body@ =~= old_body + seq![','] + last_text);
            }
            assert(body@ =~= array_body(next));
        }
        i = i + 1;
    }
    assert(items@.take(i as int) =~= items@);
    let text = String::from_str("[").concat(body.as_str()).concat("]");
    proof {
        assert(!(exists|k: int| 0 <= k < items@.len() && !(#[trigger] items@[k] is Number)));
        assert(!(exists|k: int| 0 <= k < items@.len() && (#[trigger] items@[k] matches JsonValue::Number(JsonNumber::Float(_)))));
        assert(text@ =~= array_text(items@));
    }
    Ok((bytes, text))
}

/// The value for a field configured with a boolean.
pub open spec fn bool_text(b: bool) -> Seq<char> {
    if b {
        true_text()
    } else {
        false_text()
    }
}

/// A value holding bytes, with the text it was configured with.
pub open spec fn is_bytes_value(v: MessageFieldValue, name: Seq<char>, text: Seq<char>, bytes: Seq<u8>) -> bool {
    &&& v.name@ == name
    &&& v.raw_value is Some
    &&& v.raw_value->0@ == text
    &&& v.rtype matches RType::Bytes(b) && b@ == bytes
}


/// What configuring a field with a JSON value that is not an array of values for a repeated
/// field does, taking the builder from `before` to `after` with the outcome `r`:
/// - `null` sets nothing;
/// - a string is read as the field's type (see `value_for_type_holds`), with the message's
///   descriptor;
/// - a boolean is the value of a boolean field;
/// - a number is read as the field's numeric type (see `spec_numeric_rtype`);
/// - an array of integer numbers is the value of a bytes field (each number's lowest 8 bits, with
///   the array's JSON text);
/// - anything else is refused (`MismatchedType`).
/// A value read is added to a repeated field and set as the value of any other (a bytes value is
/// always set); the outcome holds a value equal to the one stored. Where the value is refused,
/// the builder is unchanged.
pub open spec fn built_single(
    before: MessageBuilder,
    after: MessageBuilder,
    fd: FieldDescriptorView,
    field_type: MessageFieldValueType,
    name: Seq<char>,
    v: JsonValue,
    files: Seq<FileDescriptorView>,
    r: Result<Option<MessageFieldValue>, EncodeError>,
) -> bool {
    match v {
        JsonValue::Null => r == Ok::<Option<MessageFieldValue>, EncodeError>(None) && after == before,
        JsonValue::String(s) => match spec_value_error(s@, fd, before.descriptor@, files) {
            Some(e) => r == Err::<Option<MessageFieldValue>, EncodeError>(e) && after == before,
            None => (r matches Ok(Some(x)) && value_for_type_holds(
                Ok::<MessageFieldValue, EncodeError>(x),
                name,
                s@,
                fd,
                before.descriptor@,
                files,
            )) && exists|w: MessageFieldValue|
                #[trigger] value_for_type_holds(Ok::<MessageFieldValue, EncodeError>(w), name, s@, fd, before.descriptor@, files)
                    && value_stored(after, before, fd, name, field_type, w),
        },
        JsonValue::Bool(b) => if fd.field_type() == FieldType::Bool {
            (r matches Ok(Some(x)) && is_field_value(x, name, bool_text(b), RType::Boolean(b)))
                && exists|w: MessageFieldValue| #[trigger] is_field_value(w, name, bool_text(b), RType::Boolean(b))
                    && value_stored(after, before, fd, name, field_type, w)
        } else {
            r == Err::<Option<MessageFieldValue>, EncodeError>(EncodeError::MismatchedType) && after == before
        },
        JsonValue::Number(n) => match spec_numeric_rtype(fd.field_type(), n) {
            Ok(rt) => (r matches Ok(Some(x)) && is_field_value(x, name, spec_number_text(n), rt))
                && exists|w: MessageFieldValue| #[trigger] is_field_value(w, name, spec_number_text(n), rt)
                    && value_stored(after, before, fd, name, field_type, w),
            Err(e) => r == Err::<Option<MessageFieldValue>, EncodeError>(e) && after == before,
        },
        JsonValue::Array(items) => if fd.field_type() == FieldType::Bytes {
            match array_bytes_error(items@) {
                Some(e) => r == Err::<Option<MessageFieldValue>, EncodeError>(e) && after == before,
                None => (r matches Ok(Some(x)) && is_bytes_value(x, name, array_text(items@), array_bytes(items@)))
                    && exists|w: MessageFieldValue| #[trigger] is_bytes_value(w, name, array_text(items@), array_bytes(items@))
                        && field_set(after, before, fd, name, w),
            }
        } else {
            r == Err::<Option<MessageFieldValue>, EncodeError>(EncodeError::MismatchedType) && after == before
        },
        JsonValue::Object(_) => r == Err::<Option<MessageFieldValue>, EncodeError>(EncodeError::MismatchedType) && after == before,
    }
}

/// The builders `bs` and outcomes `rs` of configuring a repeated field with `items` in turn: each
/// value takes the builder from one to the next (see `built_single`), and each value but the
/// last was read.
pub open spec fn items_trace(
    bs: Seq<MessageBuilder>,
    rs: Seq<Result<Option<MessageFieldValue>, EncodeError>>,
    fd: FieldDescriptorView,
    name: Seq<char>,
    items: Seq<JsonValue>,
    files: Seq<FileDescriptorView>,
) -> bool
    decreases items.len(),
{
    if items.len() == 0 {
        bs.len() == 1 && rs.len() == 0
    } else {
        let n = items.len() as int;
        &&& bs.len() == n + 1
        &&& rs.len() == n
        &&& items_trace(bs.drop_last(), rs.drop_last(), fd, name, items.drop_last(), files)
        &&& (n > 1 ==> rs[n - 2] is Ok)
        &&& built_single(bs[n - 1], bs[n], fd, MessageFieldValueType::Repeated, name, items[n - 1], files, rs[n - 1])
    }
}

/// What configuring a repeated field with the values of an array does: each value in turn
/// configures the field (as `built_single` says, as a repeated field; an array among the values
/// is refused unless the field holds bytes), until one is refused. The outcome is that of the
/// first value, or the refusal; `None` for an empty array.
pub open spec fn built_items(
    before: MessageBuilder,
    after: MessageBuilder,
    fd: FieldDescriptorView,
    name: Seq<char>,
    items: Seq<JsonValue>,
    files: Seq<FileDescriptorView>,
    r: Result<Option<MessageFieldValue>, EncodeError>,
) -> bool {
    exists|bs: Seq<MessageBuilder>, rs: Seq<Result<Option<MessageFieldValue>, EncodeError>>|
        #![trigger items_trace(bs, rs, fd, name, items.take(rs.len() as int), files)]
    {
        let n = rs.len();
        let stopped = n > 0 && rs[n - 1] is Err;
        &&& n <= items.len()
        &&& items_trace(bs, rs, fd, name, items.take(n as int), files)
        &&& bs[0] == before
        &&& bs[n as int] == after
        &&& (n < items.len() ==> stopped)
        &&& r == if stopped {
            rs[n - 1]
        } else if n == 0 {
            Ok::<Option<MessageFieldValue>, EncodeError>(None)
        } else {
            rs[0]
        }
    }
}

/// What configuring a field with a JSON value does (see `built_single`): an array for a repeated
/// field that does not hold bytes configures it with each of its values (see `built_items`).
pub open spec fn built(
    before: MessageBuilder,
    after: MessageBuilder,
    fd: FieldDescriptorView,
    field_type: MessageFieldValueType,
    name: Seq<char>,
    v: JsonValue,
    files: Seq<FileDescriptorView>,
    r: Result<Option<MessageFieldValue>, EncodeError>,
) -> bool {
    if v is Array && fd.field_type() != FieldType::Bytes && field_type == MessageFieldValueType::Repeated {
        built_items(before, after, fd, name, v->Array_0@, files, r)
    } else {
        built_single(before, after, fd, field_type, name, v, files, r)
    }
}

/// Stores a value for a field: adds it to a repeated field, sets it as the value of any other.
fn store(message_builder: &mut MessageBuilder, descriptor: &FieldDescriptor, field_type: MessageFieldValueType, field_name: &str, w: MessageFieldValue)
    requires
        old(message_builder).wf(),
    ensures
        final(message_builder).wf(),
        value_stored(*final(message_builder), *old(message_builder), descriptor@, field_name@, field_type, w),
{
    if field_type == MessageFieldValueType::Repeated {
        message_builder.add_repeated_field_value(descriptor, field_name, w);
    } else {
        message_builder.set_field_value(descriptor, field_name, w);
    }
}

/// Configures a field of the builder with a JSON value that is not an array of values for a
/// repeated field (see `built_single`).
fn build_single_value(
    message_builder: &mut MessageBuilder,
    descriptor: &FieldDescriptor,
    field_type: MessageFieldValueType,
    field_name: &str,
    value: &JsonValue,
    descriptors: &FileDescriptorSet,
) -> (r: Result<Option<MessageFieldValue>, EncodeError>)
    requires
        old(message_builder).wf(),
    ensures
        final(message_builder).wf(),
        built_single(*old(message_builder), *final(message_builder), descriptor@, field_type, field_name@, *value, descriptors@, r),
{
    match value {
        JsonValue::Null => Ok(None),
        JsonValue::String(s) => {
            let x = match value_for_type(field_name, s.as_str(), descriptor, &message_builder.descriptor, descriptors) {
                Ok(x) => x,
                Err(e) => {
                    return Err(e);
                },
            };
            let w = match value_for_type(field_name, s.as_str(), descriptor, &message_builder.descriptor, descriptors) {
                Ok(w) => w,
                Err(e) => {
                    return Err(e);
                },
            };
            let ghost wg = w;
            store(message_builder, descriptor, field_type, field_name, w);
            assert(value_for_type_holds(Ok::<MessageFieldValue, EncodeError>(wg), field_name@, s@, descriptor@, old(message_builder).descriptor@, descriptors@));
            Ok(Some(x))
        },
        JsonValue::Bool(b) => match descriptor.field_type() {
            FieldType::Bool => {
                let x = MessageFieldValue {
                    name: String::from_str(field_name),
                    raw_value: Some(bool_to_text(*b)),
                    rtype: RType::Boolean(*b),
                };
                let w = MessageFieldValue {
                    name: String::from_str(field_name),
                    raw_value: Some(bool_to_text(*b)),
                    rtype: RType::Boolean(*b),
                };
                let ghost wg = w;
                store(message_builder, descriptor, field_type, field_name, w);
                assert(is_field_value(wg, field_name@, bool_text(*b), RType::Boolean(*b)));
                Ok(Some(x))
            },
            _ => Err(EncodeError::MismatchedType),
        },
        JsonValue::Number(n) => match construct_numeric_value(message_builder, field_type, descriptor, field_name, *n) {
            Ok(x) => Ok(Some(x)),
            Err(e) => Err(e),
        },
        JsonValue::Array(items) => match descriptor.field_type() {
            FieldType::Bytes => {
                let (bytes, text) = match bytes_of_array(items) {
                    Ok(x) => x,
                    Err(e) => {
                        return Err(e);
                    },
                };
                let (bytes2, text2) = match bytes_of_array(items) {
                    Ok(x) => x,
                    Err(e) => {
                        return Err(e);
                    },
                };
                let x = MessageFieldValue { name: String::from_str(field_name), raw_value: Some(text), rtype: RType::Bytes(bytes) };
                let w = MessageFieldValue { name: String::from_str(field_name), raw_value: Some(text2), rtype: RType::Bytes(bytes2) };
                let ghost wg = w;
                message_builder.set_field_value(descriptor, field_name, w);
                assert(is_bytes_value(wg, field_name@, array_text(items@), array_bytes(items@)));
                Ok(Some(x))
            },
            _ => Err(EncodeError::MismatchedType),
        },
        JsonValue::Object(_) => Err(EncodeError::MismatchedType),
    }
}

/// Configures a field of the builder with a JSON value (see `built`): returns the value stored
/// (the first one, for an array of values), if any. A string is taken as the field's value as it
/// stands: a matching rule definition is read elsewhere, and the value it defines is what is
/// passed here.
pub fn build_field_value(
    message_builder: &mut MessageBuilder,
    descriptor: &FieldDescriptor,
    field_type: MessageFieldValueType,
    field_name: &str,
    value: &JsonValue,
    descriptors: &FileDescriptorSet,
) -> (r: Result<Option<MessageFieldValue>, EncodeError>)
    requires
        old(message_builder).wf(),
    ensures
        final(message_builder).wf(),
        built(*old(message_builder), *final(message_builder), descriptor@, field_type, field_name@, *value, descriptors@, r),
{
    let is_bytes = match descriptor.field_type() {
        FieldType::Bytes => true,
        _ => false,
    };
    let items = match value {
        JsonValue::Array(items) => items,
        _ => {
            return build_single_value(message_builder, descriptor, field_type, field_name, value, descriptors);
        },
    };
    if is_bytes || field_type != MessageFieldValueType::Repeated {
        return build_single_value(message_builder, descriptor, field_type, field_name, value, descriptors);
    }
    assert(value->Array_0 == *items);
    assert(descriptor@.field_type() != FieldType::Bytes);
    let ghost before = *old(message_builder);
    let ghost fd = descriptor@;
    let ghost name = field_name@;
    let ghost files = descriptors@;
    let ghost mut bs: Seq<MessageBuilder> = seq![before];
    let ghost mut rs: Seq<Result<Option<MessageFieldValue>, EncodeError>> = Seq::empty();
    let mut first: Option<MessageFieldValue> = None;
    let mut i: usize = 0;
    assert(items@.take(0) =~= Seq::<JsonValue>::empty());
    while i < items.len()
        invariant
            message_builder.wf(),
            i <= items@.len(),
            bs.len() == i + 1,
            rs.len() == i,
            bs[0] == before,
            bs[i as int] == *message_builder,
            items_trace(bs, rs, fd, name, items@.take(i as int), files),
            i > 0 ==> rs[i - 1] is Ok,
            Ok::<Option<MessageFieldValue>, EncodeError>(first) == (if i == 0 {
                Ok::<Option<MessageFieldValue>, EncodeError>(None)
            } else {
                rs[0]
            }),
            fd == descriptor@,
            name == field_name@,
            files == descriptors@,
            value is Array,
            value->Array_0 == *items,
            field_type == MessageFieldValueType::Repeated,
            descriptor@.field_type() != FieldType::Bytes,
            before == *old(message_builder),
        decreases items@.len() - i,
    {
        let ghost next = items@.take(i + 1);
        proof {
            assert(next.drop_last() =~= items@.take(i as int));
            assert(next[i as int] == items@[i as int]);
        }
        let res = build_single_value(message_builder, descriptor, MessageFieldValueType::Repeated, field_name, &items[i], descriptors);
        let ghost bs2 = bs.push(*message_builder);
        let ghost rs2 = rs.push(res);
        proof {
            assert(bs2.drop_last() =~= bs);
            assert(rs2.drop_last() =~= rs);
            assert(items_trace(bs2, rs2, fd, name, next, files));
        }
        match res {
            Err(e) => {
                proof {
                    assert(rs2.len() == i + 1);
                    assert(items@.take(rs2.len() as int) == next);
                    assert(bs2[0] == before);
                    assert(bs2[i + 1] == *message_builder);
                    assert(rs2[i as int] == Err::<Option<MessageFieldValue>, EncodeError>(e));
                    assert(items_trace(bs2, rs2, fd, name, items@.take(rs2.len() as int), files));
                    assert(built_items(before, *message_builder, fd, name, items@, files, Err::<Option<MessageFieldValue>, EncodeError>(e)));
                }
                return Err(e);
            },
            Ok(x) => {
                if i == 0 {
                    first = x;
                }
                proof {
                    bs = bs2;
                    rs = rs2;
                }
            },
        }
        i = i + 1;
    }
    proof {
        assert(items@.take(i as int) =~= items@);
        assert(items@.take(rs.len() as int) == items@.take(i as int));
    }
    Ok(first)
}

} // verus!
