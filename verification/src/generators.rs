//! Generated values for message fields: a generated value takes the kind of data of the field
//! it replaces.
//!
//! Random integers, booleans and UUIDs are drawn here; a provider state value (a JSON value) is
//! converted to the field's kind of data here; other generators (dates, times, regular
//! expressions, mock server URLs) produce text elsewhere, and the text is then read as the
//! field's kind of data. Integers and booleans for floating point fields are converted exactly
//! (to the nearest floating point number); a generated decimal number comes with the floating
//! point numbers its text reads as, which the caller reads.
use vstd::prelude::*;
use vstd::string::{StrSliceExecFns, StringExecFns};
use rand::Rng;
use crate::message_decoder::{FieldDataView, ProtobufFieldData};
use crate::field_values::{json_integer, JsonNumber};
use crate::float_bits::{
    f32_bits_of_i64, f32_bits_of_u64, f64_bits_of_i64, f64_bits_of_u64, f64_trunc, spec_f32_bits_of_int,
    spec_f64_bits_of_int, spec_text_int, text_f32_bits, text_f64_bits,
};
use crate::text::{
    bool_to_text, false_text, i64_to_decimal, parse_i32, parse_i64, parse_i64_or_error, parse_u32,
    parse_u64, parse_u64_or_error, spec_i64_parse_error, spec_parse_i32, spec_parse_i64, spec_parse_u32,
    spec_parse_u64, spec_signed_decimal, spec_u64_parse_error, true_text, u64_to_decimal,
};

verus! {

/// The integer types that the text of a provider state value is read as.
#[derive(Clone, Copy, Debug, PartialEq, Eq, Structural)]
pub enum IntKind {
    /// Unsigned 64 bit integers (for unsigned fields).
    U64,
    /// Signed 64 bit integers (for signed fields).
    I64,
}

/// Why a value could not be generated for a field.
#[derive(Clone, Debug, PartialEq, Eq)]
pub enum GenerateError {
    /// The generator can not produce data of the field's kind.
    UnsupportedDataType,
    /// The generated text does not read as the field's kind of data.
    InvalidText,
    /// Text read as a floating point number, or a floating point number narrowed to 32 bits,
    /// which needs floating point arithmetic.
    FloatConversion,
    /// A provider state value that is an array or an object, for a field that takes one value.
    ValueIsCollection,
    /// A provider state value that the field's kind of data can not hold (a null, or a number out
    /// of the field's range).
    NotConvertible,
    /// The text of a provider state value, which does not read as the integer type.
    InvalidNumber(IntKind, String),
}

/// The name of an integer type.
pub open spec fn int_kind_name(k: IntKind) -> Seq<char> {
    match k {
        IntKind::U64 => "u64"@,
        IntKind::I64 => "i64"@,
    }
}

/// The message of an error that generating a value gave.
pub open spec fn spec_generate_message(e: GenerateError) -> Seq<char> {
    match e {
        GenerateError::UnsupportedDataType => "The generator can not produce a value for the field's type"@,
        GenerateError::InvalidText => "The generated text can not be read as the field's type"@,
        GenerateError::FloatConversion => "The value needs a floating point conversion"@,
        GenerateError::ValueIsCollection =>
            "Provider state value is a collection (Array or Object), and can not be injected into a single field"@,
        GenerateError::NotConvertible => "The provider state value can not be converted to the field's type"@,
        GenerateError::InvalidNumber(k, t) => int_kind_name(k) + " can not be generated from '"@ + t@ + "' - "@
            + parse_error_text(k, t@),
    }
}

/// Why the text does not read as the integer type: the text of the parse error (none where it
/// does read as one).
pub open spec fn parse_error_text(k: IntKind, t: Seq<char>) -> Seq<char> {
    match k {
        IntKind::U64 => if spec_parse_u64(t) is None { spec_u64_parse_error(t) } else { Seq::empty() },
        IntKind::I64 => if spec_parse_i64(t) is None { spec_i64_parse_error(t) } else { Seq::empty() },
    }
}

impl GenerateError {
    /// The message of the error.
    pub fn message(&self) -> (r: String)
        ensures
            r@ == spec_generate_message(*self),
    {
        match self {
            GenerateError::UnsupportedDataType => String::from_str("The generator can not produce a value for the field's type"),
            GenerateError::InvalidText => String::from_str("The generated text can not be read as the field's type"),
            GenerateError::FloatConversion => String::from_str("The value needs a floating point conversion"),
            GenerateError::ValueIsCollection => String::from_str(
                "Provider state value is a collection (Array or Object), and can not be injected into a single field",
            ),
            GenerateError::NotConvertible => String::from_str("The provider state value can not be converted to the field's type"),
            GenerateError::InvalidNumber(k, t) => {
                let reason = match k {
                    IntKind::U64 => match parse_u64_or_error(t.as_str()) {
                        Err(e) => e,
                        Ok(_) => {
                            proof {
                                reveal_strlit("");
                            }
                            String::from_str("")
                        },
                    },
                    IntKind::I64 => match parse_i64_or_error(t.as_str()) {
                        Err(e) => e,
                        Ok(_) => {
                            proof {
                                reveal_strlit("");
                            }
                            String::from_str("")
                        },
                    },
                };
                let name = match k {
                    IntKind::U64 => String::from_str("u64"),
                    IntKind::I64 => String::from_str("i64"),
                };
                let r = name.concat(" can not be generated from '").concat(t.as_str()).concat("' - ").concat(reason.as_str());
                assert(r@ =~= int_kind_name(*k) + " can not be generated from '"@ + t@ + "' - "@ + parse_error_text(*k, t@));
                r
            },
        }
    }
}

/// Calls `Rng::gen_range` on the thread's random number generator, for `min..end`. Claimed, as
/// rand documents: the number lies in the range (which must not be empty).
#[verifier::external_body]
fn random_int_in_range(min: i32, end: i32) -> (r: i32)
    requires
        min < end,
    ensures
        min <= r < end,
{
    rand::thread_rng().gen_range(min..end)
}

/// Calls `Rng::gen::<bool>` on the thread's random number generator. Nothing is claimed of the
/// outcome, which is either boolean.
#[verifier::external_body]
fn random_bool() -> (r: bool) {
    rand::thread_rng().gen::<bool>()
}

/// The data of the kind of `value` holding the integer `n`.
pub open spec fn spec_int_data(value: FieldDataView, n: i32) -> Result<FieldDataView, GenerateError> {
    match value {
        FieldDataView::String(_) => Ok(FieldDataView::String(spec_signed_decimal(n as int))),
        FieldDataView::Double(_) => Ok(FieldDataView::Double(spec_f64_bits_of_int(n as int))),
        FieldDataView::Float(_) => Ok(FieldDataView::Float(spec_f32_bits_of_int(n as int))),
        FieldDataView::Integer64(_) => Ok(FieldDataView::Integer64(n as i64)),
        FieldDataView::Integer32(_) => Ok(FieldDataView::Integer32(n)),
        FieldDataView::UInteger64(_) => Ok(FieldDataView::UInteger64(n as u64)),
        FieldDataView::UInteger32(_) => Ok(FieldDataView::UInteger32(n as u32)),
        _ => Err(GenerateError::UnsupportedDataType),
    }
}

/// The view of a result holding field data.
pub open spec fn data_result_view(r: Result<ProtobufFieldData, GenerateError>) -> Result<FieldDataView, GenerateError> {
    match r {
        Ok(d) => Ok(d@),
        Err(e) => Err(e),
    }
}

/// The data of the kind of `value` holding the integer `n`.
pub fn int_data(value: &ProtobufFieldData, n: i32) -> (r: Result<ProtobufFieldData, GenerateError>)
    ensures
        data_result_view(r) == spec_int_data(value@, n),
{
    match value {
        ProtobufFieldData::String(_) => Ok(ProtobufFieldData::String(i64_to_decimal(n as i64))),
        ProtobufFieldData::Double(_) => Ok(ProtobufFieldData::Double(f64_bits_of_i64(n as i64))),
        ProtobufFieldData::Float(_) => Ok(ProtobufFieldData::Float(f32_bits_of_i64(n as i64))),
        ProtobufFieldData::Integer64(_) => Ok(ProtobufFieldData::Integer64(n as i64)),
        ProtobufFieldData::Integer32(_) => Ok(ProtobufFieldData::Integer32(n)),
        ProtobufFieldData::UInteger64(_) => Ok(ProtobufFieldData::UInteger64(n as u64)),
        ProtobufFieldData::UInteger32(_) => Ok(ProtobufFieldData::UInteger32(n as u32)),
        _ => Err(GenerateError::UnsupportedDataType),
    }
}

/// The end of the range of a random integer from `min` to `max` (one past `max`, or `max` itself
/// where that would overflow).
pub open spec fn range_end(max: i32) -> int {
    if max < i32::MAX {
        max + 1
    } else {
        max as int
    }
}

/// Generates a random integer from `min` to `max` for the field whose data is `value`: the data
/// has the field's kind and holds a number in the range.
pub fn generate_random_int(value: &ProtobufFieldData, min: i32, max: i32) -> (r: Result<ProtobufFieldData, GenerateError>)
    requires
        min < range_end(max),
    ensures
        exists|n: i32| min <= n < range_end(max) && #[trigger] spec_int_data(value@, n) == data_result_view(r),
{
    let end = if max < i32::MAX {
        max + 1
    } else {
        max
    };
    let n = random_int_in_range(min, end);
    let r = int_data(value, n);
    assert(spec_int_data(value@, n) == data_result_view(r));
    r
}

/// A random integer generator gives a field data holding the drawn integer itself, of the kind
/// of the field: a signed integer field the integer, an unsigned one the integer where it is not
/// negative, a string field its decimal text, a floating point field the nearest floating point
/// number. Only those kinds take a drawn integer.
pub proof fn lemma_int_data_holds_drawn(value: FieldDataView, n: i32)
    ensures
        match spec_int_data(value, n) {
            Ok(FieldDataView::Integer32(x)) => value is Integer32 && x == n,
            Ok(FieldDataView::Integer64(x)) => value is Integer64 && x == n,
            Ok(FieldDataView::UInteger32(x)) => value is UInteger32 && (n >= 0 ==> x == n),
            Ok(FieldDataView::UInteger64(x)) => value is UInteger64 && (n >= 0 ==> x == n),
            Ok(FieldDataView::String(t)) => value is String && t == spec_signed_decimal(n as int),
            Ok(FieldDataView::Double(b)) => value is Double && b == spec_f64_bits_of_int(n as int),
            Ok(FieldDataView::Float(b)) => value is Float && b == spec_f32_bits_of_int(n as int),
            Ok(_) => false,
            Err(e) => e == GenerateError::UnsupportedDataType && !(value is Integer32 || value is Integer64
                || value is UInteger32 || value is UInteger64 || value is String || value is Double || value is Float),
        },
{
}

/// Whatever a random integer generator draws, an integer field gets a number from the lower to
/// the upper bound (for an unsigned field, where the lower bound is not negative).
pub proof fn lemma_random_int_in_range(min: i32, max: i32, value: FieldDataView, r: Result<FieldDataView, GenerateError>)
    requires
        spec_generates(Generator::RandomInt(min, max), value, r),
    ensures
        r matches Ok(FieldDataView::Integer32(x)) ==> min <= x <= max,
        r matches Ok(FieldDataView::Integer64(x)) ==> min <= x <= max,
        min >= 0 ==> (r matches Ok(FieldDataView::UInteger32(x)) ==> min <= x <= max),
        min >= 0 ==> (r matches Ok(FieldDataView::UInteger64(x)) ==> min <= x <= max),
{
    let n = choose|n: i32| min <= n < range_end(max) && #[trigger] spec_int_data(value, n) == r;
    lemma_int_data_holds_drawn(value, n);
}

/// Bit pattern of the `f32` value 1.0.
pub open spec fn one_f32_bits() -> u32 {
    0x3F80_0000
}

/// Bit pattern of the `f64` value 1.0.
pub open spec fn one_f64_bits() -> u64 {
    0x3FF0_0000_0000_0000
}

/// The data of the kind of `value` holding the boolean `b` (numbers hold 1 or 0).
pub open spec fn spec_bool_data(value: FieldDataView, b: bool) -> Result<FieldDataView, GenerateError> {
    match value {
        FieldDataView::String(_) => Ok(FieldDataView::String(if b { true_text() } else { false_text() })),
        FieldDataView::Boolean(_) => Ok(FieldDataView::Boolean(b)),
        FieldDataView::UInteger32(_) => Ok(FieldDataView::UInteger32(if b { 1 } else { 0 })),
        FieldDataView::Integer32(_) => Ok(FieldDataView::Integer32(if b { 1 } else { 0 })),
        FieldDataView::UInteger64(_) => Ok(FieldDataView::UInteger64(if b { 1 } else { 0 })),
        FieldDataView::Integer64(_) => Ok(FieldDataView::Integer64(if b { 1 } else { 0 })),
        FieldDataView::Float(_) => Ok(FieldDataView::Float(if b { one_f32_bits() } else { 0 })),
        FieldDataView::Double(_) => Ok(FieldDataView::Double(if b { one_f64_bits() } else { 0 })),
        _ => Err(GenerateError::UnsupportedDataType),
    }
}

/// The data of the kind of `value` holding the boolean `b`.
pub fn bool_data(value: &ProtobufFieldData, b: bool) -> (r: Result<ProtobufFieldData, GenerateError>)
    ensures
        data_result_view(r) == spec_bool_data(value@, b),
{
    match value {
        ProtobufFieldData::String(_) => Ok(ProtobufFieldData::String(bool_to_text(b))),
        ProtobufFieldData::Boolean(_) => Ok(ProtobufFieldData::Boolean(b)),
        ProtobufFieldData::UInteger32(_) => Ok(ProtobufFieldData::UInteger32(if b { 1 } else { 0 })),
        ProtobufFieldData::Integer32(_) => Ok(ProtobufFieldData::Integer32(if b { 1 } else { 0 })),
        ProtobufFieldData::UInteger64(_) => Ok(ProtobufFieldData::UInteger64(if b { 1 } else { 0 })),
        ProtobufFieldData::Integer64(_) => Ok(ProtobufFieldData::Integer64(if b { 1 } else { 0 })),
        ProtobufFieldData::Float(_) => Ok(ProtobufFieldData::Float(if b { 0x3F80_0000 } else { 0 })),
        ProtobufFieldData::Double(_) => Ok(ProtobufFieldData::Double(if b { 0x3FF0_0000_0000_0000 } else { 0 })),
        _ => Err(GenerateError::UnsupportedDataType),
    }
}

/// Generates a random boolean for the field whose data is `value`.
pub fn generate_random_boolean(value: &ProtobufFieldData) -> (r: Result<ProtobufFieldData, GenerateError>)
    ensures
        exists|b: bool| #[trigger] spec_bool_data(value@, b) == data_result_view(r),
{
    let b = random_bool();
    let r = bool_data(value, b);
    assert(spec_bool_data(value@, b) == data_result_view(r));
    r
}

/// A random boolean generator gives a field data holding the drawn boolean: the boolean itself,
/// its text, or 1 for true and 0 for false in a number field, of the kind of the field.
pub proof fn lemma_bool_data_holds_drawn(value: FieldDataView, b: bool)
    ensures
        match spec_bool_data(value, b) {
            Ok(FieldDataView::Boolean(x)) => value is Boolean && x == b,
            Ok(FieldDataView::String(t)) => value is String && t == (if b { "true"@ } else { "false"@ }),
            Ok(FieldDataView::Integer32(x)) => value is Integer32 && x == (if b { 1int } else { 0int }),
            Ok(FieldDataView::Integer64(x)) => value is Integer64 && x == (if b { 1int } else { 0int }),
            Ok(FieldDataView::UInteger32(x)) => value is UInteger32 && x == (if b { 1int } else { 0int }),
            Ok(FieldDataView::UInteger64(x)) => value is UInteger64 && x == (if b { 1int } else { 0int }),
            Ok(FieldDataView::Double(x)) => value is Double && x == (if b { spec_f64_bits_of_int(1) } else { spec_f64_bits_of_int(0) }),
            Ok(FieldDataView::Float(x)) => value is Float && x == (if b { spec_f32_bits_of_int(1) } else { spec_f32_bits_of_int(0) }),
            Ok(_) => false,
            Err(e) => e == GenerateError::UnsupportedDataType,
        },
{
    crate::float_bits::lemma_small_int_bits();
    reveal_strlit("true");
    reveal_strlit("false");
}

/// Generated text for a field that only string data can take (UUIDs, random strings,
/// hexadecimal numbers, regular expression matches, dates and times).
pub open spec fn spec_text_data(value: FieldDataView, text: Seq<char>) -> Result<FieldDataView, GenerateError> {
    match value {
        FieldDataView::String(_) => Ok(FieldDataView::String(text)),
        _ => Err(GenerateError::UnsupportedDataType),
    }
}

/// Generated text for a field that only string data can take.
pub fn text_data(value: &ProtobufFieldData, text: String) -> (r: Result<ProtobufFieldData, GenerateError>)
    ensures
        data_result_view(r) == spec_text_data(value@, text@),
{
    match value {
        ProtobufFieldData::String(_) => Ok(ProtobufFieldData::String(text)),
        _ => Err(GenerateError::UnsupportedDataType),
    }
}

/// A generated decimal number for a field, given as its text and as the bit patterns of the
/// 64 and 32 bit floating point numbers the text reads as (where it reads as one): string data
/// holds the text, integer data the integer the text reads as, floating point data the floating
/// point number the text reads as.
pub open spec fn spec_decimal_data(
    value: FieldDataView,
    text: Seq<char>,
    double_bits: Option<u64>,
    float_bits: Option<u32>,
) -> Result<FieldDataView, GenerateError> {
    match value {
        FieldDataView::String(_) => Ok(FieldDataView::String(text)),
        FieldDataView::Double(_) => match double_bits {
            Some(b) => Ok(FieldDataView::Double(b)),
            None => Err(GenerateError::InvalidText),
        },
        FieldDataView::Float(_) => match float_bits {
            Some(b) => Ok(FieldDataView::Float(b)),
            None => Err(GenerateError::InvalidText),
        },
        FieldDataView::Integer64(_) => match spec_parse_i64(text) {
            Some(n) => Ok(FieldDataView::Integer64(n)),
            None => Err(GenerateError::InvalidText),
        },
        FieldDataView::Integer32(_) => match spec_parse_i32(text) {
            Some(n) => Ok(FieldDataView::Integer32(n)),
            None => Err(GenerateError::InvalidText),
        },
        FieldDataView::UInteger64(_) => match spec_parse_u64(text) {
            Some(n) => Ok(FieldDataView::UInteger64(n)),
            None => Err(GenerateError::InvalidText),
        },
        FieldDataView::UInteger32(_) => match spec_parse_u32(text) {
            Some(n) => Ok(FieldDataView::UInteger32(n)),
            None => Err(GenerateError::InvalidText),
        },
        _ => Err(GenerateError::UnsupportedDataType),
    }
}

/// A generated decimal number for a field, given as its text and as the floating point numbers
/// (their bit patterns) the text reads as.
pub fn decimal_data(
    value: &ProtobufFieldData,
    text: &str,
    double_bits: Option<u64>,
    float_bits: Option<u32>,
) -> (r: Result<ProtobufFieldData, GenerateError>)
    ensures
        data_result_view(r) == spec_decimal_data(value@, text@, double_bits, float_bits),
{
    match value {
        ProtobufFieldData::String(_) => Ok(ProtobufFieldData::String(String::from_str(text))),
        ProtobufFieldData::Double(_) => match double_bits {
            Some(b) => Ok(ProtobufFieldData::Double(b)),
            None => Err(GenerateError::InvalidText),
        },
        ProtobufFieldData::Float(_) => match float_bits {
            Some(b) => Ok(ProtobufFieldData::Float(b)),
            None => Err(GenerateError::InvalidText),
        },
        ProtobufFieldData::Integer64(_) => match parse_i64(text) {
            Some(n) => Ok(ProtobufFieldData::Integer64(n)),
            None => Err(GenerateError::InvalidText),
        },
        ProtobufFieldData::Integer32(_) => match parse_i32(text) {
            Some(n) => Ok(ProtobufFieldData::Integer32(n)),
            None => Err(GenerateError::InvalidText),
        },
        ProtobufFieldData::UInteger64(_) => match parse_u64(text) {
            Some(n) => Ok(ProtobufFieldData::UInteger64(n)),
            None => Err(GenerateError::InvalidText),
        },
        ProtobufFieldData::UInteger32(_) => match parse_u32(text) {
            Some(n) => Ok(ProtobufFieldData::UInteger32(n)),
            None => Err(GenerateError::InvalidText),
        },
        _ => Err(GenerateError::UnsupportedDataType),
    }
}


// ---------------------------------------------------------------------------------------------
// Provider state values
// ---------------------------------------------------------------------------------------------

/// A JSON value, as the provider state gives it.
#[derive(Debug, PartialEq)]
pub enum JsonValue {
    /// `null`.
    Null,
    /// `true` or `false`.
    Bool(bool),
    /// A number.
    Number(JsonNumber),
    /// A string.
    String(String),
    /// An array of values.
    Array(Vec<JsonValue>),
    /// An object: its keys with their values.
    Object(Vec<(String, JsonValue)>),
}

/// The unsigned integer a provider state value gives an unsigned integer field: a boolean gives
/// 1 or 0, a number the integer it gives (a floating point number rounded toward zero), text the
/// number it reads as.
pub open spec fn spec_state_u64(v: JsonValue) -> Result<u64, GenerateError> {
    match v {
        JsonValue::Bool(b) => Ok(if b { 1 } else { 0 }),
        JsonValue::Number(n) => match json_integer(n) {
            Some(x) => if 0 <= x <= u64::MAX {
                Ok(x as u64)
            } else {
                Err(GenerateError::NotConvertible)
            },
            None => Err(GenerateError::NotConvertible),
        },
        JsonValue::String(s) => match spec_parse_u64(s@) {
            Some(x) => Ok(x),
            None => Err(GenerateError::InvalidNumber(IntKind::U64, s)),
        },
        JsonValue::Null => Err(GenerateError::NotConvertible),
        _ => Err(GenerateError::ValueIsCollection),
    }
}

/// The signed integer a provider state value gives a signed integer field, as for unsigned ones.
pub open spec fn spec_state_i64(v: JsonValue) -> Result<i64, GenerateError> {
    match v {
        JsonValue::Bool(b) => Ok(if b { 1 } else { 0 }),
        JsonValue::Number(n) => match json_integer(n) {
            Some(x) => if i64::MIN <= x <= i64::MAX {
                Ok(x as i64)
            } else {
                Err(GenerateError::NotConvertible)
            },
            None => Err(GenerateError::NotConvertible),
        },
        JsonValue::String(s) => match spec_parse_i64(s@) {
            Some(x) => Ok(x),
            None => Err(GenerateError::InvalidNumber(IntKind::I64, s)),
        },
        JsonValue::Null => Err(GenerateError::NotConvertible),
        _ => Err(GenerateError::ValueIsCollection),
    }
}

/// The data a provider state value gives a field whose data is `value`, of the same kind:
/// - an array or an object gives none (`ValueIsCollection`), whatever the field;
/// - a string field takes the text of a string, "true" or "false" for a boolean, the decimal
///   form of an integer number, "null" for a null;
/// - a boolean field takes a boolean, or text that is "true" or "false";
/// - an integer field takes the 64 bit integer of the value's sign (see `spec_state_u64` and
///   `spec_state_i64`), cut to the lower 32 bits for a 32 bit field;
/// - a 64 bit floating point field takes a floating point number as it is, and the floating point
///   number nearest to an integer number or to the integer of text in integer form, 1 or 0 for a
///   boolean;
/// - a 32 bit floating point field takes the 32 bit floating point number nearest to an integer
///   number or to the integer of text in integer form (nearest to its nearest 64 bit one, which
///   is the same), 1 or 0 for a boolean.
/// Other text for a floating point field, and a floating point number for a 32 bit floating
/// point field, need floating point arithmetic (`FloatConversion`); other fields take no value.
pub open spec fn spec_state_data(value: FieldDataView, v: JsonValue) -> Result<FieldDataView, GenerateError> {
    if v is Array || v is Object {
        Err(GenerateError::ValueIsCollection)
    } else {
        match value {
            FieldDataView::String(_) => match v {
                JsonValue::String(s) => Ok(FieldDataView::String(s@)),
                JsonValue::Bool(b) => Ok(FieldDataView::String(if b { true_text() } else { false_text() })),
                JsonValue::Number(n) => match n {
                    JsonNumber::Float(_) => Err(GenerateError::FloatConversion),
                    _ => Ok(FieldDataView::String(spec_signed_decimal(json_integer(n)->0))),
                },
                _ => Ok(FieldDataView::String("null"@)),
            },
            FieldDataView::Boolean(_) => match v {
                JsonValue::Bool(b) => Ok(FieldDataView::Boolean(b)),
                JsonValue::String(s) => if s@ == true_text() {
                    Ok(FieldDataView::Boolean(true))
                } else if s@ == false_text() {
                    Ok(FieldDataView::Boolean(false))
                } else {
                    Err(GenerateError::InvalidText)
                },
                _ => Err(GenerateError::NotConvertible),
            },
            FieldDataView::UInteger64(_) => match spec_state_u64(v) {
                Ok(x) => Ok(FieldDataView::UInteger64(x)),
                Err(e) => Err(e),
            },
            FieldDataView::UInteger32(_) => match spec_state_u64(v) {
                Ok(x) => Ok(FieldDataView::UInteger32(x as u32)),
                Err(e) => Err(e),
            },
            FieldDataView::Integer64(_) => match spec_state_i64(v) {
                Ok(x) => Ok(FieldDataView::Integer64(x)),
                Err(e) => Err(e),
            },
            FieldDataView::Integer32(_) => match spec_state_i64(v) {
                Ok(x) => Ok(FieldDataView::Integer32(x as i32)),
                Err(e) => Err(e),
            },
            FieldDataView::Double(_) => match v {
                JsonValue::Bool(b) => Ok(FieldDataView::Double(if b { one_f64_bits() } else { 0 })),
                JsonValue::Number(n) => match n {
                    JsonNumber::Float(bits) => Ok(FieldDataView::Double(bits)),
                    _ => Ok(FieldDataView::Double(spec_f64_bits_of_int(json_integer(n)->0))),
                },
                JsonValue::String(s) => match spec_text_int(s@) {
                    Some(x) => Ok(FieldDataView::Double(spec_f64_bits_of_int(x))),
                    None => Err(GenerateError::FloatConversion),
                },
                _ => Err(GenerateError::NotConvertible),
            },
            FieldDataView::Float(_) => match v {
                JsonValue::Bool(b) => Ok(FieldDataView::Float(if b { one_f32_bits() } else { 0 })),
                JsonValue::Number(n) => match n {
                    JsonNumber::Float(_) => Err(GenerateError::FloatConversion),
                    _ => Ok(FieldDataView::Float(spec_f32_bits_of_int(json_integer(n)->0))),
                },
                JsonValue::String(s) => match spec_text_int(s@) {
                    Some(x) => Ok(FieldDataView::Float(spec_f32_bits_of_int(x))),
                    None => Err(GenerateError::FloatConversion),
                },
                _ => Err(GenerateError::NotConvertible),
            },
            _ => Err(GenerateError::UnsupportedDataType),
        }
    }
}

/// A provider state number or boolean is carried into a field of the same meaning: an integer
/// that fits the field's integer type is that integer, a boolean field takes the boolean, and
/// the decimal form of a 64 bit integer read for a 64 bit field of its sign is that integer.
pub proof fn lemma_state_data_keeps_values(value: FieldDataView, v: JsonValue, n: int)
    ensures
        v matches JsonValue::Number(JsonNumber::PosInt(u)) ==> {
            &&& value is UInteger64 ==> spec_state_data(value, v) == Ok::<FieldDataView, GenerateError>(FieldDataView::UInteger64(u))
            &&& (value is UInteger32 && u <= u32::MAX) ==> spec_state_data(value, v) == Ok::<FieldDataView, GenerateError>(FieldDataView::UInteger32(u as u32))
            &&& (value is Integer64 && u <= i64::MAX) ==> spec_state_data(value, v) == Ok::<FieldDataView, GenerateError>(FieldDataView::Integer64(u as i64))
            &&& (value is Integer32 && u <= i32::MAX) ==> spec_state_data(value, v) == Ok::<FieldDataView, GenerateError>(FieldDataView::Integer32(u as i32))
        },
        v matches JsonValue::Number(JsonNumber::NegInt(i)) ==> {
            &&& value is Integer64 ==> spec_state_data(value, v) == Ok::<FieldDataView, GenerateError>(FieldDataView::Integer64(i))
            &&& (value is Integer32 && i32::MIN <= i <= i32::MAX) ==> spec_state_data(value, v) == Ok::<FieldDataView, GenerateError>(FieldDataView::Integer32(i as i32))
            &&& (value is UInteger64 && i < 0) ==> spec_state_data(value, v) == Err::<FieldDataView, GenerateError>(GenerateError::NotConvertible)
        },
        (v matches JsonValue::Bool(b) && value is Boolean) ==> spec_state_data(value, v) == Ok::<FieldDataView, GenerateError>(FieldDataView::Boolean(v->Bool_0)),
        (v matches JsonValue::String(t) && t@ == spec_signed_decimal(n) && value is Integer64 && i64::MIN <= n <= i64::MAX)
            ==> spec_state_data(value, v) == Ok::<FieldDataView, GenerateError>(FieldDataView::Integer64(n as i64)),
        (v matches JsonValue::String(t) && t@ == spec_signed_decimal(n) && value is UInteger64 && 0 <= n <= u64::MAX)
            ==> spec_state_data(value, v) == Ok::<FieldDataView, GenerateError>(FieldDataView::UInteger64(n as u64)),
{
    if i64::MIN <= n <= i64::MAX {
        crate::text::lemma_parse_decimal(n, i64::MAX as nat);
    }
    if 0 <= n <= u64::MAX {
        crate::text::lemma_parse_decimal(n, u64::MAX as nat);
    }
    if let JsonValue::Number(JsonNumber::PosInt(u)) = v {
        assert((u as u64) as u32 == u as u32);
    }
}

/// The integer of a JSON number, where it is a signed 64 bit integer.
fn json_i64(n: JsonNumber) -> (r: Option<i64>)
    ensures
        r == (match json_integer(n) {
            Some(x) => if i64::MIN <= x <= i64::MAX { Some(x as i64) } else { None },
            None => None,
        }),
{
    match n {
        JsonNumber::PosInt(u) => if u <= 0x7FFF_FFFF_FFFF_FFFF {
            Some(u as i64)
        } else {
            None
        },
        JsonNumber::NegInt(i) => Some(i),
        JsonNumber::Float(bits) => match f64_trunc(bits) {
            Some((neg, mag)) => if neg {
                if mag <= 0x8000_0000_0000_0000 {
                    if mag == 0x8000_0000_0000_0000 {
                        Some(i64::MIN)
                    } else {
                        Some(-(mag as i64))
                    }
                } else {
                    None
                }
            } else if mag <= 0x7FFF_FFFF_FFFF_FFFF {
                Some(mag as i64)
            } else {
                None
            },
            None => None,
        },
    }
}

/// The integer of a JSON number, where it is an unsigned 64 bit integer.
fn json_u64(n: JsonNumber) -> (r: Option<u64>)
    ensures
        r == (match json_integer(n) {
            Some(x) => if 0 <= x <= u64::MAX { Some(x as u64) } else { None },
            None => None,
        }),
{
    match n {
        JsonNumber::PosInt(u) => Some(u),
        JsonNumber::NegInt(i) => if i >= 0 {
            Some(i as u64)
        } else {
            None
        },
        JsonNumber::Float(bits) => match f64_trunc(bits) {
            Some((neg, mag)) => if neg {
                None
            } else {
                Some(mag)
            },
            None => None,
        },
    }
}

/// The unsigned integer a provider state value gives an unsigned integer field.
fn state_u64(v: &JsonValue) -> (r: Result<u64, GenerateError>)
    ensures
        r == spec_state_u64(*v),
{
    match v {
        JsonValue::Bool(b) => Ok(if *b { 1 } else { 0 }),
        JsonValue::Number(n) => match json_u64(*n) {
            Some(x) => Ok(x),
            None => Err(GenerateError::NotConvertible),
        },
        JsonValue::String(s) => match parse_u64(s.as_str()) {
            Some(x) => Ok(x),
            None => Err(GenerateError::InvalidNumber(IntKind::U64, s.clone())),
        },
        JsonValue::Null => Err(GenerateError::NotConvertible),
        _ => Err(GenerateError::ValueIsCollection),
    }
}

/// The signed integer a provider state value gives a signed integer field.
fn state_i64(v: &JsonValue) -> (r: Result<i64, GenerateError>)
    ensures
        r == spec_state_i64(*v),
{
    match v {
        JsonValue::Bool(b) => Ok(if *b { 1 } else { 0 }),
        JsonValue::Number(n) => match json_i64(*n) {
            Some(x) => Ok(x),
            None => Err(GenerateError::NotConvertible),
        },
        JsonValue::String(s) => match parse_i64(s.as_str()) {
            Some(x) => Ok(x),
            None => Err(GenerateError::InvalidNumber(IntKind::I64, s.clone())),
        },
        JsonValue::Null => Err(GenerateError::NotConvertible),
        _ => Err(GenerateError::ValueIsCollection),
    }
}

/// The decimal form of an integer JSON number.
fn json_int_text(n: JsonNumber) -> (r: String)
    requires
        !(n is Float),
    ensures
        r@ == spec_signed_decimal(json_integer(n)->0),
{
    match n {
        JsonNumber::NegInt(i) => i64_to_decimal(i),
        _ => match n {
            JsonNumber::PosInt(u) => u64_to_decimal(u),
            _ => String::from_str(""),
        },
    }
}

/// The data a provider state value gives the field whose data is `value` (see
/// `spec_state_data`).
pub fn state_data(value: &ProtobufFieldData, v: &JsonValue) -> (r: Result<ProtobufFieldData, GenerateError>)
    ensures
        data_result_view(r) == spec_state_data(value@, *v),
{
    let collection = match v {
        JsonValue::Array(_) | JsonValue::Object(_) => true,
        _ => false,
    };
    if collection {
        return Err(GenerateError::ValueIsCollection);
    }
    match value {
        ProtobufFieldData::String(_) => match v {
            JsonValue::String(s) => Ok(ProtobufFieldData::String(s.clone())),
            JsonValue::Bool(b) => Ok(ProtobufFieldData::String(bool_to_text(*b))),
            JsonValue::Number(n) => match n {
                JsonNumber::Float(_) => Err(GenerateError::FloatConversion),
                _ => Ok(ProtobufFieldData::String(json_int_text(*n))),
            },
            _ => Ok(ProtobufFieldData::String(String::from_str("null"))),
        },
        ProtobufFieldData::Boolean(_) => match v {
            JsonValue::Bool(b) => Ok(ProtobufFieldData::Boolean(*b)),
            JsonValue::String(s) => match crate::text::parse_bool(s.as_str()) {
                Some(b) => Ok(ProtobufFieldData::Boolean(b)),
                None => Err(GenerateError::InvalidText),
            },
            _ => Err(GenerateError::NotConvertible),
        },
        ProtobufFieldData::UInteger64(_) => match state_u64(v) {
            Ok(x) => Ok(ProtobufFieldData::UInteger64(x)),
            Err(e) => Err(e),
        },
        ProtobufFieldData::UInteger32(_) => match state_u64(v) {
            Ok(x) => Ok(ProtobufFieldData::UInteger32(x as u32)),
            Err(e) => Err(e),
        },
        ProtobufFieldData::Integer64(_) => match state_i64(v) {
            Ok(x) => Ok(ProtobufFieldData::Integer64(x)),
            Err(e) => Err(e),
        },
        ProtobufFieldData::Integer32(_) => match state_i64(v) {
            Ok(x) => Ok(ProtobufFieldData::Integer32(x as i32)),
            Err(e) => Err(e),
        },
        ProtobufFieldData::Double(_) => match v {
            JsonValue::Bool(b) => Ok(ProtobufFieldData::Double(if *b { 0x3FF0_0000_0000_0000 } else { 0 })),
            JsonValue::Number(n) => match n {
                JsonNumber::Float(bits) => Ok(ProtobufFieldData::Double(*bits)),
                JsonNumber::PosInt(u) => Ok(ProtobufFieldData::Double(f64_bits_of_u64(*u))),
                JsonNumber::NegInt(i) => Ok(ProtobufFieldData::Double(f64_bits_of_i64(*i))),
            },
            JsonValue::String(s) => match text_f64_bits(s.as_str()) {
                Some(bits) => Ok(ProtobufFieldData::Double(bits)),
                None => Err(GenerateError::FloatConversion),
            },
            _ => Err(GenerateError::NotConvertible),
        },
        ProtobufFieldData::Float(_) => match v {
            JsonValue::Bool(b) => Ok(ProtobufFieldData::Float(if *b { 0x3F80_0000 } else { 0 })),
            JsonValue::Number(n) => match n {
                JsonNumber::Float(_) => Err(GenerateError::FloatConversion),
                JsonNumber::PosInt(u) => Ok(ProtobufFieldData::Float(f32_bits_of_u64(*u))),
                JsonNumber::NegInt(i) => Ok(ProtobufFieldData::Float(f32_bits_of_i64(*i))),
            },
            JsonValue::String(s) => match text_f32_bits(s.as_str()) {
                Some(bits) => Ok(ProtobufFieldData::Float(bits)),
                None => Err(GenerateError::FloatConversion),
            },
            _ => Err(GenerateError::NotConvertible),
        },
        _ => Err(GenerateError::UnsupportedDataType),
    }
}


/// The text forms of a UUID.
#[derive(Clone, Copy, Debug, PartialEq, Eq, Structural)]
pub enum UuidFormat {
    /// 32 lower case hexadecimal digits.
    Simple,
    /// Lower case hexadecimal digits in groups of 8, 4, 4, 4 and 12, joined by hyphens.
    LowerCaseHyphenated,
    /// Upper case hexadecimal digits in groups of 8, 4, 4, 4 and 12, joined by hyphens.
    UpperCaseHyphenated,
    /// `urn:uuid:` followed by the lower case hyphenated form.
    Urn,
}

/// A decimal digit or a lower case letter from 'a' to 'f'.
pub open spec fn is_lower_hex(c: char) -> bool {
    ('0' <= c <= '9') || ('a' <= c <= 'f')
}

/// A decimal digit or an upper case letter from 'A' to 'F'.
pub open spec fn is_upper_hex(c: char) -> bool {
    ('0' <= c <= '9') || ('A' <= c <= 'F')
}

/// The positions of the hyphens in the hyphenated form of a UUID.
pub open spec fn is_hyphen_position(i: int) -> bool {
    i == 8 || i == 13 || i == 18 || i == 23
}

/// Text in the hyphenated form of a UUID, with upper or lower case digits.
pub open spec fn hyphenated_text(s: Seq<char>, upper: bool) -> bool {
    &&& s.len() == 36
    &&& forall|i: int|
        0 <= i < 36 ==> if is_hyphen_position(i) {
            s[i] == '-'
        } else if upper {
            is_upper_hex(#[trigger] s[i])
        } else {
            is_lower_hex(s[i])
        }
}

/// Text in the simple form of a UUID.
pub open spec fn simple_text(s: Seq<char>) -> bool {
    &&& s.len() == 32
    &&& forall|i: int| 0 <= i < 32 ==> is_lower_hex(#[trigger] s[i])
}

/// Text in the URN form of a UUID.
pub open spec fn urn_text(s: Seq<char>) -> bool {
    &&& s.len() == 45
    &&& s.take(9) == "urn:uuid:"@
    &&& hyphenated_text(s.skip(9), false)
}

/// Text in the given form of a UUID.
pub open spec fn uuid_text(format: UuidFormat, s: Seq<char>) -> bool {
    match format {
        UuidFormat::Simple => simple_text(s),
        UuidFormat::LowerCaseHyphenated => hyphenated_text(s, false),
        UuidFormat::UpperCaseHyphenated => hyphenated_text(s, true),
        UuidFormat::Urn => urn_text(s),
    }
}

/// Calls `Uuid::new_v4` and formats the UUID with `as_simple`. Claimed, as the uuid source
/// shows: 32 lower case hexadecimal digits. Nothing is claimed of which digits, which are random.
#[verifier::external_body]
fn new_uuid_simple() -> (r: String)
    ensures
        simple_text(r@),
{
    uuid::Uuid::new_v4().as_simple().to_string()
}

/// Calls `Uuid::new_v4` and formats the UUID with `as_hyphenated`. Claimed, as the uuid source
/// shows: groups of 8, 4, 4, 4 and 12 lower case hexadecimal digits joined by hyphens. Nothing is
/// claimed of which digits, which are random.
#[verifier::external_body]
fn new_uuid_hyphenated() -> (r: String)
    ensures
        hyphenated_text(r@, false),
{
    uuid::Uuid::new_v4().as_hyphenated().to_string()
}

/// Calls `Uuid::new_v4` and formats the UUID with `as_urn`. Claimed, as the uuid source shows:
/// `urn:uuid:` followed by the hyphenated form. Nothing is claimed of which digits, which are
/// random.
#[verifier::external_body]
fn new_uuid_urn() -> (r: String)
    ensures
        urn_text(r@),
{
    uuid::Uuid::new_v4().as_urn().to_string()
}

/// The upper case letter of a lower case ASCII letter; other characters are kept.
pub open spec fn ascii_upper(c: char) -> char {
    if 'a' <= c <= 'z' {
        ((c as u32) - 32) as char
    } else {
        c
    }
}

/// The upper case ASCII letter at position `i` of the alphabet, as text.
fn upper_letter_text(i: u32) -> (r: &'static str)
    requires
        i < 26,
    ensures
        r@ == seq![((('A' as u32) + i) as char)],
{
    proof {
        reveal_strlit("ABCDEFGHIJKLMNOPQRSTUVWXYZ");
    }
    let letters = "ABCDEFGHIJKLMNOPQRSTUVWXYZ";
    let r = letters.substring_char(i as usize, i as usize + 1);
    assert(r@ =~= seq![((('A' as u32) + i) as char)]);
    r
}

/// The text with its lower case ASCII letters in upper case.
pub fn to_ascii_upper(s: &str) -> (r: String)
    ensures
        r@ == s@.map_values(|c: char| ascii_upper(c)),
{
    let n = s.unicode_len();
    let mut out = String::from_str("");
    let mut i: usize = 0;
    proof {
        reveal_strlit("");
    }
    while i < n
        invariant
            n == s@.len(),
            i <= n,
            out@ == s@.take(i as int).map_values(|c: char| ascii_upper(c)),
        decreases n - i,
    {
        let c = s.get_char(i);
        let piece = if 'a' <= c && c <= 'z' {
            let k: u32 = (c as u32) - ('a' as u32);
            upper_letter_text(k)
        } else {
            s.substring_char(i, i + 1)
        };
        assert(piece@ == seq![ascii_upper(c)]);
        out.append(piece);
        assert(s@.take(i + 1) =~= s@.take(i as int).push(c));
        assert(out@ =~= s@.take(i + 1).map_values(|c: char| ascii_upper(c)));
        i = i + 1;
    }
    assert(s@.take(n as int) =~= s@);
    out
}

/// Upper case letters of the digits of a lower case hyphenated UUID give the upper case form.
proof fn lemma_upper_hyphenated(s: Seq<char>)
    requires
        hyphenated_text(s, false),
    ensures
        hyphenated_text(s.map_values(|c: char| ascii_upper(c)), true),
{
    let u = s.map_values(|c: char| ascii_upper(c));
    assert forall|i: int| 0 <= i < 36 implies if is_hyphen_position(i) {
        u[i] == '-'
    } else {
        is_upper_hex(#[trigger] u[i])
    } by {
        assert(u[i] == ascii_upper(s[i]));
    }
}

/// A generated UUID for a field, in the given form (lower case hyphenated where none is given):
/// only string data can take one.
pub fn generate_uuid(value: &ProtobufFieldData, format: Option<UuidFormat>) -> (r: Result<ProtobufFieldData, GenerateError>)
    ensures
        match value@ {
            FieldDataView::String(_) => r matches Ok(ProtobufFieldData::String(t)) && uuid_text(
                match format {
                    Some(f) => f,
                    None => UuidFormat::LowerCaseHyphenated,
                },
                t@,
            ),
            _ => r == Err::<ProtobufFieldData, GenerateError>(GenerateError::UnsupportedDataType),
        },
{
    match value {
        ProtobufFieldData::String(_) => {
            let f = match format {
                Some(f) => f,
                None => UuidFormat::LowerCaseHyphenated,
            };
            let text = match f {
                UuidFormat::Simple => new_uuid_simple(),
                UuidFormat::LowerCaseHyphenated => new_uuid_hyphenated(),
                UuidFormat::UpperCaseHyphenated => {
                    let lower = new_uuid_hyphenated();
                    proof {
                        lemma_upper_hyphenated(lower@);
                    }
                    to_ascii_upper(lower.as_str())
                },
                UuidFormat::Urn => new_uuid_urn(),
            };
            Ok(ProtobufFieldData::String(text))
        },
        _ => Err(GenerateError::UnsupportedDataType),
    }
}


/// The form a UUID takes where a generator names none.
pub open spec fn uuid_format_or_default(f: Option<UuidFormat>) -> UuidFormat {
    match f {
        Some(x) => x,
        None => UuidFormat::LowerCaseHyphenated,
    }
}

/// A generator of values for message fields. Generators whose values other crates produce
/// (dates, times, regular expression matches, random strings and decimals) are given by the text
/// they produced; a provider state generator by the value the provider state holds for it.
#[derive(Debug, PartialEq)]
pub enum Generator {
    /// A random integer from the first bound to the second, both included.
    RandomInt(i32, i32),
    /// A random boolean.
    RandomBoolean,
    /// A random UUID, in the given form (lower case hyphenated where none is given).
    Uuid(Option<UuidFormat>),
    /// Generated text, which only string fields take.
    Text(String),
    /// A generated decimal number: its text, and the bit patterns of the 64 and 32 bit floating
    /// point numbers the text reads as (where it reads as one).
    Decimal(String, Option<u64>, Option<u32>),
    /// The value the provider state gives for the generator's expression.
    ProviderState(JsonValue),
}

/// A generator that can draw a value: the range of a random integer is not empty.
pub open spec fn generator_ok(g: Generator) -> bool {
    g matches Generator::RandomInt(min, max) ==> min < range_end(max)
}

/// `r` is a possible outcome of the generator for a field whose data is `value`.
pub open spec fn spec_generates(g: Generator, value: FieldDataView, r: Result<FieldDataView, GenerateError>) -> bool {
    match g {
        Generator::RandomInt(min, max) => exists|n: i32| min <= n < range_end(max) && #[trigger] spec_int_data(value, n) == r,
        Generator::RandomBoolean => exists|b: bool| #[trigger] spec_bool_data(value, b) == r,
        Generator::Uuid(f) => match value {
            FieldDataView::String(_) => r matches Ok(FieldDataView::String(t)) && uuid_text(uuid_format_or_default(f), t),
            _ => r == Err::<FieldDataView, GenerateError>(GenerateError::UnsupportedDataType),
        },
        Generator::Text(t) => r == spec_text_data(value, t@),
        Generator::Decimal(t, d, f) => r == spec_decimal_data(value, t@, d, f),
        Generator::ProviderState(v) => r == spec_state_data(value, v),
    }
}

impl Generator {
    /// Generates a value for the field whose data is `value`, of the same kind of data.
    pub fn generate_value(&self, value: &ProtobufFieldData) -> (r: Result<ProtobufFieldData, GenerateError>)
        requires
            generator_ok(*self),
        ensures
            spec_generates(*self, value@, data_result_view(r)),
    {
        match self {
            Generator::RandomInt(min, max) => generate_random_int(value, *min, *max),
            Generator::RandomBoolean => generate_random_boolean(value),
            Generator::Uuid(f) => generate_uuid(value, *f),
            Generator::Text(t) => text_data(value, t.clone()),
            Generator::Decimal(t, d, f) => decimal_data(value, t.as_str(), *d, *f),
            Generator::ProviderState(v) => state_data(value, v),
        }
    }
}

} // verus!
