//! gRPC status codes given in message metadata, and metadata keys with a special meaning.
use vstd::prelude::*;
use vstd::string::StrSliceExecFns;
use vstd::utf8::encode_utf8;

verus! {

/// A gRPC status code.
#[derive(Clone, Copy, Debug, PartialEq, Eq, Structural)]
pub enum GrpcCode {
    Success,
    Cancelled,
    Unknown,
    InvalidArgument,
    DeadlineExceeded,
    NotFound,
    AlreadyExists,
    PermissionDenied,
    ResourceExhausted,
    FailedPrecondition,
    Aborted,
    OutOfRange,
    Unimplemented,
    Internal,
    Unavailable,
    DataLoss,
    Unauthenticated,
}

/// A gRPC status: a code that is not `Ok`, and a message.
#[derive(Clone, Debug, PartialEq)]
pub struct GrpcStatus {
    pub code: GrpcCode,
    pub message: String,
}

/// The code with the given number (0 to 16); any other number is `Unknown`.
pub open spec fn spec_code_from_number(n: i32) -> GrpcCode {
    if n == 0 {
        GrpcCode::Success
    } else if n == 1 {
        GrpcCode::Cancelled
    } else if n == 2 {
        GrpcCode::Unknown
    } else if n == 3 {
        GrpcCode::InvalidArgument
    } else if n == 4 {
        GrpcCode::DeadlineExceeded
    } else if n == 5 {
        GrpcCode::NotFound
    } else if n == 6 {
        GrpcCode::AlreadyExists
    } else if n == 7 {
        GrpcCode::PermissionDenied
    } else if n == 8 {
        GrpcCode::ResourceExhausted
    } else if n == 9 {
        GrpcCode::FailedPrecondition
    } else if n == 10 {
        GrpcCode::Aborted
    } else if n == 11 {
        GrpcCode::OutOfRange
    } else if n == 12 {
        GrpcCode::Unimplemented
    } else if n == 13 {
        GrpcCode::Internal
    } else if n == 14 {
        GrpcCode::Unavailable
    } else if n == 15 {
        GrpcCode::DataLoss
    } else if n == 16 {
        GrpcCode::Unauthenticated
    } else {
        GrpcCode::Unknown
    }
}

/// The number of a code written as one or two ASCII decimal digits ("0" to "16"), as the
/// `grpc-status` header carries it; any other bytes read as 2 (`Unknown`).
pub open spec fn spec_code_number_of_bytes(b: Seq<u8>) -> i32 {
    if b.len() == 1 && 0x30 <= b[0] <= 0x39 {
        (b[0] - 0x30) as i32
    } else if b.len() == 2 && b[0] == 0x31 && 0x30 <= b[1] <= 0x36 {
        (10 + b[1] - 0x30) as i32
    } else {
        2
    }
}

/// Calls `tonic::Code::from_bytes` and gives the number of the code. Claimed, as tonic's source
/// has it: "0" to "9" and "10" to "16" give the code of that number; other bytes give `Unknown`.
#[verifier::external_body]
fn code_number_from_bytes(bytes: &[u8]) -> (r: i32)
    ensures
        r == spec_code_number_of_bytes(bytes@),
{
    i32::from(tonic::Code::from_bytes(bytes))
}

/// The code with the given number; any other number is `Unknown`.
pub fn code_from_number(n: i32) -> (r: GrpcCode)
    ensures
        r == spec_code_from_number(n),
{
    if n == 0 {
        GrpcCode::Success
    } else if n == 1 {
        GrpcCode::Cancelled
    } else if n == 2 {
        GrpcCode::Unknown
    } else if n == 3 {
        GrpcCode::InvalidArgument
    } else if n == 4 {
        GrpcCode::DeadlineExceeded
    } else if n == 5 {
        GrpcCode::NotFound
    } else if n == 6 {
        GrpcCode::AlreadyExists
    } else if n == 7 {
        GrpcCode::PermissionDenied
    } else if n == 8 {
        GrpcCode::ResourceExhausted
    } else if n == 9 {
        GrpcCode::FailedPrecondition
    } else if n == 10 {
        GrpcCode::Aborted
    } else if n == 11 {
        GrpcCode::OutOfRange
    } else if n == 12 {
        GrpcCode::Unimplemented
    } else if n == 13 {
        GrpcCode::Internal
    } else if n == 14 {
        GrpcCode::Unavailable
    } else if n == 15 {
        GrpcCode::DataLoss
    } else if n == 16 {
        GrpcCode::Unauthenticated
    } else {
        GrpcCode::Unknown
    }
}

/// The number gRPC gives each status code (`OK` is 0, `CANCELLED` 1, and so on to
/// `UNAUTHENTICATED`, 16), as the `grpc-status` header writes it.
pub open spec fn spec_code_number(code: GrpcCode) -> i32 {
    match code {
        GrpcCode::Success => 0,
        GrpcCode::Cancelled => 1,
        GrpcCode::Unknown => 2,
        GrpcCode::InvalidArgument => 3,
        GrpcCode::DeadlineExceeded => 4,
        GrpcCode::NotFound => 5,
        GrpcCode::AlreadyExists => 6,
        GrpcCode::PermissionDenied => 7,
        GrpcCode::ResourceExhausted => 8,
        GrpcCode::FailedPrecondition => 9,
        GrpcCode::Aborted => 10,
        GrpcCode::OutOfRange => 11,
        GrpcCode::Unimplemented => 12,
        GrpcCode::Internal => 13,
        GrpcCode::Unavailable => 14,
        GrpcCode::DataLoss => 15,
        GrpcCode::Unauthenticated => 16,
    }
}

/// Reading a code from its number gives the code back, for every code; the numbers 0 to 16 each
/// name a different code, and each is the number of the code it names. Any other number reads
/// as `Unknown`.
pub proof fn lemma_code_number_roundtrip(code: GrpcCode, n: i32, m: i32)
    ensures
        spec_code_from_number(spec_code_number(code)) == code,
        0 <= n <= 16 ==> spec_code_number(spec_code_from_number(n)) == n,
        0 <= n <= 16 && 0 <= m <= 16 && n != m ==> spec_code_from_number(n) != spec_code_from_number(m),
        !(0 <= n <= 16) ==> spec_code_from_number(n) == GrpcCode::Unknown,
{
}

/// A status given by its number in decimal ("0" to "16") names the code with that number; a
/// status given by a code's documented name names that code.
pub proof fn lemma_status_text_names_code(code: GrpcCode)
    ensures
        ({
            let n = spec_code_number(code);
            let digits: Seq<u8> = if n < 10 {
                seq![(0x30 + n) as u8]
            } else {
                seq![0x31u8, (0x30 + n - 10) as u8]
            };
            spec_code_from_number(spec_code_number_of_bytes(digits)) == code
        }),
        spec_code_of_text(spec_code_desc(code), encode_utf8(spec_code_desc(code))) == code,
{
    reveal_strlit("OK");
    reveal_strlit("CANCELLED");
    reveal_strlit("UNKNOWN");
    reveal_strlit("INVALID_ARGUMENT");
    reveal_strlit("DEADLINE_EXCEEDED");
    reveal_strlit("NOT_FOUND");
    reveal_strlit("ALREADY_EXISTS");
    reveal_strlit("PERMISSION_DENIED");
    reveal_strlit("RESOURCE_EXHAUSTED");
    reveal_strlit("FAILED_PRECONDITION");
    reveal_strlit("ABORTED");
    reveal_strlit("OUT_OF_RANGE");
    reveal_strlit("UNIMPLEMENTED");
    reveal_strlit("INTERNAL");
    reveal_strlit("UNAVAILABLE");
    reveal_strlit("DATA_LOSS");
    reveal_strlit("UNAUTHENTICATED");
}

/// The name of a code, as gRPC's documentation of status codes writes it.
pub open spec fn spec_code_desc(code: GrpcCode) -> Seq<char> {
    match code {
        GrpcCode::Success => "OK"@,
        GrpcCode::Cancelled => "CANCELLED"@,
        GrpcCode::Unknown => "UNKNOWN"@,
        GrpcCode::InvalidArgument => "INVALID_ARGUMENT"@,
        GrpcCode::DeadlineExceeded => "DEADLINE_EXCEEDED"@,
        GrpcCode::NotFound => "NOT_FOUND"@,
        GrpcCode::AlreadyExists => "ALREADY_EXISTS"@,
        GrpcCode::PermissionDenied => "PERMISSION_DENIED"@,
        GrpcCode::ResourceExhausted => "RESOURCE_EXHAUSTED"@,
        GrpcCode::FailedPrecondition => "FAILED_PRECONDITION"@,
        GrpcCode::Aborted => "ABORTED"@,
        GrpcCode::OutOfRange => "OUT_OF_RANGE"@,
        GrpcCode::Unimplemented => "UNIMPLEMENTED"@,
        GrpcCode::Internal => "INTERNAL"@,
        GrpcCode::Unavailable => "UNAVAILABLE"@,
        GrpcCode::DataLoss => "DATA_LOSS"@,
        GrpcCode::Unauthenticated => "UNAUTHENTICATED"@,
    }
}

/// The name of a code.
pub fn code_desc(code: &GrpcCode) -> (r: String)
    ensures
        r@ == spec_code_desc(*code),
{
    let s = match code {
        GrpcCode::Success => "OK",
        GrpcCode::Cancelled => "CANCELLED",
        GrpcCode::Unknown => "UNKNOWN",
        GrpcCode::InvalidArgument => "INVALID_ARGUMENT",
        GrpcCode::DeadlineExceeded => "DEADLINE_EXCEEDED",
        GrpcCode::NotFound => "NOT_FOUND",
        GrpcCode::AlreadyExists => "ALREADY_EXISTS",
        GrpcCode::PermissionDenied => "PERMISSION_DENIED",
        GrpcCode::ResourceExhausted => "RESOURCE_EXHAUSTED",
        GrpcCode::FailedPrecondition => "FAILED_PRECONDITION",
        GrpcCode::Aborted => "ABORTED",
        GrpcCode::OutOfRange => "OUT_OF_RANGE",
        GrpcCode::Unimplemented => "UNIMPLEMENTED",
        GrpcCode::Internal => "INTERNAL",
        GrpcCode::Unavailable => "UNAVAILABLE",
        GrpcCode::DataLoss => "DATA_LOSS",
        GrpcCode::Unauthenticated => "UNAUTHENTICATED",
    };
    String::from_str(s)
}

/// The code a status text names: one of the names gRPC documents (see `spec_code_desc`), or else
/// the code whose number it is.
pub open spec fn spec_code_of_text(status: Seq<char>, bytes: Seq<u8>) -> GrpcCode {
    if status == "OK"@ {
        GrpcCode::Success
    } else if status == "CANCELLED"@ {
        GrpcCode::Cancelled
    } else if status == "UNKNOWN"@ {
        GrpcCode::Unknown
    } else if status == "INVALID_ARGUMENT"@ {
        GrpcCode::InvalidArgument
    } else if status == "DEADLINE_EXCEEDED"@ {
        GrpcCode::DeadlineExceeded
    } else if status == "NOT_FOUND"@ {
        GrpcCode::NotFound
    } else if status == "ALREADY_EXISTS"@ {
        GrpcCode::AlreadyExists
    } else if status == "PERMISSION_DENIED"@ {
        GrpcCode::PermissionDenied
    } else if status == "RESOURCE_EXHAUSTED"@ {
        GrpcCode::ResourceExhausted
    } else if status == "FAILED_PRECONDITION"@ {
        GrpcCode::FailedPrecondition
    } else if status == "ABORTED"@ {
        GrpcCode::Aborted
    } else if status == "OUT_OF_RANGE"@ {
        GrpcCode::OutOfRange
    } else if status == "UNIMPLEMENTED"@ {
        GrpcCode::Unimplemented
    } else if status == "INTERNAL"@ {
        GrpcCode::Internal
    } else if status == "UNAVAILABLE"@ {
        GrpcCode::Unavailable
    } else if status == "DATA_LOSS"@ {
        GrpcCode::DataLoss
    } else if status == "UNAUTHENTICATED"@ {
        GrpcCode::Unauthenticated
    } else {
        spec_code_from_number(spec_code_number_of_bytes(bytes))
    }
}

/// The status a status text and a message give: none for `OK`, else the code the text names
/// with the message.
pub fn string_to_code(status: &str, message: &str) -> (r: Option<GrpcStatus>)
    ensures
        match spec_code_of_text(status@, encode_utf8(status@)) {
            GrpcCode::Success => r is None,
            c => (r matches Some(s) && s.code == c && s.message@ == message@),
        },
{
    let text = String::from_str(status);
    let code = if text == String::from_str("OK") {
        GrpcCode::Success
    } else if text == String::from_str("CANCELLED") {
        GrpcCode::Cancelled
    } else if text == String::from_str("UNKNOWN") {
        GrpcCode::Unknown
    } else if text == String::from_str("INVALID_ARGUMENT") {
        GrpcCode::InvalidArgument
    } else if text == String::from_str("DEADLINE_EXCEEDED") {
        GrpcCode::DeadlineExceeded
    } else if text == String::from_str("NOT_FOUND") {
        GrpcCode::NotFound
    } else if text == String::from_str("ALREADY_EXISTS") {
        GrpcCode::AlreadyExists
    } else if text == String::from_str("PERMISSION_DENIED") {
        GrpcCode::PermissionDenied
    } else if text == String::from_str("RESOURCE_EXHAUSTED") {
        GrpcCode::ResourceExhausted
    } else if text == String::from_str("FAILED_PRECONDITION") {
        GrpcCode::FailedPrecondition
    } else if text == String::from_str("ABORTED") {
        GrpcCode::Aborted
    } else if text == String::from_str("OUT_OF_RANGE") {
        GrpcCode::OutOfRange
    } else if text == String::from_str("UNIMPLEMENTED") {
        GrpcCode::Unimplemented
    } else if text == String::from_str("INTERNAL") {
        GrpcCode::Internal
    } else if text == String::from_str("UNAVAILABLE") {
        GrpcCode::Unavailable
    } else if text == String::from_str("DATA_LOSS") {
        GrpcCode::DataLoss
    } else if text == String::from_str("UNAUTHENTICATED") {
        GrpcCode::Unauthenticated
    } else {
        code_from_number(code_number_from_bytes(status.as_bytes()))
    };
    match code {
        GrpcCode::Success => None,
        c => Some(GrpcStatus { code: c, message: String::from_str(message) }),
    }
}

/// The text that stands for a missing `grpc-message`.
pub open spec fn no_message_text() -> Seq<char> {
    "No message set"@
}

/// The gRPC status that a response's metadata sets: from its `grpc-status` value, where it has
/// one, with its `grpc-message` value (or "No message set").
pub fn grpc_status(status: Option<&str>, message: Option<&str>) -> (r: Option<GrpcStatus>)
    ensures
        match status {
            None => r is None,
            Some(s) => {
                let m = match message {
                    Some(m) => m@,
                    None => no_message_text(),
                };
                match spec_code_of_text(s@, encode_utf8(s@)) {
                    GrpcCode::Success => r is None,
                    c => (r matches Some(st) && st.code == c && st.message@ == m),
                }
            },
        },
{
    match status {
        None => None,
        Some(s) => match message {
            Some(m) => string_to_code(s, m),
            None => string_to_code(s, "No message set"),
        },
    }
}

/// The ASCII lower case of a character (other characters are left as they are).
pub open spec fn ascii_lower(c: char) -> char {
    if 'A' <= c <= 'Z' {
        ((c as u32) + 32) as char
    } else {
        c
    }
}

/// The key, in lower case, is "content-type" or "contenttype".
pub open spec fn spec_is_special_metadata_key(key: Seq<char>) -> bool {
    let lower = key.map_values(|c: char| ascii_lower(c));
    lower == "content-type"@ || lower == "contenttype"@
}

/// If the text, in lower case, is `target` (which has no upper case letters).
fn lower_equals(key: &str, target: &str) -> (r: bool)
    ensures
        r == (key@.map_values(|c: char| ascii_lower(c)) == target@),
{
    let n = key.unicode_len();
    if n != target.unicode_len() {
        proof {
            assert(key@.map_values(|c: char| ascii_lower(c)).len() != target@.len());
        }
        return false;
    }
    let mut i: usize = 0;
    while i < n
        invariant
            n == key@.len(),
            n == target@.len(),
            i <= n,
            forall|k: int| 0 <= k < i ==> ascii_lower(#[trigger] key@[k]) == target@[k],
        decreases n - i,
    {
        let c = key.get_char(i);
        let lc = if 'A' <= c && c <= 'Z' {
            char_plus_32(c)
        } else {
            c
        };
        if lc != target.get_char(i) {
            proof {
                assert(key@.map_values(|c: char| ascii_lower(c))[i as int] != target@[i as int]);
            }
            return false;
        }
        i = i + 1;
    }
    assert(key@.map_values(|c: char| ascii_lower(c)) =~= target@);
    true
}

/// The lower case letter of an upper case ASCII letter.
fn char_plus_32(c: char) -> (r: char)
    requires
        'A' <= c <= 'Z',
    ensures
        r == ascii_lower(c),
{
    let n: u32 = c as u32;
    let m: u8 = (n + 32) as u8;
    m as char
}

/// If the metadata key is the content type key ("content-type" or "contenttype", in any case),
/// which is not compared as metadata.
pub fn is_special_metadata_key(key: &String) -> (r: bool)
    ensures
        r == spec_is_special_metadata_key(key@),
{
    proof {
        reveal_strlit("content-type");
        reveal_strlit("contenttype");
    }
    lower_equals(key.as_str(), "content-type") || lower_equals(key.as_str(), "contenttype")
}

} // verus!
