//! Reading numbers and booleans from their text form, as Rust's `FromStr` does.
use vstd::prelude::*;
use vstd::string::{StrSliceExecFns, StringExecFns};

verus! {

/// If every character is an ASCII decimal digit.
pub open spec fn all_digits(s: Seq<char>) -> bool {
    forall|i: int| 0 <= i < s.len() ==> '0' <= #[trigger] s[i] <= '9'
}

/// The value of a string of decimal digits.
pub open spec fn digits_value(s: Seq<char>) -> nat
    decreases s.len(),
{
    if s.len() == 0 {
        0
    } else {
        10 * digits_value(s.drop_last()) + ((s.last() as int) - ('0' as int)) as nat
    }
}

/// The number that `s` writes in decimal with an optional leading '+', if it is at most `max`.
pub open spec fn spec_parse_unsigned(s: Seq<char>, max: nat) -> Option<nat> {
    let d = if s.len() > 0 && s[0] == '+' {
        s.drop_first()
    } else {
        s
    };
    if d.len() > 0 && all_digits(d) && digits_value(d) <= max {
        Some(digits_value(d))
    } else {
        None
    }
}

/// The number that `s` writes in decimal with an optional leading '+' or '-', if it lies in
/// `-(max + 1) ..= max`.
pub open spec fn spec_parse_signed(s: Seq<char>, max: nat) -> Option<int> {
    if s.len() > 0 && s[0] == '-' {
        let d = s.drop_first();
        if d.len() > 0 && all_digits(d) && digits_value(d) <= max + 1 {
            Some(-digits_value(d))
        } else {
            None
        }
    } else {
        match spec_parse_unsigned(s, max) {
            Some(v) => Some(v as int),
            None => None,
        }
    }
}

pub open spec fn spec_parse_u32(s: Seq<char>) -> Option<u32> {
    match spec_parse_unsigned(s, u32::MAX as nat) {
        Some(v) => Some(v as u32),
        None => None,
    }
}

pub open spec fn spec_parse_u64(s: Seq<char>) -> Option<u64> {
    match spec_parse_unsigned(s, u64::MAX as nat) {
        Some(v) => Some(v as u64),
        None => None,
    }
}

pub open spec fn spec_parse_i32(s: Seq<char>) -> Option<i32> {
    match spec_parse_signed(s, i32::MAX as nat) {
        Some(v) => Some(v as i32),
        None => None,
    }
}

pub open spec fn spec_parse_i64(s: Seq<char>) -> Option<i64> {
    match spec_parse_signed(s, i64::MAX as nat) {
        Some(v) => Some(v as i64),
        None => None,
    }
}

/// Calls `str::parse::<u32>`. Claimed, as std documents for integer `FromStr`: it succeeds on an
/// optional '+' followed by at least one decimal digit and nothing else, when the value fits.
#[verifier::external_body]
pub(crate) fn parse_u32(s: &str) -> (r: Option<u32>)
    ensures
        r == spec_parse_u32(s@),
{
    s.parse::<u32>().ok()
}

/// The text of the error `str::parse::<u64>` gives for `s` (the `Display` of its
/// `ParseIntError`), which depends on the text alone.
pub uninterp spec fn spec_u64_parse_error(s: Seq<char>) -> Seq<char>;

/// Calls `str::parse::<u64>`, giving the text of the parse error where it fails. Claimed as for
/// `parse_u32`, with the range of `u64`; the error's text is `spec_u64_parse_error` of the input.
#[verifier::external_body]
pub(crate) fn parse_u64_or_error(s: &str) -> (r: Result<u64, String>)
    ensures
        match spec_parse_u64(s@) {
            Some(n) => r == Ok::<u64, String>(n),
            None => r matches Err(e) && e@ == spec_u64_parse_error(s@),
        },
{
    match s.parse::<u64>() {
        Ok(n) => Ok(n),
        Err(e) => Err(format!("{}", e)),
    }
}

/// Reads an unsigned 64 bit integer.
pub(crate) fn parse_u64(s: &str) -> (r: Option<u64>)
    ensures
        r == spec_parse_u64(s@),
{
    match parse_u64_or_error(s) {
        Ok(n) => Some(n),
        Err(_) => None,
    }
}

/// Calls `str::parse::<i32>`. Claimed, as std documents: an optional '+' or '-' followed by at
/// least one decimal digit and nothing else, when the value fits.
#[verifier::external_body]
pub(crate) fn parse_i32(s: &str) -> (r: Option<i32>)
    ensures
        r == spec_parse_i32(s@),
{
    s.parse::<i32>().ok()
}

/// The text of the error `str::parse::<i64>` gives for `s` (the `Display` of its
/// `ParseIntError`), which depends on the text alone.
pub uninterp spec fn spec_i64_parse_error(s: Seq<char>) -> Seq<char>;

/// Calls `str::parse::<i64>`, giving the text of the parse error where it fails. Claimed as for
/// `parse_i32`, with the range of `i64`; the error's text is `spec_i64_parse_error` of the input.
#[verifier::external_body]
pub(crate) fn parse_i64_or_error(s: &str) -> (r: Result<i64, String>)
    ensures
        match spec_parse_i64(s@) {
            Some(n) => r == Ok::<i64, String>(n),
            None => r matches Err(e) && e@ == spec_i64_parse_error(s@),
        },
{
    match s.parse::<i64>() {
        Ok(n) => Ok(n),
        Err(e) => Err(format!("{}", e)),
    }
}

/// Reads a signed 64 bit integer.
pub(crate) fn parse_i64(s: &str) -> (r: Option<i64>)
    ensures
        r == spec_parse_i64(s@),
{
    match parse_i64_or_error(s) {
        Ok(n) => Some(n),
        Err(_) => None,
    }
}

/// The text "true".
pub open spec fn true_text() -> Seq<char> {
    seq!['t', 'r', 'u', 'e']
}

/// The text "false".
pub open spec fn false_text() -> Seq<char> {
    seq!['f', 'a', 'l', 's', 'e']
}

/// Reads a boolean as `bool`'s `FromStr` does: exactly "true" or "false".
pub fn parse_bool(s: &str) -> (r: Option<bool>)
    ensures
        r == (if s@ == true_text() {
            Some(true)
        } else if s@ == false_text() {
            Some(false)
        } else {
            None
        }),
{
    proof {
        reveal_strlit("true");
        reveal_strlit("false");
    }
    let text = String::from_str(s);
    let t = String::from_str("true");
    let f = String::from_str("false");
    assert(t@ =~= true_text());
    assert(f@ =~= false_text());
    if text == t {
        Some(true)
    } else if text == f {
        Some(false)
    } else {
        None
    }
}

/// If the text is exactly "true".
pub fn is_true_text(s: &str) -> (r: bool)
    ensures
        r == (s@ == true_text()),
{
    proof {
        reveal_strlit("true");
    }
    let t = String::from_str("true");
    assert(t@ =~= true_text());
    String::from_str(s) == t
}

/// The decimal digit character for `d` (below ten).
pub open spec fn digit_char(d: nat) -> char {
    (('0' as int) + d) as char
}

/// The decimal form of a natural number, without leading zeros.
pub open spec fn spec_decimal(n: nat) -> Seq<char>
    decreases n,
{
    if n < 10 {
        seq![digit_char(n)]
    } else {
        spec_decimal(n / 10).push(digit_char(n % 10))
    }
}

proof fn lemma_digit_char(d: nat)
    requires
        d < 10,
    ensures
        '0' <= digit_char(d) <= '9',
        (digit_char(d) as int) - ('0' as int) == d,
{
}

/// The decimal form of a natural number is a non-empty string of digits whose value is the
/// number.
pub proof fn lemma_decimal_digits(n: nat)
    ensures
        spec_decimal(n).len() > 0,
        all_digits(spec_decimal(n)),
        digits_value(spec_decimal(n)) == n,
    decreases n,
{
    if n < 10 {
        lemma_digit_char(n);
        let s = spec_decimal(n);
        assert(s.drop_last() =~= Seq::<char>::empty());
        assert(digits_value(Seq::<char>::empty()) == 0);
        assert(s.last() == digit_char(n));
        assert(digits_value(s) == 10 * digits_value(s.drop_last()) + ((s.last() as int) - ('0' as int)) as nat);
    } else {
        lemma_decimal_digits(n / 10);
        lemma_digit_char(n % 10);
        let s = spec_decimal(n);
        let d = spec_decimal(n / 10);
        assert(s.drop_last() =~= d);
        assert(s.last() == digit_char(n % 10));
        assert forall|i: int| 0 <= i < s.len() implies '0' <= #[trigger] s[i] <= '9' by {
            if i < d.len() {
                assert(s[i] == d[i]);
            }
        }
        assert(10 * (n / 10) + n % 10 == n);
        assert(digits_value(s) == 10 * digits_value(s.drop_last()) + ((s.last() as int) - ('0' as int)) as nat);
    }
}

/// The decimal form of an integer, with a leading '-' for negative numbers (as `Display` writes
/// integers).
pub open spec fn spec_signed_decimal(n: int) -> Seq<char> {
    if n < 0 {
        seq!['-'] + spec_decimal((-n) as nat)
    } else {
        spec_decimal(n as nat)
    }
}

fn digit_text(d: u64) -> (r: &'static str)
    requires
        d < 10,
    ensures
        r@ == seq![digit_char(d as nat)],
{
    proof {
        reveal_strlit("0123456789");
    }
    let digits = "0123456789";
    let r = digits.substring_char(d as usize, d as usize + 1);
    assert(r@ =~= seq![digit_char(d as nat)]);
    r
}

/// The decimal form of an unsigned number.
pub fn u64_to_decimal(n: u64) -> (r: String)
    ensures
        r@ == spec_decimal(n as nat),
    decreases n,
{
    if n < 10 {
        String::from_str(digit_text(n))
    } else {
        let mut s = u64_to_decimal(n / 10);
        s.append(digit_text(n % 10));
        s
    }
}

/// The decimal form of a signed number.
pub fn i64_to_decimal(n: i64) -> (r: String)
    ensures
        r@ == spec_signed_decimal(n as int),
{
    if n < 0 {
        let m: u64 = ((-(n + 1)) as u64) + 1;
        proof {
            reveal_strlit("-");
        }
        let r = String::from_str("-").concat(u64_to_decimal(m).as_str());
        assert(r@ =~= seq!['-'] + spec_decimal(m as nat));
        r
    } else {
        u64_to_decimal(n as u64)
    }
}

/// The text of a boolean, "true" or "false".
pub fn bool_to_text(b: bool) -> (r: String)
    ensures
        r@ == (if b { true_text() } else { false_text() }),
{
    proof {
        reveal_strlit("true");
        reveal_strlit("false");
    }
    if b {
        let r = String::from_str("true");
        assert(r@ =~= true_text());
        r
    } else {
        let r = String::from_str("false");
        assert(r@ =~= false_text());
        r
    }
}

/// Reading the decimal form of an integer within the range gives the integer back.
pub proof fn lemma_parse_decimal(v: int, max: nat)
    requires
        -(max + 1) <= v <= max,
    ensures
        spec_parse_signed(spec_signed_decimal(v), max) == Some(v),
        v >= 0 ==> spec_parse_unsigned(spec_signed_decimal(v), max) == Some(v as nat),
{
    if v < 0 {
        let m = (-v) as nat;
        lemma_decimal_digits(m);
        let s = spec_signed_decimal(v);
        assert(s == seq!['-'] + spec_decimal(m));
        assert(s.drop_first() =~= spec_decimal(m));
    } else {
        lemma_decimal_digits(v as nat);
        let s = spec_decimal(v as nat);
        assert('0' <= s[0] <= '9');
    }
}

} // verus!
