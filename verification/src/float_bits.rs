//! The IEEE-754 bit patterns of the floating point numbers nearest to integers (as `as f64` and
//! `as f32` convert them: round to nearest, ties to even), computed with integer arithmetic.
use vstd::prelude::*;
use vstd::arithmetic::power2::{lemma2_to64, lemma2_to64_rest, lemma_pow2_adds, lemma_pow2_pos, lemma_pow2_strictly_increases, pow2};
use vstd::arithmetic::div_mod::{lemma_div_is_ordered, lemma_multiply_divide_lt};
use vstd::arithmetic::mul::{lemma_mul_inequality, lemma_mul_strict_inequality};
use crate::text::{parse_i64, parse_u64, spec_parse_i64, spec_parse_u64};

verus! {

/// The number of binary digits of `m` (none for zero).
pub open spec fn bit_len(m: nat) -> nat
    decreases m,
{
    if m == 0 {
        0
    } else {
        1 + bit_len(m / 2)
    }
}

/// `m` divided by 2^s, rounded to the nearest integer, ties to the even one.
pub open spec fn round_div_pow2(m: nat, s: nat) -> nat {
    if s == 0 {
        m
    } else {
        let q = m / pow2(s);
        let r = m % pow2(s);
        let half = pow2((s - 1) as nat);
        if r > half || (r == half && q % 2 == 1) {
            q + 1
        } else {
            q
        }
    }
}

/// The significand (`p` bits, with its leading one) and the binary exponent of the floating
/// point number with `p` bits of precision nearest to `m` (which is not zero), ties to even.
pub open spec fn rounded(m: nat, p: nat) -> (nat, nat) {
    let k = bit_len(m);
    if k <= p {
        (m * pow2((p - k) as nat), (k - 1) as nat)
    } else {
        let q = round_div_pow2(m, (k - p) as nat);
        if q == pow2(p) {
            (pow2((p - 1) as nat), k)
        } else {
            (q, (k - 1) as nat)
        }
    }
}

/// The bit pattern of the floating point number (precision `p`, exponent bias `bias`, sign bit
/// at `width - 1`) nearest to the integer of sign `neg` and magnitude `m`.
pub open spec fn float_bits_of_int(neg: bool, m: nat, p: nat, bias: nat, width: nat) -> nat {
    if m == 0 {
        0
    } else {
        let (mant, e) = rounded(m, p);
        ((if neg {
            pow2((width - 1) as nat)
        } else {
            0
        }) + (e + bias) * pow2((p - 1) as nat) + (mant - pow2((p - 1) as nat))) as nat
    }
}

/// The magnitude of an integer.
pub open spec fn magnitude(n: int) -> nat {
    if n < 0 {
        (-n) as nat
    } else {
        n as nat
    }
}

/// The bit pattern of the `f64` nearest to `n`.
#[verifier::opaque]
pub open spec fn spec_f64_bits_of_int(n: int) -> u64 {
    float_bits_of_int(n < 0, magnitude(n), 53, 1023, 64) as u64
}

/// The bit pattern of the `f32` nearest to `n`.
#[verifier::opaque]
pub open spec fn spec_f32_bits_of_int(n: int) -> u32 {
    float_bits_of_int(n < 0, magnitude(n), 24, 127, 32) as u32
}

/// Zero and one are the floating point numbers with bit patterns 0 and those of 1.0
/// (`0x3FF0_0000_0000_0000` for `f64`, `0x3F80_0000` for `f32`).
pub proof fn lemma_small_int_bits()
    ensures
        spec_f64_bits_of_int(0) == 0,
        spec_f64_bits_of_int(1) == 0x3FF0_0000_0000_0000,
        spec_f32_bits_of_int(0) == 0,
        spec_f32_bits_of_int(1) == 0x3F80_0000,
{
    reveal(spec_f64_bits_of_int);
    reveal(spec_f32_bits_of_int);
    lemma2_to64();
    lemma2_to64_rest();
    assert(bit_len(0) == 0);
    assert(bit_len(1) == 1);
    assert(rounded(1, 53) == (pow2(52), 0nat));
    assert(magnitude(1) == 1);
    assert(pow2(52) == 0x10_0000_0000_0000);
    assert((0nat + (0nat + 1023nat) * pow2(52) + (pow2(52) - pow2(52))) == 0x3FF0_0000_0000_0000);
    assert(float_bits_of_int(false, 1, 53, 1023, 64) == 0x3FF0_0000_0000_0000);
    assert(rounded(1, 24) == (pow2(23), 0nat));
}

proof fn lemma_bit_len_bounds(m: nat)
    requires
        m > 0,
    ensures
        bit_len(m) >= 1,
        pow2((bit_len(m) - 1) as nat) <= m < pow2(bit_len(m)),
    decreases m,
{
    lemma_pow2_pos(0);
    if m == 1 {
        assert(bit_len(0) == 0);
        assert(bit_len(1) == 1);
        assert(pow2(0) == 1 && pow2(1) == 2) by {
            lemma2_to64();
        }
    } else {
        lemma_bit_len_bounds(m / 2);
        let k = bit_len(m / 2);
        assert(bit_len(m) == k + 1);
        assert(pow2(k) == 2 * pow2((k - 1) as nat)) by {
            lemma_pow2_adds(1, (k - 1) as nat);
            lemma2_to64();
        }
        assert(pow2(k + 1) == 2 * pow2(k)) by {
            lemma_pow2_adds(1, k);
            lemma2_to64();
        }
    }
}

proof fn lemma_bit_len_at_most(m: nat, w: nat)
    requires
        0 < m < pow2(w),
    ensures
        bit_len(m) <= w,
{
    lemma_bit_len_bounds(m);
    if bit_len(m) > w {
        lemma_pow2_strictly_increases(w, (bit_len(m) - 1) as nat);
        if bit_len(m) - 1 == w {
        }
    }
}

/// The significand lies between 2^(p-1) and 2^p, and the exponent is at most the bit length.
proof fn lemma_rounded_bounds(m: nat, p: nat)
    requires
        m > 0,
        p >= 2,
    ensures
        pow2((p - 1) as nat) <= rounded(m, p).0 < pow2(p),
        rounded(m, p).1 <= bit_len(m),
{
    lemma_bit_len_bounds(m);
    let k = bit_len(m);
    lemma_pow2_pos((p - 1) as nat);
    if k <= p {
        let f = pow2((p - k) as nat);
        lemma_pow2_pos((p - k) as nat);
        lemma_pow2_adds((k - 1) as nat, (p - k) as nat);
        lemma_pow2_adds(k, (p - k) as nat);
        lemma_mul_inequality(pow2((k - 1) as nat) as int, m as int, f as int);
        lemma_mul_strict_inequality(m as int, pow2(k) as int, f as int);
    } else {
        let s = (k - p) as nat;
        let d = pow2(s);
        lemma_pow2_pos(s);
        lemma_pow2_adds((p - 1) as nat, s);
        lemma_pow2_adds(p, s);
        let q = m / d;
        assert((pow2((p - 1) as nat) * d) / d == pow2((p - 1) as nat)) by {
            vstd::arithmetic::div_mod::lemma_div_by_multiple(pow2((p - 1) as nat) as int, d as int);
        }
        lemma_div_is_ordered((pow2((p - 1) as nat) * d) as int, m as int, d as int);
        lemma_multiply_divide_lt(m as int, d as int, pow2(p) as int);
        assert(d * pow2(p) == pow2(p) * d) by (nonlinear_arith);
        assert(q < pow2(p));
        assert(pow2((p - 1) as nat) <= q);
        let r = round_div_pow2(m, s);
        assert(q <= r <= q + 1);
    }
}

/// 2^e as a `u128`.
pub(crate) fn pow2_u128(e: u32) -> (r: u128)
    requires
        e <= 127,
    ensures
        r as nat == pow2(e as nat),
{
    let mut r: u128 = 1;
    let mut i: u32 = 0;
    proof {
        lemma2_to64();
    }
    while i < e
        invariant
            i <= e <= 127,
            r as nat == pow2(i as nat),
        decreases e - i,
    {
        proof {
            lemma_pow2_adds(1, i as nat);
            lemma2_to64();
            lemma_pow2_strictly_increases(i as nat, 127);
            lemma_pow2_adds(1, 127);
            assert(pow2(128) == 0x1_0000_0000_0000_0000_0000_0000_0000_0000) by {
                lemma_pow2_adds(64, 64);
            }
        }
        r = r * 2;
        i = i + 1;
    }
    r
}

/// The bit pattern of the floating point number (precision `p`, bias `bias`, sign bit at
/// `width - 1`) nearest to the integer of sign `neg` and magnitude `m`.
fn float_bits(neg: bool, m: u64, p: u32, bias: u32, width: u32) -> (r: u64)
    requires
        (p == 53 && bias == 1023 && width == 64) || (p == 24 && bias == 127 && width == 32),
    ensures
        r as nat == float_bits_of_int(neg, m as nat, p as nat, bias as nat, width as nat),
        width == 32 ==> r < 0x1_0000_0000,
{
    if m == 0 {
        return 0;
    }
    proof {
        lemma2_to64();
        lemma_bit_len_at_most(m as nat, 64);
        lemma_rounded_bounds(m as nat, p as nat);
    }
    let mut k: u32 = 0;
    let mut t: u64 = m;
    while t > 0
        invariant
            bit_len(m as nat) == k + bit_len(t as nat),
            bit_len(m as nat) <= 64,
        decreases t,
    {
        t = t / 2;
        k = k + 1;
    }
    assert(bit_len(0) == 0);
    let mant: u128;
    let e: u128;
    if k <= p {
        let f = pow2_u128(p - k);
        proof {
            lemma_pow2_adds((k - 1) as nat, (p - k) as nat);
            lemma_bit_len_bounds(m as nat);
            lemma_pow2_pos((p - k) as nat);
            lemma_mul_strict_inequality(m as int, pow2(k as nat) as int, f as int);
            lemma_pow2_adds(k as nat, (p - k) as nat);
            lemma_pow2_strictly_increases(p as nat, 64);
        }
        mant = (m as u128) * f;
        e = (k - 1) as u128;
    } else {
        let s = k - p;
        let d = pow2_u128(s);
        let half = pow2_u128(s - 1);
        proof {
            lemma_pow2_pos(s as nat);
        }
        let q = (m as u128) / d;
        let rem = (m as u128) % d;
        let q1 = if rem > half || (rem == half && q % 2 == 1) {
            proof {
                lemma_pow2_strictly_increases(p as nat, 64);
                assert(q < pow2(p as nat));
            }
            q + 1
        } else {
            q
        };
        assert(q1 as nat == round_div_pow2(m as nat, s as nat));
        if q1 == pow2_u128(p) {
            mant = pow2_u128(p - 1);
            e = k as u128;
        } else {
            mant = q1;
            e = (k - 1) as u128;
        }
    }
    assert((mant as nat, e as nat) == rounded(m as nat, p as nat));
    let lead = pow2_u128(p - 1);
    let sign: u128 = if neg {
        pow2_u128(width - 1)
    } else {
        0
    };
    proof {
        lemma_pow2_strictly_increases((p - 1) as nat, p as nat);
        lemma_pow2_adds(1, (p - 1) as nat);
        assert(e <= 64);
        assert(e + bias + 1 <= pow2((width - p) as nat));
        lemma_pow2_adds((width - p) as nat, (p - 1) as nat);
        lemma_mul_inequality(e as int + bias as int + 1, pow2((width - p) as nat) as int, pow2((p - 1) as nat) as int);
        assert((e + bias + 1) * pow2((p - 1) as nat) == (e + bias) * pow2((p - 1) as nat) + pow2((p - 1) as nat))
            by (nonlinear_arith);
        lemma_pow2_adds(1, (width - 1) as nat);
    }
    let bits = sign + (e + bias as u128) * lead + (mant - lead);
    proof {
        assert((e + bias) * pow2((p - 1) as nat) + (mant - lead) < pow2((width - 1) as nat));
        assert(bits < pow2(width as nat));
    }
    bits as u64
}

/// The bit pattern of the `f64` nearest to `n` (`n as f64`).
pub fn f64_bits_of_i64(n: i64) -> (r: u64)
    ensures
        r == spec_f64_bits_of_int(n as int),
{
    proof {
        reveal(spec_f64_bits_of_int);
    }
    let m: u64 = if n < 0 {
        (-(n as i128)) as u64
    } else {
        n as u64
    };
    float_bits(n < 0, m, 53, 1023, 64)
}

/// The bit pattern of the `f64` nearest to `n` (`n as f64`).
pub fn f64_bits_of_u64(n: u64) -> (r: u64)
    ensures
        r == spec_f64_bits_of_int(n as int),
{
    proof {
        reveal(spec_f64_bits_of_int);
    }
    float_bits(false, n, 53, 1023, 64)
}

/// The bit pattern of the `f32` nearest to `n` (`n as f32`).
pub fn f32_bits_of_i64(n: i64) -> (r: u32)
    ensures
        r == spec_f32_bits_of_int(n as int),
{
    proof {
        reveal(spec_f32_bits_of_int);
    }
    let m: u64 = if n < 0 {
        (-(n as i128)) as u64
    } else {
        n as u64
    };
    let b = float_bits(n < 0, m, 24, 127, 32);
    b as u32
}

/// The bit pattern of the `f32` nearest to `n` (`n as f32`).
pub fn f32_bits_of_u64(n: u64) -> (r: u32)
    ensures
        r == spec_f32_bits_of_int(n as int),
{
    proof {
        reveal(spec_f32_bits_of_int);
    }
    let b = float_bits(false, n, 24, 127, 32);
    b as u32
}


/// The integer part (rounded toward zero) of the `f64` with bit pattern `bits`, where it is
/// finite.
pub open spec fn spec_f64_trunc(bits: u64) -> Option<int> {
    let exp = (bits / 0x10_0000_0000_0000) % 2048;
    let m: nat = (0x10_0000_0000_0000 + bits % 0x10_0000_0000_0000) as nat;
    let neg = bits >= 0x8000_0000_0000_0000;
    if exp == 2047 {
        None
    } else if exp < 1023 {
        Some(0)
    } else {
        let mag: nat = if exp >= 1075 {
            (m * pow2((exp - 1075) as nat)) as nat
        } else {
            (m / pow2((1075 - exp) as nat)) as nat
        };
        Some(if neg {
            -(mag as int)
        } else {
            mag as int
        })
    }
}

/// The integer part (rounded toward zero) of the `f64` with bit pattern `bits`, as its sign and
/// magnitude, where it is finite and its magnitude fits a `u64`.
pub fn f64_trunc(bits: u64) -> (r: Option<(bool, u64)>)
    ensures
        match spec_f64_trunc(bits) {
            None => r is None,
            Some(v) => if magnitude(v) < 0x1_0000_0000_0000_0000 {
                r == Some((v < 0, magnitude(v) as u64))
            } else {
                r is None
            },
        },
{
    let exp = (bits / 0x10_0000_0000_0000) % 2048;
    let m: u128 = 0x10_0000_0000_0000 + (bits % 0x10_0000_0000_0000) as u128;
    let neg = bits >= 0x8000_0000_0000_0000;
    proof {
        lemma2_to64();
    }
    if exp == 2047 {
        return None;
    }
    if exp < 1023 {
        return Some((false, 0));
    }
    if exp >= 1075 {
        let shift = (exp - 1075) as u32;
        if shift >= 12 {
            proof {
                if shift > 12 {
                    lemma_pow2_strictly_increases(12, shift as nat);
                }
                lemma_mul_inequality(0x10_0000_0000_0000, m as int, pow2(shift as nat) as int);
                lemma_mul_inequality(pow2(12) as int, pow2(shift as nat) as int, 0x10_0000_0000_0000);
                assert(pow2(12) * 0x10_0000_0000_0000 == 0x1_0000_0000_0000_0000);
            }
            return None;
        }
        let f = pow2_u128(shift);
        proof {
            if shift < 11 {
                lemma_pow2_strictly_increases(shift as nat, 11);
            }
            lemma_pow2_pos(shift as nat);
            assert(m < 0x20_0000_0000_0000);
            assert(f as nat <= pow2(11));
            lemma_mul_strict_inequality(m as int, 0x20_0000_0000_0000, f as int);
            lemma_mul_inequality(f as int, pow2(11) as int, 0x20_0000_0000_0000);
            assert(m * f < 0x1_0000_0000_0000_0000);
            lemma_mul_inequality(1, f as int, m as int);
            assert(m * f >= m) by (nonlinear_arith) requires f >= 1, m >= 0;
        }
        let mag = m * f;
        return Some((neg, mag as u64));
    }
    let d = pow2_u128((1075 - exp) as u32);
    proof {
        lemma_pow2_pos((1075 - exp) as nat);
        vstd::arithmetic::div_mod::lemma_div_is_ordered_by_denominator(m as int, 1, d as int);
    }
    let mag = m / d;
    Some((neg && mag > 0, mag as u64))
}


/// The integer part (rounded toward zero) of the `f32` with bit pattern `bits`, where it is
/// finite.
pub open spec fn spec_f32_trunc(bits: u32) -> Option<int> {
    let exp = (bits / 0x80_0000) % 256;
    let m: nat = (0x80_0000 + bits % 0x80_0000) as nat;
    let neg = bits >= 0x8000_0000;
    if exp == 255 {
        None
    } else if exp < 127 {
        Some(0)
    } else {
        let mag: nat = if exp >= 150 {
            (m * pow2((exp - 150) as nat)) as nat
        } else {
            (m / pow2((150 - exp) as nat)) as nat
        };
        Some(if neg {
            -(mag as int)
        } else {
            mag as int
        })
    }
}

/// The integer part (rounded toward zero) of the `f32` with bit pattern `bits`, as its sign and
/// magnitude, where it is finite and its magnitude fits a `u64`.
pub fn f32_trunc(bits: u32) -> (r: Option<(bool, u64)>)
    ensures
        match spec_f32_trunc(bits) {
            None => r is None,
            Some(v) => if magnitude(v) < 0x1_0000_0000_0000_0000 {
                r == Some((v < 0, magnitude(v) as u64))
            } else {
                r is None
            },
        },
{
    let exp = (bits / 0x80_0000) % 256;
    let m: u128 = 0x80_0000 + (bits % 0x80_0000) as u128;
    let neg = bits >= 0x8000_0000;
    proof {
        lemma2_to64();
    }
    if exp == 255 {
        return None;
    }
    if exp < 127 {
        return Some((false, 0));
    }
    if exp >= 150 {
        let shift = (exp - 150) as u32;
        if shift >= 41 {
            proof {
                if shift > 41 {
                    lemma_pow2_strictly_increases(41, shift as nat);
                }
                lemma2_to64_rest();
                lemma_mul_inequality(0x80_0000, m as int, pow2(shift as nat) as int);
                lemma_mul_inequality(pow2(41) as int, pow2(shift as nat) as int, 0x80_0000);
            }
            return None;
        }
        let f = pow2_u128(shift);
        proof {
            if shift < 40 {
                lemma_pow2_strictly_increases(shift as nat, 40);
            }
            lemma2_to64_rest();
            lemma_pow2_pos(shift as nat);
            assert(m < 0x100_0000);
            assert(f as nat <= pow2(40));
            lemma_mul_strict_inequality(m as int, 0x100_0000, f as int);
            lemma_mul_inequality(f as int, pow2(40) as int, 0x100_0000);
            assert(m * f < 0x1_0000_0000_0000_0000);
            assert(m * f >= m) by (nonlinear_arith) requires f >= 1, m >= 0;
        }
        let mag = m * f;
        return Some((neg, mag as u64));
    }
    let d = pow2_u128((150 - exp) as u32);
    proof {
        lemma_pow2_pos((150 - exp) as nat);
        vstd::arithmetic::div_mod::lemma_div_is_ordered_by_denominator(m as int, 1, d as int);
    }
    let mag = m / d;
    Some((neg && mag > 0, mag as u64))
}

/// `v` limited to `min ..= max`.
pub open spec fn clamp(v: int, min: int, max: int) -> int {
    if v < min {
        min
    } else if v > max {
        max
    } else {
        v
    }
}

/// A floating point number cast to an integer type of range `min ..= max` as `as` casts it:
/// NaN gives zero, infinities and numbers out of range the nearest bound, other numbers their
/// integer part.
pub open spec fn saturating(nan: bool, neg: bool, trunc: Option<int>, min: int, max: int) -> int {
    if nan {
        0
    } else {
        match trunc {
            Some(v) => clamp(v, min, max),
            None => if neg {
                min
            } else {
                max
            },
        }
    }
}

/// The `f64` with bit pattern `bits` cast to an integer type of range `min ..= max`.
#[verifier::opaque]
pub open spec fn spec_f64_as_int(bits: u64, min: int, max: int) -> int {
    saturating(
        (bits / 0x10_0000_0000_0000) % 2048 == 2047 && bits % 0x10_0000_0000_0000 != 0,
        bits >= 0x8000_0000_0000_0000,
        spec_f64_trunc(bits),
        min,
        max,
    )
}

/// The `f32` with bit pattern `bits` cast to an integer type of range `min ..= max`.
#[verifier::opaque]
pub open spec fn spec_f32_as_int(bits: u32, min: int, max: int) -> int {
    saturating((bits / 0x80_0000) % 256 == 255 && bits % 0x80_0000 != 0, bits >= 0x8000_0000, spec_f32_trunc(bits), min, max)
}

/// The integer of sign `neg` and magnitude `mag`, limited to `min ..= max`.
fn clamp_signed(neg: bool, mag: u64, min: i128, max: i128) -> (r: i128)
    requires
        min <= 0 <= max,
    ensures
        r == clamp(if neg { -(mag as int) } else { mag as int }, min as int, max as int),
{
    let v: i128 = if neg {
        -(mag as i128)
    } else {
        mag as i128
    };
    if v < min {
        min
    } else if v > max {
        max
    } else {
        v
    }
}

/// The `f64` with bit pattern `bits` cast to an integer type of range `min ..= max`, as `as`
/// casts it.
pub fn f64_as_int(bits: u64, min: i128, max: i128) -> (r: i128)
    requires
        -0x1_0000_0000_0000_0000 < min <= 0 <= max < 0x1_0000_0000_0000_0000,
    ensures
        r == spec_f64_as_int(bits, min as int, max as int),
{
    proof {
        reveal(spec_f64_as_int);
    }
    if (bits / 0x10_0000_0000_0000) % 2048 == 2047 && bits % 0x10_0000_0000_0000 != 0 {
        return 0;
    }
    match f64_trunc(bits) {
        Some((neg, mag)) => clamp_signed(neg, mag, min, max),
        None => {
            proof {
                lemma_f64_trunc_sign(bits);
            }
            if bits >= 0x8000_0000_0000_0000 {
                min
            } else {
                max
            }
        },
    }
}

/// The `f32` with bit pattern `bits` cast to an integer type of range `min ..= max`, as `as`
/// casts it.
pub fn f32_as_int(bits: u32, min: i128, max: i128) -> (r: i128)
    requires
        -0x1_0000_0000_0000_0000 < min <= 0 <= max < 0x1_0000_0000_0000_0000,
    ensures
        r == spec_f32_as_int(bits, min as int, max as int),
{
    proof {
        reveal(spec_f32_as_int);
    }
    if (bits / 0x80_0000) % 256 == 255 && bits % 0x80_0000 != 0 {
        return 0;
    }
    match f32_trunc(bits) {
        Some((neg, mag)) => clamp_signed(neg, mag, min, max),
        None => {
            proof {
                lemma_f32_trunc_sign(bits);
            }
            if bits >= 0x8000_0000 {
                min
            } else {
                max
            }
        },
    }
}


/// The integer part of a floating point number has the number's sign.
proof fn lemma_f64_trunc_sign(bits: u64)
    ensures
        spec_f64_trunc(bits) matches Some(v) ==> (bits >= 0x8000_0000_0000_0000 ==> v <= 0)
            && (bits < 0x8000_0000_0000_0000 ==> v >= 0),
{
    let exp = (bits / 0x10_0000_0000_0000) % 2048;
    let m: nat = (0x10_0000_0000_0000 + bits % 0x10_0000_0000_0000) as nat;
    if exp != 2047 && exp >= 1023 {
        if exp >= 1075 {
            let p = pow2((exp - 1075) as nat);
            lemma_pow2_pos((exp - 1075) as nat);
            assert(m * p >= 0) by (nonlinear_arith) requires m >= 0, p > 0;
        } else {
            let p = pow2((1075 - exp) as nat);
            lemma_pow2_pos((1075 - exp) as nat);
            assert(m / p >= 0) by (nonlinear_arith) requires m >= 0, p > 0;
        }
    }
}

/// The integer part of a floating point number has the number's sign.
proof fn lemma_f32_trunc_sign(bits: u32)
    ensures
        spec_f32_trunc(bits) matches Some(v) ==> (bits >= 0x8000_0000 ==> v <= 0) && (bits < 0x8000_0000 ==> v >= 0),
{
    let exp = (bits / 0x80_0000) % 256;
    let m: nat = (0x80_0000 + bits % 0x80_0000) as nat;
    if exp != 255 && exp >= 127 {
        if exp >= 150 {
            let p = pow2((exp - 150) as nat);
            lemma_pow2_pos((exp - 150) as nat);
            assert(m * p >= 0) by (nonlinear_arith) requires m >= 0, p > 0;
        } else {
            let p = pow2((150 - exp) as nat);
            lemma_pow2_pos((150 - exp) as nat);
            assert(m / p >= 0) by (nonlinear_arith) requires m >= 0, p > 0;
        }
    }
}

/// The integer that text in integer form (decimal digits with an optional sign, as `str::parse`
/// reads integers) stands for, within the range of 64 bit integers; none for "-0" and other
/// negative zeros, which read as the floating point number negative zero.
pub open spec fn spec_text_int(s: Seq<char>) -> Option<int> {
    match spec_parse_u64(s) {
        Some(u) => Some(u as int),
        None => match spec_parse_i64(s) {
            Some(i) => if i < 0 {
                Some(i as int)
            } else {
                None
            },
            None => None,
        },
    }
}

/// The bit pattern of the `f64` that text in integer form reads as (the `f64` nearest to its
/// integer), where the text is in integer form.
pub fn text_f64_bits(s: &str) -> (r: Option<u64>)
    ensures
        r == (match spec_text_int(s@) {
            Some(n) => Some(spec_f64_bits_of_int(n)),
            None => None,
        }),
{
    match parse_u64(s) {
        Some(u) => Some(f64_bits_of_u64(u)),
        None => match parse_i64(s) {
            Some(i) => if i < 0 {
                Some(f64_bits_of_i64(i))
            } else {
                None
            },
            None => None,
        },
    }
}

/// The bit pattern of the `f32` that text in integer form reads as (the `f32` nearest to its
/// integer), where the text is in integer form.
pub fn text_f32_bits(s: &str) -> (r: Option<u32>)
    ensures
        r == (match spec_text_int(s@) {
            Some(n) => Some(spec_f32_bits_of_int(n)),
            None => None,
        }),
{
    match parse_u64(s) {
        Some(u) => Some(f32_bits_of_u64(u)),
        None => match parse_i64(s) {
            Some(i) => if i < 0 {
                Some(f32_bits_of_i64(i))
            } else {
                None
            },
            None => None,
        },
    }
}

} // verus!
