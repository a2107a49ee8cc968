//! The Protobuf wire format: varints, field keys, zig-zag and little-endian values.
//!
//! Reading and writing varints and keys is done by `prost`; the contracts of those calls are
//! stated here over the LEB128 grammar, and the library's own laws (what a read gives back of a
//! write) are proved over that grammar.
use vstd::prelude::*;
use vstd::slice::slice_subrange;

verus! {

/// Why a message could not be decoded.
#[derive(Clone, Copy, Debug, PartialEq, Eq, Structural)]
pub enum DecodingError {
    /// A varint was not terminated within ten bytes, or its tenth byte overflows 64 bits.
    InvalidVarint,
    /// A field key was not a valid varint, was above `u32::MAX`, had an unknown wire type or a
    /// field number of zero.
    InvalidKey,
    /// A fixed size value or a length-delimited payload ran past the end of the buffer.
    Truncated { field_num: u32 },
    /// A length-delimited field declared more bytes than remain in the buffer.
    InsufficientData { field_num: u32, remaining: usize, length: u64 },
    /// A string field did not hold valid UTF-8.
    InvalidUtf8 { field_num: u32 },
    /// The descriptor of an embedded message field could not be found.
    MessageNotFound { field_num: u32 },
    /// The descriptor of an enum field could not be found.
    EnumNotFound { field_num: u32 },
    /// Group wire types are not supported.
    UnsupportedWireType { field_num: u32, wire_type: WireType },
    /// A packed repeated field left bytes over that do not make up a whole value.
    PackedTrailingBytes { field_num: u32, remaining: usize },
}

/// The wire type of an encoded field, as carried in the low three bits of its key.
#[derive(Clone, Copy, Debug, PartialEq, Eq, Structural)]
pub enum WireType {
    Varint,
    SixtyFourBit,
    LengthDelimited,
    StartGroup,
    EndGroup,
    ThirtyTwoBit,
}

impl WireType {
    /// The numeric value of the wire type in a field key.
    pub open spec fn spec_number(self) -> u64 {
        match self {
            WireType::Varint => 0,
            WireType::SixtyFourBit => 1,
            WireType::LengthDelimited => 2,
            WireType::StartGroup => 3,
            WireType::EndGroup => 4,
            WireType::ThirtyTwoBit => 5,
        }
    }

    /// The wire type with the given number, if there is one.
    pub open spec fn spec_from_number(n: u64) -> Option<WireType> {
        if n == 0 {
            Some(WireType::Varint)
        } else if n == 1 {
            Some(WireType::SixtyFourBit)
        } else if n == 2 {
            Some(WireType::LengthDelimited)
        } else if n == 3 {
            Some(WireType::StartGroup)
        } else if n == 4 {
            Some(WireType::EndGroup)
        } else if n == 5 {
            Some(WireType::ThirtyTwoBit)
        } else {
            None
        }
    }

    /// The numeric value of the wire type in a field key.
    pub fn number(&self) -> (r: u32)
        ensures
            r == self.spec_number(),
    {
        match self {
            WireType::Varint => 0,
            WireType::SixtyFourBit => 1,
            WireType::LengthDelimited => 2,
            WireType::StartGroup => 3,
            WireType::EndGroup => 4,
            WireType::ThirtyTwoBit => 5,
        }
    }
}

/// Largest field number that Protobuf allows.
pub const MAX_TAG: u32 = 536870911;

// ---------------------------------------------------------------------------------------------
// The LEB128 grammar
// ---------------------------------------------------------------------------------------------

/// Value of a sequence of 7-bit groups, least significant group first (the high bit of each byte
/// is ignored).
pub open spec fn le_groups_value(s: Seq<u8>) -> nat
    decreases s.len(),
{
    if s.len() == 0 {
        0
    } else {
        (s[0] % 128) as nat + 128 * le_groups_value(s.drop_first())
    }
}

/// Index of the first byte below 0x80 (the last byte of a varint), if there is one.
pub open spec fn varint_terminator(s: Seq<u8>) -> Option<nat>
    decreases s.len(),
{
    if s.len() == 0 {
        None
    } else if s[0] < 128 {
        Some(0)
    } else {
        match varint_terminator(s.drop_first()) {
            Some(i) => Some(i + 1),
            None => None,
        }
    }
}

/// The varint at the start of `s`: its value and the number of bytes it takes. A varint ends at
/// the first byte below 0x80, takes at most ten bytes, and its tenth byte, if it has one, is 0 or
/// 1 (any other value would overflow 64 bits).
pub open spec fn spec_decode_varint(s: Seq<u8>) -> Option<(u64, nat)> {
    match varint_terminator(s) {
        Some(t) => if t < 9 || (t == 9 && s[9] < 2) {
            Some((le_groups_value(s.take(t + 1 as int)) as u64, t + 1))
        } else {
            None
        },
        None => None,
    }
}

/// The LEB128 encoding of `v`: seven bits per byte, least significant first, the high bit set on
/// every byte but the last.
pub open spec fn spec_encode_varint(v: u64) -> Seq<u8>
    decreases v,
{
    if v < 128 {
        seq![v as u8]
    } else {
        seq![((v % 128) + 128) as u8] + spec_encode_varint((v / 128) as u64)
    }
}

/// The field key at the start of `s`: the field number, the wire type and the number of bytes
/// the key takes.
pub open spec fn spec_decode_key(s: Seq<u8>) -> Option<(u32, WireType, nat)> {
    match spec_decode_varint(s) {
        Some((key, n)) => if key > u32::MAX || key % 8 > 5 || key / 8 == 0 {
            None
        } else {
            Some(((key / 8) as u32, WireType::spec_from_number(key % 8).unwrap(), n))
        },
        None => None,
    }
}

/// The encoding of a field key: the varint of the field number times eight plus the wire type.
pub open spec fn spec_encode_key(tag: u32, wire_type: WireType) -> Seq<u8> {
    spec_encode_varint((tag * 8 + wire_type.spec_number()) as u64)
}

/// Sign of a zig-zag encoded 32 bit value (the low 32 bits of the varint).
pub open spec fn spec_zigzag_decode_32(varint: u64) -> i32 {
    let v = (varint % 0x1_0000_0000) as nat;
    if v % 2 == 0 {
        (v / 2) as i32
    } else {
        (-1 - (v / 2) as int) as i32
    }
}

/// Sign of a zig-zag encoded 64 bit value.
pub open spec fn spec_zigzag_decode_64(varint: u64) -> i64 {
    if varint % 2 == 0 {
        (varint / 2) as i64
    } else {
        (-1 - (varint / 2) as int) as i64
    }
}

/// Zig-zag encoding of a 32 bit value: non-negative values to even numbers, negative ones to
/// odd numbers.
pub open spec fn spec_zigzag_encode_32(n: i32) -> u64 {
    if n >= 0 {
        (2 * n) as u64
    } else {
        (-2 * n - 1) as u64
    }
}

/// Zig-zag encoding of a 64 bit value.
pub open spec fn spec_zigzag_encode_64(n: i64) -> u64 {
    if n >= 0 {
        (2 * n) as u64
    } else {
        (-2 * n - 1) as u64
    }
}

// ---------------------------------------------------------------------------------------------
// Lemmas
// ---------------------------------------------------------------------------------------------

/// 128 to the power `k`.
pub open spec fn pow128(k: nat) -> nat
    decreases k,
{
    if k == 0 {
        1
    } else {
        128 * pow128((k - 1) as nat)
    }
}

proof fn lemma_encode_varint_shape(v: u64)
    ensures
        spec_encode_varint(v).len() >= 1,
        forall|i: int|
            0 <= i < spec_encode_varint(v).len() - 1 ==> #[trigger] spec_encode_varint(v)[i] >= 128,
        spec_encode_varint(v).last() < 128,
        le_groups_value(spec_encode_varint(v)) == v,
    decreases v,
{
    let e = spec_encode_varint(v);
    if v < 128 {
        assert(e.drop_first() =~= Seq::<u8>::empty());
        assert(le_groups_value(e.drop_first()) == 0);
    } else {
        let w = (v / 128) as u64;
        lemma_encode_varint_shape(w);
        let t = spec_encode_varint(w);
        let b = ((v % 128) + 128) as u8;
        assert(e == seq![b] + t);
        assert(e.drop_first() =~= t);
        assert forall|i: int| 0 <= i < e.len() - 1 implies #[trigger] e[i] >= 128 by {
            if i > 0 {
                assert(e[i] == t[i - 1]);
            }
        }
        assert(e.last() == t.last());
        assert(b % 128 == v % 128);
    }
}

proof fn lemma_encode_varint_length(v: u64, k: nat)
    requires
        v < 2 * pow128(k),
    ensures
        spec_encode_varint(v).len() <= k + 1,
        spec_encode_varint(v).len() == k + 1 ==> spec_encode_varint(v).last() < 2,
    decreases k,
{
    let e = spec_encode_varint(v);
    if v < 128 {
        if k == 0 {
            assert(pow128(0) == 1);
        }
    } else {
        assert(k > 0) by {
            if k == 0 {
                assert(pow128(0) == 1);
            }
        }
        let w = (v / 128) as u64;
        assert(pow128(k) == 128 * pow128((k - 1) as nat));
        assert(w < 2 * pow128((k - 1) as nat));
        lemma_encode_varint_length(w, (k - 1) as nat);
        let t = spec_encode_varint(w);
        assert(e == seq![((v % 128) + 128) as u8] + t);
        assert(e.last() == t.last());
    }
}

proof fn lemma_pow128_nine()
    ensures
        2 * pow128(9) == 0x1_0000_0000_0000_0000,
{
    reveal_with_fuel(pow128, 10);
}

/// A varint is at most ten bytes long, and a ten byte varint ends in 0 or 1.
pub proof fn lemma_encode_varint_bounds(v: u64)
    ensures
        1 <= spec_encode_varint(v).len() <= 10,
        spec_encode_varint(v).len() == 10 ==> spec_encode_varint(v).last() < 2,
{
    lemma_pow128_nine();
    lemma_encode_varint_length(v, 9);
    lemma_encode_varint_shape(v);
}

proof fn lemma_terminator_of_shape(e: Seq<u8>, rest: Seq<u8>)
    requires
        e.len() >= 1,
        forall|i: int| 0 <= i < e.len() - 1 ==> #[trigger] e[i] >= 128,
        e.last() < 128,
    ensures
        varint_terminator(e + rest) == Some((e.len() - 1) as nat),
    decreases e.len(),
{
    let s = e + rest;
    if e.len() == 1 {
        assert(s[0] == e[0]);
    } else {
        assert(s[0] == e[0]);
        assert(e[0] >= 128);
        let e2 = e.drop_first();
        assert forall|i: int| 0 <= i < e2.len() - 1 implies #[trigger] e2[i] >= 128 by {
            assert(e2[i] == e[i + 1]);
        }
        assert(e2.last() == e.last());
        lemma_terminator_of_shape(e2, rest);
        assert(s.drop_first() =~= e2 + rest);
    }
}

/// Reading a varint back from its encoding gives the value and the length of the encoding,
/// whatever follows it.
pub proof fn lemma_varint_roundtrip(v: u64, rest: Seq<u8>)
    ensures
        spec_decode_varint(spec_encode_varint(v) + rest) == Some((v, spec_encode_varint(v).len())),
{
    let e = spec_encode_varint(v);
    let s = e + rest;
    lemma_encode_varint_shape(v);
    lemma_encode_varint_bounds(v);
    lemma_terminator_of_shape(e, rest);
    assert(s.take(e.len() as int) =~= e);
    if e.len() == 10 {
        assert(s[9] == e[9]);
    }
}

/// Reading a field key back from its encoding gives the field number and the wire type, for
/// every field number that Protobuf allows.
pub proof fn lemma_key_roundtrip(tag: u32, wire_type: WireType, rest: Seq<u8>)
    requires
        1 <= tag <= MAX_TAG,
    ensures
        spec_decode_key(spec_encode_key(tag, wire_type) + rest) == Some(
            (tag, wire_type, spec_encode_key(tag, wire_type).len()),
        ),
{
    let key = (tag * 8 + wire_type.spec_number()) as u64;
    lemma_varint_roundtrip(key, rest);
    assert(key / 8 == tag);
    assert(key % 8 == wire_type.spec_number());
}

/// Reading a zig-zag encoded 32 bit value back gives the value.
pub proof fn lemma_zigzag_32_roundtrip(n: i32)
    ensures
        spec_zigzag_decode_32(spec_zigzag_encode_32(n)) == n,
{
}

/// Reading a zig-zag encoded 64 bit value back gives the value.
pub proof fn lemma_zigzag_64_roundtrip(n: i64)
    ensures
        spec_zigzag_decode_64(spec_zigzag_encode_64(n)) == n,
{
}

/// Zig-zag coding of 32 bit values interleaves signs: a non-negative value is coded as twice
/// itself (an even number) and a negative one as one less than twice its magnitude (an odd
/// number), so values of small magnitude have small codes. Reading takes the low 32 bits of the
/// varint: an even code is read as its half, an odd one as minus half of one more than it.
pub proof fn lemma_zigzag_32_values(n: i32, varint: u64)
    ensures
        n >= 0 ==> spec_zigzag_encode_32(n) == 2 * n,
        n < 0 ==> spec_zigzag_encode_32(n) == -2 * n - 1,
        spec_zigzag_encode_32(n) % 2 == 0 <==> n >= 0,
        spec_zigzag_encode_32(n) < 0x1_0000_0000,
        ({
            let w = varint % 0x1_0000_0000;
            &&& w % 2 == 0 ==> spec_zigzag_decode_32(varint) == w / 2
            &&& w % 2 == 1 ==> spec_zigzag_decode_32(varint) == -((w + 1) / 2)
            &&& spec_zigzag_decode_32(varint) >= 0 <==> w % 2 == 0
        }),
{
}

/// Zig-zag coding of 64 bit values, as for 32 bit values: a non-negative value is coded as twice
/// itself and a negative one as one less than twice its magnitude; an even code is read as its
/// half, an odd one as minus half of one more than it.
pub proof fn lemma_zigzag_64_values(n: i64, varint: u64)
    ensures
        n >= 0 ==> spec_zigzag_encode_64(n) == 2 * n,
        n < 0 ==> spec_zigzag_encode_64(n) == -2 * n - 1,
        spec_zigzag_encode_64(n) % 2 == 0 <==> n >= 0,
        varint % 2 == 0 ==> spec_zigzag_decode_64(varint) == varint / 2,
        varint % 2 == 1 ==> spec_zigzag_decode_64(varint) == -((varint + 1) / 2),
        spec_zigzag_decode_64(varint) >= 0 <==> varint % 2 == 0,
{
}

/// The first byte below 0x80 lies within the sequence.
pub proof fn lemma_terminator_in_bounds(s: Seq<u8>)
    ensures
        varint_terminator(s) matches Some(t) ==> t < s.len() && s[t as int] < 128,
    decreases s.len(),
{
    if s.len() > 0 && s[0] >= 128 {
        lemma_terminator_in_bounds(s.drop_first());
        if let Some(t) = varint_terminator(s.drop_first()) {
            assert(s.drop_first()[t as int] == s[t + 1 as int]);
        }
    }
}

// ---------------------------------------------------------------------------------------------
// Calls into prost
// ---------------------------------------------------------------------------------------------

#[verifier::external_type_specification]
#[verifier::external_body]
pub struct ExProstDecodeError(prost::DecodeError);

/// Calls `prost::encoding::decode_varint` on `buf` (a byte slice is a contiguous `Buf`).
/// Claimed: it succeeds exactly where `spec_decode_varint` gives a varint, returns that value and
/// consumes exactly its bytes; the second component is the number of bytes left after it.
#[verifier::external_body]
fn prost_decode_varint(buf: &[u8]) -> (r: Result<(u64, usize), prost::DecodeError>)
    ensures
        match spec_decode_varint(buf@) {
            Some((v, n)) => r matches Ok((value, remaining)) && value == v && remaining == buf@.len() - n,
            None => r is Err,
        },
{
    let mut rest = buf;
    match prost::encoding::decode_varint(&mut rest) {
        Ok(value) => Ok((value, rest.len())),
        Err(e) => Err(e),
    }
}

/// Calls `prost::encoding::encode_varint`, writing into a `Vec<u8>` (whose `BufMut` impl
/// appends). Claimed: it appends exactly the LEB128 encoding `spec_encode_varint(value)`.
#[verifier::external_body]
pub(crate) fn encode_varint(value: u64, buf: &mut Vec<u8>)
    ensures
        final(buf)@ == old(buf)@ + spec_encode_varint(value),
{
    prost::encoding::encode_varint(value, buf)
}

// ---------------------------------------------------------------------------------------------
// Reading and writing at a position of a buffer
// ---------------------------------------------------------------------------------------------

/// Reads the varint that starts at `pos`, returning its value and the position after it.
pub fn decode_varint(buf: &[u8], pos: usize) -> (r: Result<(u64, usize), DecodingError>)
    requires
        pos <= buf@.len(),
    ensures
        match spec_decode_varint(buf@.skip(pos as int)) {
            Some((v, n)) => r matches Ok((value, next)) && value == v && next == pos + n,
            None => r == Err::<(u64, usize), DecodingError>(DecodingError::InvalidVarint),
        },
        spec_decode_varint(buf@.skip(pos as int)) matches Some((v, n)) ==> 0 < n <= buf@.len() - pos,
{
    let tail = slice_subrange(buf, pos, buf.len());
    assert(tail@ =~= buf@.skip(pos as int));
    proof {
        lemma_terminator_in_bounds(tail@);
    }
    match prost_decode_varint(tail) {
        Ok((value, remaining)) => Ok((value, buf.len() - remaining)),
        Err(_) => Err(DecodingError::InvalidVarint),
    }
}

/// Reads the field key that starts at `pos`: the field number, the wire type and the position
/// after the key.
pub fn decode_key(buf: &[u8], pos: usize) -> (r: Result<(u32, WireType, usize), DecodingError>)
    requires
        pos <= buf@.len(),
    ensures
        match spec_decode_key(buf@.skip(pos as int)) {
            Some((tag, wt, n)) => r matches Ok((t, w, next)) && t == tag && w == wt && next == pos + n,
            None => r == Err::<(u32, WireType, usize), DecodingError>(DecodingError::InvalidKey),
        },
        spec_decode_key(buf@.skip(pos as int)) matches Some((tag, wt, n)) ==> 0 < n <= buf@.len() - pos,
{
    match decode_varint(buf, pos) {
        Ok((key, next)) => {
            if key > 0xffff_ffff || key % 8 > 5 || key / 8 == 0 {
                Err(DecodingError::InvalidKey)
            } else {
                let wt = key % 8;
                let wire_type = if wt == 0 {
                    WireType::Varint
                } else if wt == 1 {
                    WireType::SixtyFourBit
                } else if wt == 2 {
                    WireType::LengthDelimited
                } else if wt == 3 {
                    WireType::StartGroup
                } else if wt == 4 {
                    WireType::EndGroup
                } else {
                    WireType::ThirtyTwoBit
                };
                Ok(((key / 8) as u32, wire_type, next))
            }
        },
        Err(_) => Err(DecodingError::InvalidKey),
    }
}

/// Writes a field key: the varint of the field number times eight plus the wire type.
pub fn encode_key(tag: u32, wire_type: WireType, buf: &mut Vec<u8>)
    requires
        1 <= tag <= MAX_TAG,
    ensures
        final(buf)@ == old(buf)@ + spec_encode_key(tag, wire_type),
{
    let key: u64 = (tag as u64) * 8 + (wire_type.number() as u64);
    encode_varint(key, buf);
}

/// Zig-zag decoding of the low 32 bits of a varint (Protobuf `sint32`).
pub fn zigzag_decode_32(varint: u64) -> (r: i32)
    ensures
        r == spec_zigzag_decode_32(varint),
{
    let value = varint as u32;
    assert(value == varint % 0x1_0000_0000) by (bit_vector)
        requires value == varint as u32;
    let half = (value >> 1) as i32;
    assert(value >> 1 == value / 2) by (bit_vector);
    if value & 1 == 0 {
        assert(value & 1 == 0 ==> value % 2 == 0) by (bit_vector);
        half
    } else {
        assert(value & 1 != 0 ==> value % 2 == 1) by (bit_vector);
        -1 - half
    }
}

/// Zig-zag decoding of a varint (Protobuf `sint64`).
pub fn zigzag_decode_64(varint: u64) -> (r: i64)
    ensures
        r == spec_zigzag_decode_64(varint),
{
    let half = (varint >> 1) as i64;
    assert(varint >> 1 == varint / 2) by (bit_vector);
    if varint & 1 == 0 {
        assert(varint & 1 == 0 ==> varint % 2 == 0) by (bit_vector);
        half
    } else {
        assert(varint & 1 != 0 ==> varint % 2 == 1) by (bit_vector);
        -1 - half
    }
}

/// Zig-zag encoding of a 32 bit value (Protobuf `sint32`).
pub fn zigzag_encode_32(n: i32) -> (r: u64)
    ensures
        r == spec_zigzag_encode_32(n),
{
    if n >= 0 {
        (n as u64) * 2
    } else {
        ((-1 - n) as u64) * 2 + 1
    }
}

/// Zig-zag encoding of a 64 bit value (Protobuf `sint64`).
pub fn zigzag_encode_64(n: i64) -> (r: u64)
    ensures
        r == spec_zigzag_encode_64(n),
{
    if n >= 0 {
        (n as u64) * 2
    } else {
        ((-1 - n) as u64) * 2 + 1
    }
}

} // verus!
