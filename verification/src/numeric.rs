//! Numeric values carried by field rules (minimum and maximum values) and by
//! numeric fields, together with their tagged little-endian encoding.
//!
//! The floating-point variants carry the IEEE-754 bit pattern of the value
//! (`f32::to_bits` / `f64::to_bits`), which is exactly what the encoding writes.
use vstd::prelude::*;
use vstd::bytes::*;
use crate::bytes::{u16_le_bytes, u16_from_le, lemma_le_roundtrips, push_u16_le, push_u32_le, push_u64_le, push_u128_le, read_u16_le, read_u32_le, read_u64_le, read_u128_le, take_front};
use crate::error::Error;
use crate::text::{decimal_string, signed_decimal_string, spec_decimal};

verus! {

/// Highest numeric-value tag.
pub const MAX_NUMERIC_TAG: u8 = 13;

/// A numeric value of one of the primitive numeric types.
#[derive(Debug, Clone, Copy)]
pub enum NumericValue {
    U8(u8),
    U16(u16),
    U32(u32),
    U64(u64),
    U128(u128),
    USIZE(usize),
    /// Bit pattern of an `f32`.
    F32(u32),
    /// Bit pattern of an `f64`.
    F64(u64),
    I8(i8),
    I16(i16),
    I32(i32),
    I64(i64),
    I128(i128),
    ISIZE(isize),
}

/// Number of value bytes that follow a numeric-value tag (0 for an unknown tag).
pub open spec fn tag_width(tag: u8) -> nat {
    if tag == 0 || tag == 8 {
        1
    } else if tag == 1 || tag == 9 {
        2
    } else if tag == 2 || tag == 6 || tag == 10 {
        4
    } else if tag == 3 || tag == 5 || tag == 7 || tag == 11 || tag == 13 {
        8
    } else if tag == 4 || tag == 12 {
        16
    } else {
        0
    }
}

/// Value decoded from the `tag_width(tag)` bytes `b` that follow a known tag.
pub open spec fn spec_decode_value(tag: u8, b: Seq<u8>) -> NumericValue {
    if tag == 0 {
        NumericValue::U8(b[0])
    } else if tag == 1 {
        NumericValue::U16(u16_from_le(b))
    } else if tag == 2 {
        NumericValue::U32(spec_u32_from_le_bytes(b))
    } else if tag == 3 {
        NumericValue::U64(spec_u64_from_le_bytes(b))
    } else if tag == 4 {
        NumericValue::U128(spec_u128_from_le_bytes(b))
    } else if tag == 5 {
        NumericValue::USIZE(spec_u64_from_le_bytes(b) as usize)
    } else if tag == 6 {
        NumericValue::F32(spec_u32_from_le_bytes(b))
    } else if tag == 7 {
        NumericValue::F64(spec_u64_from_le_bytes(b))
    } else if tag == 8 {
        NumericValue::I8(b[0] as i8)
    } else if tag == 9 {
        NumericValue::I16(u16_from_le(b) as i16)
    } else if tag == 10 {
        NumericValue::I32(spec_u32_from_le_bytes(b) as i32)
    } else if tag == 11 {
        NumericValue::I64(spec_u64_from_le_bytes(b) as i64)
    } else if tag == 12 {
        NumericValue::I128(spec_u128_from_le_bytes(b) as i128)
    } else {
        NumericValue::ISIZE(spec_u64_from_le_bytes(b) as i64 as isize)
    }
}

/// Outcome of reading a tagged value at position `p` of `b`, with the
/// position after it; `None` when the bytes end before the value does.
pub open spec fn parse_numeric_at(b: Seq<u8>, p: int) -> Option<(Result<NumericValue, Error>, int)> {
    if p < 0 || p >= b.len() {
        None
    } else if b[p] > MAX_NUMERIC_TAG {
        Some((Err(Error::InvalidNumericValueType(b[p])), p + 1))
    } else if p + 1 + tag_width(b[p]) > b.len() {
        None
    } else {
        let w = tag_width(b[p]) as int;
        Some((Ok(spec_decode_value(b[p], b.subrange(p + 1, p + 1 + w))), p + 1 + w))
    }
}

/// Sort key of an `f32` bit pattern: sign-magnitude read as an integer.
pub open spec fn f32_key(bits: u32) -> int {
    if bits >= 0x8000_0000 {
        -(bits - 0x8000_0000)
    } else {
        bits as int
    }
}

/// Sort key of an `f64` bit pattern: sign-magnitude read as an integer.
pub open spec fn f64_key(bits: u64) -> int {
    if bits >= 0x8000_0000_0000_0000 {
        -(bits - 0x8000_0000_0000_0000)
    } else {
        bits as int
    }
}

/// The `f32` bit pattern is a NaN (all exponent bits set, non-zero mantissa).
pub open spec fn f32_is_nan(bits: u32) -> bool {
    let mag = if bits >= 0x8000_0000 { bits - 0x8000_0000 } else { bits as int };
    mag > 0x7f80_0000
}

/// The `f64` bit pattern is a NaN (all exponent bits set, non-zero mantissa).
pub open spec fn f64_is_nan(bits: u64) -> bool {
    let mag = if bits >= 0x8000_0000_0000_0000 { bits - 0x8000_0000_0000_0000 } else { bits as int };
    mag > 0x7ff0_0000_0000_0000
}

/// Sign (-1, 0 or 1) of `a - b`.
pub open spec fn sign_of(a: int, b: int) -> i8 {
    if a < b {
        -1i8
    } else if a == b {
        0i8
    } else {
        1i8
    }
}

impl NumericValue {
    /// Tag written in front of the value bytes.
    pub open spec fn spec_tag(self) -> u8 {
        match self {
            NumericValue::U8(_) => 0,
            NumericValue::U16(_) => 1,
            NumericValue::U32(_) => 2,
            NumericValue::U64(_) => 3,
            NumericValue::U128(_) => 4,
            NumericValue::USIZE(_) => 5,
            NumericValue::F32(_) => 6,
            NumericValue::F64(_) => 7,
            NumericValue::I8(_) => 8,
            NumericValue::I16(_) => 9,
            NumericValue::I32(_) => 10,
            NumericValue::I64(_) => 11,
            NumericValue::I128(_) => 12,
            NumericValue::ISIZE(_) => 13,
        }
    }

    /// Little-endian bytes of the value (without the tag).
    pub open spec fn spec_value_bytes(self) -> Seq<u8> {
        match self {
            NumericValue::U8(v) => seq![v],
            NumericValue::U16(v) => u16_le_bytes(v),
            NumericValue::U32(v) => spec_u32_to_le_bytes(v),
            NumericValue::U64(v) => spec_u64_to_le_bytes(v),
            NumericValue::U128(v) => spec_u128_to_le_bytes(v),
            NumericValue::USIZE(v) => spec_u64_to_le_bytes(v as u64),
            NumericValue::F32(v) => spec_u32_to_le_bytes(v),
            NumericValue::F64(v) => spec_u64_to_le_bytes(v),
            NumericValue::I8(v) => seq![v as u8],
            NumericValue::I16(v) => u16_le_bytes(v as u16),
            NumericValue::I32(v) => spec_u32_to_le_bytes(v as u32),
            NumericValue::I64(v) => spec_u64_to_le_bytes(v as u64),
            NumericValue::I128(v) => spec_u128_to_le_bytes(v as u128),
            NumericValue::ISIZE(v) => spec_u64_to_le_bytes(v as i64 as u64),
        }
    }

    /// Tagged encoding: the tag byte followed by the value bytes.
    pub open spec fn spec_tagged_bytes(self) -> Seq<u8> {
        seq![self.spec_tag()] + self.spec_value_bytes()
    }

    /// Comparison of two values as the numeric types compare them: `None` for
    /// values of different types and for NaNs, else the sign of `self - other`.
    pub open spec fn spec_compare(self, other: NumericValue) -> Option<i8> {
        match (self, other) {
            (NumericValue::U8(a), NumericValue::U8(b)) => Some(sign_of(a as int, b as int)),
            (NumericValue::U16(a), NumericValue::U16(b)) => Some(sign_of(a as int, b as int)),
            (NumericValue::U32(a), NumericValue::U32(b)) => Some(sign_of(a as int, b as int)),
            (NumericValue::U64(a), NumericValue::U64(b)) => Some(sign_of(a as int, b as int)),
            (NumericValue::U128(a), NumericValue::U128(b)) => Some(sign_of(a as int, b as int)),
            (NumericValue::USIZE(a), NumericValue::USIZE(b)) => Some(sign_of(a as int, b as int)),
            (NumericValue::F32(a), NumericValue::F32(b)) => if f32_is_nan(a) || f32_is_nan(b) {
                None
            } else {
                Some(sign_of(f32_key(a), f32_key(b)))
            },
            (NumericValue::F64(a), NumericValue::F64(b)) => if f64_is_nan(a) || f64_is_nan(b) {
                None
            } else {
                Some(sign_of(f64_key(a), f64_key(b)))
            },
            (NumericValue::I8(a), NumericValue::I8(b)) => Some(sign_of(a as int, b as int)),
            (NumericValue::I16(a), NumericValue::I16(b)) => Some(sign_of(a as int, b as int)),
            (NumericValue::I32(a), NumericValue::I32(b)) => Some(sign_of(a as int, b as int)),
            (NumericValue::I64(a), NumericValue::I64(b)) => Some(sign_of(a as int, b as int)),
            (NumericValue::I128(a), NumericValue::I128(b)) => Some(sign_of(a as int, b as int)),
            (NumericValue::ISIZE(a), NumericValue::ISIZE(b)) => Some(sign_of(a as int, b as int)),
            _ => None,
        }
    }

    /// The value with the given tag and all bits zero, if the tag is known.
    pub open spec fn spec_zero_of_tag(tag: u8) -> Option<NumericValue> {
        if tag == 0 {
            Some(NumericValue::U8(0))
        } else if tag == 1 {
            Some(NumericValue::U16(0))
        } else if tag == 2 {
            Some(NumericValue::U32(0))
        } else if tag == 3 {
            Some(NumericValue::U64(0))
        } else if tag == 4 {
            Some(NumericValue::U128(0))
        } else if tag == 5 {
            Some(NumericValue::USIZE(0))
        } else if tag == 6 {
            Some(NumericValue::F32(0))
        } else if tag == 7 {
            Some(NumericValue::F64(0))
        } else if tag == 8 {
            Some(NumericValue::I8(0))
        } else if tag == 9 {
            Some(NumericValue::I16(0))
        } else if tag == 10 {
            Some(NumericValue::I32(0))
        } else if tag == 11 {
            Some(NumericValue::I64(0))
        } else if tag == 12 {
            Some(NumericValue::I128(0))
        } else if tag == 13 {
            Some(NumericValue::ISIZE(0))
        } else {
            None
        }
    }

    /// Tag of the value's type.
    pub fn as_u8_type(&self) -> (t: u8)
        ensures
            t == self.spec_tag(),
    {
        match self {
            NumericValue::U8(_) => 0,
            NumericValue::U16(_) => 1,
            NumericValue::U32(_) => 2,
            NumericValue::U64(_) => 3,
            NumericValue::U128(_) => 4,
            NumericValue::USIZE(_) => 5,
            NumericValue::F32(_) => 6,
            NumericValue::F64(_) => 7,
            NumericValue::I8(_) => 8,
            NumericValue::I16(_) => 9,
            NumericValue::I32(_) => 10,
            NumericValue::I64(_) => 11,
            NumericValue::I128(_) => 12,
            NumericValue::ISIZE(_) => 13,
        }
    }

    /// The zero value of the type with the given tag; an error for an unknown tag.
    pub fn from_u8_type(value: u8) -> (res: Result<Self, Error>)
        ensures
            value <= MAX_NUMERIC_TAG ==> res is Ok && res->Ok_0.spec_tag() == value,
            value <= MAX_NUMERIC_TAG ==> res == Ok::<NumericValue, Error>(
                NumericValue::spec_zero_of_tag(value).unwrap(),
            ),
            value > MAX_NUMERIC_TAG ==> res == Err::<NumericValue, Error>(
                Error::InvalidNumericValueType(value),
            ),
    {
        match value {
            0 => Ok(NumericValue::U8(0)),
            1 => Ok(NumericValue::U16(0)),
            2 => Ok(NumericValue::U32(0)),
            3 => Ok(NumericValue::U64(0)),
            4 => Ok(NumericValue::U128(0)),
            5 => Ok(NumericValue::USIZE(0)),
            6 => Ok(NumericValue::F32(0)),
            7 => Ok(NumericValue::F64(0)),
            8 => Ok(NumericValue::I8(0)),
            9 => Ok(NumericValue::I16(0)),
            10 => Ok(NumericValue::I32(0)),
            11 => Ok(NumericValue::I64(0)),
            12 => Ok(NumericValue::I128(0)),
            13 => Ok(NumericValue::ISIZE(0)),
            _ => Err(Error::InvalidNumericValueType(value)),
        }
    }

    /// Appends the little-endian bytes of the value (without the tag).
    pub fn encode(&self, output: &mut Vec<u8>) -> (res: Result<(), Error>)
        ensures
            res is Ok,
            final(output)@ == old(output)@ + self.spec_value_bytes(),
    {
        match self {
            NumericValue::U8(v) => output.push(*v),
            NumericValue::U16(v) => push_u16_le(output, *v),
            NumericValue::U32(v) => push_u32_le(output, *v),
            NumericValue::U64(v) => push_u64_le(output, *v),
            NumericValue::U128(v) => push_u128_le(output, *v),
            NumericValue::USIZE(v) => push_u64_le(output, *v as u64),
            NumericValue::F32(v) => push_u32_le(output, *v),
            NumericValue::F64(v) => push_u64_le(output, *v),
            NumericValue::I8(v) => output.push(*v as u8),
            NumericValue::I16(v) => push_u16_le(output, *v as u16),
            NumericValue::I32(v) => push_u32_le(output, *v as u32),
            NumericValue::I64(v) => push_u64_le(output, *v as u64),
            NumericValue::I128(v) => push_u128_le(output, *v as u128),
            NumericValue::ISIZE(v) => push_u64_le(output, *v as i64 as u64),
        }
        proof {
            if let NumericValue::U8(v) = self {
                assert(seq![*v] =~= seq![*v]);
            }
        }
        Ok(())
    }

    /// Appends the tag of the value's type, then its little-endian bytes.
    pub fn write_to_buffer(&self, buffer: &mut Vec<u8>) -> (res: Result<(), Error>)
        ensures
            res is Ok,
            final(buffer)@ == old(buffer)@ + self.spec_tagged_bytes(),
    {
        buffer.push(self.as_u8_type());
        let r = self.encode(buffer);
        assert(buffer@ == old(buffer)@ + self.spec_tagged_bytes());
        r
    }

    /// Decodes the value of the type with tag `tag` from `buf[at..at + tag_width(tag)]`.
    pub fn decode_value(tag: u8, buf: &[u8], at: usize) -> (v: NumericValue)
        requires
            tag <= MAX_NUMERIC_TAG,
            at + tag_width(tag) <= buf@.len(),
        ensures
            v == spec_decode_value(tag, buf@.subrange(at as int, at + tag_width(tag))),
    {
        let len = buf.len();
        if tag == 0 {
            NumericValue::U8(buf[at])
        } else if tag == 1 {
            NumericValue::U16(read_u16_le(buf, at))
        } else if tag == 2 {
            NumericValue::U32(read_u32_le(buf, at))
        } else if tag == 3 {
            NumericValue::U64(read_u64_le(buf, at))
        } else if tag == 4 {
            NumericValue::U128(read_u128_le(buf, at))
        } else if tag == 5 {
            NumericValue::USIZE(read_u64_le(buf, at) as usize)
        } else if tag == 6 {
            NumericValue::F32(read_u32_le(buf, at))
        } else if tag == 7 {
            NumericValue::F64(read_u64_le(buf, at))
        } else if tag == 8 {
            NumericValue::I8(buf[at] as i8)
        } else if tag == 9 {
            NumericValue::I16(read_u16_le(buf, at) as i16)
        } else if tag == 10 {
            NumericValue::I32(read_u32_le(buf, at) as i32)
        } else if tag == 11 {
            NumericValue::I64(read_u64_le(buf, at) as i64)
        } else if tag == 12 {
            NumericValue::I128(read_u128_le(buf, at) as i128)
        } else {
            NumericValue::ISIZE(read_u64_le(buf, at) as i64 as isize)
        }
    }

    /// Reads a tagged value starting at `pos`; returns the outcome and the
    /// position after the bytes read.
    pub fn read_at(buf: &[u8], pos: usize) -> (r: (Result<Self, Error>, usize))
        requires
            parse_numeric_at(buf@, pos as int) is Some,
        ensures
            parse_numeric_at(buf@, pos as int) == Some((r.0, r.1 as int)),
            r.1 <= buf@.len(),
    {
        let tag = buf[pos];
        if tag > MAX_NUMERIC_TAG {
            return (Err(Error::InvalidNumericValueType(tag)), pos + 1);
        }
        let width: usize = if tag == 0 || tag == 8 {
            1
        } else if tag == 1 || tag == 9 {
            2
        } else if tag == 2 || tag == 6 || tag == 10 {
            4
        } else if tag == 4 || tag == 12 {
            16
        } else {
            8
        };
        let v = Self::decode_value(tag, buf, pos + 1);
        (Ok(v), pos + 1 + width)
    }

    /// Removes a tagged value from the front of the buffer and returns it.
    /// An unknown tag is an error (the tag byte is consumed).
    pub fn read_from_buffer(buffer: &mut Vec<u8>) -> (res: Result<Self, Error>)
        requires
            parse_numeric_at(old(buffer)@, 0) is Some,
        ensures
            ({
                let (expected, next) = parse_numeric_at(old(buffer)@, 0).unwrap();
                &&& res == expected
                &&& final(buffer)@ == old(buffer)@.subrange(next, old(buffer)@.len() as int)
            }),
    {
        let (res, next) = Self::read_at(buffer.as_slice(), 0);
        let _ = take_front(buffer, next);
        res
    }

    /// Whether two values are identical: same type and same bits.
    pub fn same_as(&self, other: &Self) -> (r: bool)
        ensures
            r == (*self == *other),
    {
        match (self, other) {
            (NumericValue::U8(a), NumericValue::U8(b)) => *a == *b,
            (NumericValue::U16(a), NumericValue::U16(b)) => *a == *b,
            (NumericValue::U32(a), NumericValue::U32(b)) => *a == *b,
            (NumericValue::U64(a), NumericValue::U64(b)) => *a == *b,
            (NumericValue::U128(a), NumericValue::U128(b)) => *a == *b,
            (NumericValue::USIZE(a), NumericValue::USIZE(b)) => *a == *b,
            (NumericValue::F32(a), NumericValue::F32(b)) => *a == *b,
            (NumericValue::F64(a), NumericValue::F64(b)) => *a == *b,
            (NumericValue::I8(a), NumericValue::I8(b)) => *a == *b,
            (NumericValue::I16(a), NumericValue::I16(b)) => *a == *b,
            (NumericValue::I32(a), NumericValue::I32(b)) => *a == *b,
            (NumericValue::I64(a), NumericValue::I64(b)) => *a == *b,
            (NumericValue::I128(a), NumericValue::I128(b)) => *a == *b,
            (NumericValue::ISIZE(a), NumericValue::ISIZE(b)) => *a == *b,
            _ => false,
        }
    }

    /// A readable rendering of the value: the type name and the value in
    /// decimal (the bit pattern for the floating-point types).
    pub fn debug_string(&self) -> (s: String)
        ensures
            s@ == numeric_text(*self),
    {
        let (name, text) = match self {
            NumericValue::U8(v) => ("U8(", decimal_string(*v as u128)),
            NumericValue::U16(v) => ("U16(", decimal_string(*v as u128)),
            NumericValue::U32(v) => ("U32(", decimal_string(*v as u128)),
            NumericValue::U64(v) => ("U64(", decimal_string(*v as u128)),
            NumericValue::U128(v) => ("U128(", decimal_string(*v)),
            NumericValue::USIZE(v) => ("USIZE(", decimal_string(*v as u128)),
            NumericValue::F32(v) => ("F32(", decimal_string(*v as u128)),
            NumericValue::F64(v) => ("F64(", decimal_string(*v as u128)),
            NumericValue::I8(v) => ("I8(", signed_decimal_string(*v as i128)),
            NumericValue::I16(v) => ("I16(", signed_decimal_string(*v as i128)),
            NumericValue::I32(v) => ("I32(", signed_decimal_string(*v as i128)),
            NumericValue::I64(v) => ("I64(", signed_decimal_string(*v as i128)),
            NumericValue::I128(v) => ("I128(", signed_decimal_string(*v)),
            NumericValue::ISIZE(v) => ("ISIZE(", signed_decimal_string(*v as i128)),
        };
        let mut s = String::new();
        s.append(name);
        s.append(text.as_str());
        s.append(")");
        s
    }

    /// Sign of `self - other` when both values have the same type and are
    /// ordered (no NaN), else `None`.
    pub fn compare_sign(&self, other: &Self) -> (r: Option<i8>)
        ensures
            r == self.spec_compare(*other),
    {
        match (self, other) {
            (NumericValue::U8(a), NumericValue::U8(b)) => Some(sign_u128(*a as u128, *b as u128)),
            (NumericValue::U16(a), NumericValue::U16(b)) => Some(sign_u128(*a as u128, *b as u128)),
            (NumericValue::U32(a), NumericValue::U32(b)) => Some(sign_u128(*a as u128, *b as u128)),
            (NumericValue::U64(a), NumericValue::U64(b)) => Some(sign_u128(*a as u128, *b as u128)),
            (NumericValue::U128(a), NumericValue::U128(b)) => Some(sign_u128(*a, *b)),
            (NumericValue::USIZE(a), NumericValue::USIZE(b)) => Some(
                sign_u128(*a as u128, *b as u128),
            ),
            (NumericValue::F32(a), NumericValue::F32(b)) => {
                let ma: u32 = if *a >= 0x8000_0000 { *a - 0x8000_0000 } else { *a };
                let mb: u32 = if *b >= 0x8000_0000 { *b - 0x8000_0000 } else { *b };
                if ma > 0x7f80_0000 || mb > 0x7f80_0000 {
                    None
                } else {
                    let ka: i128 = if *a >= 0x8000_0000 { -(ma as i128) } else { ma as i128 };
                    let kb: i128 = if *b >= 0x8000_0000 { -(mb as i128) } else { mb as i128 };
                    Some(sign_i128(ka, kb))
                }
            },
            (NumericValue::F64(a), NumericValue::F64(b)) => {
                let ma: u64 = if *a >= 0x8000_0000_0000_0000 {
                    *a - 0x8000_0000_0000_0000
                } else {
                    *a
                };
                let mb: u64 = if *b >= 0x8000_0000_0000_0000 {
                    *b - 0x8000_0000_0000_0000
                } else {
                    *b
                };
                if ma > 0x7ff0_0000_0000_0000 || mb > 0x7ff0_0000_0000_0000 {
                    None
                } else {
                    let ka: i128 = if *a >= 0x8000_0000_0000_0000 {
                        -(ma as i128)
                    } else {
                        ma as i128
                    };
                    let kb: i128 = if *b >= 0x8000_0000_0000_0000 {
                        -(mb as i128)
                    } else {
                        mb as i128
                    };
                    Some(sign_i128(ka, kb))
                }
            },
            (NumericValue::I8(a), NumericValue::I8(b)) => Some(sign_i128(*a as i128, *b as i128)),
            (NumericValue::I16(a), NumericValue::I16(b)) => Some(sign_i128(*a as i128, *b as i128)),
            (NumericValue::I32(a), NumericValue::I32(b)) => Some(sign_i128(*a as i128, *b as i128)),
            (NumericValue::I64(a), NumericValue::I64(b)) => Some(sign_i128(*a as i128, *b as i128)),
            (NumericValue::I128(a), NumericValue::I128(b)) => Some(sign_i128(*a, *b)),
            (NumericValue::ISIZE(a), NumericValue::ISIZE(b)) => Some(
                sign_i128(*a as i128, *b as i128),
            ),
            _ => None,
        }
    }
}

/// Sign of `a - b` for unsigned operands.
pub fn sign_u128(a: u128, b: u128) -> (r: i8)
    ensures
        r == sign_of(a as int, b as int),
{
    if a < b {
        -1
    } else if a == b {
        0
    } else {
        1
    }
}

/// Sign of `a - b` for signed operands.
pub fn sign_i128(a: i128, b: i128) -> (r: i8)
    ensures
        r == sign_of(a as int, b as int),
{
    if a < b {
        -1
    } else if a == b {
        0
    } else {
        1
    }
}

/// Decoding the tagged encoding of a value gives the value back.
pub proof fn lemma_numeric_roundtrip(v: NumericValue)
    ensures
        v.spec_value_bytes().len() == tag_width(v.spec_tag()),
        v.spec_tag() <= MAX_NUMERIC_TAG,
        spec_decode_value(v.spec_tag(), v.spec_value_bytes()) == v,
{
    lemma_le_roundtrips();
    match v {
        NumericValue::I8(x) => {
            assert((x as u8) as i8 == x) by (bit_vector);
        },
        NumericValue::I16(x) => {
            assert((x as u16) as i16 == x) by (bit_vector);
        },
        NumericValue::I32(x) => {
            assert((x as u32) as i32 == x) by (bit_vector);
        },
        NumericValue::I64(x) => {
            assert((x as u64) as i64 == x) by (bit_vector);
        },
        NumericValue::I128(x) => {
            assert((x as u128) as i128 == x) by (bit_vector);
        },
        NumericValue::ISIZE(x) => {
            assert(((x as i64) as u64) as i64 == x as i64) by (bit_vector);
            assert((x as i64) as isize == x) by (bit_vector);
        },
        NumericValue::USIZE(x) => {
            assert((x as u64) as usize == x) by (bit_vector);
        },
        NumericValue::U8(x) => {
            assert(seq![x][0] == x);
        },
        _ => {},
    }
}


/// The mathematical integer a value of an integer type stands for; `None`
/// for the floating-point types.
pub open spec fn integer_value(v: NumericValue) -> Option<int> {
    match v {
        NumericValue::U8(x) => Some(x as int),
        NumericValue::U16(x) => Some(x as int),
        NumericValue::U32(x) => Some(x as int),
        NumericValue::U64(x) => Some(x as int),
        NumericValue::U128(x) => Some(x as int),
        NumericValue::USIZE(x) => Some(x as int),
        NumericValue::F32(_) => None,
        NumericValue::F64(_) => None,
        NumericValue::I8(x) => Some(x as int),
        NumericValue::I16(x) => Some(x as int),
        NumericValue::I32(x) => Some(x as int),
        NumericValue::I64(x) => Some(x as int),
        NumericValue::I128(x) => Some(x as int),
        NumericValue::ISIZE(x) => Some(x as int),
    }
}

/// Two values of the same integer type compare as the integers they stand
/// for: the comparison gives `-1` exactly when the first is the smaller,
/// `0` exactly when they are equal and `1` exactly when the first is the
/// larger (signed types by their signed value, not their bit pattern).
pub proof fn lemma_compare_is_integer_order(a: NumericValue, b: NumericValue)
    requires
        a.spec_tag() == b.spec_tag(),
        integer_value(a) is Some,
    ensures
        integer_value(b) is Some,
        a.spec_compare(b) == Some(-1i8) <==> integer_value(a).unwrap() < integer_value(b).unwrap(),
        a.spec_compare(b) == Some(0i8) <==> integer_value(a).unwrap() == integer_value(b).unwrap(),
        a.spec_compare(b) == Some(1i8) <==> integer_value(a).unwrap() > integer_value(b).unwrap(),
{
}

/// A signed number in decimal, with a leading `-` below zero.
pub open spec fn signed_text(n: int) -> Seq<char> {
    if n >= 0 {
        spec_decimal(n as nat)
    } else {
        seq!['-'] + spec_decimal((-n) as nat)
    }
}

/// The rendering of a value: its type name, its value in decimal (the bit
/// pattern of a float) in parentheses.
pub open spec fn numeric_text(v: NumericValue) -> Seq<char> {
    match v {
        NumericValue::U8(x) => "U8("@ + spec_decimal(x as nat) + ")"@,
        NumericValue::U16(x) => "U16("@ + spec_decimal(x as nat) + ")"@,
        NumericValue::U32(x) => "U32("@ + spec_decimal(x as nat) + ")"@,
        NumericValue::U64(x) => "U64("@ + spec_decimal(x as nat) + ")"@,
        NumericValue::U128(x) => "U128("@ + spec_decimal(x as nat) + ")"@,
        NumericValue::USIZE(x) => "USIZE("@ + spec_decimal(x as nat) + ")"@,
        NumericValue::F32(x) => "F32("@ + spec_decimal(x as nat) + ")"@,
        NumericValue::F64(x) => "F64("@ + spec_decimal(x as nat) + ")"@,
        NumericValue::I8(x) => "I8("@ + signed_text(x as int) + ")"@,
        NumericValue::I16(x) => "I16("@ + signed_text(x as int) + ")"@,
        NumericValue::I32(x) => "I32("@ + signed_text(x as int) + ")"@,
        NumericValue::I64(x) => "I64("@ + signed_text(x as int) + ")"@,
        NumericValue::I128(x) => "I128("@ + signed_text(x as int) + ")"@,
        NumericValue::ISIZE(x) => "ISIZE("@ + signed_text(x as int) + ")"@,
    }
}

} // verus!
