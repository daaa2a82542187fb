//! Optional validation rules attached to a field, and their encoding.
use vstd::prelude::*;
use vstd::bytes::*;
use vstd::utf8::*;
use vstd::seq_lib::lemma_concat_associative;
use crate::bytes::{
    u16_le_bytes, lemma_split_at,
    copy_range, extend_from_slice, lemma_le_roundtrips, push_u16_le, push_u64_le, read_u64_le,
    take_front,
};
use crate::error::Error;
use crate::numeric::{numeric_text, NumericValue, parse_numeric_at, tag_width, MAX_NUMERIC_TAG, spec_decode_value, lemma_numeric_roundtrip};
use crate::regex_match::{CompiledRegex, compile_regex, regex_compiles, regex_is_match, regex_matches};
use crate::text::{decimal_string, spec_decimal};
use crate::utf8_text::{string_from_utf8, string_bytes, lemma_utf8_roundtrip};

verus! {

/// Number of bytes in a gigabyte.
pub const GIGABYTE: usize = 1073741824;

/// Maximum size of a field in a struct.
pub const MAX_FIELD_SIZE: usize = GIGABYTE;

/// Optional rules for a field.
#[derive(Debug, Clone)]
pub struct VTableFieldRules {
    pub ignore: bool,
    pub max_value: Option<NumericValue>,
    pub min_value: Option<NumericValue>,
    pub max_length: Option<usize>,
    pub min_length: Option<usize>,
    /// An absolute length.
    pub length: Option<usize>,
    /// A regex pattern the data must match.
    pub regex: Option<String>,
    pub sign: bool,
}

/// Model of the rules: the regex pattern is taken by its characters.
pub struct RulesModel {
    pub ignore: bool,
    pub max_value: Option<NumericValue>,
    pub min_value: Option<NumericValue>,
    pub max_length: Option<usize>,
    pub min_length: Option<usize>,
    pub length: Option<usize>,
    pub regex: Option<Seq<char>>,
    pub sign: bool,
}

impl View for VTableFieldRules {
    type V = RulesModel;

    open spec fn view(&self) -> RulesModel {
        RulesModel {
            ignore: self.ignore,
            max_value: self.max_value,
            min_value: self.min_value,
            max_length: self.max_length,
            min_length: self.min_length,
            length: self.length,
            regex: match self.regex {
                Some(s) => Some(s@),
                None => None,
            },
            sign: self.sign,
        }
    }
}

/// A boolean as the byte the encoding writes for it.
pub open spec fn bool_byte(b: bool) -> u8 {
    if b {
        1
    } else {
        0
    }
}

/// Encoding of an optional numeric value: a presence flag, then the tagged value.
pub open spec fn opt_numeric_bytes(v: Option<NumericValue>) -> Seq<u8> {
    match v {
        Some(n) => seq![1u8] + n.spec_tagged_bytes(),
        None => seq![0u8],
    }
}

/// Encoding of an optional length: a presence flag, then eight little-endian bytes.
pub open spec fn opt_length_bytes(v: Option<usize>) -> Seq<u8> {
    match v {
        Some(n) => seq![1u8] + spec_u64_to_le_bytes(n as u64),
        None => seq![0u8],
    }
}

/// Encoding of an optional regex: a presence flag, the byte length of the
/// pattern as two little-endian bytes, then the UTF-8 bytes of the pattern.
pub open spec fn opt_regex_bytes(v: Option<Seq<char>>) -> Seq<u8> {
    match v {
        Some(s) => seq![1u8] + u16_le_bytes(encode_utf8(s).len() as u16) + encode_utf8(
            s,
        ),
        None => seq![0u8],
    }
}

/// Encoding of the rules.
pub open spec fn rules_bytes(r: RulesModel) -> Seq<u8> {
    seq![bool_byte(r.ignore), bool_byte(r.sign)] + opt_numeric_bytes(r.max_value)
        + opt_numeric_bytes(r.min_value) + opt_length_bytes(r.max_length) + opt_length_bytes(
        r.min_length,
    ) + opt_length_bytes(r.length) + opt_regex_bytes(r.regex)
}

/// Reading an optional numeric value at `p`: outcome and next position; `None`
/// when the bytes end first.
pub open spec fn parse_opt_numeric_at(b: Seq<u8>, p: int) -> Option<
    (Result<Option<NumericValue>, Error>, int),
> {
    if p < 0 || p >= b.len() {
        None
    } else if b[p] != 1 {
        Some((Ok(None), p + 1))
    } else {
        match parse_numeric_at(b, p + 1) {
            None => None,
            Some((Ok(v), q)) => Some((Ok(Some(v)), q)),
            Some((Err(e), q)) => Some((Err(e), q)),
        }
    }
}

/// Reading an optional length at `p`.
pub open spec fn parse_opt_length_at(b: Seq<u8>, p: int) -> Option<(Option<usize>, int)> {
    if p < 0 || p >= b.len() {
        None
    } else if b[p] != 1 {
        Some((None, p + 1))
    } else if p + 9 > b.len() {
        None
    } else {
        Some((Some(spec_u64_from_le_bytes(b.subrange(p + 1, p + 9)) as usize), p + 9))
    }
}

/// Reading an optional regex at `p`. The length is read big-endian.
pub open spec fn parse_opt_regex_at(b: Seq<u8>, p: int) -> Option<
    (Result<Option<Seq<char>>, Error>, int),
> {
    if p < 0 || p >= b.len() {
        None
    } else if b[p] != 1 {
        Some((Ok(None), p + 1))
    } else if p + 3 > b.len() {
        None
    } else {
        let len = b[p + 1] as int * 256 + b[p + 2] as int;
        if p + 3 + len > b.len() {
            None
        } else {
            let text = b.subrange(p + 3, p + 3 + len);
            if valid_utf8(text) {
                Some((Ok(Some(decode_utf8(text))), p + 3 + len))
            } else {
                Some((Err(Error::FromUtf8), p + 3 + len))
            }
        }
    }
}

/// Reading rules at `p`: outcome and next position; `None` when the bytes end first.
pub open spec fn parse_rules_at(b: Seq<u8>, p: int) -> Option<(Result<RulesModel, Error>, int)> {
    if p < 0 || p + 2 > b.len() {
        None
    } else {
        let ignore = b[p] == 1;
        let sign = b[p + 1] == 1;
        match parse_opt_numeric_at(b, p + 2) {
            None => None,
            Some((Err(e), q)) => Some((Err(e), q)),
            Some((Ok(max_value), q1)) => match parse_opt_numeric_at(b, q1) {
                None => None,
                Some((Err(e), q)) => Some((Err(e), q)),
                Some((Ok(min_value), q2)) => match parse_opt_length_at(b, q2) {
                    None => None,
                    Some((max_length, q3)) => match parse_opt_length_at(b, q3) {
                        None => None,
                        Some((min_length, q4)) => match parse_opt_length_at(b, q4) {
                            None => None,
                            Some((length, q5)) => match parse_opt_regex_at(b, q5) {
                                None => None,
                                Some((Err(e), q)) => Some((Err(e), q)),
                                Some((Ok(regex), q6)) => Some(
                                    (
                                        Ok(
                                            RulesModel {
                                                ignore,
                                                max_value,
                                                min_value,
                                                max_length,
                                                min_length,
                                                length,
                                                regex,
                                                sign,
                                            },
                                        ),
                                        q6,
                                    ),
                                ),
                            },
                        },
                    },
                },
            },
        }
    }
}

/// Outcome of checking a data length against the rules: `None` when it passes,
/// else the kind of violation.
pub open spec fn length_violation(r: RulesModel, length: usize) -> bool {
    ||| length > MAX_FIELD_SIZE
    ||| (r.length matches Some(l) && length != l)
    ||| (r.length is None && (r.max_length matches Some(m) && length > m))
    ||| (r.length is None && (r.min_length matches Some(m) && length < m))
}

/// The message of the first length rule that `length` breaks.
pub open spec fn length_message(r: RulesModel, length: usize) -> Seq<char> {
    if length > MAX_FIELD_SIZE {
        "data size exceeds 1 gigabyte"@
    } else if r.length is Some {
        "data size does not match required length: "@ + spec_decimal(length as nat)
    } else if r.max_length matches Some(m) && length > m {
        "data size exceeds field max length: "@ + spec_decimal(r.max_length.unwrap() as nat)
    } else {
        "data size is less than min length: "@ + spec_decimal(r.min_length.unwrap() as nat)
    }
}

/// The message of the first value rule that `v` breaks.
pub open spec fn value_message(r: RulesModel, v: NumericValue) -> Seq<char> {
    if r.max_value matches Some(m) && v.spec_compare(m) == Some(1i8) {
        "data value exceeds field max value: "@ + numeric_text(r.max_value.unwrap())
    } else {
        "data value is less than min value: "@ + numeric_text(r.min_value.unwrap())
    }
}

/// Whether a numeric value violates the rules: above the maximum or below the minimum.
pub open spec fn value_violation(r: RulesModel, v: NumericValue) -> bool {
    ||| (r.max_value matches Some(m) && v.spec_compare(m) == Some(1i8))
    ||| (r.min_value matches Some(m) && v.spec_compare(m) == Some(-1i8))
}

/// The rules hold no constraint at all.
pub open spec fn rules_are_none(r: RulesModel) -> bool {
    &&& !r.ignore
    &&& r.max_value is None
    &&& r.min_value is None
    &&& r.max_length is None
    &&& r.min_length is None
    &&& r.length is None
    &&& r.regex is None
    &&& !r.sign
}

impl VTableFieldRules {
    /// Rules without any constraint.
    pub fn new() -> (r: Self)
        ensures
            rules_are_none(r@),
    {
        Self {
            ignore: false,
            max_value: None,
            min_value: None,
            max_length: None,
            min_length: None,
            length: None,
            regex: None,
            sign: false,
        }
    }

    /// Whether the rules hold no constraint (so that validation can be skipped).
    pub fn is_none(&self) -> (r: bool)
        ensures
            r == rules_are_none(self@),
    {
        !self.ignore && self.max_value.is_none() && self.min_value.is_none()
            && self.max_length.is_none() && self.min_length.is_none() && self.length.is_none()
            && self.regex.is_none() && !self.sign
    }

    /// The rules with the maximum length set.
    pub fn set_max_length(self, max_length: usize) -> (r: Self)
        ensures
            r@ == (RulesModel { max_length: Some(max_length), ..self@ }),
    {
        let mut s = self;
        s.max_length = Some(max_length);
        s
    }

    /// The rules with the minimum length set.
    pub fn set_min_length(self, min_length: usize) -> (r: Self)
        ensures
            r@ == (RulesModel { min_length: Some(min_length), ..self@ }),
    {
        let mut s = self;
        s.min_length = Some(min_length);
        s
    }

    /// The rules with the exact length set.
    pub fn set_length(self, length: usize) -> (r: Self)
        ensures
            r@ == (RulesModel { length: Some(length), ..self@ }),
    {
        let mut s = self;
        s.length = Some(length);
        s
    }

    /// The rules with the ignore flag set to `ignore`.
    pub fn set_ignore(self, ignore: bool) -> (r: Self)
        ensures
            r@ == (RulesModel { ignore, ..self@ }),
    {
        let mut s = self;
        s.ignore = ignore;
        s
    }

    /// The rules with the regex pattern set.
    pub fn set_regex(self, value: &str) -> (r: Self)
        ensures
            r@ == (RulesModel { regex: Some(value@), ..self@ }),
    {
        let mut s = self;
        s.regex = Some(value.to_string());
        s
    }

    /// The maximum length.
    pub fn max_length(&self) -> (r: Option<usize>)
        ensures
            r == self.max_length,
    {
        self.max_length
    }

    /// The minimum length.
    pub fn min_length(&self) -> (r: Option<usize>)
        ensures
            r == self.min_length,
    {
        self.min_length
    }

    /// The exact length.
    pub fn length(&self) -> (r: Option<usize>)
        ensures
            r == self.length,
    {
        self.length
    }

    /// The regex compiled from the pattern; `None` without a pattern or when
    /// the pattern does not compile.
    pub fn regex(&self) -> (r: Option<CompiledRegex>)
        ensures
            self.regex is None ==> r is None,
            self.regex matches Some(p) ==> (r is Some <==> regex_compiles(p@)),
            r matches Some(c) ==> (self.regex matches Some(p) && c@ == p@),
    {
        match &self.regex {
            None => None,
            Some(pattern) => compile_regex(pattern.as_str()),
        }
    }

    /// Whether the field is ignored.
    pub fn ignore(&self) -> (r: bool)
        ensures
            r == self.ignore,
    {
        self.ignore
    }

    /// Whether the field is signed.
    pub fn sign(&self) -> (r: bool)
        ensures
            r == self.sign,
    {
        self.sign
    }

    /// Checks `data` against the regex pattern, if there is one that compiles.
    pub fn check_regex(&self, data: &str) -> (res: Result<(), Error>)
        ensures
            res is Err <==> (self.regex matches Some(p) && (regex_compiles(p@) && !regex_matches(
                p@,
                data@,
            ))),
            res matches Err(e) ==> (e matches Error::FieldRulesRegex(m) && m@ == "data does not match regex: "@
                + self.regex.unwrap()@),
    {
        if let Some(regex_pattern) = self.regex() {
            if !regex_is_match(&regex_pattern, data) {
                let mut msg = String::new();
                msg.append("data does not match regex: ");
                msg.append(regex_pattern.as_str());
                return Err(Error::FieldRulesRegex(msg));
            }
        }
        Ok(())
    }

    /// Checks a data length against the length rules: above a gigabyte is an
    /// error; an exact length, when set, must match; otherwise the maximum and
    /// the minimum length apply.
    pub fn check_length(&self, length: usize) -> (res: Result<(), Error>)
        ensures
            res is Err <==> length_violation(self@, length),
            res matches Err(e) ==> (e matches Error::FieldRulesLength(m) && m@ == length_message(self@, length)),
    {
        if length > MAX_FIELD_SIZE {
            let mut msg = String::new();
            msg.append("data size exceeds 1 gigabyte");
            return Err(Error::FieldRulesLength(msg));
        }
        if let Some(length_rule) = self.length {
            if length != length_rule {
                let mut msg = String::new();
                msg.append("data size does not match required length: ");
                msg.append(decimal_string(length as u128).as_str());
                return Err(Error::FieldRulesLength(msg));
            }
        } else {
            if let Some(max_length) = self.max_length {
                if length > max_length {
                    let mut msg = String::new();
                    msg.append("data size exceeds field max length: ");
                    msg.append(decimal_string(max_length as u128).as_str());
                    return Err(Error::FieldRulesLength(msg));
                }
            }
            if let Some(min_length) = self.min_length {
                if length < min_length {
                    let mut msg = String::new();
                    msg.append("data size is less than min length: ");
                    msg.append(decimal_string(min_length as u128).as_str());
                    return Err(Error::FieldRulesLength(msg));
                }
            }
        }
        Ok(())
    }

    /// Checks a value against the maximum and the minimum value.
    pub fn check_numeric(&self, value: &NumericValue) -> (res: Result<(), Error>)
        ensures
            res is Err <==> value_violation(self@, *value),
            res matches Err(e) ==> (e matches Error::FieldRulesValue(m) && m@ == value_message(self@, *value)),
    {
        if let Some(max_value) = &self.max_value {
            if value.compare_sign(max_value) == Some(1i8) {
                let mut msg = String::new();
                msg.append("data value exceeds field max value: ");
                msg.append(max_value.debug_string().as_str());
                return Err(Error::FieldRulesValue(msg));
            }
        }
        if let Some(min_value) = &self.min_value {
            if value.compare_sign(min_value) == Some(-1i8) {
                let mut msg = String::new();
                msg.append("data value is less than min value: ");
                msg.append(min_value.debug_string().as_str());
                return Err(Error::FieldRulesValue(msg));
            }
        }
        Ok(())
    }

    /// Appends the encoding of the rules.
    pub fn write_to_buffer(&self, buffer: &mut Vec<u8>) -> (res: Result<(), Error>)
        ensures
            res is Ok,
            final(buffer)@ == old(buffer)@ + rules_bytes(self@),
    {
        let ghost start = buffer@;
        let ghost r = self@;
        buffer.push(if self.ignore { 1 } else { 0 });
        buffer.push(if self.sign { 1 } else { 0 });
        let ghost s0 = seq![bool_byte(r.ignore), bool_byte(r.sign)];
        assert(buffer@ == start + s0);
        write_opt_numeric(buffer, &self.max_value);
        let ghost s1 = s0 + opt_numeric_bytes(r.max_value);
        proof { lemma_concat_associative(start, s0, opt_numeric_bytes(r.max_value)); }
        write_opt_numeric(buffer, &self.min_value);
        let ghost s2 = s1 + opt_numeric_bytes(r.min_value);
        proof { lemma_concat_associative(start, s1, opt_numeric_bytes(r.min_value)); }
        write_opt_length(buffer, self.max_length);
        let ghost s3 = s2 + opt_length_bytes(r.max_length);
        proof { lemma_concat_associative(start, s2, opt_length_bytes(r.max_length)); }
        write_opt_length(buffer, self.min_length);
        let ghost s4 = s3 + opt_length_bytes(r.min_length);
        proof { lemma_concat_associative(start, s3, opt_length_bytes(r.min_length)); }
        write_opt_length(buffer, self.length);
        let ghost s5 = s4 + opt_length_bytes(r.length);
        proof { lemma_concat_associative(start, s4, opt_length_bytes(r.length)); }
        write_opt_regex(buffer, &self.regex);
        proof {
            lemma_concat_associative(start, s5, opt_regex_bytes(r.regex));
            assert(s5 + opt_regex_bytes(r.regex) == rules_bytes(r));
        }
        Ok(())
    }

    /// Reads rules starting at `pos`; returns the outcome and the position after them.
    pub fn read_at(buf: &[u8], pos: usize) -> (r: (Result<Self, Error>, usize))
        requires
            parse_rules_at(buf@, pos as int) is Some,
        ensures
            ({
                let (expected, next) = parse_rules_at(buf@, pos as int).unwrap();
                &&& r.1 == next
                &&& r.1 <= buf@.len()
                &&& match (r.0, expected) {
                    (Ok(v), Ok(m)) => v@ == m,
                    (Err(e1), Err(e2)) => e1 == e2,
                    _ => false,
                }
            }),
    {
        let ignore = buf[pos] == 1;
        let sign = buf[pos + 1] == 1;
        let (max_value, q1) = match read_opt_numeric(buf, pos + 2) {
            (Ok(v), q) => (v, q),
            (Err(e), q) => return (Err(e), q),
        };
        let (min_value, q2) = match read_opt_numeric(buf, q1) {
            (Ok(v), q) => (v, q),
            (Err(e), q) => return (Err(e), q),
        };
        let (max_length, q3) = read_opt_length(buf, q2);
        let (min_length, q4) = read_opt_length(buf, q3);
        let (length, q5) = read_opt_length(buf, q4);
        let (regex, q6) = match read_opt_regex(buf, q5) {
            (Ok(v), q) => (v, q),
            (Err(e), q) => return (Err(e), q),
        };
        (
            Ok(
                Self { ignore, max_value, min_value, max_length, min_length, length, regex, sign },
            ),
            q6,
        )
    }

    /// Removes encoded rules from the front of the buffer and returns them.
    pub fn read_from_buffer(buffer: &mut Vec<u8>) -> (res: Result<Self, Error>)
        requires
            parse_rules_at(old(buffer)@, 0) is Some,
        ensures
            ({
                let (expected, next) = parse_rules_at(old(buffer)@, 0).unwrap();
                &&& final(buffer)@ == old(buffer)@.subrange(next, old(buffer)@.len() as int)
                &&& match (res, expected) {
                    (Ok(v), Ok(m)) => v@ == m,
                    (Err(e1), Err(e2)) => e1 == e2,
                    _ => false,
                }
            }),
    {
        let (res, next) = Self::read_at(buffer.as_slice(), 0);
        let _ = take_front(buffer, next);
        res
    }

    /// A copy of the rules with the same model.
    pub fn duplicate(&self) -> (r: Self)
        ensures
            r@ == self@,
    {
        Self {
            ignore: self.ignore,
            max_value: self.max_value,
            min_value: self.min_value,
            max_length: self.max_length,
            min_length: self.min_length,
            length: self.length,
            regex: match &self.regex {
                Some(p) => Some(p.clone()),
                None => None,
            },
            sign: self.sign,
        }
    }

    /// Whether two sets of rules are equal (the regex compared by its characters).
    pub fn eq_rules(&self, other: &Self) -> (r: bool)
        ensures
            r == (self@ == other@),
    {
        let regex_eq = match (&self.regex, &other.regex) {
            (Some(a), Some(b)) => a.eq(b),
            (None, None) => true,
            _ => false,
        };
        self.ignore == other.ignore && self.sign == other.sign && opt_numeric_same(
            &self.max_value,
            &other.max_value,
        ) && opt_numeric_same(&self.min_value, &other.min_value) && self.max_length
            == other.max_length && self.min_length == other.min_length && self.length
            == other.length && regex_eq
    }
}

/// Whether two optional numeric values are identical (same type and same bits).
fn opt_numeric_same(a: &Option<NumericValue>, b: &Option<NumericValue>) -> (r: bool)
    ensures
        r == (*a == *b),
{
    match (a, b) {
        (Some(x), Some(y)) => x.same_as(y),
        (None, None) => true,
        _ => false,
    }
}

/// Appends an optional numeric value: a presence flag, then the tagged value.
fn write_opt_numeric(buffer: &mut Vec<u8>, v: &Option<NumericValue>)
    ensures
        final(buffer)@ == old(buffer)@ + opt_numeric_bytes(*v),
{
    if let Some(n) = v {
        buffer.push(1);
        let _ = n.write_to_buffer(buffer);
    } else {
        buffer.push(0);
    }
}

/// Appends an optional regex pattern: a presence flag, the byte length as two
/// little-endian bytes, then the UTF-8 bytes.
fn write_opt_regex(buffer: &mut Vec<u8>, v: &Option<String>)
    ensures
        final(buffer)@ == old(buffer)@ + opt_regex_bytes(
            match *v {
                Some(s) => Some(s@),
                None => None,
            },
        ),
{
    if let Some(regex) = v {
        buffer.push(1);
        let bytes = string_bytes(regex);
        push_u16_le(buffer, bytes.len() as u16);
        extend_from_slice(buffer, bytes.as_slice());
    } else {
        buffer.push(0);
    }
}

/// Appends an optional length: a presence flag, then eight little-endian bytes.
fn write_opt_length(buffer: &mut Vec<u8>, v: Option<usize>)
    ensures
        final(buffer)@ == old(buffer)@ + opt_length_bytes(v),
{
    if let Some(n) = v {
        buffer.push(1);
        push_u64_le(buffer, n as u64);
    } else {
        buffer.push(0);
    }
}

/// Reads an optional numeric value at `pos`.
fn read_opt_numeric(buf: &[u8], pos: usize) -> (r: (Result<Option<NumericValue>, Error>, usize))
    requires
        parse_opt_numeric_at(buf@, pos as int) is Some,
    ensures
        parse_opt_numeric_at(buf@, pos as int) == Some((r.0, r.1 as int)),
{
    if buf[pos] != 1 {
        return (Ok(None), pos + 1);
    }
    match NumericValue::read_at(buf, pos + 1) {
        (Ok(v), q) => (Ok(Some(v)), q),
        (Err(e), q) => (Err(e), q),
    }
}

/// Reads an optional length at `pos`.
fn read_opt_length(buf: &[u8], pos: usize) -> (r: (Option<usize>, usize))
    requires
        parse_opt_length_at(buf@, pos as int) is Some,
    ensures
        parse_opt_length_at(buf@, pos as int) == Some((r.0, r.1 as int)),
{
    if buf[pos] != 1 {
        return (None, pos + 1);
    }
    let v = read_u64_le(buf, pos + 1);
    (Some(v as usize), pos + 9)
}

/// Reads an optional regex pattern at `pos`.
fn read_opt_regex(buf: &[u8], pos: usize) -> (r: (Result<Option<String>, Error>, usize))
    requires
        parse_opt_regex_at(buf@, pos as int) is Some,
    ensures
        ({
            let (expected, next) = parse_opt_regex_at(buf@, pos as int).unwrap();
            &&& r.1 == next
            &&& match (r.0, expected) {
                (Ok(Some(s)), Ok(Some(m))) => s@ == m,
                (Ok(None), Ok(None)) => true,
                (Err(e1), Err(e2)) => e1 == e2,
                _ => false,
            }
        }),
{
    if buf[pos] != 1 {
        return (Ok(None), pos + 1);
    }
    let len: usize = buf[pos + 1] as usize * 256 + buf[pos + 2] as usize;
    let text = copy_range(buf, pos + 3, pos + 3 + len);
    match string_from_utf8(text) {
        Some(s) => (Ok(Some(s)), pos + 3 + len),
        None => (Err(Error::FromUtf8), pos + 3 + len),
    }
}

/// Rules whose encoding reads back to the same rules: the encoded regex
/// length is written little-endian and read big-endian, so it must fit two
/// bytes and have both bytes equal.
pub open spec fn rules_roundtrip_ok(r: RulesModel) -> bool {
    r.regex matches Some(s) ==> {
        let n = encode_utf8(s).len();
        n < 65536 && n % 256 == n / 256
    }
}

/// Reading a tagged value where its encoding stands gives the value back.
pub proof fn lemma_parse_numeric_of(v: NumericValue, b: Seq<u8>, p: int)
    requires
        0 <= p,
        p + v.spec_tagged_bytes().len() <= b.len(),
        b.subrange(p, p + v.spec_tagged_bytes().len()) == v.spec_tagged_bytes(),
    ensures
        parse_numeric_at(b, p) == Some((Ok::<NumericValue, Error>(v), p + v.spec_tagged_bytes().len())),
{
    lemma_numeric_roundtrip(v);
    let t = v.spec_tagged_bytes();
    assert(b[p] == t[0]);
    lemma_split_at(b, p, seq![v.spec_tag()], v.spec_value_bytes());
}

/// Reading an optional numeric value where its encoding stands gives it back.
pub proof fn lemma_parse_opt_numeric_of(v: Option<NumericValue>, b: Seq<u8>, p: int)
    requires
        0 <= p,
        p + opt_numeric_bytes(v).len() <= b.len(),
        b.subrange(p, p + opt_numeric_bytes(v).len()) == opt_numeric_bytes(v),
    ensures
        parse_opt_numeric_at(b, p) == Some((Ok::<Option<NumericValue>, Error>(v), p + opt_numeric_bytes(v).len())),
{
    let e = opt_numeric_bytes(v);
    assert(b[p] == e[0]);
    if let Some(n) = v {
        lemma_split_at(b, p, seq![1u8], n.spec_tagged_bytes());
        lemma_parse_numeric_of(n, b, p + 1);
    }
}

/// Reading an optional length where its encoding stands gives it back.
pub proof fn lemma_parse_opt_length_of(v: Option<usize>, b: Seq<u8>, p: int)
    requires
        0 <= p,
        p + opt_length_bytes(v).len() <= b.len(),
        b.subrange(p, p + opt_length_bytes(v).len()) == opt_length_bytes(v),
    ensures
        parse_opt_length_at(b, p) == Some((v, p + opt_length_bytes(v).len())),
{
    lemma_le_roundtrips();
    let e = opt_length_bytes(v);
    assert(b[p] == e[0]);
    if let Some(n) = v {
        lemma_split_at(b, p, seq![1u8], spec_u64_to_le_bytes(n as u64));
        assert((n as u64) as usize == n) by (bit_vector);
    }
}

/// Reading an optional regex where its encoding stands gives it back, when
/// its byte length fits two bytes and both bytes are equal.
pub proof fn lemma_parse_opt_regex_of(v: Option<Seq<char>>, b: Seq<u8>, p: int)
    requires
        0 <= p,
        p + opt_regex_bytes(v).len() <= b.len(),
        b.subrange(p, p + opt_regex_bytes(v).len()) == opt_regex_bytes(v),
        v matches Some(s) ==> ({
            let n = encode_utf8(s).len();
            n < 65536 && n % 256 == n / 256
        }),
    ensures
        parse_opt_regex_at(b, p) == Some((Ok::<Option<Seq<char>>, Error>(v), p + opt_regex_bytes(v).len())),
{
    let e = opt_regex_bytes(v);
    assert(b[p] == e[0]);
    if let Some(s) = v {
        let text = encode_utf8(s);
        let n = text.len();
        lemma_utf8_roundtrip(s);
        lemma_split_at(b, p, seq![1u8] + u16_le_bytes(n as u16), text);
        lemma_split_at(b, p, seq![1u8], u16_le_bytes(n as u16));
        let lb = u16_le_bytes(n as u16);
        assert(b[p + 1] == lb[0]);
        assert(b[p + 2] == lb[1]);
        assert(b[p + 1] as int * 256 + b[p + 2] as int == n);
    }
}

/// Reading encoded rules gives the rules back, when the regex length
/// condition of `rules_roundtrip_ok` holds.
pub proof fn lemma_rules_roundtrip(r: RulesModel, b: Seq<u8>, p: int)
    requires
        0 <= p,
        p + rules_bytes(r).len() <= b.len(),
        b.subrange(p, p + rules_bytes(r).len()) == rules_bytes(r),
        rules_roundtrip_ok(r),
    ensures
        parse_rules_at(b, p) == Some((Ok::<RulesModel, Error>(r), p + rules_bytes(r).len())),
{
    let s0 = seq![bool_byte(r.ignore), bool_byte(r.sign)];
    let n1 = opt_numeric_bytes(r.max_value);
    let n2 = opt_numeric_bytes(r.min_value);
    let l1 = opt_length_bytes(r.max_length);
    let l2 = opt_length_bytes(r.min_length);
    let l3 = opt_length_bytes(r.length);
    let rx = opt_regex_bytes(r.regex);
    lemma_split_at(b, p, s0 + n1 + n2 + l1 + l2 + l3, rx);
    lemma_split_at(b, p, s0 + n1 + n2 + l1 + l2, l3);
    lemma_split_at(b, p, s0 + n1 + n2 + l1, l2);
    lemma_split_at(b, p, s0 + n1 + n2, l1);
    lemma_split_at(b, p, s0 + n1, n2);
    lemma_split_at(b, p, s0, n1);
    assert(b[p] == s0[0]);
    assert(b[p + 1] == s0[1]);
    let q1 = p + 2;
    lemma_parse_opt_numeric_of(r.max_value, b, q1);
    let q2 = q1 + n1.len();
    lemma_parse_opt_numeric_of(r.min_value, b, q2);
    let q3 = q2 + n2.len();
    lemma_parse_opt_length_of(r.max_length, b, q3);
    let q4 = q3 + l1.len();
    lemma_parse_opt_length_of(r.min_length, b, q4);
    let q5 = q4 + l2.len();
    lemma_parse_opt_length_of(r.length, b, q5);
    let q6 = q5 + l3.len();
    lemma_parse_opt_regex_of(r.regex, b, q6);
}

} // verus!
