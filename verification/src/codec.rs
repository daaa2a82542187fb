//! Encoding, decoding and validation of single field values.
//!
//! Strings, maps and byte strings are written with a four-byte little-endian
//! length prefix; uuids are written raw; numbers in little-endian order; a
//! bool as one byte. Every value is checked against the field rules before it
//! is written.
use vstd::prelude::*;
use vstd::bytes::*;
use vstd::utf8::*;
use crate::bytes::{lemma_le_roundtrips, lemma_u16_roundtrip, extend_from_slice, push_u32_le, read_u128_le, read_u16_le, read_u32_le, read_u64_le, take_front, u16_from_le};
use crate::error::Error;
use crate::field::{VTableField, MAX_MAP_ENTRIES};
use crate::field_type::{type_text, FieldTypeModel, VTableFieldType};
use crate::numeric::{integer_value, lemma_compare_is_integer_order, NumericValue};
use crate::offset::VTableFieldOffset;
use crate::regex_match::{regex_compiles, regex_matches};
use crate::rules::{length_message, length_violation, rules_are_none, value_message, value_violation, RulesModel, VTableFieldRules, MAX_FIELD_SIZE};
use crate::traits::{DocBufDecodeField, DocBufEncodeField, DocBufValidateField};
use crate::utf8_text::{lemma_utf8_roundtrip, str_bytes, string_from_utf8};

verus! {

/// Data written behind a four-byte little-endian length prefix; the length
/// is cut to 32 bits.
pub open spec fn length_prefixed(data: Seq<u8>) -> Seq<u8> {
    spec_u32_to_le_bytes(data.len() as u32) + data
}

/// The length read from the four-byte prefix at the front of `b`.
pub open spec fn prefix_len(b: Seq<u8>) -> int {
    spec_u32_from_le_bytes(b.subrange(0, 4)) as int
}

/// `b` starts with a length prefix and the data it announces.
pub open spec fn holds_prefixed(b: Seq<u8>) -> bool {
    b.len() >= 4 && 4 + prefix_len(b) <= b.len()
}

/// The data behind the length prefix at the front of `b`.
pub open spec fn prefixed_data(b: Seq<u8>) -> Seq<u8> {
    b.subrange(4, 4 + prefix_len(b))
}

/// What is left of `b` after the length-prefixed data at its front.
pub open spec fn after_prefixed(b: Seq<u8>) -> Seq<u8> {
    b.subrange(4 + prefix_len(b), b.len() as int)
}

/// The text matches the regex rule, if there is one that compiles.
pub open spec fn regex_violation(r: RulesModel, s: Seq<char>) -> bool {
    r.regex matches Some(p) && regex_compiles(p) && !regex_matches(p, s)
}

/// Text passes the rules: no rule at all, or the length and the regex rules.
pub open spec fn text_passes(r: RulesModel, s: Seq<char>) -> bool {
    rules_are_none(r) || (!length_violation(r, encode_utf8(s).len() as usize) && !regex_violation(
        r,
        s,
    ))
}

/// The error raised for text that fails the rules: the length rules are
/// checked first, then the regex.
pub open spec fn text_error(r: RulesModel, s: Seq<char>, e: Error) -> bool {
    if length_violation(r, encode_utf8(s).len() as usize) {
        e matches Error::FieldRulesLength(m) && m@ == length_message(r, encode_utf8(s).len() as usize)
    } else {
        e matches Error::FieldRulesRegex(m) && m@ == "data does not match regex: "@ + r.regex.unwrap()
    }
}

/// The error raised for bytes that fail the length rules.
pub open spec fn bytes_error(r: RulesModel, b: Seq<u8>, e: Error) -> bool {
    e matches Error::FieldRulesLength(m) && m@ == length_message(r, b.len() as usize)
}

/// The error raised for a number that fails the value rules.
pub open spec fn value_error(r: RulesModel, v: NumericValue, e: Error) -> bool {
    e matches Error::FieldRulesValue(m) && m@ == value_message(r, v)
}

/// Bytes pass the rules: no rule at all, or the length rules.
pub open spec fn bytes_pass(r: RulesModel, b: Seq<u8>) -> bool {
    rules_are_none(r) || !length_violation(r, b.len() as usize)
}

/// A number passes the rules: no rule at all, or the value rules.
pub open spec fn numeric_passes(r: RulesModel, v: NumericValue) -> bool {
    rules_are_none(r) || !value_violation(r, v)
}

/// Types whose text data is written behind a length prefix.
pub open spec fn is_text_type(t: FieldTypeModel) -> bool {
    t is String || t is HashMap
}

/// The offset of data written for field `f` between `start` and `end`.
pub open spec fn field_offset_is(
    o: VTableFieldOffset,
    f: &VTableField,
    start: int,
    end: int,
) -> bool {
    &&& o.0 == (f.item_index, f.index)
    &&& o.1.start == start
    &&& o.1.end == end
}

/// The error of a value whose type does not fit the field type `t`.
pub open spec fn is_type_error(r: Error, t: FieldTypeModel, encoding: bool) -> bool {
    if encoding {
        r matches Error::DocBufEncodeFieldType(s) && s@ == type_text(t)
    } else {
        r matches Error::DocBufDecodeFieldType(s) && s@ == type_text(t)
    }
}

/// Appends `data` behind its length prefix; returns where `data` starts.
fn push_length_prefixed(buffer: &mut Vec<u8>, data: &[u8]) -> (start: usize)
    ensures
        final(buffer)@ == old(buffer)@ + length_prefixed(data@),
        start == old(buffer)@.len() + 4int,
{
    push_u32_le(buffer, data.len() as u32);
    proof {
        vstd::bytes::lemma_auto_spec_u32_to_from_le_bytes();
    }
    let start = buffer.len();
    extend_from_slice(buffer, data);
    assert(buffer@ =~= old(buffer)@ + length_prefixed(data@));
    start
}

/// Appends `data` as it is; returns where it starts.
fn push_raw(buffer: &mut Vec<u8>, data: &[u8]) -> (start: usize)
    ensures
        final(buffer)@ == old(buffer)@ + data@,
        start == old(buffer)@.len(),
{
    let start = buffer.len();
    extend_from_slice(buffer, data);
    start
}

impl VTableFieldRules {
    /// Checks text against the length rules, then the regex rule.
    pub fn validate_text(&self, data: &str) -> (res: Result<(), Error>)
        ensures
            res is Ok <==> text_passes(self@, data@),
            res matches Err(e) ==> text_error(self@, data@, e),
    {
        if self.is_none() {
            return Ok(());
        }
        self.check_length(data.len())?;
        self.check_regex(data)?;
        Ok(())
    }

    /// Checks bytes against the length rules.
    pub fn validate_bytes(&self, data: &[u8]) -> (res: Result<(), Error>)
        ensures
            res is Ok <==> bytes_pass(self@, data@),
            res matches Err(e) ==> bytes_error(self@, data@, e),
    {
        if self.is_none() {
            return Ok(());
        }
        self.check_length(data.len())?;
        Ok(())
    }

    /// Checks a number against the value rules.
    pub fn validate_numeric_value(&self, value: &NumericValue) -> (res: Result<(), Error>)
        ensures
            res is Ok <==> numeric_passes(self@, *value),
            res matches Err(e) ==> value_error(self@, *value, e),
    {
        if self.is_none() {
            return Ok(());
        }
        self.check_numeric(value)?;
        Ok(())
    }
}

impl DocBufValidateField<String> for VTableFieldRules {
    open spec fn checkable(&self, value: &String) -> bool {
        true
    }

    fn validate(&self, value: &String) -> (res: Result<(), Error>)
        ensures
            res is Ok <==> text_passes(self@, value@),
            res matches Err(e) ==> text_error(self@, value@, e),
    {
        self.validate_text(value.as_str())
    }
}

impl<'a> DocBufValidateField<&'a str> for VTableFieldRules {
    open spec fn checkable(&self, value: &&'a str) -> bool {
        true
    }

    fn validate(&self, value: &&'a str) -> (res: Result<(), Error>)
        ensures
            res is Ok <==> text_passes(self@, value@),
            res matches Err(e) ==> text_error(self@, value@, e),
    {
        self.validate_text(*value)
    }
}

impl DocBufValidateField<Vec<u8>> for VTableFieldRules {
    open spec fn checkable(&self, value: &Vec<u8>) -> bool {
        true
    }

    fn validate(&self, value: &Vec<u8>) -> (res: Result<(), Error>)
        ensures
            res is Ok <==> bytes_pass(self@, value@),
            res matches Err(e) ==> bytes_error(self@, value@, e),
    {
        self.validate_bytes(value.as_slice())
    }
}

impl<'a> DocBufValidateField<&'a [u8]> for VTableFieldRules {
    open spec fn checkable(&self, value: &&'a [u8]) -> bool {
        true
    }

    fn validate(&self, value: &&'a [u8]) -> (res: Result<(), Error>)
        ensures
            res is Ok <==> bytes_pass(self@, value@),
            res matches Err(e) ==> bytes_error(self@, value@, e),
    {
        self.validate_bytes(*value)
    }
}

impl DocBufValidateField<NumericValue> for VTableFieldRules {
    open spec fn checkable(&self, value: &NumericValue) -> bool {
        true
    }

    fn validate(&self, value: &NumericValue) -> (res: Result<(), Error>)
        ensures
            res is Ok <==> numeric_passes(self@, *value),
            res matches Err(e) ==> value_error(self@, *value, e),
    {
        self.validate_numeric_value(value)
    }
}

impl DocBufValidateField<bool> for VTableFieldRules {
    /// Rules on a bool cannot be checked yet: only rules without any
    /// constraint are accepted.
    open spec fn checkable(&self, value: &bool) -> bool {
        rules_are_none(self@)
    }

    fn validate(&self, value: &bool) -> (res: Result<(), Error>)
        ensures
            res is Ok,
    {
        Ok(())
    }
}

/// Reading length-prefixed data back: the prefix announces the data, which
/// is followed by whatever came after it.
pub proof fn lemma_prefixed_roundtrip(data: Seq<u8>, rest: Seq<u8>)
    requires
        data.len() <= u32::MAX,
    ensures
        holds_prefixed(length_prefixed(data) + rest),
        prefixed_data(length_prefixed(data) + rest) == data,
        after_prefixed(length_prefixed(data) + rest) == rest,
{
    vstd::bytes::lemma_auto_spec_u32_to_from_le_bytes();
    let b = length_prefixed(data) + rest;
    let h = spec_u32_to_le_bytes(data.len() as u32);
    assert(b.subrange(0, 4) =~= h);
    assert(prefix_len(b) == data.len());
    assert(prefixed_data(b) =~= data);
    assert(after_prefixed(b) =~= rest);
}

/// Text written by a string encoder is read back by the string decoder: the
/// same characters, and the buffer after them.
pub proof fn lemma_text_roundtrip(text: Seq<char>, rest: Seq<u8>)
    requires
        encode_utf8(text).len() <= u32::MAX,
    ensures
        holds_prefixed(length_prefixed(encode_utf8(text)) + rest),
        valid_utf8(prefixed_data(length_prefixed(encode_utf8(text)) + rest)),
        decode_utf8(prefixed_data(length_prefixed(encode_utf8(text)) + rest)) == text,
        after_prefixed(length_prefixed(encode_utf8(text)) + rest) == rest,
{
    lemma_prefixed_roundtrip(encode_utf8(text), rest);
    lemma_utf8_roundtrip(text);
}

/// A number written by the numeric encoder is read back by the decoder of its
/// own type, and the rest of the buffer follows it.
pub proof fn lemma_numeric_field_roundtrip(v: NumericValue, rest: Seq<u8>)
    ensures
        ({
            let b = v.spec_value_bytes() + rest;
            match v {
                NumericValue::U8(x) => u8_at_front(b) == x,
                NumericValue::U16(x) => u16_at_front(b) == x,
                NumericValue::U32(x) => u32_at_front(b) == x,
                NumericValue::U64(x) => u64_at_front(b) == x,
                NumericValue::U128(x) => u128_at_front(b) == x,
                NumericValue::USIZE(x) => usize_at_front(b) == x,
                NumericValue::F32(x) => spec_u32_from_le_bytes(b.subrange(0, 4)) == x,
                NumericValue::F64(x) => spec_u64_from_le_bytes(b.subrange(0, 8)) == x,
                NumericValue::I8(x) => i8_at_front(b) == x,
                NumericValue::I16(x) => i16_at_front(b) == x,
                NumericValue::I32(x) => i32_at_front(b) == x,
                NumericValue::I64(x) => i64_at_front(b) == x,
                NumericValue::I128(x) => i128_at_front(b) == x,
                NumericValue::ISIZE(x) => isize_at_front(b) == x,
            }
        }),
        (v.spec_value_bytes() + rest).subrange(
            v.spec_value_bytes().len() as int,
            (v.spec_value_bytes() + rest).len() as int,
        ) == rest,
{
    lemma_le_roundtrips();
    let w = v.spec_value_bytes();
    let b = w + rest;
    assert(b.subrange(0, w.len() as int) =~= w);
    assert(b.subrange(w.len() as int, b.len() as int) =~= rest);
    match v {
        NumericValue::U8(x) => {},
        NumericValue::U16(x) => {
            lemma_u16_roundtrip(x);
        },
        NumericValue::U32(x) => {},
        NumericValue::U64(x) => {},
        NumericValue::U128(x) => {},
        NumericValue::USIZE(x) => {
            assert((x as u64) as usize == x) by (bit_vector);
        },
        NumericValue::F32(x) => {},
        NumericValue::F64(x) => {},
        NumericValue::I8(x) => {
            assert((x as u8) as i8 == x) by (bit_vector);
        },
        NumericValue::I16(x) => {
            lemma_u16_roundtrip(x as u16);
            assert((x as u16) as i16 == x) by (bit_vector);
        },
        NumericValue::I32(x) => {
            assert((x as u32) as i32 == x) by (bit_vector);
        },
        NumericValue::I64(x) => {
            assert((x as u64) as i64 == x) by (bit_vector);
        },
        NumericValue::I128(x) => {
            assert((x as u128) as i128 == x) by (bit_vector);
        },
        NumericValue::ISIZE(x) => {
            assert(((x as i64) as u64) as i64 as isize == x) by (bit_vector);
        },
    }
}

impl VTableField {
    /// Writes the element count that starts an array: four little-endian
    /// bytes. A count of a gigabyte or more is refused.
    pub fn encode_array_start(&self, num_elements: usize, output: &mut Vec<u8>) -> (res: Result<
        (),
        Error,
    >)
        ensures
            num_elements >= MAX_FIELD_SIZE ==> res == Err::<(), Error>(
                Error::ArrayElementsExceedsMax(num_elements),
            ) && final(output)@ == old(output)@,
            num_elements < MAX_FIELD_SIZE ==> res is Ok && final(output)@ == old(output)@
                + spec_u32_to_le_bytes(num_elements as u32),
    {
        if num_elements >= MAX_FIELD_SIZE {
            return Err(Error::ArrayElementsExceedsMax(num_elements));
        }
        push_u32_le(output, num_elements as u32);
        Ok(())
    }

    /// Writes the entry count that starts a map: four little-endian bytes.
    /// A count of 2^24 or more is refused.
    pub fn encode_map_start(&self, num_entries: usize, output: &mut Vec<u8>) -> (res: Result<
        (),
        Error,
    >)
        ensures
            num_entries >= MAX_MAP_ENTRIES ==> res == Err::<(), Error>(
                Error::MapEntriesExceedsMax(num_entries),
            ) && final(output)@ == old(output)@,
            num_entries < MAX_MAP_ENTRIES ==> res is Ok && final(output)@ == old(output)@
                + spec_u32_to_le_bytes(num_entries as u32),
    {
        if num_entries >= MAX_MAP_ENTRIES {
            return Err(Error::MapEntriesExceedsMax(num_entries));
        }
        push_u32_le(output, num_entries as u32);
        Ok(())
    }

    /// Encodes text: raw for a uuid field when `raw_uuid`, behind a length
    /// prefix for a string or map field, else a type error.
    fn encode_text(&self, data: &str, raw_uuid: bool, buffer: &mut Vec<u8>) -> (res: Result<
        VTableFieldOffset,
        Error,
    >)
        ensures
            !text_passes(self.rules@, data@) ==> final(buffer)@ == old(buffer)@ && (
            res matches Err(e) && text_error(self.rules@, data@, e)),
            text_passes(self.rules@, data@) && raw_uuid && self.field_type@ is Uuid ==> final(buffer)@ == old(buffer)@ + encode_utf8(data@) && (res matches Ok(o) && field_offset_is(
                o,
                self,
                old(buffer)@.len() as int,
                final(buffer)@.len() as int,
            )),
            text_passes(self.rules@, data@) && is_text_type(self.field_type@) ==> final(buffer)@
                == old(buffer)@ + length_prefixed(encode_utf8(data@)) && (res matches Ok(o)
                && field_offset_is(
                o,
                self,
                old(buffer)@.len() + 4int,
                final(buffer)@.len() as int,
            )),
            text_passes(self.rules@, data@) && !(raw_uuid && self.field_type@ is Uuid)
                && !is_text_type(self.field_type@) ==> final(buffer)@ == old(buffer)@ && (
            res matches Err(e) && is_type_error(e, self.field_type@, true)),
    {
        self.rules.validate_text(data)?;
        match &self.field_type {
            VTableFieldType::Uuid if raw_uuid => {
                let bytes = str_bytes(data);
                let start = push_raw(buffer, bytes.as_slice());
                Ok(self.as_offset(start..buffer.len()))
            },
            VTableFieldType::String | VTableFieldType::HashMap { .. } => {
                let bytes = str_bytes(data);
                let start = push_length_prefixed(buffer, bytes.as_slice());
                Ok(self.as_offset(start..buffer.len()))
            },
            _ => Err(Error::DocBufEncodeFieldType(self.field_type.type_label())),
        }
    }

    /// Encodes bytes: raw for a uuid field, behind a length prefix for a
    /// bytes field, else a type error.
    fn encode_raw_bytes(&self, data: &[u8], buffer: &mut Vec<u8>) -> (res: Result<
        VTableFieldOffset,
        Error,
    >)
        ensures
            !bytes_pass(self.rules@, data@) ==> final(buffer)@ == old(buffer)@ && (
            res matches Err(e) && bytes_error(self.rules@, data@, e)),
            bytes_pass(self.rules@, data@) && self.field_type@ is Uuid ==> final(buffer)@ == old(buffer)@ + data@ && (res matches Ok(o) && field_offset_is(
                o,
                self,
                old(buffer)@.len() as int,
                final(buffer)@.len() as int,
            )),
            bytes_pass(self.rules@, data@) && self.field_type@ is Bytes ==> final(buffer)@ == old(buffer)@ + length_prefixed(data@) && (res matches Ok(o) && field_offset_is(
                o,
                self,
                old(buffer)@.len() + 4int,
                final(buffer)@.len() as int,
            )),
            bytes_pass(self.rules@, data@) && !(self.field_type@ is Uuid) && !(
            self.field_type@ is Bytes) ==> final(buffer)@ == old(buffer)@ && (res matches Err(e)
                && is_type_error(e, self.field_type@, true)),
    {
        self.rules.validate_bytes(data)?;
        match &self.field_type {
            VTableFieldType::Uuid => {
                let start = push_raw(buffer, data);
                Ok(self.as_offset(start..buffer.len()))
            },
            VTableFieldType::Bytes => {
                let start = push_length_prefixed(buffer, data);
                Ok(self.as_offset(start..buffer.len()))
            },
            _ => Err(Error::DocBufEncodeFieldType(self.field_type.type_label())),
        }
    }
}

impl DocBufEncodeField<String> for VTableField {
    open spec fn encodable(&self, data: &String) -> bool {
        true
    }

    /// A string goes behind a length prefix into a string or map field.
    fn encode(&self, data: &String, buffer: &mut Vec<u8>) -> (res: Result<VTableFieldOffset, Error>)
        ensures
            !text_passes(self.rules@, data@) ==> final(buffer)@ == old(buffer)@ && (
            res matches Err(e) && text_error(self.rules@, data@, e)),
            text_passes(self.rules@, data@) && is_text_type(self.field_type@) ==> final(buffer)@
                == old(buffer)@ + length_prefixed(encode_utf8(data@)) && (res matches Ok(o)
                && field_offset_is(
                o,
                self,
                old(buffer)@.len() + 4int,
                final(buffer)@.len() as int,
            )),
            text_passes(self.rules@, data@) && !is_text_type(self.field_type@) ==> final(buffer)@
                == old(buffer)@ && (res matches Err(e) && is_type_error(
                e,
                self.field_type@,
                true,
            )),
    {
        self.encode_text(data.as_str(), false, buffer)
    }
}

impl<'a> DocBufEncodeField<&'a str> for VTableField {
    open spec fn encodable(&self, data: &&'a str) -> bool {
        true
    }

    /// A string slice goes raw into a uuid field, behind a length prefix into
    /// a string or map field.
    fn encode(&self, data: &&'a str, buffer: &mut Vec<u8>) -> (res: Result<VTableFieldOffset, Error>)
        ensures
            !text_passes(self.rules@, data@) ==> final(buffer)@ == old(buffer)@ && (
            res matches Err(e) && text_error(self.rules@, data@, e)),
            text_passes(self.rules@, data@) && self.field_type@ is Uuid ==> final(buffer)@ == old(buffer)@ + encode_utf8(data@) && (res matches Ok(o) && field_offset_is(
                o,
                self,
                old(buffer)@.len() as int,
                final(buffer)@.len() as int,
            )),
            text_passes(self.rules@, data@) && is_text_type(self.field_type@) ==> final(buffer)@
                == old(buffer)@ + length_prefixed(encode_utf8(data@)) && (res matches Ok(o)
                && field_offset_is(
                o,
                self,
                old(buffer)@.len() + 4int,
                final(buffer)@.len() as int,
            )),
            text_passes(self.rules@, data@) && !(self.field_type@ is Uuid) && !is_text_type(
                self.field_type@,
            ) ==> final(buffer)@ == old(buffer)@ && (res matches Err(e) && is_type_error(
                e,
                self.field_type@,
                true,
            )),
    {
        self.encode_text(*data, true, buffer)
    }
}

impl<'a> DocBufEncodeField<&'a [u8]> for VTableField {
    open spec fn encodable(&self, data: &&'a [u8]) -> bool {
        true
    }

    /// Bytes go raw into a uuid field, behind a length prefix into a bytes field.
    fn encode(&self, data: &&'a [u8], buffer: &mut Vec<u8>) -> (res: Result<VTableFieldOffset, Error>)
        ensures
            !bytes_pass(self.rules@, data@) ==> final(buffer)@ == old(buffer)@ && (
            res matches Err(e) && bytes_error(self.rules@, data@, e)),
            bytes_pass(self.rules@, data@) && self.field_type@ is Uuid ==> final(buffer)@ == old(buffer)@ + data@ && (res matches Ok(o) && field_offset_is(
                o,
                self,
                old(buffer)@.len() as int,
                final(buffer)@.len() as int,
            )),
            bytes_pass(self.rules@, data@) && self.field_type@ is Bytes ==> final(buffer)@ == old(buffer)@ + length_prefixed(data@) && (res matches Ok(o) && field_offset_is(
                o,
                self,
                old(buffer)@.len() + 4int,
                final(buffer)@.len() as int,
            )),
            bytes_pass(self.rules@, data@) && !(self.field_type@ is Uuid) && !(
            self.field_type@ is Bytes) ==> final(buffer)@ == old(buffer)@ && (res matches Err(e)
                && is_type_error(e, self.field_type@, true)),
    {
        self.encode_raw_bytes(*data, buffer)
    }
}

impl DocBufEncodeField<bool> for VTableField {
    /// Rules on a bool cannot be checked yet: only a field without rules
    /// takes a bool.
    open spec fn encodable(&self, data: &bool) -> bool {
        rules_are_none(self.rules@)
    }

    /// A bool is one byte, 1 or 0, in a bool field.
    fn encode(&self, data: &bool, buffer: &mut Vec<u8>) -> (res: Result<VTableFieldOffset, Error>)
        ensures
            self.field_type@ is Bool ==> final(buffer)@ == old(buffer)@.push(
                if *data {
                    1u8
                } else {
                    0u8
                },
            ) && (res matches Ok(o) && field_offset_is(
                o,
                self,
                old(buffer)@.len() as int,
                final(buffer)@.len() as int,
            )),
            !(self.field_type@ is Bool) ==> final(buffer)@ == old(buffer)@ && (res matches Err(e)
                && is_type_error(e, self.field_type@, true)),
    {
        self.rules.validate(data)?;
        match &self.field_type {
            VTableFieldType::Bool => {
                let start = buffer.len();
                buffer.push(if *data { 1 } else { 0 });
                Ok(self.as_offset(start..buffer.len()))
            },
            _ => Err(Error::DocBufEncodeFieldType(self.field_type.type_label())),
        }
    }
}

impl DocBufEncodeField<NumericValue> for VTableField {
    open spec fn encodable(&self, data: &NumericValue) -> bool {
        true
    }

    /// A number is written as its little-endian bytes, whatever the field type.
    fn encode(&self, data: &NumericValue, buffer: &mut Vec<u8>) -> (res: Result<
        VTableFieldOffset,
        Error,
    >)
        ensures
            !numeric_passes(self.rules@, *data) ==> final(buffer)@ == old(buffer)@ && (
            res matches Err(e) && value_error(self.rules@, *data, e)),
            numeric_passes(self.rules@, *data) ==> final(buffer)@ == old(buffer)@
                + data.spec_value_bytes() && (res matches Ok(o) && field_offset_is(
                o,
                self,
                old(buffer)@.len() as int,
                final(buffer)@.len() as int,
            )),
    {
        self.rules.validate_numeric_value(data)?;
        let start = buffer.len();
        let _ = data.encode(buffer);
        Ok(self.as_offset(start..buffer.len()))
    }
}

/// Field types a `u8` is read from.
pub open spec fn reads_u8(t: FieldTypeModel) -> bool {
    t is U8 || t is Uuid || t is Bytes
}

/// The `u8` read from the front of `b`.
pub open spec fn u8_at_front(b: Seq<u8>) -> u8 {
    b[0]
}

/// Field types a `u16` is read from.
pub open spec fn reads_u16(t: FieldTypeModel) -> bool {
    t is U16
}

/// The `u16` read from the front of `b`.
pub open spec fn u16_at_front(b: Seq<u8>) -> u16 {
    u16_from_le(b.subrange(0, 2))
}

/// Field types a `u32` is read from.
pub open spec fn reads_u32(t: FieldTypeModel) -> bool {
    t is U32
}

/// The `u32` read from the front of `b`.
pub open spec fn u32_at_front(b: Seq<u8>) -> u32 {
    spec_u32_from_le_bytes(b.subrange(0, 4))
}

/// Field types a `u64` is read from.
pub open spec fn reads_u64(t: FieldTypeModel) -> bool {
    t is U64 || t is USIZE
}

/// The `u64` read from the front of `b`.
pub open spec fn u64_at_front(b: Seq<u8>) -> u64 {
    spec_u64_from_le_bytes(b.subrange(0, 8))
}

/// Field types a `u128` is read from.
pub open spec fn reads_u128(t: FieldTypeModel) -> bool {
    t is U128
}

/// The `u128` read from the front of `b`.
pub open spec fn u128_at_front(b: Seq<u8>) -> u128 {
    spec_u128_from_le_bytes(b.subrange(0, 16))
}

/// Field types a `usize` is read from.
pub open spec fn reads_usize(t: FieldTypeModel) -> bool {
    t is USIZE
}

/// The `usize` read from the front of `b`.
pub open spec fn usize_at_front(b: Seq<u8>) -> usize {
    spec_u64_from_le_bytes(b.subrange(0, 8)) as usize
}

/// Field types a `i8` is read from.
pub open spec fn reads_i8(t: FieldTypeModel) -> bool {
    t is I8
}

/// The `i8` read from the front of `b`.
pub open spec fn i8_at_front(b: Seq<u8>) -> i8 {
    b[0] as i8
}

/// Field types a `i16` is read from.
pub open spec fn reads_i16(t: FieldTypeModel) -> bool {
    t is I16
}

/// The `i16` read from the front of `b`.
pub open spec fn i16_at_front(b: Seq<u8>) -> i16 {
    u16_from_le(b.subrange(0, 2)) as i16
}

/// Field types a `i32` is read from.
pub open spec fn reads_i32(t: FieldTypeModel) -> bool {
    t is I32
}

/// The `i32` read from the front of `b`.
pub open spec fn i32_at_front(b: Seq<u8>) -> i32 {
    spec_u32_from_le_bytes(b.subrange(0, 4)) as i32
}

/// Field types a `i64` is read from.
pub open spec fn reads_i64(t: FieldTypeModel) -> bool {
    t is I64 || t is ISIZE
}

/// The `i64` read from the front of `b`.
pub open spec fn i64_at_front(b: Seq<u8>) -> i64 {
    spec_u64_from_le_bytes(b.subrange(0, 8)) as i64
}

/// Field types a `i128` is read from.
pub open spec fn reads_i128(t: FieldTypeModel) -> bool {
    t is I128
}

/// The `i128` read from the front of `b`.
pub open spec fn i128_at_front(b: Seq<u8>) -> i128 {
    spec_u128_from_le_bytes(b.subrange(0, 16)) as i128
}

/// Field types a `isize` is read from.
pub open spec fn reads_isize(t: FieldTypeModel) -> bool {
    t is ISIZE
}

/// The `isize` read from the front of `b`.
pub open spec fn isize_at_front(b: Seq<u8>) -> isize {
    spec_u64_from_le_bytes(b.subrange(0, 8)) as i64 as isize
}

impl DocBufDecodeField<u8> for VTableField {
    open spec fn decodable(&self, buffer: Seq<u8>) -> bool {
        reads_u8(self.field_type@) ==> buffer.len() >= 1
    }

    open spec fn decoded(&self, before: Seq<u8>, after: Seq<u8>, res: Result<u8, Error>) -> bool {
        &&& reads_u8(self.field_type@) ==> res == Ok::<u8, Error>(u8_at_front(before))
            && after == before.subrange(1, before.len() as int)
        &&& !reads_u8(self.field_type@) ==> after == before && (res matches Err(
            e,
        ) && is_type_error(e, self.field_type@, false))
    }

    fn decode(&self, buffer: &mut Vec<u8>) -> Result<u8, Error> {
        self.decode_u8(buffer)
    }
}

impl DocBufDecodeField<u16> for VTableField {
    open spec fn decodable(&self, buffer: Seq<u8>) -> bool {
        reads_u16(self.field_type@) ==> buffer.len() >= 2
    }

    open spec fn decoded(&self, before: Seq<u8>, after: Seq<u8>, res: Result<u16, Error>) -> bool {
        &&& reads_u16(self.field_type@) ==> res == Ok::<u16, Error>(u16_at_front(before))
            && after == before.subrange(2, before.len() as int)
        &&& !reads_u16(self.field_type@) ==> after == before && (res matches Err(
            e,
        ) && is_type_error(e, self.field_type@, false))
    }

    fn decode(&self, buffer: &mut Vec<u8>) -> Result<u16, Error> {
        self.decode_u16(buffer)
    }
}

impl DocBufDecodeField<u32> for VTableField {
    open spec fn decodable(&self, buffer: Seq<u8>) -> bool {
        reads_u32(self.field_type@) ==> buffer.len() >= 4
    }

    open spec fn decoded(&self, before: Seq<u8>, after: Seq<u8>, res: Result<u32, Error>) -> bool {
        &&& reads_u32(self.field_type@) ==> res == Ok::<u32, Error>(u32_at_front(before))
            && after == before.subrange(4, before.len() as int)
        &&& !reads_u32(self.field_type@) ==> after == before && (res matches Err(
            e,
        ) && is_type_error(e, self.field_type@, false))
    }

    fn decode(&self, buffer: &mut Vec<u8>) -> Result<u32, Error> {
        self.decode_u32(buffer)
    }
}

impl DocBufDecodeField<u64> for VTableField {
    open spec fn decodable(&self, buffer: Seq<u8>) -> bool {
        reads_u64(self.field_type@) ==> buffer.len() >= 8
    }

    open spec fn decoded(&self, before: Seq<u8>, after: Seq<u8>, res: Result<u64, Error>) -> bool {
        &&& reads_u64(self.field_type@) ==> res == Ok::<u64, Error>(u64_at_front(before))
            && after == before.subrange(8, before.len() as int)
        &&& !reads_u64(self.field_type@) ==> after == before && (res matches Err(
            e,
        ) && is_type_error(e, self.field_type@, false))
    }

    fn decode(&self, buffer: &mut Vec<u8>) -> Result<u64, Error> {
        self.decode_u64(buffer)
    }
}

impl DocBufDecodeField<u128> for VTableField {
    open spec fn decodable(&self, buffer: Seq<u8>) -> bool {
        &&& !(self.field_type@ is Uuid)
        &&& reads_u128(self.field_type@) ==> buffer.len() >= 16
    }

    open spec fn decoded(&self, before: Seq<u8>, after: Seq<u8>, res: Result<u128, Error>) -> bool {
        &&& reads_u128(self.field_type@) ==> res == Ok::<u128, Error>(u128_at_front(before))
            && after == before.subrange(16, before.len() as int)
        &&& !reads_u128(self.field_type@) ==> after == before && (res matches Err(
            e,
        ) && is_type_error(e, self.field_type@, false))
    }

    fn decode(&self, buffer: &mut Vec<u8>) -> Result<u128, Error> {
        self.decode_u128(buffer)
    }
}

impl DocBufDecodeField<usize> for VTableField {
    open spec fn decodable(&self, buffer: Seq<u8>) -> bool {
        reads_usize(self.field_type@) ==> buffer.len() >= 8
    }

    open spec fn decoded(&self, before: Seq<u8>, after: Seq<u8>, res: Result<usize, Error>) -> bool {
        &&& reads_usize(self.field_type@) ==> res == Ok::<usize, Error>(usize_at_front(before))
            && after == before.subrange(8, before.len() as int)
        &&& !reads_usize(self.field_type@) ==> after == before && (res matches Err(
            e,
        ) && is_type_error(e, self.field_type@, false))
    }

    fn decode(&self, buffer: &mut Vec<u8>) -> Result<usize, Error> {
        self.decode_usize(buffer)
    }
}

impl DocBufDecodeField<i8> for VTableField {
    open spec fn decodable(&self, buffer: Seq<u8>) -> bool {
        reads_i8(self.field_type@) ==> buffer.len() >= 1
    }

    open spec fn decoded(&self, before: Seq<u8>, after: Seq<u8>, res: Result<i8, Error>) -> bool {
        &&& reads_i8(self.field_type@) ==> res == Ok::<i8, Error>(i8_at_front(before))
            && after == before.subrange(1, before.len() as int)
        &&& !reads_i8(self.field_type@) ==> after == before && (res matches Err(
            e,
        ) && is_type_error(e, self.field_type@, false))
    }

    fn decode(&self, buffer: &mut Vec<u8>) -> Result<i8, Error> {
        self.decode_i8(buffer)
    }
}

impl DocBufDecodeField<i16> for VTableField {
    open spec fn decodable(&self, buffer: Seq<u8>) -> bool {
        reads_i16(self.field_type@) ==> buffer.len() >= 2
    }

    open spec fn decoded(&self, before: Seq<u8>, after: Seq<u8>, res: Result<i16, Error>) -> bool {
        &&& reads_i16(self.field_type@) ==> res == Ok::<i16, Error>(i16_at_front(before))
            && after == before.subrange(2, before.len() as int)
        &&& !reads_i16(self.field_type@) ==> after == before && (res matches Err(
            e,
        ) && is_type_error(e, self.field_type@, false))
    }

    fn decode(&self, buffer: &mut Vec<u8>) -> Result<i16, Error> {
        self.decode_i16(buffer)
    }
}

impl DocBufDecodeField<i32> for VTableField {
    open spec fn decodable(&self, buffer: Seq<u8>) -> bool {
        reads_i32(self.field_type@) ==> buffer.len() >= 4
    }

    open spec fn decoded(&self, before: Seq<u8>, after: Seq<u8>, res: Result<i32, Error>) -> bool {
        &&& reads_i32(self.field_type@) ==> res == Ok::<i32, Error>(i32_at_front(before))
            && after == before.subrange(4, before.len() as int)
        &&& !reads_i32(self.field_type@) ==> after == before && (res matches Err(
            e,
        ) && is_type_error(e, self.field_type@, false))
    }

    fn decode(&self, buffer: &mut Vec<u8>) -> Result<i32, Error> {
        self.decode_i32(buffer)
    }
}

impl DocBufDecodeField<i64> for VTableField {
    open spec fn decodable(&self, buffer: Seq<u8>) -> bool {
        reads_i64(self.field_type@) ==> buffer.len() >= 8
    }

    open spec fn decoded(&self, before: Seq<u8>, after: Seq<u8>, res: Result<i64, Error>) -> bool {
        &&& reads_i64(self.field_type@) ==> res == Ok::<i64, Error>(i64_at_front(before))
            && after == before.subrange(8, before.len() as int)
        &&& !reads_i64(self.field_type@) ==> after == before && (res matches Err(
            e,
        ) && is_type_error(e, self.field_type@, false))
    }

    fn decode(&self, buffer: &mut Vec<u8>) -> Result<i64, Error> {
        self.decode_i64(buffer)
    }
}

impl DocBufDecodeField<i128> for VTableField {
    open spec fn decodable(&self, buffer: Seq<u8>) -> bool {
        reads_i128(self.field_type@) ==> buffer.len() >= 16
    }

    open spec fn decoded(&self, before: Seq<u8>, after: Seq<u8>, res: Result<i128, Error>) -> bool {
        &&& reads_i128(self.field_type@) ==> res == Ok::<i128, Error>(i128_at_front(before))
            && after == before.subrange(16, before.len() as int)
        &&& !reads_i128(self.field_type@) ==> after == before && (res matches Err(
            e,
        ) && is_type_error(e, self.field_type@, false))
    }

    fn decode(&self, buffer: &mut Vec<u8>) -> Result<i128, Error> {
        self.decode_i128(buffer)
    }
}

impl DocBufDecodeField<isize> for VTableField {
    open spec fn decodable(&self, buffer: Seq<u8>) -> bool {
        reads_isize(self.field_type@) ==> buffer.len() >= 8
    }

    open spec fn decoded(&self, before: Seq<u8>, after: Seq<u8>, res: Result<isize, Error>) -> bool {
        &&& reads_isize(self.field_type@) ==> res == Ok::<isize, Error>(isize_at_front(before))
            && after == before.subrange(8, before.len() as int)
        &&& !reads_isize(self.field_type@) ==> after == before && (res matches Err(
            e,
        ) && is_type_error(e, self.field_type@, false))
    }

    fn decode(&self, buffer: &mut Vec<u8>) -> Result<isize, Error> {
        self.decode_isize(buffer)
    }
}

impl DocBufDecodeField<String> for VTableField {
    open spec fn decodable(&self, buffer: Seq<u8>) -> bool {
        is_text_type(self.field_type@) ==> holds_prefixed(buffer)
    }

    open spec fn decoded(&self, before: Seq<u8>, after: Seq<u8>, res: Result<String, Error>) -> bool {
        &&& is_text_type(self.field_type@) ==> after == after_prefixed(before)
            && (res is Ok <==> valid_utf8(prefixed_data(before))) && (res matches Ok(
            s,
        ) ==> s@ == decode_utf8(prefixed_data(before))) && (res matches Err(e)
            ==> e is FromUtf8)
        &&& !is_text_type(self.field_type@) ==> after == before && (
        res matches Err(e) && is_type_error(e, self.field_type@, false))
    }

    fn decode(&self, buffer: &mut Vec<u8>) -> Result<String, Error> {
        self.decode_string(buffer)
    }
}

impl DocBufDecodeField<bool> for VTableField {
    open spec fn decodable(&self, buffer: Seq<u8>) -> bool {
        self.field_type@ is Bool ==> buffer.len() >= 1
    }

    open spec fn decoded(&self, before: Seq<u8>, after: Seq<u8>, res: Result<bool, Error>) -> bool {
        &&& self.field_type@ is Bool ==> res == Ok::<bool, Error>(before[0] == 1)
            && after == before.subrange(1, before.len() as int)
        &&& !(self.field_type@ is Bool) ==> after == before && (res matches Err(e)
            && is_type_error(e, self.field_type@, false))
    }

    fn decode(&self, buffer: &mut Vec<u8>) -> Result<bool, Error> {
        self.decode_bool(buffer)
    }
}

impl DocBufDecodeField<Vec<u8>> for VTableField {
    open spec fn decodable(&self, buffer: Seq<u8>) -> bool {
        &&& self.field_type@ is Uuid ==> buffer.len() >= 16
        &&& self.field_type@ is Bytes ==> holds_prefixed(buffer)
    }

    open spec fn decoded(&self, before: Seq<u8>, after: Seq<u8>, res: Result<Vec<u8>, Error>) -> bool {
        &&& self.field_type@ is Uuid ==> (res matches Ok(v) && v@ == before.subrange(0, 16))
            && after == before.subrange(16, before.len() as int)
        &&& self.field_type@ is Bytes ==> (res matches Ok(v) && v@ == prefixed_data(before))
            && after == after_prefixed(before)
        &&& !(self.field_type@ is Uuid) && !(self.field_type@ is Bytes) ==> after == before
            && (res matches Err(e) && is_type_error(e, self.field_type@, false))
    }

    fn decode(&self, buffer: &mut Vec<u8>) -> Result<Vec<u8>, Error> {
        self.decode_bytes(buffer)
    }
}

impl VTableField {
    /// The bit pattern of an `f32` field: four little-endian bytes.
    pub fn decode_f32_bits(&self, buffer: &mut Vec<u8>) -> (res: Result<u32, Error>)
        requires
            old(buffer)@.len() >= 4,
        ensures
            self.field_type@ is F32 ==> res == Ok::<u32, Error>(
                spec_u32_from_le_bytes(old(buffer)@.subrange(0, 4)),
            ) && final(buffer)@ == old(buffer)@.subrange(4, old(buffer)@.len() as int),
            !(self.field_type@ is F32) ==> final(buffer)@ == old(buffer)@ && (res matches Err(e)
                && is_type_error(e, self.field_type@, false)),
    {
        match &self.field_type {
            VTableFieldType::F32 => {
                let v = read_u32_le(buffer.as_slice(), 0);
                let _ = take_front(buffer, 4);
                Ok(v)
            },
            _ => Err(Error::DocBufDecodeFieldType(self.field_type.type_label())),
        }
    }

    /// The bit pattern of an `f64` field: eight little-endian bytes.
    pub fn decode_f64_bits(&self, buffer: &mut Vec<u8>) -> (res: Result<u64, Error>)
        requires
            old(buffer)@.len() >= 8,
        ensures
            self.field_type@ is F64 ==> res == Ok::<u64, Error>(
                spec_u64_from_le_bytes(old(buffer)@.subrange(0, 8)),
            ) && final(buffer)@ == old(buffer)@.subrange(8, old(buffer)@.len() as int),
            !(self.field_type@ is F64) ==> final(buffer)@ == old(buffer)@ && (res matches Err(e)
                && is_type_error(e, self.field_type@, false)),
    {
        match &self.field_type {
            VTableFieldType::F64 => {
                let v = read_u64_le(buffer.as_slice(), 0);
                let _ = take_front(buffer, 8);
                Ok(v)
            },
            _ => Err(Error::DocBufDecodeFieldType(self.field_type.type_label())),
        }
    }
}

/// Removes length-prefixed data from the front of the buffer and returns the data.
fn take_prefixed(buffer: &mut Vec<u8>) -> (data: Vec<u8>)
    requires
        holds_prefixed(old(buffer)@),
    ensures
        data@ == prefixed_data(old(buffer)@),
        final(buffer)@ == after_prefixed(old(buffer)@),
{
    let length = read_u32_le(buffer.as_slice(), 0) as usize;
    let _ = take_front(buffer, 4);
    let data = take_front(buffer, length);
    assert(data@ =~= prefixed_data(old(buffer)@));
    assert(buffer@ =~= after_prefixed(old(buffer)@));
    data
}

impl VTableField {
    /// A `u8` is the byte at the front of the buffer, for a `u8` field and for
    /// the elements of uuid and bytes fields.
    pub fn decode_u8(&self, buffer: &mut Vec<u8>) -> (res: Result<u8, Error>)
        requires
            (reads_u8(self.field_type@) ==> old(buffer)@.len() >= 1),
        ensures
            reads_u8(self.field_type@) ==> res == Ok::<u8, Error>(u8_at_front(old(buffer)@))
                && final(buffer)@ == old(buffer)@.subrange(1, old(buffer)@.len() as int),
            !reads_u8(self.field_type@) ==> final(buffer)@ == old(buffer)@ && (res matches Err(
                e,
            ) && is_type_error(e, self.field_type@, false)),
    {
        match &self.field_type {
            VTableFieldType::U8 | VTableFieldType::Uuid | VTableFieldType::Bytes => {
                let v: u8 = buffer[0];
                let _ = take_front(buffer, 1);
                Ok(v)
            },
            _ => Err(Error::DocBufDecodeFieldType(self.field_type.type_label())),
        }
    }

    /// A `u16` is 2 little-endian bytes at the front of the buffer.
    pub fn decode_u16(&self, buffer: &mut Vec<u8>) -> (res: Result<u16, Error>)
        requires
            (reads_u16(self.field_type@) ==> old(buffer)@.len() >= 2),
        ensures
            reads_u16(self.field_type@) ==> res == Ok::<u16, Error>(u16_at_front(old(buffer)@))
                && final(buffer)@ == old(buffer)@.subrange(2, old(buffer)@.len() as int),
            !reads_u16(self.field_type@) ==> final(buffer)@ == old(buffer)@ && (res matches Err(
                e,
            ) && is_type_error(e, self.field_type@, false)),
    {
        match &self.field_type {
            VTableFieldType::U16 => {
                let v: u16 = read_u16_le(buffer.as_slice(), 0);
                let _ = take_front(buffer, 2);
                Ok(v)
            },
            _ => Err(Error::DocBufDecodeFieldType(self.field_type.type_label())),
        }
    }

    /// A `u32` is 4 little-endian bytes at the front of the buffer.
    pub fn decode_u32(&self, buffer: &mut Vec<u8>) -> (res: Result<u32, Error>)
        requires
            (reads_u32(self.field_type@) ==> old(buffer)@.len() >= 4),
        ensures
            reads_u32(self.field_type@) ==> res == Ok::<u32, Error>(u32_at_front(old(buffer)@))
                && final(buffer)@ == old(buffer)@.subrange(4, old(buffer)@.len() as int),
            !reads_u32(self.field_type@) ==> final(buffer)@ == old(buffer)@ && (res matches Err(
                e,
            ) && is_type_error(e, self.field_type@, false)),
    {
        match &self.field_type {
            VTableFieldType::U32 => {
                let v: u32 = read_u32_le(buffer.as_slice(), 0);
                let _ = take_front(buffer, 4);
                Ok(v)
            },
            _ => Err(Error::DocBufDecodeFieldType(self.field_type.type_label())),
        }
    }

    /// A `u64` is 8 little-endian bytes at the front of the buffer.
    pub fn decode_u64(&self, buffer: &mut Vec<u8>) -> (res: Result<u64, Error>)
        requires
            (reads_u64(self.field_type@) ==> old(buffer)@.len() >= 8),
        ensures
            reads_u64(self.field_type@) ==> res == Ok::<u64, Error>(u64_at_front(old(buffer)@))
                && final(buffer)@ == old(buffer)@.subrange(8, old(buffer)@.len() as int),
            !reads_u64(self.field_type@) ==> final(buffer)@ == old(buffer)@ && (res matches Err(
                e,
            ) && is_type_error(e, self.field_type@, false)),
    {
        match &self.field_type {
            VTableFieldType::U64 | VTableFieldType::USIZE => {
                let v: u64 = read_u64_le(buffer.as_slice(), 0);
                let _ = take_front(buffer, 8);
                Ok(v)
            },
            _ => Err(Error::DocBufDecodeFieldType(self.field_type.type_label())),
        }
    }

    /// A `u128` is 16 little-endian bytes at the front of the buffer.
    /// Reading a uuid as a `u128` is not supported.
    pub fn decode_u128(&self, buffer: &mut Vec<u8>) -> (res: Result<u128, Error>)
        requires
            !(self.field_type@ is Uuid),
            reads_u128(self.field_type@) ==> old(buffer)@.len() >= 16,
        ensures
            reads_u128(self.field_type@) ==> res == Ok::<u128, Error>(u128_at_front(old(buffer)@))
                && final(buffer)@ == old(buffer)@.subrange(16, old(buffer)@.len() as int),
            !reads_u128(self.field_type@) ==> final(buffer)@ == old(buffer)@ && (res matches Err(
                e,
            ) && is_type_error(e, self.field_type@, false)),
    {
        match &self.field_type {
            VTableFieldType::U128 => {
                let v: u128 = read_u128_le(buffer.as_slice(), 0);
                let _ = take_front(buffer, 16);
                Ok(v)
            },
            _ => Err(Error::DocBufDecodeFieldType(self.field_type.type_label())),
        }
    }

    /// A `usize` is 8 little-endian bytes at the front of the buffer.
    pub fn decode_usize(&self, buffer: &mut Vec<u8>) -> (res: Result<usize, Error>)
        requires
            (reads_usize(self.field_type@) ==> old(buffer)@.len() >= 8),
        ensures
            reads_usize(self.field_type@) ==> res == Ok::<usize, Error>(usize_at_front(old(buffer)@))
                && final(buffer)@ == old(buffer)@.subrange(8, old(buffer)@.len() as int),
            !reads_usize(self.field_type@) ==> final(buffer)@ == old(buffer)@ && (res matches Err(
                e,
            ) && is_type_error(e, self.field_type@, false)),
    {
        match &self.field_type {
            VTableFieldType::USIZE => {
                let v: usize = read_u64_le(buffer.as_slice(), 0) as usize;
                let _ = take_front(buffer, 8);
                Ok(v)
            },
            _ => Err(Error::DocBufDecodeFieldType(self.field_type.type_label())),
        }
    }

    /// A `i8` is 1 little-endian byte at the front of the buffer.
    pub fn decode_i8(&self, buffer: &mut Vec<u8>) -> (res: Result<i8, Error>)
        requires
            (reads_i8(self.field_type@) ==> old(buffer)@.len() >= 1),
        ensures
            reads_i8(self.field_type@) ==> res == Ok::<i8, Error>(i8_at_front(old(buffer)@))
                && final(buffer)@ == old(buffer)@.subrange(1, old(buffer)@.len() as int),
            !reads_i8(self.field_type@) ==> final(buffer)@ == old(buffer)@ && (res matches Err(
                e,
            ) && is_type_error(e, self.field_type@, false)),
    {
        match &self.field_type {
            VTableFieldType::I8 => {
                let v: i8 = buffer[0] as i8;
                let _ = take_front(buffer, 1);
                Ok(v)
            },
            _ => Err(Error::DocBufDecodeFieldType(self.field_type.type_label())),
        }
    }

    /// A `i16` is 2 little-endian bytes at the front of the buffer.
    pub fn decode_i16(&self, buffer: &mut Vec<u8>) -> (res: Result<i16, Error>)
        requires
            (reads_i16(self.field_type@) ==> old(buffer)@.len() >= 2),
        ensures
            reads_i16(self.field_type@) ==> res == Ok::<i16, Error>(i16_at_front(old(buffer)@))
                && final(buffer)@ == old(buffer)@.subrange(2, old(buffer)@.len() as int),
            !reads_i16(self.field_type@) ==> final(buffer)@ == old(buffer)@ && (res matches Err(
                e,
            ) && is_type_error(e, self.field_type@, false)),
    {
        match &self.field_type {
            VTableFieldType::I16 => {
                let v: i16 = read_u16_le(buffer.as_slice(), 0) as i16;
                let _ = take_front(buffer, 2);
                Ok(v)
            },
            _ => Err(Error::DocBufDecodeFieldType(self.field_type.type_label())),
        }
    }

    /// A `i32` is 4 little-endian bytes at the front of the buffer.
    pub fn decode_i32(&self, buffer: &mut Vec<u8>) -> (res: Result<i32, Error>)
        requires
            (reads_i32(self.field_type@) ==> old(buffer)@.len() >= 4),
        ensures
            reads_i32(self.field_type@) ==> res == Ok::<i32, Error>(i32_at_front(old(buffer)@))
                && final(buffer)@ == old(buffer)@.subrange(4, old(buffer)@.len() as int),
            !reads_i32(self.field_type@) ==> final(buffer)@ == old(buffer)@ && (res matches Err(
                e,
            ) && is_type_error(e, self.field_type@, false)),
    {
        match &self.field_type {
            VTableFieldType::I32 => {
                let v: i32 = read_u32_le(buffer.as_slice(), 0) as i32;
                let _ = take_front(buffer, 4);
                Ok(v)
            },
            _ => Err(Error::DocBufDecodeFieldType(self.field_type.type_label())),
        }
    }

    /// A `i64` is 8 little-endian bytes at the front of the buffer.
    pub fn decode_i64(&self, buffer: &mut Vec<u8>) -> (res: Result<i64, Error>)
        requires
            (reads_i64(self.field_type@) ==> old(buffer)@.len() >= 8),
        ensures
            reads_i64(self.field_type@) ==> res == Ok::<i64, Error>(i64_at_front(old(buffer)@))
                && final(buffer)@ == old(buffer)@.subrange(8, old(buffer)@.len() as int),
            !reads_i64(self.field_type@) ==> final(buffer)@ == old(buffer)@ && (res matches Err(
                e,
            ) && is_type_error(e, self.field_type@, false)),
    {
        match &self.field_type {
            VTableFieldType::I64 | VTableFieldType::ISIZE => {
                let v: i64 = read_u64_le(buffer.as_slice(), 0) as i64;
                let _ = take_front(buffer, 8);
                Ok(v)
            },
            _ => Err(Error::DocBufDecodeFieldType(self.field_type.type_label())),
        }
    }

    /// A `i128` is 16 little-endian bytes at the front of the buffer.
    pub fn decode_i128(&self, buffer: &mut Vec<u8>) -> (res: Result<i128, Error>)
        requires
            (reads_i128(self.field_type@) ==> old(buffer)@.len() >= 16),
        ensures
            reads_i128(self.field_type@) ==> res == Ok::<i128, Error>(i128_at_front(old(buffer)@))
                && final(buffer)@ == old(buffer)@.subrange(16, old(buffer)@.len() as int),
            !reads_i128(self.field_type@) ==> final(buffer)@ == old(buffer)@ && (res matches Err(
                e,
            ) && is_type_error(e, self.field_type@, false)),
    {
        match &self.field_type {
            VTableFieldType::I128 => {
                let v: i128 = read_u128_le(buffer.as_slice(), 0) as i128;
                let _ = take_front(buffer, 16);
                Ok(v)
            },
            _ => Err(Error::DocBufDecodeFieldType(self.field_type.type_label())),
        }
    }

    /// A `isize` is 8 little-endian bytes at the front of the buffer.
    pub fn decode_isize(&self, buffer: &mut Vec<u8>) -> (res: Result<isize, Error>)
        requires
            (reads_isize(self.field_type@) ==> old(buffer)@.len() >= 8),
        ensures
            reads_isize(self.field_type@) ==> res == Ok::<isize, Error>(isize_at_front(old(buffer)@))
                && final(buffer)@ == old(buffer)@.subrange(8, old(buffer)@.len() as int),
            !reads_isize(self.field_type@) ==> final(buffer)@ == old(buffer)@ && (res matches Err(
                e,
            ) && is_type_error(e, self.field_type@, false)),
    {
        match &self.field_type {
            VTableFieldType::ISIZE => {
                let v: isize = read_u64_le(buffer.as_slice(), 0) as i64 as isize;
                let _ = take_front(buffer, 8);
                Ok(v)
            },
            _ => Err(Error::DocBufDecodeFieldType(self.field_type.type_label())),
        }
    }

    /// A string or map field holds length-prefixed UTF-8 text; bytes that are
    /// not UTF-8 are an error (and are consumed).
    pub fn decode_string(&self, buffer: &mut Vec<u8>) -> (res: Result<String, Error>)
        requires
            (is_text_type(self.field_type@) ==> holds_prefixed(old(buffer)@)),
        ensures
            is_text_type(self.field_type@) ==> final(buffer)@ == after_prefixed(old(buffer)@)
                && (res is Ok <==> valid_utf8(prefixed_data(old(buffer)@))) && (res matches Ok(
                s,
            ) ==> s@ == decode_utf8(prefixed_data(old(buffer)@))) && (res matches Err(e)
                ==> e is FromUtf8),
            !is_text_type(self.field_type@) ==> final(buffer)@ == old(buffer)@ && (
            res matches Err(e) && is_type_error(e, self.field_type@, false)),
    {
        match &self.field_type {
            VTableFieldType::String | VTableFieldType::HashMap { .. } => {
                let data = take_prefixed(buffer);
                match string_from_utf8(data) {
                    Some(text) => Ok(text),
                    None => Err(Error::FromUtf8),
                }
            },
            _ => Err(Error::DocBufDecodeFieldType(self.field_type.type_label())),
        }
    }

    /// A bool field holds one byte; 1 is `true`, anything else `false`.
    pub fn decode_bool(&self, buffer: &mut Vec<u8>) -> (res: Result<bool, Error>)
        requires
            (self.field_type@ is Bool ==> old(buffer)@.len() >= 1),
        ensures
            self.field_type@ is Bool ==> res == Ok::<bool, Error>(old(buffer)@[0] == 1)
                && final(buffer)@ == old(buffer)@.subrange(1, old(buffer)@.len() as int),
            !(self.field_type@ is Bool) ==> final(buffer)@ == old(buffer)@ && (res matches Err(e)
                && is_type_error(e, self.field_type@, false)),
    {
        match &self.field_type {
            VTableFieldType::Bool => {
                let v = buffer[0] == 1;
                let _ = take_front(buffer, 1);
                Ok(v)
            },
            _ => Err(Error::DocBufDecodeFieldType(self.field_type.type_label())),
        }
    }

    /// A uuid field holds sixteen raw bytes; a bytes field length-prefixed bytes.
    pub fn decode_bytes(&self, buffer: &mut Vec<u8>) -> (res: Result<Vec<u8>, Error>)
        requires
            self.field_type@ is Uuid ==> old(buffer)@.len() >= 16,
            self.field_type@ is Bytes ==> holds_prefixed(old(buffer)@),
        ensures
            self.field_type@ is Uuid ==> (res matches Ok(v) && v@ == old(buffer)@.subrange(0, 16))
                && final(buffer)@ == old(buffer)@.subrange(16, old(buffer)@.len() as int),
            self.field_type@ is Bytes ==> (res matches Ok(v) && v@ == prefixed_data(old(buffer)@))
                && final(buffer)@ == after_prefixed(old(buffer)@),
            !(self.field_type@ is Uuid) && !(self.field_type@ is Bytes) ==> final(buffer)@ == old(
            buffer)@ && (res matches Err(e) && is_type_error(e, self.field_type@, false)),
    {
        match &self.field_type {
            VTableFieldType::Uuid => Ok(take_front(buffer, 16)),
            VTableFieldType::Bytes => Ok(take_prefixed(buffer)),
            _ => Err(Error::DocBufDecodeFieldType(self.field_type.type_label())),
        }
    }
}

/// A value of an integer type passes the value rules exactly when it lies
/// between the minimum and the maximum (each where it is set, both ends
/// included), the values compared as the integers they stand for.
pub proof fn lemma_numeric_rules_are_integer_bounds(r: RulesModel, v: NumericValue)
    requires
        integer_value(v) is Some,
        r.max_value matches Some(m) ==> m.spec_tag() == v.spec_tag(),
        r.min_value matches Some(m) ==> m.spec_tag() == v.spec_tag(),
    ensures
        numeric_passes(r, v) <==> (
            (r.max_value matches Some(m) ==> integer_value(v).unwrap() <= integer_value(m).unwrap())
            && (r.min_value matches Some(m) ==> integer_value(v).unwrap() >= integer_value(m).unwrap())
        ),
{
    if let Some(m) = r.max_value {
        lemma_compare_is_integer_order(v, m);
    }
    if let Some(m) = r.min_value {
        lemma_compare_is_integer_order(v, m);
    }
}

} // verus!
