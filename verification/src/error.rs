//! Errors raised while building, encoding, decoding and validating document buffers.
use vstd::prelude::*;

verus! {

/// Reasons a hex string fails to decode.
#[derive(Debug, Clone, PartialEq, Eq)]
pub enum HexError {
    /// A character outside `0-9`, `a-f` and `A-F` at the given position.
    InvalidHexCharacter { c: char, index: usize },
    /// The string has an odd number of digits.
    OddLength,
    /// The decoded length does not fit the destination.
    InvalidStringLength,
}

/// Errors of the vtable and of the field codecs.
#[derive(Debug, Clone)]
pub enum Error {
    FieldLengthMismatch,
    /// A length rule of a field was violated.
    FieldRulesLength(String),
    ItemNotFound,
    StructNotFound,
    FieldNotFound,
    /// Bytes that should hold a string are not valid UTF-8.
    FromUtf8,
    Utf8,
    /// A regex rule of a field was violated.
    FieldRulesRegex(String),
    /// A value rule of a field was violated.
    FieldRulesValue(String),
    InvalidValidationType(String),
    VTableBorrowMut,
    FailedToParseData,
    MapEntriesExceedsMax(usize),
    ArrayElementsExceedsMax(usize),
    DocBufMapInvalidFieldType(String),
    DocBufEncodeFieldType(String),
    DocBufDecodeFieldType(String),
    /// A field-type tag outside the known range.
    UnknownFieldType(u8),
    /// A numeric-value tag outside the known range.
    InvalidNumericValueType(u8),
    /// The offsets do not match the vtable: (expected, found).
    InvalidOffsets(u16, u16),
    InvalidVTableId(String),
    Hex(HexError),
}

} // verus!
