//! The traits through which fields are encoded into, decoded from and
//! validated for a document buffer, and through which single fields of an
//! encoded buffer are read and replaced.
use vstd::prelude::*;
use crate::error::Error;
use crate::offset::{VTableFieldOffset, VTableFieldOffsets};

verus! {

/// Reads a field from the document buffer, given the field offset, rather
/// than deserializing the whole document.
pub trait DocBufMap<T> {
    /// The buffers and offsets from which `docbuf_map` can read.
    spec fn mappable(&self, buffer: Seq<u8>, offset: VTableFieldOffset) -> bool;

    /// What reading the field at `offset` from `buffer` gives back.
    spec fn mapped(&self, buffer: Seq<u8>, offset: VTableFieldOffset, res: Result<T, Error>) -> bool;

    /// Reads the field at `offset` from `buffer`.
    fn docbuf_map(&self, buffer: &[u8], offset: &VTableFieldOffset) -> (res: Result<T, Error>)
        requires
            self.mappable(buffer@, *offset),
        ensures
            self.mapped(buffer@, *offset, res),
    ;
}

/// Replaces a field of the document buffer in place, for the field types of
/// variable length.
pub trait DocBufMapReplace<T> {
    /// The values, buffers and offsets for which `docbuf_map_replace` is defined.
    spec fn replaceable(
        &self,
        new_value: &T,
        buffer: Seq<u8>,
        offset: VTableFieldOffset,
        offsets: Seq<VTableFieldOffset>,
    ) -> bool;

    /// How replacing the field at `offset` with `new_value` turns the buffer
    /// and the offsets from their values before into those after, and what
    /// it returns.
    spec fn replaced(
        &self,
        new_value: &T,
        before: Seq<u8>,
        after: Seq<u8>,
        offset: VTableFieldOffset,
        offsets_before: Seq<VTableFieldOffset>,
        offsets_after: Seq<VTableFieldOffset>,
        res: Result<(), Error>,
    ) -> bool;

    /// Replaces the field at `offset` with `new_value`, shifting the rest of
    /// the buffer and the offsets behind it by the change in length.
    fn docbuf_map_replace(
        &self,
        new_value: &T,
        buffer: &mut Vec<u8>,
        offset: &VTableFieldOffset,
        offsets: &mut VTableFieldOffsets,
    ) -> (res: Result<(), Error>)
        requires
            self.replaceable(new_value, old(buffer)@, *offset, old(offsets)@),
        ensures
            self.replaced(
                new_value,
                old(buffer)@,
                final(buffer)@,
                *offset,
                old(offsets)@,
                final(offsets)@,
                res,
            ),
    ;
}

/// Serializes a field value to the document buffer.
pub trait DocBufEncodeField<T> {
    /// The values this encoder is defined for.
    spec fn encodable(&self, data: &T) -> bool;

    /// Appends the encoding of `data` and returns the offset of its bytes.
    fn encode(&self, data: &T, buffer: &mut Vec<u8>) -> Result<VTableFieldOffset, Error>
        requires
            self.encodable(data),
    ;
}

/// Deserializes a field value from the front of the document buffer.
pub trait DocBufDecodeField<T> {
    /// The buffers this decoder can read a value from.
    spec fn decodable(&self, buffer: Seq<u8>) -> bool;

    /// What decoding from the front of `before` returns, with `after` the
    /// buffer that is left.
    spec fn decoded(&self, before: Seq<u8>, after: Seq<u8>, res: Result<T, Error>) -> bool;

    /// Removes an encoded value from the front of `buffer` and returns it.
    fn decode(&self, buffer: &mut Vec<u8>) -> (res: Result<T, Error>)
        requires
            self.decodable(old(buffer)@),
        ensures
            self.decoded(old(buffer)@, final(buffer)@, res),
    ;
}

/// Validates a field value against the field rules.
pub trait DocBufValidateField<T> {
    /// The values this validator can check.
    spec fn checkable(&self, value: &T) -> bool;

    /// Checks `value` against the rules.
    fn validate(&self, value: &T) -> Result<(), Error>
        requires
            self.checkable(value),
    ;
}

} // verus!
