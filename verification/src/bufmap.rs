//! Reading and replacing single fields of an encoded document in place,
//! through the vtable and the field offsets, without decoding the document.
use vstd::prelude::*;
use vstd::utf8::*;
use vstd::slice::slice_subrange;
use crate::bytes::{extend_from_slice, read_u16_le, read_u32_le, read_u64_le};
use crate::codec::{
    bytes_pass, i16_at_front, i32_at_front, i64_at_front, i8_at_front, isize_at_front,
    u16_at_front, u32_at_front, u64_at_front, usize_at_front,
};
use crate::error::Error;
use crate::field::FieldModel;
use crate::field_type::{type_text, FieldTypeModel, VTableFieldType};
use crate::offset::{range_len, resize_fits, resized, VTableFieldOffset, VTableFieldOffsetDiff, VTableFieldOffsets};
use crate::table::{field_found, lemma_field_found_unique, no_field_found, VTable};
use crate::traits::{DocBufMap, DocBufMapReplace, DocBufValidateField};
use crate::utf8_text::{str_bytes, string_from_utf8};

verus! {

/// The range of `o` lies within `b` and holds at least `n` bytes.
pub open spec fn range_holds(b: Seq<u8>, o: VTableFieldOffset, n: int) -> bool {
    o.1.start <= o.1.end <= b.len() && o.1.end - o.1.start >= n
}

/// The bytes of `b` in the range of `o`.
pub open spec fn range_bytes(b: Seq<u8>, o: VTableFieldOffset) -> Seq<u8> {
    b.subrange(o.1.start as int, o.1.end as int)
}

/// The difference between an old and a new field length.
pub open spec fn length_diff(old_len: int, new_len: int) -> VTableFieldOffsetDiff {
    if new_len == old_len {
        VTableFieldOffsetDiff::NoChange
    } else if new_len > old_len {
        VTableFieldOffsetDiff::Increase((new_len - old_len) as usize)
    } else {
        VTableFieldOffsetDiff::Decrease((old_len - new_len) as usize)
    }
}

/// The buffer with the bytes in the range of `o` replaced by `data`.
pub open spec fn spliced(b: Seq<u8>, o: VTableFieldOffset, data: Seq<u8>) -> Seq<u8> {
    b.subrange(0, o.1.start as int) + data + b.subrange(o.1.end as int, b.len() as int)
}

/// The offsets moved by replacing the field at `o` with `n` bytes.
pub open spec fn shifted(offsets: Seq<VTableFieldOffset>, o: VTableFieldOffset, n: int) -> Seq<
    VTableFieldOffset,
> {
    offsets.map_values(
        |x: VTableFieldOffset| resized(x, o.1.start, length_diff(range_len(o.1) as int, n)),
    )
}

/// Replacing the field at `o` with `n` bytes is defined: the range lies in
/// the buffer and every offset can be moved without overflow.
pub open spec fn replace_fits(
    b: Seq<u8>,
    o: VTableFieldOffset,
    offsets: Seq<VTableFieldOffset>,
    n: int,
) -> bool {
    &&& range_holds(b, o, 0)
    &&& forall|i: int|
        0 <= i < offsets.len() ==> resize_fits(
            #[trigger] offsets[i],
            o.1.start,
            length_diff(range_len(o.1) as int, n),
        )
}

/// Replaces the bytes of `buffer` in the range of `offset` with `data`.
fn splice_range(buffer: &mut Vec<u8>, offset: &VTableFieldOffset, data: &[u8])
    requires
        range_holds(old(buffer)@, *offset, 0),
    ensures
        final(buffer)@ == spliced(old(buffer)@, *offset, data@),
{
    let mut tail = buffer.split_off(offset.1.end);
    buffer.truncate(offset.1.start);
    extend_from_slice(buffer, data);
    buffer.append(&mut tail);
    assert(buffer@ =~= spliced(old(buffer)@, *offset, data@));
}

/// Moves the offsets after the field at `offset` was replaced by `n` bytes.
fn shift_offsets(offsets: &mut VTableFieldOffsets, offset: &VTableFieldOffset, n: usize)
    requires
        forall|i: int|
            0 <= i < old(offsets)@.len() ==> resize_fits(
                #[trigger] old(offsets)@[i],
                offset.1.start,
                length_diff(range_len(offset.1) as int, n as int),
            ),
    ensures
        final(offsets)@ == shifted(old(offsets)@, *offset, n as int),
{
    let diff = VTableFieldOffsetDiff::new(offset.len(), n);
    assert(diff == length_diff(range_len(offset.1) as int, n as int));
    offsets.resize(offset.1.start, diff);
    assert(offsets@ =~= shifted(old(offsets)@, *offset, n as int));
}


/// Replacing a field in place and reading it back at its moved offset gives
/// the new bytes.
pub proof fn lemma_replace_then_map(b: Seq<u8>, o: VTableFieldOffset, data: Seq<u8>)
    requires
        range_holds(b, o, 0),
        data.len() <= usize::MAX,
        resize_fits(o, o.1.start, length_diff(range_len(o.1) as int, data.len() as int)),
    ensures
        range_bytes(
            spliced(b, o, data),
            resized(o, o.1.start, length_diff(range_len(o.1) as int, data.len() as int)),
        ) == data,
{
    let d = length_diff(range_len(o.1) as int, data.len() as int);
    let r = resized(o, o.1.start, d);
    match d {
        VTableFieldOffsetDiff::Increase(n) => {
            assert(n == data.len() - (o.1.end - o.1.start));
        },
        VTableFieldOffsetDiff::Decrease(n) => {
            assert(n == (o.1.end - o.1.start) - data.len());
        },
        VTableFieldOffsetDiff::NoChange => {},
    }
    assert(r.1.start == o.1.start);
    assert(r.1.end == o.1.start + data.len());
    assert(range_bytes(spliced(b, o, data), r) =~= data);
}

/// Replacing a field in place leaves the bytes of a field in front of it
/// where they were, and moves the bytes of a field behind it along with
/// its offset.
pub proof fn lemma_replace_keeps_others(
    b: Seq<u8>,
    o: VTableFieldOffset,
    data: Seq<u8>,
    x: VTableFieldOffset,
)
    requires
        range_holds(b, o, 0),
        range_holds(b, x, 0),
        data.len() <= usize::MAX,
        resize_fits(x, o.1.start, length_diff(range_len(o.1) as int, data.len() as int)),
        x.1.end <= o.1.start && x.1.start < o.1.start || x.1.start >= o.1.end && x.1.start
            > o.1.start,
    ensures
        range_bytes(
            spliced(b, o, data),
            resized(x, o.1.start, length_diff(range_len(o.1) as int, data.len() as int)),
        ) == range_bytes(b, x),
{
    let d = length_diff(range_len(o.1) as int, data.len() as int);
    let r = resized(x, o.1.start, d);
    let sp = spliced(b, o, data);
    if x.1.start < o.1.start {
        assert(r == x);
        assert(range_bytes(sp, r) =~= range_bytes(b, x));
    } else {
        let shift = data.len() - (o.1.end - o.1.start);
        match d {
            VTableFieldOffsetDiff::Increase(n) => {
                assert(n == shift);
            },
            VTableFieldOffsetDiff::Decrease(n) => {
                assert(n == -shift);
            },
            VTableFieldOffsetDiff::NoChange => {},
        }
        assert(r.1.start == x.1.start + shift);
        assert(r.1.end == x.1.end + shift);
        assert forall|k: int| 0 <= k < x.1.end - x.1.start implies range_bytes(sp, r)[k]
            == range_bytes(b, x)[k] by {
            assert(sp[r.1.start + k] == b[x.1.start + k]);
        }
        assert(range_bytes(sp, r) =~= range_bytes(b, x));
    }
}

impl VTable {
    /// Reads a string field in place: the UTF-8 text in the range of `offset`.
    pub fn map_string(&self, buffer: &[u8], offset: &VTableFieldOffset) -> (res: Result<String, Error>)
        requires
            forall|f: FieldModel|
                #[trigger] field_found(self@.items, offset.0, f) && f.field_type is String
                    ==> range_holds(buffer@, *offset, 0),
        ensures
            no_field_found(self@.items, offset.0) ==> res is Err,
            forall|f: FieldModel|
                #[trigger] field_found(self@.items, offset.0, f) ==> if f.field_type is String {
                    if valid_utf8(range_bytes(buffer@, *offset)) {
                        res matches Ok(s) && s@ == decode_utf8(range_bytes(buffer@, *offset))
                    } else {
                        res matches Err(e) && e is FromUtf8
                    }
                } else {
                    res matches Err(Error::DocBufMapInvalidFieldType(t)) && t@ == type_text(
                        f.field_type,
                    )
                },
    {
        let field = self.get_field_by_offset_index(offset.0)?;
        proof {
            assert forall|f: FieldModel| field_found(self@.items, offset.0, f) implies f == field@ by {
                lemma_field_found_unique(self@.items, offset.0, field@, f);
            }
        }
        match &field.field_type {
            VTableFieldType::String => {
                let bytes = slice_subrange(buffer, offset.1.start, offset.1.end);
                let mut data: Vec<u8> = Vec::new();
                extend_from_slice(&mut data, bytes);
                match string_from_utf8(data) {
                    Some(s) => Ok(s),
                    None => Err(Error::FromUtf8),
                }
            },
            _ => Err(Error::DocBufMapInvalidFieldType(field.field_type.type_label())),
        }
    }

    /// Reads a bytes field in place: the bytes in the range of `offset`.
    pub fn map_bytes(&self, buffer: &[u8], offset: &VTableFieldOffset) -> (res: Result<Vec<u8>, Error>)
        requires
            forall|f: FieldModel|
                #[trigger] field_found(self@.items, offset.0, f) && f.field_type is Bytes
                    ==> range_holds(buffer@, *offset, 0),
        ensures
            no_field_found(self@.items, offset.0) ==> res is Err,
            forall|f: FieldModel|
                #[trigger] field_found(self@.items, offset.0, f) ==> if f.field_type is Bytes {
                    res matches Ok(v) && v@ == range_bytes(buffer@, *offset)
                } else {
                    res matches Err(Error::DocBufMapInvalidFieldType(t)) && t@ == type_text(
                        f.field_type,
                    )
                },
    {
        let field = self.get_field_by_offset_index(offset.0)?;
        proof {
            assert forall|f: FieldModel| field_found(self@.items, offset.0, f) implies f == field@ by {
                lemma_field_found_unique(self@.items, offset.0, field@, f);
            }
        }
        match &field.field_type {
            VTableFieldType::Bytes => {
                let bytes = slice_subrange(buffer, offset.1.start, offset.1.end);
                let mut data: Vec<u8> = Vec::new();
                extend_from_slice(&mut data, bytes);
                Ok(data)
            },
            _ => Err(Error::DocBufMapInvalidFieldType(field.field_type.type_label())),
        }
    }

    /// Replaces a string field in place: the text goes where the field's
    /// bytes were, and the offsets behind it move by the change in length.
    pub fn replace_string(
        &self,
        new_value: &String,
        buffer: &mut Vec<u8>,
        offset: &VTableFieldOffset,
        offsets: &mut VTableFieldOffsets,
    ) -> (res: Result<(), Error>)
        requires
            forall|f: FieldModel|
                #[trigger] field_found(self@.items, offset.0, f) && f.field_type is String
                    ==> replace_fits(
                    old(buffer)@,
                    *offset,
                    old(offsets)@,
                    encode_utf8(new_value@).len() as int,
                ),
        ensures
            no_field_found(self@.items, offset.0) ==> res is Err && final(buffer)@ == old(buffer)@
                && final(offsets)@ == old(offsets)@,
            forall|f: FieldModel|
                #[trigger] field_found(self@.items, offset.0, f) ==> if f.field_type is String {
                    &&& res is Ok
                    &&& final(buffer)@ == spliced(old(buffer)@, *offset, encode_utf8(new_value@))
                    &&& final(offsets)@ == shifted(
                        old(offsets)@,
                        *offset,
                        encode_utf8(new_value@).len() as int,
                    )
                } else {
                    &&& res matches Err(Error::DocBufMapInvalidFieldType(t)) && t@ == type_text(
                        f.field_type,
                    )
                    &&& final(buffer)@ == old(buffer)@
                    &&& final(offsets)@ == old(offsets)@
                },
    {
        let field = self.get_field_by_offset_index(offset.0)?;
        proof {
            assert forall|f: FieldModel| field_found(self@.items, offset.0, f) implies f == field@ by {
                lemma_field_found_unique(self@.items, offset.0, field@, f);
            }
        }
        match &field.field_type {
            VTableFieldType::String => {
                let data = str_bytes(new_value.as_str());
                splice_range(buffer, offset, data.as_slice());
                shift_offsets(offsets, offset, data.len());
                Ok(())
            },
            _ => Err(Error::DocBufMapInvalidFieldType(field.field_type.type_label())),
        }
    }

    /// Replaces a bytes field in place, after checking the new bytes against
    /// the field's length rules.
    pub fn replace_bytes(
        &self,
        new_value: &Vec<u8>,
        buffer: &mut Vec<u8>,
        offset: &VTableFieldOffset,
        offsets: &mut VTableFieldOffsets,
    ) -> (res: Result<(), Error>)
        requires
            forall|f: FieldModel|
                #[trigger] field_found(self@.items, offset.0, f) && f.field_type is Bytes
                    && bytes_pass(f.rules, new_value@) ==> replace_fits(
                    old(buffer)@,
                    *offset,
                    old(offsets)@,
                    new_value@.len() as int,
                ),
        ensures
            no_field_found(self@.items, offset.0) ==> res is Err && final(buffer)@ == old(buffer)@
                && final(offsets)@ == old(offsets)@,
            forall|f: FieldModel|
                #[trigger] field_found(self@.items, offset.0, f) ==> if !bytes_pass(
                    f.rules,
                    new_value@,
                ) {
                    &&& res matches Err(e) && crate::codec::bytes_error(f.rules, new_value@, e)
                    &&& final(buffer)@ == old(buffer)@
                    &&& final(offsets)@ == old(offsets)@
                } else if f.field_type is Bytes {
                    &&& res is Ok
                    &&& final(buffer)@ == spliced(old(buffer)@, *offset, new_value@)
                    &&& final(offsets)@ == shifted(old(offsets)@, *offset, new_value@.len() as int)
                } else {
                    &&& res matches Err(Error::DocBufMapInvalidFieldType(t)) && t@ == type_text(
                        f.field_type,
                    )
                    &&& final(buffer)@ == old(buffer)@
                    &&& final(offsets)@ == old(offsets)@
                },
    {
        let field = self.get_field_by_offset_index(offset.0)?;
        proof {
            assert forall|f: FieldModel| field_found(self@.items, offset.0, f) implies f == field@ by {
                lemma_field_found_unique(self@.items, offset.0, field@, f);
            }
        }
        field.rules.validate(new_value)?;
        match &field.field_type {
            VTableFieldType::Bytes => {
                splice_range(buffer, offset, new_value.as_slice());
                shift_offsets(offsets, offset, new_value.len());
                Ok(())
            },
            _ => Err(Error::DocBufMapInvalidFieldType(field.field_type.type_label())),
        }
    }

    /// Reads a `u8` field in place, from the front of the range of `offset`.
    pub fn map_u8(&self, buffer: &[u8], offset: &VTableFieldOffset) -> (res: Result<u8, Error>)
        requires
            forall|f: FieldModel|
                #[trigger] field_found(self@.items, offset.0, f) && f.field_type is U8
                    ==> range_holds(buffer@, *offset, 1),
        ensures
            no_field_found(self@.items, offset.0) ==> res is Err,
            forall|f: FieldModel|
                #[trigger] field_found(self@.items, offset.0, f) ==> if f.field_type is U8 {
                    res == Ok::<u8, Error>(({
                        let b = range_bytes(buffer@, *offset);
                        b[0]
                    }))
                } else {
                    res matches Err(Error::DocBufMapInvalidFieldType(t)) && t@ == type_text(
                        f.field_type,
                    )
                },
    {
        let field = self.get_field_by_offset_index(offset.0)?;
        proof {
            assert forall|f: FieldModel| field_found(self@.items, offset.0, f) implies f == field@ by {
                lemma_field_found_unique(self@.items, offset.0, field@, f);
            }
        }
        match &field.field_type {
            VTableFieldType::U8 => {
                let bytes = slice_subrange(buffer, offset.1.start, offset.1.end);
                let value: u8 = bytes[0];
                Ok(value)
            },
            _ => Err(Error::DocBufMapInvalidFieldType(field.field_type.type_label())),
        }
    }

    /// Reads a `u16` field in place, from the front of the range of `offset`.
    pub fn map_u16(&self, buffer: &[u8], offset: &VTableFieldOffset) -> (res: Result<u16, Error>)
        requires
            forall|f: FieldModel|
                #[trigger] field_found(self@.items, offset.0, f) && f.field_type is U16
                    ==> range_holds(buffer@, *offset, 2),
        ensures
            no_field_found(self@.items, offset.0) ==> res is Err,
            forall|f: FieldModel|
                #[trigger] field_found(self@.items, offset.0, f) ==> if f.field_type is U16 {
                    res == Ok::<u16, Error>(({
                        let b = range_bytes(buffer@, *offset);
                        u16_at_front(b)
                    }))
                } else {
                    res matches Err(Error::DocBufMapInvalidFieldType(t)) && t@ == type_text(
                        f.field_type,
                    )
                },
    {
        let field = self.get_field_by_offset_index(offset.0)?;
        proof {
            assert forall|f: FieldModel| field_found(self@.items, offset.0, f) implies f == field@ by {
                lemma_field_found_unique(self@.items, offset.0, field@, f);
            }
        }
        match &field.field_type {
            VTableFieldType::U16 => {
                let bytes = slice_subrange(buffer, offset.1.start, offset.1.end);
                let value: u16 = read_u16_le(bytes, 0);
                Ok(value)
            },
            _ => Err(Error::DocBufMapInvalidFieldType(field.field_type.type_label())),
        }
    }

    /// Reads a `u32` field in place, from the front of the range of `offset`.
    pub fn map_u32(&self, buffer: &[u8], offset: &VTableFieldOffset) -> (res: Result<u32, Error>)
        requires
            forall|f: FieldModel|
                #[trigger] field_found(self@.items, offset.0, f) && f.field_type is U32
                    ==> range_holds(buffer@, *offset, 4),
        ensures
            no_field_found(self@.items, offset.0) ==> res is Err,
            forall|f: FieldModel|
                #[trigger] field_found(self@.items, offset.0, f) ==> if f.field_type is U32 {
                    res == Ok::<u32, Error>(({
                        let b = range_bytes(buffer@, *offset);
                        u32_at_front(b)
                    }))
                } else {
                    res matches Err(Error::DocBufMapInvalidFieldType(t)) && t@ == type_text(
                        f.field_type,
                    )
                },
    {
        let field = self.get_field_by_offset_index(offset.0)?;
        proof {
            assert forall|f: FieldModel| field_found(self@.items, offset.0, f) implies f == field@ by {
                lemma_field_found_unique(self@.items, offset.0, field@, f);
            }
        }
        match &field.field_type {
            VTableFieldType::U32 => {
                let bytes = slice_subrange(buffer, offset.1.start, offset.1.end);
                let value: u32 = read_u32_le(bytes, 0);
                Ok(value)
            },
            _ => Err(Error::DocBufMapInvalidFieldType(field.field_type.type_label())),
        }
    }

    /// Reads a `u64` field in place, from the front of the range of `offset`.
    pub fn map_u64(&self, buffer: &[u8], offset: &VTableFieldOffset) -> (res: Result<u64, Error>)
        requires
            forall|f: FieldModel|
                #[trigger] field_found(self@.items, offset.0, f) && f.field_type is U64
                    ==> range_holds(buffer@, *offset, 8),
        ensures
            no_field_found(self@.items, offset.0) ==> res is Err,
            forall|f: FieldModel|
                #[trigger] field_found(self@.items, offset.0, f) ==> if f.field_type is U64 {
                    res == Ok::<u64, Error>(({
                        let b = range_bytes(buffer@, *offset);
                        u64_at_front(b)
                    }))
                } else {
                    res matches Err(Error::DocBufMapInvalidFieldType(t)) && t@ == type_text(
                        f.field_type,
                    )
                },
    {
        let field = self.get_field_by_offset_index(offset.0)?;
        proof {
            assert forall|f: FieldModel| field_found(self@.items, offset.0, f) implies f == field@ by {
                lemma_field_found_unique(self@.items, offset.0, field@, f);
            }
        }
        match &field.field_type {
            VTableFieldType::U64 => {
                let bytes = slice_subrange(buffer, offset.1.start, offset.1.end);
                let value: u64 = read_u64_le(bytes, 0);
                Ok(value)
            },
            _ => Err(Error::DocBufMapInvalidFieldType(field.field_type.type_label())),
        }
    }

    /// Reads a `usize` field in place, from the front of the range of `offset`.
    pub fn map_usize(&self, buffer: &[u8], offset: &VTableFieldOffset) -> (res: Result<usize, Error>)
        requires
            forall|f: FieldModel|
                #[trigger] field_found(self@.items, offset.0, f) && f.field_type is USIZE
                    ==> range_holds(buffer@, *offset, 8),
        ensures
            no_field_found(self@.items, offset.0) ==> res is Err,
            forall|f: FieldModel|
                #[trigger] field_found(self@.items, offset.0, f) ==> if f.field_type is USIZE {
                    res == Ok::<usize, Error>(({
                        let b = range_bytes(buffer@, *offset);
                        usize_at_front(b)
                    }))
                } else {
                    res matches Err(Error::DocBufMapInvalidFieldType(t)) && t@ == type_text(
                        f.field_type,
                    )
                },
    {
        let field = self.get_field_by_offset_index(offset.0)?;
        proof {
            assert forall|f: FieldModel| field_found(self@.items, offset.0, f) implies f == field@ by {
                lemma_field_found_unique(self@.items, offset.0, field@, f);
            }
        }
        match &field.field_type {
            VTableFieldType::USIZE => {
                let bytes = slice_subrange(buffer, offset.1.start, offset.1.end);
                let value: usize = read_u64_le(bytes, 0) as usize;
                Ok(value)
            },
            _ => Err(Error::DocBufMapInvalidFieldType(field.field_type.type_label())),
        }
    }

    /// Reads a `i8` field in place, from the front of the range of `offset`.
    pub fn map_i8(&self, buffer: &[u8], offset: &VTableFieldOffset) -> (res: Result<i8, Error>)
        requires
            forall|f: FieldModel|
                #[trigger] field_found(self@.items, offset.0, f) && f.field_type is I8
                    ==> range_holds(buffer@, *offset, 1),
        ensures
            no_field_found(self@.items, offset.0) ==> res is Err,
            forall|f: FieldModel|
                #[trigger] field_found(self@.items, offset.0, f) ==> if f.field_type is I8 {
                    res == Ok::<i8, Error>(({
                        let b = range_bytes(buffer@, *offset);
                        i8_at_front(b)
                    }))
                } else {
                    res matches Err(Error::DocBufMapInvalidFieldType(t)) && t@ == type_text(
                        f.field_type,
                    )
                },
    {
        let field = self.get_field_by_offset_index(offset.0)?;
        proof {
            assert forall|f: FieldModel| field_found(self@.items, offset.0, f) implies f == field@ by {
                lemma_field_found_unique(self@.items, offset.0, field@, f);
            }
        }
        match &field.field_type {
            VTableFieldType::I8 => {
                let bytes = slice_subrange(buffer, offset.1.start, offset.1.end);
                let value: i8 = bytes[0] as i8;
                Ok(value)
            },
            _ => Err(Error::DocBufMapInvalidFieldType(field.field_type.type_label())),
        }
    }

    /// Reads a `i16` field in place, from the front of the range of `offset`.
    pub fn map_i16(&self, buffer: &[u8], offset: &VTableFieldOffset) -> (res: Result<i16, Error>)
        requires
            forall|f: FieldModel|
                #[trigger] field_found(self@.items, offset.0, f) && f.field_type is I16
                    ==> range_holds(buffer@, *offset, 2),
        ensures
            no_field_found(self@.items, offset.0) ==> res is Err,
            forall|f: FieldModel|
                #[trigger] field_found(self@.items, offset.0, f) ==> if f.field_type is I16 {
                    res == Ok::<i16, Error>(({
                        let b = range_bytes(buffer@, *offset);
                        i16_at_front(b)
                    }))
                } else {
                    res matches Err(Error::DocBufMapInvalidFieldType(t)) && t@ == type_text(
                        f.field_type,
                    )
                },
    {
        let field = self.get_field_by_offset_index(offset.0)?;
        proof {
            assert forall|f: FieldModel| field_found(self@.items, offset.0, f) implies f == field@ by {
                lemma_field_found_unique(self@.items, offset.0, field@, f);
            }
        }
        match &field.field_type {
            VTableFieldType::I16 => {
                let bytes = slice_subrange(buffer, offset.1.start, offset.1.end);
                let value: i16 = read_u16_le(bytes, 0) as i16;
                Ok(value)
            },
            _ => Err(Error::DocBufMapInvalidFieldType(field.field_type.type_label())),
        }
    }

    /// Reads a `i32` field in place, from the front of the range of `offset`.
    pub fn map_i32(&self, buffer: &[u8], offset: &VTableFieldOffset) -> (res: Result<i32, Error>)
        requires
            forall|f: FieldModel|
                #[trigger] field_found(self@.items, offset.0, f) && f.field_type is I32
                    ==> range_holds(buffer@, *offset, 4),
        ensures
            no_field_found(self@.items, offset.0) ==> res is Err,
            forall|f: FieldModel|
                #[trigger] field_found(self@.items, offset.0, f) ==> if f.field_type is I32 {
                    res == Ok::<i32, Error>(({
                        let b = range_bytes(buffer@, *offset);
                        i32_at_front(b)
                    }))
                } else {
                    res matches Err(Error::DocBufMapInvalidFieldType(t)) && t@ == type_text(
                        f.field_type,
                    )
                },
    {
        let field = self.get_field_by_offset_index(offset.0)?;
        proof {
            assert forall|f: FieldModel| field_found(self@.items, offset.0, f) implies f == field@ by {
                lemma_field_found_unique(self@.items, offset.0, field@, f);
            }
        }
        match &field.field_type {
            VTableFieldType::I32 => {
                let bytes = slice_subrange(buffer, offset.1.start, offset.1.end);
                let value: i32 = read_u32_le(bytes, 0) as i32;
                Ok(value)
            },
            _ => Err(Error::DocBufMapInvalidFieldType(field.field_type.type_label())),
        }
    }

    /// Reads a `i64` field in place, from the front of the range of `offset`.
    pub fn map_i64(&self, buffer: &[u8], offset: &VTableFieldOffset) -> (res: Result<i64, Error>)
        requires
            forall|f: FieldModel|
                #[trigger] field_found(self@.items, offset.0, f) && f.field_type is I64
                    ==> range_holds(buffer@, *offset, 8),
        ensures
            no_field_found(self@.items, offset.0) ==> res is Err,
            forall|f: FieldModel|
                #[trigger] field_found(self@.items, offset.0, f) ==> if f.field_type is I64 {
                    res == Ok::<i64, Error>(({
                        let b = range_bytes(buffer@, *offset);
                        i64_at_front(b)
                    }))
                } else {
                    res matches Err(Error::DocBufMapInvalidFieldType(t)) && t@ == type_text(
                        f.field_type,
                    )
                },
    {
        let field = self.get_field_by_offset_index(offset.0)?;
        proof {
            assert forall|f: FieldModel| field_found(self@.items, offset.0, f) implies f == field@ by {
                lemma_field_found_unique(self@.items, offset.0, field@, f);
            }
        }
        match &field.field_type {
            VTableFieldType::I64 => {
                let bytes = slice_subrange(buffer, offset.1.start, offset.1.end);
                let value: i64 = read_u64_le(bytes, 0) as i64;
                Ok(value)
            },
            _ => Err(Error::DocBufMapInvalidFieldType(field.field_type.type_label())),
        }
    }

    /// Reads a `isize` field in place, from the front of the range of `offset`.
    pub fn map_isize(&self, buffer: &[u8], offset: &VTableFieldOffset) -> (res: Result<isize, Error>)
        requires
            forall|f: FieldModel|
                #[trigger] field_found(self@.items, offset.0, f) && f.field_type is ISIZE
                    ==> range_holds(buffer@, *offset, 8),
        ensures
            no_field_found(self@.items, offset.0) ==> res is Err,
            forall|f: FieldModel|
                #[trigger] field_found(self@.items, offset.0, f) ==> if f.field_type is ISIZE {
                    res == Ok::<isize, Error>(({
                        let b = range_bytes(buffer@, *offset);
                        isize_at_front(b)
                    }))
                } else {
                    res matches Err(Error::DocBufMapInvalidFieldType(t)) && t@ == type_text(
                        f.field_type,
                    )
                },
    {
        let field = self.get_field_by_offset_index(offset.0)?;
        proof {
            assert forall|f: FieldModel| field_found(self@.items, offset.0, f) implies f == field@ by {
                lemma_field_found_unique(self@.items, offset.0, field@, f);
            }
        }
        match &field.field_type {
            VTableFieldType::ISIZE => {
                let bytes = slice_subrange(buffer, offset.1.start, offset.1.end);
                let value: isize = read_u64_le(bytes, 0) as i64 as isize;
                Ok(value)
            },
            _ => Err(Error::DocBufMapInvalidFieldType(field.field_type.type_label())),
        }
    }

    /// Reads a `bool` field in place, from the front of the range of `offset`.
    pub fn map_bool(&self, buffer: &[u8], offset: &VTableFieldOffset) -> (res: Result<bool, Error>)
        requires
            forall|f: FieldModel|
                #[trigger] field_found(self@.items, offset.0, f) && f.field_type is Bool
                    ==> range_holds(buffer@, *offset, 1),
        ensures
            no_field_found(self@.items, offset.0) ==> res is Err,
            forall|f: FieldModel|
                #[trigger] field_found(self@.items, offset.0, f) ==> if f.field_type is Bool {
                    res == Ok::<bool, Error>(({
                        let b = range_bytes(buffer@, *offset);
                        b[0] != 0
                    }))
                } else {
                    res matches Err(Error::DocBufMapInvalidFieldType(t)) && t@ == type_text(
                        f.field_type,
                    )
                },
    {
        let field = self.get_field_by_offset_index(offset.0)?;
        proof {
            assert forall|f: FieldModel| field_found(self@.items, offset.0, f) implies f == field@ by {
                lemma_field_found_unique(self@.items, offset.0, field@, f);
            }
        }
        match &field.field_type {
            VTableFieldType::Bool => {
                let bytes = slice_subrange(buffer, offset.1.start, offset.1.end);
                let value: bool = bytes[0] != 0;
                Ok(value)
            },
            _ => Err(Error::DocBufMapInvalidFieldType(field.field_type.type_label())),
        }
    }
}

impl DocBufMap<String> for VTable {
    open spec fn mappable(&self, buffer: Seq<u8>, offset: VTableFieldOffset) -> bool {
        forall|f: FieldModel|
            #[trigger] field_found(self@.items, offset.0, f) && f.field_type is String
                ==> range_holds(buffer, offset, 0)
    }

    open spec fn mapped(&self, buffer: Seq<u8>, offset: VTableFieldOffset, res: Result<String, Error>) -> bool {
        &&& no_field_found(self@.items, offset.0) ==> res is Err
        &&& forall|f: FieldModel|
            #[trigger] field_found(self@.items, offset.0, f) ==> if f.field_type is String {
                if valid_utf8(range_bytes(buffer, offset)) {
                    res matches Ok(s) && s@ == decode_utf8(range_bytes(buffer, offset))
                } else {
                    res matches Err(e) && e is FromUtf8
                }
            } else {
                res matches Err(Error::DocBufMapInvalidFieldType(t)) && t@ == type_text(
                    f.field_type,
                )
            }
    }

    fn docbuf_map(&self, buffer: &[u8], offset: &VTableFieldOffset) -> Result<String, Error> {
        self.map_string(buffer, offset)
    }
}

impl DocBufMapReplace<String> for VTable {
    open spec fn replaceable(
        &self,
        new_value: &String,
        buffer: Seq<u8>,
        offset: VTableFieldOffset,
        offsets: Seq<VTableFieldOffset>,
    ) -> bool {
        forall|f: FieldModel|
            #[trigger] field_found(self@.items, offset.0, f) && f.field_type is String
                ==> replace_fits(buffer, offset, offsets, encode_utf8(new_value@).len() as int)
    }

    open spec fn replaced(
        &self,
        new_value: &String,
        before: Seq<u8>,
        after: Seq<u8>,
        offset: VTableFieldOffset,
        offsets_before: Seq<VTableFieldOffset>,
        offsets_after: Seq<VTableFieldOffset>,
        res: Result<(), Error>,
    ) -> bool {
        &&& no_field_found(self@.items, offset.0) ==> res is Err && after == before
            && offsets_after == offsets_before
        &&& forall|f: FieldModel|
            #[trigger] field_found(self@.items, offset.0, f) ==> if f.field_type is String {
                &&& res is Ok
                &&& after == spliced(before, offset, encode_utf8(new_value@))
                &&& offsets_after == shifted(
                    offsets_before,
                    offset,
                    encode_utf8(new_value@).len() as int,
                )
            } else {
                &&& res matches Err(Error::DocBufMapInvalidFieldType(t)) && t@ == type_text(
                    f.field_type,
                )
                &&& after == before
                &&& offsets_after == offsets_before
            }
    }

    fn docbuf_map_replace(
        &self,
        new_value: &String,
        buffer: &mut Vec<u8>,
        offset: &VTableFieldOffset,
        offsets: &mut VTableFieldOffsets,
    ) -> Result<(), Error> {
        self.replace_string(new_value, buffer, offset, offsets)
    }
}

impl DocBufMap<Vec<u8>> for VTable {
    open spec fn mappable(&self, buffer: Seq<u8>, offset: VTableFieldOffset) -> bool {
        forall|f: FieldModel|
            #[trigger] field_found(self@.items, offset.0, f) && f.field_type is Bytes
                ==> range_holds(buffer, offset, 0)
    }

    open spec fn mapped(&self, buffer: Seq<u8>, offset: VTableFieldOffset, res: Result<Vec<u8>, Error>) -> bool {
        &&& no_field_found(self@.items, offset.0) ==> res is Err
        &&& forall|f: FieldModel|
            #[trigger] field_found(self@.items, offset.0, f) ==> if f.field_type is Bytes {
                res matches Ok(v) && v@ == range_bytes(buffer, offset)
            } else {
                res matches Err(Error::DocBufMapInvalidFieldType(t)) && t@ == type_text(
                    f.field_type,
                )
            }
    }

    fn docbuf_map(&self, buffer: &[u8], offset: &VTableFieldOffset) -> Result<Vec<u8>, Error> {
        self.map_bytes(buffer, offset)
    }
}

impl DocBufMapReplace<Vec<u8>> for VTable {
    open spec fn replaceable(
        &self,
        new_value: &Vec<u8>,
        buffer: Seq<u8>,
        offset: VTableFieldOffset,
        offsets: Seq<VTableFieldOffset>,
    ) -> bool {
        forall|f: FieldModel|
            #[trigger] field_found(self@.items, offset.0, f) && f.field_type is Bytes
                && bytes_pass(f.rules, new_value@) ==> replace_fits(
                buffer,
                offset,
                offsets,
                new_value@.len() as int,
            )
    }

    open spec fn replaced(
        &self,
        new_value: &Vec<u8>,
        before: Seq<u8>,
        after: Seq<u8>,
        offset: VTableFieldOffset,
        offsets_before: Seq<VTableFieldOffset>,
        offsets_after: Seq<VTableFieldOffset>,
        res: Result<(), Error>,
    ) -> bool {
        &&& no_field_found(self@.items, offset.0) ==> res is Err && after == before
            && offsets_after == offsets_before
        &&& forall|f: FieldModel|
            #[trigger] field_found(self@.items, offset.0, f) ==> if !bytes_pass(
                f.rules,
                new_value@,
            ) {
                &&& res matches Err(e) && crate::codec::bytes_error(f.rules, new_value@, e)
                &&& after == before
                &&& offsets_after == offsets_before
            } else if f.field_type is Bytes {
                &&& res is Ok
                &&& after == spliced(before, offset, new_value@)
                &&& offsets_after == shifted(offsets_before, offset, new_value@.len() as int)
            } else {
                &&& res matches Err(Error::DocBufMapInvalidFieldType(t)) && t@ == type_text(
                    f.field_type,
                )
                &&& after == before
                &&& offsets_after == offsets_before
            }
    }

    fn docbuf_map_replace(
        &self,
        new_value: &Vec<u8>,
        buffer: &mut Vec<u8>,
        offset: &VTableFieldOffset,
        offsets: &mut VTableFieldOffsets,
    ) -> Result<(), Error> {
        self.replace_bytes(new_value, buffer, offset, offsets)
    }
}

impl DocBufMap<u8> for VTable {
    open spec fn mappable(&self, buffer: Seq<u8>, offset: VTableFieldOffset) -> bool {
        forall|f: FieldModel|
            #[trigger] field_found(self@.items, offset.0, f) && f.field_type is U8
                ==> range_holds(buffer, offset, 1)
    }

    open spec fn mapped(&self, buffer: Seq<u8>, offset: VTableFieldOffset, res: Result<u8, Error>) -> bool {
        &&& no_field_found(self@.items, offset.0) ==> res is Err
        &&& forall|f: FieldModel|
            #[trigger] field_found(self@.items, offset.0, f) ==> if f.field_type is U8 {
                res == Ok::<u8, Error>(({
                    let b = range_bytes(buffer, offset);
                    b[0]
                }))
            } else {
                res matches Err(Error::DocBufMapInvalidFieldType(t)) && t@ == type_text(
                    f.field_type,
                )
            }
    }

    fn docbuf_map(&self, buffer: &[u8], offset: &VTableFieldOffset) -> Result<u8, Error> {
        self.map_u8(buffer, offset)
    }
}

impl DocBufMap<u16> for VTable {
    open spec fn mappable(&self, buffer: Seq<u8>, offset: VTableFieldOffset) -> bool {
        forall|f: FieldModel|
            #[trigger] field_found(self@.items, offset.0, f) && f.field_type is U16
                ==> range_holds(buffer, offset, 2)
    }

    open spec fn mapped(&self, buffer: Seq<u8>, offset: VTableFieldOffset, res: Result<u16, Error>) -> bool {
        &&& no_field_found(self@.items, offset.0) ==> res is Err
        &&& forall|f: FieldModel|
            #[trigger] field_found(self@.items, offset.0, f) ==> if f.field_type is U16 {
                res == Ok::<u16, Error>(({
                    let b = range_bytes(buffer, offset);
                    u16_at_front(b)
                }))
            } else {
                res matches Err(Error::DocBufMapInvalidFieldType(t)) && t@ == type_text(
                    f.field_type,
                )
            }
    }

    fn docbuf_map(&self, buffer: &[u8], offset: &VTableFieldOffset) -> Result<u16, Error> {
        self.map_u16(buffer, offset)
    }
}

impl DocBufMap<u32> for VTable {
    open spec fn mappable(&self, buffer: Seq<u8>, offset: VTableFieldOffset) -> bool {
        forall|f: FieldModel|
            #[trigger] field_found(self@.items, offset.0, f) && f.field_type is U32
                ==> range_holds(buffer, offset, 4)
    }

    open spec fn mapped(&self, buffer: Seq<u8>, offset: VTableFieldOffset, res: Result<u32, Error>) -> bool {
        &&& no_field_found(self@.items, offset.0) ==> res is Err
        &&& forall|f: FieldModel|
            #[trigger] field_found(self@.items, offset.0, f) ==> if f.field_type is U32 {
                res == Ok::<u32, Error>(({
                    let b = range_bytes(buffer, offset);
                    u32_at_front(b)
                }))
            } else {
                res matches Err(Error::DocBufMapInvalidFieldType(t)) && t@ == type_text(
                    f.field_type,
                )
            }
    }

    fn docbuf_map(&self, buffer: &[u8], offset: &VTableFieldOffset) -> Result<u32, Error> {
        self.map_u32(buffer, offset)
    }
}

impl DocBufMap<u64> for VTable {
    open spec fn mappable(&self, buffer: Seq<u8>, offset: VTableFieldOffset) -> bool {
        forall|f: FieldModel|
            #[trigger] field_found(self@.items, offset.0, f) && f.field_type is U64
                ==> range_holds(buffer, offset, 8)
    }

    open spec fn mapped(&self, buffer: Seq<u8>, offset: VTableFieldOffset, res: Result<u64, Error>) -> bool {
        &&& no_field_found(self@.items, offset.0) ==> res is Err
        &&& forall|f: FieldModel|
            #[trigger] field_found(self@.items, offset.0, f) ==> if f.field_type is U64 {
                res == Ok::<u64, Error>(({
                    let b = range_bytes(buffer, offset);
                    u64_at_front(b)
                }))
            } else {
                res matches Err(Error::DocBufMapInvalidFieldType(t)) && t@ == type_text(
                    f.field_type,
                )
            }
    }

    fn docbuf_map(&self, buffer: &[u8], offset: &VTableFieldOffset) -> Result<u64, Error> {
        self.map_u64(buffer, offset)
    }
}

impl DocBufMap<usize> for VTable {
    open spec fn mappable(&self, buffer: Seq<u8>, offset: VTableFieldOffset) -> bool {
        forall|f: FieldModel|
            #[trigger] field_found(self@.items, offset.0, f) && f.field_type is USIZE
                ==> range_holds(buffer, offset, 8)
    }

    open spec fn mapped(&self, buffer: Seq<u8>, offset: VTableFieldOffset, res: Result<usize, Error>) -> bool {
        &&& no_field_found(self@.items, offset.0) ==> res is Err
        &&& forall|f: FieldModel|
            #[trigger] field_found(self@.items, offset.0, f) ==> if f.field_type is USIZE {
                res == Ok::<usize, Error>(({
                    let b = range_bytes(buffer, offset);
                    usize_at_front(b)
                }))
            } else {
                res matches Err(Error::DocBufMapInvalidFieldType(t)) && t@ == type_text(
                    f.field_type,
                )
            }
    }

    fn docbuf_map(&self, buffer: &[u8], offset: &VTableFieldOffset) -> Result<usize, Error> {
        self.map_usize(buffer, offset)
    }
}

impl DocBufMap<i8> for VTable {
    open spec fn mappable(&self, buffer: Seq<u8>, offset: VTableFieldOffset) -> bool {
        forall|f: FieldModel|
            #[trigger] field_found(self@.items, offset.0, f) && f.field_type is I8
                ==> range_holds(buffer, offset, 1)
    }

    open spec fn mapped(&self, buffer: Seq<u8>, offset: VTableFieldOffset, res: Result<i8, Error>) -> bool {
        &&& no_field_found(self@.items, offset.0) ==> res is Err
        &&& forall|f: FieldModel|
            #[trigger] field_found(self@.items, offset.0, f) ==> if f.field_type is I8 {
                res == Ok::<i8, Error>(({
                    let b = range_bytes(buffer, offset);
                    i8_at_front(b)
                }))
            } else {
                res matches Err(Error::DocBufMapInvalidFieldType(t)) && t@ == type_text(
                    f.field_type,
                )
            }
    }

    fn docbuf_map(&self, buffer: &[u8], offset: &VTableFieldOffset) -> Result<i8, Error> {
        self.map_i8(buffer, offset)
    }
}

impl DocBufMap<i16> for VTable {
    open spec fn mappable(&self, buffer: Seq<u8>, offset: VTableFieldOffset) -> bool {
        forall|f: FieldModel|
            #[trigger] field_found(self@.items, offset.0, f) && f.field_type is I16
                ==> range_holds(buffer, offset, 2)
    }

    open spec fn mapped(&self, buffer: Seq<u8>, offset: VTableFieldOffset, res: Result<i16, Error>) -> bool {
        &&& no_field_found(self@.items, offset.0) ==> res is Err
        &&& forall|f: FieldModel|
            #[trigger] field_found(self@.items, offset.0, f) ==> if f.field_type is I16 {
                res == Ok::<i16, Error>(({
                    let b = range_bytes(buffer, offset);
                    i16_at_front(b)
                }))
            } else {
                res matches Err(Error::DocBufMapInvalidFieldType(t)) && t@ == type_text(
                    f.field_type,
                )
            }
    }

    fn docbuf_map(&self, buffer: &[u8], offset: &VTableFieldOffset) -> Result<i16, Error> {
        self.map_i16(buffer, offset)
    }
}

impl DocBufMap<i32> for VTable {
    open spec fn mappable(&self, buffer: Seq<u8>, offset: VTableFieldOffset) -> bool {
        forall|f: FieldModel|
            #[trigger] field_found(self@.items, offset.0, f) && f.field_type is I32
                ==> range_holds(buffer, offset, 4)
    }

    open spec fn mapped(&self, buffer: Seq<u8>, offset: VTableFieldOffset, res: Result<i32, Error>) -> bool {
        &&& no_field_found(self@.items, offset.0) ==> res is Err
        &&& forall|f: FieldModel|
            #[trigger] field_found(self@.items, offset.0, f) ==> if f.field_type is I32 {
                res == Ok::<i32, Error>(({
                    let b = range_bytes(buffer, offset);
                    i32_at_front(b)
                }))
            } else {
                res matches Err(Error::DocBufMapInvalidFieldType(t)) && t@ == type_text(
                    f.field_type,
                )
            }
    }

    fn docbuf_map(&self, buffer: &[u8], offset: &VTableFieldOffset) -> Result<i32, Error> {
        self.map_i32(buffer, offset)
    }
}

impl DocBufMap<i64> for VTable {
    open spec fn mappable(&self, buffer: Seq<u8>, offset: VTableFieldOffset) -> bool {
        forall|f: FieldModel|
            #[trigger] field_found(self@.items, offset.0, f) && f.field_type is I64
                ==> range_holds(buffer, offset, 8)
    }

    open spec fn mapped(&self, buffer: Seq<u8>, offset: VTableFieldOffset, res: Result<i64, Error>) -> bool {
        &&& no_field_found(self@.items, offset.0) ==> res is Err
        &&& forall|f: FieldModel|
            #[trigger] field_found(self@.items, offset.0, f) ==> if f.field_type is I64 {
                res == Ok::<i64, Error>(({
                    let b = range_bytes(buffer, offset);
                    i64_at_front(b)
                }))
            } else {
                res matches Err(Error::DocBufMapInvalidFieldType(t)) && t@ == type_text(
                    f.field_type,
                )
            }
    }

    fn docbuf_map(&self, buffer: &[u8], offset: &VTableFieldOffset) -> Result<i64, Error> {
        self.map_i64(buffer, offset)
    }
}

impl DocBufMap<isize> for VTable {
    open spec fn mappable(&self, buffer: Seq<u8>, offset: VTableFieldOffset) -> bool {
        forall|f: FieldModel|
            #[trigger] field_found(self@.items, offset.0, f) && f.field_type is ISIZE
                ==> range_holds(buffer, offset, 8)
    }

    open spec fn mapped(&self, buffer: Seq<u8>, offset: VTableFieldOffset, res: Result<isize, Error>) -> bool {
        &&& no_field_found(self@.items, offset.0) ==> res is Err
        &&& forall|f: FieldModel|
            #[trigger] field_found(self@.items, offset.0, f) ==> if f.field_type is ISIZE {
                res == Ok::<isize, Error>(({
                    let b = range_bytes(buffer, offset);
                    isize_at_front(b)
                }))
            } else {
                res matches Err(Error::DocBufMapInvalidFieldType(t)) && t@ == type_text(
                    f.field_type,
                )
            }
    }

    fn docbuf_map(&self, buffer: &[u8], offset: &VTableFieldOffset) -> Result<isize, Error> {
        self.map_isize(buffer, offset)
    }
}

impl DocBufMap<bool> for VTable {
    open spec fn mappable(&self, buffer: Seq<u8>, offset: VTableFieldOffset) -> bool {
        forall|f: FieldModel|
            #[trigger] field_found(self@.items, offset.0, f) && f.field_type is Bool
                ==> range_holds(buffer, offset, 1)
    }

    open spec fn mapped(&self, buffer: Seq<u8>, offset: VTableFieldOffset, res: Result<bool, Error>) -> bool {
        &&& no_field_found(self@.items, offset.0) ==> res is Err
        &&& forall|f: FieldModel|
            #[trigger] field_found(self@.items, offset.0, f) ==> if f.field_type is Bool {
                res == Ok::<bool, Error>(({
                    let b = range_bytes(buffer, offset);
                    b[0] != 0
                }))
            } else {
                res matches Err(Error::DocBufMapInvalidFieldType(t)) && t@ == type_text(
                    f.field_type,
                )
            }
    }

    fn docbuf_map(&self, buffer: &[u8], offset: &VTableFieldOffset) -> Result<bool, Error> {
        self.map_bool(buffer, offset)
    }
}

} // verus!
