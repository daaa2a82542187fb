//! The state of a serializer that writes a document into a buffer, field by
//! field, following the vtable: which struct and which field it is at, and
//! where each field went.
use vstd::prelude::*;
use crate::error::Error;
use crate::field::{is_first_named, FieldModel, VTableField};
use crate::item::VTableItem;
use crate::numeric::NumericValue;
use crate::offset::{is_first_with_index, VTableFieldOffset, VTableFieldOffsets};
use crate::rules::MAX_FIELD_SIZE;
use crate::field::MAX_MAP_ENTRIES;
use std::ops::Range;
use std::collections::VecDeque;
use crate::structs::StructModel;
use crate::table::{field_found, no_field_found, no_struct_found, VTable, VTableModel};
use crate::traits::DocBufEncodeField;
use vstd::bytes::spec_u32_to_le_bytes;
use crate::codec::{field_offset_is, numeric_passes};

verus! {

/// Errors of the serializer and the deserializer.
#[derive(Debug, Clone)]
pub enum DocBufError {
    /// A struct or a field the document names is not in the vtable, or the
    /// bytes end early.
    Serde(String),
    VTable(Error),
}

/// The outcome of looking a field up by item index, then field index.
pub open spec fn lookup_field(vt: VTableModel, item: u8, field: u8, r: Result<FieldModel, Error>) -> bool {
    match r {
        Ok(f) => field_found(vt.items, (item, field), f),
        Err(e) => no_field_found(vt.items, (item, field)) && (if no_struct_found(vt.items, item) {
            e is StructNotFound
        } else {
            e is FieldNotFound
        }),
    }
}

/// `f` is the first field of `s` named `name`.
pub open spec fn named_in(s: StructModel, name: Seq<char>, f: FieldModel) -> bool {
    exists|i: int| is_first_named(s.fields, name, i) && s.fields[i] == f
}

/// `s` has no field named `name`.
pub open spec fn lacks_name(s: StructModel, name: Seq<char>) -> bool {
    forall|j: int| 0 <= j < s.fields.len() ==> s.fields[j].name != name
}

/// The offsets after `o` is added: the first offset with the same index
/// takes the new end, or `o` goes at the end where there is none.
pub open spec fn offsets_after_push(s: Seq<VTableFieldOffset>, o: VTableFieldOffset) -> Seq<VTableFieldOffset> {
    if exists|i: int| is_first_with_index(s, o.0, i) {
        let i = choose|i: int| is_first_with_index(s, o.0, i);
        s.update(i, VTableFieldOffset(s[i].0, Range { start: s[i].1.start, end: o.1.end }))
    } else {
        s.push(o)
    }
}

/// Where some offset has the index `idx`, a first one has it.
proof fn lemma_first_index_exists(s: Seq<VTableFieldOffset>, idx: (u8, u8), j: int)
    requires
        0 <= j < s.len(),
        s[j].0 == idx,
    ensures
        exists|i: int| is_first_with_index(s, idx, i),
    decreases j,
{
    if exists|k: int| 0 <= k < j && s[k].0 == idx {
        let k = choose|k: int| 0 <= k < j && s[k].0 == idx;
        lemma_first_index_exists(s, idx, k);
    } else {
        assert(is_first_with_index(s, idx, j));
    }
}

/// Adds `o` to the offsets.
fn push_offset(offsets: &mut VTableFieldOffsets, o: VTableFieldOffset)
    ensures
        final(offsets)@ == offsets_after_push(old(offsets)@, o),
{
    proof {
        if exists|j: int| 0 <= j < old(offsets)@.len() && old(offsets)@[j].0 == o.0 {
            let j = choose|j: int| 0 <= j < old(offsets)@.len() && old(offsets)@[j].0 == o.0;
            lemma_first_index_exists(old(offsets)@, o.0, j);
        }
    }
    offsets.push(o);
}

/// The serializer: the vtable it follows, the buffer it writes, and where it
/// is in the vtable. Items are named by their position in the vtable.
pub struct DocBufSerializer<'a> {
    pub vtable: &'a VTable,
    pub buffer: Vec<u8>,
    pub current_item_index: u8,
    pub current_field_index: u8,
    pub previous_item_index: u8,
    /// Position of the struct being written, once known.
    pub current_item: Option<usize>,
    /// The field being written, once known.
    pub current_field: Option<VTableField>,
    pub previous_item: Option<usize>,
    /// Positions of the structs left for nested ones, oldest first.
    pub previous_items: VecDeque<usize>,
    /// Where each field was written.
    pub offsets: VTableFieldOffsets,
}

impl<'a> DocBufSerializer<'a> {
    /// Every position the serializer holds is a position of the vtable.
    pub open spec fn ser_wf(&self) -> bool {
        let n = self.vtable@.items.len();
        &&& self.current_item matches Some(p) ==> p < n
        &&& self.previous_item matches Some(p) ==> p < n
        &&& forall|k: int| 0 <= k < self.previous_items@.len() ==> self.previous_items@[k] < n
    }

    /// A serializer at the start of the vtable, with an emptied buffer.
    pub fn new(vtable: &'a VTable, buffer: Vec<u8>) -> (s: Self)
        ensures
            s.ser_wf(),
            s.vtable == vtable,
            s.buffer@ == Seq::<u8>::empty(),
            s.current_item_index == 0,
            s.current_field_index == 0,
            s.previous_item_index == 0,
            s.current_item is None,
            s.current_field is None,
            s.previous_item is None,
            s.previous_items@ == Seq::<usize>::empty(),
            s.offsets@ == Seq::<VTableFieldOffset>::empty(),
    {
        let mut buffer = buffer;
        buffer.clear();
        let cap = vtable.num_items as usize * 10;
        DocBufSerializer {
            vtable,
            buffer,
            current_item_index: 0,
            current_field_index: 0,
            previous_item_index: 0,
            current_item: None,
            current_field: None,
            previous_item: None,
            previous_items: VecDeque::new(),
            offsets: VTableFieldOffsets::with_capacity(cap),
        }
    }

    /// The field being written: the one set last, else the one the vtable
    /// holds at the current item and field indexes.
    pub fn current_field(&self) -> (r: Result<&VTableField, DocBufError>)
        ensures
            match self.current_field {
                Some(f) => r matches Ok(x) && *x == f,
                None => match r {
                    Ok(x) => lookup_field(self.vtable@, self.current_item_index, self.current_field_index, Ok(x@)),
                    Err(DocBufError::VTable(e)) => lookup_field(self.vtable@, self.current_item_index, self.current_field_index, Err(e)),
                    Err(_) => false,
                },
            },
    {
        match &self.current_field {
            Some(f) => Ok(f),
            None => {
                let s = match self.vtable.struct_by_index(self.current_item_index) {
                    Ok(s) => s,
                    Err(e) => return Err(DocBufError::VTable(e)),
                };
                match s.field_by_index(&self.current_field_index) {
                    Ok(f) => {
                        proof {
                            let i = choose|i: int|
                                crate::structs::is_first_with_field_index(s@.fields, self.current_field_index, i)
                                    && f@ == s@.fields[i];
                            assert(field_found(self.vtable@.items, (self.current_item_index, self.current_field_index), f@));
                        }
                        Ok(f)
                    },
                    Err(e) => Err(DocBufError::VTable(e)),
                }
            },
        }
    }

    /// Writes the element count that starts an array in the current field.
    pub fn encode_array_start(&mut self, num_elements: usize) -> (res: Result<(), DocBufError>)
        requires
            old(self).ser_wf(),
        ensures
            final(self).ser_wf(),
            final(self).vtable == old(self).vtable,
            final(self).current_item == old(self).current_item,
            final(self).current_field == old(self).current_field,
            final(self).offsets@ == old(self).offsets@,
            res is Ok ==> num_elements < MAX_FIELD_SIZE && final(self).buffer@ == old(self).buffer@
                + spec_u32_to_le_bytes(num_elements as u32),
            res is Err ==> final(self).buffer@ == old(self).buffer@,
            current_field_model(*old(self)) is None ==> res matches Err(DocBufError::VTable(_)),
            current_field_model(*old(self)) is Some ==> (res is Ok <==> num_elements < MAX_FIELD_SIZE),
    {
        let field = match self.current_field_copy() {
            Ok(f) => f,
            Err(e) => return Err(e),
        };
        match field.encode_array_start(num_elements, &mut self.buffer) {
            Ok(()) => Ok(()),
            Err(e) => Err(DocBufError::VTable(e)),
        }
    }

    /// Writes the entry count that starts a map in the current field.
    pub fn encode_map_start(&mut self, num_entries: usize) -> (res: Result<(), DocBufError>)
        requires
            old(self).ser_wf(),
        ensures
            final(self).ser_wf(),
            final(self).vtable == old(self).vtable,
            final(self).current_item == old(self).current_item,
            final(self).current_field == old(self).current_field,
            final(self).offsets@ == old(self).offsets@,
            res is Ok ==> num_entries < MAX_MAP_ENTRIES && final(self).buffer@ == old(self).buffer@
                + spec_u32_to_le_bytes(num_entries as u32),
            res is Err ==> final(self).buffer@ == old(self).buffer@,
            current_field_model(*old(self)) is None ==> res matches Err(DocBufError::VTable(_)),
            current_field_model(*old(self)) is Some ==> (res is Ok <==> num_entries < MAX_MAP_ENTRIES),
    {
        let field = match self.current_field_copy() {
            Ok(f) => f,
            Err(e) => return Err(e),
        };
        match field.encode_map_start(num_entries, &mut self.buffer) {
            Ok(()) => Ok(()),
            Err(e) => Err(DocBufError::VTable(e)),
        }
    }
}


/// The struct at position `p` of the vtable.
pub open spec fn struct_at(vt: VTableModel, p: int) -> StructModel {
    vt.items[p].struct_of()
}

/// `k` is the first of the positions `prev` whose struct has a field named `name`.
pub open spec fn first_holding(vt: VTableModel, prev: Seq<usize>, name: Seq<char>, k: int) -> bool {
    &&& 0 <= k < prev.len()
    &&& !lacks_name(struct_at(vt, prev[k] as int), name)
    &&& forall|i: int| 0 <= i < k ==> lacks_name(struct_at(vt, prev[i] as int), name)
}

/// The message of a field the serializer cannot find.
pub open spec fn field_missing_message(name: Seq<char>) -> Seq<char> {
    "Field not found: "@ + name
}

/// The message of a struct the serializer cannot find.
pub open spec fn struct_missing_message(name: Seq<char>) -> Seq<char> {
    "Struct "@ + name + " not found in the vtable"@
}

/// The serializer, with `f` as the field being written.
pub open spec fn with_field<'a>(s: DocBufSerializer<'a>, f: VTableField) -> DocBufSerializer<'a> {
    DocBufSerializer { current_field_index: f.index, current_field: Some(f), ..s }
}

/// "Field not found" error text.
fn field_missing(name: &str) -> (m: String)
    ensures
        m@ == field_missing_message(name@),
{
    let mut m = "Field not found: ".to_string();
    m.append(name);
    m
}

/// "Struct not found" error text.
fn struct_missing(name: &str) -> (m: String)
    ensures
        m@ == struct_missing_message(name@),
{
    let mut m = "Struct ".to_string();
    m.append(name);
    m.append(" not found in the vtable");
    m
}

impl<'a> DocBufSerializer<'a> {
    /// The struct at position `p` of the vtable.
    fn struct_at_pos(&self, p: usize) -> (s: &'a crate::structs::VTableStruct)
        requires
            p < self.vtable@.items.len(),
        ensures
            s@ == struct_at(self.vtable@, p as int),
    {
        let vt: &'a VTable = self.vtable;
        match &vt.items.0[p] {
            VTableItem::Struct(s) => s,
        }
    }

    /// Enters the first struct of the vtable named `name`; the struct being
    /// written before is kept to come back to.
    pub fn serialize_struct(&mut self, name: &str) -> (res: Result<(), DocBufError>)
        requires
            old(self).ser_wf(),
        ensures
            final(self).ser_wf(),
            match res {
                Ok(()) => exists|p: int|
                    crate::table::is_first_item_named(old(self).vtable@.items, name@, p)
                        && *final(self) == (DocBufSerializer {
                        current_item: Some(p as usize),
                        current_item_index: struct_at(old(self).vtable@, p).item_index,
                        previous_item_index: old(self).current_item_index,
                        previous_item: old(self).current_item,
                        previous_items: final(self).previous_items,
                        ..*old(self)
                    }) && final(self).previous_items@ == (match old(self).current_item {
                        Some(q) => old(self).previous_items@.push(q),
                        None => old(self).previous_items@,
                    }),
                Err(e) => *final(self) == *old(self) && (forall|j: int|
                    0 <= j < old(self).vtable@.items.len() ==> struct_at(old(self).vtable@, j).name != name@)
                    && (e matches DocBufError::Serde(m) && m@ == struct_missing_message(name@)),
            },
    {
        match self.vtable.find_named(name) {
            Some(p) => {
                let idx = self.struct_at_pos(p).item_index;
                self.previous_item_index = self.current_item_index;
                self.current_item_index = idx;
                self.previous_item = self.current_item;
                if let Some(item) = self.current_item {
                    self.previous_items.push_back(item);
                }
                self.current_item = Some(p);
                Ok(())
            },
            None => Err(DocBufError::Serde(struct_missing(name))),
        }
    }
}


impl<'a> DocBufSerializer<'a> {
    /// Makes the field named `field_name` the field being written. It is
    /// looked for in the struct being written, then in the structs left
    /// before, oldest first; the struct that has it becomes the one being
    /// written, and those passed over go to the back of the queue.
    pub fn set_field(&mut self, field_name: &str) -> (res: Result<(), DocBufError>)
        requires
            old(self).ser_wf(),
            old(self).current_item matches Some(p) && lacks_name(struct_at(old(self).vtable@, p as int), field_name@)
                && old(self).previous_items@.len() > 0 ==> exists|k: int|
                first_holding(old(self).vtable@, old(self).previous_items@, field_name@, k),
        ensures
            final(self).ser_wf(),
            final(self).vtable == old(self).vtable,
            final(self).buffer == old(self).buffer,
            final(self).offsets == old(self).offsets,
            res is Err ==> *final(self) == *old(self),
            res is Ok ==> (final(self).current_field matches Some(f) && final(self).current_field_index == f.index),
            old(self).current_item matches Some(p) ==> ({
                let s = struct_at(old(self).vtable@, p as int);
                &&& !lacks_name(s, field_name@) ==> res is Ok && named_in(s, field_name@, final(self).current_field.unwrap()@)
                    && *final(self) == with_field(*old(self), final(self).current_field.unwrap())
                &&& lacks_name(s, field_name@) && old(self).previous_items@.len() == 0 ==> (res matches Err(
                    DocBufError::Serde(m)) && m@ == field_missing_message(field_name@))
                &&& forall|k: int| lacks_name(s, field_name@) && first_holding(old(self).vtable@, old(self).previous_items@, field_name@, k) ==> {
                    let q = old(self).previous_items@[k];
                    &&& res is Ok
                    &&& named_in(struct_at(old(self).vtable@, q as int), field_name@, final(self).current_field.unwrap()@)
                    &&& final(self).current_item == Some(q)
                    &&& final(self).current_item_index == old(self).previous_item_index
                    &&& final(self).previous_item is None
                    &&& final(self).previous_item_index == old(self).previous_item_index
                    &&& final(self).previous_items@ == old(self).previous_items@.subrange(k + 1, old(self).previous_items@.len() as int)
                        + old(self).previous_items@.subrange(0, k)
                }
            }),
            old(self).current_item is None ==> ({
                let vt = old(self).vtable@;
                &&& no_struct_found(vt.items, old(self).current_item_index) ==> (res matches Err(DocBufError::VTable(e)) && e is StructNotFound)
                &&& forall|s: StructModel| crate::table::found_struct(vt.items, old(self).current_item_index, s) ==> {
                    &&& !lacks_name(s, field_name@) ==> res is Ok && named_in(s, field_name@, final(self).current_field.unwrap()@)
                        && *final(self) == with_field(*old(self), final(self).current_field.unwrap())
                    &&& lacks_name(s, field_name@) && no_struct_found(vt.items, old(self).previous_item_index) ==> (res matches Err(
                        DocBufError::VTable(e)) && e is StructNotFound)
                    &&& forall|s2: StructModel| lacks_name(s, field_name@) && crate::table::found_struct(vt.items, old(self).previous_item_index, s2) ==> {
                        &&& !lacks_name(s2, field_name@) ==> res is Ok && named_in(s2, field_name@, final(self).current_field.unwrap()@)
                            && *final(self) == (DocBufSerializer {
                            current_item: old(self).previous_item,
                            current_item_index: old(self).previous_item_index,
                            previous_item: None,
                            current_field_index: final(self).current_field_index,
                            current_field: final(self).current_field,
                            ..*old(self)
                        })
                        &&& lacks_name(s2, field_name@) ==> (res matches Err(DocBufError::Serde(m)) && m@ == field_missing_message(field_name@))
                    }
                }
            }),
    {
        match self.current_item {
            Some(p) => {
                let s = self.struct_at_pos(p);
                match s.field_by_name(field_name) {
                    Ok(f) => {
                        self.current_field_index = f.index;
                        self.current_field = Some(f.duplicate());
                        return Ok(());
                    },
                    Err(_) => {},
                }
                let n = self.previous_items.len();
                let ghost vt = self.vtable@;
                let ghost prev = self.previous_items@;
                let mut k: usize = 0;
                while k < n
                    invariant
                        self.ser_wf(),
                        *self == *old(self),
                        old(self).current_item == Some(p),
                        vt == self.vtable@,
                        prev == self.previous_items@,
                        n == prev.len(),
                        k <= n,
                        p < vt.items.len(),
                        lacks_name(struct_at(vt, p as int), field_name@),
                        forall|i: int| 0 <= i < k ==> lacks_name(struct_at(vt, prev[i] as int), field_name@),
                    decreases n - k,
                {
                    let q = self.previous_items[k];
                    let sq = self.struct_at_pos(q);
                    match sq.field_by_name(field_name) {
                        Ok(f) => {
                            let fd = f.duplicate();
                            let mut rest: VecDeque<usize> = VecDeque::new();
                            let mut j: usize = k + 1;
                            while j < n
                                invariant
                                    k < n,
                                    n == prev.len(),
                                    prev == self.previous_items@,
                                    k + 1 <= j <= n,
                                    rest@ == prev.subrange(k + 1, j as int),
                                decreases n - j,
                            {
                                rest.push_back(self.previous_items[j]);
                                j = j + 1;
                            }
                            let mut j: usize = 0;
                            while j < k
                                invariant
                                    k < n,
                                    n == prev.len(),
                                    prev == self.previous_items@,
                                    j <= k,
                                    rest@ == prev.subrange(k + 1, n as int) + prev.subrange(0, j as int),
                                decreases k - j,
                            {
                                rest.push_back(self.previous_items[j]);
                                j = j + 1;
                            }
                            proof {
                                assert(first_holding(vt, prev, field_name@, k as int));
                                assert forall|i: int| #![auto] 0 <= i < rest@.len() implies rest@[i] < vt.items.len() by {
                                    if i < n - k - 1 {
                                        assert(rest@[i] == prev[k + 1 + i]);
                                    } else {
                                        assert(rest@[i] == prev[i - (n - k - 1)]);
                                    }
                                }
                            }
                            self.current_item = Some(q);
                            self.current_item_index = self.previous_item_index;
                            self.previous_item = None;
                            self.current_field_index = fd.index;
                            self.current_field = Some(fd);
                            self.previous_items = rest;
                            proof {
                                assert forall|k2: int|
                                    lacks_name(struct_at(vt, p as int), field_name@) && first_holding(vt, prev, field_name@, k2)
                                    implies k2 == k by {
                                    if k2 < k {
                                        assert(lacks_name(struct_at(vt, prev[k2] as int), field_name@));
                                    } else if k2 > k {
                                        assert(lacks_name(struct_at(vt, prev[k as int] as int), field_name@));
                                    }
                                }
                            }
                            return Ok(());
                        },
                        Err(_) => {},
                    }
                    k = k + 1;
                }
                proof {
                    if n > 0 {
                        let k2 = choose|k2: int| first_holding(vt, prev, field_name@, k2);
                        assert(lacks_name(struct_at(vt, prev[k2] as int), field_name@));
                    }
                }
                Err(DocBufError::Serde(field_missing(field_name)))
            },
            None => {
                let s = match self.vtable.struct_by_index(self.current_item_index) {
                    Ok(s) => s,
                    Err(e) => return Err(DocBufError::VTable(e)),
                };
                proof {
                    assert forall|s1: StructModel|
                        crate::table::found_struct(self.vtable@.items, self.current_item_index, s1) implies s1 == s@ by {
                        crate::table::lemma_found_struct_unique(self.vtable@.items, self.current_item_index, s1, s@);
                    }
                }
                match s.field_by_name(field_name) {
                    Ok(f) => {
                        self.current_field_index = f.index;
                        self.current_field = Some(f.duplicate());
                        return Ok(());
                    },
                    Err(_) => {},
                }
                let s2 = match self.vtable.struct_by_index(self.previous_item_index) {
                    Ok(s2) => s2,
                    Err(e) => return Err(DocBufError::VTable(e)),
                };
                proof {
                    assert forall|s1: StructModel|
                        crate::table::found_struct(self.vtable@.items, self.previous_item_index, s1) implies s1 == s2@ by {
                        crate::table::lemma_found_struct_unique(self.vtable@.items, self.previous_item_index, s1, s2@);
                    }
                }
                match s2.field_by_name(field_name) {
                    Ok(f) => {
                        self.current_item = self.previous_item;
                        self.current_item_index = self.previous_item_index;
                        self.previous_item = None;
                        self.current_field_index = f.index;
                        self.current_field = Some(f.duplicate());
                        Ok(())
                    },
                    Err(_) => Err(DocBufError::Serde(field_missing(field_name))),
                }
            },
        }
    }
}


/// The field a serializer writes next: the one set last, else the one the
/// vtable holds at its item and field indexes, if any.
pub open spec fn current_field_model<'a>(s: DocBufSerializer<'a>) -> Option<FieldModel> {
    match s.current_field {
        Some(f) => Some(f@),
        None => if exists|f: FieldModel| field_found(s.vtable@.items, (s.current_item_index, s.current_field_index), f) {
            Some(choose|f: FieldModel| field_found(s.vtable@.items, (s.current_item_index, s.current_field_index), f))
        } else {
            None
        },
    }
}

/// The offset of a value of field `f` written between `start` and `end`.
pub open spec fn offset_of(f: FieldModel, start: int, end: int) -> VTableFieldOffset {
    VTableFieldOffset((f.item_index, f.index), Range { start: start as usize, end: end as usize })
}

/// `t` is `s` after a value of field `f` went into bytes `start..` of the
/// buffer, which now holds `buf`.
pub open spec fn wrote_value<'a>(s: DocBufSerializer<'a>, t: DocBufSerializer<'a>, f: FieldModel, start: int, buf: Seq<u8>) -> bool {
    &&& t.buffer@ == buf
    &&& t.offsets@ == offsets_after_push(s.offsets@, offset_of(f, start, buf.len() as int))
    &&& t == DocBufSerializer { buffer: t.buffer, offsets: t.offsets, ..s }
}

impl<'a> DocBufSerializer<'a> {
    /// A copy of the field being written.
    fn current_field_copy(&self) -> (r: Result<VTableField, DocBufError>)
        ensures
            match current_field_model(*self) {
                Some(f) => r matches Ok(x) && x@ == f,
                None => r matches Err(DocBufError::VTable(_)),
            },
    {
        match self.current_field() {
            Ok(f) => {
                proof {
                    if self.current_field is None {
                        let ix = (self.current_item_index, self.current_field_index);
                        let g = choose|g: FieldModel| field_found(self.vtable@.items, ix, g);
                        crate::table::lemma_field_found_unique(self.vtable@.items, ix, f@, g);
                    }
                }
                Ok(f.duplicate())
            },
            Err(e) => {
                proof {
                    if self.current_field is None {
                        let ix = (self.current_item_index, self.current_field_index);
                        if exists|g: FieldModel| field_found(self.vtable@.items, ix, g) {
                            let g = choose|g: FieldModel| field_found(self.vtable@.items, ix, g);
                            crate::table::lemma_field_found_unique(self.vtable@.items, ix, g, g);
                        }
                    }
                }
                Err(e)
            },
        }
    }

    /// Records where a value went, or passes its error on.
    fn record(&mut self, r: Result<VTableFieldOffset, Error>) -> (res: Result<(), DocBufError>)
        ensures
            match r {
                Ok(o) => res is Ok && final(self).offsets@ == offsets_after_push(old(self).offsets@, o)
                    && *final(self) == (DocBufSerializer { offsets: final(self).offsets, ..*old(self) }),
                Err(e) => res == Err::<(), DocBufError>(DocBufError::VTable(e)) && *final(self) == *old(self),
            },
    {
        match r {
            Ok(o) => {
                push_offset(&mut self.offsets, o);
                Ok(())
            },
            Err(e) => Err(DocBufError::VTable(e)),
        }
    }

    /// Writes a number into the current field: its little-endian bytes,
    /// where it passes the field's value rules.
    pub fn serialize_numeric(&mut self, v: NumericValue) -> (res: Result<(), DocBufError>)
        requires
            old(self).ser_wf(),
        ensures
            final(self).ser_wf(),
            res is Err ==> final(self).buffer@ == old(self).buffer@ && *final(self) == (DocBufSerializer {
                buffer: final(self).buffer,
                ..*old(self)
            }),
            match current_field_model(*old(self)) {
                None => res matches Err(DocBufError::VTable(_)),
                Some(f) => if numeric_passes(f.rules, v) {
                    res is Ok && wrote_value(*old(self), *final(self), f, old(self).buffer@.len() as int,
                        old(self).buffer@ + v.spec_value_bytes())
                } else {
                    res matches Err(DocBufError::VTable(e)) && crate::codec::value_error(f.rules, v, e)
                },
            },
    {
        let field = match self.current_field_copy() {
            Ok(f) => f,
            Err(e) => return Err(e),
        };
        let r = field.encode(&v, &mut self.buffer);
        self.record(r)
    }

    /// Writes a bool into the current field, a bool field without rules:
    /// one byte, 1 or 0.
    pub fn serialize_bool(&mut self, v: bool) -> (res: Result<(), DocBufError>)
        requires
            old(self).ser_wf(),
            current_field_model(*old(self)) matches Some(f) ==> crate::rules::rules_are_none(f.rules),
        ensures
            final(self).ser_wf(),
            res is Err ==> final(self).buffer@ == old(self).buffer@ && *final(self) == (DocBufSerializer {
                buffer: final(self).buffer,
                ..*old(self)
            }),
            match current_field_model(*old(self)) {
                None => res matches Err(DocBufError::VTable(_)),
                Some(f) => if f.field_type is Bool {
                    res is Ok && wrote_value(*old(self), *final(self), f, old(self).buffer@.len() as int,
                        old(self).buffer@.push(if v { 1u8 } else { 0u8 }))
                } else {
                    res matches Err(DocBufError::VTable(e)) && crate::codec::is_type_error(e, f.field_type, true)
                },
            },
    {
        let field = match self.current_field_copy() {
            Ok(f) => f,
            Err(e) => return Err(e),
        };
        let r = field.encode(&v, &mut self.buffer);
        self.record(r)
    }

    /// Writes text into the current field: raw into a uuid field, behind a
    /// length prefix into a string or map field, where it passes the rules.
    pub fn serialize_str(&mut self, v: &str) -> (res: Result<(), DocBufError>)
        requires
            old(self).ser_wf(),
        ensures
            final(self).ser_wf(),
            res is Err ==> final(self).buffer@ == old(self).buffer@ && *final(self) == (DocBufSerializer {
                buffer: final(self).buffer,
                ..*old(self)
            }),
            match current_field_model(*old(self)) {
                None => res matches Err(DocBufError::VTable(_)),
                Some(f) => if !crate::codec::text_passes(f.rules, v@) {
                    res matches Err(DocBufError::VTable(e)) && crate::codec::text_error(f.rules, v@, e)
                } else if f.field_type is Uuid {
                    res is Ok && wrote_value(*old(self), *final(self), f, old(self).buffer@.len() as int,
                        old(self).buffer@ + vstd::utf8::encode_utf8(v@))
                } else if crate::codec::is_text_type(f.field_type) {
                    res is Ok && wrote_value(*old(self), *final(self), f, old(self).buffer@.len() + 4int,
                        old(self).buffer@ + crate::codec::length_prefixed(vstd::utf8::encode_utf8(v@)))
                } else {
                    res matches Err(DocBufError::VTable(e)) && crate::codec::is_type_error(e, f.field_type, true)
                },
            },
    {
        let field = match self.current_field_copy() {
            Ok(f) => f,
            Err(e) => return Err(e),
        };
        let r = field.encode(&v, &mut self.buffer);
        self.record(r)
    }

    /// Writes bytes into the current field: raw into a uuid field, behind a
    /// length prefix into a bytes field, where they pass the length rules.
    pub fn serialize_bytes(&mut self, v: &[u8]) -> (res: Result<(), DocBufError>)
        requires
            old(self).ser_wf(),
        ensures
            final(self).ser_wf(),
            res is Err ==> final(self).buffer@ == old(self).buffer@ && *final(self) == (DocBufSerializer {
                buffer: final(self).buffer,
                ..*old(self)
            }),
            match current_field_model(*old(self)) {
                None => res matches Err(DocBufError::VTable(_)),
                Some(f) => if !crate::codec::bytes_pass(f.rules, v@) {
                    res matches Err(DocBufError::VTable(e)) && crate::codec::bytes_error(f.rules, v@, e)
                } else if f.field_type is Uuid {
                    res is Ok && wrote_value(*old(self), *final(self), f, old(self).buffer@.len() as int,
                        old(self).buffer@ + v@)
                } else if f.field_type is Bytes {
                    res is Ok && wrote_value(*old(self), *final(self), f, old(self).buffer@.len() + 4int,
                        old(self).buffer@ + crate::codec::length_prefixed(v@))
                } else {
                    res matches Err(DocBufError::VTable(e)) && crate::codec::is_type_error(e, f.field_type, true)
                },
            },
    {
        let field = match self.current_field_copy() {
            Ok(f) => f,
            Err(e) => return Err(e),
        };
        let r = field.encode(&v, &mut self.buffer);
        self.record(r)
    }
}


impl<'a> DocBufSerializer<'a> {
    /// Starts a tuple: a bytes field gets its element count, other fields
    /// nothing.
    pub fn serialize_tuple(&mut self, len: usize) -> (res: Result<(), DocBufError>)
        requires
            old(self).ser_wf(),
        ensures
            final(self).ser_wf(),
            *final(self) == (DocBufSerializer { buffer: final(self).buffer, ..*old(self) }),
            match current_field_model(*old(self)) {
                None => res matches Err(DocBufError::VTable(_)) && final(self).buffer@ == old(self).buffer@,
                Some(f) => if f.field_type is Bytes {
                    if len < MAX_FIELD_SIZE {
                        res is Ok && final(self).buffer@ == old(self).buffer@ + spec_u32_to_le_bytes(len as u32)
                    } else {
                        res is Err && final(self).buffer@ == old(self).buffer@
                    }
                } else {
                    res is Ok && final(self).buffer@ == old(self).buffer@
                },
            },
    {
        let field = match self.current_field_copy() {
            Ok(f) => f,
            Err(e) => return Err(e),
        };
        match field.field_type {
            crate::field_type::VTableFieldType::Bytes => match field.encode_array_start(len, &mut self.buffer) {
                Ok(()) => Ok(()),
                Err(e) => Err(DocBufError::VTable(e)),
            },
            _ => Ok(()),
        }
    }
}


impl<'a> DocBufSerializer<'a> {
    /// Whether `set_field` ends for `field_name`: false where the struct
    /// being written lacks the field and so do all the structs left before,
    /// of which there is at least one.
    pub fn can_set_field(&self, field_name: &str) -> (r: bool)
        requires
            self.ser_wf(),
        ensures
            r == (self.current_item matches Some(p) && lacks_name(struct_at(self.vtable@, p as int), field_name@)
                && self.previous_items@.len() > 0 ==> exists|k: int|
                first_holding(self.vtable@, self.previous_items@, field_name@, k)),
    {
        let p = match self.current_item {
            Some(p) => p,
            None => return true,
        };
        if self.struct_at_pos(p).field_by_name(field_name).is_ok() {
            return true;
        }
        let n = self.previous_items.len();
        if n == 0 {
            return true;
        }
        let ghost vt = self.vtable@;
        let ghost prev = self.previous_items@;
        for k in 0..n
            invariant
                n == prev.len(),
                prev == self.previous_items@,
                vt == self.vtable@,
                self.ser_wf(),
                forall|i: int| 0 <= i < k ==> lacks_name(struct_at(vt, prev[i] as int), field_name@),
        {
            let q = self.previous_items[k];
            if self.struct_at_pos(q).field_by_name(field_name).is_ok() {
                assert(first_holding(vt, prev, field_name@, k as int));
                return true;
            }
        }
        proof {
            if exists|k: int| first_holding(vt, prev, field_name@, k) {
                let k = choose|k: int| first_holding(vt, prev, field_name@, k);
                assert(lacks_name(struct_at(vt, prev[k] as int), field_name@));
            }
        }
        false
    }
}

} // verus!
