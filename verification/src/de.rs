//! The state of a deserializer that reads a document from a buffer, field by
//! field, following the vtable: which struct and field come next, which were
//! read, and how many elements of a sequence are left.
use vstd::prelude::*;
use vstd::bytes::spec_u32_from_le_bytes;
use std::collections::HashSet;
use crate::bytes::{read_u32_le, take_front};
use crate::error::Error;
use crate::field::{FieldModel, VTableField};
use crate::field_type::{FieldTypeModel, VTableFieldType};
use crate::item::VTableItem;
use crate::ser::{struct_at, DocBufError};
use crate::structs::{is_first_with_field_index, StructModel};
use crate::table::{is_first_item_named, is_first_item_with_index, no_struct_found, VTable, VTableModel};

verus! {

/// Model of the deserializer's state.
pub struct DeModel {
    pub current_item_index: u8,
    pub current_field_index: u8,
    pub current_item: Option<usize>,
    pub current_field: Option<FieldModel>,
    /// The (item, field) indexes read so far.
    pub visited: Set<(u8, u8)>,
    pub has_descended: bool,
    pub remaining_items: Option<u32>,
    pub buffer: Seq<u8>,
}

/// The deserializer: the vtable it follows, the bytes left to read, and
/// where it is in the vtable. Items are named by their position in the vtable.
pub struct DocBufDeserializer<'a> {
    pub vtable: &'a VTable,
    pub buffer: Vec<u8>,
    pub current_item_index: u8,
    pub current_field_index: u8,
    /// Position of the struct being read, once known.
    pub current_item: Option<usize>,
    /// The field being read, once known.
    pub current_field: Option<VTableField>,
    /// The (item, field) indexes read so far, each as one number: the
    /// item index times 256 plus the field index.
    pub has_visited: HashSet<u16>,
    pub has_descended: bool,
    /// Elements left of the sequence or map being read.
    pub remaining_items: Option<u32>,
}

impl<'a> View for DocBufDeserializer<'a> {
    type V = DeModel;

    open spec fn view(&self) -> DeModel {
        DeModel {
            current_item_index: self.current_item_index,
            current_field_index: self.current_field_index,
            current_item: self.current_item,
            current_field: match self.current_field {
                Some(f) => Some(f@),
                None => None,
            },
            visited: visited_pairs(self.has_visited@),
            has_descended: self.has_descended,
            remaining_items: self.remaining_items,
            buffer: self.buffer@,
        }
    }
}

/// The number that stands for the (item, field) index pair `p`.
pub open spec fn visit_key(p: (u8, u8)) -> u16 {
    (p.0 as int * 256 + p.1 as int) as u16
}

/// The index pairs that the numbers of `s` stand for.
pub open spec fn visited_pairs(s: Set<u16>) -> Set<(u8, u8)> {
    Set::new(|p: (u8, u8)| s.contains(visit_key(p)))
}

/// `v` with `x` added.
pub open spec fn visited_after(v: Set<(u8, u8)>, x: (u8, u8)) -> Set<(u8, u8)> {
    v.insert(x)
}

/// Two index pairs with the same number are the same pair.
pub proof fn lemma_visit_key_injective(p: (u8, u8), q: (u8, u8))
    ensures
        visit_key(p) == visit_key(q) ==> p == q,
{
    let a = p.0 as int * 256 + p.1 as int;
    let b = q.0 as int * 256 + q.1 as int;
    assert(0 <= a <= 65535 && 0 <= b <= 65535);
    assert(a as u16 == a && b as u16 == b);
    if a == b {
        assert(p.0 == q.0);
        assert(p.1 == q.1);
    }
}

/// Position of the first struct with item index `ci`, where `ci` is below
/// the number of items.
pub open spec fn item_pos(vt: VTableModel, ci: u8) -> Option<int> {
    if ci < vt.items.len() && exists|i: int| is_first_item_with_index(vt.items, ci, i) {
        Some(choose|i: int| is_first_item_with_index(vt.items, ci, i))
    } else {
        None
    }
}

/// Position of the first field of `s` with index `cf`.
pub open spec fn field_pos(s: StructModel, cf: u8) -> Option<int> {
    if exists|i: int| is_first_with_field_index(s.fields, cf, i) {
        Some(choose|i: int| is_first_with_field_index(s.fields, cf, i))
    } else {
        None
    }
}

/// Item index of the first struct named `name`.
pub open spec fn index_named(vt: VTableModel, name: Seq<char>) -> Option<u8> {
    if exists|i: int| is_first_item_named(vt.items, name, i) {
        Some(struct_at(vt, choose|i: int| is_first_item_named(vt.items, name, i)).item_index)
    } else {
        None
    }
}

proof fn lemma_item_pos(vt: VTableModel, ci: u8, i: int)
    requires
        ci < vt.items.len(),
        is_first_item_with_index(vt.items, ci, i),
    ensures
        item_pos(vt, ci) == Some(i),
{
    let k = choose|k: int| is_first_item_with_index(vt.items, ci, k);
    if k < i {
        assert(vt.items[k].struct_of().item_index != ci);
    } else if i < k {
        assert(vt.items[i].struct_of().item_index != ci);
    }
}

proof fn lemma_no_item_pos(vt: VTableModel, ci: u8)
    requires
        no_struct_found(vt.items, ci),
    ensures
        item_pos(vt, ci) is None,
{
    if ci < vt.items.len() && exists|i: int| is_first_item_with_index(vt.items, ci, i) {
        let i = choose|i: int| is_first_item_with_index(vt.items, ci, i);
        assert(vt.items[i].struct_of().item_index == ci);
    }
}

proof fn lemma_field_pos(s: StructModel, cf: u8, i: int)
    requires
        is_first_with_field_index(s.fields, cf, i),
    ensures
        field_pos(s, cf) == Some(i),
{
    let k = choose|k: int| is_first_with_field_index(s.fields, cf, k);
    if k < i {
        assert(s.fields[k].index != cf);
    } else if i < k {
        assert(s.fields[i].index != cf);
    }
}

proof fn lemma_index_named(vt: VTableModel, name: Seq<char>, i: int)
    requires
        is_first_item_named(vt.items, name, i),
    ensures
        index_named(vt, name) == Some(struct_at(vt, i).item_index),
{
    let k = choose|k: int| is_first_item_named(vt.items, name, k);
    if k < i {
        assert(vt.items[k].struct_of().name != name);
    } else if i < k {
        assert(vt.items[i].struct_of().name != name);
    }
}

/// The first (item `ci`, field) index at or after field `cf` that was not
/// read, among the `n` fields of item `ci`; past the last field, the first
/// field of the next item. None where `n` is zero or the item index would
/// pass 255.
pub open spec fn skip_visited(visited: Set<(u8, u8)>, ci: u8, cf: u8, n: u8) -> Option<(u8, u8)>
    decreases 255 - cf,
{
    if !visited.contains((ci, cf)) {
        Some((ci, cf))
    } else if n == 0 {
        None
    } else if cf < n - 1 {
        skip_visited(visited, ci, (cf + 1) as u8, n)
    } else if ci == 255 {
        None
    } else {
        Some(((ci + 1) as u8, 0u8))
    }
}

/// `m` at field `cf` of item `ci`, with nothing cached.
pub open spec fn moved_to(m: DeModel, ci: u8, cf: u8) -> DeModel {
    DeModel { current_item_index: ci, current_field_index: cf, current_item: None, current_field: None, ..m }
}

/// The count of elements left after the last field of a struct was read:
/// one less, and none once it reaches zero.
pub open spec fn count_down(r: Option<u32>) -> Option<u32> {
    match r {
        Some(k) => if k > 0 {
            if k == 1 {
                None
            } else {
                Some((k - 1) as u32)
            }
        } else {
            Some(k)
        },
        None => None,
    }
}

/// The struct named inside an `Option` or `Vec` field type.
pub open spec fn inner_struct(t: FieldTypeModel) -> Option<Seq<char>> {
    match t {
        FieldTypeModel::Option(x) => match *x {
            FieldTypeModel::Struct(n) => Some(n),
            _ => None,
        },
        FieldTypeModel::Vec(x) => match *x {
            FieldTypeModel::Struct(n) => Some(n),
            _ => None,
        },
        _ => None,
    }
}

/// Item index of the struct named inside an `Option` or `Vec` field type.
pub open spec fn struct_target(vt: VTableModel, t: FieldTypeModel) -> Option<u8> {
    match inner_struct(t) {
        Some(name) => index_named(vt, name),
        None => None,
    }
}

/// Where the deserializer goes after the field of type `t` at (`m.ci`,
/// `m.cf`) of the struct `s` was read; `m` already marks the field read and
/// counts the elements down. None where the step would overflow.
pub open spec fn step_after(vt: VTableModel, num_items: u8, s: StructModel, t: FieldTypeModel, m: DeModel) -> Option<(DeModel, Option<Error>)> {
    let ci = m.current_item_index;
    let cf = m.current_field_index;
    if t is Struct && !m.has_descended {
        if ci == 0 {
            None
        } else {
            Some((moved_to(m, (ci - 1) as u8, 0), None))
        }
    } else if t is Option && struct_target(vt, t) is Some {
        Some((moved_to(m, struct_target(vt, t).unwrap(), 0), None))
    } else if t is Vec && m.remaining_items is None {
        Some((m, None))
    } else if t is Vec && struct_target(vt, t) is Some {
        Some((moved_to(m, struct_target(vt, t).unwrap(), 0), None))
    } else if cf < s.num_fields - 1 {
        Some((DeModel { current_field_index: (cf + 1) as u8, current_field: None, ..m }, None))
    } else if ci > 0 && !m.has_descended {
        Some((moved_to(m, (ci - 1) as u8, 0), None))
    } else if ci == 0 && cf == s.num_fields - 1 && !m.has_descended && num_items == 0 {
        None
    } else if ci == 0 && cf == s.num_fields - 1 && !m.has_descended && ci < num_items - 1 {
        let d = DeModel { has_descended: true, ..m };
        if d.visited.contains((1u8, 0u8)) && item_pos(vt, 1) is None {
            Some((DeModel { current_item_index: 1, current_field_index: 0, ..d }, Some(Error::ItemNotFound)))
        } else {
            let n = if item_pos(vt, 1) is Some {
                struct_at(vt, item_pos(vt, 1).unwrap()).num_fields
            } else {
                0u8
            };
            match skip_visited(d.visited, 1, 0, n) {
                Some((i, f)) => Some((moved_to(d, i, f), None)),
                None => None,
            }
        }
    } else {
        Some((m, None))
    }
}

/// One step of the deserializer after a field was read: the field is marked
/// read, and the next field is found (see `step_after`). The error is the
/// lookup that failed. None where the step would overflow.
pub open spec fn next_field_model(vt: VTableModel, num_items: u8, m: DeModel) -> Option<(DeModel, Option<Error>)> {
    let m1 = DeModel {
        visited: visited_after(m.visited, (m.current_item_index, m.current_field_index)),
        ..m
    };
    let pos = match m.current_item {
        Some(p) => Some(p as int),
        None => item_pos(vt, m.current_item_index),
    };
    match pos {
        None => Some((m1, Some(Error::ItemNotFound))),
        Some(p) => {
            let s = struct_at(vt, p);
            if s.num_fields == 0 {
                None
            } else {
                let m2 = DeModel {
                    current_item: Some(p as usize),
                    remaining_items: if m.current_field_index == s.num_fields - 1 {
                        count_down(m.remaining_items)
                    } else {
                        m.remaining_items
                    },
                    ..m1
                };
                match field_pos(s, m.current_field_index) {
                    None => Some((m2, Some(Error::FieldNotFound))),
                    Some(fi) => step_after(vt, num_items, s, s.fields[fi].field_type, m2),
                }
            }
        },
    }
}

/// The count of elements of the field of type `t` that starts at the front
/// of `b`, and the bytes left after it; None where the bytes are too few
/// or the count would drop below zero.
pub open spec fn remaining_after(t: FieldTypeModel, r: Option<u32>, b: Seq<u8>) -> Option<(Option<u32>, Seq<u8>)> {
    if b.len() == 0 {
        Some((Some(0u32), b))
    } else {
        match r {
            None => if t is Uuid {
                Some((Some(15u32), b))
            } else if t is Bytes || t is Vec || t is HashMap {
                if b.len() < 4 {
                    None
                } else {
                    let n = spec_u32_from_le_bytes(b.subrange(0, 4));
                    if t is Bytes {
                        if n == 0 {
                            None
                        } else {
                            Some((Some((n - 1) as u32), b.subrange(4, b.len() as int)))
                        }
                    } else {
                        Some((Some(n), b.subrange(4, b.len() as int)))
                    }
                }
            } else {
                Some((None, b))
            },
            Some(n) => if n == 0 {
                None
            } else if n == 1 {
                Some((None, b))
            } else {
                Some((Some((n - 1) as u32), b))
            },
        }
    }
}

impl<'a> DocBufDeserializer<'a> {
    /// Every position the deserializer holds is a position of the vtable.
    pub open spec fn de_wf(&self) -> bool {
        self.current_item matches Some(p) ==> p < self.vtable@.items.len()
    }

    /// A deserializer at the start of the vtable, reading `buffer`.
    pub fn new(vtable: &'a VTable, buffer: Vec<u8>) -> (res: Result<Self, DocBufError>)
        ensures
            res matches Ok(d) && d.de_wf() && d.vtable == vtable && d@ == (DeModel {
                current_item_index: 0,
                current_field_index: 0,
                current_item: None,
                current_field: None,
                visited: Set::empty(),
                has_descended: false,
                remaining_items: None,
                buffer: buffer@,
            }),
    {
        let cap = vtable.num_fields as usize;
        let has_visited: HashSet<u16> = HashSet::with_capacity(cap);
        assert(visited_pairs(has_visited@) =~= Set::<(u8, u8)>::empty());
        Ok(DocBufDeserializer {
            vtable,
            buffer,
            current_item_index: 0,
            current_field_index: 0,
            current_item: None,
            current_field: None,
            has_visited,
            has_descended: false,
            remaining_items: None,
        })
    }

    /// Marks the current field as read.
    pub fn set_visited_current_field(&mut self)
        ensures
            final(self).vtable == old(self).vtable,
            final(self)@ == (DeModel {
                visited: visited_after(old(self)@.visited, (old(self).current_item_index, old(self).current_field_index)),
                ..old(self)@
            }),
            final(self).de_wf() == old(self).de_wf(),
    {
        broadcast use vstd::std_specs::hash::group_hash_axioms;
        let x = (self.current_item_index, self.current_field_index);
        let key: u16 = x.0 as u16 * 256 + x.1 as u16;
        assert(key == visit_key(x));
        let ghost before = self.has_visited@;
        self.has_visited.insert(key);
        proof {
            assert(visited_pairs(self.has_visited@) =~= visited_pairs(before).insert(x)) by {
                assert forall|p: (u8, u8)| #[trigger] visited_pairs(self.has_visited@).contains(p)
                    == visited_pairs(before).insert(x).contains(p) by {
                    lemma_visit_key_injective(p, x);
                }
            }
        }
    }

    /// Whether field `field_index` of item `item_index` was read.
    pub fn is_field_visited(&self, item_index: u8, field_index: u8) -> (r: bool)
        ensures
            r == self@.visited.contains((item_index, field_index)),
    {
        broadcast use vstd::std_specs::hash::group_hash_axioms;
        let key: u16 = item_index as u16 * 256 + field_index as u16;
        assert(key == visit_key((item_index, field_index)));
        self.has_visited.contains(&key)
    }

    /// Position of the struct with the current item index, cached.
    pub fn set_current_item(&mut self) -> (res: Result<usize, DocBufError>)
        ensures
            final(self).vtable == old(self).vtable,
            match item_pos(old(self).vtable@, old(self).current_item_index) {
                Some(p) => res matches Ok(r) && r as int == p && final(self)@ == (DeModel {
                    current_item: Some(r),
                    ..old(self)@
                }) && final(self).de_wf(),
                None => res matches Err(DocBufError::VTable(e)) && e is ItemNotFound && final(self)@ == old(self)@
                    && final(self).current_item == old(self).current_item,
            },
    {
        match self.vtable.find_struct(self.current_item_index) {
            Some(p) => {
                proof {
                    lemma_item_pos(self.vtable@, self.current_item_index, p as int);
                }
                self.current_item = Some(p);
                Ok(p)
            },
            None => {
                proof {
                    lemma_no_item_pos(self.vtable@, self.current_item_index);
                }
                Err(DocBufError::VTable(Error::ItemNotFound))
            },
        }
    }

    /// Position of the struct being read: the cached one, else the one with
    /// the current item index (then cached).
    pub fn current_item(&mut self) -> (res: Result<usize, DocBufError>)
        requires
            old(self).de_wf(),
        ensures
            final(self).vtable == old(self).vtable,
            final(self).de_wf(),
            match old(self).current_item {
                Some(p) => res == Ok::<usize, DocBufError>(p) && final(self)@ == old(self)@,
                None => match item_pos(old(self).vtable@, old(self).current_item_index) {
                    Some(p) => res matches Ok(r) && r as int == p && final(self)@ == (DeModel {
                        current_item: Some(r),
                        ..old(self)@
                    }),
                    None => res matches Err(DocBufError::VTable(e)) && e is ItemNotFound && final(self)@ == old(self)@,
                },
            },
    {
        match self.current_item {
            Some(p) => Ok(p),
            None => self.set_current_item(),
        }
    }

    /// The struct at position `p` of the vtable.
    fn struct_at_pos(&self, p: usize) -> (s: &'a crate::structs::VTableStruct)
        requires
            p < self.vtable@.items.len(),
        ensures
            s@ == struct_at(self.vtable@, p as int),
    {
        let vt: &'a VTable = self.vtable;
        match &vt.items.0[p] {
            VTableItem::Struct(s) => s,
        }
    }

    /// The field with the current indexes, looked up and cached.
    pub fn set_current_field(&mut self) -> (res: Result<VTableField, DocBufError>)
        ensures
            final(self).vtable == old(self).vtable,
            final(self).de_wf() == old(self).de_wf(),
            match item_pos(old(self).vtable@, old(self).current_item_index) {
                None => res matches Err(DocBufError::VTable(e)) && e is StructNotFound && final(self)@ == old(self)@,
                Some(p) => match field_pos(struct_at(old(self).vtable@, p), old(self).current_field_index) {
                    None => res matches Err(DocBufError::VTable(e)) && e is FieldNotFound && final(self)@ == old(self)@,
                    Some(i) => res matches Ok(f) && f@ == struct_at(old(self).vtable@, p).fields[i]
                        && final(self)@ == (DeModel { current_field: Some(f@), ..old(self)@ }),
                },
            },
    {
        let p = match self.vtable.find_struct(self.current_item_index) {
            Some(p) => p,
            None => {
                proof {
                    lemma_no_item_pos(self.vtable@, self.current_item_index);
                }
                return Err(DocBufError::VTable(Error::StructNotFound));
            },
        };
        proof {
            lemma_item_pos(self.vtable@, self.current_item_index, p as int);
        }
        let s = self.struct_at_pos(p);
        match s.field_by_index(&self.current_field_index) {
            Ok(f) => {
                proof {
                    let i = choose|i: int| is_first_with_field_index(s@.fields, self.current_field_index, i) && f@ == s@.fields[i];
                    lemma_field_pos(s@, self.current_field_index, i);
                }
                self.current_field = Some(f.duplicate());
                Ok(f.duplicate())
            },
            Err(e) => Err(DocBufError::VTable(e)),
        }
    }

    /// The field being read: the cached one, else the one with the current
    /// indexes (then cached).
    pub fn current_field(&mut self) -> (res: Result<VTableField, DocBufError>)
        ensures
            final(self).vtable == old(self).vtable,
            final(self).de_wf() == old(self).de_wf(),
            match old(self).current_field {
                Some(f) => res matches Ok(x) && x@ == f@ && final(self)@ == old(self)@,
                None => match item_pos(old(self).vtable@, old(self).current_item_index) {
                    None => res matches Err(DocBufError::VTable(e)) && e is StructNotFound && final(self)@ == old(self)@,
                    Some(p) => match field_pos(struct_at(old(self).vtable@, p), old(self).current_field_index) {
                        None => res matches Err(DocBufError::VTable(e)) && e is FieldNotFound && final(self)@ == old(self)@,
                        Some(i) => res matches Ok(f) && f@ == struct_at(old(self).vtable@, p).fields[i]
                            && final(self)@ == (DeModel { current_field: Some(f@), ..old(self)@ }),
                    },
                },
            },
    {
        match &self.current_field {
            Some(f) => Ok(f.duplicate()),
            None => self.set_current_field(),
        }
    }

    /// Sets the count of elements left for a field of type `field_type`: an
    /// empty buffer has none left; a uuid has 15 more bytes; a bytes, vector
    /// or map field starts with its count (one less for bytes), which is
    /// taken off the buffer; an ongoing count goes down by one.
    pub fn set_remaining_items(&mut self, field_type: &VTableFieldType) -> (res: Result<(), DocBufError>)
        requires
            remaining_after(field_type@, old(self).remaining_items, old(self).buffer@) is Some,
        ensures
            res is Ok,
            final(self).vtable == old(self).vtable,
            final(self).de_wf() == old(self).de_wf(),
            ({
                let (r, b) = remaining_after(field_type@, old(self).remaining_items, old(self).buffer@).unwrap();
                final(self)@ == (DeModel { remaining_items: r, buffer: b, ..old(self)@ })
            }),
    {
        if self.buffer.len() == 0 {
            self.remaining_items = Some(0);
            return Ok(());
        }
        match self.remaining_items {
            None => match field_type {
                VTableFieldType::Uuid => {
                    self.remaining_items = Some(15);
                },
                VTableFieldType::Bytes => {
                    let n = read_u32_le(self.buffer.as_slice(), 0);
                    let _ = take_front(&mut self.buffer, 4);
                    self.remaining_items = Some(n - 1);
                },
                VTableFieldType::Vec(_) | VTableFieldType::HashMap { .. } => {
                    let n = read_u32_le(self.buffer.as_slice(), 0);
                    let _ = take_front(&mut self.buffer, 4);
                    self.remaining_items = Some(n);
                },
                _ => {},
            },
            Some(n) => {
                if n == 1 {
                    self.remaining_items = None;
                } else {
                    self.remaining_items = Some(n - 1);
                }
            },
        }
        Ok(())
    }
}


/// What the next key of a map comes to.
#[derive(Debug, Clone, Copy, PartialEq, Eq, Structural)]
pub enum MapKeyStep {
    /// The buffer is used up: there are no more entries.
    NoMore,
    /// The map's count reached zero: the map ends, and the reader moves on
    /// to the next field.
    MapEnd,
    /// A key follows.
    Key,
}

/// The step before the next key of a map, from the field's type, the count
/// left and the buffer: an empty buffer has no more entries; for a map
/// field, a count not yet read is taken off the front (four little-endian
/// bytes), and a count of zero ends the map and clears the count.
pub open spec fn map_key_model(t: FieldTypeModel, r: Option<u32>, b: Seq<u8>) -> (MapKeyStep, Option<u32>, Seq<u8>) {
    if b.len() == 0 {
        (MapKeyStep::NoMore, r, b)
    } else if t is HashMap {
        match r {
            None => (MapKeyStep::Key, Some(spec_u32_from_le_bytes(b.subrange(0, 4))), b.subrange(4, b.len() as int)),
            Some(n) => if n == 0 {
                (MapKeyStep::MapEnd, None, b)
            } else {
                (MapKeyStep::Key, r, b)
            },
        }
    } else {
        (MapKeyStep::Key, r, b)
    }
}

/// The count left after a map or vector value is read: one less, where a
/// count is kept.
pub open spec fn count_after_value(t: FieldTypeModel, r: Option<u32>) -> Option<u32> {
    if t is HashMap || t is Vec {
        match r {
            Some(n) => Some((n - 1) as u32),
            None => None,
        }
    } else {
        r
    }
}

impl<'a> DocBufDeserializer<'a> {
    /// The step before the next key of a map field of type `field_type`
    /// (see `map_key_model`). On `MapEnd` the caller moves to the next
    /// field.
    pub fn map_key_step(&mut self, field_type: &VTableFieldType) -> (r: MapKeyStep)
        requires
            old(self).buffer@.len() > 0 && field_type@ is HashMap && old(self).remaining_items is None
                ==> old(self).buffer@.len() >= 4,
        ensures
            final(self).vtable == old(self).vtable,
            final(self).de_wf() == old(self).de_wf(),
            ({
                let (step, rem, b) = map_key_model(field_type@, old(self).remaining_items, old(self).buffer@);
                &&& r == step
                &&& final(self)@ == (DeModel { remaining_items: rem, buffer: b, ..old(self)@ })
            }),
    {
        if self.buffer.len() == 0 {
            return MapKeyStep::NoMore;
        }
        match field_type {
            VTableFieldType::HashMap { .. } => match self.remaining_items {
                None => {
                    let n = read_u32_le(self.buffer.as_slice(), 0);
                    let _ = take_front(&mut self.buffer, 4);
                    self.remaining_items = Some(n);
                    MapKeyStep::Key
                },
                Some(n) => {
                    if n == 0 {
                        self.remaining_items = None;
                        MapKeyStep::MapEnd
                    } else {
                        MapKeyStep::Key
                    }
                },
            },
            _ => MapKeyStep::Key,
        }
    }

    /// Counts one value of a map or vector field of type `field_type` as
    /// read (see `count_after_value`).
    pub fn map_value_read(&mut self, field_type: &VTableFieldType)
        requires
            (field_type@ is HashMap || field_type@ is Vec) ==> old(self).remaining_items != Some(0u32),
        ensures
            final(self).vtable == old(self).vtable,
            final(self).de_wf() == old(self).de_wf(),
            final(self)@ == (DeModel {
                remaining_items: count_after_value(field_type@, old(self).remaining_items),
                ..old(self)@
            }),
    {
        match field_type {
            VTableFieldType::HashMap { .. } | VTableFieldType::Vec(_) => {
                if let Some(n) = self.remaining_items {
                    self.remaining_items = Some(n - 1);
                }
            },
            _ => {},
        }
    }
}

impl<'a> DocBufDeserializer<'a> {
    /// Moves to field `cf` of item `ci`, with nothing cached.
    fn move_to(&mut self, ci: u8, cf: u8)
        ensures
            final(self).vtable == old(self).vtable,
            final(self).de_wf(),
            final(self)@ == moved_to(old(self)@, ci, cf),
    {
        self.current_item_index = ci;
        self.current_field_index = cf;
        self.current_item = None;
        self.current_field = None;
    }

    /// Item index of the struct named inside an `Option` or `Vec` type.
    fn target_of(&self, t: &VTableFieldType) -> (r: Option<u8>)
        ensures
            r == struct_target(self.vtable@, t@),
    {
        let inner = match t {
            VTableFieldType::Option(x) => x,
            VTableFieldType::Vec(x) => x,
            _ => return None,
        };
        proof {
            assert(inner_struct(t@) == match (**inner)@ {
                FieldTypeModel::Struct(n) => Some(n),
                _ => None,
            });
        }
        match &**inner {
            VTableFieldType::Struct(name) => {
                assert((**inner)@ == FieldTypeModel::Struct(name@));
                let r = self.vtable.get_struct_item_index_by_name(name.as_str());
                proof {
                    if r is Some {
                        let i = choose|i: int|
                            is_first_item_named(self.vtable@.items, name@, i) && self.vtable@.items[i].struct_of().item_index == r.unwrap();
                        lemma_index_named(self.vtable@, name@, i);
                    } else {
                        if exists|i: int| is_first_item_named(self.vtable@.items, name@, i) {
                            let i = choose|i: int| is_first_item_named(self.vtable@.items, name@, i);
                            assert(self.vtable@.items[i].struct_of().name == name@);
                        }
                    }
                }
                r
            },
            _ => {
                assert(!((**inner)@ is Struct));
                None
            },
        }
    }

    /// Marks the current field as read and moves to the field to read next:
    /// into the struct a struct field holds, out to the enclosing struct at
    /// the end of a nested one, through the elements of a sequence, and once
    /// the root struct is done, down to the first field not yet read.
    pub fn next_field(&mut self) -> (res: Result<(), DocBufError>)
        requires
            old(self).de_wf(),
            next_field_model(old(self).vtable@, old(self).vtable.num_items, old(self)@) is Some,
        ensures
            final(self).de_wf(),
            final(self).vtable == old(self).vtable,
            ({
                let (m, e) = next_field_model(old(self).vtable@, old(self).vtable.num_items, old(self)@).unwrap();
                &&& final(self)@ == m
                &&& match e {
                    None => res is Ok,
                    Some(e) => res == Err::<(), DocBufError>(DocBufError::VTable(e)),
                }
            }),
    {
        let ghost m0 = self@;
        let ghost vt = self.vtable@;
        self.set_visited_current_field();
        let p = match self.current_item() {
            Ok(p) => p,
            Err(e) => return Err(e),
        };
        let s = self.struct_at_pos(p);
        let nf = s.num_fields;
        let ci = self.current_item_index;
        let cf = self.current_field_index;
        proof {
            let pos = match m0.current_item {
                Some(q) => Some(q as int),
                None => item_pos(vt, m0.current_item_index),
            };
            assert(pos == Some(p as int));
            assert(s@ == struct_at(vt, p as int));
            assert(struct_at(vt, p as int).num_fields != 0);
        }
        if cf == nf - 1 {
            match self.remaining_items {
                Some(k) => {
                    if k > 0 {
                        if k == 1 {
                            self.remaining_items = None;
                        } else {
                            self.remaining_items = Some(k - 1);
                        }
                    }
                },
                None => {},
            }
        }
        let field = match s.field_by_index(&cf) {
            Ok(f) => f,
            Err(e) => {
                proof {
                    if exists|i: int| is_first_with_field_index(s@.fields, cf, i) {
                        let i = choose|i: int| is_first_with_field_index(s@.fields, cf, i);
                        assert(s@.fields[i].index == cf);
                    }
                }
                return Err(DocBufError::VTable(e));
            },
        };
        proof {
            let i = choose|i: int| is_first_with_field_index(s@.fields, cf, i) && field@ == s@.fields[i];
            lemma_field_pos(s@, cf, i);
        }
        if let VTableFieldType::Struct(_) = &field.field_type {
            if !self.has_descended {
                self.move_to(ci - 1, 0);
                return Ok(());
            }
        }
        if let VTableFieldType::Option(_) = &field.field_type {
            if let Some(idx) = self.target_of(&field.field_type) {
                self.move_to(idx, 0);
                return Ok(());
            }
        }
        if let VTableFieldType::Vec(_) = &field.field_type {
            if self.remaining_items.is_none() {
                return Ok(());
            }
            if let Some(idx) = self.target_of(&field.field_type) {
                self.move_to(idx, 0);
                return Ok(());
            }
        }
        if cf < nf - 1 {
            self.current_field_index = cf + 1;
            self.current_field = None;
        } else if ci > 0 && !self.has_descended {
            self.move_to(ci - 1, 0);
        } else if ci == 0 && cf == nf - 1 && !self.has_descended && ci < self.vtable.num_items - 1 {
            self.has_descended = true;
            self.current_item_index = 1;
            self.current_field_index = 0;
            if self.is_field_visited(1, 0) {
                let n = match self.vtable.num_fields_by_index(1) {
                    Ok(n) => n,
                    Err(e) => {
                        proof {
                            lemma_no_item_pos(vt, 1);
                        }
                        return Err(DocBufError::VTable(e));
                    },
                };
                proof {
                    let sx = choose|sx: StructModel| crate::table::found_struct(vt.items, 1, sx) && sx.num_fields == n;
                    let i = choose|i: int| is_first_item_with_index(vt.items, 1, i) && vt.items[i].struct_of() == sx;
                    lemma_item_pos(vt, 1, i);
                }
                let ghost vis = self@.visited;
                let ghost old_rem = self.remaining_items;
                let ghost old_buf = self.buffer@;
                let ghost target = skip_visited(vis, 1, 0, n);
                let mut f: u8 = 0;
                loop
                    invariant_except_break
                        self.current_item_index == 1,
                        self.current_field_index == f,
                        vis.contains((1u8, f)),
                        target == skip_visited(vis, 1, f, n),
                    invariant
                        self.vtable == old(self).vtable,
                        self.vtable@ == vt,
                        self@.visited == vis,
                        self.has_descended,
                        self.remaining_items == old_rem,
                        self.buffer@ == old_buf,
                        target is Some,
                    ensures
                        target == Some((self.current_item_index, self.current_field_index)),
                        self.vtable == old(self).vtable,
                        self.vtable@ == vt,
                        self@.visited == vis,
                        self.has_descended,
                        self.remaining_items == old_rem,
                        self.buffer@ == old_buf,
                    decreases 255 - f,
                {
                    if f < n - 1 {
                        f = f + 1;
                        self.current_field_index = f;
                        if !self.is_field_visited(1, f) {
                            break;
                        }
                    } else {
                        self.current_item_index = 2;
                        self.current_field_index = 0;
                        break;
                    }
                }
            }
            self.current_item = None;
            self.current_field = None;
        }
        Ok(())
    }
}


impl<'a> DocBufDeserializer<'a> {
    /// Whether `next_field` can take its step from the current state: false
    /// where the step would overflow a count or an index.
    #[verifier::loop_isolation(false)]
    pub fn next_field_defined(&self) -> (r: bool)
        requires
            self.de_wf(),
        ensures
            r == (next_field_model(self.vtable@, self.vtable.num_items, self@) is Some),
    {
        let ghost vt = self.vtable@;
        let p = match self.current_item {
            Some(p) => p,
            None => match self.vtable.find_struct(self.current_item_index) {
                Some(p) => {
                    proof {
                        lemma_item_pos(vt, self.current_item_index, p as int);
                    }
                    p
                },
                None => {
                    proof {
                        lemma_no_item_pos(vt, self.current_item_index);
                    }
                    return true;
                },
            },
        };
        let s = self.struct_at_pos(p);
        let nf = s.num_fields;
        if nf == 0 {
            return false;
        }
        let ci = self.current_item_index;
        let cf = self.current_field_index;
        let field = match s.field_by_index(&cf) {
            Ok(f) => f,
            Err(_) => {
                proof {
                    if exists|i: int| is_first_with_field_index(s@.fields, cf, i) {
                        let i = choose|i: int| is_first_with_field_index(s@.fields, cf, i);
                        assert(s@.fields[i].index == cf);
                    }
                }
                return true;
            },
        };
        proof {
            let i = choose|i: int| is_first_with_field_index(s@.fields, cf, i) && field@ == s@.fields[i];
            lemma_field_pos(s@, cf, i);
        }
        let rem = if cf == nf - 1 {
            match self.remaining_items {
                Some(k) => if k > 0 {
                    if k == 1 {
                        None
                    } else {
                        Some(k - 1)
                    }
                } else {
                    Some(k)
                },
                None => None,
            }
        } else {
            self.remaining_items
        };
        let t = &field.field_type;
        if let VTableFieldType::Struct(_) = t {
            if !self.has_descended {
                return ci != 0;
            }
        }
        if let VTableFieldType::Option(_) = t {
            if self.target_of(t).is_some() {
                return true;
            }
        }
        if let VTableFieldType::Vec(_) = t {
            if rem.is_none() {
                return true;
            }
            if self.target_of(t).is_some() {
                return true;
            }
        }
        if cf < nf - 1 {
            return true;
        }
        if ci > 0 && !self.has_descended {
            return true;
        }
        if ci == 0 && cf == nf - 1 && !self.has_descended {
            if self.vtable.num_items == 0 {
                return false;
            }
            if ci < self.vtable.num_items - 1 {
                let ghost vis = visited_after(self@.visited, (ci, cf));
                proof {
                    assert forall|f: u8| #![auto] vis.contains((1u8, f)) == self@.visited.contains((1u8, f)) by {
                    }
                }
                if !self.is_field_visited(1, 0) {
                    return true;
                }
                let n = match self.vtable.num_fields_by_index(1) {
                    Ok(n) => n,
                    Err(_) => {
                        proof {
                            lemma_no_item_pos(vt, 1);
                        }
                        return true;
                    },
                };
                proof {
                    let sx = choose|sx: StructModel| crate::table::found_struct(vt.items, 1, sx) && sx.num_fields == n;
                    let i = choose|i: int| is_first_item_with_index(vt.items, 1, i) && vt.items[i].struct_of() == sx;
                    lemma_item_pos(vt, 1, i);
                }
                if n == 0 {
                    return false;
                }
                let mut f: u8 = 0;
                while f < n - 1
                    invariant
                        n > 0,
                        f <= n - 1,
                        vis.contains((1u8, f)),
                        forall|g: u8| #![auto] vis.contains((1u8, g)) == self@.visited.contains((1u8, g)),
                        skip_visited(vis, 1, 0, n) == skip_visited(vis, 1, f, n),
                    decreases n - 1 - f,
                {
                    let ghost fo = f;
                    f = f + 1;
                    proof {
                        assert(skip_visited(vis, 1, fo, n) == skip_visited(vis, 1, f, n));
                        assert(vis.contains((1u8, f)) == self@.visited.contains((1u8, f)));
                    }
                    if !self.is_field_visited(1, f) {
                        return true;
                    }
                }
                return true;
            }
        }
        true
    }
}

} // verus!
