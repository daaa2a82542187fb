//! The fields of the vtable and their encoding.
use vstd::prelude::*;
use vstd::utf8::*;
use core::ops::Range;
use crate::bytes::{copy_range, extend_from_slice, lemma_join_at, lemma_split_at, take_front};
use crate::error::Error;
use crate::field_type::{FieldTypeModel, VTableFieldType};
use crate::offset::{VTableFieldOffset, VTableFieldOffsetIndex};
use crate::rules::{
    MAX_FIELD_SIZE,
    lemma_rules_roundtrip, parse_rules_at, rules_bytes, rules_roundtrip_ok, RulesModel,
    VTableFieldRules,
};
use crate::utf8_text::{lemma_utf8_roundtrip, str_eq, string_bytes, string_from_utf8};

verus! {

/// Maximum number of map entries.
pub const MAX_MAP_ENTRIES: usize = 16777216;

/// Number of bytes of the length prefix of variable-length field data.
pub const DEFAULT_FIELD_LENGTH_LE_BYTES: usize = 4;

/// Index of a field within its item.
pub type VTableFieldIndex = u8;

/// Name of a field.
pub type VTableFieldName = String;

/// Index of an item (a struct) within the vtable.
pub type VTableItemIndex = u8;

/// A field of a vtable item.
#[derive(Debug)]
pub struct VTableField {
    /// The index of the vtable item this field belongs to.
    pub item_index: VTableItemIndex,
    /// The type of the field.
    pub field_type: VTableFieldType,
    pub index: VTableFieldIndex,
    pub name: VTableFieldName,
    pub rules: VTableFieldRules,
}

/// Model of a field: strings taken by their characters.
pub struct FieldModel {
    pub item_index: u8,
    pub field_type: FieldTypeModel,
    pub index: u8,
    pub name: Seq<char>,
    pub rules: RulesModel,
}

impl View for VTableField {
    type V = FieldModel;

    open spec fn view(&self) -> FieldModel {
        FieldModel {
            item_index: self.item_index,
            field_type: self.field_type@,
            index: self.index,
            name: self.name@,
            rules: self.rules@,
        }
    }
}

/// A name as written in the buffer: one length byte, then its UTF-8 bytes.
pub open spec fn name_bytes(n: Seq<char>) -> Seq<u8> {
    seq![encode_utf8(n).len() as u8] + encode_utf8(n)
}

/// The bytes written after a type tag: the struct name of a struct type, the
/// key and value tags of a map type, nothing for the other types.
pub open spec fn type_extra_bytes(t: FieldTypeModel) -> Seq<u8> {
    match t {
        FieldTypeModel::Struct(n) => name_bytes(n),
        FieldTypeModel::HashMap { key, value } => seq![key.tag(), value.tag()],
        _ => Seq::empty(),
    }
}

/// Encoding of a field: item index, type tag, type extra bytes, field index,
/// name, rules.
pub open spec fn field_bytes(f: FieldModel) -> Seq<u8> {
    seq![f.item_index, f.field_type.tag()] + type_extra_bytes(f.field_type) + seq![f.index]
        + name_bytes(f.name) + rules_bytes(f.rules)
}

/// Reading a name at `p`.
pub open spec fn parse_name_at(b: Seq<u8>, p: int) -> Option<(Result<Seq<char>, Error>, int)> {
    if p < 0 || p >= b.len() {
        None
    } else {
        let n = b[p] as int;
        if p + 1 + n > b.len() {
            None
        } else {
            let text = b.subrange(p + 1, p + 1 + n);
            if valid_utf8(text) {
                Some((Ok(decode_utf8(text)), p + 1 + n))
            } else {
                Some((Err(Error::FromUtf8), p + 1 + n))
            }
        }
    }
}

/// Reading a field type at `p`: the tag, then the struct name or the map's
/// key and value tags.
pub open spec fn parse_type_at(b: Seq<u8>, p: int) -> Option<(Result<FieldTypeModel, Error>, int)> {
    if p < 0 || p >= b.len() {
        None
    } else {
        match FieldTypeModel::from_tag(b[p]) {
            None => Some((Err(Error::UnknownFieldType(b[p])), p + 1)),
            Some(FieldTypeModel::Struct(_)) => match parse_name_at(b, p + 1) {
                None => None,
                Some((Ok(n), q)) => Some((Ok(FieldTypeModel::Struct(n)), q)),
                Some((Err(e), q)) => Some((Err(e), q)),
            },
            Some(FieldTypeModel::HashMap { .. }) => if p + 1 >= b.len() {
                None
            } else {
                match FieldTypeModel::from_tag(b[p + 1]) {
                    None => Some((Err(Error::UnknownFieldType(b[p + 1])), p + 2)),
                    Some(key) => if p + 2 >= b.len() {
                        None
                    } else {
                        match FieldTypeModel::from_tag(b[p + 2]) {
                            None => Some((Err(Error::UnknownFieldType(b[p + 2])), p + 3)),
                            Some(value) => Some(
                                (
                                    Ok(
                                        FieldTypeModel::HashMap {
                                            key: Box::new(key),
                                            value: Box::new(value),
                                        },
                                    ),
                                    p + 3,
                                ),
                            ),
                        }
                    },
                }
            },
            Some(t) => Some((Ok(t), p + 1)),
        }
    }
}

/// Reading a field at `p`.
pub open spec fn parse_field_at(b: Seq<u8>, p: int) -> Option<(Result<FieldModel, Error>, int)> {
    if p < 0 || p >= b.len() {
        None
    } else {
        match parse_type_at(b, p + 1) {
            None => None,
            Some((Err(e), q)) => Some((Err(e), q)),
            Some((Ok(t), q)) => if q >= b.len() {
                None
            } else {
                match parse_name_at(b, q + 1) {
                    None => None,
                    Some((Err(e), q2)) => Some((Err(e), q2)),
                    Some((Ok(name), q2)) => match parse_rules_at(b, q2) {
                        None => None,
                        Some((Err(e), q3)) => Some((Err(e), q3)),
                        Some((Ok(rules), q3)) => Some(
                            (
                                Ok(
                                    FieldModel {
                                        item_index: b[p],
                                        field_type: t,
                                        index: b[q],
                                        name,
                                        rules,
                                    },
                                ),
                                q3,
                            ),
                        ),
                    },
                }
            },
        }
    }
}

/// A field type that reads back as itself: exact from its tag, a struct
/// whose name fits a length byte, or a map of tag-exact key and value types.
pub open spec fn type_roundtrip_ok(t: FieldTypeModel) -> bool {
    match t {
        FieldTypeModel::Struct(n) => encode_utf8(n).len() < 256,
        FieldTypeModel::HashMap { key, value } => key.is_tag_exact() && value.is_tag_exact(),
        _ => t.is_tag_exact(),
    }
}

/// A field that reads back as itself.
pub open spec fn field_roundtrip_ok(f: FieldModel) -> bool {
    &&& type_roundtrip_ok(f.field_type)
    &&& encode_utf8(f.name).len() < 256
    &&& rules_roundtrip_ok(f.rules)
}

/// Reading a name where its encoding stands gives the name back.
pub proof fn lemma_parse_name_of(n: Seq<char>, b: Seq<u8>, p: int)
    requires
        0 <= p,
        encode_utf8(n).len() < 256,
        p + name_bytes(n).len() <= b.len(),
        b.subrange(p, p + name_bytes(n).len()) == name_bytes(n),
    ensures
        parse_name_at(b, p) == Some((Ok::<Seq<char>, Error>(n), p + name_bytes(n).len())),
{
    lemma_utf8_roundtrip(n);
    let e = name_bytes(n);
    assert(b[p] == e[0]);
    lemma_split_at(b, p, seq![encode_utf8(n).len() as u8], encode_utf8(n));
}

/// Reading a type where its encoding stands gives the type back.
pub proof fn lemma_parse_type_of(t: FieldTypeModel, b: Seq<u8>, p: int)
    requires
        0 <= p,
        type_roundtrip_ok(t),
        p + 1 + type_extra_bytes(t).len() <= b.len(),
        b.subrange(p, p + 1 + type_extra_bytes(t).len()) == seq![t.tag()] + type_extra_bytes(t),
    ensures
        parse_type_at(b, p) == Some((Ok::<FieldTypeModel, Error>(t), p + 1 + type_extra_bytes(t).len())),
{
    lemma_split_at(b, p, seq![t.tag()], type_extra_bytes(t));
    assert(b[p] == (seq![t.tag()] + type_extra_bytes(t))[0]);
    match t {
        FieldTypeModel::Struct(n) => {
            lemma_parse_name_of(n, b, p + 1);
        },
        FieldTypeModel::HashMap { key, value } => {
            let x = type_extra_bytes(t);
            assert(b[p + 1] == x[0]);
            assert(b[p + 2] == x[1]);
        },
        _ => {},
    }
}

/// Reading an encoded field gives the field back (see `field_roundtrip_ok`).
#[verifier::spinoff_prover]
#[verifier::rlimit(40)]
pub proof fn lemma_field_roundtrip(f: FieldModel, b: Seq<u8>, p: int)
    requires
        0 <= p,
        field_roundtrip_ok(f),
        p + field_bytes(f).len() <= b.len(),
        b.subrange(p, p + field_bytes(f).len()) == field_bytes(f),
    ensures
        parse_field_at(b, p) == Some((Ok::<FieldModel, Error>(f), p + field_bytes(f).len())),
{
    let h = seq![f.item_index, f.field_type.tag()];
    let x = type_extra_bytes(f.field_type);
    let i = seq![f.index];
    let nb = name_bytes(f.name);
    let rb = rules_bytes(f.rules);
    lemma_split_at(b, p, h + x + i + nb, rb);
    lemma_split_at(b, p, h + x + i, nb);
    lemma_split_at(b, p, h + x, i);
    lemma_split_at(b, p, h, x);
    let q = p + 2 + x.len();
    assert(b[p] == f.item_index) by {
        assert(b.subrange(p, p + 2)[0] == b[p]);
    }
    assert(b.subrange(p + 1, p + 2) == seq![f.field_type.tag()]) by {
        assert(b.subrange(p, p + 2)[1] == b[p + 1]);
        assert(b.subrange(p + 1, p + 2) =~= seq![f.field_type.tag()]);
    }
    lemma_join_at(b, p + 1, seq![f.field_type.tag()], x);
    lemma_parse_type_of(f.field_type, b, p + 1);
    assert(b[q] == f.index) by {
        assert(b.subrange(q, q + 1)[0] == b[q]);
    }
    lemma_parse_name_of(f.name, b, q + 1);
    lemma_rules_roundtrip(f.rules, b, q + 1 + nb.len());
}

/// Reads a name at `pos`.
pub fn read_name_at(buf: &[u8], pos: usize) -> (r: (Result<String, Error>, usize))
    requires
        parse_name_at(buf@, pos as int) is Some,
    ensures
        ({
            let (expected, next) = parse_name_at(buf@, pos as int).unwrap();
            &&& r.1 == next
            &&& match (r.0, expected) {
                (Ok(s), Ok(m)) => s@ == m,
                (Err(e1), Err(e2)) => e1 == e2,
                _ => false,
            }
        }),
{
    let n = buf[pos] as usize;
    let text = copy_range(buf, pos + 1, pos + 1 + n);
    match string_from_utf8(text) {
        Some(s) => (Ok(s), pos + 1 + n),
        None => (Err(Error::FromUtf8), pos + 1 + n),
    }
}

/// Appends a name: one length byte, then its UTF-8 bytes.
pub fn write_name(buffer: &mut Vec<u8>, name: &String)
    ensures
        final(buffer)@ == old(buffer)@ + name_bytes(name@),
{
    let bytes = string_bytes(name);
    buffer.push(bytes.len() as u8);
    extend_from_slice(buffer, bytes.as_slice());
}

/// Reads a field type at `pos`.
pub fn read_type_at(buf: &[u8], pos: usize) -> (r: (Result<VTableFieldType, Error>, usize))
    requires
        parse_type_at(buf@, pos as int) is Some,
    ensures
        ({
            let (expected, next) = parse_type_at(buf@, pos as int).unwrap();
            &&& r.1 == next
            &&& match (r.0, expected) {
                (Ok(t), Ok(m)) => t@ == m,
                (Err(e1), Err(e2)) => e1 == e2,
                _ => false,
            }
        }),
{
    let t = match VTableFieldType::try_from_u8(buf[pos]) {
        Ok(t) => t,
        Err(e) => return (Err(e), pos + 1),
    };
    match t {
        VTableFieldType::Struct(_) => match read_name_at(buf, pos + 1) {
            (Ok(n), q) => (Ok(VTableFieldType::Struct(n)), q),
            (Err(e), q) => (Err(e), q),
        },
        VTableFieldType::HashMap { .. } => {
            let key = match VTableFieldType::try_from_u8(buf[pos + 1]) {
                Ok(k) => k,
                Err(e) => return (Err(e), pos + 2),
            };
            let value = match VTableFieldType::try_from_u8(buf[pos + 2]) {
                Ok(v) => v,
                Err(e) => return (Err(e), pos + 3),
            };
            (Ok(VTableFieldType::HashMap { key: Box::new(key), value: Box::new(value) }), pos + 3)
        },
        other => (Ok(other), pos + 1),
    }
}

impl VTableField {
    /// A field of item `item_index`, with the given type, index, name and rules.
    pub fn new(
        item_index: VTableItemIndex,
        field_type: VTableFieldType,
        index: VTableFieldIndex,
        name: VTableFieldName,
        rules: VTableFieldRules,
    ) -> (f: Self)
        ensures
            f.item_index == item_index,
            f.field_type == field_type,
            f.index == index,
            f.name == name,
            f.rules == rules,
    {
        Self { item_index, field_type, index, name, rules }
    }

    /// A copy of the field with the same model.
    pub fn duplicate(&self) -> (r: Self)
        ensures
            r@ == self@,
    {
        Self {
            item_index: self.item_index,
            field_type: self.field_type.duplicate(),
            index: self.index,
            name: self.name.clone(),
            rules: self.rules.duplicate(),
        }
    }

    /// The (item index, field index) pair of the field.
    pub fn offset_index(&self) -> (r: VTableFieldOffsetIndex)
        ensures
            r == (self.item_index, self.index),
    {
        (self.item_index, self.index)
    }

    /// The offset of this field's data over `range`.
    pub fn as_offset(&self, range: Range<usize>) -> (o: VTableFieldOffset)
        ensures
            o == VTableFieldOffset((self.item_index, self.index), range),
    {
        VTableFieldOffset((self.item_index, self.index), range)
    }

    /// Appends the encoding of the field.
    pub fn write_to_buffer(&self, buffer: &mut Vec<u8>) -> (res: Result<(), Error>)
        ensures
            res is Ok,
            final(buffer)@ == old(buffer)@ + field_bytes(self@),
    {
        let ghost start = buffer@;
        let ghost f = self@;
        buffer.push(self.item_index);
        buffer.push(self.field_type.as_u8());
        let ghost s0 = seq![f.item_index, f.field_type.tag()];
        assert(buffer@ == start + s0);
        match &self.field_type {
            VTableFieldType::Struct(name) => {
                write_name(buffer, name);
            },
            VTableFieldType::HashMap { key, value } => {
                buffer.push(key.as_u8());
                buffer.push(value.as_u8());
                assert(buffer@ =~= start + s0 + seq![key@.tag(), value@.tag()]);
            },
            _ => {
                assert(buffer@ =~= start + s0 + type_extra_bytes(f.field_type));
            },
        }
        let ghost s1 = s0 + type_extra_bytes(f.field_type);
        proof {
            vstd::seq_lib::lemma_concat_associative(start, s0, type_extra_bytes(f.field_type));
        }
        assert(buffer@ == start + s1);
        buffer.push(self.index);
        let ghost s2 = s1 + seq![f.index];
        assert(buffer@ =~= start + s2);
        write_name(buffer, &self.name);
        let ghost s3 = s2 + name_bytes(f.name);
        proof {
            vstd::seq_lib::lemma_concat_associative(start, s2, name_bytes(f.name));
        }
        let _ = self.rules.write_to_buffer(buffer);
        proof {
            vstd::seq_lib::lemma_concat_associative(start, s3, rules_bytes(f.rules));
        }
        Ok(())
    }

    /// Reads a field at `pos`; returns the outcome and the position after it.
    pub fn read_at(buf: &[u8], pos: usize) -> (r: (Result<Self, Error>, usize))
        requires
            parse_field_at(buf@, pos as int) is Some,
        ensures
            ({
                let (expected, next) = parse_field_at(buf@, pos as int).unwrap();
                &&& r.1 == next
                &&& r.1 <= buf@.len()
                &&& match (r.0, expected) {
                    (Ok(f), Ok(m)) => f@ == m,
                    (Err(e1), Err(e2)) => e1 == e2,
                    _ => false,
                }
            }),
    {
        let item_index = buf[pos];
        let (field_type, q) = match read_type_at(buf, pos + 1) {
            (Ok(t), q) => (t, q),
            (Err(e), q) => return (Err(e), q),
        };
        let index = buf[q];
        let (name, q2) = match read_name_at(buf, q + 1) {
            (Ok(n), q2) => (n, q2),
            (Err(e), q2) => return (Err(e), q2),
        };
        let (rules, q3) = match VTableFieldRules::read_at(buf, q2) {
            (Ok(r), q3) => (r, q3),
            (Err(e), q3) => return (Err(e), q3),
        };
        (Ok(Self { item_index, field_type, index, name, rules }), q3)
    }

    /// Removes an encoded field from the front of the buffer and returns it.
    pub fn read_from_buffer(buffer: &mut Vec<u8>) -> (res: Result<Self, Error>)
        requires
            parse_field_at(old(buffer)@, 0) is Some,
        ensures
            ({
                let (expected, next) = parse_field_at(old(buffer)@, 0).unwrap();
                &&& final(buffer)@ == old(buffer)@.subrange(next, old(buffer)@.len() as int)
                &&& match (res, expected) {
                    (Ok(f), Ok(m)) => f@ == m,
                    (Err(e1), Err(e2)) => e1 == e2,
                    _ => false,
                }
            }),
    {
        let (res, next) = Self::read_at(buffer.as_slice(), 0);
        let _ = take_front(buffer, next);
        res
    }

    /// Whether two fields are equal (strings compared by their characters).
    pub fn eq_field(&self, other: &Self) -> (r: bool)
        ensures
            r == (self@ == other@),
    {
        self.item_index == other.item_index && self.field_type.eq_type(&other.field_type)
            && self.index == other.index && self.name.eq(&other.name) && self.rules.eq_rules(
            &other.rules,
        )
    }
}

/// The fields of a vtable item.
#[derive(Debug)]
pub struct VTableFields(pub Vec<VTableField>);

/// Whether field `i` of `s` is the first named `name`.
pub open spec fn is_first_named(s: Seq<FieldModel>, name: Seq<char>, i: int) -> bool {
    &&& 0 <= i < s.len()
    &&& s[i].name == name
    &&& forall|j: int| 0 <= j < i ==> s[j].name != name
}

/// Whether field `i` of `s` is the first with the given item and field index.
pub open spec fn is_first_indexed(s: Seq<FieldModel>, item_index: u8, index: u8, i: int) -> bool {
    &&& 0 <= i < s.len()
    &&& s[i].item_index == item_index && s[i].index == index
    &&& forall|j: int| 0 <= j < i ==> !(s[j].item_index == item_index && s[j].index == index)
}

/// The encoding of a list of fields, in order.
pub open spec fn fields_bytes(s: Seq<FieldModel>) -> Seq<u8>
    decreases s.len(),
{
    if s.len() == 0 {
        Seq::empty()
    } else {
        fields_bytes(s.drop_last()) + field_bytes(s.last())
    }
}

impl View for VTableFields {
    type V = Seq<FieldModel>;

    open spec fn view(&self) -> Seq<FieldModel> {
        self.0@.map_values(|f: VTableField| f@)
    }
}

impl VTableFields {
    /// No fields.
    pub fn new() -> (r: Self)
        ensures
            r@ == Seq::<FieldModel>::empty(),
    {
        let r = Self(Vec::with_capacity(256));
        assert(r@ =~= Seq::<FieldModel>::empty());
        r
    }

    /// Adds a field at the end.
    pub fn add_field(&mut self, field: VTableField)
        ensures
            final(self)@ == old(self)@.push(field@),
    {
        self.0.push(field);
        assert(self@ =~= old(self)@.push(field@));
    }

    /// The fields, in order.
    pub fn inner(&self) -> (r: &Vec<VTableField>)
        ensures
            r@ == self.0@,
    {
        &self.0
    }

    /// The fields, in order, for changes.
    pub fn inner_mut(&mut self) -> (r: &mut Vec<VTableField>)
        ensures
            *r == old(self).0,
            final(self).0 == *final(r),
    {
        &mut self.0
    }

    /// The number of fields.
    pub fn len(&self) -> (n: usize)
        ensures
            n == self@.len(),
    {
        self.0.len()
    }

    /// The first field with the given name.
    pub fn find_field_by_name(&self, name: &str) -> (r: Option<&VTableField>)
        ensures
            r is None ==> forall|j: int| 0 <= j < self@.len() ==> self@[j].name != name@,
            r matches Some(f) ==> exists|i: int|
                is_first_named(self@, name@, i) && f@ == self@[i],
    {
        let n = self.0.len();
        for i in 0..n
            invariant
                n == self.0@.len(),
                forall|j: int| 0 <= j < i ==> self@[j].name != name@,
        {
            let f = &self.0[i];
            if str_eq(f.name.as_str(), name) {
                assert(is_first_named(self@, name@, i as int));
                return Some(f);
            }
        }
        None
    }

    /// The first field with the given item index and field index.
    pub fn find_field_by_index(&self, item_index: u8, index: u8) -> (r: Option<&VTableField>)
        ensures
            r is None ==> forall|j: int|
                0 <= j < self@.len() ==> !(self@[j].item_index == item_index && self@[j].index
                    == index),
            r matches Some(f) ==> exists|i: int|
                is_first_indexed(self@, item_index, index, i) && f@ == self@[i],
    {
        let n = self.0.len();
        for i in 0..n
            invariant
                n == self.0@.len(),
                forall|j: int|
                    0 <= j < i ==> !(self@[j].item_index == item_index && self@[j].index == index),
        {
            let f = &self.0[i];
            if f.item_index == item_index && f.index == index {
                assert(is_first_indexed(self@, item_index, index, i as int));
                return Some(f);
            }
        }
        None
    }

    /// Appends the encoding of every field, in order.
    pub fn write_to_buffer(&self, buffer: &mut Vec<u8>) -> (res: Result<(), Error>)
        ensures
            res is Ok,
            final(buffer)@ == old(buffer)@ + fields_bytes(self@),
    {
        let n = self.0.len();
        for i in 0..n
            invariant
                n == self.0@.len(),
                buffer@ == old(buffer)@ + fields_bytes(self@.subrange(0, i as int)),
        {
            let ghost before = buffer@;
            let _ = self.0[i].write_to_buffer(buffer);
            proof {
                let s = self@.subrange(0, i + 1);
                assert(s.drop_last() =~= self@.subrange(0, i as int));
                vstd::seq_lib::lemma_concat_associative(
                    old(buffer)@,
                    fields_bytes(self@.subrange(0, i as int)),
                    field_bytes(self@[i as int]),
                );
            }
        }
        assert(self@.subrange(0, n as int) =~= self@);
        Ok(())
    }

    /// Whether two lists of fields are equal, field by field.
    pub fn eq_fields(&self, other: &Self) -> (r: bool)
        ensures
            r == (self@ == other@),
    {
        let n = self.0.len();
        if n != other.0.len() {
            assert(self@.len() != other@.len());
            return false;
        }
        for i in 0..n
            invariant
                n == self.0@.len(),
                n == other.0@.len(),
                forall|j: int| 0 <= j < i ==> self@[j] == other@[j],
        {
            if !self.0[i].eq_field(&other.0[i]) {
                assert(self@[i as int] != other@[i as int]);
                return false;
            }
        }
        assert(self@ =~= other@);
        true
    }
}

} // verus!
