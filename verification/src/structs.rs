//! A struct item of the vtable: its name, its index among the items, and its
//! fields in declaration order.
use vstd::prelude::*;
use vstd::utf8::*;
use crate::bytes::{lemma_join_at, lemma_split_at, take_front};
use crate::error::Error;
use crate::field::{
    fields_bytes, field_bytes, field_roundtrip_ok, is_first_named, lemma_field_roundtrip,
    lemma_parse_name_of, name_bytes, parse_field_at, parse_name_at, read_name_at, write_name,
    FieldModel, VTableField, VTableFieldIndex, VTableFields, VTableItemIndex,
};
use crate::field_type::VTableFieldType;
use crate::rules::VTableFieldRules;
use crate::utf8_text::str_eq;

verus! {

/// Name of a struct.
pub type StructName = String;

/// A struct of the vtable.
#[derive(Debug)]
pub struct VTableStruct {
    pub item_index: VTableItemIndex,
    pub name: StructName,
    pub fields: VTableFields,
    pub num_fields: VTableFieldIndex,
}

/// Model of a struct: the name taken by its characters.
pub struct StructModel {
    pub item_index: u8,
    pub name: Seq<char>,
    pub fields: Seq<FieldModel>,
    pub num_fields: u8,
}

impl View for VTableStruct {
    type V = StructModel;

    open spec fn view(&self) -> StructModel {
        StructModel {
            item_index: self.item_index,
            name: self.name@,
            fields: self.fields@,
            num_fields: self.num_fields,
        }
    }
}

/// A well-formed struct counts its fields, and field `i` belongs to the
/// struct's item and has index `i`.
pub open spec fn struct_wf(s: StructModel) -> bool {
    &&& s.num_fields == s.fields.len()
    &&& forall|i: int|
        0 <= i < s.fields.len() ==> (#[trigger] s.fields[i]).item_index == s.item_index
            && s.fields[i].index == i
}

/// Encoding of a struct: its item index, its name, its number of fields,
/// then each field.
pub open spec fn struct_bytes(s: StructModel) -> Seq<u8> {
    seq![s.item_index] + name_bytes(s.name) + seq![s.num_fields] + fields_bytes(s.fields)
}

/// Reading `n` fields one after the other from position `p`.
pub open spec fn parse_fields_at(b: Seq<u8>, p: int, n: nat) -> Option<
    (Result<Seq<FieldModel>, Error>, int),
>
    decreases n,
{
    if n == 0 {
        Some((Ok(Seq::empty()), p))
    } else {
        match parse_fields_at(b, p, (n - 1) as nat) {
            None => None,
            Some((Err(e), q)) => Some((Err(e), q)),
            Some((Ok(fs), q)) => match parse_field_at(b, q) {
                None => None,
                Some((Err(e), q2)) => Some((Err(e), q2)),
                Some((Ok(f), q2)) => Some((Ok(fs.push(f)), q2)),
            },
        }
    }
}

/// Reading a struct at position `p`: item index, name, number of fields, and
/// that many fields.
pub open spec fn parse_struct_at(b: Seq<u8>, p: int) -> Option<(Result<StructModel, Error>, int)> {
    if p < 0 || p >= b.len() {
        None
    } else {
        match parse_name_at(b, p + 1) {
            None => None,
            Some((Err(e), q)) => Some((Err(e), q)),
            Some((Ok(name), q)) => if q >= b.len() {
                None
            } else {
                match parse_fields_at(b, q + 1, b[q] as nat) {
                    None => None,
                    Some((Err(e), q2)) => Some((Err(e), q2)),
                    Some((Ok(fields), q2)) => Some(
                        (
                            Ok(StructModel { item_index: b[p], name, fields, num_fields: b[q] }),
                            q2,
                        ),
                    ),
                }
            },
        }
    }
}

/// A struct that reads back as itself.
pub open spec fn struct_roundtrip_ok(s: StructModel) -> bool {
    &&& encode_utf8(s.name).len() < 256
    &&& s.num_fields == s.fields.len()
    &&& forall|i: int| 0 <= i < s.fields.len() ==> field_roundtrip_ok(#[trigger] s.fields[i])
}

/// The struct with every field moved to item `index`.
pub open spec fn reindexed(s: StructModel, index: u8) -> StructModel {
    StructModel {
        item_index: index,
        fields: s.fields.map_values(|f: FieldModel| FieldModel { item_index: index, ..f }),
        ..s
    }
}

/// Whether field `i` of `s` is the first with field index `index`.
pub open spec fn is_first_with_field_index(s: Seq<FieldModel>, index: u8, i: int) -> bool {
    &&& 0 <= i < s.len()
    &&& s[i].index == index
    &&& forall|j: int| 0 <= j < i ==> s[j].index != index
}

/// Once reading some of the fields stops (at an error or at the end of the
/// bytes), reading more of them stops at the same place.
pub proof fn lemma_fields_prefix(b: Seq<u8>, p: int, k: nat, n: nat)
    requires
        k <= n,
        !(parse_fields_at(b, p, k) matches Some((Ok(_), _))),
    ensures
        parse_fields_at(b, p, n) == parse_fields_at(b, p, k),
    decreases n,
{
    if n > k {
        lemma_fields_prefix(b, p, k, (n - 1) as nat);
    }
}

/// One more step of reading fields: the next field can be read, and either
/// extends the fields read so far or ends the reading with its error.
pub proof fn lemma_fields_step(
    b: Seq<u8>,
    p: int,
    k: nat,
    n: nat,
    fs: Seq<FieldModel>,
    cur: int,
)
    requires
        k < n,
        parse_fields_at(b, p, n) is Some,
        parse_fields_at(b, p, k) == Some((Ok::<Seq<FieldModel>, Error>(fs), cur)),
    ensures
        parse_field_at(b, cur) is Some,
        parse_field_at(b, cur) matches Some((Ok(f), q)) ==> parse_fields_at(b, p, k + 1) == Some(
            (Ok::<Seq<FieldModel>, Error>(fs.push(f)), q),
        ),
        parse_field_at(b, cur) matches Some((Err(e), q)) ==> parse_fields_at(b, p, n) == Some(
            (Err::<Seq<FieldModel>, Error>(e), q),
        ),
{
    if !(parse_field_at(b, cur) matches Some((Ok(_), _))) {
        lemma_fields_prefix(b, p, k + 1, n);
    }
}

/// Reading fields never ends beyond the bytes.
pub proof fn lemma_fields_in_bounds(b: Seq<u8>, p: int, n: nat)
    requires
        0 <= p <= b.len(),
        parse_fields_at(b, p, n) is Some,
    ensures
        parse_fields_at(b, p, n).unwrap().1 <= b.len(),
    decreases n,
{
    if n > 0 {
        lemma_fields_in_bounds(b, p, (n - 1) as nat);
    }
}

/// Reading encoded fields gives the fields back.
pub proof fn lemma_fields_roundtrip(fs: Seq<FieldModel>, b: Seq<u8>, p: int)
    requires
        0 <= p,
        forall|i: int| 0 <= i < fs.len() ==> field_roundtrip_ok(#[trigger] fs[i]),
        p + fields_bytes(fs).len() <= b.len(),
        b.subrange(p, p + fields_bytes(fs).len()) == fields_bytes(fs),
    ensures
        parse_fields_at(b, p, fs.len()) == Some(
            (Ok::<Seq<FieldModel>, Error>(fs), p + fields_bytes(fs).len()),
        ),
    decreases fs.len(),
{
    if fs.len() == 0 {
        assert(fs =~= Seq::<FieldModel>::empty());
    } else {
        let init = fs.drop_last();
        let last = fs.last();
        lemma_split_at(b, p, fields_bytes(init), field_bytes(last));
        assert forall|i: int| 0 <= i < init.len() implies field_roundtrip_ok(#[trigger] init[i]) by {
            assert(init[i] == fs[i]);
        }
        lemma_fields_roundtrip(init, b, p);
        assert(field_roundtrip_ok(fs[fs.len() - 1]));
        lemma_field_roundtrip(last, b, p + fields_bytes(init).len());
        assert(init.push(last) =~= fs);
    }
}

/// Reading an encoded struct gives the struct back (see `struct_roundtrip_ok`).
pub proof fn lemma_struct_roundtrip(s: StructModel, b: Seq<u8>, p: int)
    requires
        0 <= p,
        struct_roundtrip_ok(s),
        p + struct_bytes(s).len() <= b.len(),
        b.subrange(p, p + struct_bytes(s).len()) == struct_bytes(s),
    ensures
        parse_struct_at(b, p) == Some(
            (Ok::<StructModel, Error>(s), p + struct_bytes(s).len()),
        ),
{
    let h = seq![s.item_index];
    let nb = name_bytes(s.name);
    let c = seq![s.num_fields];
    let fb = fields_bytes(s.fields);
    lemma_split_at(b, p, h + nb + c, fb);
    lemma_split_at(b, p, h + nb, c);
    lemma_split_at(b, p, h, nb);
    assert(b[p] == s.item_index) by {
        assert(b.subrange(p, p + 1)[0] == b[p]);
    }
    lemma_parse_name_of(s.name, b, p + 1);
    let q = p + 1 + nb.len();
    assert(b[q] == s.num_fields) by {
        assert(b.subrange(q, q + 1)[0] == b[q]);
    }
    lemma_fields_roundtrip(s.fields, b, q + 1);
}

/// Adding a field with the struct's item index and the next field index
/// keeps a struct well-formed.
pub proof fn lemma_add_field_keeps_wf(s: StructModel, f: FieldModel)
    requires
        struct_wf(s),
        s.num_fields < 255,
        f.item_index == s.item_index,
        f.index == s.num_fields,
    ensures
        struct_wf(
            StructModel { fields: s.fields.push(f), num_fields: (s.num_fields + 1) as u8, ..s },
        ),
{
    let t = StructModel { fields: s.fields.push(f), num_fields: (s.num_fields + 1) as u8, ..s };
    assert forall|i: int| 0 <= i < t.fields.len() implies (#[trigger] t.fields[i]).item_index
        == t.item_index && t.fields[i].index == i by {
        if i < s.fields.len() {
            assert(t.fields[i] == s.fields[i]);
        }
    }
}

/// Moving a well-formed struct to another item keeps it well-formed.
pub proof fn lemma_reindex_keeps_wf(s: StructModel, index: u8)
    requires
        struct_wf(s),
    ensures
        struct_wf(reindexed(s, index)),
        reindexed(s, index).fields.len() == s.fields.len(),
{
    let t = reindexed(s, index);
    assert forall|i: int| 0 <= i < t.fields.len() implies (#[trigger] t.fields[i]).item_index
        == t.item_index && t.fields[i].index == i by {
        assert(s.fields[i].index == i);
    }
}

/// In a well-formed struct, looking a field up by index `i` finds field `i`.
pub proof fn lemma_wf_field_lookup(s: StructModel, i: int)
    requires
        struct_wf(s),
        0 <= i < s.fields.len(),
    ensures
        is_first_with_field_index(s.fields, i as u8, i),
{
    assert forall|j: int| 0 <= j < i implies s.fields[j].index != i as u8 by {
        assert(s.fields[j].index == j);
    }
}

impl VTableStruct {
    /// A struct named `name` without fields, at item `index` (0 when `None`).
    pub fn new(name: &str, index: Option<u8>) -> (s: Self)
        ensures
            s@ == (StructModel {
                item_index: match index {
                    Some(i) => i,
                    None => 0,
                },
                name: name@,
                fields: Seq::empty(),
                num_fields: 0,
            }),
    {
        Self {
            item_index: match index {
                Some(i) => i,
                None => 0,
            },
            name: name.to_owned(),
            fields: VTableFields::new(),
            num_fields: 0,
        }
    }

    /// Adds a field with the next field index; the count of fields grows by one.
    pub fn add_field(&mut self, field_type: VTableFieldType, field_name: &str, field_rules: VTableFieldRules)
        requires
            old(self).num_fields < 255,
        ensures
            final(self)@ == (StructModel {
                fields: old(self)@.fields.push(
                    FieldModel {
                        item_index: old(self).item_index,
                        field_type: field_type@,
                        index: old(self).num_fields,
                        name: field_name@,
                        rules: field_rules@,
                    },
                ),
                num_fields: (old(self).num_fields + 1) as u8,
                ..old(self)@
            }),
    {
        let field_index = self.num_fields;
        let field = VTableField::new(
            self.item_index,
            field_type,
            field_index,
            field_name.to_owned(),
            field_rules,
        );
        self.fields.add_field(field);
        self.num_fields = self.num_fields + 1;
    }

    /// Moves the struct, and each of its fields, to item `index`.
    pub fn set_item_index(&mut self, index: VTableItemIndex)
        ensures
            final(self)@ == reindexed(old(self)@, index),
    {
        self.item_index = index;
        let n = self.fields.0.len();
        for i in 0..n
            invariant
                n == self.fields.0@.len(),
                self.item_index == index,
                self.name == old(self).name,
                self.num_fields == old(self).num_fields,
                forall|j: int|
                    0 <= j < n ==> (#[trigger] self.fields@[j]) == (if j < i {
                        FieldModel { item_index: index, ..old(self).fields@[j] }
                    } else {
                        old(self).fields@[j]
                    }),
        {
            let ghost before = self.fields@;
            self.fields.0[i].item_index = index;
            assert(self.fields@ =~= before.update(
                i as int,
                FieldModel { item_index: index, ..before[i as int] },
            ));
        }
        assert(self.fields@ =~= reindexed(old(self)@, index).fields);
    }

    /// The index of the first field named `name`.
    pub fn field_index_from_name(&self, name: &str) -> (res: Result<VTableFieldIndex, Error>)
        ensures
            res matches Ok(idx) ==> exists|i: int|
                is_first_named(self@.fields, name@, i) && self@.fields[i].index == idx,
            res is Err <==> forall|j: int|
                0 <= j < self@.fields.len() ==> self@.fields[j].name != name@,
            res matches Err(e) ==> e is FieldNotFound,
    {
        Ok(self.field_by_name(name)?.index)
    }

    /// The first field named `name`.
    pub fn field_by_name(&self, name: &str) -> (res: Result<&VTableField, Error>)
        ensures
            res matches Ok(f) ==> exists|i: int|
                is_first_named(self@.fields, name@, i) && f@ == self@.fields[i],
            res is Err <==> forall|j: int|
                0 <= j < self@.fields.len() ==> self@.fields[j].name != name@,
            res matches Err(e) ==> e is FieldNotFound,
    {
        match self.fields.find_field_by_name(name) {
            Some(f) => Ok(f),
            None => Err(Error::FieldNotFound),
        }
    }

    /// The first field with field index `index`.
    pub fn field_by_index(&self, index: &VTableFieldIndex) -> (res: Result<&VTableField, Error>)
        ensures
            res matches Ok(f) ==> exists|i: int|
                is_first_with_field_index(self@.fields, *index, i) && f@ == self@.fields[i],
            res is Err <==> forall|j: int|
                0 <= j < self@.fields.len() ==> self@.fields[j].index != *index,
            res matches Err(e) ==> e is FieldNotFound,
    {
        let n = self.fields.0.len();
        for i in 0..n
            invariant
                n == self.fields.0@.len(),
                forall|j: int| 0 <= j < i ==> self@.fields[j].index != *index,
        {
            let f = &self.fields.0[i];
            if f.index == *index {
                assert(is_first_with_field_index(self@.fields, *index, i as int));
                return Ok(f);
            }
        }
        Err(Error::FieldNotFound)
    }

    /// The rules of the first field with field index `index`.
    pub fn field_rules_by_index(&self, index: &VTableFieldIndex) -> (res: Result<
        &VTableFieldRules,
        Error,
    >)
        ensures
            res matches Ok(r) ==> exists|i: int|
                is_first_with_field_index(self@.fields, *index, i) && r@ == self@.fields[i].rules,
            res is Err <==> forall|j: int|
                0 <= j < self@.fields.len() ==> self@.fields[j].index != *index,
            res matches Err(e) ==> e is FieldNotFound,
    {
        match self.field_by_index(index) {
            Ok(f) => Ok(&f.rules),
            Err(e) => Err(e),
        }
    }

    /// Appends the encoding of the struct.
    pub fn write_to_buffer(&self, buffer: &mut Vec<u8>) -> (res: Result<(), Error>)
        ensures
            res is Ok,
            final(buffer)@ == old(buffer)@ + struct_bytes(self@),
    {
        let ghost start = buffer@;
        let ghost s = self@;
        buffer.push(self.item_index);
        write_name(buffer, &self.name);
        assert(buffer@ =~= start + (seq![s.item_index] + name_bytes(s.name)));
        buffer.push(self.num_fields);
        let ghost s2 = seq![s.item_index] + name_bytes(s.name) + seq![s.num_fields];
        assert(buffer@ =~= start + s2);
        let _ = self.fields.write_to_buffer(buffer);
        proof {
            vstd::seq_lib::lemma_concat_associative(start, s2, fields_bytes(s.fields));
        }
        Ok(())
    }

    /// Reads a struct at `pos`; returns the outcome and the position after it.
    pub fn read_at(buf: &[u8], pos: usize) -> (r: (Result<Self, Error>, usize))
        requires
            parse_struct_at(buf@, pos as int) is Some,
        ensures
            ({
                let (expected, next) = parse_struct_at(buf@, pos as int).unwrap();
                &&& r.1 == next
                &&& r.1 <= buf@.len()
                &&& match (r.0, expected) {
                    (Ok(s), Ok(m)) => s@ == m,
                    (Err(e1), Err(e2)) => e1 == e2,
                    _ => false,
                }
            }),
    {
        let item_index = buf[pos];
        let (name, q) = match read_name_at(buf, pos + 1) {
            (Ok(n), q) => (n, q),
            (Err(e), q) => return (Err(e), q),
        };
        let num_fields = buf[q];
        let ghost start = (q + 1) as int;
        let mut fields = VTableFields::new();
        let mut cur = q + 1;
        let mut k: u8 = 0;
        while k < num_fields
            invariant
                k <= num_fields,
                cur <= buf@.len(),
                pos < q < buf@.len(),
                start == q + 1,
                item_index == buf@[pos as int],
                num_fields == buf@[q as int],
                parse_name_at(buf@, pos + 1) == Some((Ok::<Seq<char>, Error>(name@), q as int)),
                parse_fields_at(buf@, start, num_fields as nat) is Some,
                parse_fields_at(buf@, start, k as nat) == Some(
                    (Ok::<Seq<FieldModel>, Error>(fields@), cur as int),
                ),
            decreases num_fields - k,
        {
            proof {
                lemma_fields_step(buf@, start, k as nat, num_fields as nat, fields@, cur as int);
            }
            let (res, next) = VTableField::read_at(buf, cur);
            match res {
                Ok(f) => {
                    fields.add_field(f);
                    cur = next;
                    k = k + 1;
                },
                Err(e) => {
                    return (Err(e), next);
                },
            }
        }
        (Ok(Self { item_index, name, fields, num_fields }), cur)
    }

    /// Removes an encoded struct from the front of the buffer and returns it.
    pub fn read_from_buffer(buffer: &mut Vec<u8>) -> (res: Result<Self, Error>)
        requires
            parse_struct_at(old(buffer)@, 0) is Some,
        ensures
            ({
                let (expected, next) = parse_struct_at(old(buffer)@, 0).unwrap();
                &&& final(buffer)@ == old(buffer)@.subrange(next, old(buffer)@.len() as int)
                &&& match (res, expected) {
                    (Ok(s), Ok(m)) => s@ == m,
                    (Err(e1), Err(e2)) => e1 == e2,
                    _ => false,
                }
            }),
    {
        let (res, next) = Self::read_at(buffer.as_slice(), 0);
        let _ = take_front(buffer, next);
        res
    }

    /// A copy of the struct with the same model.
    pub fn duplicate(&self) -> (r: Self)
        ensures
            r@ == self@,
    {
        let n = self.fields.0.len();
        let mut fields = VTableFields::new();
        for i in 0..n
            invariant
                n == self.fields.0@.len(),
                fields@ == self.fields@.subrange(0, i as int),
        {
            fields.add_field(self.fields.0[i].duplicate());
            assert(fields@ =~= self.fields@.subrange(0, i + 1));
        }
        assert(fields@ =~= self.fields@);
        Self {
            item_index: self.item_index,
            name: self.name.clone(),
            fields,
            num_fields: self.num_fields,
        }
    }

    /// Whether two structs are equal: name, fields, count and item index.
    pub fn eq_struct(&self, other: &Self) -> (r: bool)
        ensures
            r == (self@ == other@),
    {
        let same = str_eq(self.name.as_str(), other.name.as_str()) && self.fields.eq_fields(
            &other.fields,
        ) && self.num_fields == other.num_fields && self.item_index == other.item_index;
        same
    }
}

impl Default for VTableStruct {
    /// An unnamed struct without fields at item 0.
    fn default() -> (s: Self)
        ensures
            s@ == (StructModel {
                item_index: 0,
                name: Seq::empty(),
                fields: Seq::empty(),
                num_fields: 0,
            }),
    {
        Self { item_index: 0, name: String::new(), fields: VTableFields::new(), num_fields: 0 }
    }
}

} // verus!
