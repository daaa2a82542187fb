//! The virtual table (vtable): the namespace and root name of a document
//! type, and the items (structs) that describe its fields.
use vstd::prelude::*;
use vstd::bytes::*;
use vstd::utf8::*;
use crate::bytes::{
    lemma_split_at, lemma_u16_roundtrip, push_u16_le, read_u16_le, take_front, u16_from_le,
    u16_le_bytes,
};
use crate::error::{Error, HexError};
use crate::field::{
    is_first_named, lemma_parse_name_of, name_bytes, parse_name_at, read_name_at, write_name,
    FieldModel, VTableField, VTableFieldIndex, VTableFields, VTableItemIndex,
};
use crate::hex_text::{hex_decode, hex_decoded, hex_encode, hex_text};
use crate::item::{
    item_roundtrip_ok, items_bytes, lemma_items_roundtrip, lemma_items_step, parse_items_at,
    ItemModel, VTableItem, VTableItems,
};
use crate::offset::{VTableFieldOffsetIndex, VTABLE_FIELD_OFFSET_SIZE_BYTES};
use crate::structs::{
    is_first_with_field_index, reindexed, struct_wf, StructModel, VTableStruct,
};
use crate::utf8_text::str_eq;

verus! {

/// Average field size in bytes, used to estimate the size of a document.
pub const AVG_FIELD_SIZE_IN_BYTES: u8 = 255;

/// Default number of entries per page.
pub const DEFAULT_ENTRIES_PER_PAGE: u8 = 255;

/// Multiplier of the hash tagger.
pub const HASH_PRIME_CONST: u16 = 5;

/// Total number of items in the vtable.
pub type VTableNumItems = VTableItemIndex;

/// Total number of fields in the vtable.
pub type VTableNumFields = u16;

/// Name of the root item of the vtable.
pub type VTableRootItemName = String;

/// Namespace of the vtable.
pub type VTableNamespace = String;

/// The eight-byte identifier of a vtable.
#[derive(Debug, Clone, Copy, PartialEq, Eq, Hash)]
pub struct VTableId([u8; 8]);

impl View for VTableId {
    type V = Seq<u8>;

    closed spec fn view(&self) -> Seq<u8> {
        self.0@
    }
}

/// The UTF-8 text "VTableId must be 8 characters long".
pub open spec fn id_length_message() -> Seq<char> {
    "VTableId must be 8 characters long"@
}

/// An identifier has eight bytes.
pub proof fn lemma_vtable_id_len(id: VTableId)
    ensures
        id@.len() == 8,
{
}

/// The hex text of an identifier reads back as the identifier: the text
/// that `as_hex` gives decodes to the identifier's eight bytes, so
/// `from_hex` of it is `Ok` of an identifier with the same bytes.
pub proof fn lemma_vtable_id_hex_roundtrip(id: VTableId)
    ensures
        id@.len() == 8,
        hex_decoded(encode_utf8(hex_text(id@))) == Ok::<Seq<u8>, HexError>(id@),
{
    crate::hex_text::lemma_hex_roundtrip(id@);
}

impl VTableId {
    /// The identifier with the given bytes.
    pub fn new(id: [u8; 8]) -> (r: Self)
        ensures
            r@ == id@,
    {
        Self(id)
    }

    /// The bytes of the identifier.
    pub fn bytes(&self) -> (b: [u8; 8])
        ensures
            b@ == self@,
    {
        self.0
    }

    /// The identifier written as hex text: it must stand for exactly eight bytes.
    pub fn from_hex(hex: &str) -> (res: Result<Self, Error>)
        ensures
            match hex_decoded(encode_utf8(hex@)) {
                Err(e) => res == Err::<Self, Error>(Error::Hex(e)),
                Ok(v) => if v.len() == 8 {
                    res matches Ok(id) && id@ == v
                } else {
                    res matches Err(Error::InvalidVTableId(m)) && m@ == id_length_message()
                },
            },
    {
        let bytes = match hex_decode(hex) {
            Ok(b) => b,
            Err(e) => return Err(Error::Hex(e)),
        };
        if bytes.len() != 8 {
            let mut msg = String::new();
            msg.append("VTableId must be 8 characters long");
            assert(msg@ =~= id_length_message());
            return Err(Error::InvalidVTableId(msg));
        }
        let id = [bytes[0], bytes[1], bytes[2], bytes[3], bytes[4], bytes[5], bytes[6], bytes[7]];
        assert(id@ =~= bytes@);
        Ok(Self(id))
    }

    /// The identifier as lowercase hex text.
    pub fn as_hex(&self) -> (s: String)
        ensures
            s@ == hex_text(self@),
    {
        hex_encode(self.0.as_slice())
    }

    /// The identifier whose bytes are the little-endian bytes of `v`.
    pub fn from_u64(v: u64) -> (r: Self)
        ensures
            r@ == spec_u64_to_le_bytes(v),
    {
        let b = u64_to_le_bytes(v);
        proof {
            lemma_auto_spec_u64_to_from_le_bytes();
        }
        let id = [b[0], b[1], b[2], b[3], b[4], b[5], b[6], b[7]];
        assert(id@ =~= b@);
        Self(id)
    }

    /// The `u64` whose little-endian bytes are the identifier.
    pub fn to_u64(&self) -> (v: u64)
        ensures
            v == spec_u64_from_le_bytes(self@),
    {
        proof {
            assert(self.0@.len() == 8);
        }
        u64_from_le_bytes(self.0.as_slice())
    }
}

/// The vtable of a document type.
#[derive(Debug)]
pub struct VTable {
    pub namespace: VTableNamespace,
    /// The root name of the vtable.
    pub root: VTableRootItemName,
    pub items: VTableItems,
    pub num_items: VTableNumItems,
    /// Total number of fields in the vtable.
    pub num_fields: VTableNumFields,
}

/// Model of a vtable: names taken by their characters.
pub struct VTableModel {
    pub namespace: Seq<char>,
    pub root: Seq<char>,
    pub items: Seq<ItemModel>,
    pub num_items: u8,
    pub num_fields: u16,
}

impl View for VTable {
    type V = VTableModel;

    open spec fn view(&self) -> VTableModel {
        VTableModel {
            namespace: self.namespace@,
            root: self.root@,
            items: self.items@,
            num_items: self.num_items,
            num_fields: self.num_fields,
        }
    }
}

/// The number of fields of all the items together.
pub open spec fn total_fields(items: Seq<ItemModel>) -> int
    decreases items.len(),
{
    if items.len() == 0 {
        0
    } else {
        total_fields(items.drop_last()) + items.last().struct_of().num_fields
    }
}

/// A well-formed vtable counts its items and their fields, and item `i` is a
/// well-formed struct with item index `i`.
pub open spec fn vtable_wf(v: VTableModel) -> bool {
    &&& v.num_items == v.items.len()
    &&& v.num_fields == total_fields(v.items)
    &&& forall|i: int|
        0 <= i < v.items.len() ==> (#[trigger] v.items[i]).struct_of().item_index == i
            && struct_wf(v.items[i].struct_of())
}

/// Encoding of a vtable: namespace, root name, number of items, number of
/// fields (two little-endian bytes), then each item.
pub open spec fn vtable_bytes(v: VTableModel) -> Seq<u8> {
    name_bytes(v.namespace) + name_bytes(v.root) + seq![v.num_items] + u16_le_bytes(v.num_fields)
        + items_bytes(v.items)
}

/// Reading a vtable from the front of `b`.
pub open spec fn parse_vtable(b: Seq<u8>) -> Option<(Result<VTableModel, Error>, int)> {
    match parse_name_at(b, 0) {
        None => None,
        Some((Err(e), q)) => Some((Err(e), q)),
        Some((Ok(namespace), q)) => match parse_name_at(b, q) {
            None => None,
            Some((Err(e), q2)) => Some((Err(e), q2)),
            Some((Ok(root), q2)) => if q2 + 3 > b.len() {
                None
            } else {
                match parse_items_at(b, q2 + 3, b[q2] as nat) {
                    None => None,
                    Some((Err(e), q3)) => Some((Err(e), q3)),
                    Some((Ok(items), q3)) => Some(
                        (
                            Ok(
                                VTableModel {
                                    namespace,
                                    root,
                                    items,
                                    num_items: b[q2],
                                    num_fields: u16_from_le(b.subrange(q2 + 1, q2 + 3)),
                                },
                            ),
                            q3,
                        ),
                    ),
                }
            },
        },
    }
}

/// A vtable that reads back as itself.
pub open spec fn vtable_roundtrip_ok(v: VTableModel) -> bool {
    &&& encode_utf8(v.namespace).len() < 256
    &&& encode_utf8(v.root).len() < 256
    &&& v.num_items == v.items.len()
    &&& forall|i: int| 0 <= i < v.items.len() ==> item_roundtrip_ok(#[trigger] v.items[i])
}

/// The vtable after a struct is added as its next item.
pub open spec fn with_struct(v: VTableModel, s: StructModel) -> VTableModel {
    VTableModel {
        items: v.items.push(ItemModel::Struct(reindexed(s, v.num_items))),
        num_items: (v.num_items + 1) as u8,
        num_fields: (v.num_fields + s.num_fields) as u16,
        ..v
    }
}

/// Whether item `i` is the first struct with item index `index`.
pub open spec fn is_first_item_with_index(items: Seq<ItemModel>, index: u8, i: int) -> bool {
    &&& 0 <= i < items.len()
    &&& items[i].struct_of().item_index == index
    &&& forall|j: int| 0 <= j < i ==> items[j].struct_of().item_index != index
}

/// Whether item `i` is the first struct named `name`.
pub open spec fn is_first_item_named(items: Seq<ItemModel>, name: Seq<char>, i: int) -> bool {
    &&& 0 <= i < items.len()
    &&& items[i].struct_of().name == name
    &&& forall|j: int| 0 <= j < i ==> items[j].struct_of().name != name
}

/// No struct has item index `index`.
pub open spec fn no_item_with_index(items: Seq<ItemModel>, index: u8) -> bool {
    forall|j: int| 0 <= j < items.len() ==> items[j].struct_of().item_index != index
}

/// The struct found for item index `index`: nothing when the index is not
/// below the number of items, else the first struct with that item index.
pub open spec fn found_struct(items: Seq<ItemModel>, index: u8, s: StructModel) -> bool {
    index < items.len() && exists|i: int|
        is_first_item_with_index(items, index, i) && items[i].struct_of() == s
}

/// No struct is found for item index `index`.
pub open spec fn no_struct_found(items: Seq<ItemModel>, index: u8) -> bool {
    index >= items.len() || no_item_with_index(items, index)
}

/// The fields of all the items, item after item.
pub open spec fn all_fields(items: Seq<ItemModel>) -> Seq<FieldModel>
    decreases items.len(),
{
    if items.len() == 0 {
        Seq::empty()
    } else {
        all_fields(items.drop_last()) + items.last().struct_of().fields
    }
}


/// The tag bytes can be hashed without overflow: every byte plus the tag
/// length plus its position fits in 16 bits.
pub open spec fn hash_tag_fits(b: Seq<u8>) -> bool {
    forall|i: int| 0 <= i < b.len() ==> #[trigger] b[i] + (b.len() as u16) + (i as u16) <= u16::MAX
}

/// The hash after the first `n` bytes of `b`, for a tag of length `len`:
/// each step adds the byte, the length and the position, then multiplies by
/// 5, both modulo 2^16.
pub open spec fn hash_fold(b: Seq<u8>, len: u16, n: nat) -> u16
    decreases n,
{
    if n == 0 {
        0
    } else {
        let acc = hash_fold(b, len, (n - 1) as nat);
        let x = (b[n - 1] + len + ((n - 1) as int as u16)) as u16;
        vstd::wrapping::u16_specs::wrapping_mul(
            vstd::wrapping::u16_specs::wrapping_add(acc, x),
            HASH_PRIME_CONST,
        )
    }
}

/// The two-byte hash tag of a tag's bytes.
pub open spec fn hash_tag_of(b: Seq<u8>) -> Seq<u8> {
    u16_le_bytes(hash_fold(b, b.len() as u16, b.len()))
}

/// The identifier of a vtable: the namespace tag, the root tag, the total
/// length of the two names (modulo 256), the number of items and the number
/// of fields (two little-endian bytes).
pub open spec fn vtable_id_bytes(v: VTableModel) -> Seq<u8> {
    hash_tag_of(encode_utf8(v.namespace)) + hash_tag_of(encode_utf8(v.root)) + seq![
        ((encode_utf8(v.namespace).len() + encode_utf8(v.root).len()) % 256) as u8,
        v.num_items,
    ] + u16_le_bytes(v.num_fields)
}

/// One step of merging: an item already present is skipped, any other is
/// added as a struct; `None` when adding it would overflow the counts.
pub open spec fn merge_step(v: VTableModel, it: ItemModel) -> Option<VTableModel> {
    if v.items.contains(it) {
        Some(v)
    } else if v.num_items < 255 && v.num_fields + it.struct_of().num_fields <= u16::MAX {
        Some(with_struct(v, it.struct_of()))
    } else {
        None
    }
}

/// Merging the items `others` one after the other.
pub open spec fn merged(v: VTableModel, others: Seq<ItemModel>) -> Option<VTableModel>
    decreases others.len(),
{
    if others.len() == 0 {
        Some(v)
    } else {
        match merged(v, others.drop_last()) {
            None => None,
            Some(w) => merge_step(w, others.last()),
        }
    }
}

/// A merge that overflows on some prefix of the items overflows on all of them.
pub proof fn lemma_merged_prefix(v: VTableModel, s: Seq<ItemModel>, k: int, n: int)
    requires
        0 <= k <= n <= s.len(),
        merged(v, s.subrange(0, k)) is None,
    ensures
        merged(v, s.subrange(0, n)) is None,
    decreases n,
{
    if n > k {
        lemma_merged_prefix(v, s, k, n - 1);
        assert(s.subrange(0, n).drop_last() =~= s.subrange(0, n - 1));
    }
}


/// `f` is the field found at the offset index `index`: the first field with
/// the field index in the first struct with the item index.
pub open spec fn field_found(items: Seq<ItemModel>, index: (u8, u8), f: FieldModel) -> bool {
    exists|s: StructModel, i: int|
        found_struct(items, index.0, s) && is_first_with_field_index(s.fields, index.1, i) && f
            == s.fields[i]
}

/// No field is found at the offset index `index`.
pub open spec fn no_field_found(items: Seq<ItemModel>, index: (u8, u8)) -> bool {
    no_struct_found(items, index.0) || exists|s: StructModel|
        found_struct(items, index.0, s) && forall|j: int|
            0 <= j < s.fields.len() ==> s.fields[j].index != index.1
}

/// At most one struct is found for an item index.
pub proof fn lemma_found_struct_unique(items: Seq<ItemModel>, index: u8, s1: StructModel, s2: StructModel)
    requires
        found_struct(items, index, s1),
        found_struct(items, index, s2),
    ensures
        s1 == s2,
{
    let i1 = choose|i: int| is_first_item_with_index(items, index, i) && items[i].struct_of() == s1;
    let i2 = choose|i: int| is_first_item_with_index(items, index, i) && items[i].struct_of() == s2;
    if i1 < i2 {
        assert(items[i1].struct_of().item_index != index);
    } else if i2 < i1 {
        assert(items[i2].struct_of().item_index != index);
    }
}

/// At most one field is found for an offset index, and none when no field is found.
pub proof fn lemma_field_found_unique(items: Seq<ItemModel>, index: (u8, u8), f1: FieldModel, f2: FieldModel)
    requires
        field_found(items, index, f1),
    ensures
        field_found(items, index, f2) ==> f1 == f2,
        !no_field_found(items, index),
{
    let (s1, i1) = choose|s: StructModel, i: int|
        found_struct(items, index.0, s) && is_first_with_field_index(s.fields, index.1, i) && f1
            == s.fields[i];
    if field_found(items, index, f2) {
        let (s2, i2) = choose|s: StructModel, i: int|
            found_struct(items, index.0, s) && is_first_with_field_index(s.fields, index.1, i) && f2
                == s.fields[i];
        lemma_found_struct_unique(items, index.0, s1, s2);
        if i1 < i2 {
            assert(s1.fields[i1].index != index.1);
        } else if i2 < i1 {
            assert(s1.fields[i2].index != index.1);
        }
    }
    if exists|s: StructModel|
        found_struct(items, index.0, s) && forall|j: int|
            0 <= j < s.fields.len() ==> s.fields[j].index != index.1 {
        let s = choose|s: StructModel|
            found_struct(items, index.0, s) && forall|j: int|
                0 <= j < s.fields.len() ==> s.fields[j].index != index.1;
        lemma_found_struct_unique(items, index.0, s1, s);
        assert(s.fields[i1].index == index.1);
    }
}

/// Reading an encoded vtable gives the vtable back (see `vtable_roundtrip_ok`).
pub proof fn lemma_vtable_roundtrip(v: VTableModel, rest: Seq<u8>)
    requires
        vtable_roundtrip_ok(v),
    ensures
        parse_vtable(vtable_bytes(v) + rest) == Some(
            (Ok::<VTableModel, Error>(v), vtable_bytes(v).len() as int),
        ),
{
    let b = vtable_bytes(v) + rest;
    let n1 = name_bytes(v.namespace);
    let n2 = name_bytes(v.root);
    let c = seq![v.num_items];
    let f = u16_le_bytes(v.num_fields);
    let ib = items_bytes(v.items);
    assert(b.subrange(0, vtable_bytes(v).len() as int) =~= vtable_bytes(v));
    lemma_split_at(b, 0, n1 + n2 + c + f, ib);
    lemma_split_at(b, 0, n1 + n2 + c, f);
    lemma_split_at(b, 0, n1 + n2, c);
    lemma_split_at(b, 0, n1, n2);
    lemma_parse_name_of(v.namespace, b, 0);
    lemma_parse_name_of(v.root, b, n1.len() as int);
    let q2: int = (n1.len() + n2.len()) as int;
    assert(b[q2] == v.num_items) by {
        assert(b.subrange(q2, q2 + 1)[0] == b[q2]);
    }
    lemma_u16_roundtrip(v.num_fields);
    lemma_items_roundtrip(v.items, b, q2 + 3);
}

/// Adding a struct whose fields are counted and indexed in order keeps a
/// vtable well-formed.
pub proof fn lemma_add_struct_keeps_wf(v: VTableModel, s: StructModel)
    requires
        vtable_wf(v),
        v.num_items < 255,
        v.num_fields + s.num_fields <= u16::MAX,
        s.num_fields == s.fields.len(),
        forall|i: int| 0 <= i < s.fields.len() ==> (#[trigger] s.fields[i]).index == i,
    ensures
        vtable_wf(with_struct(v, s)),
{
    let w = with_struct(v, s);
    let r = reindexed(s, v.num_items);
    assert(struct_wf(r)) by {
        assert forall|i: int| 0 <= i < r.fields.len() implies (#[trigger] r.fields[i]).item_index
            == r.item_index && r.fields[i].index == i by {
            assert(s.fields[i].index == i);
        }
    }
    assert(w.items.drop_last() =~= v.items);
    assert forall|i: int| 0 <= i < w.items.len() implies (#[trigger] w.items[i]).struct_of().item_index
        == i && struct_wf(w.items[i].struct_of()) by {
        if i < v.items.len() {
            assert(w.items[i] == v.items[i]);
        }
    }
}

/// In a well-formed vtable, looking an item up by index `i` finds item `i`.
pub proof fn lemma_wf_item_lookup(v: VTableModel, i: int)
    requires
        vtable_wf(v),
        0 <= i < v.items.len(),
    ensures
        found_struct(v.items, i as u8, v.items[i].struct_of()),
{
    assert forall|j: int| 0 <= j < i implies v.items[j].struct_of().item_index != i as u8 by {
        assert(v.items[j].struct_of().item_index == j);
    }
    assert(is_first_item_with_index(v.items, i as u8, i));
}

impl VTable {
    /// An empty vtable with the given namespace and root name.
    pub fn new(namespace: VTableNamespace, root: VTableRootItemName) -> (v: Self)
        ensures
            v@ == (VTableModel {
                namespace: namespace@,
                root: root@,
                items: Seq::empty(),
                num_items: 0,
                num_fields: 0,
            }),
    {
        Self { namespace, root, items: VTableItems::new(), num_items: 0, num_fields: 0 }
    }

    /// Replaces the contents of `buffer` with the encoding of the vtable.
    pub fn write_to_buffer(&self, buffer: &mut Vec<u8>) -> (res: Result<(), Error>)
        ensures
            res is Ok,
            final(buffer)@ == vtable_bytes(self@),
    {
        buffer.clear();
        let ghost v = self@;
        write_name(buffer, &self.namespace);
        write_name(buffer, &self.root);
        buffer.push(self.num_items);
        push_u16_le(buffer, self.num_fields);
        let ghost head = name_bytes(v.namespace) + name_bytes(v.root) + seq![v.num_items]
            + u16_le_bytes(v.num_fields);
        assert(buffer@ =~= head);
        let _ = self.items.write_to_buffer(buffer);
        Ok(())
    }

    /// Reads a vtable from the front of the buffer; the bytes read are removed.
    pub fn read_from_buffer(buffer: &mut Vec<u8>) -> (res: Result<Self, Error>)
        requires
            parse_vtable(old(buffer)@) is Some,
        ensures
            ({
                let (expected, next) = parse_vtable(old(buffer)@).unwrap();
                &&& final(buffer)@ == old(buffer)@.subrange(next, old(buffer)@.len() as int)
                &&& match (res, expected) {
                    (Ok(v), Ok(m)) => v@ == m,
                    (Err(e1), Err(e2)) => e1 == e2,
                    _ => false,
                }
            }),
    {
        let (res, next) = Self::read_at(buffer.as_slice());
        let _ = take_front(buffer, next);
        res
    }

    /// Reads a vtable from the front of `buf`; returns the outcome and the
    /// position after it.
    fn read_at(buf: &[u8]) -> (r: (Result<Self, Error>, usize))
        requires
            parse_vtable(buf@) is Some,
        ensures
            ({
                let (expected, next) = parse_vtable(buf@).unwrap();
                &&& r.1 == next
                &&& r.1 <= buf@.len()
                &&& match (r.0, expected) {
                    (Ok(v), Ok(m)) => v@ == m,
                    (Err(e1), Err(e2)) => e1 == e2,
                    _ => false,
                }
            }),
    {
        let (namespace, q) = match read_name_at(buf, 0) {
            (Ok(n), q) => (n, q),
            (Err(e), q) => return (Err(e), q),
        };
        let (root, q2) = match read_name_at(buf, q) {
            (Ok(n), q2) => (n, q2),
            (Err(e), q2) => return (Err(e), q2),
        };
        let num_items = buf[q2];
        let num_fields = read_u16_le(buf, q2 + 1);
        let mut vtable = Self::new(namespace, root);
        vtable.num_items = num_items;
        vtable.num_fields = num_fields;
        let ghost start = (q2 + 3) as int;
        let mut cur = q2 + 3;
        let mut k: u8 = 0;
        while k < num_items
            invariant
                k <= num_items,
                cur <= buf@.len(),
                q < q2,
                q2 + 3 <= buf@.len(),
                start == q2 + 3,
                num_items == buf@[q2 as int],
                vtable.num_items == num_items,
                vtable.num_fields == num_fields,
                num_fields == u16_from_le(buf@.subrange(q2 + 1, q2 + 3)),
                parse_name_at(buf@, 0) == Some((Ok::<Seq<char>, Error>(vtable.namespace@), q as int)),
                parse_name_at(buf@, q as int) == Some(
                    (Ok::<Seq<char>, Error>(vtable.root@), q2 as int),
                ),
                parse_items_at(buf@, start, num_items as nat) is Some,
                parse_items_at(buf@, start, k as nat) == Some(
                    (Ok::<Seq<ItemModel>, Error>(vtable.items@), cur as int),
                ),
            decreases num_items - k,
        {
            proof {
                lemma_items_step(buf@, start, k as nat, num_items as nat, vtable.items@, cur as int);
            }
            let (res, next) = VTableItem::read_at(buf, cur);
            match res {
                Ok(item) => {
                    vtable.items.push_item(item);
                    cur = next;
                    k = k + 1;
                },
                Err(e) => {
                    return (Err(e), next);
                },
            }
        }
        (Ok(vtable), cur)
    }

    /// The encoding of the vtable, in a new buffer.
    pub fn to_vec(&self) -> (res: Result<Vec<u8>, Error>)
        ensures
            res matches Ok(b) && b@ == vtable_bytes(self@),
    {
        let mut buf = Vec::new();
        self.write_to_buffer(&mut buf)?;
        Ok(buf)
    }

    /// Adds an item: a struct item is added as the next struct.
    pub fn add_item(&mut self, vtable_item: VTableItem)
        requires
            old(self).num_items < 255,
            old(self).num_fields + vtable_item@.struct_of().num_fields <= u16::MAX,
        ensures
            final(self)@ == with_struct(old(self)@, vtable_item@.struct_of()),
    {
        match vtable_item {
            VTableItem::Struct(vtable_struct) => {
                self.add_struct(vtable_struct);
            },
        }
    }

    /// Adds a struct as the next item: the struct and its fields get the next
    /// item index, and its fields count towards the vtable's fields.
    pub fn add_struct(&mut self, vtable_struct: VTableStruct)
        requires
            old(self).num_items < 255,
            old(self).num_fields + vtable_struct.num_fields <= u16::MAX,
        ensures
            final(self)@ == with_struct(old(self)@, vtable_struct@),
    {
        let mut vtable_struct = vtable_struct;
        vtable_struct.set_item_index(self.num_items);
        self.num_fields = self.num_fields + vtable_struct.num_fields as u16;
        self.items.add_struct(vtable_struct);
        self.num_items = self.num_items + 1;
    }

    /// The first struct item with item index `index`, if `index` is below the
    /// number of items.
    pub fn item_by_index(&self, index: VTableItemIndex) -> (res: Result<&VTableItem, Error>)
        ensures
            res matches Ok(item) ==> found_struct(self@.items, index, item@.struct_of()),
            res is Err <==> no_struct_found(self@.items, index),
            res matches Err(e) ==> e is ItemNotFound,
    {
        match self.find_struct(index) {
            Some(i) => Ok(&self.items.0[i]),
            None => Err(Error::ItemNotFound),
        }
    }

    /// Position of the first struct with item index `index`, if `index` is
    /// below the number of items.
    pub(crate) fn find_struct(&self, index: VTableItemIndex) -> (r: Option<usize>)
        ensures
            r matches Some(i) ==> index < self@.items.len() && is_first_item_with_index(
                self@.items,
                index,
                i as int,
            ),
            r is None <==> no_struct_found(self@.items, index),
    {
        let n = self.items.0.len();
        if index as usize >= n {
            return None;
        }
        for i in 0..n
            invariant
                n == self.items.0@.len(),
                index < n,
                forall|j: int| 0 <= j < i ==> self@.items[j].struct_of().item_index != index,
        {
            match &self.items.0[i] {
                VTableItem::Struct(s) => {
                    if s.item_index == index {
                        assert(self@.items[i as int].struct_of().item_index == index);
                        assert(!no_item_with_index(self@.items, index));
                        return Some(i);
                    }
                },
            }
        }
        None
    }

    /// The number of fields of the item with item index `index`.
    pub fn num_fields_by_index(&self, index: VTableItemIndex) -> (res: Result<u8, Error>)
        ensures
            res matches Ok(n) ==> exists|s: StructModel|
                found_struct(self@.items, index, s) && s.num_fields == n,
            res is Err <==> no_struct_found(self@.items, index),
            res matches Err(e) ==> e is ItemNotFound,
    {
        match self.item_by_index(index)? {
            VTableItem::Struct(vtable_struct) => Ok(vtable_struct.num_fields),
        }
    }

    /// The first struct with item index `index`, if `index` is below the
    /// number of items.
    pub fn struct_by_index(&self, index: VTableItemIndex) -> (res: Result<&VTableStruct, Error>)
        ensures
            res matches Ok(s) ==> found_struct(self@.items, index, s@),
            res is Err <==> no_struct_found(self@.items, index),
            res matches Err(e) ==> e is StructNotFound,
    {
        match self.find_struct(index) {
            Some(i) => match &self.items.0[i] {
                VTableItem::Struct(s) => Ok(s),
            },
            None => Err(Error::StructNotFound),
        }
    }

    /// Position of the first struct named `name`.
    pub(crate) fn find_named(&self, name: &str) -> (r: Option<usize>)
        ensures
            r matches Some(i) ==> is_first_item_named(self@.items, name@, i as int),
            r is None <==> forall|j: int|
                0 <= j < self@.items.len() ==> self@.items[j].struct_of().name != name@,
    {
        let n = self.items.0.len();
        for i in 0..n
            invariant
                n == self.items.0@.len(),
                forall|j: int| 0 <= j < i ==> self@.items[j].struct_of().name != name@,
        {
            match &self.items.0[i] {
                VTableItem::Struct(s) => {
                    if str_eq(s.name.as_str(), name) {
                        assert(self@.items[i as int].struct_of().name == name@);
                        return Some(i);
                    }
                },
            }
        }
        None
    }

    /// The first struct named `name`.
    pub fn struct_by_name(&self, name: &str) -> (res: Result<&VTableStruct, Error>)
        ensures
            res matches Ok(s) ==> exists|i: int|
                is_first_item_named(self@.items, name@, i) && self@.items[i].struct_of() == s@,
            res is Err <==> forall|j: int|
                0 <= j < self@.items.len() ==> self@.items[j].struct_of().name != name@,
            res matches Err(e) ==> e is StructNotFound,
    {
        match self.find_named(name) {
            Some(i) => match &self.items.0[i] {
                VTableItem::Struct(s) => Ok(s),
            },
            None => Err(Error::StructNotFound),
        }
    }

    /// The item index of the first struct named `name`.
    pub fn get_struct_item_index_by_name(&self, name: &str) -> (r: Option<u8>)
        ensures
            r matches Some(idx) ==> exists|i: int|
                is_first_item_named(self@.items, name@, i) && self@.items[i].struct_of().item_index
                    == idx,
            r is None <==> forall|j: int|
                0 <= j < self@.items.len() ==> self@.items[j].struct_of().name != name@,
    {
        match self.find_named(name) {
            Some(i) => match &self.items.0[i] {
                VTableItem::Struct(s) => Some(s.item_index),
            },
            None => None,
        }
    }

    /// The field with field index `field_index` of the struct with item index
    /// `item_index`.
    pub fn get_struct_field_by_index(
        &self,
        item_index: VTableItemIndex,
        field_index: VTableFieldIndex,
    ) -> (res: Result<&VTableField, Error>)
        ensures
            res matches Ok(f) ==> exists|s: StructModel, i: int|
                found_struct(self@.items, item_index, s) && is_first_with_field_index(
                    s.fields,
                    field_index,
                    i,
                ) && f@ == s.fields[i],
            no_struct_found(self@.items, item_index) ==> (res matches Err(e) && e is StructNotFound),
            res matches Err(e) ==> (e is StructNotFound && no_struct_found(self@.items, item_index))
                || (e is FieldNotFound && exists|s: StructModel|
                found_struct(self@.items, item_index, s) && forall|j: int|
                    0 <= j < s.fields.len() ==> s.fields[j].index != field_index),
    {
        let vtable_struct = self.struct_by_index(item_index)?;
        vtable_struct.field_by_index(&field_index)
    }

    /// The field with field index `field_index` of the item with item index
    /// `item_index`.
    pub fn get_item_field_by_index(
        &self,
        item_index: VTableItemIndex,
        field_index: VTableFieldIndex,
    ) -> (res: Result<&VTableField, Error>)
        ensures
            res matches Ok(f) ==> exists|s: StructModel, i: int|
                found_struct(self@.items, item_index, s) && is_first_with_field_index(
                    s.fields,
                    field_index,
                    i,
                ) && f@ == s.fields[i],
            no_struct_found(self@.items, item_index) ==> (res matches Err(e) && e is ItemNotFound),
            res matches Err(e) ==> (e is ItemNotFound && no_struct_found(self@.items, item_index))
                || (e is FieldNotFound && exists|s: StructModel|
                found_struct(self@.items, item_index, s) && forall|j: int|
                    0 <= j < s.fields.len() ==> s.fields[j].index != field_index),
    {
        match self.item_by_index(item_index)? {
            VTableItem::Struct(vtable_struct) => match vtable_struct.field_by_index(&field_index) {
                Ok(f) => Ok(f),
                Err(_) => Err(Error::FieldNotFound),
            },
        }
    }

    /// The field at the (item index, field index) pair of an offset.
    pub fn get_field_by_offset_index(&self, index: VTableFieldOffsetIndex) -> (res: Result<
        &VTableField,
        Error,
    >)
        ensures
            res matches Ok(f) ==> exists|s: StructModel, i: int|
                found_struct(self@.items, index.0, s) && is_first_with_field_index(
                    s.fields,
                    index.1,
                    i,
                ) && f@ == s.fields[i],
            no_struct_found(self@.items, index.0) ==> (res matches Err(e) && e is ItemNotFound),
            res matches Err(e) ==> (e is ItemNotFound && no_struct_found(self@.items, index.0))
                || (e is FieldNotFound && exists|s: StructModel|
                found_struct(self@.items, index.0, s) && forall|j: int|
                    0 <= j < s.fields.len() ==> s.fields[j].index != index.1),
            res matches Ok(f) ==> field_found(self@.items, index, f@),
            res is Err ==> no_field_found(self@.items, index),
    {
        self.get_item_field_by_index(index.0, index.1)
    }

    /// All the fields of the vtable, item after item.
    pub fn fields(&self) -> (r: VTableFields)
        ensures
            r@ == all_fields(self@.items),
    {
        let n = self.items.0.len();
        let mut all = VTableFields::new();
        for i in 0..n
            invariant
                n == self.items.0@.len(),
                all@ == all_fields(self@.items.subrange(0, i as int)),
        {
            let ghost before = all@;
            match &self.items.0[i] {
                VTableItem::Struct(s) => {
                    let m = s.fields.0.len();
                    for j in 0..m
                        invariant
                            m == s.fields.0@.len(),
                            all@ == before + s.fields@.subrange(0, j as int),
                    {
                        all.add_field(s.fields.0[j].duplicate());
                        assert(all@ =~= before + s.fields@.subrange(0, j + 1));
                    }
                    assert(s.fields@.subrange(0, m as int) =~= s.fields@);
                },
            }
            assert(self@.items.subrange(0, i + 1).drop_last() =~= self@.items.subrange(0, i as int));
        }
        assert(self@.items.subrange(0, n as int) =~= self@.items);
        all
    }


    /// Merges the items of `other`: each item not already present (as an
    /// equal item) is added as the next struct.
    pub fn merge_vtable(&mut self, other: &VTable)
        requires
            merged(old(self)@, other@.items) is Some,
        ensures
            final(self)@ == merged(old(self)@, other@.items).unwrap(),
    {
        let n = other.items.0.len();
        let ghost others = other@.items;
        for i in 0..n
            invariant
                n == other.items.0@.len(),
                others == other@.items,
                merged(old(self)@, others) is Some,
                merged(old(self)@, others.subrange(0, i as int)) == Some(self@),
        {
            proof {
                assert(others.subrange(0, i + 1).drop_last() =~= others.subrange(0, i as int));
                if merged(old(self)@, others.subrange(0, i + 1)) is None {
                    lemma_merged_prefix(old(self)@, others, i + 1, n as int);
                    assert(others.subrange(0, n as int) =~= others);
                }
            }
            let item = &other.items.0[i];
            if !self.items.contains(item) {
                match item {
                    VTableItem::Struct(vtable_struct) => {
                        self.add_struct(vtable_struct.duplicate());
                    },
                }
            }
        }
        assert(others.subrange(0, n as int) =~= others);
    }

    /// The two-byte hash tag of `tag` (little-endian): a simple hash; tags
    /// start to collide from about 2^8 samples.
    pub fn hash_tag(tag: &str) -> (r: [u8; 2])
        requires
            hash_tag_fits(encode_utf8(tag@)),
        ensures
            r@ == hash_tag_of(encode_utf8(tag@)),
    {
        let bytes = tag.as_bytes();
        let len = bytes.len() as u16;
        let mut acc: u16 = 0;
        let n = bytes.len();
        for i in 0..n
            invariant
                n == bytes@.len(),
                bytes@ == encode_utf8(tag@),
                len == n as u16,
                hash_tag_fits(bytes@),
                acc == hash_fold(bytes@, len, i as nat),
        {
            assert(bytes@[i as int] + len + (i as u16) <= u16::MAX);
            acc = acc.wrapping_add(bytes[i] as u16 + len + i as u16).wrapping_mul(HASH_PRIME_CONST);
        }
        let r = [(acc % 256) as u8, (acc / 256) as u8];
        assert(r@ =~= u16_le_bytes(acc));
        r
    }

    /// Whether `tag` can be hashed without overflowing 16 bits (see
    /// `hash_tag_fits`).
    pub fn tag_fits(tag: &str) -> (r: bool)
        ensures
            r == hash_tag_fits(encode_utf8(tag@)),
    {
        let bytes = tag.as_bytes();
        let n = bytes.len();
        let len = n as u16;
        for i in 0..n
            invariant
                n == bytes@.len(),
                bytes@ == encode_utf8(tag@),
                len == n as u16,
                forall|j: int| 0 <= j < i ==> #[trigger] bytes@[j] + len + (j as u16) <= u16::MAX,
        {
            if bytes[i] as u32 + len as u32 + (i as u16) as u32 > u16::MAX as u32 {
                return false;
            }
        }
        true
    }

    /// The identifier of the vtable, where both names can be hashed without
    /// overflow; `None` where one of them cannot.
    pub fn try_id(&self) -> (r: Option<VTableId>)
        ensures
            r is Some <==> hash_tag_fits(encode_utf8(self.namespace@)) && hash_tag_fits(
                encode_utf8(self.root@),
            ),
            r matches Some(id) ==> id@ == vtable_id_bytes(self@),
    {
        if Self::tag_fits(self.namespace.as_str()) && Self::tag_fits(self.root.as_str()) {
            Some(self.id())
        } else {
            None
        }
    }

    /// Whether the counts give a number of offsets: fewer than `u16::MAX`
    /// fields, and at most one item more than fields.
    pub fn offset_counts_fit(&self) -> (r: bool)
        ensures
            r == (self.num_fields < u16::MAX && self.num_items <= self.num_fields + 1),
    {
        self.num_fields < u16::MAX && (self.num_items as u16) <= self.num_fields + 1
    }

    /// The hash tag of the namespace.
    pub fn namespace_tag(&self) -> (r: [u8; 2])
        requires
            hash_tag_fits(encode_utf8(self.namespace@)),
        ensures
            r@ == hash_tag_of(encode_utf8(self.namespace@)),
    {
        Self::hash_tag(self.namespace.as_str())
    }

    /// The hash tag of the root name.
    pub fn root_tag(&self) -> (r: [u8; 2])
        requires
            hash_tag_fits(encode_utf8(self.root@)),
        ensures
            r@ == hash_tag_of(encode_utf8(self.root@)),
    {
        Self::hash_tag(self.root.as_str())
    }

    /// The identifier of the vtable, computed from its names and counts.
    pub fn id(&self) -> (r: VTableId)
        requires
            hash_tag_fits(encode_utf8(self.namespace@)),
            hash_tag_fits(encode_utf8(self.root@)),
        ensures
            r@ == vtable_id_bytes(self@),
    {
        let ns = self.namespace_tag();
        let rt = self.root_tag();
        let a = self.namespace.as_str().as_bytes().len();
        let b = self.root.as_str().as_bytes().len();
        let count = ((a % 256 + b % 256) % 256) as u8;
        proof {
            vstd::arithmetic::div_mod::lemma_add_mod_noop(a as int, b as int, 256);
            assert(a == encode_utf8(self.namespace@).len());
            assert(b == encode_utf8(self.root@).len());
            assert((a % 256 + b % 256) % 256 == (a + b) % 256);
        }
        assert(count == ((encode_utf8(self.namespace@).len() + encode_utf8(self.root@).len()) % 256) as u8);
        let nf = [(self.num_fields % 256) as u8, (self.num_fields / 256) as u8];
        let id = [ns[0], ns[1], rt[0], rt[1], count, self.num_items, nf[0], nf[1]];
        assert(id@ =~= vtable_id_bytes(self@));
        VTableId(id)
    }

    /// Estimated size of a document: 255 bytes per field.
    pub fn avg_size(&self) -> (n: usize)
        ensures
            n == self.num_fields * 255,
    {
        self.num_fields as usize * AVG_FIELD_SIZE_IN_BYTES as usize
    }

    /// Suggested page size: the estimated document size times the number of
    /// entries (255 when not given).
    pub fn page_size(&self, num_entries: Option<usize>) -> (n: usize)
        requires
            self.num_fields * 255 * (match num_entries {
                Some(e) => e as int,
                None => 255,
            }) <= usize::MAX,
        ensures
            n == self.num_fields * 255 * (match num_entries {
                Some(e) => e as int,
                None => 255,
            }),
    {
        let entries = match num_entries {
            Some(e) => e,
            None => DEFAULT_ENTRIES_PER_PAGE as usize,
        };
        self.avg_size() * entries
    }

    /// A zeroed buffer of twice the estimated document size.
    pub fn alloc_buf(&self) -> (b: Vec<u8>)
        ensures
            b@.len() == self.num_fields * 255 * 2,
            forall|i: int| 0 <= i < b@.len() ==> b@[i] == 0,
    {
        let n = self.avg_size() * 2;
        let mut b: Vec<u8> = Vec::with_capacity(n);
        for i in 0..n
            invariant
                b@.len() == i,
                forall|j: int| 0 <= j < i ==> b@[j] == 0,
        {
            b.push(0);
        }
        b
    }

    /// The number of field offsets of a document: one per field, plus one for
    /// the root item, less one per item.
    pub fn num_offsets(&self) -> (n: u16)
        requires
            self.num_fields < u16::MAX,
            self.num_items <= self.num_fields + 1,
        ensures
            n == self.num_fields + 1 - self.num_items,
    {
        self.num_fields + 1 - self.num_items as u16
    }

    /// The number of bytes of the encoded field offsets of a document.
    pub fn offset_len(&self) -> (n: usize)
        requires
            self.num_fields < u16::MAX,
            self.num_items <= self.num_fields + 1,
        ensures
            n == (self.num_fields + 1 - self.num_items) * 18,
    {
        self.num_offsets() as usize * VTABLE_FIELD_OFFSET_SIZE_BYTES
    }

    /// Checks that encoded offsets hold as many offsets as the vtable expects.
    pub fn check_offsets(&self, offsets: &[u8]) -> (res: Result<(), Error>)
        requires
            self.num_fields < u16::MAX,
            self.num_items <= self.num_fields + 1,
        ensures
            ({
                let expected = (self.num_fields + 1 - self.num_items) as u16;
                let found = (offsets@.len() / 18) as u16;
                &&& found == expected ==> res is Ok
                &&& found != expected ==> res == Err::<(), Error>(
                    Error::InvalidOffsets(expected, found),
                )
            }),
    {
        let num_offsets = (offsets.len() / VTABLE_FIELD_OFFSET_SIZE_BYTES) as u16;
        if num_offsets != self.num_offsets() {
            return Err(Error::InvalidOffsets(self.num_offsets(), num_offsets));
        }
        Ok(())
    }

    /// Whether two vtables are equal: names, items (as far as both lists go),
    /// and counts.
    pub fn eq_vtable(&self, other: &Self) -> (r: bool)
        ensures
            r == (self@.namespace == other@.namespace && self@.root == other@.root
                && crate::item::items_agree(self@.items, other@.items) && self@.num_items
                == other@.num_items && self@.num_fields == other@.num_fields),
    {
        str_eq(self.namespace.as_str(), other.namespace.as_str()) && str_eq(
            self.root.as_str(),
            other.root.as_str(),
        ) && self.items.eq_items(&other.items) && self.num_items == other.num_items
            && self.num_fields == other.num_fields
    }
}

} // verus!
