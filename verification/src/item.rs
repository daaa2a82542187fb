//! The items of a vtable. Every item is a struct; an item is written as a
//! kind byte followed by the struct.
use vstd::prelude::*;
use crate::bytes::{lemma_split_at, take_front};
use crate::error::Error;
use crate::structs::{
    lemma_struct_roundtrip, parse_struct_at, struct_bytes, struct_roundtrip_ok, StructModel,
    VTableStruct,
};

verus! {

/// An item of the vtable.
#[derive(Debug)]
pub enum VTableItem {
    Struct(VTableStruct),
}

/// Model of an item.
pub enum ItemModel {
    Struct(StructModel),
}

impl View for VTableItem {
    type V = ItemModel;

    open spec fn view(&self) -> ItemModel {
        match self {
            VTableItem::Struct(s) => ItemModel::Struct(s@),
        }
    }
}

impl ItemModel {
    /// The struct of the item.
    pub open spec fn struct_of(self) -> StructModel {
        match self {
            ItemModel::Struct(s) => s,
        }
    }
}

/// Encoding of an item: the kind byte (0 for a struct), then the struct.
pub open spec fn item_bytes(i: ItemModel) -> Seq<u8> {
    match i {
        ItemModel::Struct(s) => seq![0u8] + struct_bytes(s),
    }
}

/// The encoding of a list of items, in order.
pub open spec fn items_bytes(s: Seq<ItemModel>) -> Seq<u8>
    decreases s.len(),
{
    if s.len() == 0 {
        Seq::empty()
    } else {
        items_bytes(s.drop_last()) + item_bytes(s.last())
    }
}

/// Reading an item at `p`. Only the struct kind (0) is known; reading
/// another kind is not supported.
pub open spec fn parse_item_at(b: Seq<u8>, p: int) -> Option<(Result<ItemModel, Error>, int)> {
    if p < 0 || p >= b.len() || b[p] != 0 {
        None
    } else {
        match parse_struct_at(b, p + 1) {
            None => None,
            Some((Err(e), q)) => Some((Err(e), q)),
            Some((Ok(s), q)) => Some((Ok(ItemModel::Struct(s)), q)),
        }
    }
}

/// Reading `n` items one after the other from position `p`.
pub open spec fn parse_items_at(b: Seq<u8>, p: int, n: nat) -> Option<
    (Result<Seq<ItemModel>, Error>, int),
>
    decreases n,
{
    if n == 0 {
        Some((Ok(Seq::empty()), p))
    } else {
        match parse_items_at(b, p, (n - 1) as nat) {
            None => None,
            Some((Err(e), q)) => Some((Err(e), q)),
            Some((Ok(items), q)) => match parse_item_at(b, q) {
                None => None,
                Some((Err(e), q2)) => Some((Err(e), q2)),
                Some((Ok(i), q2)) => Some((Ok(items.push(i)), q2)),
            },
        }
    }
}

/// Once reading some of the items stops, reading more of them stops at the
/// same place.
pub proof fn lemma_items_prefix(b: Seq<u8>, p: int, k: nat, n: nat)
    requires
        k <= n,
        !(parse_items_at(b, p, k) matches Some((Ok(_), _))),
    ensures
        parse_items_at(b, p, n) == parse_items_at(b, p, k),
    decreases n,
{
    if n > k {
        lemma_items_prefix(b, p, k, (n - 1) as nat);
    }
}

/// One more step of reading items: the next item can be read, and either
/// extends the items read so far or ends the reading with its error.
pub proof fn lemma_items_step(
    b: Seq<u8>,
    p: int,
    k: nat,
    n: nat,
    items: Seq<ItemModel>,
    cur: int,
)
    requires
        k < n,
        parse_items_at(b, p, n) is Some,
        parse_items_at(b, p, k) == Some((Ok::<Seq<ItemModel>, Error>(items), cur)),
    ensures
        parse_item_at(b, cur) is Some,
        parse_item_at(b, cur) matches Some((Ok(i), q)) ==> parse_items_at(b, p, k + 1) == Some(
            (Ok::<Seq<ItemModel>, Error>(items.push(i)), q),
        ),
        parse_item_at(b, cur) matches Some((Err(e), q)) ==> parse_items_at(b, p, n) == Some(
            (Err::<Seq<ItemModel>, Error>(e), q),
        ),
{
    if !(parse_item_at(b, cur) matches Some((Ok(_), _))) {
        lemma_items_prefix(b, p, k + 1, n);
    }
}

/// An item that reads back as itself.
pub open spec fn item_roundtrip_ok(i: ItemModel) -> bool {
    struct_roundtrip_ok(i.struct_of())
}

/// Reading encoded items gives the items back.
pub proof fn lemma_items_roundtrip(items: Seq<ItemModel>, b: Seq<u8>, p: int)
    requires
        0 <= p,
        forall|i: int| 0 <= i < items.len() ==> item_roundtrip_ok(#[trigger] items[i]),
        p + items_bytes(items).len() <= b.len(),
        b.subrange(p, p + items_bytes(items).len()) == items_bytes(items),
    ensures
        parse_items_at(b, p, items.len()) == Some(
            (Ok::<Seq<ItemModel>, Error>(items), p + items_bytes(items).len()),
        ),
    decreases items.len(),
{
    if items.len() == 0 {
        assert(items =~= Seq::<ItemModel>::empty());
    } else {
        let init = items.drop_last();
        let last = items.last();
        lemma_split_at(b, p, items_bytes(init), item_bytes(last));
        assert forall|i: int| 0 <= i < init.len() implies item_roundtrip_ok(#[trigger] init[i]) by {
            assert(init[i] == items[i]);
        }
        lemma_items_roundtrip(init, b, p);
        assert(item_roundtrip_ok(items[items.len() - 1]));
        let q = p + items_bytes(init).len();
        let s = last.struct_of();
        lemma_split_at(b, q, seq![0u8], struct_bytes(s));
        assert(b[q] == 0) by {
            assert(b.subrange(q, q + 1)[0] == b[q]);
        }
        lemma_struct_roundtrip(s, b, q + 1);
        assert(init.push(last) =~= items);
    }
}

impl VTableItem {
    /// The kind byte of the item: 0 for a struct.
    pub fn kind(&self) -> (k: u8)
        ensures
            k == 0,
    {
        match self {
            VTableItem::Struct(_) => 0,
        }
    }

    /// An empty item of the given kind; only the struct kind (0) is known.
    pub fn from_kind(value: u8) -> (i: Self)
        requires
            value == 0,
        ensures
            i@ == ItemModel::Struct(
                StructModel {
                    item_index: 0,
                    name: Seq::empty(),
                    fields: Seq::empty(),
                    num_fields: 0,
                },
            ),
    {
        VTableItem::Struct(VTableStruct::default())
    }

    /// Appends the encoding of the item.
    pub fn write_to_buffer(&self, buffer: &mut Vec<u8>) -> (res: Result<(), Error>)
        ensures
            res is Ok,
            final(buffer)@ == old(buffer)@ + item_bytes(self@),
    {
        buffer.push(self.kind());
        match self {
            VTableItem::Struct(vtable_struct) => {
                let _ = vtable_struct.write_to_buffer(buffer);
                assert(buffer@ =~= old(buffer)@ + item_bytes(self@));
            },
        }
        Ok(())
    }

    /// Reads an item at `pos`; returns the outcome and the position after it.
    pub fn read_at(buf: &[u8], pos: usize) -> (r: (Result<Self, Error>, usize))
        requires
            parse_item_at(buf@, pos as int) is Some,
        ensures
            ({
                let (expected, next) = parse_item_at(buf@, pos as int).unwrap();
                &&& r.1 == next
                &&& r.1 <= buf@.len()
                &&& match (r.0, expected) {
                    (Ok(i), Ok(m)) => i@ == m,
                    (Err(e1), Err(e2)) => e1 == e2,
                    _ => false,
                }
            }),
    {
        let kind = Self::from_kind(buf[pos]);
        match kind {
            VTableItem::Struct(_) => match VTableStruct::read_at(buf, pos + 1) {
                (Ok(s), q) => (Ok(VTableItem::Struct(s)), q),
                (Err(e), q) => (Err(e), q),
            },
        }
    }

    /// Removes an encoded item from the front of the buffer and returns it.
    pub fn read_from_buffer(buffer: &mut Vec<u8>) -> (res: Result<Self, Error>)
        requires
            parse_item_at(old(buffer)@, 0) is Some,
        ensures
            ({
                let (expected, next) = parse_item_at(old(buffer)@, 0).unwrap();
                &&& final(buffer)@ == old(buffer)@.subrange(next, old(buffer)@.len() as int)
                &&& match (res, expected) {
                    (Ok(i), Ok(m)) => i@ == m,
                    (Err(e1), Err(e2)) => e1 == e2,
                    _ => false,
                }
            }),
    {
        let (res, next) = Self::read_at(buffer.as_slice(), 0);
        let _ = take_front(buffer, next);
        res
    }

    /// A copy of the item with the same model.
    pub fn duplicate(&self) -> (r: Self)
        ensures
            r@ == self@,
    {
        match self {
            VTableItem::Struct(s) => VTableItem::Struct(s.duplicate()),
        }
    }

    /// Whether two items are equal.
    pub fn eq_item(&self, other: &Self) -> (r: bool)
        ensures
            r == (self@ == other@),
    {
        match (self, other) {
            (VTableItem::Struct(a), VTableItem::Struct(b)) => a.eq_struct(b),
        }
    }
}

/// The items of a vtable.
#[derive(Debug)]
pub struct VTableItems(pub Vec<VTableItem>);

impl View for VTableItems {
    type V = Seq<ItemModel>;

    open spec fn view(&self) -> Seq<ItemModel> {
        self.0@.map_values(|i: VTableItem| i@)
    }
}

/// Two lists of items agree on every position both of them have.
pub open spec fn items_agree(a: Seq<ItemModel>, b: Seq<ItemModel>) -> bool {
    forall|i: int| 0 <= i < a.len() && i < b.len() ==> a[i] == b[i]
}

impl VTableItems {
    /// No items.
    pub fn new() -> (r: Self)
        ensures
            r@ == Seq::<ItemModel>::empty(),
    {
        let r = Self(Vec::with_capacity(256));
        assert(r@ =~= Seq::<ItemModel>::empty());
        r
    }

    /// Adds a struct item at the end.
    pub fn add_struct(&mut self, vtable_struct: VTableStruct)
        ensures
            final(self)@ == old(self)@.push(ItemModel::Struct(vtable_struct@)),
    {
        self.0.push(VTableItem::Struct(vtable_struct));
        assert(self@ =~= old(self)@.push(ItemModel::Struct(vtable_struct@)));
    }

    /// Adds an item at the end.
    pub fn push_item(&mut self, item: VTableItem)
        ensures
            final(self)@ == old(self)@.push(item@),
    {
        self.0.push(item);
        assert(self@ =~= old(self)@.push(item@));
    }

    /// The items, in order.
    pub fn inner(&self) -> (r: &Vec<VTableItem>)
        ensures
            r@ == self.0@,
    {
        &self.0
    }

    /// The items, in order, for changes.
    pub fn inner_mut(&mut self) -> (r: &mut Vec<VTableItem>)
        ensures
            *r == old(self).0,
            final(self).0 == *final(r),
    {
        &mut self.0
    }

    /// The number of items.
    pub fn len(&self) -> (n: usize)
        ensures
            n == self@.len(),
    {
        self.0.len()
    }

    /// Appends the encoding of every item, in order.
    pub fn write_to_buffer(&self, buffer: &mut Vec<u8>) -> (res: Result<(), Error>)
        ensures
            res is Ok,
            final(buffer)@ == old(buffer)@ + items_bytes(self@),
    {
        let n = self.0.len();
        for i in 0..n
            invariant
                n == self.0@.len(),
                buffer@ == old(buffer)@ + items_bytes(self@.subrange(0, i as int)),
        {
            let _ = self.0[i].write_to_buffer(buffer);
            proof {
                let s = self@.subrange(0, i + 1);
                assert(s.drop_last() =~= self@.subrange(0, i as int));
                vstd::seq_lib::lemma_concat_associative(
                    old(buffer)@,
                    items_bytes(self@.subrange(0, i as int)),
                    item_bytes(self@[i as int]),
                );
            }
        }
        assert(self@.subrange(0, n as int) =~= self@);
        Ok(())
    }

    /// Whether one of the items equals `item`.
    pub fn contains(&self, item: &VTableItem) -> (r: bool)
        ensures
            r == self@.contains(item@),
    {
        let n = self.0.len();
        for i in 0..n
            invariant
                n == self.0@.len(),
                forall|j: int| 0 <= j < i ==> self@[j] != item@,
        {
            if self.0[i].eq_item(item) {
                assert(self@[i as int] == item@);
                return true;
            }
        }
        false
    }

    /// Whether the two lists agree item by item, as far as both go.
    pub fn eq_items(&self, other: &Self) -> (r: bool)
        ensures
            r == items_agree(self@, other@),
    {
        let n = if self.0.len() < other.0.len() {
            self.0.len()
        } else {
            other.0.len()
        };
        for i in 0..n
            invariant
                n <= self.0@.len(),
                n <= other.0@.len(),
                n == self.0@.len() || n == other.0@.len(),
                forall|j: int| 0 <= j < i ==> self@[j] == other@[j],
        {
            if !self.0[i].eq_item(&other.0[i]) {
                assert(self@[i as int] != other@[i as int]);
                return false;
            }
        }
        true
    }

    /// A copy of the items with the same model.
    pub fn duplicate(&self) -> (r: Self)
        ensures
            r@ == self@,
    {
        let n = self.0.len();
        let mut r = Self(Vec::new());
        for i in 0..n
            invariant
                n == self.0@.len(),
                r@ == self@.subrange(0, i as int),
        {
            r.push_item(self.0[i].duplicate());
            assert(r@ =~= self@.subrange(0, i + 1));
        }
        assert(r@ =~= self@);
        r
    }
}

} // verus!
