//! Predicates over the fields of encoded documents, used to search the
//! database.
use vstd::prelude::*;
use vstd::slice::slice_subrange;
use crate::db_error::DbError;
use crate::field::{FieldModel, VTableField};
use crate::field_type::{FieldTypeModel, VTableFieldType};
use crate::numeric::{integer_value, lemma_compare_is_integer_order, lemma_numeric_roundtrip, spec_decode_value, tag_width, NumericValue};
use crate::offset::{is_first_with_index, VTableFieldOffset, VTableFieldOffsetIndex, VTableFieldOffsets};
use crate::error::Error;
use crate::table::{field_found, lemma_field_found_unique, no_field_found, no_struct_found, VTable};

verus! {

/// A comparison of one field of a document with a value.
#[derive(Debug, Clone)]
pub struct Predicate {
    /// The item and field index of the field to compare.
    item_index: u8,
    field_index: u8,
    /// The value to compare against.
    value: Vec<u8>,
    /// The expected ordering of the value with respect to the field: below
    /// zero for less, zero for equal, above zero for greater.
    order: i8,
}

/// Model of a predicate.
pub struct PredicateModel {
    pub item_index: u8,
    pub field_index: u8,
    pub value: Seq<u8>,
    pub order: i8,
}

impl View for Predicate {
    type V = PredicateModel;

    closed spec fn view(&self) -> PredicateModel {
        PredicateModel {
            item_index: self.item_index,
            field_index: self.field_index,
            value: self.value@,
            order: self.order,
        }
    }
}

/// The sign (-1, 0 or 1) of an ordering number.
pub open spec fn order_sign(order: i8) -> i8 {
    if order < 0 {
        -1i8
    } else if order == 0 {
        0i8
    } else {
        1i8
    }
}

/// The lexicographic comparison of two byte strings, as a sign: a proper
/// prefix comes first.
pub open spec fn lex_sign(a: Seq<u8>, b: Seq<u8>) -> i8
    decreases a.len(),
{
    if a.len() == 0 && b.len() == 0 {
        0i8
    } else if a.len() == 0 {
        -1i8
    } else if b.len() == 0 {
        1i8
    } else if a[0] < b[0] {
        -1i8
    } else if a[0] > b[0] {
        1i8
    } else {
        lex_sign(a.drop_first(), b.drop_first())
    }
}

/// The numeric-value tag of a numeric field type.
pub open spec fn numeric_tag_of(t: FieldTypeModel) -> Option<u8> {
    match t {
        FieldTypeModel::U8 => Some(0u8),
        FieldTypeModel::U16 => Some(1u8),
        FieldTypeModel::U32 => Some(2u8),
        FieldTypeModel::U64 => Some(3u8),
        FieldTypeModel::U128 => Some(4u8),
        FieldTypeModel::USIZE => Some(5u8),
        FieldTypeModel::F32 => Some(6u8),
        FieldTypeModel::F64 => Some(7u8),
        FieldTypeModel::I8 => Some(8u8),
        FieldTypeModel::I16 => Some(9u8),
        FieldTypeModel::I32 => Some(10u8),
        FieldTypeModel::I64 => Some(11u8),
        FieldTypeModel::I128 => Some(12u8),
        FieldTypeModel::ISIZE => Some(13u8),
        _ => None,
    }
}

/// Whether the value compares with the field's data as `order` expects:
/// numbers by their value (floats as IEEE-754 orders them, never matching a
/// NaN), anything else by its bytes.
pub open spec fn compares_as(t: FieldTypeModel, value: Seq<u8>, data: Seq<u8>, order: i8) -> bool {
    match numeric_tag_of(t) {
        Some(tag) => {
            let w = tag_width(tag) as int;
            spec_decode_value(tag, value.subrange(0, w)).spec_compare(
                spec_decode_value(tag, data.subrange(0, w)),
            ) == Some(order_sign(order))
        },
        None => lex_sign(value, data) == order_sign(order),
    }
}

/// The bytes of `buffer` in the range of `o`.
pub open spec fn offset_data(buffer: Seq<u8>, o: VTableFieldOffset) -> Seq<u8> {
    buffer.subrange(o.1.start as int, o.1.end as int)
}

/// A predicate can be evaluated on a document without failing on its input:
/// the field's range lies in the buffer and, when a comparison decodes
/// numbers, both the value and the data hold one; an optional field is not
/// compared by order.
pub open spec fn evaluable(
    p: PredicateModel,
    offsets: Seq<VTableFieldOffset>,
    buffer: Seq<u8>,
    items: Seq<crate::item::ItemModel>,
) -> bool {
    forall|i: int|
        #[trigger] is_first_with_index(offsets, (p.item_index, p.field_index), i) ==> {
            let o = offsets[i];
            &&& o.1.start <= o.1.end <= buffer.len()
            &&& p.order != 0 ==> forall|f: FieldModel|
                #[trigger] field_found(items, (p.item_index, p.field_index), f) ==> {
                    &&& !(f.field_type is Option)
                    &&& numeric_tag_of(f.field_type) matches Some(tag) ==> p.value.len()
                        >= tag_width(tag) && o.1.end - o.1.start >= tag_width(tag)
                }
        }
}

/// The outcome of a predicate on a document: `None` for an error (no field
/// at the predicate's index in the vtable), else whether it holds. A field
/// without an offset never matches; an equality compares the bytes.
pub open spec fn predicate_holds(
    p: PredicateModel,
    offsets: Seq<VTableFieldOffset>,
    buffer: Seq<u8>,
    items: Seq<crate::item::ItemModel>,
) -> Option<bool> {
    let idx = (p.item_index, p.field_index);
    if !(exists|i: int| is_first_with_index(offsets, idx, i)) {
        Some(false)
    } else {
        let o = offsets[choose|i: int| is_first_with_index(offsets, idx, i)];
        let data = offset_data(buffer, o);
        if p.order == 0 {
            Some(p.value == data)
        } else if no_field_found(items, idx) {
            None
        } else {
            let f = choose|f: FieldModel| field_found(items, idx, f);
            Some(compares_as(f.field_type, p.value, data, p.order))
        }
    }
}

/// The error of looking up the field at `idx` where none is found: no
/// struct with the item index, else no field with the field index.
pub open spec fn lookup_error(items: Seq<crate::item::ItemModel>, idx: VTableFieldOffsetIndex) -> Error {
    if no_struct_found(items, idx.0) {
        Error::ItemNotFound
    } else {
        Error::FieldNotFound
    }
}

/// The error a predicate fails with: that of looking up its field.
pub open spec fn predicate_error(p: PredicateModel, items: Seq<crate::item::ItemModel>) -> Error {
    lookup_error(items, (p.item_index, p.field_index))
}

/// At most one offset is the first with a given index.
pub proof fn lemma_first_offset_unique(
    s: Seq<VTableFieldOffset>,
    idx: VTableFieldOffsetIndex,
    i: int,
    j: int,
)
    requires
        is_first_with_index(s, idx, i),
        is_first_with_index(s, idx, j),
    ensures
        i == j,
{
    if i < j {
        assert(s[i].0 == idx);
    } else if j < i {
        assert(s[j].0 == idx);
    }
}

/// The numeric-value tag of a numeric field type.
fn numeric_tag(t: &VTableFieldType) -> (r: Option<u8>)
    ensures
        r == numeric_tag_of(t@),
{
    match t {
        VTableFieldType::U8 => Some(0),
        VTableFieldType::U16 => Some(1),
        VTableFieldType::U32 => Some(2),
        VTableFieldType::U64 => Some(3),
        VTableFieldType::U128 => Some(4),
        VTableFieldType::USIZE => Some(5),
        VTableFieldType::F32 => Some(6),
        VTableFieldType::F64 => Some(7),
        VTableFieldType::I8 => Some(8),
        VTableFieldType::I16 => Some(9),
        VTableFieldType::I32 => Some(10),
        VTableFieldType::I64 => Some(11),
        VTableFieldType::I128 => Some(12),
        VTableFieldType::ISIZE => Some(13),
        _ => None,
    }
}

/// The lexicographic comparison of two byte strings, as a sign.
fn compare_bytes(a: &[u8], b: &[u8]) -> (r: i8)
    ensures
        r == lex_sign(a@, b@),
    decreases a@.len(),
{
    if a.len() == 0 && b.len() == 0 {
        0
    } else if a.len() == 0 {
        -1
    } else if b.len() == 0 {
        1
    } else if a[0] < b[0] {
        -1
    } else if a[0] > b[0] {
        1
    } else {
        let ra = slice_subrange(a, 1, a.len());
        let rb = slice_subrange(b, 1, b.len());
        assert(ra@ =~= a@.drop_first());
        assert(rb@ =~= b@.drop_first());
        compare_bytes(ra, rb)
    }
}

/// Whether two byte strings are equal.
fn bytes_equal(a: &[u8], b: &[u8]) -> (r: bool)
    ensures
        r == (a@ == b@),
{
    if a.len() != b.len() {
        return false;
    }
    let n = a.len();
    for i in 0..n
        invariant
            n == a@.len(),
            n == b@.len(),
            forall|j: int| 0 <= j < i ==> a@[j] == b@[j],
    {
        if a[i] != b[i] {
            assert(a@[i as int] != b@[i as int]);
            return false;
        }
    }
    assert(a@ =~= b@);
    true
}

/// The expected ordering of a predicate's value with respect to the field.
#[derive(Debug, Clone, Copy, PartialEq, Eq)]
pub enum PredicateOrder {
    Less,
    Equal,
    Greater,
}

/// The sign of an ordering.
fn order_number(order: PredicateOrder) -> (r: i8)
    ensures
        order is Less ==> r == -1,
        order is Equal ==> r == 0,
        order is Greater ==> r == 1,
{
    match order {
        PredicateOrder::Less => -1,
        PredicateOrder::Equal => 0,
        PredicateOrder::Greater => 1,
    }
}

impl Predicate {
    /// A predicate comparing `compare_value` with the data of `field`.
    pub fn new(field: &VTableField, compare_value: Vec<u8>, order: PredicateOrder) -> (p: Predicate)
        ensures
            p@.item_index == field.item_index,
            p@.field_index == field.index,
            p@.value == compare_value@,
            order is Less ==> p@.order == -1,
            order is Equal ==> p@.order == 0,
            order is Greater ==> p@.order == 1,
    {
        let offset = field.offset_index();
        Self {
            item_index: offset.0,
            field_index: offset.1,
            value: compare_value,
            order: order_number(order),
        }
    }

    /// The (item index, field index) pair of the compared field.
    pub fn offset(&self) -> (r: VTableFieldOffsetIndex)
        ensures
            r == (self@.item_index, self@.field_index),
    {
        (self.item_index, self.field_index)
    }

    /// The value compared against.
    pub fn value(&self) -> (r: &[u8])
        ensures
            r@ == self@.value,
    {
        self.value.as_slice()
    }

    /// The expected ordering of the value with respect to the field.
    pub fn order(&self) -> (r: PredicateOrder)
        ensures
            self@.order < 0 ==> r is Less,
            self@.order == 0 ==> r is Equal,
            self@.order > 0 ==> r is Greater,
    {
        if self.order < 0 {
            PredicateOrder::Less
        } else if self.order == 0 {
            PredicateOrder::Equal
        } else {
            PredicateOrder::Greater
        }
    }

    /// Whether the predicate can be evaluated on a document (see `evaluable`).
    pub fn can_eval(&self, vtable: &VTable, offsets: &VTableFieldOffsets, buffer: &[u8]) -> (r: bool)
        ensures
            r == evaluable(self@, offsets@, buffer@, vtable@.items),
    {
        let ghost p = self@;
        let idx = (self.item_index, self.field_index);
        assert(idx == (p.item_index, p.field_index));
        let offset = match offsets.offset(idx) {
            None => {
                proof {
                    assert forall|i: int| !is_first_with_index(offsets@, idx, i) by {
                        if is_first_with_index(offsets@, idx, i) {
                            assert(offsets@[i].0 == idx);
                        }
                    }
                }
                return true;
            },
            Some(o) => o,
        };
        let ghost i = choose|i: int| is_first_with_index(offsets@, idx, i) && *offset == offsets@[i];
        proof {
            assert forall|k: int| is_first_with_index(offsets@, idx, k) implies k == i by {
                lemma_first_offset_unique(offsets@, idx, i, k);
            }
        }
        if !(offset.1.start <= offset.1.end && offset.1.end <= buffer.len()) {
            assert(is_first_with_index(offsets@, idx, i));
            return false;
        }
        if self.order == 0 {
            return true;
        }
        let field = match vtable.get_field_by_offset_index(idx) {
            Ok(f) => f,
            Err(_) => {
                proof {
                    assert forall|f: FieldModel| !field_found(vtable@.items, idx, f) by {
                        if field_found(vtable@.items, idx, f) {
                            lemma_field_found_unique(vtable@.items, idx, f, f);
                        }
                    }
                }
                return true;
            },
        };
        proof {
            lemma_field_found_unique(vtable@.items, idx, field@, field@);
            assert forall|f: FieldModel| field_found(vtable@.items, idx, f) implies f == field@ by {
                lemma_field_found_unique(vtable@.items, idx, field@, f);
            }
            assert(is_first_with_index(offsets@, idx, i));
            assert(field_found(vtable@.items, idx, field@));
        }
        let is_opt = match &field.field_type {
            VTableFieldType::Option(_) => true,
            _ => false,
        };
        assert(is_opt == (field@.field_type is Option));
        let tag = numeric_tag(&field.field_type);
        let fits = match tag {
            Some(t) => {
                let w: usize = if t == 0 || t == 8 {
                    1
                } else if t == 1 || t == 9 {
                    2
                } else if t == 2 || t == 6 || t == 10 {
                    4
                } else if t == 4 || t == 12 {
                    16
                } else {
                    8
                };
                assert(w == tag_width(t));
                self.value.len() >= w && offset.1.end - offset.1.start >= w
            },
            None => true,
        };
        !is_opt && fits
    }

    /// Evaluates the predicate on a document (its offsets and buffer).
    pub fn eval(&self, vtable: &VTable, offsets: &VTableFieldOffsets, buffer: &[u8]) -> (res:
        Result<bool, DbError>)
        requires
            evaluable(self@, offsets@, buffer@, vtable@.items),
        ensures
            match predicate_holds(self@, offsets@, buffer@, vtable@.items) {
                Some(b) => res == Ok::<bool, DbError>(b),
                None => res == Err::<bool, DbError>(DbError::VTable(predicate_error(self@, vtable@.items))),
            },
            res == predicate_result(self@, offsets@, buffer@, vtable@.items),
    {
        let idx = (self.item_index, self.field_index);
        match offsets.offset(idx) {
            None => Ok(false),
            Some(offset) => {
                let ghost i = choose|i: int|
                    is_first_with_index(offsets@, idx, i) && *offset == offsets@[i];
                proof {
                    let k = choose|k: int| is_first_with_index(offsets@, idx, k);
                    lemma_first_offset_unique(offsets@, idx, i, k);
                }
                let data = slice_subrange(buffer, offset.1.start, offset.1.end);
                if self.order == 0 {
                    return Ok(bytes_equal(self.value.as_slice(), data));
                }
                let field = match vtable.get_field_by_offset_index(idx) {
                    Ok(f) => f,
                    Err(e) => return Err(DbError::VTable(e)),
                };
                proof {
                    lemma_field_found_unique(vtable@.items, idx, field@, field@);
                    let g = choose|f: FieldModel| field_found(vtable@.items, idx, f);
                    lemma_field_found_unique(vtable@.items, idx, field@, g);
                }
                match numeric_tag(&field.field_type) {
                    Some(tag) => {
                        let a = NumericValue::decode_value(tag, self.value.as_slice(), 0);
                        let b = NumericValue::decode_value(tag, data, 0);
                        let expected = if self.order < 0 {
                            -1i8
                        } else {
                            1i8
                        };
                        Ok(a.compare_sign(&b) == Some(expected))
                    },
                    None => {
                        let expected = if self.order < 0 {
                            -1i8
                        } else {
                            1i8
                        };
                        Ok(compare_bytes(self.value.as_slice(), data) == expected)
                    },
                }
            },
        }
    }
}

/// A conjunction and a disjunction of predicates.
#[derive(Debug, Clone)]
pub struct Predicates {
    pub and: Vec<Predicate>,
    pub or: Vec<Predicate>,
}

/// The outcomes of predicates evaluated in order, up to the first error.
pub open spec fn all_hold(
    ps: Seq<PredicateModel>,
    offsets: Seq<VTableFieldOffset>,
    buffer: Seq<u8>,
    items: Seq<crate::item::ItemModel>,
) -> Option<bool>
    decreases ps.len(),
{
    if ps.len() == 0 {
        Some(true)
    } else {
        match all_hold(ps.drop_last(), offsets, buffer, items) {
            None => None,
            Some(b) => match predicate_holds(ps.last(), offsets, buffer, items) {
                None => None,
                Some(c) => Some(b && c),
            },
        }
    }
}

/// Whether some predicate holds, evaluated in order up to the first error.
pub open spec fn any_holds(
    ps: Seq<PredicateModel>,
    offsets: Seq<VTableFieldOffset>,
    buffer: Seq<u8>,
    items: Seq<crate::item::ItemModel>,
) -> Option<bool>
    decreases ps.len(),
{
    if ps.len() == 0 {
        Some(false)
    } else {
        match any_holds(ps.drop_last(), offsets, buffer, items) {
            None => None,
            Some(b) => match predicate_holds(ps.last(), offsets, buffer, items) {
                None => None,
                Some(c) => Some(b || c),
            },
        }
    }
}

/// What evaluating one predicate gives: whether it holds, or the error of
/// looking up its field.
pub open spec fn predicate_result(
    p: PredicateModel,
    offsets: Seq<VTableFieldOffset>,
    buffer: Seq<u8>,
    items: Seq<crate::item::ItemModel>,
) -> Result<bool, DbError> {
    match predicate_holds(p, offsets, buffer, items) {
        Some(b) => Ok(b),
        None => Err(DbError::VTable(predicate_error(p, items))),
    }
}

/// Evaluating the conjuncts in order: the first error ends it, else whether
/// every one holds.
pub open spec fn conjunction_result(
    ps: Seq<PredicateModel>,
    offsets: Seq<VTableFieldOffset>,
    buffer: Seq<u8>,
    items: Seq<crate::item::ItemModel>,
) -> Result<bool, DbError>
    decreases ps.len(),
{
    if ps.len() == 0 {
        Ok(true)
    } else {
        match conjunction_result(ps.drop_last(), offsets, buffer, items) {
            Err(e) => Err(e),
            Ok(b) => match predicate_result(ps.last(), offsets, buffer, items) {
                Err(e) => Err(e),
                Ok(c) => Ok(b && c),
            },
        }
    }
}

/// Evaluating the disjuncts in order: the first error ends it, else whether
/// some one holds.
pub open spec fn disjunction_result(
    ps: Seq<PredicateModel>,
    offsets: Seq<VTableFieldOffset>,
    buffer: Seq<u8>,
    items: Seq<crate::item::ItemModel>,
) -> Result<bool, DbError>
    decreases ps.len(),
{
    if ps.len() == 0 {
        Ok(false)
    } else {
        match disjunction_result(ps.drop_last(), offsets, buffer, items) {
            Err(e) => Err(e),
            Ok(b) => match predicate_result(ps.last(), offsets, buffer, items) {
                Err(e) => Err(e),
                Ok(c) => Ok(b || c),
            },
        }
    }
}

/// What evaluating the predicates gives, from each predicate's own result:
/// the conjuncts in order, then the disjuncts, the first error ending it;
/// else whether every conjunct or some disjunct holds.
pub open spec fn predicates_result(
    and: Seq<PredicateModel>,
    or: Seq<PredicateModel>,
    offsets: Seq<VTableFieldOffset>,
    buffer: Seq<u8>,
    items: Seq<crate::item::ItemModel>,
) -> Result<bool, DbError> {
    match conjunction_result(and, offsets, buffer, items) {
        Err(e) => Err(e),
        Ok(a) => match disjunction_result(or, offsets, buffer, items) {
            Err(e) => Err(e),
            Ok(o) => Ok(a || o),
        },
    }
}

/// The error of the first predicate, in order, that fails with one.
pub open spec fn first_error(
    ps: Seq<PredicateModel>,
    offsets: Seq<VTableFieldOffset>,
    buffer: Seq<u8>,
    items: Seq<crate::item::ItemModel>,
) -> Option<Error>
    decreases ps.len(),
{
    if ps.len() == 0 {
        None
    } else {
        match first_error(ps.drop_last(), offsets, buffer, items) {
            Some(e) => Some(e),
            None => if predicate_holds(ps.last(), offsets, buffer, items) is None {
                Some(predicate_error(ps.last(), items))
            } else {
                None
            },
        }
    }
}

impl Predicates {
    /// The predicates with `predicate` as their only conjunct.
    pub fn from(predicate: Predicate) -> (r: Self)
        ensures
            r.and@.len() == 1,
            r.and@[0]@ == predicate@,
            r.or@.len() == 0,
    {
        let mut and = Vec::new();
        and.push(predicate);
        Self { and, or: Vec::new() }
    }

    /// No predicates (which holds of every document).
    pub fn new() -> (r: Self)
        ensures
            r.and@.len() == 0,
            r.or@.len() == 0,
    {
        Self { and: Vec::new(), or: Vec::new() }
    }

    /// The predicates with one more conjunct.
    pub fn and(self, predicate: Predicate) -> (r: Self)
        ensures
            r.and@ == self.and@.push(predicate),
            r.or@ == self.or@,
    {
        let mut s = self;
        s.and.push(predicate);
        s
    }

    /// The predicates with one more disjunct.
    pub fn or(self, predicate: Predicate) -> (r: Self)
        ensures
            r.or@ == self.or@.push(predicate),
            r.and@ == self.and@,
    {
        let mut s = self;
        s.or.push(predicate);
        s
    }

    /// The models of the conjuncts.
    pub open spec fn and_models(&self) -> Seq<PredicateModel> {
        self.and@.map_values(|p: Predicate| p@)
    }

    /// The models of the disjuncts.
    pub open spec fn or_models(&self) -> Seq<PredicateModel> {
        self.or@.map_values(|p: Predicate| p@)
    }

    /// Evaluates the predicates on a document: every conjunct holds, or some
    /// disjunct does. Each predicate is evaluated, conjuncts first; the first
    /// error ends the evaluation.
    pub fn eval(&self, vtable: &VTable, offsets: &VTableFieldOffsets, buffer: &[u8]) -> (res:
        Result<bool, DbError>)
        requires
            forall|i: int|
                0 <= i < self.and@.len() ==> evaluable(
                    #[trigger] self.and@[i]@,
                    offsets@,
                    buffer@,
                    vtable@.items,
                ),
            forall|i: int|
                0 <= i < self.or@.len() ==> evaluable(
                    #[trigger] self.or@[i]@,
                    offsets@,
                    buffer@,
                    vtable@.items,
                ),
        ensures
            match (
                all_hold(self.and_models(), offsets@, buffer@, vtable@.items),
                any_holds(self.or_models(), offsets@, buffer@, vtable@.items),
            ) {
                (Some(a), Some(o)) => res == Ok::<bool, DbError>(a || o),
                _ => res is Err,
            },
            first_error(self.and_models(), offsets@, buffer@, vtable@.items) matches Some(e) ==> res
                == Err::<bool, DbError>(DbError::VTable(e)),
            first_error(self.and_models(), offsets@, buffer@, vtable@.items) is None ==> match first_error(
                self.or_models(),
                offsets@,
                buffer@,
                vtable@.items,
            ) {
                Some(e) => res == Err::<bool, DbError>(DbError::VTable(e)),
                None => true,
            },
            res == predicates_result(
                self.and_models(),
                self.or_models(),
                offsets@,
                buffer@,
                vtable@.items,
            ),
    {
        let mut result = true;
        let n = self.and.len();
        for i in 0..n
            invariant
                n == self.and@.len(),
                forall|k: int|
                    0 <= k < self.and@.len() ==> evaluable(
                        #[trigger] self.and@[k]@,
                        offsets@,
                        buffer@,
                        vtable@.items,
                    ),
                all_hold(self.and_models().subrange(0, i as int), offsets@, buffer@, vtable@.items)
                    == Some(result),
                first_error(self.and_models().subrange(0, i as int), offsets@, buffer@, vtable@.items)
                    is None,
        {
            let ok = self.and[i].eval(vtable, offsets, buffer);
            proof {
                assert(self.and_models().subrange(0, i + 1).drop_last() =~= self.and_models().subrange(
                    0,
                    i as int,
                ));
            }
            match ok {
                Ok(b) => {
                    if !b {
                        result = false;
                    }
                },
                Err(e) => {
                    proof {
                        lemma_all_hold_stops(
                            self.and_models(),
                            offsets@,
                            buffer@,
                            vtable@.items,
                            i + 1,
                        );
                        lemma_first_error_stops(
                            self.and_models(),
                            offsets@,
                            buffer@,
                            vtable@.items,
                            i + 1,
                        );
                        lemma_conjunction_result(self.and_models(), offsets@, buffer@, vtable@.items);
                        lemma_disjunction_result(self.or_models(), offsets@, buffer@, vtable@.items);
                    }
                    return Err(e);
                },
            }
        }
        assert(self.and_models().subrange(0, n as int) =~= self.and_models());
        let ghost all = result;
        let mut any = false;
        let m = self.or.len();
        for i in 0..m
            invariant
                m == self.or@.len(),
                forall|k: int|
                    0 <= k < self.or@.len() ==> evaluable(
                        #[trigger] self.or@[k]@,
                        offsets@,
                        buffer@,
                        vtable@.items,
                    ),
                any_holds(self.or_models().subrange(0, i as int), offsets@, buffer@, vtable@.items)
                    == Some(any),
                all_hold(self.and_models(), offsets@, buffer@, vtable@.items) == Some(all),
                result == (all || any),
                first_error(self.and_models(), offsets@, buffer@, vtable@.items) is None,
                first_error(self.or_models().subrange(0, i as int), offsets@, buffer@, vtable@.items)
                    is None,
        {
            let ok = self.or[i].eval(vtable, offsets, buffer);
            proof {
                assert(self.or_models().subrange(0, i + 1).drop_last() =~= self.or_models().subrange(
                    0,
                    i as int,
                ));
            }
            match ok {
                Ok(b) => {
                    if b {
                        result = true;
                        any = true;
                    }
                },
                Err(e) => {
                    proof {
                        lemma_any_holds_stops(
                            self.or_models(),
                            offsets@,
                            buffer@,
                            vtable@.items,
                            i + 1,
                        );
                        lemma_first_error_stops(
                            self.or_models(),
                            offsets@,
                            buffer@,
                            vtable@.items,
                            i + 1,
                        );
                        lemma_conjunction_result(self.and_models(), offsets@, buffer@, vtable@.items);
                        lemma_disjunction_result(self.or_models(), offsets@, buffer@, vtable@.items);
                    }
                    return Err(e);
                },
            }
        }
        assert(self.or_models().subrange(0, m as int) =~= self.or_models());
        proof {
            lemma_conjunction_result(self.and_models(), offsets@, buffer@, vtable@.items);
            lemma_disjunction_result(self.or_models(), offsets@, buffer@, vtable@.items);
        }
        Ok(result)
    }
}

/// Once a conjunct fails with an error, the whole conjunction does.
pub proof fn lemma_all_hold_stops(
    ps: Seq<PredicateModel>,
    offsets: Seq<VTableFieldOffset>,
    buffer: Seq<u8>,
    items: Seq<crate::item::ItemModel>,
    k: int,
)
    requires
        0 <= k <= ps.len(),
        all_hold(ps.subrange(0, k), offsets, buffer, items) is None,
    ensures
        all_hold(ps, offsets, buffer, items) is None,
    decreases ps.len() - k,
{
    if k < ps.len() {
        assert(ps.subrange(0, k + 1).drop_last() =~= ps.subrange(0, k));
        lemma_all_hold_stops(ps, offsets, buffer, items, k + 1);
    } else {
        assert(ps.subrange(0, k) =~= ps);
    }
}

/// Once a disjunct fails with an error, the whole disjunction does.
pub proof fn lemma_any_holds_stops(
    ps: Seq<PredicateModel>,
    offsets: Seq<VTableFieldOffset>,
    buffer: Seq<u8>,
    items: Seq<crate::item::ItemModel>,
    k: int,
)
    requires
        0 <= k <= ps.len(),
        any_holds(ps.subrange(0, k), offsets, buffer, items) is None,
    ensures
        any_holds(ps, offsets, buffer, items) is None,
    decreases ps.len() - k,
{
    if k < ps.len() {
        assert(ps.subrange(0, k + 1).drop_last() =~= ps.subrange(0, k));
        lemma_any_holds_stops(ps, offsets, buffer, items, k + 1);
    } else {
        assert(ps.subrange(0, k) =~= ps);
    }
}

/// Once a predicate fails with an error, that error is the first one of
/// the whole sequence.
pub proof fn lemma_first_error_stops(
    ps: Seq<PredicateModel>,
    offsets: Seq<VTableFieldOffset>,
    buffer: Seq<u8>,
    items: Seq<crate::item::ItemModel>,
    k: int,
)
    requires
        0 <= k <= ps.len(),
        first_error(ps.subrange(0, k), offsets, buffer, items) is Some,
    ensures
        first_error(ps, offsets, buffer, items) == first_error(ps.subrange(0, k), offsets, buffer, items),
    decreases ps.len() - k,
{
    if k < ps.len() {
        assert(ps.subrange(0, k + 1).drop_last() =~= ps.subrange(0, k));
        lemma_first_error_stops(ps, offsets, buffer, items, k + 1);
    } else {
        assert(ps.subrange(0, k) =~= ps);
    }
}

/// A conjunction of predicates fails exactly when one of them fails, and
/// then with the error of the first that does.
pub proof fn lemma_all_hold_fails_first(
    ps: Seq<PredicateModel>,
    offsets: Seq<VTableFieldOffset>,
    buffer: Seq<u8>,
    items: Seq<crate::item::ItemModel>,
)
    ensures
        all_hold(ps, offsets, buffer, items) is None <==> first_error(ps, offsets, buffer, items) is Some,
    decreases ps.len(),
{
    if ps.len() > 0 {
        lemma_all_hold_fails_first(ps.drop_last(), offsets, buffer, items);
    }
}

/// A disjunction of predicates fails exactly when one of them fails, and
/// then with the error of the first that does.
pub proof fn lemma_any_holds_fails_first(
    ps: Seq<PredicateModel>,
    offsets: Seq<VTableFieldOffset>,
    buffer: Seq<u8>,
    items: Seq<crate::item::ItemModel>,
)
    ensures
        any_holds(ps, offsets, buffer, items) is None <==> first_error(ps, offsets, buffer, items) is Some,
    decreases ps.len(),
{
    if ps.len() > 0 {
        lemma_any_holds_fails_first(ps.drop_last(), offsets, buffer, items);
    }
}

/// Evaluating conjuncts in order fails with the first error among them,
/// and otherwise gives whether all of them hold.
pub proof fn lemma_conjunction_result(
    ps: Seq<PredicateModel>,
    offsets: Seq<VTableFieldOffset>,
    buffer: Seq<u8>,
    items: Seq<crate::item::ItemModel>,
)
    ensures
        conjunction_result(ps, offsets, buffer, items) == match first_error(ps, offsets, buffer, items) {
            Some(e) => Err::<bool, DbError>(DbError::VTable(e)),
            None => Ok::<bool, DbError>(all_hold(ps, offsets, buffer, items).unwrap()),
        },
        first_error(ps, offsets, buffer, items) is None ==> all_hold(ps, offsets, buffer, items) is Some,
    decreases ps.len(),
{
    lemma_all_hold_fails_first(ps, offsets, buffer, items);
    if ps.len() > 0 {
        lemma_conjunction_result(ps.drop_last(), offsets, buffer, items);
    }
}

/// Evaluating disjuncts in order fails with the first error among them,
/// and otherwise gives whether some of them holds.
pub proof fn lemma_disjunction_result(
    ps: Seq<PredicateModel>,
    offsets: Seq<VTableFieldOffset>,
    buffer: Seq<u8>,
    items: Seq<crate::item::ItemModel>,
)
    ensures
        disjunction_result(ps, offsets, buffer, items) == match first_error(ps, offsets, buffer, items) {
            Some(e) => Err::<bool, DbError>(DbError::VTable(e)),
            None => Ok::<bool, DbError>(any_holds(ps, offsets, buffer, items).unwrap()),
        },
        first_error(ps, offsets, buffer, items) is None ==> any_holds(ps, offsets, buffer, items) is Some,
    decreases ps.len(),
{
    lemma_any_holds_fails_first(ps, offsets, buffer, items);
    if ps.len() > 0 {
        lemma_disjunction_result(ps.drop_last(), offsets, buffer, items);
    }
}

/// Evaluating a set of predicates is evaluating each predicate in turn:
/// the conjuncts, then the disjuncts, the first error ending it; else
/// every conjunct holds or some disjunct does. With no predicates at all
/// this is `Ok(true)`.
pub proof fn lemma_predicates_result_of_each(
    and: Seq<PredicateModel>,
    or: Seq<PredicateModel>,
    offsets: Seq<VTableFieldOffset>,
    buffer: Seq<u8>,
    items: Seq<crate::item::ItemModel>,
)
    ensures
        predicates_result(and, or, offsets, buffer, items) == match (
            first_error(and, offsets, buffer, items),
            first_error(or, offsets, buffer, items),
        ) {
            (Some(e), _) => Err::<bool, DbError>(DbError::VTable(e)),
            (None, Some(e)) => Err::<bool, DbError>(DbError::VTable(e)),
            (None, None) => Ok::<bool, DbError>(
                (forall|i: int| 0 <= i < and.len() ==> #[trigger] predicate_result(and[i], offsets, buffer, items) == Ok::<bool, DbError>(true))
                || (exists|i: int| 0 <= i < or.len() && #[trigger] predicate_result(or[i], offsets, buffer, items) == Ok::<bool, DbError>(true)),
            ),
        },
        and.len() == 0 && or.len() == 0 ==> predicates_result(and, or, offsets, buffer, items)
            == Ok::<bool, DbError>(true),
{
    lemma_conjunction_result(and, offsets, buffer, items);
    lemma_disjunction_result(or, offsets, buffer, items);
    if first_error(and, offsets, buffer, items) is None && first_error(or, offsets, buffer, items) is None {
        lemma_all_holds_each(and, offsets, buffer, items);
        lemma_any_holds_some(or, offsets, buffer, items);
    }
}

/// Where no conjunct fails, they all hold exactly when each one holds.
pub proof fn lemma_all_holds_each(
    ps: Seq<PredicateModel>,
    offsets: Seq<VTableFieldOffset>,
    buffer: Seq<u8>,
    items: Seq<crate::item::ItemModel>,
)
    requires
        first_error(ps, offsets, buffer, items) is None,
    ensures
        all_hold(ps, offsets, buffer, items) == Some(
            forall|i: int| 0 <= i < ps.len() ==> #[trigger] predicate_result(ps[i], offsets, buffer, items) == Ok::<bool, DbError>(true),
        ),
    decreases ps.len(),
{
    if ps.len() > 0 {
        let init = ps.drop_last();
        lemma_all_holds_each(init, offsets, buffer, items);
        assert forall|i: int| 0 <= i < init.len() implies init[i] == ps[i] by {}
        let all_init = forall|i: int| 0 <= i < init.len() ==> #[trigger] predicate_result(init[i], offsets, buffer, items) == Ok::<bool, DbError>(true);
        let all_ps = forall|i: int| 0 <= i < ps.len() ==> #[trigger] predicate_result(ps[i], offsets, buffer, items) == Ok::<bool, DbError>(true);
        if all_ps {
            assert forall|i: int| 0 <= i < init.len() implies #[trigger] predicate_result(init[i], offsets, buffer, items) == Ok::<bool, DbError>(true) by {
                assert(init[i] == ps[i]);
            }
            assert(predicate_result(ps[ps.len() - 1], offsets, buffer, items) == Ok::<bool, DbError>(true));
        }
        if all_init && predicate_result(ps.last(), offsets, buffer, items) == Ok::<bool, DbError>(true) {
            assert forall|i: int| 0 <= i < ps.len() implies #[trigger] predicate_result(ps[i], offsets, buffer, items) == Ok::<bool, DbError>(true) by {
                if i < init.len() {
                    assert(init[i] == ps[i]);
                }
            }
        }
    }
}

/// Where no disjunct fails, some holds exactly when one of them holds.
pub proof fn lemma_any_holds_some(
    ps: Seq<PredicateModel>,
    offsets: Seq<VTableFieldOffset>,
    buffer: Seq<u8>,
    items: Seq<crate::item::ItemModel>,
)
    requires
        first_error(ps, offsets, buffer, items) is None,
    ensures
        any_holds(ps, offsets, buffer, items) == Some(
            exists|i: int| 0 <= i < ps.len() && #[trigger] predicate_result(ps[i], offsets, buffer, items) == Ok::<bool, DbError>(true),
        ),
    decreases ps.len(),
{
    if ps.len() > 0 {
        let init = ps.drop_last();
        lemma_any_holds_some(init, offsets, buffer, items);
        let some_init = exists|i: int| 0 <= i < init.len() && #[trigger] predicate_result(init[i], offsets, buffer, items) == Ok::<bool, DbError>(true);
        let some_ps = exists|i: int| 0 <= i < ps.len() && #[trigger] predicate_result(ps[i], offsets, buffer, items) == Ok::<bool, DbError>(true);
        if some_init {
            let i = choose|i: int| 0 <= i < init.len() && #[trigger] predicate_result(init[i], offsets, buffer, items) == Ok::<bool, DbError>(true);
            assert(init[i] == ps[i]);
        }
        if predicate_result(ps.last(), offsets, buffer, items) == Ok::<bool, DbError>(true) {
            assert(predicate_result(ps[ps.len() - 1], offsets, buffer, items) == Ok::<bool, DbError>(true));
        }
        if some_ps {
            let i = choose|i: int| 0 <= i < ps.len() && #[trigger] predicate_result(ps[i], offsets, buffer, items) == Ok::<bool, DbError>(true);
            if i < init.len() {
                assert(init[i] == ps[i]);
            }
        }
    }
}

/// The value is one of the field type `t`.
pub open spec fn value_has_type(v: NumericValue, t: FieldTypeModel) -> bool {
    match v {
        NumericValue::U8(_) => t is U8,
        NumericValue::U16(_) => t is U16,
        NumericValue::U32(_) => t is U32,
        NumericValue::U64(_) => t is U64,
        NumericValue::U128(_) => t is U128,
        NumericValue::USIZE(_) => t is USIZE,
        NumericValue::F32(_) => t is F32,
        NumericValue::F64(_) => t is F64,
        NumericValue::I8(_) => t is I8,
        NumericValue::I16(_) => t is I16,
        NumericValue::I32(_) => t is I32,
        NumericValue::I64(_) => t is I64,
        NumericValue::I128(_) => t is I128,
        NumericValue::ISIZE(_) => t is ISIZE,
    }
}

/// On a field of an integer type, an ordered comparison holds exactly when
/// the number the value's bytes encode and the number the field's data
/// encodes (each in that type's little-endian encoding, two's complement
/// for the signed types, whatever bytes follow) compare in the expected
/// order: the value below the data for a negative order, equal for zero,
/// above for a positive order.
pub proof fn lemma_integer_fields_compare_by_value(
    t: FieldTypeModel,
    x: NumericValue,
    y: NumericValue,
    value_rest: Seq<u8>,
    data_rest: Seq<u8>,
    order: i8,
)
    requires
        value_has_type(x, t),
        value_has_type(y, t),
        integer_value(x) is Some,
    ensures
        compares_as(t, x.spec_value_bytes() + value_rest, y.spec_value_bytes() + data_rest, order) <==> {
            let a = integer_value(x).unwrap();
            let b = integer_value(y).unwrap();
            ||| order < 0 && a < b
            ||| order == 0 && a == b
            ||| order > 0 && a > b
        },
{
    lemma_numeric_roundtrip(x);
    lemma_numeric_roundtrip(y);
    lemma_compare_is_integer_order(x, y);
    let w = tag_width(x.spec_tag()) as int;
    assert((x.spec_value_bytes() + value_rest).subrange(0, w) =~= x.spec_value_bytes());
    assert((y.spec_value_bytes() + data_rest).subrange(0, w) =~= y.spec_value_bytes());
}

} // verus!
