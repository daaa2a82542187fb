//! The partition files of the database, taken as the bytes they hold.
//!
//! A partition file starts with the number of documents it holds (eight
//! little-endian bytes), followed by one record per document: the encoded
//! field offsets of the document (as many bytes as the vtable's offsets
//! take), then the document buffer itself, as long as the largest end of
//! its offsets. A document is known by its first 16 bytes.
use vstd::prelude::*;
use vstd::bytes::*;
use crate::bytes::{extend_from_slice, push_u64_le, read_u64_le};
use crate::db_error::DbError;
use crate::error::Error;
use crate::offset::{offsets_of_bytes, VTableFieldOffset, VTableFieldOffsets};
use crate::partition_key::PartitionId;
use crate::item::ItemModel;
use crate::predicate::{
    all_hold, any_holds, evaluable, first_error, lemma_all_hold_fails_first,
    lemma_any_holds_fails_first, PredicateModel, Predicates,
};
use crate::table::VTable;

verus! {

/// Position of the first record in a partition file, after the document count.
pub const PARTITION_COUNT_OFFSET: usize = 8;

/// How a partition file is opened.
#[derive(Debug, Clone, Copy, PartialEq, Eq)]
pub enum PartitionPermission {
    Write,
    Update,
    Read,
}

/// The largest end of a list of offsets (0 for none).
pub open spec fn max_end(s: Seq<VTableFieldOffset>) -> int
    decreases s.len(),
{
    if s.len() == 0 {
        0
    } else {
        let m = max_end(s.drop_last());
        if s.last().1.end > m {
            s.last().1.end as int
        } else {
            m
        }
    }
}

/// The largest end is at least every end, and is one of them.
pub proof fn lemma_max_end(s: Seq<VTableFieldOffset>)
    ensures
        forall|i: int| 0 <= i < s.len() ==> s[i].1.end <= max_end(s),
        s.len() == 0 ==> max_end(s) == 0,
        s.len() > 0 ==> exists|i: int| 0 <= i < s.len() && s[i].1.end == max_end(s),
    decreases s.len(),
{
    if s.len() > 0 {
        lemma_max_end(s.drop_last());
        assert forall|i: int| 0 <= i < s.len() implies s[i].1.end <= max_end(s) by {
            if i < s.len() - 1 {
                assert(s[i] == s.drop_last()[i]);
            }
        }
        if s.len() > 1 && max_end(s) == max_end(s.drop_last()) {
            let j = choose|j: int|
                0 <= j < s.drop_last().len() && s.drop_last()[j].1.end == max_end(s.drop_last());
            assert(s[j] == s.drop_last()[j]);
        } else if s.len() == 1 {
            assert(s.last() == s[0]);
        }
    }
}

/// The length of the document whose encoded offsets are `ob`.
pub open spec fn doc_len_of(ob: Seq<u8>) -> int {
    max_end(offsets_of_bytes(ob))
}

/// `buf` with its first bytes replaced by `data`.
pub open spec fn overwritten(buf: Seq<u8>, data: Seq<u8>) -> Seq<u8> {
    data + buf.subrange(data.len() as int, buf.len() as int)
}

/// Reading the record at `pos` into the work buffer `buf`, as the partition
/// does: the offsets into the front of the buffer, then the document over
/// them. `None` where that would index past the buffer; an error where the
/// file ends inside the record; else the document length and the buffer.
pub open spec fn read_record(file: Seq<u8>, ol: int, pos: int, buf: Seq<u8>) -> Option<
    Result<(int, Seq<u8>), DbError>,
> {
    if ol > buf.len() {
        None
    } else if pos + ol > file.len() {
        Some(Err(DbError::UnexpectedEof))
    } else {
        let ob = file.subrange(pos, pos + ol);
        let buf1 = overwritten(buf, ob);
        let dl = doc_len_of(ob);
        if dl > buf.len() {
            None
        } else if pos + ol + dl > file.len() {
            Some(Err(DbError::UnexpectedEof))
        } else {
            Some(Ok((dl, overwritten(buf1, file.subrange(pos + ol, pos + ol + dl)))))
        }
    }
}

/// Looking for the document `id` from position `pos` with the work buffer
/// `buf`: `None` where the partition would index past its buffer or never
/// reach the end of the file; an error where the file ends inside a record;
/// else where the document starts and the document, if found.
pub open spec fn find_doc(file: Seq<u8>, ol: int, pos: int, buf: Seq<u8>, id: Seq<u8>) -> Option<
    Result<Option<(int, Seq<u8>)>, DbError>,
>
    decreases file.len() - pos,
{
    if pos >= file.len() {
        Some(Ok(None))
    } else if buf.len() < 16 || ol < 0 {
        None
    } else {
        match read_record(file, ol, pos, buf) {
            None => None,
            Some(Err(e)) => Some(Err(e)),
            Some(Ok((dl, buf2))) => if buf2.subrange(0, 16) == id {
                Some(Ok(Some((pos, buf2.subrange(0, dl)))))
            } else if ol + dl <= 0 || pos + ol + dl > file.len() {
                None
            } else {
                find_doc(file, ol, pos + ol + dl, buf2, id)
            },
        }
    }
}

/// A work buffer of `n` zero bytes.
pub open spec fn zeros(n: int) -> Seq<u8> {
    Seq::new(n as nat, |i: int| 0u8)
}

/// The number of bytes of the encoded offsets of a document of `v`.
pub open spec fn offsets_len_of(v: &VTable) -> int {
    (v.num_fields + 1 - v.num_items) * 18
}

/// The size of the work buffer of `v`.
pub open spec fn work_len_of(v: &VTable) -> int {
    v.num_fields * 255 * 2
}

/// The counts of `v` give a number of offsets.
pub open spec fn counts_ok(v: &VTable) -> bool {
    v.num_fields < u16::MAX && v.num_items <= v.num_fields + 1
}

/// The document count of a partition file: 0 for an empty file, else the
/// first eight bytes read as a little-endian number.
pub open spec fn file_count(file: Seq<u8>) -> Result<usize, DbError> {
    if file.len() == 0 {
        Ok(0)
    } else if file.len() < 8 {
        Err(DbError::UnexpectedEof)
    } else {
        Ok(spec_u64_from_le_bytes(file.subrange(0, 8)) as usize)
    }
}

/// `file` with its first eight bytes replaced by the little-endian bytes of `n`.
pub open spec fn with_count(file: Seq<u8>, n: u64) -> Seq<u8> {
    spec_u64_to_le_bytes(n) + file.subrange(8, file.len() as int)
}


/// The partition file after appending a record of `offsets` and `buffer`:
/// an empty file first gets a count of one; otherwise the count is read back
/// after the append and raised by one (an error where the file is too short
/// to hold a count).
pub open spec fn appended(file: Seq<u8>, offsets: Seq<u8>, buffer: Seq<u8>) -> (
    Seq<u8>,
    Result<(), DbError>,
) {
    if file.len() == 0 {
        (spec_u64_to_le_bytes(1) + offsets + buffer, Ok(()))
    } else {
        let f1 = file + offsets + buffer;
        if f1.len() < 8 {
            (f1, Err(DbError::UnexpectedEof))
        } else {
            (with_count(f1, (spec_u64_from_le_bytes(f1.subrange(0, 8)) + 1) as u64), Ok(()))
        }
    }
}

/// The count of a non-empty file after an append is below the largest `u64`.
pub open spec fn count_can_grow(file: Seq<u8>, offsets: Seq<u8>, buffer: Seq<u8>) -> bool {
    let f1 = file + offsets + buffer;
    file.len() > 0 && f1.len() >= 8 ==> spec_u64_from_le_bytes(f1.subrange(0, 8)) < u64::MAX
}

/// The number of offsets the bytes `offsets` hold, as the vtable check counts them.
pub open spec fn offsets_found(offsets: Seq<u8>) -> u16 {
    (offsets.len() / 18) as u16
}

/// The number of offsets the vtable expects.
pub open spec fn offsets_expected(v: &VTable) -> u16 {
    (v.num_fields + 1 - v.num_items) as u16
}

/// The file with the record of `len` bytes at `pos` replaced by `new_record`.
pub open spec fn spliced_record(file: Seq<u8>, pos: int, len: int, new_record: Seq<u8>) -> Seq<u8> {
    file.subrange(0, pos) + new_record + file.subrange(pos + len, file.len() as int)
}


/// The first 16 bytes of the work buffer after each record from `pos` on:
/// the identifiers of the documents. `None` and errors as in `find_doc`.
pub open spec fn ids_from(file: Seq<u8>, ol: int, pos: int, buf: Seq<u8>) -> Option<
    Result<Seq<Seq<u8>>, DbError>,
>
    decreases file.len() - pos,
{
    if pos >= file.len() {
        Some(Ok(Seq::empty()))
    } else if buf.len() < 16 || ol < 0 {
        None
    } else {
        match read_record(file, ol, pos, buf) {
            None => None,
            Some(Err(e)) => Some(Err(e)),
            Some(Ok((dl, buf2))) => if ol + dl <= 0 || pos + ol + dl > file.len() {
                None
            } else {
                match ids_from(file, ol, pos + ol + dl, buf2) {
                    None => None,
                    Some(Err(e)) => Some(Err(e)),
                    Some(Ok(rest)) => Some(Ok(seq![buf2.subrange(0, 16)] + rest)),
                }
            },
        }
    }
}

/// `r` with `acc` in front of the identifiers it lists.
pub open spec fn after_ids(acc: Seq<Seq<u8>>, r: Option<Result<Seq<Seq<u8>>, DbError>>) -> Option<
    Result<Seq<Seq<u8>>, DbError>,
> {
    match r {
        Some(Ok(rest)) => Some(Ok(acc + rest)),
        other => other,
    }
}

/// Every predicate can be evaluated on the document.
pub open spec fn preds_evaluable(
    and: Seq<PredicateModel>,
    or: Seq<PredicateModel>,
    offsets: Seq<VTableFieldOffset>,
    doc: Seq<u8>,
    items: Seq<ItemModel>,
) -> bool {
    &&& forall|i: int| 0 <= i < and.len() ==> evaluable(#[trigger] and[i], offsets, doc, items)
    &&& forall|i: int| 0 <= i < or.len() ==> evaluable(#[trigger] or[i], offsets, doc, items)
}

/// The documents from `pos` on that the predicates match: for a predicate
/// that fails, the error of the first one that does (conjuncts first), and
/// for a file that ends inside a record, the error of reading it; `None` where a predicate cannot be evaluated or the
/// partition would index past its buffer or never reach the end of the file.
pub open spec fn search_from(
    file: Seq<u8>,
    ol: int,
    pos: int,
    buf: Seq<u8>,
    and: Seq<PredicateModel>,
    or: Seq<PredicateModel>,
    items: Seq<ItemModel>,
) -> Option<Result<Seq<Seq<u8>>, DbError>>
    decreases file.len() - pos,
{
    if pos >= file.len() {
        Some(Ok(Seq::empty()))
    } else if ol < 0 {
        None
    } else {
        match read_record(file, ol, pos, buf) {
            None => None,
            Some(Err(e)) => Some(Err(e)),
            Some(Ok((dl, buf2))) => {
                let offsets = offsets_of_bytes(file.subrange(pos, pos + ol));
                let doc = buf2.subrange(0, dl);
                if !preds_evaluable(and, or, offsets, doc, items) || ol + dl <= 0 || pos + ol + dl
                    > file.len() {
                    None
                } else {
                    match (all_hold(and, offsets, doc, items), any_holds(or, offsets, doc, items)) {
                        (Some(a), Some(o)) => match search_from(
                            file,
                            ol,
                            pos + ol + dl,
                            buf2,
                            and,
                            or,
                            items,
                        ) {
                            None => None,
                            Some(Err(e)) => Some(Err(e)),
                            Some(Ok(rest)) => Some(
                                Ok(
                                    if a || o {
                                        seq![doc] + rest
                                    } else {
                                        rest
                                    },
                                ),
                            ),
                        },
                        _ => Some(
                            Err(
                                DbError::VTable(
                                    match first_error(and, offsets, doc, items) {
                                        Some(e) => e,
                                        None => first_error(or, offsets, doc, items).unwrap(),
                                    },
                                ),
                            ),
                        ),
                    }
                }
            },
        }
    }
}

/// `r` with `acc` in front of the documents it lists.
pub open spec fn after_docs(acc: Seq<Seq<u8>>, r: Option<Result<Seq<Seq<u8>>, DbError>>) -> Option<
    Result<Seq<Seq<u8>>, DbError>,
> {
    match r {
        Some(Ok(rest)) => Some(Ok(acc + rest)),
        other => other,
    }
}


/// Scanning past the records of `f` goes the same way in a longer file
/// that agrees with `f` after the count: it reaches the end of `f` with a
/// work buffer of the same length.
pub proof fn lemma_find_extends(
    f: Seq<u8>,
    f2: Seq<u8>,
    ol: int,
    pos: int,
    buf: Seq<u8>,
    id: Seq<u8>,
) -> (end_buf: Seq<u8>)
    requires
        8 <= pos <= f.len(),
        f.len() <= f2.len(),
        f2.subrange(8, f.len() as int) == f.subrange(8, f.len() as int),
        find_doc(f, ol, pos, buf, id) == Some(Ok::<Option<(int, Seq<u8>)>, DbError>(None)),
    ensures
        end_buf.len() == buf.len(),
        find_doc(f2, ol, pos, buf, id) == find_doc(f2, ol, f.len() as int, end_buf, id),
    decreases f.len() - pos,
{
    if pos >= f.len() {
        buf
    } else {
        let (dl, b2) = read_record(f, ol, pos, buf).unwrap().unwrap();
        assert(0 <= ol && 0 <= dl && pos + ol + dl <= f.len());
        assert forall|k: int| 8 <= k < f.len() implies #[trigger] f2[k] == f[k] by {
            let x = f2.subrange(8, f.len() as int);
            let y = f.subrange(8, f.len() as int);
            assert(x == y);
            assert(x[k - 8] == f2[k]);
            assert(y[k - 8] == f[k]);
        }
        assert(f2.subrange(pos, pos + ol) =~= f.subrange(pos, pos + ol)) by {
            assert forall|k: int| 0 <= k < ol implies #[trigger] f2.subrange(pos, pos + ol)[k]
                == f.subrange(pos, pos + ol)[k] by {
                assert(f2[pos + k] == f[pos + k]);
            }
        }
        assert(f2.subrange(pos + ol, pos + ol + dl) =~= f.subrange(pos + ol, pos + ol + dl)) by {
            assert forall|k: int| 0 <= k < dl implies #[trigger] f2.subrange(
                pos + ol,
                pos + ol + dl,
            )[k] == f.subrange(pos + ol, pos + ol + dl)[k] by {
                assert(f2[pos + ol + k] == f[pos + ol + k]);
            }
        }
        assert(read_record(f2, ol, pos, buf) == read_record(f, ol, pos, buf));
        lemma_find_extends(f, f2, ol, pos + ol + dl, b2, id)
    }
}

/// A record whose document starts with `id` is found where it stands.
pub proof fn lemma_find_record_here(
    f: Seq<u8>,
    ol: int,
    pos: int,
    buf: Seq<u8>,
    id: Seq<u8>,
    ob: Seq<u8>,
    doc: Seq<u8>,
)
    requires
        0 <= ol,
        0 <= pos,
        ob.len() == ol,
        doc_len_of(ob) == doc.len(),
        pos + ol + doc.len() <= f.len(),
        f.subrange(pos, pos + ol) == ob,
        f.subrange(pos + ol, pos + ol + doc.len()) == doc,
        ol <= buf.len(),
        doc.len() <= buf.len(),
        16 <= doc.len(),
        doc.subrange(0, 16) == id,
    ensures
        find_doc(f, ol, pos, buf, id) == Some(
            Ok::<Option<(int, Seq<u8>)>, DbError>(Some((pos, doc))),
        ),
{
    let buf1 = overwritten(buf, ob);
    let buf2 = overwritten(buf1, doc);
    assert(read_record(f, ol, pos, buf) == Some(Ok::<(int, Seq<u8>), DbError>((doc.len() as int, buf2))));
    assert(buf2.subrange(0, 16) =~= doc.subrange(0, 16));
    assert(buf2.subrange(0, doc.len() as int) =~= doc);
}

/// A document written to a partition file is read back by its identifier,
/// as long as no document before it has the same first 16 bytes (the file
/// holds no document `id`) and the document records its own length.
#[verifier::spinoff_prover]
#[verifier::rlimit(40)]
pub proof fn lemma_write_then_read(
    v: &VTable,
    file: Seq<u8>,
    offsets: Seq<u8>,
    doc: Seq<u8>,
    id: Seq<u8>,
)
    requires
        counts_ok(v),
        file.len() == 0 || file.len() >= 8,
        find_doc(file, offsets_len_of(v), 8, zeros(work_len_of(v)), id) == Some(
            Ok::<Option<(int, Seq<u8>)>, DbError>(None),
        ),
        offsets.len() == offsets_len_of(v),
        doc_len_of(offsets) == doc.len(),
        16 <= doc.len() <= work_len_of(v),
        offsets_len_of(v) <= work_len_of(v),
        doc.subrange(0, 16) == id,
    ensures
        find_doc(
            appended(file, offsets, doc).0,
            offsets_len_of(v),
            8,
            zeros(work_len_of(v)),
            id,
        ) == Some(
            Ok::<Option<(int, Seq<u8>)>, DbError>(
                Some((if file.len() == 0 { 8 } else { file.len() as int }, doc)),
            ),
        ),
{
    let ol = offsets_len_of(v);
    let w = zeros(work_len_of(v));
    let f2 = appended(file, offsets, doc).0;
    if file.len() == 0 {
        lemma_auto_spec_u64_to_from_le_bytes();
        assert(f2.subrange(8, 8 + ol) =~= offsets);
        assert(f2.subrange(8 + ol, 8 + ol + doc.len()) =~= doc);
        lemma_find_record_here(f2, ol, 8, w, id, offsets, doc);
    } else {
        lemma_auto_spec_u64_to_from_le_bytes();
        let f1 = file + offsets + doc;
        assert(f2.subrange(8, file.len() as int) =~= file.subrange(8, file.len() as int));
        let end_buf = lemma_find_extends(file, f2, ol, 8, w, id);
        let p = file.len() as int;
        assert(f2.subrange(p, p + ol) =~= offsets);
        assert(f2.subrange(p + ol, p + ol + doc.len()) =~= doc);
        lemma_find_record_here(f2, ol, p, end_buf, id, offsets, doc);
    }
}

/// A partition of the database: its identifier and the vtable of its documents.
#[derive(Debug)]
pub struct Partition {
    id: PartitionId,
    vtable: VTable,
}

/// Replaces the first bytes of `buf` by `data`.
fn overwrite_front(buf: &mut Vec<u8>, data: &[u8])
    requires
        data@.len() <= old(buf)@.len(),
    ensures
        final(buf)@ == overwritten(old(buf)@, data@),
{
    let n = data.len();
    for i in 0..n
        invariant
            n == data@.len(),
            n <= old(buf)@.len(),
            buf@.len() == old(buf)@.len(),
            forall|j: int| 0 <= j < i ==> buf@[j] == data@[j],
            forall|j: int| i <= j < buf@.len() ==> buf@[j] == old(buf)@[j],
    {
        buf.set(i, data[i]);
    }
    assert(buf@ =~= overwritten(old(buf)@, data@));
}


/// Raises the count at the front of the file by one.
fn increment_count(file: &mut Vec<u8>) -> (res: Result<(), DbError>)
    requires
        old(file)@.len() >= 8 ==> spec_u64_from_le_bytes(old(file)@.subrange(0, 8)) < u64::MAX,
    ensures
        old(file)@.len() < 8 ==> res == Err::<(), DbError>(DbError::UnexpectedEof) && final(file)@ == old(file)@,
        old(file)@.len() >= 8 ==> res == Ok::<(), DbError>(()) && final(file)@ == with_count(
            old(file)@,
            (spec_u64_from_le_bytes(old(file)@.subrange(0, 8)) + 1) as u64,
        ),
{
    if file.len() < 8 {
        return Err(DbError::UnexpectedEof);
    }
    let count = read_u64_le(file.as_slice(), 0);
    set_count(file, count + 1);
    Ok(())
}

/// Lowers the count at the front of the file by one.
fn decrement_count(file: &mut Vec<u8>)
    requires
        old(file)@.len() >= 8,
        spec_u64_from_le_bytes(old(file)@.subrange(0, 8)) > 0,
    ensures
        final(file)@ == with_count(
            old(file)@,
            (spec_u64_from_le_bytes(old(file)@.subrange(0, 8)) - 1) as u64,
        ),
{
    let count = read_u64_le(file.as_slice(), 0);
    set_count(file, count - 1);
}

/// Writes `n` over the count at the front of the file.
fn set_count(file: &mut Vec<u8>, n: u64)
    requires
        old(file)@.len() >= 8,
    ensures
        final(file)@ == with_count(old(file)@, n),
{
    let b = u64_to_le_bytes(n);
    proof {
        lemma_auto_spec_u64_to_from_le_bytes();
    }
    overwrite_front(file, b.as_slice());
    assert(file@ =~= with_count(old(file)@, n));
}

/// Removes the bytes `file[start..end]`.
fn remove_range(file: &mut Vec<u8>, start: usize, end: usize)
    requires
        start <= end <= old(file)@.len(),
    ensures
        final(file)@ == spliced_record(old(file)@, start as int, end - start, Seq::empty()),
{
    let mut tail = file.split_off(end);
    file.truncate(start);
    file.append(&mut tail);
    assert(file@ =~= spliced_record(old(file)@, start as int, end - start, Seq::empty()));
}

/// Whether the first 16 bytes of `buf` are `id`.
fn starts_with_id(buf: &[u8], id: &[u8; 16]) -> (r: bool)
    requires
        buf@.len() >= 16,
    ensures
        r == (buf@.subrange(0, 16) == id@),
{
    for i in 0..16
        invariant
            buf@.len() >= 16,
            id@.len() == 16,
            forall|j: int| 0 <= j < i ==> buf@[j] == id@[j],
    {
        if buf[i] != id[i] {
            assert(buf@.subrange(0, 16)[i as int] != id@[i as int]);
            return false;
        }
    }
    assert(buf@.subrange(0, 16) =~= id@);
    true
}

impl Partition {
    /// Whether appending a record of `offsets` and `buffer` to `file` leaves
    /// a document count that can grow by one (see `count_can_grow`).
    pub fn count_can_grow(file: &[u8], offsets: &[u8], buffer: &[u8]) -> (r: bool)
        ensures
            r == count_can_grow(file@, offsets@, buffer@),
    {
        if file.len() == 0 {
            return true;
        }
        let mut head: Vec<u8> = Vec::new();
        let ghost all = file@ + offsets@ + buffer@;
        let mut k: usize = 0;
        while k < 8
            invariant
                0 <= k <= 8,
                all == file@ + offsets@ + buffer@,
                head@.len() == (if k <= all.len() {
                    k as int
                } else {
                    all.len() as int
                }),
                head@ == all.subrange(0, head@.len() as int),
            decreases 8 - k,
        {
            let h = head.len();
            if h < file.len() {
                head.push(file[h]);
            } else if h - file.len() < offsets.len() {
                head.push(offsets[h - file.len()]);
            } else if h - file.len() - offsets.len() < buffer.len() {
                head.push(buffer[h - file.len() - offsets.len()]);
            }
            proof {
                assert(head@ =~= all.subrange(0, head@.len() as int));
            }
            k = k + 1;
        }
        if head.len() < 8 {
            return true;
        }
        assert(head@.subrange(0, 8) =~= all.subrange(0, 8));
        read_u64_le(head.as_slice(), 0) < u64::MAX
    }

    /// The identifier of the partition.
    pub closed spec fn partition_id(&self) -> PartitionId {
        self.id
    }

    /// The vtable of the partition.
    pub closed spec fn vtable(&self) -> &VTable {
        &self.vtable
    }

    /// The partition `id`, holding documents of `vtable`.
    pub fn load(vtable: VTable, id: PartitionId) -> (p: Self)
        ensures
            p.partition_id() == id,
            p.vtable()@ == vtable@,
    {
        Self { id, vtable }
    }

    /// The identifier of the partition.
    pub fn id(&self) -> (r: PartitionId)
        ensures
            r == self.partition_id(),
    {
        self.id
    }

    /// Reads the record at `pos` into `buffer`; returns the document length.
    fn read_record_at(&self, file: &[u8], pos: usize, ol: usize, buffer: &mut Vec<u8>) -> (res:
        Result<(usize, VTableFieldOffsets), DbError>)
        requires
            read_record(file@, ol as int, pos as int, old(buffer)@) is Some,
            ol as int == offsets_len_of(&self.vtable),
            counts_ok(&self.vtable),
        ensures
            match read_record(file@, ol as int, pos as int, old(buffer)@).unwrap() {
                Ok((dl, b)) => (res matches Ok((d, o)) && d == dl && o@ == offsets_of_bytes(
                    file@.subrange(pos as int, pos + ol),
                )) && final(buffer)@ == b && dl <= old(buffer)@.len(),
                Err(e) => res matches Err(x) && x == e,
            },
    {
        if pos > file.len() || file.len() - pos < ol {
            return Err(DbError::UnexpectedEof);
        }
        let ob = vstd::slice::slice_subrange(file, pos, pos + ol);
        overwrite_front(buffer, ob);
        let offsets = VTableFieldOffsets::from_bytes(ob);
        let dl = offsets.doc_buffer_len();
        proof {
            lemma_max_end(offsets@);
            if offsets@.len() > 0 {
                let i = choose|i: int| 0 <= i < offsets@.len() && offsets@[i].1.end == dl;
                let k = choose|k: int|
                    0 <= k < offsets@.len() && offsets@[k].1.end == max_end(offsets@);
                assert(offsets@[k].1.end <= dl);
                assert(offsets@[i].1.end <= max_end(offsets@));
            }
        }
        assert(dl == doc_len_of(ob@));
        if file.len() - pos - ol < dl {
            return Err(DbError::UnexpectedEof);
        }
        let doc = vstd::slice::slice_subrange(file, pos + ol, pos + ol + dl);
        overwrite_front(buffer, doc);
        Ok((dl, offsets))
    }

    /// Looks for the record of the document `doc_id`: where it starts and the
    /// document.
    fn find_record(&self, file: &[u8], doc_id: &[u8; 16]) -> (res: Result<
        Option<(usize, Vec<u8>)>,
        DbError,
    >)
        requires
            counts_ok(self.vtable()),
            find_doc(
                file@,
                offsets_len_of(self.vtable()),
                8,
                zeros(work_len_of(self.vtable())),
                doc_id@,
            ) is Some,
        ensures
            res matches Ok(Some((p, d))) ==> find_doc(
                file@,
                offsets_len_of(self.vtable()),
                8,
                zeros(work_len_of(self.vtable())),
                doc_id@,
            ) == Some(Ok::<Option<(int, Seq<u8>)>, DbError>(Some((p as int, d@)))) && 8 <= p && p
                + offsets_len_of(self.vtable()) + d@.len() <= file@.len(),
            res matches Ok(None) ==> find_doc(
                file@,
                offsets_len_of(self.vtable()),
                8,
                zeros(work_len_of(self.vtable())),
                doc_id@,
            ) == Some(Ok::<Option<(int, Seq<u8>)>, DbError>(None)),
            res matches Err(e) ==> find_doc(
                file@,
                offsets_len_of(self.vtable()),
                8,
                zeros(work_len_of(self.vtable())),
                doc_id@,
            ) == Some(Err::<Option<(int, Seq<u8>)>, DbError>(e)),
    {
        let ol = self.vtable.offset_len();
        let mut buffer = self.vtable.alloc_buf();
        assert(buffer@ =~= zeros(work_len_of(self.vtable())));
        let ghost start_buf = buffer@;
        let mut pos: usize = PARTITION_COUNT_OFFSET;
        while pos < file.len()
            invariant
                ol as int == offsets_len_of(self.vtable()),
                counts_ok(self.vtable()),
                8 <= pos,
                start_buf == zeros(work_len_of(self.vtable())),
                find_doc(file@, ol as int, 8, start_buf, doc_id@) == find_doc(
                    file@,
                    ol as int,
                    pos as int,
                    buffer@,
                    doc_id@,
                ),
                find_doc(file@, ol as int, pos as int, buffer@, doc_id@) is Some,
            decreases file.len() - pos,
        {
            let ghost before = buffer@;
            proof {
                assert(before.len() >= 16);
                assert(read_record(file@, ol as int, pos as int, before) is Some);
            }
            let dl = match self.read_record_at(file, pos, ol, &mut buffer) {
                Ok((dl, _)) => dl,
                Err(e) => {
                    return Err(e);
                },
            };
            if starts_with_id(buffer.as_slice(), doc_id) {
                let doc = vstd::slice::slice_subrange(buffer.as_slice(), 0, dl);
                let mut out: Vec<u8> = Vec::new();
                extend_from_slice(&mut out, doc);
                return Ok(Some((pos, out)));
            }
            pos = pos + ol + dl;
        }
        Ok(None)
    }

    /// The document `doc_id`, if the partition file `file` holds it.
    pub fn read_docbuf(&self, file: &[u8], doc_id: &[u8; 16]) -> (res: Result<
        Option<Vec<u8>>,
        DbError,
    >)
        requires
            counts_ok(self.vtable()),
            find_doc(
                file@,
                offsets_len_of(self.vtable()),
                8,
                zeros(work_len_of(self.vtable())),
                doc_id@,
            ) is Some,
        ensures
            match find_doc(
                file@,
                offsets_len_of(self.vtable()),
                8,
                zeros(work_len_of(self.vtable())),
                doc_id@,
            ).unwrap() {
                Ok(Some((_, doc))) => res matches Ok(Some(d)) && d@ == doc,
                Ok(None) => res matches Ok(None),
                Err(e) => res == Err::<Option<Vec<u8>>, DbError>(e),
            },
    {
        match self.find_record(file, doc_id) {
            Ok(Some((_, doc))) => Ok(Some(doc)),
            Ok(None) => Ok(None),
            Err(e) => Err(e),
        }
    }

    /// Appends a document (its encoded offsets, then its buffer) to the
    /// partition file `file`, after checking the offsets against the vtable.
    pub fn write_docbuf(&self, file: &mut Vec<u8>, offsets: Vec<u8>, buffer: Vec<u8>) -> (res:
        Result<(), DbError>)
        requires
            counts_ok(self.vtable()),
            count_can_grow(old(file)@, offsets@, buffer@),
        ensures
            offsets_found(offsets@) != offsets_expected(self.vtable()) ==> final(file)@ == old(file)@ && res == Err::<(), DbError>(
                DbError::VTable(
                    Error::InvalidOffsets(
                        offsets_expected(self.vtable()),
                        offsets_found(offsets@),
                    ),
                ),
            ),
            offsets_found(offsets@) == offsets_expected(self.vtable()) ==> final(file)@ == appended(
                old(file)@,
                offsets@,
                buffer@,
            ).0 && res == appended(old(file)@, offsets@, buffer@).1,
    {
        match self.vtable.check_offsets(offsets.as_slice()) {
            Ok(()) => {},
            Err(e) => return Err(DbError::VTable(e)),
        }
        let is_empty = file.len() == 0;
        if is_empty {
            push_u64_le(file, 1);
        }
        extend_from_slice(file, offsets.as_slice());
        extend_from_slice(file, buffer.as_slice());
        assert(file@ =~= if is_empty {
            spec_u64_to_le_bytes(1) + offsets@ + buffer@
        } else {
            old(file)@ + offsets@ + buffer@
        });
        if !is_empty {
            let ghost f1 = file@;
            let r = increment_count(file);
            assert(f1 == old(file)@ + offsets@ + buffer@);
            assert(old(file)@.len() > 0);
            return r;
        }
        Ok(())
    }

    /// Removes the document `doc_id` from the partition file `file` and
    /// returns it (an empty buffer when the file does not hold it); the count
    /// goes down by one.
    pub fn delete_docbuf(&self, file: &mut Vec<u8>, doc_id: &[u8; 16]) -> (res: Result<
        Vec<u8>,
        DbError,
    >)
        requires
            counts_ok(self.vtable()),
            find_doc(
                old(file)@,
                offsets_len_of(self.vtable()),
                8,
                zeros(work_len_of(self.vtable())),
                doc_id@,
            ) is Some,
            find_doc(
                old(file)@,
                offsets_len_of(self.vtable()),
                8,
                zeros(work_len_of(self.vtable())),
                doc_id@,
            ) matches Some(Ok(Some(_))) ==> spec_u64_from_le_bytes(old(file)@.subrange(0, 8)) > 0,
        ensures
            match find_doc(
                old(file)@,
                offsets_len_of(self.vtable()),
                8,
                zeros(work_len_of(self.vtable())),
                doc_id@,
            ).unwrap() {
                Ok(Some((pos, doc))) => res matches Ok(d) && d@ == doc && final(file)@ == with_count(
                    spliced_record(
                        old(file)@,
                        pos,
                        offsets_len_of(self.vtable()) + doc.len(),
                        Seq::empty(),
                    ),
                    (spec_u64_from_le_bytes(old(file)@.subrange(0, 8)) - 1) as u64,
                ),
                Ok(None) => res matches Ok(d) && d@.len() == 0 && final(file)@ == old(file)@,
                Err(e) => res == Err::<Vec<u8>, DbError>(e) && final(file)@ == old(file)@,
            },
    {
        let found = match self.find_record(file.as_slice(), doc_id) {
            Ok(f) => f,
            Err(e) => return Err(e),
        };
        match found {
            None => Ok(Vec::new()),
            Some((pos, doc)) => {
                let ol = self.vtable.offset_len();
                let _flen = file.len();
                let end = pos + ol + doc.len();
                remove_range(file, pos, end);
                assert(file@.subrange(0, 8) =~= old(file)@.subrange(0, 8));
                decrement_count(file);
                Ok(doc)
            },
        }
    }

    /// Replaces the document `doc_id` in the partition file `file` by new
    /// offsets and a new buffer, moving the rest of the file by the change in
    /// length; a file that does not hold the document is left as it is.
    pub fn update_docbuf(
        &self,
        file: &mut Vec<u8>,
        doc_id: &[u8; 16],
        offsets: &[u8],
        docbuf: &[u8],
    ) -> (res: Result<(), DbError>)
        requires
            counts_ok(self.vtable()),
            find_doc(
                old(file)@,
                offsets_len_of(self.vtable()),
                8,
                zeros(work_len_of(self.vtable())),
                doc_id@,
            ) is Some,
        ensures
            match find_doc(
                old(file)@,
                offsets_len_of(self.vtable()),
                8,
                zeros(work_len_of(self.vtable())),
                doc_id@,
            ).unwrap() {
                Ok(Some((pos, doc))) => res is Ok && final(file)@ == spliced_record(
                    old(file)@,
                    pos,
                    offsets_len_of(self.vtable()) + doc.len(),
                    offsets@ + docbuf@,
                ),
                Ok(None) => res is Ok && final(file)@ == old(file)@,
                Err(e) => res == Err::<(), DbError>(e) && final(file)@ == old(file)@,
            },
    {
        let found = match self.find_record(file.as_slice(), doc_id) {
            Ok(f) => f,
            Err(e) => return Err(e),
        };
        match found {
            None => Ok(()),
            Some((pos, doc)) => {
                let ol = self.vtable.offset_len();
                let _flen = file.len();
                let end = pos + ol + doc.len();
                let mut tail = file.split_off(end);
                file.truncate(pos);
                extend_from_slice(file, offsets);
                extend_from_slice(file, docbuf);
                file.append(&mut tail);
                assert(file@ =~= spliced_record(
                    old(file)@,
                    pos as int,
                    offsets_len_of(self.vtable()) + doc@.len(),
                    offsets@ + docbuf@,
                ));
                Ok(())
            },
        }
    }


    /// The identifiers (first 16 bytes) of the documents of the partition
    /// file `file`, in the order they are stored.
    pub fn read_docbuf_ids(&self, file: &[u8]) -> (res: Result<Vec<[u8; 16]>, DbError>)
        requires
            counts_ok(self.vtable()),
            ids_from(file@, offsets_len_of(self.vtable()), 8, zeros(work_len_of(self.vtable())))
                is Some,
        ensures
            match ids_from(
                file@,
                offsets_len_of(self.vtable()),
                8,
                zeros(work_len_of(self.vtable())),
            ).unwrap() {
                Ok(ids) => res matches Ok(v) && v@.map_values(|a: [u8; 16]| a@) == ids,
                Err(e) => res == Err::<Vec<[u8; 16]>, DbError>(e),
            },
    {
        let ol = self.vtable.offset_len();
        let mut buffer = self.vtable.alloc_buf();
        assert(buffer@ =~= zeros(work_len_of(self.vtable())));
        let ghost start_buf = buffer@;
        let mut ids: Vec<[u8; 16]> = Vec::new();
        let mut pos: usize = PARTITION_COUNT_OFFSET;
        assert(ids@.map_values(|a: [u8; 16]| a@) =~= Seq::<Seq<u8>>::empty());
        while pos < file.len()
            invariant
                ol as int == offsets_len_of(self.vtable()),
                counts_ok(self.vtable()),
                start_buf == zeros(work_len_of(self.vtable())),
                ids_from(file@, ol as int, 8, start_buf) == after_ids(
                    ids@.map_values(|a: [u8; 16]| a@),
                    ids_from(file@, ol as int, pos as int, buffer@),
                ),
                ids_from(file@, ol as int, pos as int, buffer@) is Some,
            decreases file.len() - pos,
        {
            let ghost before = buffer@;
            let ghost acc = ids@.map_values(|a: [u8; 16]| a@);
            proof {
                assert(before.len() >= 16);
                assert(read_record(file@, ol as int, pos as int, before) is Some);
            }
            let dl = match self.read_record_at(file, pos, ol, &mut buffer) {
                Ok((dl, _)) => dl,
                Err(e) => {
                    return Err(e);
                },
            };
            let id = [
                buffer[0],
                buffer[1],
                buffer[2],
                buffer[3],
                buffer[4],
                buffer[5],
                buffer[6],
                buffer[7],
                buffer[8],
                buffer[9],
                buffer[10],
                buffer[11],
                buffer[12],
                buffer[13],
                buffer[14],
                buffer[15],
            ];
            assert(id@ =~= buffer@.subrange(0, 16));
            ids.push(id);
            proof {
                let rest = ids_from(file@, ol as int, pos + ol + dl, buffer@);
                assert(ids@.map_values(|a: [u8; 16]| a@) =~= acc.push(id@));
                if let Some(Ok(r)) = rest {
                    assert(acc + (seq![id@] + r) =~= acc.push(id@) + r);
                }
            }
            pos = pos + ol + dl;
        }
        proof {
            assert(ids@.map_values(|a: [u8; 16]| a@) + Seq::<Seq<u8>>::empty() =~= ids@.map_values(
                |a: [u8; 16]| a@,
            ));
        }
        Ok(ids)
    }

    /// The documents of the partition file `file` that the predicates match,
    /// in the order they are stored.
    pub fn search_docbufs(&self, file: &[u8], predicates: &Predicates) -> (res: Result<
        Vec<Vec<u8>>,
        DbError,
    >)
        requires
            counts_ok(self.vtable()),
            search_from(
                file@,
                offsets_len_of(self.vtable()),
                8,
                zeros(work_len_of(self.vtable())),
                predicates.and_models(),
                predicates.or_models(),
                self.vtable()@.items,
            ) is Some,
        ensures
            match search_from(
                file@,
                offsets_len_of(self.vtable()),
                8,
                zeros(work_len_of(self.vtable())),
                predicates.and_models(),
                predicates.or_models(),
                self.vtable()@.items,
            ).unwrap() {
                Ok(docs) => res matches Ok(v) && v@.map_values(|d: Vec<u8>| d@) == docs,
                Err(e) => res == Err::<Vec<Vec<u8>>, DbError>(e),
            },
    {
        let ol = self.vtable.offset_len();
        let mut buffer = self.vtable.alloc_buf();
        assert(buffer@ =~= zeros(work_len_of(self.vtable())));
        let ghost start_buf = buffer@;
        let ghost and = predicates.and_models();
        let ghost or = predicates.or_models();
        let ghost items = self.vtable()@.items;
        let mut docs: Vec<Vec<u8>> = Vec::new();
        let mut pos: usize = PARTITION_COUNT_OFFSET;
        assert(docs@.map_values(|d: Vec<u8>| d@) =~= Seq::<Seq<u8>>::empty());
        while pos < file.len()
            invariant
                ol as int == offsets_len_of(self.vtable()),
                counts_ok(self.vtable()),
                start_buf == zeros(work_len_of(self.vtable())),
                and == predicates.and_models(),
                or == predicates.or_models(),
                items == self.vtable()@.items,
                search_from(file@, ol as int, 8, start_buf, and, or, items) == after_docs(
                    docs@.map_values(|d: Vec<u8>| d@),
                    search_from(file@, ol as int, pos as int, buffer@, and, or, items),
                ),
                search_from(file@, ol as int, pos as int, buffer@, and, or, items) is Some,
            decreases file.len() - pos,
        {
            let ghost before = buffer@;
            let ghost acc = docs@.map_values(|d: Vec<u8>| d@);
            proof {
                assert(read_record(file@, ol as int, pos as int, before) is Some);
            }
            let (dl, offsets) = match self.read_record_at(file, pos, ol, &mut buffer) {
                Ok(r) => r,
                Err(e) => {
                    return Err(e);
                },
            };
            let doc = vstd::slice::slice_subrange(buffer.as_slice(), 0, dl);
            proof {
                assert forall|i: int| 0 <= i < predicates.and@.len() implies evaluable(
                    #[trigger] predicates.and@[i]@,
                    offsets@,
                    doc@,
                    self.vtable@.items,
                ) by {
                    assert(and[i] == predicates.and@[i]@);
                }
                assert forall|i: int| 0 <= i < predicates.or@.len() implies evaluable(
                    #[trigger] predicates.or@[i]@,
                    offsets@,
                    doc@,
                    self.vtable@.items,
                ) by {
                    assert(or[i] == predicates.or@[i]@);
                }
            }
            let matched = match predicates.eval(&self.vtable, &offsets, doc) {
                Ok(b) => b,
                Err(e) => {
                    proof {
                        lemma_all_hold_fails_first(and, offsets@, doc@, items);
                        lemma_any_holds_fails_first(or, offsets@, doc@, items);
                    }
                    return Err(e);
                },
            };
            if matched {
                let mut out: Vec<u8> = Vec::new();
                extend_from_slice(&mut out, doc);
                docs.push(out);
                proof {
                    let rest = search_from(file@, ol as int, pos + ol + dl, buffer@, and, or, items);
                    assert(docs@.map_values(|d: Vec<u8>| d@) =~= acc.push(doc@));
                    if let Some(Ok(r)) = rest {
                        assert(acc + (seq![doc@] + r) =~= acc.push(doc@) + r);
                    }
                }
            }
            pos = pos + ol + dl;
        }
        proof {
            assert(docs@.map_values(|d: Vec<u8>| d@) + Seq::<Seq<u8>>::empty() =~= docs@.map_values(
                |d: Vec<u8>| d@,
            ));
        }
        Ok(docs)
    }

    /// The number of documents in the partition file `file`.
    pub fn count(&self, file: &[u8]) -> (res: Result<usize, DbError>)
        ensures
            res == file_count(file@),
    {
        if file.len() == 0 {
            return Ok(0);
        }
        if file.len() < 8 {
            return Err(DbError::UnexpectedEof);
        }
        Ok(read_u64_le(file, 0) as usize)
    }
}


/// Where reading every record from `pos` on ends (see `ids_from`), looking
/// for any document from `pos` on ends too.
pub proof fn lemma_walk_finds(file: Seq<u8>, ol: int, pos: int, buf: Seq<u8>, id: Seq<u8>)
    requires
        ids_from(file, ol, pos, buf) is Some,
    ensures
        find_doc(file, ol, pos, buf, id) is Some,
    decreases file.len() - pos,
{
    if pos < file.len() && buf.len() >= 16 && ol >= 0 {
        match read_record(file, ol, pos, buf) {
            Some(Ok((dl, buf2))) => {
                if !(ol + dl <= 0 || pos + ol + dl > file.len()) {
                    lemma_walk_finds(file, ol, pos + ol + dl, buf2, id);
                }
            },
            _ => {},
        }
    }
}

impl Partition {
    /// Whether every record of the partition file can be read to the end of
    /// the file: false where the partition would index past its work buffer
    /// or stop advancing. Where it holds, looking up any document ends.
    pub fn walk_ok(&self, file: &[u8]) -> (r: bool)
        requires
            counts_ok(self.vtable()),
        ensures
            r == (ids_from(file@, offsets_len_of(self.vtable()), 8, zeros(work_len_of(self.vtable()))) is Some),
            r ==> forall|id: Seq<u8>|
                #[trigger] find_doc(file@, offsets_len_of(self.vtable()), 8, zeros(work_len_of(self.vtable())), id) is Some,
    {
        let ol = self.vtable.offset_len();
        let mut buffer = self.vtable.alloc_buf();
        assert(buffer@ =~= zeros(work_len_of(self.vtable())));
        let ghost start = buffer@;
        proof {
            assert forall|id: Seq<u8>| ids_from(file@, ol as int, 8, start) is Some implies
                #[trigger] find_doc(file@, ol as int, 8, start, id) is Some by {
                lemma_walk_finds(file@, ol as int, 8, start, id);
            }
        }
        let mut pos: usize = PARTITION_COUNT_OFFSET;
        while pos < file.len()
            invariant
                ol as int == offsets_len_of(self.vtable()),
                counts_ok(self.vtable()),
                8 <= pos,
                start == zeros(work_len_of(self.vtable())),
                (ids_from(file@, ol as int, 8, start) is Some) == (ids_from(file@, ol as int, pos as int, buffer@) is Some),
                forall|id: Seq<u8>| ids_from(file@, ol as int, 8, start) is Some ==>
                    #[trigger] find_doc(file@, ol as int, 8, start, id) is Some,
            decreases file.len() - pos,
        {
            if buffer.len() < 16 || ol > buffer.len() {
                return false;
            }
            if pos > file.len() || file.len() - pos < ol {
                return true;
            }
            let ob = vstd::slice::slice_subrange(file, pos, pos + ol);
            let offsets = VTableFieldOffsets::from_bytes(ob);
            let dl = offsets.doc_buffer_len();
            proof {
                lemma_max_end(offsets@);
                if offsets@.len() > 0 {
                    let i = choose|i: int| 0 <= i < offsets@.len() && offsets@[i].1.end == dl;
                    let k = choose|k: int|
                        0 <= k < offsets@.len() && offsets@[k].1.end == max_end(offsets@);
                    assert(offsets@[k].1.end <= dl);
                    assert(offsets@[i].1.end <= max_end(offsets@));
                }
            }
            assert(dl == doc_len_of(ob@));
            if dl > buffer.len() {
                return false;
            }
            if file.len() - pos - ol < dl {
                return true;
            }
            let _ = self.read_record_at(file, pos, ol, &mut buffer);
            if ol + dl == 0 {
                return false;
            }
            pos = pos + ol + dl;
        }
        true
    }
}


/// Every predicate of `ps` can be evaluated on the document.
fn all_evaluable(ps: &Vec<crate::predicate::Predicate>, vtable: &VTable, offsets: &VTableFieldOffsets, doc: &[u8]) -> (r: bool)
    ensures
        r == forall|i: int| 0 <= i < ps@.len() ==> evaluable(#[trigger] ps@[i]@, offsets@, doc@, vtable@.items),
{
    let n = ps.len();
    for k in 0..n
        invariant
            n == ps@.len(),
            forall|i: int| 0 <= i < k ==> evaluable(#[trigger] ps@[i]@, offsets@, doc@, vtable@.items),
    {
        if !ps[k].can_eval(vtable, offsets, doc) {
            return false;
        }
    }
    true
}

impl Partition {
    /// The vtable of the partition.
    pub fn vtable_ref(&self) -> (r: &VTable)
        ensures
            r == self.vtable(),
    {
        &self.vtable
    }

    /// Whether searching the partition file with `predicates` ends without
    /// indexing past the work buffer: every record can be read and every
    /// predicate evaluated on it (see `search_from`).
    pub fn search_ok(&self, file: &[u8], predicates: &Predicates) -> (r: bool)
        requires
            counts_ok(self.vtable()),
        ensures
            r == (search_from(
                file@,
                offsets_len_of(self.vtable()),
                8,
                zeros(work_len_of(self.vtable())),
                predicates.and_models(),
                predicates.or_models(),
                self.vtable()@.items,
            ) is Some),
    {
        let ol = self.vtable.offset_len();
        let mut buffer = self.vtable.alloc_buf();
        assert(buffer@ =~= zeros(work_len_of(self.vtable())));
        let ghost start = buffer@;
        let ghost and = predicates.and_models();
        let ghost or = predicates.or_models();
        let ghost items = self.vtable()@.items;
        let mut pos: usize = PARTITION_COUNT_OFFSET;
        while pos < file.len()
            invariant
                ol as int == offsets_len_of(self.vtable()),
                counts_ok(self.vtable()),
                8 <= pos,
                start == zeros(work_len_of(self.vtable())),
                and == predicates.and_models(),
                or == predicates.or_models(),
                items == self.vtable()@.items,
                (search_from(file@, ol as int, 8, start, and, or, items) is Some) == (search_from(
                    file@,
                    ol as int,
                    pos as int,
                    buffer@,
                    and,
                    or,
                    items,
                ) is Some),
            decreases file.len() - pos,
        {
            if ol > buffer.len() {
                return false;
            }
            if pos > file.len() || file.len() - pos < ol {
                return true;
            }
            let ob = vstd::slice::slice_subrange(file, pos, pos + ol);
            let offs = VTableFieldOffsets::from_bytes(ob);
            let dl = offs.doc_buffer_len();
            proof {
                lemma_max_end(offs@);
                if offs@.len() > 0 {
                    let i = choose|i: int| 0 <= i < offs@.len() && offs@[i].1.end == dl;
                    let k = choose|k: int| 0 <= k < offs@.len() && offs@[k].1.end == max_end(offs@);
                    assert(offs@[k].1.end <= dl);
                    assert(offs@[i].1.end <= max_end(offs@));
                }
            }
            assert(dl == doc_len_of(ob@));
            if dl > buffer.len() {
                return false;
            }
            if file.len() - pos - ol < dl {
                return true;
            }
            let (_, offsets) = match self.read_record_at(file, pos, ol, &mut buffer) {
                Ok(r) => r,
                Err(_) => return true,
            };
            let doc = vstd::slice::slice_subrange(buffer.as_slice(), 0, dl);
            let ea = all_evaluable(&predicates.and, &self.vtable, &offsets, doc);
            let eo = all_evaluable(&predicates.or, &self.vtable, &offsets, doc);
            proof {
                assert forall|i: int| 0 <= i < and.len() implies and[i] == predicates.and@[i]@ by {}
                assert forall|i: int| 0 <= i < or.len() implies or[i] == predicates.or@[i]@ by {}
            }
            if !ea || !eo || ol + dl == 0 {
                proof {
                    if !ea {
                        let i = choose|i: int| 0 <= i < predicates.and@.len() && !evaluable(predicates.and@[i]@, offsets@, doc@, self.vtable@.items);
                        assert(!evaluable(and[i], offsets@, doc@, items));
                    }
                    if !eo {
                        let i = choose|i: int| 0 <= i < predicates.or@.len() && !evaluable(predicates.or@[i]@, offsets@, doc@, self.vtable@.items);
                        assert(!evaluable(or[i], offsets@, doc@, items));
                    }
                }
                return false;
            }
            if predicates.eval(&self.vtable, &offsets, doc).is_err() {
                return true;
            }
            pos = pos + ol + dl;
        }
        true
    }
}


/// Scanning from `p` up to the record found at `pos` goes the same way in a
/// file that agrees with `f` from byte 8 up to `pos`: it reaches `pos` with a
/// work buffer of the same length.
pub proof fn lemma_find_prefix(
    f: Seq<u8>,
    f2: Seq<u8>,
    ol: int,
    p: int,
    buf: Seq<u8>,
    id: Seq<u8>,
    pos: int,
    d: Seq<u8>,
) -> (at_buf: Seq<u8>)
    requires
        8 <= p,
        pos <= f.len(),
        pos <= f2.len(),
        f2.subrange(8, pos) == f.subrange(8, pos),
        find_doc(f, ol, p, buf, id) == Some(Ok::<Option<(int, Seq<u8>)>, DbError>(Some((pos, d)))),
    ensures
        p <= pos,
        at_buf.len() == buf.len(),
        find_doc(f2, ol, p, buf, id) == find_doc(f2, ol, pos, at_buf, id),
    decreases f.len() - p,
{
    let (dl, b2) = read_record(f, ol, p, buf).unwrap().unwrap();
    if b2.subrange(0, 16) == id {
        buf
    } else {
        let q = p + ol + dl;
        let at = lemma_find_prefix(f, f2, ol, q, b2, id, pos, d);
        assert forall|k: int| 8 <= k < pos implies #[trigger] f2[k] == f[k] by {
            let x = f2.subrange(8, pos);
            let y = f.subrange(8, pos);
            assert(x[k - 8] == f2[k]);
            assert(y[k - 8] == f[k]);
        }
        assert(f2.subrange(p, p + ol) =~= f.subrange(p, p + ol)) by {
            assert forall|k: int| 0 <= k < ol implies #[trigger] f2.subrange(p, p + ol)[k]
                == f.subrange(p, p + ol)[k] by {
                assert(f2[p + k] == f[p + k]);
            }
        }
        assert(f2.subrange(p + ol, p + ol + dl) =~= f.subrange(p + ol, p + ol + dl)) by {
            assert forall|k: int| 0 <= k < dl implies #[trigger] f2.subrange(p + ol, p + ol + dl)[k]
                == f.subrange(p + ol, p + ol + dl)[k] by {
                assert(f2[p + ol + k] == f[p + ol + k]);
            }
        }
        assert(read_record(f2, ol, p, buf) == read_record(f, ol, p, buf));
        at
    }
}

/// After a document is replaced, reading it by its identifier gives the new
/// document, where the new document starts with that identifier and records
/// its own length.
#[verifier::spinoff_prover]
pub proof fn lemma_update_then_read(
    v: &VTable,
    file: Seq<u8>,
    id: Seq<u8>,
    pos: int,
    doc: Seq<u8>,
    offsets: Seq<u8>,
    new_doc: Seq<u8>,
)
    requires
        counts_ok(v),
        find_doc(file, offsets_len_of(v), 8, zeros(work_len_of(v)), id) == Some(
            Ok::<Option<(int, Seq<u8>)>, DbError>(Some((pos, doc))),
        ),
        pos + offsets_len_of(v) + doc.len() <= file.len(),
        offsets.len() == offsets_len_of(v),
        doc_len_of(offsets) == new_doc.len(),
        16 <= new_doc.len() <= work_len_of(v),
        offsets_len_of(v) <= work_len_of(v),
        new_doc.subrange(0, 16) == id,
    ensures
        find_doc(
            spliced_record(file, pos, offsets_len_of(v) + doc.len(), offsets + new_doc),
            offsets_len_of(v),
            8,
            zeros(work_len_of(v)),
            id,
        ) == Some(Ok::<Option<(int, Seq<u8>)>, DbError>(Some((pos, new_doc)))),
{
    let ol = offsets_len_of(v);
    let w = zeros(work_len_of(v));
    let len = ol + doc.len();
    let f2 = spliced_record(file, pos, len, offsets + new_doc);
    lemma_find_at_or_after(file, ol, 8, w, id, pos, doc);
    assert(f2.subrange(8, pos) =~= file.subrange(8, pos));
    let at = lemma_find_prefix(file, f2, ol, 8, w, id, pos, doc);
    assert(f2.subrange(pos, pos + ol) =~= offsets);
    assert(f2.subrange(pos + ol, pos + ol + new_doc.len()) =~= new_doc);
    lemma_find_record_here(f2, ol, pos, at, id, offsets, new_doc);
}

/// The record found by a scan from `p` stands at or after `p`.
proof fn lemma_find_at_or_after(f: Seq<u8>, ol: int, p: int, buf: Seq<u8>, id: Seq<u8>, pos: int, d: Seq<u8>)
    requires
        find_doc(f, ol, p, buf, id) == Some(Ok::<Option<(int, Seq<u8>)>, DbError>(Some((pos, d)))),
    ensures
        p <= pos,
    decreases f.len() - p,
{
    let (dl, b2) = read_record(f, ol, p, buf).unwrap().unwrap();
    if b2.subrange(0, 16) != id {
        lemma_find_at_or_after(f, ol, p + ol + dl, b2, id, pos, d);
    }
}


/// From `p` on, every record of `f` can be read into a work buffer of
/// `blen` bytes, has a document of at least 16 bytes that does not start
/// with `id`, and moves the scan forward; a record cut short by the end of
/// the file ends it.
pub open spec fn rest_lacks(f: Seq<u8>, ol: int, p: int, blen: int, id: Seq<u8>) -> bool
    decreases f.len() - p,
{
    if p >= f.len() {
        true
    } else if ol < 0 || ol > blen || blen < 16 {
        false
    } else if p + ol > f.len() {
        true
    } else {
        let dl = doc_len_of(f.subrange(p, p + ol));
        if dl > blen {
            false
        } else if p + ol + dl > f.len() {
            true
        } else if dl < 16 || ol + dl <= 0 {
            false
        } else {
            f.subrange(p + ol, p + ol + 16) != id && rest_lacks(f, ol, p + ol + dl, blen, id)
        }
    }
}

/// Where the rest of the file lacks `id`, scanning it ends without finding `id`.
proof fn lemma_rest_lacks_find(f: Seq<u8>, ol: int, p: int, buf: Seq<u8>, id: Seq<u8>)
    requires
        0 <= p,
        rest_lacks(f, ol, p, buf.len() as int, id),
    ensures
        find_doc(f, ol, p, buf, id) matches Some(r) && !(r matches Ok(Some(_))),
    decreases f.len() - p,
{
    if p < f.len() && p + ol <= f.len() {
        let ob = f.subrange(p, p + ol);
        let dl = doc_len_of(ob);
        if p + ol + dl <= f.len() {
            assert(dl >= 16 && ol + dl > 0);
            assert(rest_lacks(f, ol, p + ol + dl, buf.len() as int, id));
            let doc = f.subrange(p + ol, p + ol + dl);
            let buf2 = overwritten(overwritten(buf, ob), doc);
            assert(read_record(f, ol, p, buf) == Some(Ok::<(int, Seq<u8>), DbError>((dl, buf2))));
            assert(buf2.subrange(0, 16) =~= f.subrange(p + ol, p + ol + 16));
            lemma_rest_lacks_find(f, ol, p + ol + dl, buf2, id);
        }
    }
}

/// `rest_lacks` depends only on the bytes from `p` on.
proof fn lemma_rest_lacks_shift(f: Seq<u8>, g: Seq<u8>, ol: int, p: int, q: int, blen: int, id: Seq<u8>)
    requires
        0 <= p <= f.len(),
        0 <= q <= g.len(),
        f.subrange(p, f.len() as int) == g.subrange(q, g.len() as int),
        rest_lacks(f, ol, p, blen, id),
    ensures
        rest_lacks(g, ol, q, blen, id),
    decreases f.len() - p,
{
    let n = f.len() - p;
    assert(f.subrange(p, f.len() as int).len() == n);
    assert(g.len() - q == n);
    assert forall|k: int| 0 <= k < n implies #[trigger] f[p + k] == g[q + k] by {
        assert(f.subrange(p, f.len() as int)[k] == f[p + k]);
        assert(g.subrange(q, g.len() as int)[k] == g[q + k]);
    }
    if p < f.len() && 0 <= ol && p + ol <= f.len() {
        assert(f.subrange(p, p + ol) =~= g.subrange(q, q + ol)) by {
            assert forall|k: int| 0 <= k < ol implies #[trigger] f.subrange(p, p + ol)[k] == g.subrange(q, q + ol)[k] by {
                assert(f[p + k] == g[q + k]);
            }
        }
        let dl = doc_len_of(f.subrange(p, p + ol));
        if p + ol + dl <= f.len() && dl >= 16 {
            assert(f.subrange(p + ol, p + ol + 16) =~= g.subrange(q + ol, q + ol + 16)) by {
                assert forall|k: int| 0 <= k < 16 implies #[trigger] f.subrange(p + ol, p + ol + 16)[k] == g.subrange(q + ol, q + ol + 16)[k] by {
                    assert(f[p + (ol + k)] == g[q + (ol + k)]);
                }
            }
            if ol + dl > 0 {
                let p2 = p + ol + dl;
                let q2 = q + ol + dl;
                assert(f.subrange(p2, f.len() as int) =~= g.subrange(q2, g.len() as int)) by {
                    assert forall|k: int| 0 <= k < f.len() - p2 implies #[trigger] f.subrange(p2, f.len() as int)[k] == g.subrange(q2, g.len() as int)[k] by {
                        assert(f[p + (ol + dl + k)] == g[q + (ol + dl + k)]);
                    }
                }
                if rest_lacks(f, ol, p2, blen, id) {
                    lemma_rest_lacks_shift(f, g, ol, p2, q2, blen, id);
                }
            }
        }
    }
}

/// After a document is deleted, reading it by its identifier does not find
/// it, where no later record starts with the same identifier and every later
/// record fits the work buffer with a document of at least 16 bytes.
#[verifier::spinoff_prover]
pub proof fn lemma_delete_then_absent(
    v: &VTable,
    file: Seq<u8>,
    id: Seq<u8>,
    pos: int,
    doc: Seq<u8>,
    count: u64,
)
    requires
        counts_ok(v),
        find_doc(file, offsets_len_of(v), 8, zeros(work_len_of(v)), id) == Some(
            Ok::<Option<(int, Seq<u8>)>, DbError>(Some((pos, doc))),
        ),
        pos + offsets_len_of(v) + doc.len() <= file.len(),
        rest_lacks(file, offsets_len_of(v), pos + offsets_len_of(v) + doc.len(), work_len_of(v), id),
    ensures
        find_doc(
            with_count(spliced_record(file, pos, offsets_len_of(v) + doc.len(), Seq::empty()), count),
            offsets_len_of(v),
            8,
            zeros(work_len_of(v)),
            id,
        ) matches Some(r) && !(r matches Ok(Some(_))),
{
    let ol = offsets_len_of(v);
    let w = zeros(work_len_of(v));
    let len = ol + doc.len();
    lemma_find_at_or_after(file, ol, 8, w, id, pos, doc);
    let f1 = spliced_record(file, pos, len, Seq::empty());
    let f2 = with_count(f1, count);
    lemma_auto_spec_u64_to_from_le_bytes();
    assert(f1.len() == file.len() - len);
    assert(f2.len() == f1.len());
    assert(f2.subrange(8, pos) =~= file.subrange(8, pos));
    let at = lemma_find_prefix(file, f2, ol, 8, w, id, pos, doc);
    assert(file.subrange(pos + len, file.len() as int) =~= f2.subrange(pos, f2.len() as int));
    lemma_rest_lacks_shift(file, f2, ol, pos + len, pos, work_len_of(v), id);
    lemma_rest_lacks_find(f2, ol, pos, at, id);
}

} // verus!
