//! Document identifiers in the database and the page metadata of a vtable.
use vstd::prelude::*;
use vstd::bytes::*;
use core::ops::Range;
use crate::bytes::{lemma_le_roundtrips, push_u32_le, push_u64_le, read_u32_le, read_u64_le};
use crate::db_error::DbError;
use crate::hex_text::hex_text;
use crate::table::{vtable_id_bytes, hash_tag_fits, VTable, VTableId};

verus! {

/// Index of a page.
pub type PageIndex = u32;

/// Number of documents in a page.
pub type PageCount = u32;

/// Size of a page in bytes.
pub type PageSize = usize;

/// The 28-byte encoding of a document identifier.
pub type DocBufDbDocIdBytes = [u8; 28];

/// Where a document is stored: its vtable, its page and its byte range.
#[derive(Debug)]
pub struct DocBufDbDocId {
    pub vtable_id: VTableId,
    pub page_index: PageIndex,
    pub page_offset: Range<usize>,
}

/// Encoding of a document identifier: the vtable id (8 bytes), the page
/// index (4 little-endian bytes), the start and the end of the range
/// (8 little-endian bytes each).
pub open spec fn doc_id_bytes(vtable_id: Seq<u8>, page_index: u32, start: usize, end: usize) -> Seq<u8> {
    vtable_id + spec_u32_to_le_bytes(page_index) + spec_u64_to_le_bytes(start as u64)
        + spec_u64_to_le_bytes(end as u64)
}

/// The identifier parts that the first 28 bytes of `b` encode: the vtable
/// id, the page index, the start and the end of the range.
pub open spec fn doc_id_of_bytes(b: Seq<u8>) -> (Seq<u8>, u32, usize, usize) {
    (
        b.subrange(0, 8),
        spec_u32_from_le_bytes(b.subrange(8, 12)),
        spec_u64_from_le_bytes(b.subrange(12, 20)) as usize,
        spec_u64_from_le_bytes(b.subrange(20, 28)) as usize,
    )
}

/// The parts of an identifier.
pub open spec fn doc_id_parts(id: DocBufDbDocId) -> (Seq<u8>, u32, usize, usize) {
    (id.vtable_id@, id.page_index, id.page_offset.start, id.page_offset.end)
}

impl DocBufDbDocId {
    /// The identifier of a document at `page_offset` in page `page_index`.
    pub fn new(vtable_id: VTableId, page_index: PageIndex, page_offset: Range<usize>) -> (d: Self)
        ensures
            d.vtable_id@ == vtable_id@,
            d.page_index == page_index,
            d.page_offset == page_offset,
    {
        Self { vtable_id, page_index, page_offset }
    }

    /// The 28-byte encoding of the identifier.
    pub fn to_bytes(&self) -> (b: DocBufDbDocIdBytes)
        ensures
            b@ == doc_id_bytes(
                self.vtable_id@,
                self.page_index,
                self.page_offset.start,
                self.page_offset.end,
            ),
    {
        let id = self.vtable_id.bytes();
        let mut v: Vec<u8> = Vec::new();
        let mut i: usize = 0;
        while i < 8
            invariant
                0 <= i <= 8,
                id@.len() == 8,
                v@ == id@.subrange(0, i as int),
            decreases 8 - i,
        {
            v.push(id[i]);
            i = i + 1;
            assert(v@ =~= id@.subrange(0, i as int));
        }
        assert(id@.subrange(0, 8) =~= id@);
        push_u32_le(&mut v, self.page_index);
        push_u64_le(&mut v, self.page_offset.start as u64);
        push_u64_le(&mut v, self.page_offset.end as u64);
        proof {
            lemma_le_roundtrips();
        }
        assert(v@.len() == 28);
        let b = [
            v[0],
            v[1],
            v[2],
            v[3],
            v[4],
            v[5],
            v[6],
            v[7],
            v[8],
            v[9],
            v[10],
            v[11],
            v[12],
            v[13],
            v[14],
            v[15],
            v[16],
            v[17],
            v[18],
            v[19],
            v[20],
            v[21],
            v[22],
            v[23],
            v[24],
            v[25],
            v[26],
            v[27],
        ];
        assert(b@ =~= v@);
        b
    }

    /// The identifier encoded by the first 28 bytes of `bytes`.
    pub fn from_bytes(bytes: &[u8]) -> (d: Self)
        requires
            bytes@.len() >= 28,
        ensures
            d.vtable_id@ == bytes@.subrange(0, 8),
            d.page_index == spec_u32_from_le_bytes(bytes@.subrange(8, 12)),
            d.page_offset.start == spec_u64_from_le_bytes(bytes@.subrange(12, 20)) as usize,
            d.page_offset.end == spec_u64_from_le_bytes(bytes@.subrange(20, 28)) as usize,
            doc_id_parts(d) == doc_id_of_bytes(bytes@),
    {
        let id = [bytes[0], bytes[1], bytes[2], bytes[3], bytes[4], bytes[5], bytes[6], bytes[7]];
        assert(id@ =~= bytes@.subrange(0, 8));
        let page_index = read_u32_le(bytes, 8);
        let start = read_u64_le(bytes, 12);
        let end = read_u64_le(bytes, 20);
        Self {
            vtable_id: VTableId::new(id),
            page_index,
            page_offset: Range { start: start as usize, end: end as usize },
        }
    }

    /// The identifier that the 28 bytes encode (see `from_bytes`).
    pub fn from(bytes: DocBufDbDocIdBytes) -> (d: Self)
        ensures
            doc_id_parts(d) == doc_id_of_bytes(bytes@),
    {
        Self::from_bytes(&bytes)
    }
}

/// Decoding the encoding of a document identifier gives it back.
pub proof fn lemma_doc_id_roundtrip(vtable_id: Seq<u8>, page_index: u32, start: usize, end: usize)
    requires
        vtable_id.len() == 8,
    ensures
        ({
            let b = doc_id_bytes(vtable_id, page_index, start, end);
            &&& b.len() == 28
            &&& b.subrange(0, 8) == vtable_id
            &&& spec_u32_from_le_bytes(b.subrange(8, 12)) == page_index
            &&& spec_u64_from_le_bytes(b.subrange(12, 20)) as usize == start
            &&& spec_u64_from_le_bytes(b.subrange(20, 28)) as usize == end
        }),
{
    lemma_le_roundtrips();
    let p = spec_u32_to_le_bytes(page_index);
    let s = spec_u64_to_le_bytes(start as u64);
    let e = spec_u64_to_le_bytes(end as u64);
    let b = doc_id_bytes(vtable_id, page_index, start, end);
    assert(b.subrange(0, 8) =~= vtable_id);
    assert(b.subrange(8, 12) =~= p);
    assert(b.subrange(12, 20) =~= s);
    assert(b.subrange(20, 28) =~= e);
    assert((start as u64) as usize == start) by (bit_vector);
    assert((end as u64) as usize == end) by (bit_vector);
}

/// Decoding the encoding of a document identifier gives the identifier
/// back: the 28 bytes that `to_bytes` writes are what `from_bytes` reads
/// the same vtable identifier, page index and byte range from.
pub proof fn lemma_doc_id_value_roundtrip(id: DocBufDbDocId)
    ensures
        ({
            let b = doc_id_bytes(id.vtable_id@, id.page_index, id.page_offset.start, id.page_offset.end);
            &&& b.len() == 28
            &&& b.subrange(0, 8) == id.vtable_id@
            &&& spec_u32_from_le_bytes(b.subrange(8, 12)) == id.page_index
            &&& spec_u64_from_le_bytes(b.subrange(12, 20)) as usize == id.page_offset.start
            &&& spec_u64_from_le_bytes(b.subrange(20, 28)) as usize == id.page_offset.end
        }),
{
    crate::table::lemma_vtable_id_len(id.vtable_id);
    lemma_doc_id_roundtrip(id.vtable_id@, id.page_index, id.page_offset.start, id.page_offset.end);
}

/// Reading an identifier back from the bytes of its encoding gives the
/// identifier: `from` (or `from_bytes`) of `to_bytes` has the same vtable
/// id, page index and byte range.
pub proof fn lemma_doc_id_from_to_bytes(id: DocBufDbDocId)
    ensures
        doc_id_of_bytes(
            doc_id_bytes(id.vtable_id@, id.page_index, id.page_offset.start, id.page_offset.end),
        ) == doc_id_parts(id),
{
    lemma_doc_id_value_roundtrip(id);
}

/// The metadata of a page of documents.
#[derive(Debug, Clone, Copy, PartialEq, Eq)]
pub struct DocBufDbVTablePageMetadata {
    /// The index of the page.
    pub index: PageIndex,
    /// The number of documents in the page.
    pub count: PageCount,
    /// The end offset of the last document in the page.
    pub end: usize,
    /// Space left in the page, in bytes.
    pub available: usize,
}

impl DocBufDbVTablePageMetadata {
    /// An empty page of `size` bytes at index `index`.
    pub fn new(index: PageIndex, size: PageSize) -> (m: Self)
        ensures
            m == (DocBufDbVTablePageMetadata { index, count: 0, end: 0, available: size }),
    {
        Self { index, available: size, count: 0, end: 0 }
    }
}

/// The pages of a vtable in the database, with the vtable and the default
/// page size.
#[derive(Debug)]
pub struct DocBufDbVTableLockFile {
    /// The vtable.
    pub vtable: VTable,
    /// The default size of the pages in bytes.
    pub size: PageSize,
    /// The pages, in order.
    pub pages: Vec<DocBufDbVTablePageMetadata>,
    /// The encoded identifiers of the documents of the vtable.
    pub doc_ids: Vec<DocBufDbDocIdBytes>,
}

impl DocBufDbVTableLockFile {
    /// The pages of `vtable`, none yet, with the vtable's suggested page size.
    pub fn new(vtable: VTable) -> (l: Self)
        requires
            vtable.num_fields * 255 * 255 <= usize::MAX,
        ensures
            l.vtable@ == vtable@,
            l.size == vtable.num_fields * 255 * 255,
            l.pages@ == Seq::<DocBufDbVTablePageMetadata>::empty(),
            l.doc_ids@ == Seq::<DocBufDbDocIdBytes>::empty(),
    {
        let size = vtable.page_size(None);
        Self { vtable, size, pages: Vec::new(), doc_ids: Vec::new() }
    }

    /// Adds an empty page with the next index; there can be no more pages
    /// than a page index counts.
    pub fn new_page_metadata(&mut self) -> (res: Result<(), DbError>)
        requires
            old(self).pages@.len() > u32::MAX ==> hash_tag_fits(
                vstd::utf8::encode_utf8(old(self).vtable@.namespace),
            ) && hash_tag_fits(vstd::utf8::encode_utf8(old(self).vtable@.root)),
        ensures
            old(self).pages@.len() <= u32::MAX ==> res is Ok && final(self).pages@ == old(
                self,
            ).pages@.push(
                DocBufDbVTablePageMetadata {
                    index: old(self).pages@.len() as u32,
                    count: 0,
                    end: 0,
                    available: old(self).size,
                },
            ),
            old(self).pages@.len() > u32::MAX ==> final(self).pages@ == old(self).pages@ && (
            res matches Err(DbError::MaxPagesReached(h)) && h@ == hex_text(
                vtable_id_bytes(old(self).vtable@),
            )),
            final(self).vtable@ == old(self).vtable@,
            final(self).size == old(self).size,
            final(self).doc_ids@ == old(self).doc_ids@,
    {
        let n = self.pages.len();
        if n > 4294967295usize {
            return Err(DbError::MaxPagesReached(self.vtable.id().as_hex()));
        }
        self.pages.push(DocBufDbVTablePageMetadata::new(n as u32, self.size));
        Ok(())
    }

    /// The current (last) page, for changes.
    pub fn current_page_metadata(&mut self) -> (r: Option<&mut DocBufDbVTablePageMetadata>)
        ensures
            old(self).pages@.len() == 0 ==> r is None && final(self).pages@ == old(self).pages@,
            old(self).pages@.len() > 0 ==> (r matches Some(p) && *p == old(self).pages@.last()
                && final(self).pages@ == old(self).pages@.update(
                old(self).pages@.len() - 1,
                *final(p),
            )),
            final(self).vtable@ == old(self).vtable@,
            final(self).size == old(self).size,
    {
        self.pages.last_mut()
    }

    /// The number of pages.
    pub fn page_count(&self) -> (n: usize)
        ensures
            n == self.pages@.len(),
    {
        self.pages.len()
    }
}

} // verus!
