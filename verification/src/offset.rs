//! Field offsets: where the data of each field lies in a document buffer.
use vstd::prelude::*;
use vstd::bytes::*;
use core::ops::Range;
use crate::bytes::{lemma_le_roundtrips, lemma_split_at, push_u64_le, read_u64_le};

verus! {

/// Size of one encoded offset: two index bytes, then the range start and end
/// as eight little-endian bytes each.
pub const VTABLE_FIELD_OFFSET_SIZE_BYTES: usize = 18;

/// The (item index, field index) pair an offset belongs to.
pub type VTableFieldOffsetIndex = (u8, u8);

/// The byte range of one field's data in the document buffer.
#[derive(Debug)]
pub struct VTableFieldOffset(pub VTableFieldOffsetIndex, pub Range<usize>);

/// The 18 bytes of an encoded offset.
pub open spec fn offset_bytes(o: VTableFieldOffset) -> Seq<u8> {
    seq![o.0.0, o.0.1] + spec_u64_to_le_bytes(o.1.start as u64) + spec_u64_to_le_bytes(
        o.1.end as u64,
    )
}

/// The offset encoded by the 18 bytes `b`.
pub open spec fn offset_of_bytes(b: Seq<u8>) -> VTableFieldOffset {
    VTableFieldOffset(
        (b[0], b[1]),
        Range {
            start: spec_u64_from_le_bytes(b.subrange(2, 10)) as usize,
            end: spec_u64_from_le_bytes(b.subrange(10, 18)) as usize,
        },
    )
}

/// Length of a range; zero when the end is not after the start.
pub open spec fn range_len(r: Range<usize>) -> nat {
    if r.end >= r.start {
        (r.end - r.start) as nat
    } else {
        0
    }
}

impl VTableFieldOffset {
    /// A copy of the offset.
    pub fn duplicate(&self) -> (r: Self)
        ensures
            r == *self,
    {
        VTableFieldOffset(self.0, Range { start: self.1.start, end: self.1.end })
    }

    /// The byte range of the field data.
    pub fn range(&self) -> (r: Range<usize>)
        ensures
            r == self.1,
    {
        Range { start: self.1.start, end: self.1.end }
    }

    /// The number of bytes in the range.
    pub fn len(&self) -> (n: usize)
        ensures
            n == range_len(self.1),
    {
        if self.1.end >= self.1.start {
            self.1.end - self.1.start
        } else {
            0
        }
    }

    /// The 18-byte encoding: item index, field index, range start, range end.
    pub fn as_bytes(&self) -> (bytes: [u8; 18])
        ensures
            bytes@ == offset_bytes(*self),
    {
        let mut v: Vec<u8> = Vec::new();
        v.push(self.0.0);
        v.push(self.0.1);
        push_u64_le(&mut v, self.1.start as u64);
        push_u64_le(&mut v, self.1.end as u64);
        proof {
            lemma_le_roundtrips();
        }
        assert(v@.len() == 18);
        let bytes = [
            v[0],
            v[1],
            v[2],
            v[3],
            v[4],
            v[5],
            v[6],
            v[7],
            v[8],
            v[9],
            v[10],
            v[11],
            v[12],
            v[13],
            v[14],
            v[15],
            v[16],
            v[17],
        ];
        assert(bytes@ =~= v@);
        bytes
    }

    /// The offset encoded by the first 18 bytes of `bytes`.
    pub fn from_bytes(bytes: &[u8]) -> (o: Self)
        requires
            bytes@.len() >= 18,
        ensures
            o == offset_of_bytes(bytes@),
    {
        let start = read_u64_le(bytes, 2);
        let end = read_u64_le(bytes, 10);
        VTableFieldOffset((bytes[0], bytes[1]), Range { start: start as usize, end: end as usize })
    }
}

/// Decoding the encoding of an offset gives the offset back.
pub proof fn lemma_offset_roundtrip(o: VTableFieldOffset)
    ensures
        offset_bytes(o).len() == 18,
        offset_of_bytes(offset_bytes(o)) == o,
{
    lemma_le_roundtrips();
    let b = offset_bytes(o);
    let s = o.1.start;
    let e = o.1.end;
    assert(spec_u64_to_le_bytes(s as u64).len() == 8);
    assert(spec_u64_to_le_bytes(e as u64).len() == 8);
    assert(b.subrange(2, 10) =~= spec_u64_to_le_bytes(s as u64));
    assert(b.subrange(10, 18) =~= spec_u64_to_le_bytes(e as u64));
    assert((s as u64) as usize == s) by (bit_vector);
    assert((e as u64) as usize == e) by (bit_vector);
}

/// Change of a field's length.
#[derive(Debug, Clone, Copy)]
pub enum VTableFieldOffsetDiff {
    Increase(usize),
    Decrease(usize),
    NoChange,
}

impl VTableFieldOffsetDiff {
    /// The change from `old_len` bytes to `new_len` bytes.
    pub fn new(old_len: usize, new_len: usize) -> (d: Self)
        ensures
            new_len == old_len ==> d is NoChange,
            new_len > old_len ==> d == VTableFieldOffsetDiff::Increase((new_len - old_len) as usize),
            new_len < old_len ==> d == VTableFieldOffsetDiff::Decrease((old_len - new_len) as usize),
    {
        if new_len == old_len {
            Self::NoChange
        } else if new_len > old_len {
            Self::Increase(new_len - old_len)
        } else {
            Self::Decrease(old_len - new_len)
        }
    }
}

/// An offset moved by a length change of the field starting at `from`: every
/// offset that starts at or after `from` has its end moved, and its start too
/// unless it starts exactly at `from`.
pub open spec fn resized(o: VTableFieldOffset, from: usize, diff: VTableFieldOffsetDiff) -> VTableFieldOffset {
    if o.1.start < from {
        o
    } else {
        match diff {
            VTableFieldOffsetDiff::Increase(n) => VTableFieldOffset(
                o.0,
                Range {
                    start: if o.1.start != from { (o.1.start + n) as usize } else { o.1.start },
                    end: (o.1.end + n) as usize,
                },
            ),
            VTableFieldOffsetDiff::Decrease(n) => VTableFieldOffset(
                o.0,
                Range {
                    start: if o.1.start != from { (o.1.start - n) as usize } else { o.1.start },
                    end: (o.1.end - n) as usize,
                },
            ),
            VTableFieldOffsetDiff::NoChange => o,
        }
    }
}

/// The resize of `o` stays within `usize`.
pub open spec fn resize_fits(o: VTableFieldOffset, from: usize, diff: VTableFieldOffsetDiff) -> bool {
    o.1.start >= from ==> match diff {
        VTableFieldOffsetDiff::Increase(n) => o.1.end + n <= usize::MAX && (o.1.start != from
            ==> o.1.start + n <= usize::MAX),
        VTableFieldOffsetDiff::Decrease(n) => o.1.end >= n && (o.1.start != from ==> o.1.start
            >= n),
        VTableFieldOffsetDiff::NoChange => true,
    }
}

/// The encoding of a list of offsets: the 18 bytes of each, in order.
pub open spec fn offsets_bytes(s: Seq<VTableFieldOffset>) -> Seq<u8>
    decreases s.len(),
{
    if s.len() == 0 {
        Seq::empty()
    } else {
        offsets_bytes(s.drop_last()) + offset_bytes(s.last())
    }
}

/// The offsets encoded by `b`, 18 bytes each.
pub open spec fn offsets_of_bytes(b: Seq<u8>) -> Seq<VTableFieldOffset> {
    Seq::new(b.len() / 18, |i: int| offset_of_bytes(b.subrange(18 * i, 18 * i + 18)))
}

/// Position of the first offset with index `idx`, if any.
pub open spec fn is_first_with_index(s: Seq<VTableFieldOffset>, idx: VTableFieldOffsetIndex, i: int) -> bool {
    &&& 0 <= i < s.len()
    &&& s[i].0 == idx
    &&& forall|j: int| 0 <= j < i ==> s[j].0 != idx
}

/// No two offsets of the list have the same index.
pub open spec fn keys_distinct(s: Seq<VTableFieldOffset>) -> bool {
    forall|i: int, j: int| 0 <= i < j < s.len() ==> s[i].0 != s[j].0
}

/// The indexes that the offsets of the list have.
pub open spec fn offset_keys(s: Seq<VTableFieldOffset>) -> Set<VTableFieldOffsetIndex> {
    Set::new(|k: VTableFieldOffsetIndex| exists|i: int| 0 <= i < s.len() && s[i].0 == k)
}

/// The offsets of the fields of a document buffer.
#[derive(Debug)]
pub struct VTableFieldOffsets(Vec<VTableFieldOffset>);

impl View for VTableFieldOffsets {
    type V = Seq<VTableFieldOffset>;

    closed spec fn view(&self) -> Seq<VTableFieldOffset> {
        self.0@
    }
}

impl VTableFieldOffsets {
    /// No offsets.
    pub fn new() -> (r: Self)
        ensures
            r@ == Seq::<VTableFieldOffset>::empty(),
    {
        Self(Vec::new())
    }

    /// No offsets, with room for `size` of them.
    pub fn with_capacity(size: usize) -> (r: Self)
        ensures
            r@ == Seq::<VTableFieldOffset>::empty(),
    {
        Self(Vec::with_capacity(size))
    }

    /// The number of offsets.
    pub fn len(&self) -> (n: usize)
        ensures
            n == self@.len(),
    {
        self.0.len()
    }

    /// The offsets, in order.
    pub fn inner(&self) -> (r: &Vec<VTableFieldOffset>)
        ensures
            r@ == self@,
    {
        &self.0
    }

    /// The offset at position `i`.
    pub fn get(&self, i: usize) -> (r: &VTableFieldOffset)
        requires
            i < self@.len(),
        ensures
            *r == self@[i as int],
    {
        &self.0[i]
    }

    /// The encoding of all offsets, 18 bytes each, in order.
    pub fn as_bytes(&self) -> (bytes: Vec<u8>)
        ensures
            bytes@ == offsets_bytes(self@),
    {
        let mut out: Vec<u8> = Vec::new();
        let n = self.0.len();
        for i in 0..n
            invariant
                n == self@.len(),
                out@ == offsets_bytes(self@.subrange(0, i as int)),
        {
            let b = self.0[i].as_bytes();
            let ghost before = out@;
            crate::bytes::extend_from_slice(&mut out, &b);
            proof {
                let s = self@.subrange(0, i + 1);
                assert(s.drop_last() =~= self@.subrange(0, i as int));
                assert(s.last() == self@[i as int]);
            }
        }
        assert(self@.subrange(0, n as int) =~= self@);
        out
    }

    /// The offsets encoded by `bytes`, 18 bytes each.
    pub fn from_bytes(bytes: &[u8]) -> (r: Self)
        requires
            bytes@.len() % 18 == 0,
        ensures
            r@ == offsets_of_bytes(bytes@),
    {
        let mut offsets: Vec<VTableFieldOffset> = Vec::new();
        let mut index: usize = 0;
        let n = bytes.len();
        while index < n
            invariant
                n == bytes@.len(),
                n % 18 == 0,
                index % 18 == 0,
                index <= n,
                offsets@.len() == index / 18,
                forall|i: int|
                    0 <= i < offsets@.len() ==> #[trigger] offsets@[i] == offset_of_bytes(
                        bytes@.subrange(18 * i, 18 * i + 18),
                    ),
            decreases n - index,
        {
            let chunk = vstd::slice::slice_subrange(bytes, index, index + 18);
            let o = VTableFieldOffset::from_bytes(chunk);
            proof {
                assert(chunk@ =~= bytes@.subrange(18 * (index / 18) as int, 18 * (index / 18) as int + 18));
            }
            offsets.push(o);
            index = index + 18;
        }
        let r = Self(offsets);
        assert(r@ =~= offsets_of_bytes(bytes@));
        r
    }

    /// Adds an offset. When an offset with the same index is already present,
    /// the first such offset takes the new end instead.
    pub fn push(&mut self, offset: VTableFieldOffset)
        ensures
            (forall|j: int| 0 <= j < old(self)@.len() ==> old(self)@[j].0 != offset.0)
                ==> final(self)@ == old(self)@.push(offset),
            forall|i: int|
                is_first_with_index(old(self)@, offset.0, i) ==> final(self)@ == old(self)@.update(
                    i,
                    VTableFieldOffset(
                        old(self)@[i].0,
                        Range { start: old(self)@[i].1.start, end: offset.1.end },
                    ),
                ),
            keys_distinct(old(self)@) ==> keys_distinct(final(self)@),
            offset_keys(final(self)@) == offset_keys(old(self)@).insert(offset.0),
    {
        let n = self.0.len();
        let mut i: usize = 0;
        while i < n
            invariant
                n == self@.len(),
                self@ == old(self)@,
                i <= n,
                forall|j: int| 0 <= j < i ==> self@[j].0 != offset.0,
            decreases n - i,
        {
            if self.0[i].0.0 == offset.0.0 && self.0[i].0.1 == offset.0.1 {
                let existing = &self.0[i];
                let updated = VTableFieldOffset(
                    existing.0,
                    Range { start: existing.1.start, end: offset.1.end },
                );
                self.0.set(i, updated);
                proof {
                    assert forall|k: int| is_first_with_index(old(self)@, offset.0, k) implies k == i by {}
                    assert forall|k: int| 0 <= k < self@.len() implies #[trigger] self@[k].0 == old(
                        self,
                    )@[k].0 by {}
                    assert(offset_keys(self@) =~= offset_keys(old(self)@).insert(offset.0)) by {
                        assert(old(self)@[i as int].0 == offset.0);
                        assert(offset_keys(old(self)@).contains(offset.0));
                        assert forall|k: VTableFieldOffsetIndex| #[trigger] offset_keys(self@).contains(k)
                            implies offset_keys(old(self)@).contains(k) by {
                            let j = choose|j: int| 0 <= j < self@.len() && self@[j].0 == k;
                            assert(old(self)@[j].0 == k);
                        }
                        assert forall|k: VTableFieldOffsetIndex| #[trigger] offset_keys(old(self)@).contains(k)
                            implies offset_keys(self@).contains(k) by {
                            let j = choose|j: int| 0 <= j < old(self)@.len() && old(self)@[j].0 == k;
                            assert(self@[j].0 == k);
                        }
                        assert(offset_keys(self@) =~= offset_keys(old(self)@));
                    }
                }
                return;
            }
            i = i + 1;
        }
        let ghost before = self@;
        self.0.push(offset);
        proof {
            assert forall|k: int| 0 <= k < before.len() implies #[trigger] self@[k] == before[k] by {}
            assert(self@[before.len() as int] == offset);
            assert(offset_keys(self@) =~= offset_keys(before).insert(offset.0)) by {
                assert forall|k: VTableFieldOffsetIndex| #[trigger] offset_keys(self@).contains(k)
                    implies offset_keys(before).insert(offset.0).contains(k) by {
                    let j = choose|j: int| 0 <= j < self@.len() && self@[j].0 == k;
                    if j < before.len() {
                        assert(before[j].0 == k);
                    }
                }
                assert forall|k: VTableFieldOffsetIndex| #[trigger] offset_keys(before).insert(
                    offset.0,
                ).contains(k) implies offset_keys(self@).contains(k) by {
                    if k == offset.0 {
                        assert(self@[before.len() as int].0 == k);
                    } else {
                        let j = choose|j: int| 0 <= j < before.len() && before[j].0 == k;
                        assert(self@[j].0 == k);
                    }
                }
            }
        }
    }

    /// Moves the offsets after a length change of the field starting at `from_index`.
    pub fn resize(&mut self, from_index: usize, diff: VTableFieldOffsetDiff)
        requires
            forall|i: int| 0 <= i < old(self)@.len() ==> resize_fits(#[trigger] old(self)@[i], from_index, diff),
        ensures
            final(self)@.len() == old(self)@.len(),
            forall|i: int|
                0 <= i < old(self)@.len() ==> #[trigger] final(self)@[i] == resized(
                    old(self)@[i],
                    from_index,
                    diff,
                ),
    {
        let n = self.0.len();
        for i in 0..n
            invariant
                n == self@.len(),
                n == old(self)@.len(),
                forall|k: int| 0 <= k < n ==> resize_fits(#[trigger] old(self)@[k], from_index, diff),
                forall|k: int| 0 <= k < i ==> #[trigger] self@[k] == resized(old(self)@[k], from_index, diff),
                forall|k: int| i <= k < n ==> #[trigger] self@[k] == old(self)@[k],
        {
            let o = &self.0[i];
            assert(resize_fits(old(self)@[i as int], from_index, diff));
            if o.1.start >= from_index {
                let idx = o.0;
                let mut start = o.1.start;
                let mut end = o.1.end;
                match diff {
                    VTableFieldOffsetDiff::Increase(increase) => {
                        if start != from_index {
                            start = start + increase;
                        }
                        end = end + increase;
                    },
                    VTableFieldOffsetDiff::Decrease(decrease) => {
                        if start != from_index {
                            start = start - decrease;
                        }
                        end = end - decrease;
                    },
                    VTableFieldOffsetDiff::NoChange => {},
                }
                self.0.set(i, VTableFieldOffset(idx, Range { start, end }));
            }
        }
    }

    /// The first offset with the given index.
    pub fn offset(&self, index: VTableFieldOffsetIndex) -> (r: Option<&VTableFieldOffset>)
        ensures
            r is None ==> forall|j: int| 0 <= j < self@.len() ==> self@[j].0 != index,
            r matches Some(o) ==> exists|i: int| is_first_with_index(self@, index, i) && *o == self@[i],
    {
        let n = self.0.len();
        for i in 0..n
            invariant
                n == self@.len(),
                forall|j: int| 0 <= j < i ==> self@[j].0 != index,
        {
            if self.0[i].0.0 == index.0 && self.0[i].0.1 == index.1 {
                assert(is_first_with_index(self@, index, i as int));
                return Some(&self.0[i]);
            }
        }
        None
    }

    /// The length of the document buffer the offsets describe: the largest end.
    pub fn doc_buffer_len(&self) -> (n: usize)
        ensures
            forall|i: int| 0 <= i < self@.len() ==> self@[i].1.end <= n,
            self@.len() == 0 ==> n == 0,
            self@.len() > 0 ==> exists|i: int| 0 <= i < self@.len() && self@[i].1.end == n,
    {
        let mut m: usize = 0;
        let nn = self.0.len();
        for i in 0..nn
            invariant
                nn == self@.len(),
                forall|j: int| 0 <= j < i ==> self@[j].1.end <= m,
                i == 0 ==> m == 0,
                i > 0 ==> exists|j: int| 0 <= j < i && self@[j].1.end == m,
        {
            if self.0[i].1.end > m || i == 0 {
                m = self.0[i].1.end;
            }
        }
        m
    }
}

/// Decoding the encoding of a list of offsets gives the list back.
pub proof fn lemma_offsets_roundtrip(s: Seq<VTableFieldOffset>)
    ensures
        offsets_bytes(s).len() == 18 * s.len(),
        offsets_of_bytes(offsets_bytes(s)) == s,
    decreases s.len(),
{
    if s.len() > 0 {
        lemma_offsets_roundtrip(s.drop_last());
        lemma_offset_roundtrip(s.last());
        let b = offsets_bytes(s);
        let prev = offsets_bytes(s.drop_last());
        let r = offsets_of_bytes(b);
        assert forall|i: int| 0 <= i < s.len() implies #[trigger] r[i] == s[i] by {
            if i < s.len() - 1 {
                assert(b.subrange(18 * i, 18 * i + 18) =~= prev.subrange(18 * i, 18 * i + 18));
                assert(offsets_of_bytes(prev)[i] == s.drop_last()[i]);
            } else {
                assert(b.subrange(18 * i, 18 * i + 18) =~= offset_bytes(s.last()));
            }
        }
        assert(r =~= s);
    }
}

/// The encoding of a list of offsets is 18 bytes per offset, and the
/// `i`-th chunk of 18 bytes is the encoding of the `i`-th offset.
pub proof fn lemma_offsets_bytes_chunks(s: Seq<VTableFieldOffset>)
    ensures
        offsets_bytes(s).len() == 18 * s.len(),
        forall|i: int|
            0 <= i < s.len() ==> #[trigger] offsets_bytes(s).subrange(18 * i, 18 * i + 18)
                == offset_bytes(s[i]),
    decreases s.len(),
{
    if s.len() > 0 {
        lemma_offsets_bytes_chunks(s.drop_last());
        lemma_offset_roundtrip(s.last());
        let b = offsets_bytes(s);
        let prev = offsets_bytes(s.drop_last());
        assert forall|i: int| 0 <= i < s.len() implies #[trigger] b.subrange(18 * i, 18 * i + 18)
            == offset_bytes(s[i]) by {
            if i < s.len() - 1 {
                assert(b.subrange(18 * i, 18 * i + 18) =~= prev.subrange(18 * i, 18 * i + 18));
                assert(s.drop_last()[i] == s[i]);
            } else {
                assert(b.subrange(18 * i, 18 * i + 18) =~= offset_bytes(s.last()));
            }
        }
    }
}

} // verus!
