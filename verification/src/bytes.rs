//! Byte-buffer helpers and little-endian encodings of the fixed-width
//! integers used by the buffer format.
use vstd::prelude::*;
use vstd::bytes::*;
use vstd::slice::slice_subrange;

verus! {

/// Appends the bytes of `src` to the end of `dst`.
pub fn extend_from_slice(dst: &mut Vec<u8>, src: &[u8])
    ensures
        final(dst)@ == old(dst)@ + src@,
{
    let n = src.len();
    let ghost start = dst@;
    for i in 0..n
        invariant
            n == src@.len(),
            dst@ == start + src@.subrange(0, i as int),
    {
        dst.push(src[i]);
        assert(src@.subrange(0, i + 1) == src@.subrange(0, i as int).push(src@[i as int]));
    }
    assert(src@.subrange(0, n as int) == src@);
}

/// Copies the bytes `buf[start..end]` into a new vector.
pub fn copy_range(buf: &[u8], start: usize, end: usize) -> (out: Vec<u8>)
    requires
        start <= end <= buf@.len(),
    ensures
        out@ == buf@.subrange(start as int, end as int),
{
    let mut out: Vec<u8> = Vec::new();
    extend_from_slice(&mut out, slice_subrange(buf, start, end));
    out
}

/// Removes the first `n` bytes of `buf` and returns them (the effect of `buf.drain(0..n)`).
pub fn take_front(buf: &mut Vec<u8>, n: usize) -> (front: Vec<u8>)
    requires
        n <= old(buf)@.len(),
    ensures
        front@ == old(buf)@.subrange(0, n as int),
        final(buf)@ == old(buf)@.subrange(n as int, old(buf)@.len() as int),
{
    let mut rest = buf.split_off(n);
    core::mem::swap(buf, &mut rest);
    rest
}

/// The two little-endian bytes of `v`.
pub open spec fn u16_le_bytes(v: u16) -> Seq<u8> {
    seq![(v % 256) as u8, (v / 256) as u8]
}

/// Appends the two little-endian bytes of `v`.
pub fn push_u16_le(dst: &mut Vec<u8>, v: u16)
    ensures
        final(dst)@ == old(dst)@ + u16_le_bytes(v),
{
    dst.push((v % 256) as u8);
    dst.push((v / 256) as u8);
    assert(dst@ == old(dst)@ + u16_le_bytes(v));
}

/// If `b[p..]` starts with `x + y`, it starts with `x`, followed by `y`.
pub proof fn lemma_split_at(b: Seq<u8>, p: int, x: Seq<u8>, y: Seq<u8>)
    requires
        0 <= p,
        p + x.len() + y.len() <= b.len(),
        b.subrange(p, p + x.len() + y.len()) == x + y,
    ensures
        b.subrange(p, p + x.len()) == x,
        b.subrange(p + x.len(), p + x.len() + y.len()) == y,
{
    assert(b.subrange(p, p + x.len()) =~= (x + y).subrange(0, x.len() as int));
    assert((x + y).subrange(0, x.len() as int) =~= x);
    assert(b.subrange(p + x.len(), p + x.len() + y.len()) =~= (x + y).subrange(
        x.len() as int,
        (x.len() + y.len()) as int,
    ));
    assert((x + y).subrange(x.len() as int, (x.len() + y.len()) as int) =~= y);
}

/// Two adjacent windows of `b` that hold `x` and `y` form one window holding `x + y`.
pub proof fn lemma_join_at(b: Seq<u8>, p: int, x: Seq<u8>, y: Seq<u8>)
    requires
        0 <= p,
        p + x.len() + y.len() <= b.len(),
        b.subrange(p, p + x.len()) == x,
        b.subrange(p + x.len(), p + x.len() + y.len()) == y,
    ensures
        b.subrange(p, p + x.len() + y.len()) == x + y,
{
    assert forall|k: int| 0 <= k < x.len() + y.len() implies b.subrange(
        p,
        p + x.len() + y.len(),
    )[k] == (x + y)[k] by {
        if k < x.len() {
            assert(b.subrange(p, p + x.len())[k] == b[p + k]);
        } else {
            assert(b.subrange(p + x.len(), p + x.len() + y.len())[k - x.len()] == b[p + k]);
        }
    }
    assert(b.subrange(p, p + x.len() + y.len()) =~= x + y);
}

/// Appends the four little-endian bytes of `v`.
pub fn push_u32_le(dst: &mut Vec<u8>, v: u32)
    ensures
        final(dst)@ == old(dst)@ + spec_u32_to_le_bytes(v),
{
    let b = u32_to_le_bytes(v);
    extend_from_slice(dst, b.as_slice());
}

/// Appends the eight little-endian bytes of `v`.
pub fn push_u64_le(dst: &mut Vec<u8>, v: u64)
    ensures
        final(dst)@ == old(dst)@ + spec_u64_to_le_bytes(v),
{
    let b = u64_to_le_bytes(v);
    extend_from_slice(dst, b.as_slice());
}

/// Appends the sixteen little-endian bytes of `v`.
pub fn push_u128_le(dst: &mut Vec<u8>, v: u128)
    ensures
        final(dst)@ == old(dst)@ + spec_u128_to_le_bytes(v),
{
    let b = u128_to_le_bytes(v);
    extend_from_slice(dst, b.as_slice());
}

/// The `u16` whose little-endian bytes are `b[0]`, `b[1]`.
pub open spec fn u16_from_le(b: Seq<u8>) -> u16 {
    (b[0] as int + b[1] as int * 256) as u16
}

/// Reads a little-endian `u16` at position `at`.
pub fn read_u16_le(buf: &[u8], at: usize) -> (v: u16)
    requires
        at + 2 <= buf@.len(),
    ensures
        v == u16_from_le(buf@.subrange(at as int, at + 2)),
{
    let _len = buf.len();
    buf[at] as u16 + buf[at + 1] as u16 * 256
}

/// Reading the little-endian bytes of a `u16` gives it back.
pub proof fn lemma_u16_roundtrip(v: u16)
    ensures
        u16_le_bytes(v).len() == 2,
        u16_from_le(u16_le_bytes(v)) == v,
{
}

/// Reads a little-endian `u32` at position `at`.
pub fn read_u32_le(buf: &[u8], at: usize) -> (v: u32)
    requires
        at + 4 <= buf@.len(),
    ensures
        v == spec_u32_from_le_bytes(buf@.subrange(at as int, at + 4)),
{
    let _len = buf.len();
    u32_from_le_bytes(slice_subrange(buf, at, at + 4))
}

/// Reads a little-endian `u64` at position `at`.
pub fn read_u64_le(buf: &[u8], at: usize) -> (v: u64)
    requires
        at + 8 <= buf@.len(),
    ensures
        v == spec_u64_from_le_bytes(buf@.subrange(at as int, at + 8)),
{
    let _len = buf.len();
    u64_from_le_bytes(slice_subrange(buf, at, at + 8))
}

/// Reads a little-endian `u128` at position `at`.
pub fn read_u128_le(buf: &[u8], at: usize) -> (v: u128)
    requires
        at + 16 <= buf@.len(),
    ensures
        v == spec_u128_from_le_bytes(buf@.subrange(at as int, at + 16)),
{
    let _len = buf.len();
    u128_from_le_bytes(slice_subrange(buf, at, at + 16))
}

/// Both directions of the little-endian encodings of every width are inverse.
pub proof fn lemma_le_roundtrips()
    ensures
        forall|x: u16|
            {
                &&& #[trigger] spec_u16_to_le_bytes(x).len() == 2
                &&& spec_u16_from_le_bytes(spec_u16_to_le_bytes(x)) == x
            },
        forall|s: Seq<u8>|
            s.len() == 2 ==> #[trigger] spec_u16_to_le_bytes(spec_u16_from_le_bytes(s)) == s,
        forall|x: u32|
            {
                &&& #[trigger] spec_u32_to_le_bytes(x).len() == 4
                &&& spec_u32_from_le_bytes(spec_u32_to_le_bytes(x)) == x
            },
        forall|s: Seq<u8>|
            s.len() == 4 ==> #[trigger] spec_u32_to_le_bytes(spec_u32_from_le_bytes(s)) == s,
        forall|x: u64|
            {
                &&& #[trigger] spec_u64_to_le_bytes(x).len() == 8
                &&& spec_u64_from_le_bytes(spec_u64_to_le_bytes(x)) == x
            },
        forall|s: Seq<u8>|
            s.len() == 8 ==> #[trigger] spec_u64_to_le_bytes(spec_u64_from_le_bytes(s)) == s,
        forall|x: u128|
            {
                &&& #[trigger] spec_u128_to_le_bytes(x).len() == 16
                &&& spec_u128_from_le_bytes(spec_u128_to_le_bytes(x)) == x
            },
        forall|s: Seq<u8>|
            s.len() == 16 ==> #[trigger] spec_u128_to_le_bytes(spec_u128_from_le_bytes(s)) == s,
{
    lemma_auto_spec_u16_to_from_le_bytes();
    lemma_auto_spec_u32_to_from_le_bytes();
    lemma_auto_spec_u64_to_from_le_bytes();
    lemma_auto_spec_u128_to_from_le_bytes();
}

} // verus!
