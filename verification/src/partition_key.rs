//! Partition keys and partition identifiers: a 16-byte key decides the
//! partition (bucket) a document is stored in.
use vstd::prelude::*;
use vstd::bytes::*;
use vstd::utf8::*;
use crate::db_error::DbError;
use crate::hex_text::{hex_decode, hex_decoded, hex_digit, hex_encode, hex_text};

verus! {

/// Default number of partitions, used when none is given to `bucket`.
pub const DEFAULT_NUM_PARTITIONS: u16 = 16384;

/// The 128-bit XXH3 hash (seed 0) of `data`, as `xxhash_rust` computes it.
pub uninterp spec fn xxh3_128_of(data: Seq<u8>) -> u128;

/// `xxhash_rust::const_xxh3::xxh3_128`: the 128-bit XXH3 hash of `data`.
#[verifier::external_body]
fn xxh3_128_hash(data: &[u8]) -> (h: u128)
    ensures
        h == xxh3_128_of(data@),
{
    xxhash_rust::const_xxh3::xxh3_128(data)
}

/// The bytes of a UUID (given in its standard, big-endian order) in
/// little-endian field order: the first three fields (4, 2 and 2 bytes)
/// each reversed, the last 8 bytes as they are.
pub open spec fn uuid_le_bytes(b: Seq<u8>) -> Seq<u8> {
    seq![b[3], b[2], b[1], b[0], b[5], b[4], b[7], b[6]] + b.subrange(8, 16)
}

/// A 16-byte partition key.
#[derive(Debug, Clone, Copy)]
pub struct PartitionKey([u8; 16]);

impl View for PartitionKey {
    type V = Seq<u8>;

    closed spec fn view(&self) -> Seq<u8> {
        self.0@
    }
}

impl PartitionKey {
    /// The key of a UUID with the bytes `uuid` (standard order): its bytes
    /// in little-endian field order (see `uuid_le_bytes`).
    pub fn from_uuid_bytes(uuid: [u8; 16]) -> (k: Self)
        ensures
            k@ == uuid_le_bytes(uuid@),
    {
        let b = uuid;
        let k = Self(
            [
                b[3],
                b[2],
                b[1],
                b[0],
                b[5],
                b[4],
                b[7],
                b[6],
                b[8],
                b[9],
                b[10],
                b[11],
                b[12],
                b[13],
                b[14],
                b[15],
            ],
        );
        assert(k@ =~= uuid_le_bytes(uuid@));
        k
    }

    /// The key with the given bytes.
    pub fn from_array(value: [u8; 16]) -> (k: Self)
        ensures
            k@ == value@,
    {
        Self(value)
    }

    /// The key whose bytes are the little-endian bytes of `value`.
    pub fn from_u128(value: u128) -> (k: Self)
        ensures
            k@ == spec_u128_to_le_bytes(value),
    {
        let b = u128_to_le_bytes(value);
        proof {
            lemma_auto_spec_u128_to_from_le_bytes();
        }
        let a = [
            b[0],
            b[1],
            b[2],
            b[3],
            b[4],
            b[5],
            b[6],
            b[7],
            b[8],
            b[9],
            b[10],
            b[11],
            b[12],
            b[13],
            b[14],
            b[15],
        ];
        assert(a@ =~= b@);
        Self(a)
    }

    /// The key of some bytes: their 128-bit XXH3 hash.
    pub fn from_slice(value: &[u8]) -> (k: Self)
        ensures
            k@ == spec_u128_to_le_bytes(xxh3_128_of(value@)),
    {
        Self::from_u128(xxh3_128_hash(value))
    }

    /// The key of a text: the hash of its UTF-8 bytes.
    pub fn from_text(value: &str) -> (k: Self)
        ensures
            k@ == spec_u128_to_le_bytes(xxh3_128_of(encode_utf8(value@))),
    {
        Self::from_slice(value.as_bytes())
    }

    /// The key of a signed 64-bit number: its two's-complement value as a `u128`.
    pub fn from_i64(value: i64) -> (k: Self)
        ensures
            k@ == spec_u128_to_le_bytes(value as u128),
    {
        Self::from_u128(value as u128)
    }

    /// The key of an unsigned 64-bit number.
    pub fn from_u64(value: u64) -> (k: Self)
        ensures
            k@ == spec_u128_to_le_bytes(value as u128),
    {
        Self::from_u128(value as u128)
    }

    /// The key of a signed 128-bit number: its two's-complement bits.
    pub fn from_i128(value: i128) -> (k: Self)
        ensures
            k@ == spec_u128_to_le_bytes(value as u128),
    {
        Self::from_u128(value as u128)
    }

    /// The key of a bool: 1 or 0.
    pub fn from_bool(value: bool) -> (k: Self)
        ensures
            k@ == spec_u128_to_le_bytes(
                if value {
                    1u128
                } else {
                    0u128
                },
            ),
    {
        Self::from_u128(if value { 1 } else { 0 })
    }

    /// The key of a character: its code point.
    pub fn from_char(value: char) -> (k: Self)
        ensures
            k@ == spec_u128_to_le_bytes(value as u128),
    {
        Self::from_u128(value as u128)
    }

    /// The key as lowercase hex text.
    pub fn as_hex(&self) -> (s: String)
        ensures
            s@ == hex_text(self@),
    {
        hex_encode(self.0.as_slice())
    }

    /// The key given as hex text: the text must stand for 16 bytes, and the
    /// key is the hash of those bytes.
    pub fn from_hex(value: &str) -> (res: Result<PartitionKey, DbError>)
        ensures
            match hex_decoded(encode_utf8(value@)) {
                Err(e) => res == Err::<PartitionKey, DbError>(DbError::Hex(e)),
                Ok(v) => if v.len() == 16 {
                    res matches Ok(k) && k@ == spec_u128_to_le_bytes(xxh3_128_of(v))
                } else {
                    res matches Err(DbError::InvalidPartitionKey(t)) && t@ == value@
                },
            },
    {
        let bytes = match hex_decode(value) {
            Ok(b) => b,
            Err(e) => return Err(DbError::Hex(e)),
        };
        if bytes.len() != 16 {
            return Err(DbError::InvalidPartitionKey(value.to_string()));
        }
        Ok(PartitionKey::from_slice(bytes.as_slice()))
    }

    /// The bytes of the key.
    pub fn as_bytes(&self) -> (b: &[u8; 16])
        ensures
            b@ == self@,
    {
        &self.0
    }

    /// The key read as a little-endian `u128`.
    pub fn as_u128(&self) -> (v: u128)
        ensures
            v == spec_u128_from_le_bytes(self@),
    {
        proof {
            assert(self.0@.len() == 16);
        }
        u128_from_le_bytes(self.0.as_slice())
    }

    /// The partition (bucket) of the key among `partitions` partitions
    /// (16384 when not given): the key modulo the number of partitions.
    pub fn bucket(&self, partitions: Option<u16>) -> (b: u16)
        requires
            partitions != Some(0u16),
        ensures
            b == spec_u128_from_le_bytes(self@) % (match partitions {
                Some(p) => p,
                None => DEFAULT_NUM_PARTITIONS,
            }) as u128,
            b < (match partitions {
                Some(p) => p,
                None => DEFAULT_NUM_PARTITIONS,
            }),
    {
        let partitions = match partitions {
            Some(p) => p,
            None => DEFAULT_NUM_PARTITIONS,
        };
        let key = self.as_u128();
        let bucket = key % partitions as u128;
        bucket as u16
    }
}

/// The identifier of a partition.
#[derive(Debug, Clone, Copy, PartialEq, Eq, Hash, Default)]
pub struct PartitionId(u16);

impl View for PartitionId {
    type V = u16;

    closed spec fn view(&self) -> u16 {
        self.0
    }
}

impl PartitionId {
    /// The partition with the given number.
    pub fn new(id: u16) -> (p: Self)
        ensures
            p@ == id,
    {
        Self(id)
    }

    /// The partition a key falls into among the default number of partitions.
    pub fn from_key(key: &PartitionKey) -> (p: Self)
        ensures
            p@ == spec_u128_from_le_bytes(key@) % (DEFAULT_NUM_PARTITIONS as u128),
    {
        Self(key.bucket(None))
    }

    /// The number of the partition.
    pub fn value(&self) -> (v: u16)
        ensures
            v == self@,
    {
        self.0
    }

    /// The number of the partition as hex text: two bytes, high byte first.
    pub fn as_hex(&self) -> (s: String)
        ensures
            s@ == hex_text(seq![(self@ / 256) as u8, (self@ % 256) as u8]),
    {
        let b = [(self.0 / 256) as u8, (self.0 % 256) as u8];
        hex_encode(b.as_slice())
    }
}


/// `s` with every `0x` taken out, left to right.
pub open spec fn without_0x(s: Seq<char>) -> Seq<char>
    decreases s.len(),
{
    if s.len() == 0 {
        s
    } else if s.len() >= 2 && s[0] == '0' && s[1] == 'x' {
        without_0x(s.subrange(2, s.len() as int))
    } else {
        seq![s[0]] + without_0x(s.subrange(1, s.len() as int))
    }
}

/// The value of a hex digit, in either case.
pub open spec fn hex_char_value(c: char) -> Option<nat> {
    if '0' <= c <= '9' {
        Some((c as nat - '0' as nat) as nat)
    } else if 'a' <= c <= 'f' {
        Some((c as nat - 'a' as nat + 10) as nat)
    } else if 'A' <= c <= 'F' {
        Some((c as nat - 'A' as nat + 10) as nat)
    } else {
        None
    }
}

/// The number the hex digits `s` stand for, if they are all hex digits.
pub open spec fn hex_digits_value(s: Seq<char>) -> Option<nat>
    decreases s.len(),
{
    if s.len() == 0 {
        Some(0)
    } else {
        match (hex_digits_value(s.drop_last()), hex_char_value(s.last())) {
            (Some(a), Some(d)) => Some(a * 16 + d),
            _ => None,
        }
    }
}

/// A 16-bit number in hex as `u16::from_str_radix` reads it: an optional
/// leading `+`, then at least one hex digit, the value below 2^16.
pub open spec fn hex_u16(s: Seq<char>) -> Option<u16> {
    let digits = if s.len() > 0 && s[0] == '+' { s.subrange(1, s.len() as int) } else { s };
    if digits.len() == 0 {
        None
    } else {
        match hex_digits_value(digits) {
            Some(v) => if v < 0x10000 {
                Some(v as u16)
            } else {
                None
            },
            None => None,
        }
    }
}

/// Digit values of a nonempty prefix never shrink as digits are added.
proof fn lemma_hex_digits_grow(s: Seq<char>, k: int)
    requires
        0 <= k <= s.len(),
        hex_digits_value(s) is Some,
    ensures
        hex_digits_value(s.subrange(0, k)) is Some,
        hex_digits_value(s.subrange(0, k)).unwrap() <= hex_digits_value(s).unwrap(),
    decreases s.len() - k,
{
    if k < s.len() {
        assert(s.drop_last().subrange(0, k) =~= s.subrange(0, k));
        assert(s.subrange(0, s.len() - 1) =~= s.drop_last());
        lemma_hex_digits_grow(s.drop_last(), k);
    } else {
        assert(s.subrange(0, k) =~= s);
    }
}

impl PartitionId {
    /// The partition a partition file is named by: its stem without `0x`,
    /// read as a hex number.
    pub fn from_file_stem(stem: &str) -> (r: Option<PartitionId>)
        ensures
            match hex_u16(without_0x(stem@)) {
                Some(v) => r matches Some(p) && p@ == v,
                None => r is None,
            },
    {
        let n = stem.unicode_len();
        let mut chars: Vec<char> = Vec::new();
        let mut i: usize = 0;
        assert(stem@.subrange(0, n as int) =~= stem@);
        assert(chars@ + without_0x(stem@) =~= without_0x(stem@));
        while i < n
            invariant
                n == stem@.len(),
                i <= n,
                without_0x(stem@) == chars@ + without_0x(stem@.subrange(i as int, n as int)),
            decreases n - i,
        {
            let ghost rest = stem@.subrange(i as int, n as int);
            if i + 1 < n && stem.get_char(i) == '0' && stem.get_char(i + 1) == 'x' {
                assert(rest.subrange(2, rest.len() as int) =~= stem@.subrange(i + 2, n as int));
                i = i + 2;
            } else {
                let c = stem.get_char(i);
                assert(rest.subrange(1, rest.len() as int) =~= stem@.subrange(i + 1, n as int));
                chars.push(c);
                proof {
                    assert(chars@ + without_0x(stem@.subrange(i + 1, n as int)) =~= chars@.drop_last() + (seq![c] + without_0x(stem@.subrange(i + 1, n as int))));
                }
                i = i + 1;
            }
        }
        assert(stem@.subrange(n as int, n as int) =~= Seq::<char>::empty());
        assert(chars@ + Seq::<char>::empty() =~= chars@);
        let m = chars.len();
        let start: usize = if m > 0 && chars[0] == '+' { 1 } else { 0 };
        let ghost digits = chars@.subrange(start as int, m as int);
        assert(digits =~= (if chars@.len() > 0 && chars@[0] == '+' { chars@.subrange(1, chars@.len() as int) } else { chars@ }));
        if start == m {
            return None;
        }
        let mut v: u32 = 0;
        let mut j: usize = start;
        while j < m
            invariant
                start <= j <= m,
                start < m,
                m == chars@.len(),
                chars@ == without_0x(stem@),
                digits == chars@.subrange(start as int, m as int),
                digits == (if chars@.len() > 0 && chars@[0] == '+' {
                    chars@.subrange(1, chars@.len() as int)
                } else {
                    chars@
                }),
                hex_digits_value(chars@.subrange(start as int, j as int)) == Some(v as nat),
                v < 0x10000,
            decreases m - j,
        {
            let c = chars[j];
            let d: u32 = if '0' <= c && c <= '9' {
                (c as u32) - ('0' as u32)
            } else if 'a' <= c && c <= 'f' {
                (c as u32) - ('a' as u32) + 10
            } else if 'A' <= c && c <= 'F' {
                (c as u32) - ('A' as u32) + 10
            } else {
                proof {
                    let pre = chars@.subrange(start as int, j + 1);
                    assert(pre.drop_last() =~= chars@.subrange(start as int, j as int));
                    assert(hex_digits_value(pre) is None);
                    if hex_digits_value(digits) is Some {
                        lemma_hex_digits_grow(digits, j + 1 - start);
                        assert(digits.subrange(0, j + 1 - start) =~= pre);
                    }
                }
                return None;
            };
            let ghost pre = chars@.subrange(start as int, j + 1);
            assert(pre.drop_last() =~= chars@.subrange(start as int, j as int));
            assert(hex_digits_value(pre) == Some(v as nat * 16 + d as nat));
            if v >= 0x1000 {
                proof {
                    if hex_digits_value(digits) is Some {
                        lemma_hex_digits_grow(digits, j + 1 - start);
                        assert(digits.subrange(0, j + 1 - start) =~= pre);
                    }
                }
                return None;
            }
            v = v * 16 + d;
            j = j + 1;
        }
        assert(chars@.subrange(start as int, m as int) =~= digits);
        Some(PartitionId(v as u16))
    }
}


/// A hex digit reads back as its nibble.
proof fn lemma_hex_digit_value(n: int)
    requires
        0 <= n < 16,
    ensures
        hex_char_value(hex_digit(n)) == Some(n as nat),
        hex_digit(n) != 'x',
{
}

/// The file stem of a partition reads back as the partition: the name a
/// partition file is given is the name it is found by.
pub proof fn lemma_file_stem_roundtrip(p: u16)
    ensures
        hex_u16(without_0x(hex_text(seq![(p / 256) as u8, (p % 256) as u8]))) == Some(p),
{
    let hi = (p / 256) as u8;
    let lo = (p % 256) as u8;
    let a = hi as int / 16;
    let b = hi as int % 16;
    let c = lo as int / 16;
    let d = lo as int % 16;
    let t = hex_text(seq![hi, lo]);
    assert(seq![hi, lo].drop_last() =~= seq![hi]);
    assert(seq![hi].drop_last() =~= Seq::<u8>::empty());
    assert(hex_text(Seq::<u8>::empty()) == Seq::<char>::empty());
    assert(seq![hi].last() == hi);
    assert(hex_text(seq![hi]) =~= seq![hex_digit(a), hex_digit(b)]);
    assert(seq![hi, lo].last() == lo);
    assert(t =~= seq![hex_digit(a), hex_digit(b), hex_digit(c), hex_digit(d)]);
    lemma_hex_digit_value(a);
    lemma_hex_digit_value(b);
    lemma_hex_digit_value(c);
    lemma_hex_digit_value(d);
    assert(without_0x(t.subrange(4, 4)) == Seq::<char>::empty());
    assert(t.subrange(3, 4).subrange(1, 1) =~= t.subrange(4, 4));
    assert(without_0x(t.subrange(3, 4)) =~= seq![t[3]]);
    assert(t.subrange(2, 4).subrange(1, 2) =~= t.subrange(3, 4));
    assert(without_0x(t.subrange(2, 4)) =~= t.subrange(2, 4));
    assert(t.subrange(1, 4).subrange(1, 3) =~= t.subrange(2, 4));
    assert(without_0x(t.subrange(1, 4)) =~= t.subrange(1, 4));
    assert(t.subrange(1, 4) =~= t.subrange(1, t.len() as int));
    assert(without_0x(t) =~= t);
    let s1 = t.subrange(0, 1);
    let s2 = t.subrange(0, 2);
    let s3 = t.subrange(0, 3);
    assert(s1.drop_last() =~= Seq::<char>::empty());
    assert(s2.drop_last() =~= s1);
    assert(s3.drop_last() =~= s2);
    assert(t.drop_last() =~= s3);
    assert(hex_digits_value(Seq::<char>::empty()) == Some(0nat));
    assert(s1.last() == hex_digit(a));
    assert(s2.last() == hex_digit(b));
    assert(s3.last() == hex_digit(c));
    assert(t.last() == hex_digit(d));
    assert(hex_digits_value(s1) == Some(a as nat));
    assert(hex_digits_value(s2) == Some((a * 16 + b) as nat));
    assert(hex_digits_value(s3) == Some(((a * 16 + b) * 16 + c) as nat));
    assert(hex_digits_value(t) == Some((((a * 16 + b) * 16 + c) * 16 + d) as nat));
    assert(((a * 16 + b) * 16 + c) * 16 + d == p) by (nonlinear_arith)
        requires
            a == (p / 256) / 16,
            b == (p / 256) % 16,
            c == (p % 256) / 16,
            d == (p % 256) % 16,
            0 <= p < 65536,
    ;
}

} // verus!
