//! Hexadecimal text of byte strings, through the `hex` crate.
use vstd::prelude::*;
use vstd::utf8::*;
use crate::error::HexError;

verus! {

/// The lowercase hex digit of a nibble (`0 <= n < 16`).
pub open spec fn hex_digit(n: int) -> char {
    if n < 10 {
        (48 + n) as char
    } else {
        (87 + n) as char
    }
}

/// The lowercase hex text of bytes: two digits per byte, high nibble first.
pub open spec fn hex_text(b: Seq<u8>) -> Seq<char>
    decreases b.len(),
{
    if b.len() == 0 {
        Seq::empty()
    } else {
        hex_text(b.drop_last()) + seq![hex_digit(b.last() as int / 16), hex_digit(b.last() as int % 16)]
    }
}

/// The value of a hex digit byte, in either case.
pub open spec fn hex_value(c: u8) -> Option<u8> {
    if 65 <= c <= 70 {
        Some((c - 55) as u8)
    } else if 97 <= c <= 102 {
        Some((c - 87) as u8)
    } else if 48 <= c <= 57 {
        Some((c - 48) as u8)
    } else {
        None
    }
}

/// Byte `i` of `b` is the first that is not a hex digit.
pub open spec fn is_first_bad_digit(b: Seq<u8>, i: int) -> bool {
    &&& 0 <= i < b.len()
    &&& hex_value(b[i]) is None
    &&& forall|j: int| 0 <= j < i ==> hex_value(b[j]) is Some
}

/// The bytes that hex text (given by its UTF-8 bytes) stands for: an odd
/// number of digits is an error, else the first byte that is not a hex
/// digit is, else each pair of digits gives one byte.
#[verifier::opaque]
pub open spec fn hex_decoded(b: Seq<u8>) -> Result<Seq<u8>, HexError> {
    if b.len() % 2 != 0 {
        Err(HexError::OddLength)
    } else if exists|i: int| is_first_bad_digit(b, i) {
        let i = choose|i: int| is_first_bad_digit(b, i);
        Err(HexError::InvalidHexCharacter { c: b[i] as char, index: i as usize })
    } else {
        Ok(
            Seq::new(
                (b.len() / 2) as nat,
                |k: int| (hex_value(b[2 * k]).unwrap() * 16 + hex_value(b[2 * k + 1]).unwrap()) as u8,
            ),
        )
    }
}

/// `hex::encode`: the lowercase hex text of `data`, two digits per byte.
#[verifier::external_body]
pub(crate) fn hex_encode(data: &[u8]) -> (s: String)
    ensures
        s@ == hex_text(data@),
{
    hex::encode(data)
}

/// `hex::decode`: the bytes the hex text stands for, or the error that
/// `hex_decoded` names (the crate's error mapped variant by variant).
#[verifier::external_body]
pub(crate) fn hex_decode(text: &str) -> (r: Result<Vec<u8>, HexError>)
    ensures
        match hex_decoded(encode_utf8(text@)) {
            Ok(v) => r matches Ok(x) && x@ == v,
            Err(e) => r == Err::<Vec<u8>, HexError>(e),
        },
{
    match hex::decode(text) {
        Ok(v) => Ok(v),
        Err(hex::FromHexError::InvalidHexCharacter { c, index }) => Err(
            HexError::InvalidHexCharacter { c, index },
        ),
        Err(hex::FromHexError::OddLength) => Err(HexError::OddLength),
        Err(hex::FromHexError::InvalidStringLength) => Err(HexError::InvalidStringLength),
    }
}

/// A digit of a nibble is an ASCII character, whose value is the nibble.
pub proof fn lemma_hex_digit_value(n: int)
    requires
        0 <= n < 16,
    ensures
        (hex_digit(n) as u32) < 128,
        hex_value(hex_digit(n) as u32 as u8) == Some(n as u8),
{
}

/// Hex text has two digits per byte: those of byte `k` stand at `2k` and
/// `2k + 1`, high nibble first.
pub proof fn lemma_hex_text_digits(b: Seq<u8>)
    ensures
        hex_text(b).len() == 2 * b.len(),
        forall|k: int|
            0 <= k < b.len() ==> hex_text(b)[2 * k] == hex_digit(#[trigger] b[k] as int / 16)
                && hex_text(b)[2 * k + 1] == hex_digit(b[k] as int % 16),
    decreases b.len(),
{
    if b.len() > 0 {
        lemma_hex_text_digits(b.drop_last());
        assert forall|k: int| 0 <= k < b.len() implies hex_text(b)[2 * k] == hex_digit(
            #[trigger] b[k] as int / 16,
        ) && hex_text(b)[2 * k + 1] == hex_digit(b[k] as int % 16) by {
            if k < b.len() - 1 {
                assert(b.drop_last()[k] == b[k]);
            }
        }
    }
}

/// The UTF-8 encoding of ASCII characters is their codes, one byte each.
pub proof fn lemma_encode_ascii(s: Seq<char>)
    requires
        forall|i: int| 0 <= i < s.len() ==> (#[trigger] s[i] as u32) < 128,
    ensures
        encode_utf8(s).len() == s.len(),
        forall|i: int| 0 <= i < s.len() ==> #[trigger] encode_utf8(s)[i] == s[i] as u32 as u8,
    decreases s.len(),
{
    if s.len() > 0 {
        let rest = s.drop_first();
        assert forall|i: int| 0 <= i < rest.len() implies (#[trigger] rest[i] as u32) < 128 by {
            assert(rest[i] == s[i + 1]);
        }
        lemma_encode_ascii(rest);
        let c = s[0] as u32;
        assert(c < 128);
        assert((c & 0x7F) as u8 == c as u8) by (bit_vector)
            requires
                c < 128,
        ;
        assert forall|i: int| 0 <= i < s.len() implies #[trigger] encode_utf8(s)[i] == s[i] as u32 as u8 by {
            if i > 0 {
                assert(rest[i - 1] == s[i]);
            }
        }
    }
}

/// Decoding the hex text of bytes gives the bytes back.
pub proof fn lemma_hex_roundtrip(b: Seq<u8>)
    ensures
        hex_decoded(encode_utf8(hex_text(b))) == Ok::<Seq<u8>, HexError>(b),
{
    let t = hex_text(b);
    lemma_hex_text_digits(b);
    assert forall|i: int| 0 <= i < t.len() implies (#[trigger] t[i] as u32) < 128 by {
        let k = i / 2;
        assert(0 <= k < b.len());
        lemma_hex_digit_value(b[k] as int / 16);
        lemma_hex_digit_value(b[k] as int % 16);
        if i % 2 == 0 {
            assert(i == 2 * k);
        } else {
            assert(i == 2 * k + 1);
        }
    }
    lemma_encode_ascii(t);
    let e = encode_utf8(t);
    assert forall|k: int| 0 <= k < b.len() implies hex_value(#[trigger] e[2 * k]) == Some(
        (b[k] / 16) as u8,
    ) && hex_value(e[2 * k + 1]) == Some((b[k] % 16) as u8) by {
        lemma_hex_digit_value(b[k] as int / 16);
        lemma_hex_digit_value(b[k] as int % 16);
    }
    assert forall|i: int| 0 <= i < e.len() implies hex_value(#[trigger] e[i]) is Some by {
        let k = i / 2;
        assert(hex_value(e[2 * k]) is Some);
        if i % 2 == 0 {
            assert(i == 2 * k);
        } else {
            assert(i == 2 * k + 1);
        }
    }
    assert(!exists|i: int| is_first_bad_digit(e, i));
    reveal(hex_decoded);
    let d = Seq::new(
        (e.len() / 2) as nat,
        |k: int| (hex_value(e[2 * k]).unwrap() * 16 + hex_value(e[2 * k + 1]).unwrap()) as u8,
    );
    assert forall|k: int| 0 <= k < b.len() implies d[k] == b[k] by {
        assert(hex_value(e[2 * k]) == Some((b[k] / 16) as u8));
    }
    assert(d =~= b);
}

} // verus!
