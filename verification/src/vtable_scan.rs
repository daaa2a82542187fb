//! Whether the bytes of an encoded vtable can be read without reading past
//! their end: each part is walked as the reader walks it, and only the
//! outcome (read, or stopped by an error) and the position after it are
//! kept.
use vstd::prelude::*;
use crate::bytes::copy_range;
use crate::error::Error;
use crate::field::{parse_field_at, parse_name_at, parse_type_at};
use crate::field_type::VTableFieldType;
use crate::item::{parse_item_at, parse_items_at};
use crate::numeric::{tag_width, NumericValue, MAX_NUMERIC_TAG};
use crate::rules::{parse_opt_length_at, parse_opt_numeric_at, parse_opt_regex_at, parse_rules_at};
use crate::structs::{parse_fields_at, parse_struct_at};
use crate::table::parse_vtable;
use crate::utf8_text::string_from_utf8;

verus! {

/// `r` is what walking a part gives where reading it gives `s`: nothing
/// where the bytes end first, else whether the part was read and the
/// position after it.
pub open spec fn scanned<T>(s: Option<(Result<T, Error>, int)>, r: Option<(bool, usize)>) -> bool {
    match s {
        None => r is None,
        Some((res, q)) => r matches Some((ok, n)) && ok == (res is Ok) && n == q,
    }
}

/// Walks a name at `p`.
fn scan_name(buf: &[u8], p: usize) -> (r: Option<(bool, usize)>)
    ensures
        scanned(parse_name_at(buf@, p as int), r),
{
    if p >= buf.len() {
        return None;
    }
    let n = buf[p] as usize;
    if n > buf.len() - (p + 1) {
        return None;
    }
    let text = copy_range(buf, p + 1, p + 1 + n);
    let ok = string_from_utf8(text).is_some();
    Some((ok, p + 1 + n))
}

/// Walks a field type at `p`.
fn scan_type(buf: &[u8], p: usize) -> (r: Option<(bool, usize)>)
    ensures
        scanned(parse_type_at(buf@, p as int), r),
{
    if p >= buf.len() {
        return None;
    }
    match VTableFieldType::try_from_u8(buf[p]) {
        Err(_) => Some((false, p + 1)),
        Ok(t) => match t {
            VTableFieldType::Struct(_) => scan_name(buf, p + 1),
            VTableFieldType::HashMap { .. } => {
                if p + 1 >= buf.len() {
                    return None;
                }
                match VTableFieldType::try_from_u8(buf[p + 1]) {
                    Err(_) => Some((false, p + 2)),
                    Ok(_) => {
                        if p + 2 >= buf.len() {
                            return None;
                        }
                        match VTableFieldType::try_from_u8(buf[p + 2]) {
                            Err(_) => Some((false, p + 3)),
                            Ok(_) => Some((true, p + 3)),
                        }
                    },
                }
            },
            _ => Some((true, p + 1)),
        },
    }
}

/// Walks an optional numeric value at `p`.
fn scan_opt_numeric(buf: &[u8], p: usize) -> (r: Option<(bool, usize)>)
    ensures
        scanned(parse_opt_numeric_at(buf@, p as int), r),
{
    if p >= buf.len() {
        return None;
    }
    if buf[p] != 1 {
        return Some((true, p + 1));
    }
    let q = p + 1;
    if q >= buf.len() {
        return None;
    }
    let tag = buf[q];
    if tag > MAX_NUMERIC_TAG {
        return Some((false, q + 1));
    }
    let w: usize = if tag == 0 || tag == 8 {
        1
    } else if tag == 1 || tag == 9 {
        2
    } else if tag == 2 || tag == 6 || tag == 10 {
        4
    } else if tag == 4 || tag == 12 {
        16
    } else {
        8
    };
    assert(w == tag_width(tag));
    if w > buf.len() - (q + 1) {
        return None;
    }
    let (res, next) = NumericValue::read_at(buf, q);
    Some((res.is_ok(), next))
}

/// Walks an optional length at `p`.
fn scan_opt_length(buf: &[u8], p: usize) -> (r: Option<usize>)
    ensures
        match parse_opt_length_at(buf@, p as int) {
            None => r is None,
            Some((_, q)) => r == Some(q as usize) && q <= buf@.len(),
        },
{
    if p >= buf.len() {
        return None;
    }
    if buf[p] != 1 {
        return Some(p + 1);
    }
    if 9 > buf.len() - p {
        return None;
    }
    Some(p + 9)
}

/// Walks an optional regex at `p` (its length read big-endian).
fn scan_opt_regex(buf: &[u8], p: usize) -> (r: Option<(bool, usize)>)
    ensures
        scanned(parse_opt_regex_at(buf@, p as int), r),
{
    if p >= buf.len() {
        return None;
    }
    if buf[p] != 1 {
        return Some((true, p + 1));
    }
    if 3 > buf.len() - p {
        return None;
    }
    let len = buf[p + 1] as usize * 256 + buf[p + 2] as usize;
    if len > buf.len() - (p + 3) {
        return None;
    }
    let text = copy_range(buf, p + 3, p + 3 + len);
    let ok = string_from_utf8(text).is_some();
    Some((ok, p + 3 + len))
}

/// Walks field rules at `p`.
fn scan_rules(buf: &[u8], p: usize) -> (r: Option<(bool, usize)>)
    ensures
        scanned(parse_rules_at(buf@, p as int), r),
{
    if p > buf.len() || 2 > buf.len() - p {
        return None;
    }
    let q1 = match scan_opt_numeric(buf, p + 2) {
        None => return None,
        Some((false, q)) => return Some((false, q)),
        Some((true, q)) => q,
    };
    let q2 = match scan_opt_numeric(buf, q1) {
        None => return None,
        Some((false, q)) => return Some((false, q)),
        Some((true, q)) => q,
    };
    let q3 = match scan_opt_length(buf, q2) {
        None => return None,
        Some(q) => q,
    };
    let q4 = match scan_opt_length(buf, q3) {
        None => return None,
        Some(q) => q,
    };
    let q5 = match scan_opt_length(buf, q4) {
        None => return None,
        Some(q) => q,
    };
    scan_opt_regex(buf, q5)
}

/// Walks a field at `p`.
fn scan_field(buf: &[u8], p: usize) -> (r: Option<(bool, usize)>)
    ensures
        scanned(parse_field_at(buf@, p as int), r),
{
    if p >= buf.len() {
        return None;
    }
    let q = match scan_type(buf, p + 1) {
        None => return None,
        Some((false, q)) => return Some((false, q)),
        Some((true, q)) => q,
    };
    if q >= buf.len() {
        return None;
    }
    let q2 = match scan_name(buf, q + 1) {
        None => return None,
        Some((false, q2)) => return Some((false, q2)),
        Some((true, q2)) => q2,
    };
    scan_rules(buf, q2)
}

/// Walks `n` fields from `p`.
fn scan_fields(buf: &[u8], p: usize, n: u8) -> (r: Option<(bool, usize)>)
    ensures
        scanned(parse_fields_at(buf@, p as int, n as nat), r),
{
    let mut k: u8 = 0;
    let mut cur = p;
    while k < n
        invariant
            k <= n,
            scanned(parse_fields_at(buf@, p as int, k as nat), Some((true, cur))),
        decreases n - k,
    {
        proof {
            assert(parse_fields_at(buf@, p as int, (k + 1) as nat) == match parse_fields_at(
                buf@,
                p as int,
                k as nat,
            ) {
                None => None,
                Some((Err(e), q)) => Some((Err(e), q)),
                Some((Ok(fs), q)) => match parse_field_at(buf@, q) {
                    None => None,
                    Some((Err(e), q2)) => Some((Err(e), q2)),
                    Some((Ok(f), q2)) => Some((Ok(fs.push(f)), q2)),
                },
            });
        }
        match scan_field(buf, cur) {
            None => {
                proof {
                    lemma_fields_stop(buf@, p as int, (k + 1) as nat, n as nat);
                }
                return None;
            },
            Some((false, q)) => {
                proof {
                    lemma_fields_stop(buf@, p as int, (k + 1) as nat, n as nat);
                }
                return Some((false, q));
            },
            Some((true, q)) => {
                cur = q;
            },
        }
        k = k + 1;
    }
    Some((true, cur))
}

/// Once walking some of the fields stops, walking more of them stops at
/// the same place.
proof fn lemma_fields_stop(b: Seq<u8>, p: int, k: nat, n: nat)
    requires
        k <= n,
        !(parse_fields_at(b, p, k) matches Some((Ok(_), _))),
    ensures
        parse_fields_at(b, p, n) == parse_fields_at(b, p, k),
    decreases n - k,
{
    if k < n {
        lemma_fields_stop(b, p, k + 1, n);
    }
}

/// Walks a struct at `p`.
fn scan_struct(buf: &[u8], p: usize) -> (r: Option<(bool, usize)>)
    ensures
        scanned(parse_struct_at(buf@, p as int), r),
{
    if p >= buf.len() {
        return None;
    }
    let q = match scan_name(buf, p + 1) {
        None => return None,
        Some((false, q)) => return Some((false, q)),
        Some((true, q)) => q,
    };
    if q >= buf.len() {
        return None;
    }
    scan_fields(buf, q + 1, buf[q])
}

/// Walks an item at `p`.
fn scan_item(buf: &[u8], p: usize) -> (r: Option<(bool, usize)>)
    ensures
        scanned(parse_item_at(buf@, p as int), r),
{
    if p >= buf.len() || buf[p] != 0 {
        return None;
    }
    scan_struct(buf, p + 1)
}

/// Once walking some of the items stops, walking more of them stops at the
/// same place.
proof fn lemma_items_stop(b: Seq<u8>, p: int, k: nat, n: nat)
    requires
        k <= n,
        !(parse_items_at(b, p, k) matches Some((Ok(_), _))),
    ensures
        parse_items_at(b, p, n) == parse_items_at(b, p, k),
    decreases n - k,
{
    if k < n {
        lemma_items_stop(b, p, k + 1, n);
    }
}

/// Walks `n` items from `p`.
fn scan_items(buf: &[u8], p: usize, n: u8) -> (r: Option<(bool, usize)>)
    ensures
        scanned(parse_items_at(buf@, p as int, n as nat), r),
{
    let mut k: u8 = 0;
    let mut cur = p;
    while k < n
        invariant
            k <= n,
            scanned(parse_items_at(buf@, p as int, k as nat), Some((true, cur))),
        decreases n - k,
    {
        match scan_item(buf, cur) {
            None => {
                proof {
                    lemma_items_stop(buf@, p as int, (k + 1) as nat, n as nat);
                }
                return None;
            },
            Some((false, q)) => {
                proof {
                    lemma_items_stop(buf@, p as int, (k + 1) as nat, n as nat);
                }
                return Some((false, q));
            },
            Some((true, q)) => {
                cur = q;
            },
        }
        k = k + 1;
    }
    Some((true, cur))
}

/// Whether a vtable can be read from the front of `buf` (see
/// `parse_vtable`): reading it stops at an error or at its end, and never
/// needs a byte past the end of `buf`.
pub fn vtable_readable(buf: &[u8]) -> (r: bool)
    ensures
        r == (parse_vtable(buf@) is Some),
{
    let q = match scan_name(buf, 0) {
        None => return false,
        Some((false, _)) => return true,
        Some((true, q)) => q,
    };
    let q2 = match scan_name(buf, q) {
        None => return false,
        Some((false, _)) => return true,
        Some((true, q2)) => q2,
    };
    if q2 > buf.len() || 3 > buf.len() - q2 {
        return false;
    }
    scan_items(buf, q2 + 3, buf[q2]).is_some()
}

} // verus!
