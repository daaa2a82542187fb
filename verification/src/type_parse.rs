//! Field types read from the text of a Rust type, as a derive macro spells
//! it out: tokens separated by single spaces, such as `Vec < u8 >`.
use vstd::prelude::*;
use crate::field_type::{type_text, FieldTypeModel, VTableFieldType};
use crate::utf8_text::str_eq;

verus! {

/// `p` occurs in `s` at position `i`.
pub open spec fn occurs_at(s: Seq<char>, p: Seq<char>, i: int) -> bool {
    0 <= i && i + p.len() <= s.len() && s.subrange(i, i + p.len()) == p
}

/// `p` occurs somewhere in `s`.
pub open spec fn text_has(s: Seq<char>, p: Seq<char>) -> bool {
    exists|i: int| occurs_at(s, p, i)
}

/// `s` without the copies of `p` that repeat at its start.
pub open spec fn strip_leading(s: Seq<char>, p: Seq<char>) -> Seq<char>
    decreases s.len(),
{
    if p.len() > 0 && occurs_at(s, p, 0) {
        strip_leading(s.subrange(p.len() as int, s.len() as int), p)
    } else {
        s
    }
}

/// `s` without the copies of `p` that repeat at its end.
pub open spec fn strip_trailing(s: Seq<char>, p: Seq<char>) -> Seq<char>
    decreases s.len(),
{
    if p.len() > 0 && occurs_at(s, p, s.len() - p.len()) {
        strip_trailing(s.subrange(0, s.len() - p.len()), p)
    } else {
        s
    }
}

/// The characters with the Unicode property White_Space.
pub open spec fn is_white(c: char) -> bool {
    let x = c as u32;
    (9 <= x <= 13) || x == 32 || x == 0x85 || x == 0xA0 || x == 0x1680 || (0x2000 <= x <= 0x200A)
        || x == 0x2028 || x == 0x2029 || x == 0x202F || x == 0x205F || x == 0x3000
}

/// `s` without leading white space.
pub open spec fn trim_front(s: Seq<char>) -> Seq<char>
    decreases s.len(),
{
    if s.len() > 0 && is_white(s[0]) {
        trim_front(s.subrange(1, s.len() as int))
    } else {
        s
    }
}

/// `s` without trailing white space.
pub open spec fn trim_back(s: Seq<char>) -> Seq<char>
    decreases s.len(),
{
    if s.len() > 0 && is_white(s.last()) {
        trim_back(s.drop_last())
    } else {
        s
    }
}

/// `s` without white space at either end.
pub open spec fn trim_white(s: Seq<char>) -> Seq<char> {
    trim_back(trim_front(s))
}

/// `i` is the position of the first `c` in `s`, or the length of `s` where
/// there is none.
pub open spec fn is_first(s: Seq<char>, c: char, i: int) -> bool {
    &&& 0 <= i <= s.len()
    &&& i < s.len() ==> s[i] == c
    &&& forall|j: int| 0 <= j < i ==> s[j] != c
}

/// The position of the first `c` in `s`, or the length of `s`.
pub open spec fn first_of(s: Seq<char>, c: char) -> int {
    choose|i: int| is_first(s, c, i)
}

proof fn lemma_first_unique(s: Seq<char>, c: char, i: int, k: int)
    requires
        is_first(s, c, i),
        is_first(s, c, k),
    ensures
        i == k,
{
    if i < k {
        assert(s[i] != c);
    } else if k < i {
        assert(s[k] != c);
    }
}

/// Key and value text of a map type: the text between the first and the
/// second `<`, without trailing `>`, split at its commas; each part trimmed.
/// None where there is no `<` or no comma after it.
pub open spec fn hashmap_parts(s: Seq<char>) -> Option<(Seq<char>, Seq<char>)> {
    let a = first_of(s, '<');
    if a >= s.len() {
        None
    } else {
        let rest = s.subrange(a + 1, s.len() as int);
        let seg = rest.subrange(0, first_of(rest, '<'));
        let inner = strip_trailing(seg, ">"@);
        let k = first_of(inner, ',');
        if k >= inner.len() {
            None
        } else {
            let tail = inner.subrange(k + 1, inner.len() as int);
            Some((trim_white(inner.subrange(0, k)), trim_white(tail.subrange(0, first_of(tail, ',')))))
        }
    }
}

/// The text inside `Option < .. >`.
pub open spec fn option_inner(s: Seq<char>) -> Seq<char> {
    strip_trailing(strip_leading(s, "Option < "@), " >"@)
}

/// The text inside `Vec < .. >`.
pub open spec fn vec_inner(s: Seq<char>) -> Seq<char> {
    strip_trailing(strip_leading(s, "Vec < "@), " >"@)
}

/// The field type a type's text stands for; None where reading it would not
/// end (an inner text no shorter than the whole) or a map type lacks its key
/// or value.
pub open spec fn type_of_name(s: Seq<char>) -> Option<FieldTypeModel>
    decreases s.len(), 1int,
{
    if s == "u8"@ {
        Some(FieldTypeModel::U8)
    } else if s == "u16"@ {
        Some(FieldTypeModel::U16)
    } else if s == "u32"@ {
        Some(FieldTypeModel::U32)
    } else if s == "u64"@ {
        Some(FieldTypeModel::U64)
    } else if s == "u128"@ {
        Some(FieldTypeModel::U128)
    } else if s == "usize"@ {
        Some(FieldTypeModel::USIZE)
    } else if s == "i8"@ {
        Some(FieldTypeModel::I8)
    } else if s == "i16"@ {
        Some(FieldTypeModel::I16)
    } else if s == "i32"@ {
        Some(FieldTypeModel::I32)
    } else if s == "i64"@ {
        Some(FieldTypeModel::I64)
    } else if s == "i128"@ {
        Some(FieldTypeModel::I128)
    } else if s == "isize"@ {
        Some(FieldTypeModel::ISIZE)
    } else if s == "f32"@ {
        Some(FieldTypeModel::F32)
    } else if s == "f64"@ {
        Some(FieldTypeModel::F64)
    } else if s == "String"@ {
        Some(FieldTypeModel::String)
    } else if s == "Vec < u8 >"@ {
        Some(FieldTypeModel::Bytes)
    } else if text_has(s, "str"@) {
        Some(FieldTypeModel::Str)
    } else if text_has(s, "[u8"@) {
        Some(FieldTypeModel::Bytes)
    } else if text_has(s, "Uuid"@) {
        Some(FieldTypeModel::Uuid)
    } else if text_has(s, "Option < Vec < u8 "@) {
        Some(FieldTypeModel::Option(Box::new(FieldTypeModel::Bytes)))
    } else if text_has(s, "Option < Vec < "@) {
        let t = vec_inner(option_inner(s));
        if t.len() < s.len() {
            match type_of_name(t) {
                Some(x) => Some(FieldTypeModel::Option(Box::new(FieldTypeModel::Vec(Box::new(x))))),
                None => None,
            }
        } else {
            None
        }
    } else if text_has(s, "Vec"@) {
        let t = vec_inner(s);
        if t.len() < s.len() {
            match type_of_name(t) {
                Some(x) => Some(FieldTypeModel::Vec(Box::new(x))),
                None => None,
            }
        } else {
            None
        }
    } else if text_has(s, "Option"@) {
        let t = option_inner(s);
        if t.len() < s.len() {
            match type_of_name(t) {
                Some(x) => Some(FieldTypeModel::Option(Box::new(x))),
                None => None,
            }
        } else {
            None
        }
    } else if s == "bool"@ {
        Some(FieldTypeModel::Bool)
    } else if text_has(s, "HashMap"@) {
        hashmap_type(s)
    } else {
        Some(FieldTypeModel::Struct(s))
    }
}

/// The map type a type's text stands for (see `hashmap_parts`).
pub open spec fn hashmap_type(s: Seq<char>) -> Option<FieldTypeModel>
    decreases s.len(), 0int,
{
    match hashmap_parts(s) {
        Some((k, v)) => if k.len() < s.len() && v.len() < s.len() {
            match (type_of_name(k), type_of_name(v)) {
                (Some(a), Some(b)) => Some(FieldTypeModel::HashMap { key: Box::new(a), value: Box::new(b) }),
                _ => None,
            }
        } else {
            None
        },
        None => None,
    }
}

/// Whether `p` occurs in `s` at position `i`.
fn occurs_at_exec(s: &str, p: &str, i: usize, n: usize, m: usize) -> (r: bool)
    requires
        n == s@.len(),
        m == p@.len(),
        i + m <= n,
    ensures
        r == occurs_at(s@, p@, i as int),
{
    for j in 0..m
        invariant
            n == s@.len(),
            m == p@.len(),
            i + m <= n,
            forall|k: int| 0 <= k < j ==> s@[i + k] == p@[k],
    {
        if s.get_char(i + j) != p.get_char(j) {
            assert(s@.subrange(i as int, i + m)[j as int] != p@[j as int]);
            return false;
        }
    }
    assert(s@.subrange(i as int, i + m) =~= p@);
    true
}

/// Whether `p` occurs in `s`.
pub fn text_contains(s: &str, p: &str) -> (r: bool)
    ensures
        r == text_has(s@, p@),
{
    let n = s.unicode_len();
    let m = p.unicode_len();
    if m > n {
        assert forall|k: int| !occurs_at(s@, p@, k) by {}
        return false;
    }
    if m == 0 {
        assert(s@.subrange(0, 0) =~= p@);
        assert(occurs_at(s@, p@, 0));
        return true;
    }
    let mut i: usize = 0;
    while i <= n - m
        invariant
            n == s@.len(),
            m == p@.len(),
            0 < m <= n,
            i <= n - m + 1,
            forall|k: int| 0 <= k < i ==> !occurs_at(s@, p@, k),
        decreases n - m + 1 - i,
    {
        if occurs_at_exec(s, p, i, n, m) {
            return true;
        }
        i = i + 1;
    }
    assert forall|k: int| !occurs_at(s@, p@, k) by {
        if occurs_at(s@, p@, k) {
            assert(k < i);
        }
    }
    false
}

/// `s` without the copies of `p` that repeat at its start.
pub fn strip_leading_text<'a>(s: &'a str, p: &str) -> (r: &'a str)
    ensures
        r@ == strip_leading(s@, p@),
{
    let n = s.unicode_len();
    let m = p.unicode_len();
    if m == 0 {
        return s;
    }
    let mut i: usize = 0;
    assert(s@.subrange(0, n as int) =~= s@);
    loop
        invariant
            i <= n,
            n == s@.len(),
            m == p@.len(),
            m > 0,
            strip_leading(s@, p@) == strip_leading(s@.subrange(i as int, n as int), p@),
        ensures
            i <= n,
            strip_leading(s@, p@) == s@.subrange(i as int, n as int),
        decreases n - i,
    {
        let ghost sub = s@.subrange(i as int, n as int);
        if m > n - i || !occurs_at_exec(s, p, i, n, m) {
            assert(!occurs_at(sub, p@, 0)) by {
                if i + m <= n {
                    assert(sub.subrange(0, m as int) =~= s@.subrange(i as int, i + m));
                }
            }
            break;
        }
        assert(sub.subrange(0, m as int) =~= s@.subrange(i as int, i + m));
        assert(sub.subrange(m as int, sub.len() as int) =~= s@.subrange(i + m, n as int));
        i = i + m;
    }
    s.substring_char(i, n)
}

/// `s` without the copies of `p` that repeat at its end.
pub fn strip_trailing_text<'a>(s: &'a str, p: &str) -> (r: &'a str)
    ensures
        r@ == strip_trailing(s@, p@),
{
    let n = s.unicode_len();
    let m = p.unicode_len();
    if m == 0 {
        return s;
    }
    let mut j: usize = n;
    assert(s@.subrange(0, n as int) =~= s@);
    loop
        invariant
            j <= n,
            n == s@.len(),
            m == p@.len(),
            m > 0,
            strip_trailing(s@, p@) == strip_trailing(s@.subrange(0, j as int), p@),
        ensures
            j <= n,
            strip_trailing(s@, p@) == s@.subrange(0, j as int),
        decreases j,
    {
        let ghost sub = s@.subrange(0, j as int);
        if j < m || !occurs_at_exec(s, p, j - m, n, m) {
            assert(!occurs_at(sub, p@, sub.len() - m)) by {
                if j >= m {
                    assert(sub.subrange(j - m, j as int) =~= s@.subrange(j - m, j as int));
                }
            }
            break;
        }
        assert(sub.subrange(j - m, j as int) =~= s@.subrange(j - m, j as int));
        assert(sub.subrange(0, j - m) =~= s@.subrange(0, j - m));
        j = j - m;
    }
    s.substring_char(0, j)
}

/// Whether `c` is white space.
fn is_white_char(c: char) -> (r: bool)
    ensures
        r == is_white(c),
{
    let x = c as u32;
    (9 <= x && x <= 13) || x == 32 || x == 0x85 || x == 0xA0 || x == 0x1680 || (0x2000 <= x && x
        <= 0x200A) || x == 0x2028 || x == 0x2029 || x == 0x202F || x == 0x205F || x == 0x3000
}

/// `s` without white space at either end.
pub fn trim_white_text<'a>(s: &'a str) -> (r: &'a str)
    ensures
        r@ == trim_white(s@),
{
    let n = s.unicode_len();
    let mut i: usize = 0;
    assert(s@.subrange(0, n as int) =~= s@);
    loop
        invariant
            i <= n,
            n == s@.len(),
            trim_front(s@) == trim_front(s@.subrange(i as int, n as int)),
        ensures
            i <= n,
            trim_front(s@) == s@.subrange(i as int, n as int),
        decreases n - i,
    {
        let ghost sub = s@.subrange(i as int, n as int);
        if i == n || !is_white_char(s.get_char(i)) {
            break;
        }
        assert(sub.subrange(1, sub.len() as int) =~= s@.subrange(i + 1, n as int));
        i = i + 1;
    }
    let mut j: usize = n;
    loop
        invariant
            i <= j <= n,
            n == s@.len(),
            trim_back(s@.subrange(i as int, n as int)) == trim_back(s@.subrange(i as int, j as int)),
        ensures
            i <= j <= n,
            trim_back(s@.subrange(i as int, n as int)) == s@.subrange(i as int, j as int),
        decreases j,
    {
        let ghost sub = s@.subrange(i as int, j as int);
        if j == i || !is_white_char(s.get_char(j - 1)) {
            break;
        }
        assert(sub.drop_last() =~= s@.subrange(i as int, j - 1));
        j = j - 1;
    }
    s.substring_char(i, j)
}

/// The position of the first `c` in `s`, or the length of `s`.
fn find_first(s: &str, c: char) -> (i: usize)
    ensures
        i as int == first_of(s@, c),
        i <= s@.len(),
{
    let n = s.unicode_len();
    let mut i: usize = 0;
    while i < n
        invariant
            i <= n,
            n == s@.len(),
            forall|j: int| 0 <= j < i ==> s@[j] != c,
        decreases n - i,
    {
        if s.get_char(i) == c {
            proof {
                assert(is_first(s@, c, i as int));
                lemma_first_unique(s@, c, i as int, first_of(s@, c));
            }
            return i;
        }
        i = i + 1;
    }
    proof {
        assert(is_first(s@, c, i as int));
        lemma_first_unique(s@, c, i as int, first_of(s@, c));
    }
    i
}

/// Key and value text of a map type (see `hashmap_parts`).
fn split_hashmap<'a>(s: &'a str) -> (r: Option<(&'a str, &'a str)>)
    ensures
        match hashmap_parts(s@) {
            None => r is None,
            Some((k, v)) => r matches Some((x, y)) && x@ == k && y@ == v,
        },
{
    let n = s.unicode_len();
    let a = find_first(s, '<');
    if a >= n {
        return None;
    }
    let rest = s.substring_char(a + 1, n);
    let b = find_first(rest, '<');
    let seg = rest.substring_char(0, b);
    let inner = strip_trailing_text(seg, ">");
    let il = inner.unicode_len();
    let k = find_first(inner, ',');
    if k >= il {
        return None;
    }
    let tail = inner.substring_char(k + 1, il);
    let c = find_first(tail, ',');
    let key = trim_white_text(inner.substring_char(0, k));
    let value = trim_white_text(tail.substring_char(0, c));
    Some((key, value))
}

impl VTableFieldType {
    /// The field type that the text of a Rust type stands for: the primitive
    /// types by name, text holding `str` or `[u8` as bytes or a string slice,
    /// `Option < .. >`, `Vec < .. >` and `HashMap < .., .. >` by their inner
    /// types, and any other name as a struct.
    pub fn from_type_name(s: &str) -> (t: VTableFieldType)
        requires
            type_of_name(s@) is Some,
        ensures
            t@ == type_of_name(s@).unwrap(),
        decreases s@.len(), 1int,
    {
        if str_eq(s, "u8") {
            return VTableFieldType::U8;
        }
        if str_eq(s, "u16") {
            return VTableFieldType::U16;
        }
        if str_eq(s, "u32") {
            return VTableFieldType::U32;
        }
        if str_eq(s, "u64") {
            return VTableFieldType::U64;
        }
        if str_eq(s, "u128") {
            return VTableFieldType::U128;
        }
        if str_eq(s, "usize") {
            return VTableFieldType::USIZE;
        }
        if str_eq(s, "i8") {
            return VTableFieldType::I8;
        }
        if str_eq(s, "i16") {
            return VTableFieldType::I16;
        }
        if str_eq(s, "i32") {
            return VTableFieldType::I32;
        }
        if str_eq(s, "i64") {
            return VTableFieldType::I64;
        }
        if str_eq(s, "i128") {
            return VTableFieldType::I128;
        }
        if str_eq(s, "isize") {
            return VTableFieldType::ISIZE;
        }
        if str_eq(s, "f32") {
            return VTableFieldType::F32;
        }
        if str_eq(s, "f64") {
            return VTableFieldType::F64;
        }
        if str_eq(s, "String") {
            return VTableFieldType::String;
        }
        if str_eq(s, "Vec < u8 >") {
            return VTableFieldType::Bytes;
        }
        if text_contains(s, "str") {
            return VTableFieldType::Str;
        }
        if text_contains(s, "[u8") {
            return VTableFieldType::Bytes;
        }
        if text_contains(s, "Uuid") {
            return VTableFieldType::Uuid;
        }
        if text_contains(s, "Option < Vec < u8 ") {
            let b = VTableFieldType::Bytes;
            assert(b@ == FieldTypeModel::Bytes);
            let t = VTableFieldType::Option(Box::new(b));
            assert(t@ == FieldTypeModel::Option(Box::new(b@)));
            return t;
        }
        if text_contains(s, "Option < Vec < ") {
            let t = strip_trailing_text(strip_leading_text(s, "Option < "), " >");
            let t = strip_trailing_text(strip_leading_text(t, "Vec < "), " >");
            let inner = VTableFieldType::from_type_name(t);
            let v = VTableFieldType::Vec(Box::new(inner));
            assert(v@ == FieldTypeModel::Vec(Box::new(inner@)));
            let r = VTableFieldType::Option(Box::new(v));
            assert(r@ == FieldTypeModel::Option(Box::new(v@)));
            return r;
        }
        if text_contains(s, "Vec") {
            let t = strip_trailing_text(strip_leading_text(s, "Vec < "), " >");
            let inner = VTableFieldType::from_type_name(t);
            return VTableFieldType::Vec(Box::new(inner));
        }
        if text_contains(s, "Option") {
            let t = strip_trailing_text(strip_leading_text(s, "Option < "), " >");
            let inner = VTableFieldType::from_type_name(t);
            return VTableFieldType::Option(Box::new(inner));
        }
        if str_eq(s, "bool") {
            return VTableFieldType::Bool;
        }
        if text_contains(s, "HashMap") {
            return VTableFieldType::parse_hashmap_types(s);
        }
        VTableFieldType::Struct(s.to_owned())
    }

    /// The name of the struct that the type written as `s` refers to,
    /// looking through `Option` and `Vec` (see `is_struct`).
    pub fn is_struct_name(s: &str) -> (r: Option<String>)
        requires
            type_of_name(s@) is Some,
        ensures
            r matches Some(name) ==> type_of_name(s@).unwrap().struct_name() == Some(name@),
            r is None ==> type_of_name(s@).unwrap().struct_name() is None,
    {
        VTableFieldType::is_struct(VTableFieldType::from_type_name(s))
    }

    /// The map type read from a type's text (same reading as
    /// `parse_hashmap_types`).
    pub fn hashmap_from_str(input: &str) -> (t: VTableFieldType)
        requires
            hashmap_type(input@) is Some,
        ensures
            t@ == hashmap_type(input@).unwrap(),
    {
        VTableFieldType::parse_hashmap_types(input)
    }

    /// The map type whose key and value types are read from the text between
    /// the first two `<` (see `hashmap_parts`).
    pub fn parse_hashmap_types(input: &str) -> (t: VTableFieldType)
        requires
            hashmap_type(input@) is Some,
        ensures
            t@ == hashmap_type(input@).unwrap(),
        decreases input@.len(), 0int,
    {
        match split_hashmap(input) {
            Some((k, v)) => {
                let key = VTableFieldType::from_type_name(k);
                let value = VTableFieldType::from_type_name(v);
                VTableFieldType::HashMap { key: Box::new(key), value: Box::new(value) }
            },
            None => {
                proof {
                    assert(false);
                }
                VTableFieldType::U8
            },
        }
    }
}

/// `p` occurs nowhere in `s` when its first character occurs nowhere in `s`.
proof fn lemma_absent(s: Seq<char>, p: Seq<char>)
    requires
        p.len() > 0,
        forall|i: int| 0 <= i < s.len() ==> #[trigger] s[i] != p[0],
    ensures
        !text_has(s, p),
{
    assert forall|i: int| !occurs_at(s, p, i) by {
        if 0 <= i && i + p.len() <= s.len() {
            assert(s.subrange(i, i + p.len())[0] == s[i]);
        }
    }
}

/// Each primitive type name reads as the field type of that name: the text
/// of a primitive type reads back as that type.
pub proof fn lemma_primitive_names_read_back(t: FieldTypeModel)
    requires
        t is U8 || t is U16 || t is U32 || t is U64 || t is U128 || t is USIZE
            || t is I8 || t is I16 || t is I32 || t is I64 || t is I128 || t is ISIZE
            || t is F32 || t is F64 || t is String || t is Bool || t is Str,
    ensures
        type_of_name(type_text(t)) == Some(t),
{
    reveal_strlit("u8");
    reveal_strlit("u16");
    reveal_strlit("u32");
    reveal_strlit("u64");
    reveal_strlit("u128");
    reveal_strlit("usize");
    reveal_strlit("i8");
    reveal_strlit("i16");
    reveal_strlit("i32");
    reveal_strlit("i64");
    reveal_strlit("i128");
    reveal_strlit("isize");
    reveal_strlit("f32");
    reveal_strlit("f64");
    reveal_strlit("String");
    reveal_strlit("Vec < u8 >");
    reveal_strlit("str");
    reveal_strlit("[u8");
    reveal_strlit("Uuid");
    reveal_strlit("Option < Vec < u8 ");
    reveal_strlit("Option < Vec < ");
    reveal_strlit("Vec");
    reveal_strlit("Option");
    reveal_strlit("bool");
    reveal_strlit("HashMap");
    reveal_strlit("&str");
    // Names of equal length differ in their first or their second character.
    let (a, b, c, d) = ("u8"@, "i8"@, "u128"@, "i128"@);
    assert(a[0] != b[0] && c[0] != d[0]);
    let (e, f) = ("usize"@, "isize"@);
    assert(e[0] != f[0]);
    let (g, h, i, j, k, l, m, n) = ("u16"@, "u32"@, "u64"@, "i16"@, "i32"@, "i64"@, "f32"@, "f64"@);
    assert(g[0] == 'u' && h[0] == 'u' && i[0] == 'u' && j[0] == 'i' && k[0] == 'i' && l[0] == 'i');
    assert(m[0] == 'f' && n[0] == 'f');
    assert(g[1] == '1' && h[1] == '3' && i[1] == '6' && j[1] == '1' && k[1] == '3' && l[1] == '6');
    assert(m[1] == '3' && n[1] == '6');
    match t {
        FieldTypeModel::Str => {
            let a = "&str"@;
            assert(a.len() == 4 && a[0] == '&');
            assert(a != "u128"@ && a != "i128"@) by {
                assert("u128"@[0] != a[0] && "i128"@[0] != a[0]);
            }
            assert(a.subrange(1, 4) =~= "str"@);
            assert(occurs_at(a, "str"@, 1));
            assert(type_of_name(a) == Some(FieldTypeModel::Str));
            assert(type_text(t) == a);
        },
        FieldTypeModel::Bool => {
            let b = "bool"@;
            assert(b.len() == 4 && b[0] == 'b' && b[1] == 'o' && b[2] == 'o' && b[3] == 'l');
            lemma_absent(b, "str"@);
            lemma_absent(b, "[u8"@);
            lemma_absent(b, "Uuid"@);
            lemma_absent(b, "Option < Vec < u8 "@);
            lemma_absent(b, "Option < Vec < "@);
            lemma_absent(b, "Vec"@);
            lemma_absent(b, "Option"@);
            assert(type_of_name(b) == Some(FieldTypeModel::Bool));
        },
        _ => {},
    }
}

} // verus!
