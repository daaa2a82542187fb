use docbuf::error::{Error, HexError};
use docbuf::field::VTableField;
use docbuf::field_type::VTableFieldType;
use docbuf::numeric::NumericValue;
use docbuf::offset::{VTableFieldOffset, VTableFieldOffsets};
use docbuf::rules::VTableFieldRules;
use docbuf::structs::VTableStruct;
use docbuf::table::{VTable, VTableId};
use docbuf::traits::DocBufEncodeField;
use docbuf::vtable_scan::vtable_readable;

fn sample_vtable() -> VTable {
    let mut s = VTableStruct::new("Doc", None);
    s.add_field(VTableFieldType::String, "name", VTableFieldRules::new());
    s.add_field(VTableFieldType::U8, "age", VTableFieldRules::new());
    let mut vt = VTable::new("test".to_string(), "Doc".to_string());
    vt.add_struct(s);
    vt
}

fn string_field(rules: VTableFieldRules) -> VTableField {
    VTableField::new(0, VTableFieldType::String, 0, "name".to_string(), rules)
}

#[test]
fn vtable_write_read_roundtrip() {
    let vt = sample_vtable();
    let mut buf = Vec::new();
    vt.write_to_buffer(&mut buf).unwrap();
    let mut copy = buf.clone();
    let back = VTable::read_from_buffer(&mut copy).unwrap();
    assert!(back.eq_vtable(&vt));
    assert_eq!(back.num_items, 1);
    assert_eq!(back.num_fields, 2);
}

#[test]
fn vtable_lookups() {
    let vt = sample_vtable();
    assert_eq!(vt.struct_by_name("Doc").unwrap().num_fields, 2);
    assert!(matches!(vt.struct_by_name("Other"), Err(Error::StructNotFound)));
    assert_eq!(vt.get_struct_item_index_by_name("Doc"), Some(0));
    assert_eq!(vt.get_struct_item_index_by_name("Other"), None);
    assert_eq!(vt.num_fields_by_index(0).unwrap(), 2);
    assert!(matches!(vt.num_fields_by_index(3), Err(Error::ItemNotFound)));
    let f = vt.get_struct_field_by_index(0, 1).unwrap();
    assert_eq!(f.name, "age");
    assert!(matches!(vt.get_struct_field_by_index(0, 9), Err(Error::FieldNotFound)));
    let s = vt.struct_by_index(0).unwrap();
    assert_eq!(s.field_index_from_name("age").unwrap(), 1);
    assert!(matches!(s.field_by_name("nope"), Err(Error::FieldNotFound)));
}

#[test]
fn field_type_tags_roundtrip() {
    let t = VTableFieldType::Option(Box::new(VTableFieldType::U8));
    assert_eq!(t.as_u8(), 22);
    assert_eq!(VTableFieldType::Bool.as_u8(), 18);
    let back = VTableFieldType::try_from_u8(21).unwrap();
    assert_eq!(back.type_label(), "Uuid");
    assert!(matches!(VTableFieldType::try_from_u8(99), Err(Error::UnknownFieldType(99))));
}

#[test]
fn field_type_labels() {
    let t = VTableFieldType::HashMap {
        key: Box::new(VTableFieldType::String),
        value: Box::new(VTableFieldType::Vec(Box::new(VTableFieldType::U32))),
    };
    assert_eq!(t.type_label(), "HashMap<String, Vec<u32>>");
    assert_eq!(VTableFieldType::Str.type_label(), "&str");
    assert_eq!(
        VTableFieldType::is_struct(VTableFieldType::Vec(Box::new(VTableFieldType::Struct("Inner".to_string())))),
        Some("Inner".to_string())
    );
    assert_eq!(VTableFieldType::is_struct(VTableFieldType::U8), None);
}

#[test]
fn numeric_value_bytes() {
    let mut out = Vec::new();
    NumericValue::U16(0x0102).encode(&mut out).unwrap();
    assert_eq!(out, vec![2, 1]);
    let mut buf = Vec::new();
    NumericValue::I32(-2).write_to_buffer(&mut buf).unwrap();
    assert_eq!(buf[1..].to_vec(), vec![0xfe, 0xff, 0xff, 0xff]);
    let mut copy = buf.clone();
    let back = NumericValue::read_from_buffer(&mut copy).unwrap();
    assert!(back.same_as(&NumericValue::I32(-2)));
    assert!(matches!(NumericValue::from_u8_type(200), Err(Error::InvalidNumericValueType(200))));
}

#[test]
fn string_field_encode_decode() {
    let f = string_field(VTableFieldRules::new());
    let mut buf = Vec::new();
    let o = f.encode(&"hi", &mut buf).unwrap();
    assert_eq!(buf, vec![2, 0, 0, 0, b'h', b'i']);
    assert_eq!(o.range(), 4..6);
    let s = f.decode_string(&mut buf).unwrap();
    assert_eq!(s, "hi");
    assert!(buf.is_empty());
}

#[test]
fn string_field_rejects_bad_utf8() {
    let f = string_field(VTableFieldRules::new());
    let mut buf = vec![2, 0, 0, 0, 0xff, 0xfe];
    assert!(matches!(f.decode_string(&mut buf), Err(Error::FromUtf8)));
}

#[test]
fn encode_into_wrong_type_is_refused() {
    let f = VTableField::new(0, VTableFieldType::U8, 0, "n".to_string(), VTableFieldRules::new());
    let mut buf = Vec::new();
    match f.encode(&"text", &mut buf) {
        Err(Error::DocBufEncodeFieldType(t)) => assert_eq!(t, "u8"),
        _ => panic!("expected a type error"),
    }
    assert!(buf.is_empty());
}

#[test]
fn length_rule_refuses_long_text() {
    let f = string_field(VTableFieldRules::new().set_max_length(2));
    let mut buf = Vec::new();
    assert!(matches!(f.encode(&"abc", &mut buf), Err(Error::FieldRulesLength(_))));
    assert!(f.encode(&"ab", &mut buf).is_ok());
}

#[test]
fn regex_rule() {
    let rules = VTableFieldRules::new().set_regex("^a+$");
    assert!(rules.check_regex("aaa").is_ok());
    assert!(matches!(rules.check_regex("b"), Err(Error::FieldRulesRegex(_))));
}

#[test]
fn rules_write_read_roundtrip() {
    let rules = VTableFieldRules::new().set_min_length(1).set_max_length(9);
    let mut buf = Vec::new();
    rules.write_to_buffer(&mut buf).unwrap();
    let back = VTableFieldRules::read_from_buffer(&mut buf).unwrap();
    assert!(back.eq_rules(&rules));
    assert_eq!(back.max_length(), Some(9));
}

#[test]
fn vtable_id_hex() {
    let id = VTableId::from_u64(0x0102030405060708);
    assert_eq!(id.as_hex(), "0807060504030201");
    assert_eq!(VTableId::from_hex("0807060504030201").unwrap().to_u64(), 0x0102030405060708);
    assert!(matches!(VTableId::from_hex("0g"), Err(Error::Hex(HexError::InvalidHexCharacter { c: 'g', index: 1 }))));
    assert!(matches!(VTableId::from_hex("abc"), Err(Error::Hex(HexError::OddLength))));
    assert!(matches!(VTableId::from_hex("0102"), Err(Error::InvalidVTableId(_))));
}

#[test]
fn offsets_bytes_roundtrip() {
    let mut offsets = VTableFieldOffsets::new();
    offsets.push(VTableFieldOffset((0, 0), 4..6));
    offsets.push(VTableFieldOffset((0, 1), 6..7));
    offsets.push(VTableFieldOffset((0, 0), 7..9));
    assert_eq!(offsets.len(), 2);
    assert_eq!(offsets.get(0).range(), 4..9);
    let bytes = offsets.as_bytes();
    assert_eq!(bytes.len(), 36);
    let back = VTableFieldOffsets::from_bytes(&bytes);
    assert_eq!(back.len(), 2);
    assert_eq!(back.get(1).range(), 6..7);
    assert_eq!(back.doc_buffer_len(), 9);
}

#[test]
fn vtable_bytes_are_readable_until_cut() {
    let bytes = sample_vtable().to_vec().unwrap();
    assert!(vtable_readable(&bytes));
    let mut longer = bytes.clone();
    longer.extend_from_slice(&[1, 2, 3]);
    assert!(vtable_readable(&longer));
    for cut in 0..bytes.len() {
        assert!(!vtable_readable(&bytes[..cut]), "cut at {cut}");
    }
    let mut copy = bytes.clone();
    assert!(VTable::read_from_buffer(&mut copy).is_ok());
}
