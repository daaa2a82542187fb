use docbuf::de::{DocBufDeserializer, MapKeyStep};
use docbuf::field_type::VTableFieldType;
use docbuf::numeric::NumericValue;
use docbuf::rules::VTableFieldRules;
use docbuf::ser::{DocBufError, DocBufSerializer};
use docbuf::structs::VTableStruct;
use docbuf::table::VTable;

fn nested_vtable() -> VTable {
    let mut outer = VTableStruct::new("Outer", None);
    outer.add_field(VTableFieldType::String, "name", VTableFieldRules::new());
    outer.add_field(VTableFieldType::Struct("Inner".to_string()), "inner", VTableFieldRules::new());
    let mut inner = VTableStruct::new("Inner", None);
    inner.add_field(VTableFieldType::U8, "value", VTableFieldRules::new());
    inner.add_field(VTableFieldType::Bool, "flag", VTableFieldRules::new());
    let mut vt = VTable::new("test".to_string(), "Outer".to_string());
    vt.add_struct(inner);
    vt.add_struct(outer);
    vt
}

#[test]
fn serializer_writes_fields_in_order() {
    let vt = nested_vtable();
    let mut ser = DocBufSerializer::new(&vt, vec![9, 9, 9]);
    assert!(ser.buffer.is_empty());
    ser.serialize_struct("Outer").unwrap();
    assert_eq!(ser.current_item, Some(1));
    assert_eq!(ser.current_item_index, 1);
    ser.set_field("name").unwrap();
    ser.serialize_str("ab").unwrap();
    ser.set_field("inner").unwrap();
    ser.serialize_struct("Inner").unwrap();
    assert_eq!(ser.previous_items, vec![1]);
    ser.set_field("value").unwrap();
    ser.serialize_numeric(NumericValue::U8(7)).unwrap();
    ser.set_field("flag").unwrap();
    ser.serialize_bool(true).unwrap();
    assert_eq!(ser.buffer, vec![2, 0, 0, 0, b'a', b'b', 7, 1]);
    assert_eq!(ser.offsets.len(), 3);
    assert_eq!(ser.offsets.get(0).range(), 4..6);
    assert_eq!(ser.offsets.get(1).0, (0, 0));
    assert_eq!(ser.offsets.get(2).range(), 7..8);
}

#[test]
fn serializer_goes_back_to_an_earlier_struct() {
    let vt = nested_vtable();
    let mut ser = DocBufSerializer::new(&vt, Vec::new());
    ser.serialize_struct("Outer").unwrap();
    ser.serialize_struct("Inner").unwrap();
    ser.set_field("name").unwrap();
    assert_eq!(ser.current_item, Some(1));
    assert_eq!(ser.current_field_index, 0);
    assert!(ser.previous_items.is_empty());
    assert_eq!(ser.previous_item, None);
}

#[test]
fn serializer_errors() {
    let vt = nested_vtable();
    let mut ser = DocBufSerializer::new(&vt, Vec::new());
    match ser.serialize_struct("Missing") {
        Err(DocBufError::Serde(m)) => assert_eq!(m, "Struct Missing not found in the vtable"),
        _ => panic!("expected an error"),
    }
    ser.serialize_struct("Outer").unwrap();
    match ser.set_field("nothing") {
        Err(DocBufError::Serde(m)) => assert_eq!(m, "Field not found: nothing"),
        _ => panic!("expected an error"),
    }
    ser.set_field("name").unwrap();
    assert!(matches!(ser.serialize_numeric(NumericValue::U8(1)), Ok(())));
    assert!(matches!(ser.serialize_bytes(&[1, 2]), Err(DocBufError::VTable(_))));
}

#[test]
fn serializer_array_and_map_starts() {
    let vt = nested_vtable();
    let mut ser = DocBufSerializer::new(&vt, Vec::new());
    ser.serialize_struct("Outer").unwrap();
    ser.set_field("name").unwrap();
    ser.encode_array_start(3).unwrap();
    ser.encode_map_start(2).unwrap();
    ser.serialize_tuple(5).unwrap();
    assert_eq!(ser.buffer, vec![3, 0, 0, 0, 2, 0, 0, 0]);
}

#[test]
fn deserializer_walks_the_vtable() {
    let vt = nested_vtable();
    let mut de = DocBufDeserializer::new(&vt, vec![1, 2, 3]).unwrap();
    let f = de.current_field().unwrap();
    assert_eq!(f.name, "value");
    de.next_field().unwrap();
    assert!(de.is_field_visited(0, 0));
    assert_eq!((de.current_item_index, de.current_field_index), (0, 1));
    let f = de.current_field().unwrap();
    assert_eq!(f.name, "flag");
    // The last field of the innermost struct: go down to the first field
    // not read yet.
    de.next_field().unwrap();
    assert!(de.has_descended);
    assert_eq!((de.current_item_index, de.current_field_index), (1, 0));
    assert_eq!(de.current_field().unwrap().name, "name");
}

#[test]
fn deserializer_remaining_items() {
    let vt = nested_vtable();
    let mut de = DocBufDeserializer::new(&vt, vec![2, 0, 0, 0, 5, 6]).unwrap();
    de.set_remaining_items(&VTableFieldType::Vec(Box::new(VTableFieldType::U8))).unwrap();
    assert_eq!(de.remaining_items, Some(2));
    assert_eq!(de.buffer, vec![5, 6]);
    de.set_remaining_items(&VTableFieldType::U8).unwrap();
    assert_eq!(de.remaining_items, Some(1));
    de.set_remaining_items(&VTableFieldType::U8).unwrap();
    assert_eq!(de.remaining_items, None);
    let mut de = DocBufDeserializer::new(&vt, vec![3, 0, 0, 0, 1, 2]).unwrap();
    de.set_remaining_items(&VTableFieldType::Bytes).unwrap();
    assert_eq!(de.remaining_items, Some(2));
    let mut de = DocBufDeserializer::new(&vt, Vec::new()).unwrap();
    de.set_remaining_items(&VTableFieldType::Uuid).unwrap();
    assert_eq!(de.remaining_items, Some(0));
}

#[test]
fn deserializer_lookup_errors() {
    let vt = nested_vtable();
    let mut de = DocBufDeserializer::new(&vt, Vec::new()).unwrap();
    de.current_item_index = 7;
    assert!(matches!(de.current_item(), Err(DocBufError::VTable(_))));
    assert!(matches!(de.current_field(), Err(DocBufError::VTable(_))));
}

#[test]
fn serializer_checks_field_lookup_ends() {
    let vt = nested_vtable();
    let mut ser = DocBufSerializer::new(&vt, Vec::new());
    assert!(ser.can_set_field("anything"));
    ser.serialize_struct("Outer").unwrap();
    ser.serialize_struct("Inner").unwrap();
    assert!(ser.can_set_field("name"));
    assert!(ser.can_set_field("value"));
    assert!(!ser.can_set_field("missing"));
}

#[test]
fn deserializer_step_definedness() {
    let vt = nested_vtable();
    let de = DocBufDeserializer::new(&vt, Vec::new()).unwrap();
    assert!(de.next_field_defined());
    let mut de = DocBufDeserializer::new(&vt, Vec::new()).unwrap();
    // The nested struct field of the outer struct, before descending: the
    // step would go to item index 0 from 1, which is fine.
    de.current_item_index = 1;
    de.current_field_index = 1;
    assert!(de.next_field_defined());
    de.next_field().unwrap();
    assert_eq!((de.current_item_index, de.current_field_index), (0, 0));
}

#[test]
fn map_count_steps() {
    let vt = nested_vtable();
    let map = VTableFieldType::HashMap {
        key: Box::new(VTableFieldType::String),
        value: Box::new(VTableFieldType::U8),
    };
    let mut de = DocBufDeserializer::new(&vt, vec![2, 0, 0, 0, 9]).unwrap();
    assert_eq!(de.map_key_step(&map), MapKeyStep::Key);
    assert_eq!(de.remaining_items, Some(2));
    assert_eq!(de.buffer, vec![9]);
    de.map_value_read(&map);
    de.map_value_read(&map);
    assert_eq!(de.remaining_items, Some(0));
    assert_eq!(de.map_key_step(&map), MapKeyStep::MapEnd);
    assert_eq!(de.remaining_items, None);
    let mut empty = DocBufDeserializer::new(&vt, Vec::new()).unwrap();
    assert_eq!(empty.map_key_step(&map), MapKeyStep::NoMore);
}
