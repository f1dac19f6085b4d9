use crab_nbt::de::{Deserializer, ListAccess, Value};
use crab_nbt::error::Error;
use crab_nbt::ser::Serializer;
use crab_nbt::{Nbt, NbtCompound, NbtTag};

#[test]
fn unit_variant_test_enum_unit_variant() {
    let mut s = Serializer::new(None);
    s.serialize_struct().unwrap();
    s.begin_field("action");
    s.serialize_str("open_url").unwrap();
    s.begin_field("value");
    s.serialize_str("test").unwrap();
    s.end_compound();
    assert_eq!(
        s.into_output().as_slice(),
        b"\n\x08\0\x06action\0\x08open_url\x08\0\x05value\0\x04test\0"
    );
}

#[test]
fn booleans_encode_as_bytes() {
    let mut s = Serializer::new(Some("r".to_string()));
    s.serialize_struct().unwrap();
    s.begin_field("t");
    s.serialize_bool(true).unwrap();
    s.begin_field("f");
    s.serialize_bool(false).unwrap();
    s.end_compound();
    let bytes = s.into_output();
    let doc = Nbt::read(&bytes).unwrap();
    assert_eq!(doc.name, "r");
    assert_eq!(doc.root_tag.get("t"), Some(&NbtTag::Byte(1)));
    assert_eq!(doc.root_tag.get("f"), Some(&NbtTag::Byte(0)));
}

#[test]
fn empty_sequence_writes_end_id_and_zero() {
    let mut s = Serializer::new(None);
    s.serialize_struct().unwrap();
    s.begin_field("l");
    s.serialize_seq(Some(0)).unwrap();
    s.end_compound();
    assert_eq!(s.into_output(), vec![10, 9, 0, 1, b'l', 0, 0, 0, 0, 0, 0]);
}

#[test]
fn sequences_and_typed_arrays() {
    let mut s = Serializer::new(None);
    s.serialize_struct().unwrap();
    s.begin_field("list");
    s.serialize_seq(Some(2)).unwrap();
    s.serialize_i16(1).unwrap();
    s.end_element();
    s.serialize_i16(2).unwrap();
    s.end_element();
    s.begin_field("array");
    s.begin_array("nbt_array", "int").unwrap();
    s.serialize_seq(Some(2)).unwrap();
    s.serialize_i32(5).unwrap();
    s.end_element();
    s.serialize_i32(6).unwrap();
    s.end_element();
    s.begin_field("subs");
    s.serialize_seq(Some(1)).unwrap();
    s.serialize_struct().unwrap();
    s.begin_field("int");
    s.serialize_i32(5).unwrap();
    s.end_compound();
    s.end_element();
    s.end_compound();
    let doc = Nbt::read_unnamed(&s.into_output()).unwrap();
    let mut sub = NbtCompound::new();
    sub.put("int".to_string(), NbtTag::Int(5));
    let mut expected = NbtCompound::new();
    expected.put("list".to_string(), NbtTag::List(vec![NbtTag::Short(1), NbtTag::Short(2)]));
    expected.put("array".to_string(), NbtTag::IntArray(vec![5, 6]));
    expected.put("subs".to_string(), NbtTag::List(vec![NbtTag::Compound(sub)]));
    assert_eq!(doc.root_tag, expected);
}

#[test]
fn map_keys_name_the_next_value() {
    let mut s = Serializer::new(None);
    s.serialize_struct().unwrap();
    s.begin_key();
    s.serialize_str("k").unwrap();
    s.serialize_i64(-1).unwrap();
    s.begin_key();
    assert!(matches!(s.serialize_i32(3), Err(Error::SerdeError(_))));
    s.end_compound();
}

#[test]
fn encoder_refusals() {
    let mut s = Serializer::new(None);
    assert!(matches!(s.serialize_i32(1), Err(Error::SerdeError(_))));
    s.serialize_struct().unwrap();
    s.begin_field("x");
    assert!(matches!(s.serialize_seq(None), Err(Error::SerdeError(_))));
    assert!(matches!(s.begin_array("other", "int"), Err(Error::SerdeError(_))));
    s.begin_array("nbt_array", "short").unwrap();
    assert!(matches!(s.serialize_seq(Some(1)), Err(Error::SerdeError(_))));
}

#[test]
fn decoder_walks_a_document() {
    let mut root = NbtCompound::new();
    root.put("flag".to_string(), NbtTag::Byte(2));
    root.put("list".to_string(), NbtTag::List(vec![NbtTag::Int(4), NbtTag::Int(5)]));
    root.put("name".to_string(), NbtTag::String("x".to_string()));
    let bytes = Nbt::new("root".to_string(), root).write();

    let mut de = Deserializer::new(&bytes, true);
    de.begin_map().unwrap();
    assert_eq!(de.next_key(), Ok(true));
    assert!(matches!(de.next_value(), Ok(Value::Name(n)) if n == "flag"));
    de.begin_value();
    assert_eq!(de.read_bool(), Ok(true));

    assert_eq!(de.next_key(), Ok(true));
    assert!(matches!(de.read_name(), Ok(n) if n == "list"));
    de.begin_value();
    let (elem, len) = match de.next_value() {
        Ok(Value::List { elem, len }) => (elem, len),
        other => panic!("unexpected {:?}", other),
    };
    assert_eq!((elem, len), (3, 2));
    let mut items = ListAccess::new(elem, len);
    let mut seen = Vec::new();
    while items.next_element(&mut de) {
        match de.next_value() {
            Ok(Value::Tag(t)) => seen.push(t),
            other => panic!("unexpected {:?}", other),
        }
    }
    assert_eq!(seen, vec![NbtTag::Int(4), NbtTag::Int(5)]);
    assert_eq!(items.size_hint(), 0);

    assert_eq!(de.next_key(), Ok(true));
    de.next_value().unwrap();
    de.begin_value();
    // a boolean requested at a non-Byte value reads as false and consumes nothing
    assert_eq!(de.read_bool(), Ok(false));
    assert!(matches!(de.next_value(), Ok(Value::Tag(NbtTag::String(s))) if s == "x"));
    assert_eq!(de.next_key(), Ok(false));
    assert_eq!(de.position(), bytes.len());
}

#[test]
fn decoder_checks_the_root_id() {
    let mut de = Deserializer::new(&[3, 0, 0], false);
    assert_eq!(de.begin_map(), Err(Error::NoRootCompound(3)));
}

#[test]
fn decoder_hands_out_several_compound_elements() {
    let mut a = NbtCompound::new();
    a.put("k".to_string(), NbtTag::Int(1));
    let mut b = NbtCompound::new();
    b.put("k".to_string(), NbtTag::Int(2));
    let mut root = NbtCompound::new();
    root.put("l".to_string(), NbtTag::List(vec![NbtTag::Compound(a), NbtTag::Compound(b)]));
    let bytes = Nbt::new(String::new(), root).write_unnamed();

    let mut de = Deserializer::new(&bytes, false);
    de.begin_map().unwrap();
    assert_eq!(de.next_key(), Ok(true));
    de.read_name().unwrap();
    de.begin_value();
    let mut items = match de.next_value() {
        Ok(Value::List { elem, len }) => ListAccess::new(elem, len),
        other => panic!("unexpected {:?}", other),
    };
    let mut values = Vec::new();
    while items.next_element(&mut de) {
        assert!(matches!(de.next_value(), Ok(Value::Compound)));
        de.begin_map().unwrap();
        while de.next_key().unwrap() {
            assert!(matches!(de.next_value(), Ok(Value::Name(n)) if n == "k"));
            de.begin_value();
            values.push(de.next_value().unwrap());
        }
    }
    assert!(matches!(&values[..], [Value::Tag(NbtTag::Int(1)), Value::Tag(NbtTag::Int(2))]));
    assert_eq!(de.next_key(), Ok(false));
}

#[test]
fn truncated_list_header_reports_the_failing_read() {
    let mut de = Deserializer::new(&[3, 0, 0], false);
    de.begin_element(9);
    assert_eq!(de.next_value().unwrap_err(), Error::NotEnoughBytes { requested: 4, available: 2 });
}
