use crab_nbt::error::Error;
use crab_nbt::{Nbt, NbtCompound, NbtTag};

fn compound(entries: Vec<(&str, NbtTag)>) -> NbtCompound {
    let mut c = NbtCompound::new();
    for (k, v) in entries {
        c.put(k.to_string(), v);
    }
    c
}

#[test]
fn serialize_data_string() {
    let test_string = b"\0\x0cHow are you?"; // Length (12) + String
    let serialized = NbtTag::String("How are you?".to_string()).serialize_data();
    assert_eq!(serialized.to_vec(), test_string)
}

#[test]
fn serialize_data() {
    let serialized = NbtTag::Long(2137).serialize_data();
    assert_eq!(serialized.to_vec(), 2137_i64.to_be_bytes().to_vec())
}

#[test]
fn network_nbt() {
    let expected_nbt = Nbt::new(
        String::new(),
        compound(vec![
            ("int", NbtTag::Int(1)),
            ("nested", NbtTag::Compound(compound(vec![("key", NbtTag::String("value".to_string()))]))),
        ]),
    );

    let bytes = expected_nbt.write_unnamed();

    let nbt = Nbt::read_unnamed(&bytes).unwrap();

    assert_eq!(nbt, expected_nbt);
}

#[test]
fn correct_end_tags() {
    let heightmap = Nbt::new(String::new(), compound(vec![("WORLD_SURFACE", NbtTag::LongArray(vec![]))]));

    let expected: &[u8] = b"\n\x0c\0\rWORLD_SURFACE\0\0\0\0\0";
    assert_eq!(heightmap.write_unnamed().as_slice(), expected)
}

#[test]
fn nested_tag_compounds() {
    let tree = Nbt::new(
        String::new(),
        compound(vec![
            (
                "level1",
                NbtTag::Compound(compound(vec![(
                    "nested",
                    NbtTag::Compound(compound(vec![("key", NbtTag::String("value".to_string()))])),
                )])),
            ),
            (
                "list",
                NbtTag::List(vec![NbtTag::Compound(compound(vec![("key", NbtTag::String("value".to_string()))]))]),
            ),
        ]),
    );

    let bytes = tree.write_unnamed();

    let deserialized_nbt = Nbt::read_unnamed(&bytes).unwrap();

    assert_eq!(deserialized_nbt, tree);
}

#[test]
fn named_document_round_trip_and_framing() {
    let doc = Nbt::new(
        "Level".to_string(),
        compound(vec![
            ("b", NbtTag::Byte(-3)),
            ("s", NbtTag::Short(-300)),
            ("f", NbtTag::Float(1.5f32.to_bits())),
            ("d", NbtTag::Double((-2.25f64).to_bits())),
            ("ba", NbtTag::ByteArray(vec![0, 255, 7])),
            ("ia", NbtTag::IntArray(vec![1906, -165, -1073741824])),
            ("la", NbtTag::LongArray(vec![576460752303423488, -1])),
            ("l", NbtTag::List(vec![NbtTag::Short(1), NbtTag::Short(2)])),
            ("e", NbtTag::List(vec![])),
        ]),
    );
    let bytes = doc.write();
    assert_eq!(&bytes[..9], b"\x0a\x00\x05Level\x01");
    let back = Nbt::read(&bytes).unwrap();
    assert_eq!(back, doc);
    assert_eq!(back.root_tag.get_float("f").map(f32::from_bits), Some(1.5));
    assert_eq!(back.root_tag.get_double("d").map(f64::from_bits), Some(-2.25));
    assert_eq!(back.root_tag.get_int_array("ia"), Some(&vec![1906, -165, -1073741824]));

    let unnamed = Nbt::read_unnamed(&doc.write_unnamed()).unwrap();
    assert_eq!(unnamed.name, "");
    assert_eq!(unnamed.root_tag, doc.root_tag);
}

#[test]
fn empty_list_payload_is_end_id_and_zero_count() {
    assert_eq!(NbtTag::List(vec![]).serialize_data(), vec![0, 0, 0, 0, 0]);
    assert_eq!(NbtTag::List(vec![NbtTag::Int(7)]).serialize_data(), vec![3, 0, 0, 0, 1, 0, 0, 0, 7]);
    assert_eq!(NbtTag::Int(7).serialize(), vec![3, 0, 0, 0, 7]);
}

#[test]
fn put_keeps_the_first_value() {
    let mut c = NbtCompound::new();
    c.put("k".to_string(), NbtTag::Int(1));
    c.put("k".to_string(), NbtTag::Int(2));
    assert_eq!(c.get("k"), Some(&NbtTag::Int(1)));
    assert_eq!(c.child_tags.len(), 1);
}

#[test]
fn typed_getters_miss_on_absent_or_other_kind() {
    let c = compound(vec![("x", NbtTag::Byte(0)), ("s", NbtTag::String("v".to_string()))]);
    assert_eq!(c.get_byte("x"), Some(0));
    assert_eq!(c.get_bool("x"), Some(false));
    assert_eq!(c.get_int("x"), None);
    assert_eq!(c.get_byte("y"), None);
    assert_eq!(c.get_string("s"), Some(&"v".to_string()));
    assert_eq!(c.get_compound("s"), None);
    assert_eq!(NbtTag::Byte(5).extract_bool(), Some(true));
    assert_eq!(NbtTag::Short(5).extract_bool(), None);
}

#[test]
fn supplementary_characters_use_surrogate_pairs() {
    let bytes = NbtTag::String("\u{1F600}".to_string()).serialize_data();
    assert_eq!(bytes, vec![0, 6, 0xed, 0xa0, 0xbd, 0xed, 0xb8, 0x80]);
    assert_eq!(NbtTag::deserialize_data(&bytes, 8), Ok(NbtTag::String("\u{1F600}".to_string())));
}

#[test]
fn invalid_text_is_rejected() {
    assert_eq!(NbtTag::deserialize_data(&[0, 2, 0xc3, 0x28], 8), Err(Error::InvalidJavaString));
}

#[test]
fn unknown_tag_id_is_rejected() {
    assert_eq!(NbtTag::deserialize_data(&[1, 2, 3], 13), Err(Error::UnknownTagId(13)));
    assert_eq!(NbtTag::deserialize(&[0x42]), Err(Error::UnknownTagId(0x42)));
}

#[test]
fn root_must_be_a_compound() {
    assert_eq!(Nbt::read(&[8, 0, 0]), Err(Error::NoRootCompound(8)));
    assert_eq!(Nbt::read_unnamed(&[]), Err(Error::NotEnoughBytes { requested: 1, available: 0 }));
}

#[test]
fn deep_nesting_is_refused() {
    let mut bytes = Vec::new();
    for _ in 0..600 {
        bytes.extend_from_slice(&[9, 0, 0, 0, 1]);
    }
    bytes.extend_from_slice(&[0, 0, 0, 0, 0]);
    assert_eq!(NbtTag::deserialize_data(&bytes, 9), Err(Error::NestingTooDeep { limit: 512 }));
}

#[test]
fn truncated_compound_strict_fails_lenient_keeps_prefix() {
    // root compound, entry Int "a" = 1, then an entry Int "b" whose payload is cut short
    let bytes = [10u8, 3, 0, 1, b'a', 0, 0, 0, 1, 3, 0, 1, b'b', 0, 0];
    assert_eq!(
        Nbt::read_unnamed(&bytes),
        Err(Error::NotEnoughBytes { requested: 4, available: 2 })
    );
    let lenient = Nbt::read_unnamed_lenient(&bytes).unwrap();
    let mut expected = NbtCompound::new();
    expected.put("a".to_string(), NbtTag::Int(1));
    assert_eq!(lenient.root_tag, expected);
}

#[test]
fn list_elements_carry_the_declared_type() {
    let bytes = [2u8, 0, 0, 0, 2, 0, 1, 0xff, 0xff];
    let t = NbtTag::deserialize_data(&bytes, 9).unwrap();
    assert_eq!(t, NbtTag::List(vec![NbtTag::Short(1), NbtTag::Short(-1)]));
    assert_eq!(t.get_type_id(), 9);
}

#[test]
fn from_entries_keeps_first_of_repeated_names() {
    let c = NbtCompound::from_entries(vec![
        ("a".to_string(), NbtTag::Int(1)),
        ("b".to_string(), NbtTag::Int(2)),
        ("a".to_string(), NbtTag::Int(3)),
    ]);
    assert_eq!(c.child_tags, vec![("a".to_string(), NbtTag::Int(1)), ("b".to_string(), NbtTag::Int(2))]);
    assert_eq!(c.serialize_content(), vec![3, 0, 1, b'a', 0, 0, 0, 1, 3, 0, 1, b'b', 0, 0, 0, 2, 0]);
}

#[test]
fn negative_counts_are_errors() {
    assert_eq!(NbtTag::deserialize_data(&[3, 0xff, 0xff, 0xff, 0xff], 9), Err(Error::NegativeLength(-1)));
    assert_eq!(NbtTag::deserialize_data(&[0xff, 0xff, 0xff, 0xfe], 7), Err(Error::NegativeLength(-2)));
    assert_eq!(NbtTag::deserialize_data(&[0x80, 0, 0, 0], 11), Err(Error::NegativeLength(i32::MIN)));
    assert_eq!(NbtTag::deserialize_data(&[0xff, 0xff, 0xff, 0xff], 12), Err(Error::NegativeLength(-1)));
}

#[test]
fn list_of_end_tags_round_trips() {
    let list = NbtTag::List(vec![NbtTag::End, NbtTag::End]);
    let bytes = list.serialize_data();
    assert_eq!(bytes, vec![0, 0, 0, 0, 2]);
    assert_eq!(NbtTag::deserialize_data(&bytes, 9), Ok(NbtTag::List(vec![NbtTag::End, NbtTag::End])));
    let mut root = NbtCompound::new();
    root.put("a".to_string(), NbtTag::List(vec![NbtTag::End]));
    let doc = Nbt::new("n".to_string(), root);
    assert_eq!(Nbt::read(&doc.write()), Ok(doc));
}

#[test]
fn nul_uses_the_two_byte_java_form() {
    let bytes = NbtTag::String("a\0b".to_string()).serialize_data();
    assert_eq!(bytes, vec![0, 4, b'a', 0xc0, 0x80, b'b']);
    assert_eq!(NbtTag::deserialize_data(&bytes, 8), Ok(NbtTag::String("a\0b".to_string())));
    assert_eq!(NbtTag::deserialize_data(&[0, 3, b'a', 0, b'b'], 8), Err(Error::InvalidJavaString));
    // four-byte UTF-8 is not modified UTF-8
    assert_eq!(NbtTag::deserialize_data(&[0, 4, 0xf0, 0x9f, 0x98, 0x80], 8), Err(Error::InvalidJavaString));
}

#[test]
fn conversions_and_extend() {
    assert_eq!(NbtTag::from(true), NbtTag::Byte(1));
    assert_eq!(NbtTag::from(false), NbtTag::Byte(0));
    assert_eq!(NbtTag::from(7i16), NbtTag::Short(7));
    assert_eq!(NbtTag::from(vec![1i64]), NbtTag::LongArray(vec![1]));
    assert_eq!(NbtTag::from("x".to_string()), NbtTag::String("x".to_string()));
    let mut c = NbtCompound::new();
    c.put("a".to_string(), NbtTag::from(1i32));
    c.extend(vec![("a".to_string(), NbtTag::Int(9)), ("b".to_string(), NbtTag::from(2i8))]);
    assert_eq!(c.child_tags, vec![("a".to_string(), NbtTag::Int(1)), ("b".to_string(), NbtTag::Byte(2))]);
}
