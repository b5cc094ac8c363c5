//! Container semantics: ordered-map behaviour, overwrite in place, dotted
//! lookup, equality, and the fatal/non-fatal access distinction.

use karabo_hash::attributes::Attributes;
use karabo_hash::types::HashValue;

#[test]
fn test_equal() {
    // same key different type
    let mut hash = karabo_hash::hash::Hash::new();
    hash.insert("a", HashValue::Char(b'a'));
    let mut hash2 = karabo_hash::hash::Hash::new();
    assert!(hash != hash2);
    hash2.insert("a", HashValue::UInt16(42));
    assert!(hash != hash2);
    // same key same type different attribute
    let mut hash = karabo_hash::hash::Hash::new();
    let mut attrs = Attributes::new();
    attrs.insert("attr1", HashValue::UInt32(0));
    hash.insert_attrs("a", HashValue::Char(b'a'), attrs);
    let mut hash2 = karabo_hash::hash::Hash::new();
    let mut attrs2 = Attributes::new();
    attrs2.insert("attr2", HashValue::UInt32(0));
    hash2.insert_attrs("a", HashValue::Char(b'a'), attrs2);
    assert!(hash != hash2);
    let mut hash2 = karabo_hash::hash::Hash::new();
    hash2.insert("a", HashValue::Char(b'a'));
    assert!(hash != hash2);
    // same key same type same attribute
    // different attribute type
    let mut hash = karabo_hash::hash::Hash::new();
    let mut attrs = Attributes::new();
    attrs.insert("attr1", HashValue::UInt32(0));
    hash.insert_attrs("a", HashValue::Char(b'a'), attrs);
    let mut hash2 = karabo_hash::hash::Hash::new();
    let mut attrs2 = Attributes::new();
    attrs2.insert("attr1", HashValue::UInt16(0));
    hash2.insert_attrs("a", HashValue::Char(b'a'), attrs2);
    assert!(hash != hash2);
}

#[test]
fn test_hash_getter_setter() {
    let mut hash = karabo_hash::hash::Hash::new();
    assert!(hash.is_empty());
    hash.insert("a", HashValue::UInt8(10));
    let val = hash.index("a").as_u8().unwrap();
    assert_eq!(val, 10u8);
    assert_eq!(hash.len(), 1);
    hash.insert("a", HashValue::Int8(-10));
    let val = hash.index("a").as_i8().unwrap();
    assert_eq!(val, -10i8);
    assert_eq!(hash.len(), 1);
}

#[test]
#[should_panic]
fn test_invalid_key() {
    let hash = karabo_hash::hash::Hash::new();
    let _ = hash.index("missing_key");
}

#[test]
fn overwrite_keeps_one_entry_with_new_value() {
    // inserting "a" as a char then re-inserting "a" as a 16-bit value
    // leaves exactly one entry holding the new value
    let mut hash = karabo_hash::hash::Hash::new();
    hash.insert("a", HashValue::Char(b'a'));
    hash.insert("a", HashValue::UInt16(42));
    assert_eq!(hash.len(), 1);
    assert_eq!(hash.index("a").as_u16().unwrap(), 42u16);
    assert!(hash.index("a").as_u8().is_none());
}

#[test]
fn overwrite_preserves_position() {
    let mut hash = karabo_hash::hash::Hash::new();
    hash.insert("x", HashValue::UInt8(1));
    hash.insert("y", HashValue::UInt8(2));
    hash.insert("z", HashValue::UInt8(3));
    hash.insert("y", HashValue::Int64(-5));
    assert_eq!(hash.keys(), vec!["x", "y", "z"]);
    assert_eq!(hash.len(), 3);
    assert_eq!(hash.index("y").as_i64().unwrap(), -5i64);
}

#[test]
fn dotted_path_matches_nested_lookup() {
    let mut inner = karabo_hash::hash::Hash::new();
    inner.insert("f64", HashValue::Float64((200.0f64).to_bits()));
    let inner_direct = inner.get("f64").unwrap().as_f64_bits().unwrap();
    let mut hash = karabo_hash::hash::Hash::new();
    hash.insert("node", HashValue::Hash(inner));
    let via_path = hash.get("node.f64").unwrap().as_f64_bits().unwrap();
    assert_eq!(via_path, inner_direct);
    assert_eq!(f64::from_bits(via_path), 200.0f64);
    // a missing segment or a non-Hash intermediate is a quiet miss
    assert!(hash.get("node.f32").is_none());
    assert!(hash.get("absent.f64").is_none());
    hash.insert("leaf", HashValue::UInt8(1));
    assert!(hash.get("leaf.f64").is_none());
}

#[test]
fn get_on_missing_key_is_quiet() {
    let mut hash = karabo_hash::hash::Hash::new();
    hash.insert("present", HashValue::Bool(true));
    assert!(hash.get("missing_key").is_none());
    assert!(hash.get("present").is_some());
}

#[test]
fn attributes_are_an_ordered_map() {
    let mut attrs = Attributes::new();
    assert!(attrs.is_empty());
    assert_eq!(attrs.len(), 0);
    attrs.insert("b", HashValue::UInt8(1));
    attrs.insert("a", HashValue::UInt8(2));
    attrs.insert("b", HashValue::Int32(-7));
    assert_eq!(attrs.len(), 2);
    assert_eq!(attrs.keys(), vec!["b", "a"]);
    assert_eq!(attrs.get("b").unwrap().as_i32().unwrap(), -7i32);
    assert_eq!(attrs.get("a").unwrap().as_u8().unwrap(), 2u8);
    assert!(attrs.get("BOBIsNotAnAttribute").is_none());
    let mut it = attrs.iter();
    assert_eq!(it.next().unwrap().key, "b");
    assert_eq!(it.next().unwrap().key, "a");
    assert!(it.next().is_none());
}

#[test]
fn equal_hashes_with_equal_attributes_compare_equal() {
    let mut a1 = Attributes::new();
    a1.insert("unit", HashValue::String(String::from("mm")));
    let mut h1 = karabo_hash::hash::Hash::new();
    h1.insert_attrs("pos", HashValue::Int32(5), a1);
    let mut a2 = Attributes::new();
    a2.insert("unit", HashValue::String(String::from("mm")));
    let mut h2 = karabo_hash::hash::Hash::new();
    h2.insert_attrs("pos", HashValue::Int32(5), a2);
    assert!(h1 == h2);
}

#[test]
fn get_mut_updates_value_in_place() {
    let mut hash = karabo_hash::hash::Hash::new();
    hash.insert("x", HashValue::UInt8(1));
    hash.insert("y", HashValue::UInt8(2));
    hash.insert("z", HashValue::UInt8(3));
    {
        let v = hash.get_mut("y").unwrap();
        assert_eq!(v.as_u8().unwrap(), 2u8);
        *v = HashValue::String(String::from("replaced"));
    }
    assert_eq!(hash.keys(), vec!["x", "y", "z"]);
    match hash.index("y") {
        HashValue::String(s) => assert_eq!(s, "replaced"),
        _ => panic!("wrong kind under y"),
    }
    assert!(hash.get_mut("missing").is_none());
}

#[test]
fn get_mut_attributes_updates_metadata_in_place() {
    let mut hash = karabo_hash::hash::Hash::new();
    hash.insert("k", HashValue::Bool(true));
    {
        let attrs = hash.get_mut_attributes("k").unwrap();
        attrs.insert("unit", HashValue::String(String::from("V")));
    }
    assert_eq!(hash.index("k").as_u8(), None);
    assert!(hash.index("k").as_hash().is_none());
    let attrs = hash.get_attributes("k").unwrap();
    match attrs.get("unit").unwrap() {
        HashValue::String(s) => assert_eq!(s, "V"),
        _ => panic!("wrong kind under unit"),
    }
    assert!(hash.get_mut_attributes("absent").is_none());
}

#[test]
fn attributes_get_mut_updates_in_place() {
    let mut attrs = Attributes::new();
    attrs.insert("first", HashValue::UInt8(1));
    attrs.insert("second", HashValue::UInt8(2));
    {
        let v = attrs.get_mut("first").unwrap();
        *v = HashValue::Int64(-9);
    }
    assert_eq!(attrs.keys(), vec!["first", "second"]);
    assert_eq!(attrs.get("first").unwrap().as_i64().unwrap(), -9i64);
    assert!(attrs.get_mut("third").is_none());
}
