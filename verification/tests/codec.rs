//! Codec behaviour: byte-exact round trips for every value kind, the byte
//! count agreement between encoder and decoder, idempotent re-encoding, and
//! each decode error on an input that provokes it.

use karabo_hash::attributes::Attributes;
use karabo_hash::binary_readers::{read_hash, ByteReader};
use karabo_hash::binary_writers::write_hash;
use karabo_hash::schema::Schema;
use karabo_hash::types::HashValue;
use karabo_hash::wire::{DecodeError, EncodeError};

fn round_trip(hash: &karabo_hash::hash::Hash) -> (Vec<u8>, karabo_hash::hash::Hash) {
    let mut stream: Vec<u8> = Vec::new();
    let size = write_hash(&mut stream, hash).unwrap();
    assert_eq!(size, stream.len());
    let mut read_buf = ByteReader::new(stream.as_slice());
    let decoded = read_hash(&mut read_buf).unwrap();
    // the decoder consumes exactly the bytes the encoder reported
    assert_eq!(read_buf.position(), size);
    (stream, decoded)
}

#[test]
fn test_hash_round_chars() {
    let mut hash = karabo_hash::hash::Hash::new();
    assert!(hash.is_empty());
    hash.insert("char", HashValue::Char(b'a'));
    let vc = br#"abcdefghijklmno"#.to_vec();
    hash.insert("vchar", HashValue::VectorChar(vc));
    hash.insert("bool", HashValue::Bool(false));
    assert_eq!(hash.keys().len(), 3);

    let mut stream: Vec<u8> = Vec::new();
    let size = write_hash(&mut stream, &hash).unwrap();
    assert_eq!(size, stream.len());
    let mut read_buf = ByteReader::new(stream.as_slice());
    let read_hash_value = read_hash(&mut read_buf).unwrap();
    assert_eq!(read_hash_value.keys().len(), 3);
    assert_eq!(read_hash_value.keys(), vec!["char", "vchar", "bool"]);
    assert_eq!(read_hash_value, hash);
    let mut iter = hash.iter();
    assert_eq!("char", iter.next().unwrap().key);
    assert_eq!("vchar", iter.next().unwrap().key);
    assert_eq!("bool", iter.next().unwrap().key);
}

#[test]
fn scalar_fidelity() {
    let mut hash = karabo_hash::hash::Hash::new();
    hash.insert("i8", HashValue::Int8(-1));
    hash.insert("u8", HashValue::UInt8(250));
    hash.insert("i16", HashValue::Int16(-200));
    hash.insert("u16", HashValue::UInt16(599));
    hash.insert("i32", HashValue::Int32(12));
    hash.insert("u32", HashValue::UInt32(12));
    hash.insert("i64", HashValue::Int64(-12));
    hash.insert("u64", HashValue::UInt64(12));
    hash.insert("f32", HashValue::Float32((12.0f32).to_bits()));
    hash.insert("f64", HashValue::Float64((200.0f64).to_bits()));
    let (_, decoded) = round_trip(&hash);
    assert_eq!(decoded, hash);
    assert_eq!(decoded.index("i8").as_i8().unwrap(), -1i8);
    assert_eq!(decoded.index("u8").as_u8().unwrap(), 250u8);
    assert_eq!(decoded.index("i16").as_i16().unwrap(), -200i16);
    assert_eq!(decoded.index("u16").as_u16().unwrap(), 599u16);
    assert_eq!(decoded.index("i32").as_i32().unwrap(), 12i32);
    assert_eq!(decoded.index("u32").as_u32().unwrap(), 12u32);
    assert_eq!(decoded.index("i64").as_i64().unwrap(), -12i64);
    assert_eq!(decoded.index("u64").as_u64().unwrap(), 12u64);
    assert_eq!(f32::from_bits(decoded.index("f32").as_f32_bits().unwrap()), 12.0f32);
    assert_eq!(f64::from_bits(decoded.index("f64").as_f64_bits().unwrap()), 200.0f64);
}

#[test]
fn vector_round_trip() {
    let mut hash = karabo_hash::hash::Hash::new();
    hash.insert("vb", HashValue::VectorBool(vec![true, false, true]));
    hash.insert("vc", HashValue::VectorChar(vec![b'x', b'y']));
    hash.insert("vu8", HashValue::VectorUInt8(vec![0, 127, 255]));
    hash.insert("vi8", HashValue::VectorInt8(vec![-128, -1, 0, 127]));
    hash.insert("vu16", HashValue::VectorUInt16(vec![0, 599, 65535]));
    hash.insert("vi16", HashValue::VectorInt16(vec![-32768, -200, 32767]));
    hash.insert("vu32", HashValue::VectorUInt32(vec![0, 12, u32::MAX]));
    hash.insert("vi32", HashValue::VectorInt32(vec![i32::MIN, 12, i32::MAX]));
    hash.insert("vu64", HashValue::VectorUInt64(vec![0, 12, u64::MAX]));
    hash.insert("vi64", HashValue::VectorInt64(vec![i64::MIN, -12, i64::MAX]));
    hash.insert(
        "vf32",
        HashValue::VectorFloat32(vec![(1.5f32).to_bits(), (-0.25f32).to_bits()]),
    );
    hash.insert(
        "vf64",
        HashValue::VectorFloat64(vec![(200.0f64).to_bits(), (1e-9f64).to_bits()]),
    );
    hash.insert("empty", HashValue::VectorUInt16(Vec::new()));
    let (_, decoded) = round_trip(&hash);
    assert_eq!(decoded, hash);
    match decoded.index("vi16") {
        HashValue::VectorInt16(v) => assert_eq!(*v, vec![-32768i16, -200, 32767]),
        _ => panic!("wrong kind under vi16"),
    }
}

#[test]
fn string_round_trip() {
    let mut hash = karabo_hash::hash::Hash::new();
    hash.insert("s", HashValue::String(String::from("grüße, καλημέρα")));
    hash.insert("empty", HashValue::String(String::new()));
    hash.insert(
        "vs",
        HashValue::VectorString(vec![String::from("one"), String::new(), String::from("dreißig")]),
    );
    let (_, decoded) = round_trip(&hash);
    assert_eq!(decoded, hash);
    match decoded.index("vs") {
        HashValue::VectorString(v) => {
            assert_eq!(v.len(), 3);
            assert_eq!(v[2], "dreißig");
        },
        _ => panic!("wrong kind under vs"),
    }
}

#[test]
fn nested_round_trip() {
    let mut inner = karabo_hash::hash::Hash::new();
    inner.insert("f64", HashValue::Float64((200.0f64).to_bits()));
    inner.insert("name", HashValue::String(String::from("motor")));
    let mut second = karabo_hash::hash::Hash::new();
    second.insert("on", HashValue::Bool(true));
    let mut shape = karabo_hash::hash::Hash::new();
    shape.insert("width", HashValue::UInt32(640));

    let mut attrs = Attributes::new();
    attrs.insert("unit", HashValue::String(String::from("mm")));
    attrs.insert("scale", HashValue::Float32((2.0f32).to_bits()));

    let mut hash = karabo_hash::hash::Hash::new();
    hash.insert("node", HashValue::Hash(inner));
    hash.insert("vhash", HashValue::VectorHash(vec![second, karabo_hash::hash::Hash::new()]));
    hash.insert(
        "schema",
        HashValue::Schema(Schema::new(String::from("SimpleSchema"), shape)),
    );
    hash.insert_attrs("annotated", HashValue::Int32(7), attrs);

    let (bytes, decoded) = round_trip(&hash);
    assert_eq!(decoded, hash);
    assert_eq!(decoded.index("node.f64").as_f64_bits().unwrap(), (200.0f64).to_bits());
    let schema = decoded.index("schema").as_schema().unwrap();
    assert_eq!(schema.class_id, "SimpleSchema");
    assert_eq!(schema.hash.index("width").as_u32().unwrap(), 640u32);
    let read_attrs = decoded.get_attributes("annotated").unwrap();
    assert_eq!(read_attrs.len(), 2);
    assert_eq!(read_attrs.keys(), vec!["unit", "scale"]);

    // idempotence: re-encoding the decoded Hash reproduces the bytes
    let mut second_stream: Vec<u8> = Vec::new();
    let size = write_hash(&mut second_stream, &decoded).unwrap();
    assert_eq!(size, bytes.len());
    assert_eq!(second_stream, bytes);
}

#[test]
fn decode_rejects_truncated_stream() {
    let mut hash = karabo_hash::hash::Hash::new();
    hash.insert("k", HashValue::UInt32(5));
    let (bytes, _) = round_trip(&hash);
    for cut in 0..bytes.len() {
        let mut read_buf = ByteReader::new(&bytes[..cut]);
        assert_eq!(read_hash(&mut read_buf).unwrap_err(), DecodeError::Truncated);
    }
}

#[test]
fn decode_rejects_unknown_type_code() {
    // one key "k" announcing the reserved type code 24
    let mut bytes: Vec<u8> = Vec::new();
    bytes.extend_from_slice(&[1, 0, 0, 0]);
    bytes.push(1);
    bytes.push(b'k');
    bytes.extend_from_slice(&[24, 0, 0, 0]);
    bytes.extend_from_slice(&[0, 0, 0, 0]);
    let mut read_buf = ByteReader::new(bytes.as_slice());
    assert_eq!(
        read_hash(&mut read_buf).unwrap_err(),
        DecodeError::UnknownTypeCode(24)
    );
}

#[test]
fn decode_rejects_invalid_utf8_key() {
    // one key of length 1 whose byte 0xFF is not valid UTF-8
    let mut bytes: Vec<u8> = Vec::new();
    bytes.extend_from_slice(&[1, 0, 0, 0]);
    bytes.push(1);
    bytes.push(0xFF);
    bytes.extend_from_slice(&[0, 0, 0, 0]);
    bytes.extend_from_slice(&[0, 0, 0, 0]);
    bytes.push(1);
    let mut read_buf = ByteReader::new(bytes.as_slice());
    assert_eq!(read_hash(&mut read_buf).unwrap_err(), DecodeError::InvalidUtf8);
}

#[test]
fn decode_rejects_invalid_utf8_string() {
    // one key "s" holding a string whose single byte 0xC0 is invalid UTF-8
    let mut bytes: Vec<u8> = Vec::new();
    bytes.extend_from_slice(&[1, 0, 0, 0]);
    bytes.push(1);
    bytes.push(b's');
    bytes.extend_from_slice(&[28, 0, 0, 0]);
    bytes.extend_from_slice(&[0, 0, 0, 0]);
    bytes.extend_from_slice(&[1, 0, 0, 0]);
    bytes.push(0xC0);
    let mut read_buf = ByteReader::new(bytes.as_slice());
    assert_eq!(read_hash(&mut read_buf).unwrap_err(), DecodeError::InvalidUtf8);
}

#[test]
fn encode_rejects_overlong_key() {
    let long_key: String = std::iter::repeat('k').take(256).collect();
    let mut hash = karabo_hash::hash::Hash::new();
    hash.insert(long_key.as_str(), HashValue::Bool(true));
    let mut stream: Vec<u8> = Vec::new();
    assert_eq!(
        write_hash(&mut stream, &hash).unwrap_err(),
        EncodeError::KeyTooLong
    );
    // a refused encode leaves the output untouched
    assert!(stream.is_empty());
}

#[test]
fn empty_hash_round_trip() {
    let hash = karabo_hash::hash::Hash::new();
    let (bytes, decoded) = round_trip(&hash);
    assert_eq!(bytes, vec![0, 0, 0, 0]);
    assert!(decoded.is_empty());
}

#[test]
fn duplicate_wire_key_overwrites_in_place() {
    // a hand-built stream carrying the key "a" twice: first as UInt8(1),
    // then as UInt8(2); the decoder keeps one entry with the later value
    let mut bytes: Vec<u8> = Vec::new();
    bytes.extend_from_slice(&[2, 0, 0, 0]);
    for v in [1u8, 2u8] {
        bytes.push(1);
        bytes.push(b'a');
        bytes.extend_from_slice(&[6, 0, 0, 0]);
        bytes.extend_from_slice(&[0, 0, 0, 0]);
        bytes.push(v);
    }
    let mut read_buf = ByteReader::new(bytes.as_slice());
    let decoded = read_hash(&mut read_buf).unwrap();
    assert_eq!(decoded.len(), 1);
    assert_eq!(decoded.index("a").as_u8().unwrap(), 2u8);
}

#[test]
fn attribute_values_travel_on_the_wire() {
    // a wrapper handing back its argument unchanged would lose this: the
    // attribute bytes sit between the key and the node value
    let mut attrs = Attributes::new();
    attrs.insert("limit", HashValue::UInt16(599));
    let mut hash = karabo_hash::hash::Hash::new();
    hash.insert_attrs("k", HashValue::Bool(false), attrs);
    let (_, decoded) = round_trip(&hash);
    let back = decoded.get_attributes("k").unwrap();
    assert_eq!(back.get("limit").unwrap().as_u16().unwrap(), 599u16);
}
