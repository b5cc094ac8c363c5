//! Byte-exact specification of the binary wire format.
//!
//! `enc_*` are total functions from models to the byte sequences the encoder
//! must produce; `*_encodable` delimit the models the format can carry (key
//! bytes fit one length byte, counts fit 32 bits).  `p_*` are the parsing
//! functions: the decoder's contract states that it returns exactly what
//! they describe, for every input.  All multi-byte integers are
//! little-endian.

use vstd::prelude::*;
use vstd::utf8::{decode_utf8, encode_utf8, valid_utf8};

use crate::model::{
    attr_insert, code_of, node_insert, AttrModel, NodeModel, SchemaModel, ValueModel,
};

verus! {

/// A failed decode: the input ended early, a key or string held invalid
/// UTF-8, or a type code is not one the format defines.
#[derive(Debug, PartialEq, Eq, Structural, Clone, Copy)]
pub enum DecodeError {
    Truncated,
    InvalidUtf8,
    UnknownTypeCode(u32),
}

/// A refused encode: a key's UTF-8 form is longer than 255 bytes, or a
/// count or byte length does not fit in 32 bits.
#[derive(Debug, PartialEq, Eq, Structural, Clone, Copy)]
pub enum EncodeError {
    KeyTooLong,
    Oversize,
}

/// The outcome of one specification-level parse: a value together with the
/// position just past its encoding, or the error that stops the decode.
pub enum Parsed<T> {
    Found(T, int),
    Fail(DecodeError),
}

// ---------------------------------------------------------------------------
// Little-endian integers
// ---------------------------------------------------------------------------

pub open spec fn u16_le(b0: u8, b1: u8) -> u16 {
    (b0 + 0x100 * b1) as u16
}

pub open spec fn u32_le(b0: u8, b1: u8, b2: u8, b3: u8) -> u32 {
    (u16_le(b0, b1) + 0x1_0000 * u16_le(b2, b3)) as u32
}

#[verifier::inline]
pub open spec fn u64_le(b0: u8, b1: u8, b2: u8, b3: u8, b4: u8, b5: u8, b6: u8, b7: u8) -> u64 {
    (u32_le(b0, b1, b2, b3) + 0x1_0000_0000 * u32_le(b4, b5, b6, b7)) as u64
}

pub open spec fn le16(v: u16) -> Seq<u8> {
    seq![(v % 0x100) as u8, (v / 0x100) as u8]
}

pub open spec fn le32(v: u32) -> Seq<u8> {
    le16((v % 0x1_0000) as u16) + le16((v / 0x1_0000) as u16)
}

pub open spec fn le64(v: u64) -> Seq<u8> {
    le32((v % 0x1_0000_0000) as u32) + le32((v / 0x1_0000_0000) as u32)
}

/// Two's-complement reinterpretations between same-width signed and
/// unsigned values.
pub open spec fn i8_of_u8(v: u8) -> i8 {
    if v < 0x80 {
        v as i8
    } else {
        (v - 0x100) as i8
    }
}

pub open spec fn u8_of_i8(v: i8) -> u8 {
    if v >= 0 {
        v as u8
    } else {
        (v + 0x100) as u8
    }
}

pub open spec fn i16_of_u16(v: u16) -> i16 {
    if v < 0x8000 {
        v as i16
    } else {
        (v - 0x1_0000) as i16
    }
}

pub open spec fn u16_of_i16(v: i16) -> u16 {
    if v >= 0 {
        v as u16
    } else {
        (v + 0x1_0000) as u16
    }
}

pub open spec fn i32_of_u32(v: u32) -> i32 {
    if v < 0x8000_0000 {
        v as i32
    } else {
        (v - 0x1_0000_0000) as i32
    }
}

pub open spec fn u32_of_i32(v: i32) -> u32 {
    if v >= 0 {
        v as u32
    } else {
        (v + 0x1_0000_0000) as u32
    }
}

pub open spec fn i64_of_u64(v: u64) -> i64 {
    if v < 0x8000_0000_0000_0000 {
        v as i64
    } else {
        (v - 0x1_0000_0000_0000_0000) as i64
    }
}

pub open spec fn u64_of_i64(v: i64) -> u64 {
    if v >= 0 {
        v as u64
    } else {
        (v + 0x1_0000_0000_0000_0000) as u64
    }
}

pub proof fn lemma_le16_roundtrip(v: u16)
    ensures
        le16(v).len() == 2,
        u16_le(le16(v)[0], le16(v)[1]) == v,
{
    vstd::arithmetic::div_mod::lemma_fundamental_div_mod(v as int, 0x100);
}

pub proof fn lemma_le32_roundtrip(v: u32)
    ensures
        le32(v).len() == 4,
        u32_le(le32(v)[0], le32(v)[1], le32(v)[2], le32(v)[3]) == v,
{
    lemma_le16_roundtrip((v % 0x1_0000) as u16);
    lemma_le16_roundtrip((v / 0x1_0000) as u16);
    vstd::arithmetic::div_mod::lemma_fundamental_div_mod(v as int, 0x1_0000);
}

pub proof fn lemma_le64_roundtrip(v: u64)
    ensures
        le64(v).len() == 8,
        u64_le(
            le64(v)[0],
            le64(v)[1],
            le64(v)[2],
            le64(v)[3],
            le64(v)[4],
            le64(v)[5],
            le64(v)[6],
            le64(v)[7],
        ) == v,
{
    lemma_le32_roundtrip((v % 0x1_0000_0000) as u32);
    lemma_le32_roundtrip((v / 0x1_0000_0000) as u32);
    vstd::arithmetic::div_mod::lemma_fundamental_div_mod(v as int, 0x1_0000_0000);
}

pub proof fn lemma_signed_roundtrips()
    ensures
        forall|v: i8| i8_of_u8(#[trigger] u8_of_i8(v)) == v,
        forall|v: i16| i16_of_u16(#[trigger] u16_of_i16(v)) == v,
        forall|v: i32| i32_of_u32(#[trigger] u32_of_i32(v)) == v,
        forall|v: i64| i64_of_u64(#[trigger] u64_of_i64(v)) == v,
{
}

// ---------------------------------------------------------------------------
// Encoding
// ---------------------------------------------------------------------------

/// A key on the wire: one length byte, then the key's UTF-8 bytes.
pub open spec fn enc_key(k: Seq<char>) -> Seq<u8> {
    seq![encode_utf8(k).len() as u8] + encode_utf8(k)
}

/// A string on the wire: a 32-bit byte length, then the UTF-8 bytes.
pub open spec fn enc_str(s: Seq<char>) -> Seq<u8> {
    le32(encode_utf8(s).len() as u32) + encode_utf8(s)
}

pub open spec fn enc_bools(s: Seq<bool>) -> Seq<u8> {
    Seq::new(s.len(), |i: int| if s[i] { 1u8 } else { 0u8 })
}

pub open spec fn enc_i8s(s: Seq<i8>) -> Seq<u8> {
    Seq::new(s.len(), |i: int| u8_of_i8(s[i]))
}

pub open spec fn enc_u16s(s: Seq<u16>) -> Seq<u8>
    decreases s.len(),
{
    if s.len() == 0 {
        Seq::empty()
    } else {
        le16(s[0]) + enc_u16s(s.drop_first())
    }
}

pub open spec fn enc_u32s(s: Seq<u32>) -> Seq<u8>
    decreases s.len(),
{
    if s.len() == 0 {
        Seq::empty()
    } else {
        le32(s[0]) + enc_u32s(s.drop_first())
    }
}

pub open spec fn enc_u64s(s: Seq<u64>) -> Seq<u8>
    decreases s.len(),
{
    if s.len() == 0 {
        Seq::empty()
    } else {
        le64(s[0]) + enc_u64s(s.drop_first())
    }
}

pub open spec fn enc_i16s(s: Seq<i16>) -> Seq<u8> {
    enc_u16s(s.map_values(|v: i16| u16_of_i16(v)))
}

pub open spec fn enc_i32s(s: Seq<i32>) -> Seq<u8> {
    enc_u32s(s.map_values(|v: i32| u32_of_i32(v)))
}

pub open spec fn enc_i64s(s: Seq<i64>) -> Seq<u8> {
    enc_u64s(s.map_values(|v: i64| u64_of_i64(v)))
}

pub open spec fn enc_strs(ss: Seq<Seq<char>>) -> Seq<u8>
    decreases ss.len(),
{
    if ss.len() == 0 {
        Seq::empty()
    } else {
        enc_str(ss[0]) + enc_strs(ss.drop_first())
    }
}

/// A Schema's wire bytes: the byte length of the class-id key plus nested
/// Hash, then those bytes.
pub open spec fn enc_schema(sc: SchemaModel) -> Seq<u8>
    decreases sc, 3int, 0nat,
{
    le32((enc_key(sc.class_id) + enc_hash(sc.hash)).len() as u32) + enc_key(sc.class_id)
        + enc_hash(sc.hash)
}

/// A value's wire bytes: scalars verbatim little-endian, vectors behind a
/// 32-bit element count, containers recursively.
pub open spec fn enc_value(v: ValueModel) -> Seq<u8>
    decreases v, 0int, 0nat,
{
    match v {
        ValueModel::Bool(x) => seq![if x { 1u8 } else { 0u8 }],
        ValueModel::VectorBool(s) => le32(s.len() as u32) + enc_bools(s),
        ValueModel::Char(x) => seq![x],
        ValueModel::VectorChar(s) => le32(s.len() as u32) + s,
        ValueModel::Int8(x) => seq![u8_of_i8(x)],
        ValueModel::VectorInt8(s) => le32(s.len() as u32) + enc_i8s(s),
        ValueModel::UInt8(x) => seq![x],
        ValueModel::VectorUInt8(s) => le32(s.len() as u32) + s,
        ValueModel::Int16(x) => le16(u16_of_i16(x)),
        ValueModel::VectorInt16(s) => le32(s.len() as u32) + enc_i16s(s),
        ValueModel::UInt16(x) => le16(x),
        ValueModel::VectorUInt16(s) => le32(s.len() as u32) + enc_u16s(s),
        ValueModel::Int32(x) => le32(u32_of_i32(x)),
        ValueModel::VectorInt32(s) => le32(s.len() as u32) + enc_i32s(s),
        ValueModel::UInt32(x) => le32(x),
        ValueModel::VectorUInt32(s) => le32(s.len() as u32) + enc_u32s(s),
        ValueModel::Int64(x) => le64(u64_of_i64(x)),
        ValueModel::VectorInt64(s) => le32(s.len() as u32) + enc_i64s(s),
        ValueModel::UInt64(x) => le64(x),
        ValueModel::VectorUInt64(s) => le32(s.len() as u32) + enc_u64s(s),
        ValueModel::Float32(x) => le32(x),
        ValueModel::VectorFloat32(s) => le32(s.len() as u32) + enc_u32s(s),
        ValueModel::Float64(x) => le64(x),
        ValueModel::VectorFloat64(s) => le32(s.len() as u32) + enc_u64s(s),
        ValueModel::String(s) => enc_str(s),
        ValueModel::VectorString(ss) => le32(ss.len() as u32) + enc_strs(ss),
        ValueModel::Hash(h) => enc_hash(h),
        ValueModel::VectorHash(hs) => le32(hs.len() as u32) + enc_hashes(hs),
        ValueModel::Schema(sc) => enc_schema(sc),
    }
}

/// An attribute on the wire: key, type code, value.
pub open spec fn enc_attr(a: AttrModel) -> Seq<u8>
    decreases a, 0int, 0nat,
{
    enc_key(a.key) + le32(code_of(a.value)) + enc_value(a.value)
}

pub open spec fn enc_attrs(attrs: Seq<AttrModel>) -> Seq<u8>
    decreases attrs, 1int, 0nat,
{
    if attrs.len() == 0 {
        Seq::empty()
    } else {
        enc_attr(attrs[0]) + enc_attrs(attrs.drop_first())
    }
}

/// A node on the wire: key, type code, attribute count, attributes, value.
pub open spec fn enc_node(n: NodeModel) -> Seq<u8>
    decreases n, 0int, 0nat,
{
    enc_key(n.key) + le32(code_of(n.value)) + le32(n.attrs.len() as u32) + enc_attrs(n.attrs)
        + enc_value(n.value)
}

pub open spec fn enc_nodes(nodes: Seq<NodeModel>) -> Seq<u8>
    decreases nodes, 1int, 0nat,
{
    if nodes.len() == 0 {
        Seq::empty()
    } else {
        enc_node(nodes[0]) + enc_nodes(nodes.drop_first())
    }
}

/// A Hash on the wire: a 32-bit key count, then its nodes in insertion
/// order.
pub open spec fn enc_hash(nodes: Seq<NodeModel>) -> Seq<u8>
    decreases nodes, 2int, 0nat,
{
    le32(nodes.len() as u32) + enc_nodes(nodes)
}

pub open spec fn enc_hashes(hs: Seq<Seq<NodeModel>>) -> Seq<u8>
    decreases hs, 3int, 0nat,
{
    if hs.len() == 0 {
        Seq::empty()
    } else {
        enc_hash(hs[0]) + enc_hashes(hs.drop_first())
    }
}

// ---------------------------------------------------------------------------
// Encodability
// ---------------------------------------------------------------------------

/// A key fits on the wire when its UTF-8 form fits the one length byte.
pub open spec fn key_encodable(k: Seq<char>) -> bool {
    encode_utf8(k).len() <= 255
}

pub open spec fn str_encodable(s: Seq<char>) -> bool {
    encode_utf8(s).len() <= u32::MAX
}

/// A value fits on the wire when every count and byte length in it fits its
/// 32-bit field and every key in it fits its length byte.
pub open spec fn value_encodable(v: ValueModel) -> bool
    decreases v, 0int,
{
    match v {
        ValueModel::Bool(_) => true,
        ValueModel::VectorBool(s) => s.len() <= u32::MAX,
        ValueModel::Char(_) => true,
        ValueModel::VectorChar(s) => s.len() <= u32::MAX,
        ValueModel::Int8(_) => true,
        ValueModel::VectorInt8(s) => s.len() <= u32::MAX,
        ValueModel::UInt8(_) => true,
        ValueModel::VectorUInt8(s) => s.len() <= u32::MAX,
        ValueModel::Int16(_) => true,
        ValueModel::VectorInt16(s) => s.len() <= u32::MAX,
        ValueModel::UInt16(_) => true,
        ValueModel::VectorUInt16(s) => s.len() <= u32::MAX,
        ValueModel::Int32(_) => true,
        ValueModel::VectorInt32(s) => s.len() <= u32::MAX,
        ValueModel::UInt32(_) => true,
        ValueModel::VectorUInt32(s) => s.len() <= u32::MAX,
        ValueModel::Int64(_) => true,
        ValueModel::VectorInt64(s) => s.len() <= u32::MAX,
        ValueModel::UInt64(_) => true,
        ValueModel::VectorUInt64(s) => s.len() <= u32::MAX,
        ValueModel::Float32(_) => true,
        ValueModel::VectorFloat32(s) => s.len() <= u32::MAX,
        ValueModel::Float64(_) => true,
        ValueModel::VectorFloat64(s) => s.len() <= u32::MAX,
        ValueModel::String(s) => str_encodable(s),
        ValueModel::VectorString(ss) => ss.len() <= u32::MAX && forall|i: int|
            0 <= i < ss.len() ==> str_encodable(#[trigger] ss[i]),
        ValueModel::Hash(h) => hash_encodable(h),
        ValueModel::VectorHash(hs) => hs.len() <= u32::MAX && forall|i: int|
            0 <= i < hs.len() ==> hash_encodable(#[trigger] hs[i]),
        ValueModel::Schema(sc) => schema_encodable(sc),
    }
}

pub open spec fn attr_encodable(a: AttrModel) -> bool
    decreases a, 0int,
{
    key_encodable(a.key) && value_encodable(a.value)
}

pub open spec fn node_encodable(n: NodeModel) -> bool
    decreases n, 0int,
{
    &&& key_encodable(n.key)
    &&& n.attrs.len() <= u32::MAX
    &&& forall|i: int| 0 <= i < n.attrs.len() ==> attr_encodable(#[trigger] n.attrs[i])
    &&& value_encodable(n.value)
}

pub open spec fn schema_encodable(sc: SchemaModel) -> bool
    decreases sc, 2int,
{
    key_encodable(sc.class_id) && hash_encodable(sc.hash) && enc_key(sc.class_id).len() + enc_hash(
        sc.hash,
    ).len() <= u32::MAX
}

pub open spec fn hash_encodable(nodes: Seq<NodeModel>) -> bool
    decreases nodes, 1int,
{
    nodes.len() <= u32::MAX && forall|i: int|
        0 <= i < nodes.len() ==> node_encodable(#[trigger] nodes[i])
}

// ---------------------------------------------------------------------------
// Parsing
// ---------------------------------------------------------------------------

pub open spec fn p_u8(b: Seq<u8>, pos: int) -> Parsed<u8> {
    if 0 <= pos && pos + 1 <= b.len() {
        Parsed::Found(b[pos], pos + 1)
    } else {
        Parsed::Fail(DecodeError::Truncated)
    }
}

pub open spec fn p_u16(b: Seq<u8>, pos: int) -> Parsed<u16> {
    if 0 <= pos && pos + 2 <= b.len() {
        Parsed::Found(u16_le(b[pos], b[pos + 1]), pos + 2)
    } else {
        Parsed::Fail(DecodeError::Truncated)
    }
}

pub open spec fn p_u32(b: Seq<u8>, pos: int) -> Parsed<u32> {
    if 0 <= pos && pos + 4 <= b.len() {
        Parsed::Found(u32_le(b[pos], b[pos + 1], b[pos + 2], b[pos + 3]), pos + 4)
    } else {
        Parsed::Fail(DecodeError::Truncated)
    }
}

pub open spec fn p_u64(b: Seq<u8>, pos: int) -> Parsed<u64> {
    if 0 <= pos && pos + 8 <= b.len() {
        Parsed::Found(
            u64_le(
                b[pos],
                b[pos + 1],
                b[pos + 2],
                b[pos + 3],
                b[pos + 4],
                b[pos + 5],
                b[pos + 6],
                b[pos + 7],
            ),
            pos + 8,
        )
    } else {
        Parsed::Fail(DecodeError::Truncated)
    }
}

/// A key: one length byte, that many raw bytes, which must be valid UTF-8.
pub open spec fn p_key(b: Seq<u8>, pos: int) -> Parsed<Seq<char>> {
    match p_u8(b, pos) {
        Parsed::Found(n, p1) => {
            if p1 + n <= b.len() {
                let kb = b.subrange(p1, p1 + n);
                if valid_utf8(kb) {
                    Parsed::Found(decode_utf8(kb), p1 + n)
                } else {
                    Parsed::Fail(DecodeError::InvalidUtf8)
                }
            } else {
                Parsed::Fail(DecodeError::Truncated)
            }
        },
        Parsed::Fail(e) => Parsed::Fail(e),
    }
}

/// A string: a 32-bit byte length, that many raw bytes, which must be valid
/// UTF-8.
pub open spec fn p_str(b: Seq<u8>, pos: int) -> Parsed<Seq<char>> {
    match p_u32(b, pos) {
        Parsed::Found(n, p1) => {
            if p1 + n <= b.len() {
                let sb = b.subrange(p1, p1 + n);
                if valid_utf8(sb) {
                    Parsed::Found(decode_utf8(sb), p1 + n)
                } else {
                    Parsed::Fail(DecodeError::InvalidUtf8)
                }
            } else {
                Parsed::Fail(DecodeError::Truncated)
            }
        },
        Parsed::Fail(e) => Parsed::Fail(e),
    }
}

pub open spec fn p_vbool(b: Seq<u8>, pos: int) -> Parsed<Seq<bool>> {
    match p_u32(b, pos) {
        Parsed::Found(n, p1) => {
            if p1 + n <= b.len() {
                Parsed::Found(Seq::new(n as nat, |i: int| b[p1 + i] != 0), p1 + n)
            } else {
                Parsed::Fail(DecodeError::Truncated)
            }
        },
        Parsed::Fail(e) => Parsed::Fail(e),
    }
}

/// A vector of raw bytes (the char and unsigned 8-bit kinds).
pub open spec fn p_vu8(b: Seq<u8>, pos: int) -> Parsed<Seq<u8>> {
    match p_u32(b, pos) {
        Parsed::Found(n, p1) => {
            if p1 + n <= b.len() {
                Parsed::Found(b.subrange(p1, p1 + n), p1 + n)
            } else {
                Parsed::Fail(DecodeError::Truncated)
            }
        },
        Parsed::Fail(e) => Parsed::Fail(e),
    }
}

pub open spec fn p_vi8(b: Seq<u8>, pos: int) -> Parsed<Seq<i8>> {
    match p_u32(b, pos) {
        Parsed::Found(n, p1) => {
            if p1 + n <= b.len() {
                Parsed::Found(Seq::new(n as nat, |i: int| i8_of_u8(b[p1 + i])), p1 + n)
            } else {
                Parsed::Fail(DecodeError::Truncated)
            }
        },
        Parsed::Fail(e) => Parsed::Fail(e),
    }
}

pub open spec fn p_vu16(b: Seq<u8>, pos: int) -> Parsed<Seq<u16>> {
    match p_u32(b, pos) {
        Parsed::Found(n, p1) => {
            if p1 + 2 * n <= b.len() {
                Parsed::Found(
                    Seq::new(n as nat, |i: int| u16_le(b[p1 + 2 * i], b[p1 + 2 * i + 1])),
                    p1 + 2 * n,
                )
            } else {
                Parsed::Fail(DecodeError::Truncated)
            }
        },
        Parsed::Fail(e) => Parsed::Fail(e),
    }
}

pub open spec fn p_vi16(b: Seq<u8>, pos: int) -> Parsed<Seq<i16>> {
    match p_vu16(b, pos) {
        Parsed::Found(s, p1) => Parsed::Found(s.map_values(|v: u16| i16_of_u16(v)), p1),
        Parsed::Fail(e) => Parsed::Fail(e),
    }
}

pub open spec fn p_vu32(b: Seq<u8>, pos: int) -> Parsed<Seq<u32>> {
    match p_u32(b, pos) {
        Parsed::Found(n, p1) => {
            if p1 + 4 * n <= b.len() {
                Parsed::Found(
                    Seq::new(
                        n as nat,
                        |i: int|
                            u32_le(
                                b[p1 + 4 * i],
                                b[p1 + 4 * i + 1],
                                b[p1 + 4 * i + 2],
                                b[p1 + 4 * i + 3],
                            ),
                    ),
                    p1 + 4 * n,
                )
            } else {
                Parsed::Fail(DecodeError::Truncated)
            }
        },
        Parsed::Fail(e) => Parsed::Fail(e),
    }
}

pub open spec fn p_vi32(b: Seq<u8>, pos: int) -> Parsed<Seq<i32>> {
    match p_vu32(b, pos) {
        Parsed::Found(s, p1) => Parsed::Found(s.map_values(|v: u32| i32_of_u32(v)), p1),
        Parsed::Fail(e) => Parsed::Fail(e),
    }
}

pub open spec fn p_vu64(b: Seq<u8>, pos: int) -> Parsed<Seq<u64>> {
    match p_u32(b, pos) {
        Parsed::Found(n, p1) => {
            if p1 + 8 * n <= b.len() {
                Parsed::Found(
                    Seq::new(
                        n as nat,
                        |i: int|
                            u64_le(
                                b[p1 + 8 * i],
                                b[p1 + 8 * i + 1],
                                b[p1 + 8 * i + 2],
                                b[p1 + 8 * i + 3],
                                b[p1 + 8 * i + 4],
                                b[p1 + 8 * i + 5],
                                b[p1 + 8 * i + 6],
                                b[p1 + 8 * i + 7],
                            ),
                    ),
                    p1 + 8 * n,
                )
            } else {
                Parsed::Fail(DecodeError::Truncated)
            }
        },
        Parsed::Fail(e) => Parsed::Fail(e),
    }
}

pub open spec fn p_vi64(b: Seq<u8>, pos: int) -> Parsed<Seq<i64>> {
    match p_vu64(b, pos) {
        Parsed::Found(s, p1) => Parsed::Found(s.map_values(|v: u64| i64_of_u64(v)), p1),
        Parsed::Fail(e) => Parsed::Fail(e),
    }
}

/// A vector of strings: a 32-bit element count, then that many strings.
pub open spec fn p_vstr(b: Seq<u8>, pos: int, k: nat, acc: Seq<Seq<char>>) -> Parsed<
    Seq<Seq<char>>,
>
    decreases b.len() - pos, 0int, k,
{
    if k == 0 {
        Parsed::Found(acc, pos)
    } else {
        match p_str(b, pos) {
            Parsed::Found(s, p1) => {
                if pos < p1 <= b.len() {
                    p_vstr(b, p1, (k - 1) as nat, acc.push(s))
                } else {
                    Parsed::Fail(DecodeError::Truncated)
                }
            },
            Parsed::Fail(e) => Parsed::Fail(e),
        }
    }
}

/// A Hash: a 32-bit key count, then that many nodes, folded in by
/// insert-or-overwrite.
pub open spec fn p_hash(b: Seq<u8>, pos: int) -> Parsed<Seq<NodeModel>>
    decreases b.len() - pos, 1int, 0nat,
{
    match p_u32(b, pos) {
        Parsed::Found(n, p1) => p_nodes(b, p1, n as nat, Seq::empty()),
        Parsed::Fail(e) => Parsed::Fail(e),
    }
}

pub open spec fn p_nodes(b: Seq<u8>, pos: int, n: nat, acc: Seq<NodeModel>) -> Parsed<
    Seq<NodeModel>,
>
    decreases b.len() - pos, 2int, n,
{
    if n == 0 {
        Parsed::Found(acc, pos)
    } else {
        match p_node(b, pos) {
            Parsed::Found(node, p1) => {
                if pos < p1 <= b.len() {
                    p_nodes(b, p1, (n - 1) as nat, node_insert(acc, node))
                } else {
                    Parsed::Fail(DecodeError::Truncated)
                }
            },
            Parsed::Fail(e) => Parsed::Fail(e),
        }
    }
}

/// A node: key, type code, attribute count, attributes, then the value of
/// the kind the code names.
pub open spec fn p_node(b: Seq<u8>, pos: int) -> Parsed<NodeModel>
    decreases b.len() - pos, 1int, 0nat,
{
    match p_key(b, pos) {
        Parsed::Found(key, p1) => match p_u32(b, p1) {
            Parsed::Found(code, p2) => match p_u32(b, p2) {
                Parsed::Found(nattrs, p3) => match p_attrs(b, p3, nattrs as nat, Seq::empty()) {
                    Parsed::Found(attrs, p4) => {
                        if p3 <= p4 <= b.len() {
                            match p_value(b, p4, code) {
                                Parsed::Found(value, p5) => Parsed::Found(
                                    NodeModel { key, value, attrs },
                                    p5,
                                ),
                                Parsed::Fail(e) => Parsed::Fail(e),
                            }
                        } else {
                            Parsed::Fail(DecodeError::Truncated)
                        }
                    },
                    Parsed::Fail(e) => Parsed::Fail(e),
                },
                Parsed::Fail(e) => Parsed::Fail(e),
            },
            Parsed::Fail(e) => Parsed::Fail(e),
        },
        Parsed::Fail(e) => Parsed::Fail(e),
    }
}

pub open spec fn p_attrs(b: Seq<u8>, pos: int, n: nat, acc: Seq<AttrModel>) -> Parsed<
    Seq<AttrModel>,
>
    decreases b.len() - pos, 2int, n,
{
    if n == 0 {
        Parsed::Found(acc, pos)
    } else {
        match p_key(b, pos) {
            Parsed::Found(key, p1) => match p_u32(b, p1) {
                Parsed::Found(code, p2) => match p_value(b, p2, code) {
                    Parsed::Found(value, p3) => {
                        if pos < p3 <= b.len() {
                            p_attrs(b, p3, (n - 1) as nat, attr_insert(acc, AttrModel { key, value }))
                        } else {
                            Parsed::Fail(DecodeError::Truncated)
                        }
                    },
                    Parsed::Fail(e) => Parsed::Fail(e),
                },
                Parsed::Fail(e) => Parsed::Fail(e),
            },
            Parsed::Fail(e) => Parsed::Fail(e),
        }
    }
}

pub open spec fn p_hashes(b: Seq<u8>, pos: int, k: nat, acc: Seq<Seq<NodeModel>>) -> Parsed<
    Seq<Seq<NodeModel>>,
>
    decreases b.len() - pos, 2int, k,
{
    if k == 0 {
        Parsed::Found(acc, pos)
    } else {
        match p_hash(b, pos) {
            Parsed::Found(h, p1) => {
                if pos < p1 <= b.len() {
                    p_hashes(b, p1, (k - 1) as nat, acc.push(h))
                } else {
                    Parsed::Fail(DecodeError::Truncated)
                }
            },
            Parsed::Fail(e) => Parsed::Fail(e),
        }
    }
}

/// A Schema: a 32-bit byte length (observed, not validated), a class-id key,
/// then a nested Hash.
pub open spec fn p_schema(b: Seq<u8>, pos: int) -> Parsed<SchemaModel>
    decreases b.len() - pos, 2int, 0nat,
{
    match p_u32(b, pos) {
        Parsed::Found(_sz, p1) => match p_key(b, p1) {
            Parsed::Found(class_id, p2) => match p_hash(b, p2) {
                Parsed::Found(h, p3) => Parsed::Found(SchemaModel { class_id, hash: h }, p3),
                Parsed::Fail(e) => Parsed::Fail(e),
            },
            Parsed::Fail(e) => Parsed::Fail(e),
        },
        Parsed::Fail(e) => Parsed::Fail(e),
    }
}

/// A value of the kind a type code names; a code the format does not define
/// is a fatal decode error.
pub open spec fn p_value(b: Seq<u8>, pos: int, code: u32) -> Parsed<ValueModel>
    decreases b.len() - pos, 3int, 0nat,
{
    if code == 0 {
        match p_u8(b, pos) {
            Parsed::Found(x, p1) => Parsed::Found(ValueModel::Bool(x != 0), p1),
            Parsed::Fail(e) => Parsed::Fail(e),
        }
    } else if code == 1 {
        match p_vbool(b, pos) {
            Parsed::Found(s, p1) => Parsed::Found(ValueModel::VectorBool(s), p1),
            Parsed::Fail(e) => Parsed::Fail(e),
        }
    } else if code == 2 {
        match p_u8(b, pos) {
            Parsed::Found(x, p1) => Parsed::Found(ValueModel::Char(x), p1),
            Parsed::Fail(e) => Parsed::Fail(e),
        }
    } else if code == 3 {
        match p_vu8(b, pos) {
            Parsed::Found(s, p1) => Parsed::Found(ValueModel::VectorChar(s), p1),
            Parsed::Fail(e) => Parsed::Fail(e),
        }
    } else if code == 4 {
        match p_u8(b, pos) {
            Parsed::Found(x, p1) => Parsed::Found(ValueModel::Int8(i8_of_u8(x)), p1),
            Parsed::Fail(e) => Parsed::Fail(e),
        }
    } else if code == 5 {
        match p_vi8(b, pos) {
            Parsed::Found(s, p1) => Parsed::Found(ValueModel::VectorInt8(s), p1),
            Parsed::Fail(e) => Parsed::Fail(e),
        }
    } else if code == 6 {
        match p_u8(b, pos) {
            Parsed::Found(x, p1) => Parsed::Found(ValueModel::UInt8(x), p1),
            Parsed::Fail(e) => Parsed::Fail(e),
        }
    } else if code == 7 {
        match p_vu8(b, pos) {
            Parsed::Found(s, p1) => Parsed::Found(ValueModel::VectorUInt8(s), p1),
            Parsed::Fail(e) => Parsed::Fail(e),
        }
    } else if code == 8 {
        match p_u16(b, pos) {
            Parsed::Found(x, p1) => Parsed::Found(ValueModel::Int16(i16_of_u16(x)), p1),
            Parsed::Fail(e) => Parsed::Fail(e),
        }
    } else if code == 9 {
        match p_vi16(b, pos) {
            Parsed::Found(s, p1) => Parsed::Found(ValueModel::VectorInt16(s), p1),
            Parsed::Fail(e) => Parsed::Fail(e),
        }
    } else if code == 10 {
        match p_u16(b, pos) {
            Parsed::Found(x, p1) => Parsed::Found(ValueModel::UInt16(x), p1),
            Parsed::Fail(e) => Parsed::Fail(e),
        }
    } else if code == 11 {
        match p_vu16(b, pos) {
            Parsed::Found(s, p1) => Parsed::Found(ValueModel::VectorUInt16(s), p1),
            Parsed::Fail(e) => Parsed::Fail(e),
        }
    } else if code == 12 {
        match p_u32(b, pos) {
            Parsed::Found(x, p1) => Parsed::Found(ValueModel::Int32(i32_of_u32(x)), p1),
            Parsed::Fail(e) => Parsed::Fail(e),
        }
    } else if code == 13 {
        match p_vi32(b, pos) {
            Parsed::Found(s, p1) => Parsed::Found(ValueModel::VectorInt32(s), p1),
            Parsed::Fail(e) => Parsed::Fail(e),
        }
    } else if code == 14 {
        match p_u32(b, pos) {
            Parsed::Found(x, p1) => Parsed::Found(ValueModel::UInt32(x), p1),
            Parsed::Fail(e) => Parsed::Fail(e),
        }
    } else if code == 15 {
        match p_vu32(b, pos) {
            Parsed::Found(s, p1) => Parsed::Found(ValueModel::VectorUInt32(s), p1),
            Parsed::Fail(e) => Parsed::Fail(e),
        }
    } else if code == 16 {
        match p_u64(b, pos) {
            Parsed::Found(x, p1) => Parsed::Found(ValueModel::Int64(i64_of_u64(x)), p1),
            Parsed::Fail(e) => Parsed::Fail(e),
        }
    } else if code == 17 {
        match p_vi64(b, pos) {
            Parsed::Found(s, p1) => Parsed::Found(ValueModel::VectorInt64(s), p1),
            Parsed::Fail(e) => Parsed::Fail(e),
        }
    } else if code == 18 {
        match p_u64(b, pos) {
            Parsed::Found(x, p1) => Parsed::Found(ValueModel::UInt64(x), p1),
            Parsed::Fail(e) => Parsed::Fail(e),
        }
    } else if code == 19 {
        match p_vu64(b, pos) {
            Parsed::Found(s, p1) => Parsed::Found(ValueModel::VectorUInt64(s), p1),
            Parsed::Fail(e) => Parsed::Fail(e),
        }
    } else if code == 20 {
        match p_u32(b, pos) {
            Parsed::Found(x, p1) => Parsed::Found(ValueModel::Float32(x), p1),
            Parsed::Fail(e) => Parsed::Fail(e),
        }
    } else if code == 21 {
        match p_vu32(b, pos) {
            Parsed::Found(s, p1) => Parsed::Found(ValueModel::VectorFloat32(s), p1),
            Parsed::Fail(e) => Parsed::Fail(e),
        }
    } else if code == 22 {
        match p_u64(b, pos) {
            Parsed::Found(x, p1) => Parsed::Found(ValueModel::Float64(x), p1),
            Parsed::Fail(e) => Parsed::Fail(e),
        }
    } else if code == 23 {
        match p_vu64(b, pos) {
            Parsed::Found(s, p1) => Parsed::Found(ValueModel::VectorFloat64(s), p1),
            Parsed::Fail(e) => Parsed::Fail(e),
        }
    } else if code == 28 {
        match p_str(b, pos) {
            Parsed::Found(s, p1) => Parsed::Found(ValueModel::String(s), p1),
            Parsed::Fail(e) => Parsed::Fail(e),
        }
    } else if code == 29 {
        match p_u32(b, pos) {
            Parsed::Found(k, p1) => match p_vstr(b, p1, k as nat, Seq::empty()) {
                Parsed::Found(ss, p2) => Parsed::Found(ValueModel::VectorString(ss), p2),
                Parsed::Fail(e) => Parsed::Fail(e),
            },
            Parsed::Fail(e) => Parsed::Fail(e),
        }
    } else if code == 30 {
        match p_hash(b, pos) {
            Parsed::Found(h, p1) => Parsed::Found(ValueModel::Hash(h), p1),
            Parsed::Fail(e) => Parsed::Fail(e),
        }
    } else if code == 31 {
        match p_u32(b, pos) {
            Parsed::Found(k, p1) => match p_hashes(b, p1, k as nat, Seq::empty()) {
                Parsed::Found(hs, p2) => Parsed::Found(ValueModel::VectorHash(hs), p2),
                Parsed::Fail(e) => Parsed::Fail(e),
            },
            Parsed::Fail(e) => Parsed::Fail(e),
        }
    } else if code == 32 {
        match p_schema(b, pos) {
            Parsed::Found(sc, p1) => Parsed::Found(ValueModel::Schema(sc), p1),
            Parsed::Fail(e) => Parsed::Fail(e),
        }
    } else {
        Parsed::Fail(DecodeError::UnknownTypeCode(code))
    }
}


/// A successful node-sequence parse never moves backwards.
pub proof fn lemma_p_nodes_lower(b: Seq<u8>, pos: int, n: nat, acc: Seq<NodeModel>)
    ensures
        p_nodes(b, pos, n, acc) matches Parsed::Found(m, p) ==> p >= pos,
    decreases n,
{
    if n > 0 {
        match p_node(b, pos) {
            Parsed::Found(node, p1) => {
                if pos < p1 <= b.len() {
                    lemma_p_nodes_lower(b, p1, (n - 1) as nat, node_insert(acc, node));
                }
            },
            Parsed::Fail(_) => {},
        }
    }
}


/// Appending one element appends its encoding.
pub proof fn lemma_enc_u16s_push(s: Seq<u16>, x: u16)
    ensures
        enc_u16s(s.push(x)) == enc_u16s(s) + le16(x),
    decreases s.len(),
{
    if s.len() == 0 {
        assert(s.push(x).drop_first() =~= Seq::<u16>::empty());
        assert(s.push(x)[0] == x);
        assert(enc_u16s(s.push(x)) == le16(s.push(x)[0]) + enc_u16s(s.push(x).drop_first()));
        assert(enc_u16s(s.push(x)) =~= enc_u16s(s) + le16(x));
    } else {
        assert(s.push(x).drop_first() =~= s.drop_first().push(x));
        lemma_enc_u16s_push(s.drop_first(), x);
        assert(enc_u16s(s.push(x)) =~= enc_u16s(s) + le16(x));
    }
}

/// Appending one element appends its encoding.
pub proof fn lemma_enc_u32s_push(s: Seq<u32>, x: u32)
    ensures
        enc_u32s(s.push(x)) == enc_u32s(s) + le32(x),
    decreases s.len(),
{
    if s.len() == 0 {
        assert(s.push(x).drop_first() =~= Seq::<u32>::empty());
        assert(s.push(x)[0] == x);
        assert(enc_u32s(s.push(x)) == le32(s.push(x)[0]) + enc_u32s(s.push(x).drop_first()));
        assert(enc_u32s(s.push(x)) =~= enc_u32s(s) + le32(x));
    } else {
        assert(s.push(x).drop_first() =~= s.drop_first().push(x));
        lemma_enc_u32s_push(s.drop_first(), x);
        assert(enc_u32s(s.push(x)) =~= enc_u32s(s) + le32(x));
    }
}

/// Appending one element appends its encoding.
pub proof fn lemma_enc_u64s_push(s: Seq<u64>, x: u64)
    ensures
        enc_u64s(s.push(x)) == enc_u64s(s) + le64(x),
    decreases s.len(),
{
    if s.len() == 0 {
        assert(s.push(x).drop_first() =~= Seq::<u64>::empty());
        assert(s.push(x)[0] == x);
        assert(enc_u64s(s.push(x)) == le64(s.push(x)[0]) + enc_u64s(s.push(x).drop_first()));
        assert(enc_u64s(s.push(x)) =~= enc_u64s(s) + le64(x));
    } else {
        assert(s.push(x).drop_first() =~= s.drop_first().push(x));
        lemma_enc_u64s_push(s.drop_first(), x);
        assert(enc_u64s(s.push(x)) =~= enc_u64s(s) + le64(x));
    }
}

/// Appending one string appends its encoding.
pub proof fn lemma_enc_strs_push(ss: Seq<Seq<char>>, x: Seq<char>)
    ensures
        enc_strs(ss.push(x)) == enc_strs(ss) + enc_str(x),
    decreases ss.len(),
{
    if ss.len() == 0 {
        assert(ss.push(x).drop_first() =~= Seq::<Seq<char>>::empty());
        assert(ss.push(x)[0] == x);
        assert(enc_strs(ss.push(x)) == enc_str(ss.push(x)[0]) + enc_strs(ss.push(x).drop_first()));
        assert(enc_strs(ss.push(x)) =~= enc_strs(ss) + enc_str(x));
    } else {
        assert(ss.push(x).drop_first() =~= ss.drop_first().push(x));
        lemma_enc_strs_push(ss.drop_first(), x);
        assert(enc_strs(ss.push(x)) =~= enc_strs(ss) + enc_str(x));
    }
}

/// Appending one attribute appends its encoding.
#[verifier::rlimit(30)]
pub proof fn lemma_enc_attrs_push(attrs: Seq<AttrModel>, x: AttrModel)
    ensures
        enc_attrs(attrs.push(x)) == enc_attrs(attrs) + enc_attr(x),
    decreases attrs.len(),
{
    if attrs.len() == 0 {
        assert(attrs.push(x).drop_first() =~= Seq::<AttrModel>::empty());
        assert(attrs.push(x)[0] == x);
        assert(enc_attrs(attrs.push(x)) == enc_attr(attrs.push(x)[0]) + enc_attrs(attrs.push(x).drop_first()));
        assert(enc_attrs(attrs.push(x)) =~= enc_attrs(attrs) + enc_attr(x));
    } else {
        assert(attrs.push(x).drop_first() =~= attrs.drop_first().push(x));
        lemma_enc_attrs_push(attrs.drop_first(), x);
        assert(enc_attrs(attrs.push(x)) =~= enc_attrs(attrs) + enc_attr(x));
    }
}

/// Appending one node appends its encoding.
#[verifier::rlimit(30)]
pub proof fn lemma_enc_nodes_push(nodes: Seq<NodeModel>, x: NodeModel)
    ensures
        enc_nodes(nodes.push(x)) == enc_nodes(nodes) + enc_node(x),
    decreases nodes.len(),
{
    if nodes.len() == 0 {
        assert(nodes.push(x).drop_first() =~= Seq::<NodeModel>::empty());
        assert(nodes.push(x)[0] == x);
        assert(enc_nodes(nodes.push(x)) == enc_node(nodes.push(x)[0]) + enc_nodes(nodes.push(x).drop_first()));
        assert(enc_nodes(nodes.push(x)) =~= enc_nodes(nodes) + enc_node(x));
    } else {
        assert(nodes.push(x).drop_first() =~= nodes.drop_first().push(x));
        lemma_enc_nodes_push(nodes.drop_first(), x);
        assert(enc_nodes(nodes.push(x)) =~= enc_nodes(nodes) + enc_node(x));
    }
}

/// Appending one Hash appends its encoding.
pub proof fn lemma_enc_hashes_push(hs: Seq<Seq<NodeModel>>, x: Seq<NodeModel>)
    ensures
        enc_hashes(hs.push(x)) == enc_hashes(hs) + enc_hash(x),
    decreases hs.len(),
{
    if hs.len() == 0 {
        assert(hs.push(x).drop_first() =~= Seq::<Seq<NodeModel>>::empty());
        assert(hs.push(x)[0] == x);
        assert(enc_hashes(hs.push(x)) == enc_hash(hs.push(x)[0]) + enc_hashes(hs.push(x).drop_first()));
        assert(enc_hashes(hs.push(x)) =~= enc_hashes(hs) + enc_hash(x));
    } else {
        assert(hs.push(x).drop_first() =~= hs.drop_first().push(x));
        lemma_enc_hashes_push(hs.drop_first(), x);
        assert(enc_hashes(hs.push(x)) =~= enc_hashes(hs) + enc_hash(x));
    }
}


pub proof fn lemma_enc_u16s_len(s: Seq<u16>)
    ensures
        enc_u16s(s).len() == 2 * s.len(),
    decreases s.len(),
{
    if s.len() > 0 {
        lemma_enc_u16s_len(s.drop_first());
    }
}

pub proof fn lemma_enc_u32s_len(s: Seq<u32>)
    ensures
        enc_u32s(s).len() == 4 * s.len(),
    decreases s.len(),
{
    if s.len() > 0 {
        lemma_enc_u32s_len(s.drop_first());
    }
}

pub proof fn lemma_enc_u64s_len(s: Seq<u64>)
    ensures
        enc_u64s(s).len() == 8 * s.len(),
    decreases s.len(),
{
    if s.len() > 0 {
        lemma_enc_u64s_len(s.drop_first());
    }
}

} // verus!
