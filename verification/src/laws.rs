//! The laws of the library, proved once and for all.
//!
//! The central results: decoding an encoding yields the original Hash and
//! consumes exactly its bytes (round trip), so re-encoding a freshly decoded
//! Hash reproduces the source bytes (idempotence); insert-or-overwrite keeps
//! a key's position; dotted lookup equals lookup in the nested Hash; and
//! Hashes that differ in any entry's attributes compare unequal.

use vstd::prelude::*;
use vstd::utf8::{encode_utf8, encode_utf8_decode_utf8, encode_utf8_valid_utf8};

use crate::model::{
    attr_insert, attrs_equiv, attr_key_idx, code_of, dot_idx, has_attr, has_node, hash_get,
    keys_of, lemma_attr_key_idx, lemma_dot_idx, lemma_node_key_idx, node_insert, node_key_idx,
    nodes_equiv, nodes_unique, nodes_wf, node_wf, value_wf, AttrModel, NodeModel, SchemaModel,
    ValueModel,
};
use crate::wire::{
    attr_encodable, enc_attr, enc_attrs, enc_bools, enc_hash, enc_hashes, enc_i16s, enc_i32s,
    enc_i64s, enc_i8s, enc_key, enc_node, enc_nodes, enc_schema, enc_str, enc_strs, enc_u16s,
    enc_u32s, enc_u64s, enc_value, hash_encodable, i16_of_u16, i32_of_u32, i64_of_u64, i8_of_u8,
    key_encodable, le16, le32, le64, lemma_enc_u16s_len, lemma_enc_u32s_len, lemma_enc_u64s_len,
    lemma_le16_roundtrip, lemma_le32_roundtrip, lemma_le64_roundtrip, lemma_signed_roundtrips,
    node_encodable, p_attrs, p_hash, p_hashes, p_key, p_node, p_nodes, p_schema, p_str, p_u16,
    p_u32, p_u64, p_u8, p_value, p_vbool, p_vi16, p_vi32, p_vi64, p_vi8, p_vstr, p_vu16, p_vu32,
    p_vu64, p_vu8, schema_encodable, str_encodable, u16_le, u16_of_i16, u32_le, u32_of_i32,
    u64_of_i64, u8_of_i8, value_encodable, Parsed,
};

verus! {

/// The bytes of `part` stand in `b` at position `pos`.
pub open spec fn bytes_at(b: Seq<u8>, pos: int, part: Seq<u8>) -> bool {
    &&& 0 <= pos
    &&& pos + part.len() <= b.len()
    &&& b.subrange(pos, pos + part.len()) == part
}

proof fn lemma_bytes_at_split(b: Seq<u8>, pos: int, x: Seq<u8>, y: Seq<u8>)
    requires
        bytes_at(b, pos, x + y),
    ensures
        bytes_at(b, pos, x),
        bytes_at(b, pos + x.len(), y),
{
    assert forall|i: int| 0 <= i < x.len() implies b.subrange(pos, pos + x.len())[i] == x[i] by {
        assert(b.subrange(pos, pos + (x + y).len())[i] == (x + y)[i]);
    }
    assert(b.subrange(pos, pos + x.len()) =~= x);
    assert forall|i: int|
        0 <= i < y.len() implies b.subrange(pos + x.len(), pos + x.len() + y.len())[i] == y[i] by {
        assert(b.subrange(pos, pos + (x + y).len())[x.len() + i] == (x + y)[x.len() + i]);
    }
    assert(b.subrange(pos + x.len(), pos + x.len() + y.len()) =~= y);
}

proof fn lemma_parse_u8_at(b: Seq<u8>, pos: int, v: u8)
    requires
        bytes_at(b, pos, seq![v]),
    ensures
        p_u8(b, pos) == Parsed::<u8>::Found(v, pos + 1),
{
    assert(b[pos] == b.subrange(pos, pos + 1)[0]);
}

proof fn lemma_parse_u16_at(b: Seq<u8>, pos: int, v: u16)
    requires
        bytes_at(b, pos, le16(v)),
    ensures
        p_u16(b, pos) == Parsed::<u16>::Found(v, pos + 2),
{
    lemma_le16_roundtrip(v);
    assert(forall|i: int| 0 <= i < 2 ==> b[pos + i] == #[trigger] le16(v)[i]);
}

proof fn lemma_parse_u32_at(b: Seq<u8>, pos: int, v: u32)
    requires
        bytes_at(b, pos, le32(v)),
    ensures
        p_u32(b, pos) == Parsed::<u32>::Found(v, pos + 4),
{
    lemma_le32_roundtrip(v);
    assert(forall|i: int| 0 <= i < 4 ==> b[pos + i] == #[trigger] le32(v)[i]);
}

proof fn lemma_parse_u64_at(b: Seq<u8>, pos: int, v: u64)
    requires
        bytes_at(b, pos, le64(v)),
    ensures
        p_u64(b, pos) == Parsed::<u64>::Found(v, pos + 8),
{
    lemma_le64_roundtrip(v);
    assert(forall|i: int| 0 <= i < 8 ==> b[pos + i] == #[trigger] le64(v)[i]);
}

proof fn lemma_parse_key_at(b: Seq<u8>, pos: int, k: Seq<char>)
    requires
        key_encodable(k),
        bytes_at(b, pos, enc_key(k)),
    ensures
        p_key(b, pos) == Parsed::<Seq<char>>::Found(k, pos + enc_key(k).len()),
{
    let eb = encode_utf8(k);
    let n = eb.len();
    lemma_bytes_at_split(b, pos, seq![n as u8], eb);
    lemma_parse_u8_at(b, pos, n as u8);
    assert(b.subrange(pos + 1, pos + 1 + n) =~= eb);
    encode_utf8_valid_utf8(k);
    encode_utf8_decode_utf8(k);
}

proof fn lemma_parse_str_at(b: Seq<u8>, pos: int, s: Seq<char>)
    requires
        str_encodable(s),
        bytes_at(b, pos, enc_str(s)),
    ensures
        p_str(b, pos) == Parsed::<Seq<char>>::Found(s, pos + enc_str(s).len()),
        enc_str(s).len() >= 4,
{
    let eb = encode_utf8(s);
    let n = eb.len();
    lemma_bytes_at_split(b, pos, le32(n as u32), eb);
    lemma_parse_u32_at(b, pos, n as u32);
    assert(b.subrange(pos + 4, pos + 4 + n) =~= eb);
    encode_utf8_valid_utf8(s);
    encode_utf8_decode_utf8(s);
}

proof fn lemma_parse_vbool_at(b: Seq<u8>, pos: int, s: Seq<bool>)
    requires
        s.len() <= u32::MAX,
        bytes_at(b, pos, le32(s.len() as u32) + enc_bools(s)),
    ensures
        p_vbool(b, pos) == Parsed::<Seq<bool>>::Found(s, pos + 4 + s.len()),
{
    lemma_bytes_at_split(b, pos, le32(s.len() as u32), enc_bools(s));
    lemma_parse_u32_at(b, pos, s.len() as u32);
    assert forall|i: int| 0 <= i < s.len() implies (b[pos + 4 + i] != 0) == s[i] by {
        assert(b[pos + 4 + i] == b.subrange(pos + 4, pos + 4 + s.len() as int)[i]);
        assert(b[pos + 4 + i] == enc_bools(s)[i]);
    }
    assert(Seq::new(s.len(), |i: int| b[pos + 4 + i] != 0) =~= s);
}

proof fn lemma_parse_vu8_at(b: Seq<u8>, pos: int, s: Seq<u8>)
    requires
        s.len() <= u32::MAX,
        bytes_at(b, pos, le32(s.len() as u32) + s),
    ensures
        p_vu8(b, pos) == Parsed::<Seq<u8>>::Found(s, pos + 4 + s.len()),
{
    lemma_bytes_at_split(b, pos, le32(s.len() as u32), s);
    lemma_parse_u32_at(b, pos, s.len() as u32);
    assert(b.subrange(pos + 4, pos + 4 + s.len()) =~= s);
}

proof fn lemma_parse_vi8_at(b: Seq<u8>, pos: int, s: Seq<i8>)
    requires
        s.len() <= u32::MAX,
        bytes_at(b, pos, le32(s.len() as u32) + enc_i8s(s)),
    ensures
        p_vi8(b, pos) == Parsed::<Seq<i8>>::Found(s, pos + 4 + s.len()),
{
    lemma_bytes_at_split(b, pos, le32(s.len() as u32), enc_i8s(s));
    lemma_parse_u32_at(b, pos, s.len() as u32);
    lemma_signed_roundtrips();
    assert forall|i: int| 0 <= i < s.len() implies i8_of_u8(b[pos + 4 + i]) == s[i] by {
        assert(b[pos + 4 + i] == b.subrange(pos + 4, pos + 4 + s.len() as int)[i]);
        assert(b[pos + 4 + i] == enc_i8s(s)[i]);
    }
    assert(Seq::new(s.len(), |i: int| i8_of_u8(b[pos + 4 + i])) =~= s);
}

proof fn lemma_enc_u16s_at(s: Seq<u16>, i: int)
    requires
        0 <= i < s.len(),
    ensures
        enc_u16s(s).subrange(2 * i, 2 * i + 2) =~= le16(s[i]),
    decreases i,
{
    lemma_enc_u16s_len(s);
    lemma_enc_u16s_len(s.drop_first());
    if i == 0 {
        assert(enc_u16s(s).subrange(0, 2) =~= le16(s[0]));
    } else {
        lemma_enc_u16s_at(s.drop_first(), i - 1);
        assert(enc_u16s(s).subrange(2 * i, 2 * i + 2) =~= enc_u16s(s.drop_first()).subrange(
            2 * (i - 1),
            2 * (i - 1) + 2,
        ));
    }
}

proof fn lemma_enc_u32s_at(s: Seq<u32>, i: int)
    requires
        0 <= i < s.len(),
    ensures
        enc_u32s(s).subrange(4 * i, 4 * i + 4) =~= le32(s[i]),
    decreases i,
{
    lemma_enc_u32s_len(s);
    lemma_enc_u32s_len(s.drop_first());
    if i == 0 {
        assert(enc_u32s(s).subrange(0, 4) =~= le32(s[0]));
    } else {
        lemma_enc_u32s_at(s.drop_first(), i - 1);
        assert(enc_u32s(s).subrange(4 * i, 4 * i + 4) =~= enc_u32s(s.drop_first()).subrange(
            4 * (i - 1),
            4 * (i - 1) + 4,
        ));
    }
}

proof fn lemma_enc_u64s_at(s: Seq<u64>, i: int)
    requires
        0 <= i < s.len(),
    ensures
        enc_u64s(s).subrange(8 * i, 8 * i + 8) =~= le64(s[i]),
    decreases i,
{
    lemma_enc_u64s_len(s);
    lemma_enc_u64s_len(s.drop_first());
    if i == 0 {
        assert(enc_u64s(s).subrange(0, 8) =~= le64(s[0]));
    } else {
        lemma_enc_u64s_at(s.drop_first(), i - 1);
        assert(enc_u64s(s).subrange(8 * i, 8 * i + 8) =~= enc_u64s(s.drop_first()).subrange(
            8 * (i - 1),
            8 * (i - 1) + 8,
        ));
    }
}

proof fn lemma_parse_vu16_at(b: Seq<u8>, pos: int, s: Seq<u16>)
    requires
        s.len() <= u32::MAX,
        bytes_at(b, pos, le32(s.len() as u32) + enc_u16s(s)),
    ensures
        p_vu16(b, pos) == Parsed::<Seq<u16>>::Found(s, pos + 4 + 2 * s.len()),
{
    lemma_enc_u16s_len(s);
    lemma_bytes_at_split(b, pos, le32(s.len() as u32), enc_u16s(s));
    lemma_parse_u32_at(b, pos, s.len() as u32);
    let p1 = pos + 4;
    assert forall|i: int| 0 <= i < s.len() implies u16_le(b[p1 + 2 * i], b[p1 + 2 * i + 1])
        == s[i] by {
        lemma_enc_u16s_at(s, i);
        lemma_le16_roundtrip(s[i]);
        assert(b[p1 + 2 * i] == enc_u16s(s)[2 * i]);
        assert(b[p1 + 2 * i + 1] == enc_u16s(s)[2 * i + 1]);
        assert(enc_u16s(s)[2 * i] == enc_u16s(s).subrange(2 * i, 2 * i + 2)[0]);
        assert(enc_u16s(s)[2 * i + 1] == enc_u16s(s).subrange(2 * i, 2 * i + 2)[1]);
    }
    assert(Seq::new(s.len(), |i: int| u16_le(b[p1 + 2 * i], b[p1 + 2 * i + 1])) =~= s);
}

proof fn lemma_parse_vu32_at(b: Seq<u8>, pos: int, s: Seq<u32>)
    requires
        s.len() <= u32::MAX,
        bytes_at(b, pos, le32(s.len() as u32) + enc_u32s(s)),
    ensures
        p_vu32(b, pos) == Parsed::<Seq<u32>>::Found(s, pos + 4 + 4 * s.len()),
{
    lemma_enc_u32s_len(s);
    lemma_bytes_at_split(b, pos, le32(s.len() as u32), enc_u32s(s));
    lemma_parse_u32_at(b, pos, s.len() as u32);
    let p1 = pos + 4;
    assert forall|i: int|
        0 <= i < s.len() implies u32_le(
        b[p1 + 4 * i],
        b[p1 + 4 * i + 1],
        b[p1 + 4 * i + 2],
        b[p1 + 4 * i + 3],
    ) == s[i] by {
        lemma_enc_u32s_at(s, i);
        lemma_le32_roundtrip(s[i]);
        assert(forall|j: int|
            0 <= j < 4 ==> b[p1 + 4 * i + j] == #[trigger] enc_u32s(s)[4 * i + j]);
        assert(forall|j: int|
            0 <= j < 4 ==> #[trigger] enc_u32s(s)[4 * i + j] == enc_u32s(s).subrange(
                4 * i,
                4 * i + 4,
            )[j]);
    }
    assert(Seq::new(
        s.len(),
        |i: int| u32_le(b[p1 + 4 * i], b[p1 + 4 * i + 1], b[p1 + 4 * i + 2], b[p1 + 4 * i + 3]),
    ) =~= s);
}

proof fn lemma_parse_vu64_at(b: Seq<u8>, pos: int, s: Seq<u64>)
    requires
        s.len() <= u32::MAX,
        bytes_at(b, pos, le32(s.len() as u32) + enc_u64s(s)),
    ensures
        p_vu64(b, pos) == Parsed::<Seq<u64>>::Found(s, pos + 4 + 8 * s.len()),
{
    lemma_enc_u64s_len(s);
    lemma_bytes_at_split(b, pos, le32(s.len() as u32), enc_u64s(s));
    lemma_parse_u32_at(b, pos, s.len() as u32);
    let p1 = pos + 4;
    assert forall|i: int|
        0 <= i < s.len() implies crate::wire::u64_le(
        b[p1 + 8 * i],
        b[p1 + 8 * i + 1],
        b[p1 + 8 * i + 2],
        b[p1 + 8 * i + 3],
        b[p1 + 8 * i + 4],
        b[p1 + 8 * i + 5],
        b[p1 + 8 * i + 6],
        b[p1 + 8 * i + 7],
    ) == s[i] by {
        lemma_enc_u64s_at(s, i);
        lemma_le64_roundtrip(s[i]);
        assert(forall|j: int|
            0 <= j < 8 ==> b[p1 + 8 * i + j] == #[trigger] enc_u64s(s)[8 * i + j]);
        assert(forall|j: int|
            0 <= j < 8 ==> #[trigger] enc_u64s(s)[8 * i + j] == enc_u64s(s).subrange(
                8 * i,
                8 * i + 8,
            )[j]);
    }
    assert(Seq::new(
        s.len(),
        |i: int|
            crate::wire::u64_le(
                b[p1 + 8 * i],
                b[p1 + 8 * i + 1],
                b[p1 + 8 * i + 2],
                b[p1 + 8 * i + 3],
                b[p1 + 8 * i + 4],
                b[p1 + 8 * i + 5],
                b[p1 + 8 * i + 6],
                b[p1 + 8 * i + 7],
            ),
    ) =~= s);
}

proof fn lemma_parse_vi16_at(b: Seq<u8>, pos: int, s: Seq<i16>)
    requires
        s.len() <= u32::MAX,
        bytes_at(b, pos, le32(s.len() as u32) + enc_i16s(s)),
    ensures
        p_vi16(b, pos) == Parsed::<Seq<i16>>::Found(s, pos + 4 + 2 * s.len()),
{
    let m = s.map_values(|v: i16| u16_of_i16(v));
    lemma_parse_vu16_at(b, pos, m);
    lemma_signed_roundtrips();
    assert(m.map_values(|v: u16| i16_of_u16(v)) =~= s);
}

proof fn lemma_parse_vi32_at(b: Seq<u8>, pos: int, s: Seq<i32>)
    requires
        s.len() <= u32::MAX,
        bytes_at(b, pos, le32(s.len() as u32) + enc_i32s(s)),
    ensures
        p_vi32(b, pos) == Parsed::<Seq<i32>>::Found(s, pos + 4 + 4 * s.len()),
{
    let m = s.map_values(|v: i32| u32_of_i32(v));
    lemma_parse_vu32_at(b, pos, m);
    lemma_signed_roundtrips();
    assert(m.map_values(|v: u32| i32_of_u32(v)) =~= s);
}

proof fn lemma_parse_vi64_at(b: Seq<u8>, pos: int, s: Seq<i64>)
    requires
        s.len() <= u32::MAX,
        bytes_at(b, pos, le32(s.len() as u32) + enc_i64s(s)),
    ensures
        p_vi64(b, pos) == Parsed::<Seq<i64>>::Found(s, pos + 4 + 8 * s.len()),
{
    let m = s.map_values(|v: i64| u64_of_i64(v));
    lemma_parse_vu64_at(b, pos, m);
    lemma_signed_roundtrips();
    assert(m.map_values(|v: u64| i64_of_u64(v)) =~= s);
}


#[verifier::rlimit(100)]
#[verifier::spinoff_prover]
proof fn lemma_parse_vstr_at(b: Seq<u8>, pos: int, ss: Seq<Seq<char>>, acc: Seq<Seq<char>>)
    requires
        forall|i: int| 0 <= i < ss.len() ==> str_encodable(#[trigger] ss[i]),
        bytes_at(b, pos, enc_strs(ss)),
    ensures
        p_vstr(b, pos, ss.len(), acc) == Parsed::<Seq<Seq<char>>>::Found(
            acc + ss,
            pos + enc_strs(ss).len(),
        ),
    decreases ss.len(),
{
    if ss.len() == 0 {
        assert(acc + ss =~= acc);
    } else {
        let s0 = ss[0];
        let rest = ss.drop_first();
        lemma_bytes_at_split(b, pos, enc_str(s0), enc_strs(rest));
        lemma_parse_str_at(b, pos, s0);
        let p1 = pos + enc_str(s0).len();
        lemma_parse_vstr_at(b, p1, rest, acc.push(s0));
        assert(acc.push(s0) + rest =~= acc + ss);
    }
}

#[verifier::rlimit(100)]
#[verifier::spinoff_prover]
proof fn lemma_parse_small_value_at(b: Seq<u8>, pos: int, v: ValueModel)
    requires
        value_encodable(v),
        code_of(v) < 12,
        bytes_at(b, pos, enc_value(v)),
    ensures
        p_value(b, pos, code_of(v)) == Parsed::<ValueModel>::Found(v, pos + enc_value(v).len()),
        enc_value(v).len() >= 1,
{
    lemma_signed_roundtrips();
    match v {
        ValueModel::Bool(x) => {
            lemma_parse_u8_at(b, pos, if x { 1u8 } else { 0u8 });
        },
        ValueModel::VectorBool(s) => {
            lemma_parse_vbool_at(b, pos, s);
        },
        ValueModel::Char(x) => {
            lemma_parse_u8_at(b, pos, x);
        },
        ValueModel::VectorChar(s) => {
            lemma_parse_vu8_at(b, pos, s);
        },
        ValueModel::Int8(x) => {
            lemma_parse_u8_at(b, pos, u8_of_i8(x));
        },
        ValueModel::VectorInt8(s) => {
            lemma_parse_vi8_at(b, pos, s);
        },
        ValueModel::UInt8(x) => {
            lemma_parse_u8_at(b, pos, x);
        },
        ValueModel::VectorUInt8(s) => {
            lemma_parse_vu8_at(b, pos, s);
        },
        ValueModel::Int16(x) => {
            lemma_parse_u16_at(b, pos, u16_of_i16(x));
        },
        ValueModel::VectorInt16(s) => {
            lemma_parse_vi16_at(b, pos, s);
            lemma_enc_u16s_len(s.map_values(|x: i16| u16_of_i16(x)));
        },
        ValueModel::UInt16(x) => {
            lemma_parse_u16_at(b, pos, x);
        },
        ValueModel::VectorUInt16(s) => {
            lemma_parse_vu16_at(b, pos, s);
            lemma_enc_u16s_len(s);
        },
        _ => {
            assert(false);
        },
    }
}

#[verifier::rlimit(100)]
#[verifier::spinoff_prover]
proof fn lemma_parse_wide_value_at(b: Seq<u8>, pos: int, v: ValueModel)
    requires
        value_encodable(v),
        12 <= code_of(v) < 30,
        bytes_at(b, pos, enc_value(v)),
    ensures
        p_value(b, pos, code_of(v)) == Parsed::<ValueModel>::Found(v, pos + enc_value(v).len()),
        enc_value(v).len() >= 1,
{
    lemma_signed_roundtrips();
    match v {
        ValueModel::Int32(x) => {
            lemma_parse_u32_at(b, pos, u32_of_i32(x));
        },
        ValueModel::VectorInt32(s) => {
            lemma_parse_vi32_at(b, pos, s);
            lemma_enc_u32s_len(s.map_values(|x: i32| u32_of_i32(x)));
        },
        ValueModel::UInt32(x) => {
            lemma_parse_u32_at(b, pos, x);
        },
        ValueModel::VectorUInt32(s) => {
            lemma_parse_vu32_at(b, pos, s);
            lemma_enc_u32s_len(s);
        },
        ValueModel::Int64(x) => {
            lemma_parse_u64_at(b, pos, u64_of_i64(x));
        },
        ValueModel::VectorInt64(s) => {
            lemma_parse_vi64_at(b, pos, s);
            lemma_enc_u64s_len(s.map_values(|x: i64| u64_of_i64(x)));
        },
        ValueModel::UInt64(x) => {
            lemma_parse_u64_at(b, pos, x);
        },
        ValueModel::VectorUInt64(s) => {
            lemma_parse_vu64_at(b, pos, s);
            lemma_enc_u64s_len(s);
        },
        ValueModel::Float32(x) => {
            lemma_parse_u32_at(b, pos, x);
        },
        ValueModel::VectorFloat32(s) => {
            lemma_parse_vu32_at(b, pos, s);
            lemma_enc_u32s_len(s);
        },
        ValueModel::Float64(x) => {
            lemma_parse_u64_at(b, pos, x);
        },
        ValueModel::VectorFloat64(s) => {
            lemma_parse_vu64_at(b, pos, s);
            lemma_enc_u64s_len(s);
        },
        ValueModel::String(s) => {
            lemma_parse_str_at(b, pos, s);
        },
        ValueModel::VectorString(ss) => {
            lemma_bytes_at_split(b, pos, le32(ss.len() as u32), enc_strs(ss));
            lemma_parse_u32_at(b, pos, ss.len() as u32);
            lemma_parse_vstr_at(b, pos + 4, ss, Seq::empty());
            assert(Seq::<Seq<char>>::empty() + ss =~= ss);
        },
        _ => {
            assert(false);
        },
    }
}

/// Parsing the encoding of an encodable, well-formed value yields exactly
/// that value and stops exactly past its bytes.
proof fn lemma_parse_value_at(b: Seq<u8>, pos: int, v: ValueModel)
    requires
        value_encodable(v),
        value_wf(v),
        bytes_at(b, pos, enc_value(v)),
    ensures
        p_value(b, pos, code_of(v)) == Parsed::<ValueModel>::Found(v, pos + enc_value(v).len()),
        enc_value(v).len() >= 1,
    decreases v, 3int,
{
    match v {
        ValueModel::Hash(h) => {
            lemma_parse_hash_at(b, pos, h);
        },
        ValueModel::VectorHash(hs) => {
            lemma_bytes_at_split(b, pos, le32(hs.len() as u32), enc_hashes(hs));
            lemma_parse_u32_at(b, pos, hs.len() as u32);
            lemma_parse_hashes_at(b, pos + 4, hs, Seq::empty());
            assert(Seq::<Seq<NodeModel>>::empty() + hs =~= hs);
        },
        ValueModel::Schema(sc) => {
            lemma_parse_schema_at(b, pos, sc);
        },
        _ => {
            if code_of(v) < 12 {
                lemma_parse_small_value_at(b, pos, v);
            } else {
                lemma_parse_wide_value_at(b, pos, v);
            }
        },
    }
}

#[verifier::rlimit(100)]
#[verifier::spinoff_prover]
proof fn lemma_parse_hashes_at(
    b: Seq<u8>,
    pos: int,
    hs: Seq<Seq<NodeModel>>,
    acc: Seq<Seq<NodeModel>>,
)
    requires
        forall|i: int|
            0 <= i < hs.len() ==> hash_encodable(#[trigger] hs[i]) && nodes_wf(hs[i]),
        bytes_at(b, pos, enc_hashes(hs)),
    ensures
        p_hashes(b, pos, hs.len(), acc) == Parsed::<Seq<Seq<NodeModel>>>::Found(
            acc + hs,
            pos + enc_hashes(hs).len(),
        ),
    decreases hs, 4int,
{
    if hs.len() == 0 {
        assert(acc + hs =~= acc);
    } else {
        let h0 = hs[0];
        let rest = hs.drop_first();
        lemma_bytes_at_split(b, pos, enc_hash(h0), enc_hashes(rest));
        lemma_parse_hash_at(b, pos, h0);
        let p1 = pos + enc_hash(h0).len();
        lemma_parse_hashes_at(b, p1, rest, acc.push(h0));
        assert(acc.push(h0) + rest =~= acc + hs);
    }
}

#[verifier::rlimit(100)]
#[verifier::spinoff_prover]
proof fn lemma_parse_schema_at(b: Seq<u8>, pos: int, sc: SchemaModel)
    requires
        schema_encodable(sc),
        nodes_wf(sc.hash),
        bytes_at(b, pos, enc_schema(sc)),
    ensures
        p_schema(b, pos) == Parsed::<SchemaModel>::Found(sc, pos + enc_schema(sc).len()),
    decreases sc, 3int,
{
    let inner_len = (enc_key(sc.class_id) + enc_hash(sc.hash)).len();
    assert(enc_schema(sc) =~= le32(inner_len as u32) + (enc_key(sc.class_id) + enc_hash(
        sc.hash,
    )));
    lemma_bytes_at_split(
        b,
        pos,
        le32(inner_len as u32),
        enc_key(sc.class_id) + enc_hash(sc.hash),
    );
    lemma_parse_u32_at(b, pos, inner_len as u32);
    lemma_bytes_at_split(b, pos + 4, enc_key(sc.class_id), enc_hash(sc.hash));
    lemma_parse_key_at(b, pos + 4, sc.class_id);
    lemma_parse_hash_at(b, pos + 4 + enc_key(sc.class_id).len(), sc.hash);
}

#[verifier::rlimit(100)]
#[verifier::spinoff_prover]
proof fn lemma_parse_attrs_at(b: Seq<u8>, pos: int, attrs: Seq<AttrModel>, acc: Seq<AttrModel>)
    requires
        forall|i: int|
            0 <= i < attrs.len() ==> attr_encodable(#[trigger] attrs[i]) && value_wf(
                attrs[i].value,
            ),
        crate::model::attrs_unique(acc + attrs),
        bytes_at(b, pos, enc_attrs(attrs)),
    ensures
        p_attrs(b, pos, attrs.len(), acc) == Parsed::<Seq<AttrModel>>::Found(
            acc + attrs,
            pos + enc_attrs(attrs).len(),
        ),
    decreases attrs, 2int,
{
    if attrs.len() == 0 {
        assert(acc + attrs =~= acc);
    } else {
        let a0 = attrs[0];
        let rest = attrs.drop_first();
        assert(enc_attrs(attrs) == enc_attr(a0) + enc_attrs(rest));
        lemma_bytes_at_split(b, pos, enc_attr(a0), enc_attrs(rest));
        assert(enc_attr(a0) =~= enc_key(a0.key) + (le32(code_of(a0.value)) + enc_value(
            a0.value,
        )));
        lemma_bytes_at_split(b, pos, enc_key(a0.key), le32(code_of(a0.value)) + enc_value(
            a0.value,
        ));
        lemma_parse_key_at(b, pos, a0.key);
        let p1 = pos + enc_key(a0.key).len();
        lemma_bytes_at_split(b, p1, le32(code_of(a0.value)), enc_value(a0.value));
        lemma_parse_u32_at(b, p1, code_of(a0.value));
        let p2 = p1 + 4;
        lemma_parse_value_at(b, p2, a0.value);
        let p3 = p2 + enc_value(a0.value).len();
        // a fresh key appends
        assert(!has_attr(acc, a0.key)) by {
            lemma_attr_key_idx(acc, a0.key);
            if has_attr(acc, a0.key) {
                let w = choose|w: int| 0 <= w < acc.len() && (#[trigger] acc[w]).key == a0.key;
                assert((acc + attrs)[w] == acc[w]);
                assert((acc + attrs)[acc.len() as int] == a0);
            }
        }
        assert(attr_insert(acc, a0) == acc.push(a0));
        assert(acc.push(a0) + rest =~= acc + attrs);
        assert(crate::model::attrs_unique(acc.push(a0) + rest));
        lemma_parse_attrs_at(b, p3, rest, acc.push(a0));
    }
}

#[verifier::rlimit(100)]
#[verifier::spinoff_prover]
proof fn lemma_parse_node_at(b: Seq<u8>, pos: int, n: NodeModel)
    requires
        node_encodable(n),
        node_wf(n),
        bytes_at(b, pos, enc_node(n)),
    ensures
        p_node(b, pos) == Parsed::<NodeModel>::Found(n, pos + enc_node(n).len()),
        enc_node(n).len() >= 10,
    decreases n, 2int,
{
    assert(enc_node(n) =~= enc_key(n.key) + (le32(code_of(n.value)) + (le32(
        n.attrs.len() as u32,
    ) + (enc_attrs(n.attrs) + enc_value(n.value)))));
    lemma_bytes_at_split(b, pos, enc_key(n.key), le32(code_of(n.value)) + (le32(
        n.attrs.len() as u32,
    ) + (enc_attrs(n.attrs) + enc_value(n.value))));
    lemma_parse_key_at(b, pos, n.key);
    let p1 = pos + enc_key(n.key).len();
    lemma_bytes_at_split(b, p1, le32(code_of(n.value)), le32(n.attrs.len() as u32) + (enc_attrs(
        n.attrs,
    ) + enc_value(n.value)));
    lemma_parse_u32_at(b, p1, code_of(n.value));
    let p2 = p1 + 4;
    lemma_bytes_at_split(b, p2, le32(n.attrs.len() as u32), enc_attrs(n.attrs) + enc_value(
        n.value,
    ));
    lemma_parse_u32_at(b, p2, n.attrs.len() as u32);
    let p3 = p2 + 4;
    lemma_bytes_at_split(b, p3, enc_attrs(n.attrs), enc_value(n.value));
    assert(Seq::<AttrModel>::empty() + n.attrs =~= n.attrs);
    lemma_parse_attrs_at(b, p3, n.attrs, Seq::empty());
    let p4 = p3 + enc_attrs(n.attrs).len();
    lemma_parse_value_at(b, p4, n.value);
}

#[verifier::rlimit(100)]
#[verifier::spinoff_prover]
proof fn lemma_parse_nodes_at(b: Seq<u8>, pos: int, nodes: Seq<NodeModel>, acc: Seq<NodeModel>)
    requires
        forall|i: int|
            0 <= i < nodes.len() ==> node_encodable(#[trigger] nodes[i]) && node_wf(nodes[i]),
        nodes_unique(acc + nodes),
        bytes_at(b, pos, enc_nodes(nodes)),
    ensures
        p_nodes(b, pos, nodes.len(), acc) == Parsed::<Seq<NodeModel>>::Found(
            acc + nodes,
            pos + enc_nodes(nodes).len(),
        ),
    decreases nodes, 2int,
{
    if nodes.len() == 0 {
        assert(acc + nodes =~= acc);
    } else {
        let n0 = nodes[0];
        let rest = nodes.drop_first();
        assert(enc_nodes(nodes) == enc_node(n0) + enc_nodes(rest));
        lemma_bytes_at_split(b, pos, enc_node(n0), enc_nodes(rest));
        lemma_parse_node_at(b, pos, n0);
        let p1 = pos + enc_node(n0).len();
        assert(!has_node(acc, n0.key)) by {
            lemma_node_key_idx(acc, n0.key);
            if has_node(acc, n0.key) {
                let w = choose|w: int| 0 <= w < acc.len() && (#[trigger] acc[w]).key == n0.key;
                assert((acc + nodes)[w] == acc[w]);
                assert((acc + nodes)[acc.len() as int] == n0);
            }
        }
        assert(node_insert(acc, n0) == acc.push(n0));
        assert(acc.push(n0) + rest =~= acc + nodes);
        assert(nodes_unique(acc.push(n0) + rest));
        lemma_parse_nodes_at(b, p1, rest, acc.push(n0));
    }
}

#[verifier::rlimit(100)]
#[verifier::spinoff_prover]
proof fn lemma_parse_hash_at(b: Seq<u8>, pos: int, nodes: Seq<NodeModel>)
    requires
        hash_encodable(nodes),
        nodes_wf(nodes),
        bytes_at(b, pos, enc_hash(nodes)),
    ensures
        p_hash(b, pos) == Parsed::<Seq<NodeModel>>::Found(nodes, pos + enc_hash(nodes).len()),
        enc_hash(nodes).len() >= 4,
    decreases nodes, 3int,
{
    lemma_bytes_at_split(b, pos, le32(nodes.len() as u32), enc_nodes(nodes));
    lemma_parse_u32_at(b, pos, nodes.len() as u32);
    assert(Seq::<NodeModel>::empty() + nodes =~= nodes);
    lemma_parse_nodes_at(b, pos + 4, nodes, Seq::empty());
}


/// Round trip: parsing the encoding of an encodable Hash with unique keys
/// at every level yields that Hash back, and the parse stops exactly at the
/// end of the encoding — the byte count the encoder reports is the byte
/// count the decoder consumes.  Through the contracts of `write_hash` and
/// `read_hash`, decoding an encoded Hash deep-equals the original.
pub proof fn lemma_round_trip(nodes: Seq<NodeModel>)
    requires
        hash_encodable(nodes),
        nodes_wf(nodes),
    ensures
        p_hash(enc_hash(nodes), 0) == Parsed::<Seq<NodeModel>>::Found(
            nodes,
            enc_hash(nodes).len() as int,
        ),
{
    let b = enc_hash(nodes);
    assert(b.subrange(0, b.len() as int) =~= b);
    lemma_parse_hash_at(b, 0, nodes);
}

/// Idempotence: whatever Hash is decoded from a stream that some encodable,
/// well-formed Hash was encoded into, re-encoding it reproduces that stream
/// byte for byte.
pub proof fn lemma_reencode_identity(b: Seq<u8>, m: Seq<NodeModel>)
    requires
        exists|orig: Seq<NodeModel>|
            hash_encodable(orig) && nodes_wf(orig) && b == enc_hash(orig),
        p_hash(b, 0) == Parsed::<Seq<NodeModel>>::Found(m, b.len() as int),
    ensures
        enc_hash(m) == b,
{
    let orig = choose|orig: Seq<NodeModel>|
        hash_encodable(orig) && nodes_wf(orig) && b == enc_hash(orig);
    lemma_round_trip(orig);
}

/// Overwrite preserves position: inserting an existing key replaces its
/// entry in place — same length, identical key order, every other entry
/// untouched — while a new key is appended after all existing entries.
pub proof fn lemma_insert_preserves_position(nodes: Seq<NodeModel>, node: NodeModel)
    ensures
        has_node(nodes, node.key) ==> {
            let i = node_key_idx(nodes, node.key);
            &&& node_insert(nodes, node).len() == nodes.len()
            &&& keys_of(node_insert(nodes, node)) == keys_of(nodes)
            &&& node_insert(nodes, node)[i] == node
            &&& forall|j: int|
                0 <= j < nodes.len() && j != i ==> node_insert(nodes, node)[j] == nodes[j]
        },
        !has_node(nodes, node.key) ==> {
            &&& node_insert(nodes, node) == nodes.push(node)
            &&& keys_of(node_insert(nodes, node)) == keys_of(nodes).push(node.key)
        },
{
    lemma_node_key_idx(nodes, node.key);
    if has_node(nodes, node.key) {
        let i = node_key_idx(nodes, node.key);
        assert(keys_of(node_insert(nodes, node)) =~= keys_of(nodes));
    } else {
        assert(keys_of(node_insert(nodes, node)) =~= keys_of(nodes).push(node.key));
    }
}

/// Overwrite preserves position, for attribute maps.
pub proof fn lemma_attr_insert_preserves_position(attrs: Seq<AttrModel>, attr: AttrModel)
    ensures
        has_attr(attrs, attr.key) ==> {
            let i = attr_key_idx(attrs, attr.key);
            &&& attr_insert(attrs, attr).len() == attrs.len()
            &&& crate::model::attr_keys_of(attr_insert(attrs, attr)) == crate::model::attr_keys_of(
                attrs,
            )
            &&& attr_insert(attrs, attr)[i] == attr
            &&& forall|j: int|
                0 <= j < attrs.len() && j != i ==> attr_insert(attrs, attr)[j] == attrs[j]
        },
        !has_attr(attrs, attr.key) ==> attr_insert(attrs, attr) == attrs.push(attr),
{
    lemma_attr_key_idx(attrs, attr.key);
    if has_attr(attrs, attr.key) {
        assert(crate::model::attr_keys_of(attr_insert(attrs, attr)) =~= crate::model::attr_keys_of(
            attrs,
        ));
    }
}

/// Key uniqueness is an invariant of insert-or-overwrite: a Hash whose keys
/// are unique keeps them unique through any insert, so every Hash built
/// incrementally from empty has unique keys.
pub proof fn lemma_insert_keeps_unique(nodes: Seq<NodeModel>, node: NodeModel)
    requires
        nodes_unique(nodes),
    ensures
        nodes_unique(node_insert(nodes, node)),
{
    lemma_node_key_idx(nodes, node.key);
    lemma_insert_preserves_position(nodes, node);
    let out = node_insert(nodes, node);
    if has_node(nodes, node.key) {
        assert forall|p: int, q: int|
            0 <= p < q < out.len() implies (#[trigger] out[p]).key != (#[trigger] out[q]).key by {
            assert(out[p].key == nodes[p].key);
            assert(out[q].key == nodes[q].key);
        }
    } else {
        assert forall|p: int, q: int|
            0 <= p < q < out.len() implies (#[trigger] out[p]).key != (#[trigger] out[q]).key by {
            if q == out.len() - 1 {
                assert(out[p] == nodes[p]);
                assert(nodes[p].key != node.key);
            }
        }
    }
}

/// Key uniqueness is an invariant of insert-or-overwrite, for attribute
/// maps.
pub proof fn lemma_attr_insert_keeps_unique(attrs: Seq<AttrModel>, attr: AttrModel)
    requires
        crate::model::attrs_unique(attrs),
    ensures
        crate::model::attrs_unique(attr_insert(attrs, attr)),
{
    lemma_attr_key_idx(attrs, attr.key);
    lemma_attr_insert_preserves_position(attrs, attr);
    let out = attr_insert(attrs, attr);
    if has_attr(attrs, attr.key) {
        assert forall|p: int, q: int|
            0 <= p < q < out.len() implies (#[trigger] out[p]).key != (#[trigger] out[q]).key by {
            assert(out[p].key == attrs[p].key);
            assert(out[q].key == attrs[q].key);
        }
    } else {
        assert forall|p: int, q: int|
            0 <= p < q < out.len() implies (#[trigger] out[p]).key != (#[trigger] out[q]).key by {
            if q == out.len() - 1 {
                assert(out[p] == attrs[p]);
                assert(attrs[p].key != attr.key);
            }
        }
    }
}

/// Dotted path: for a path of the form head '.' rest with a dot-free head,
/// the lookup resolves head as a top-level key and, exactly when that
/// entry's value is itself a Hash, continues with rest there; any missing
/// segment or non-Hash intermediate is a miss.
pub proof fn lemma_dotted_path(nodes: Seq<NodeModel>, head: Seq<char>, rest: Seq<char>)
    requires
        dot_idx(head) < 0,
    ensures
        hash_get(nodes, head + seq!['.'] + rest) == (if has_node(nodes, head) {
            match nodes[node_key_idx(nodes, head)].value {
                ValueModel::Hash(inner) => hash_get(inner, rest),
                _ => None::<ValueModel>,
            }
        } else {
            None::<ValueModel>
        }),
{
    let path = head + seq!['.'] + rest;
    lemma_dot_idx(head);
    lemma_dot_idx(path);
    assert(path[head.len() as int] == '.');
    assert(forall|j: int| 0 <= j < head.len() ==> path[j] == head[j]);
    let d = dot_idx(path);
    assert(d >= 0);
    assert(d == head.len()) by {
        if d < head.len() {
            assert(path[d] == head[d]);
        }
        if d > head.len() {
            assert(path[head.len() as int] != '.');
        }
    }
    assert(path.subrange(0, d) =~= head);
    assert(path.subrange(d + 1, path.len() as int) =~= rest);
}

/// Attribute isolation: if some entry of one Hash has no same-keyed entry
/// in the other with equal attributes, the two compare unequal — identical
/// keys and values cannot mask differing metadata.
pub proof fn lemma_attribute_isolation(a: Seq<NodeModel>, b: Seq<NodeModel>, i: int)
    requires
        0 <= i < a.len(),
        has_node(b, a[i].key) ==> !attrs_equiv(a[i].attrs, b[node_key_idx(b, a[i].key)].attrs),
    ensures
        !nodes_equiv(a, b),
{
    if nodes_equiv(a, b) {
        assert(crate::model::node_matched_in(a[i], b));
    }
}


proof fn lemma_insert_keeps_wf(nodes: Seq<NodeModel>, node: NodeModel)
    requires
        nodes_wf(nodes),
        node_wf(node),
    ensures
        nodes_wf(node_insert(nodes, node)),
{
    lemma_insert_keeps_unique(nodes, node);
    lemma_insert_preserves_position(nodes, node);
    let out = node_insert(nodes, node);
    lemma_node_key_idx(nodes, node.key);
    assert forall|j: int| 0 <= j < out.len() implies node_wf(#[trigger] out[j]) by {
        if has_node(nodes, node.key) {
            if j != node_key_idx(nodes, node.key) {
                assert(out[j] == nodes[j]);
            }
        } else {
            if j < nodes.len() {
                assert(out[j] == nodes[j]);
            }
        }
    }
}

proof fn lemma_attr_insert_keeps_wf(attrs: Seq<AttrModel>, attr: AttrModel)
    requires
        crate::model::attrs_unique(attrs),
        forall|i: int| 0 <= i < attrs.len() ==> value_wf((#[trigger] attrs[i]).value),
        value_wf(attr.value),
    ensures
        crate::model::attrs_unique(attr_insert(attrs, attr)),
        forall|i: int|
            0 <= i < attr_insert(attrs, attr).len() ==> value_wf(
                (#[trigger] attr_insert(attrs, attr)[i]).value,
            ),
{
    lemma_attr_insert_keeps_unique(attrs, attr);
    lemma_attr_insert_preserves_position(attrs, attr);
    let out = attr_insert(attrs, attr);
    lemma_attr_key_idx(attrs, attr.key);
    assert forall|j: int| 0 <= j < out.len() implies value_wf((#[trigger] out[j]).value) by {
        if has_attr(attrs, attr.key) {
            if j != attr_key_idx(attrs, attr.key) {
                assert(out[j] == attrs[j]);
            }
        } else {
            if j < attrs.len() {
                assert(out[j] == attrs[j]);
            }
        }
    }
}

proof fn lemma_p_value_wf(b: Seq<u8>, pos: int, code: u32)
    ensures
        p_value(b, pos, code) matches Parsed::Found(v, p) ==> value_wf(v),
    decreases b.len() - pos, 3int, 0nat,
{
    if code == 30 {
        lemma_p_hash_wf(b, pos);
    } else if code == 31 {
        match p_u32(b, pos) {
            Parsed::Found(k, p1) => {
                lemma_p_hashes_wf(b, p1, k as nat, Seq::empty());
            },
            Parsed::Fail(_) => {},
        }
    } else if code == 32 {
        lemma_p_schema_wf(b, pos);
    }
}

proof fn lemma_p_hashes_wf(b: Seq<u8>, pos: int, k: nat, acc: Seq<Seq<NodeModel>>)
    requires
        forall|i: int| 0 <= i < acc.len() ==> nodes_wf(#[trigger] acc[i]),
    ensures
        p_hashes(b, pos, k, acc) matches Parsed::Found(hs, p) ==> forall|i: int|
            0 <= i < hs.len() ==> nodes_wf(#[trigger] hs[i]),
    decreases b.len() - pos, 2int, k,
{
    if k > 0 {
        match p_hash(b, pos) {
            Parsed::Found(h, p1) => {
                if pos < p1 <= b.len() {
                    lemma_p_hash_wf(b, pos);
                    lemma_p_hashes_wf(b, p1, (k - 1) as nat, acc.push(h));
                }
            },
            Parsed::Fail(_) => {},
        }
    }
}

proof fn lemma_p_schema_wf(b: Seq<u8>, pos: int)
    ensures
        p_schema(b, pos) matches Parsed::Found(sc, p) ==> nodes_wf(sc.hash),
    decreases b.len() - pos, 2int, 0nat,
{
    match p_u32(b, pos) {
        Parsed::Found(_sz, p1) => {
            match p_key(b, p1) {
                Parsed::Found(_cid, p2) => {
                    lemma_p_hash_wf(b, p2);
                },
                Parsed::Fail(_) => {},
            }
        },
        Parsed::Fail(_) => {},
    }
}

proof fn lemma_p_attrs_wf(b: Seq<u8>, pos: int, n: nat, acc: Seq<AttrModel>)
    requires
        crate::model::attrs_unique(acc),
        forall|i: int| 0 <= i < acc.len() ==> value_wf((#[trigger] acc[i]).value),
    ensures
        p_attrs(b, pos, n, acc) matches Parsed::Found(attrs, p) ==> crate::model::attrs_unique(
            attrs,
        ) && forall|i: int| 0 <= i < attrs.len() ==> value_wf((#[trigger] attrs[i]).value),
    decreases b.len() - pos, 2int, n,
{
    if n > 0 {
        match p_key(b, pos) {
            Parsed::Found(key, p1) => {
                match p_u32(b, p1) {
                    Parsed::Found(code, p2) => {
                        lemma_p_value_wf(b, p2, code);
                        match p_value(b, p2, code) {
                            Parsed::Found(value, p3) => {
                                if pos < p3 <= b.len() {
                                    let am = AttrModel { key, value };
                                    lemma_attr_insert_keeps_wf(acc, am);
                                    lemma_p_attrs_wf(b, p3, (n - 1) as nat, attr_insert(acc, am));
                                }
                            },
                            Parsed::Fail(_) => {},
                        }
                    },
                    Parsed::Fail(_) => {},
                }
            },
            Parsed::Fail(_) => {},
        }
    }
}

proof fn lemma_p_node_wf(b: Seq<u8>, pos: int)
    ensures
        p_node(b, pos) matches Parsed::Found(node, p) ==> node_wf(node),
    decreases b.len() - pos, 1int, 0nat,
{
    match p_key(b, pos) {
        Parsed::Found(_key, p1) => {
            match p_u32(b, p1) {
                Parsed::Found(code, p2) => {
                    match p_u32(b, p2) {
                        Parsed::Found(nattrs, p3) => {
                            lemma_p_attrs_wf(b, p3, nattrs as nat, Seq::empty());
                            match p_attrs(b, p3, nattrs as nat, Seq::empty()) {
                                Parsed::Found(_attrs, p4) => {
                                    if p3 <= p4 <= b.len() {
                                        lemma_p_value_wf(b, p4, code);
                                    }
                                },
                                Parsed::Fail(_) => {},
                            }
                        },
                        Parsed::Fail(_) => {},
                    }
                },
                Parsed::Fail(_) => {},
            }
        },
        Parsed::Fail(_) => {},
    }
}

proof fn lemma_p_nodes_wf(b: Seq<u8>, pos: int, n: nat, acc: Seq<NodeModel>)
    requires
        nodes_wf(acc),
    ensures
        p_nodes(b, pos, n, acc) matches Parsed::Found(m, p) ==> nodes_wf(m),
    decreases b.len() - pos, 2int, n,
{
    if n > 0 {
        match p_node(b, pos) {
            Parsed::Found(node, p1) => {
                if pos < p1 <= b.len() {
                    lemma_p_node_wf(b, pos);
                    lemma_insert_keeps_wf(acc, node);
                    lemma_p_nodes_wf(b, p1, (n - 1) as nat, node_insert(acc, node));
                }
            },
            Parsed::Fail(_) => {},
        }
    }
}

proof fn lemma_p_hash_wf(b: Seq<u8>, pos: int)
    ensures
        p_hash(b, pos) matches Parsed::Found(m, p) ==> nodes_wf(m),
    decreases b.len() - pos, 1int, 0nat,
{
    match p_u32(b, pos) {
        Parsed::Found(n, p1) => {
            lemma_p_nodes_wf(b, p1, n as nat, Seq::empty());
        },
        Parsed::Fail(_) => {},
    }
}

/// Key uniqueness is an invariant of decoding: whatever Hash the decoder
/// returns — at any position, of any byte stream — has unique keys at every
/// level, in the Hash itself, in every nested Hash, and in every attribute
/// map.
pub proof fn lemma_decode_wf(b: Seq<u8>, pos: int)
    ensures
        p_hash(b, pos) matches Parsed::Found(m, p) ==> nodes_wf(m),
{
    lemma_p_hash_wf(b, pos);
}

} // verus!
