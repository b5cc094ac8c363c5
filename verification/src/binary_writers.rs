//! The encoder: serializes a Hash tree into bytes, mirroring the decoder's
//! framing field for field.  Each writer's contract says exactly which bytes
//! it appends — the `enc_*` functions of `wire` — and when it refuses: a key
//! whose UTF-8 form does not fit its one-byte length prefix, or a count or
//! byte length that does not fit its 32-bit field.  A refused encode leaves
//! the output untouched.

use vstd::prelude::*;

use crate::schema::Schema;
use crate::model::ValueModel;
use crate::types::{get_hashtype, HashValue};
use crate::wire::{
    attr_encodable, enc_attrs, enc_bools, enc_hash, enc_hashes, enc_i8s, enc_key, enc_node,
    enc_nodes,
    enc_str, enc_strs, enc_u16s, enc_u32s, enc_u64s, enc_value, hash_encodable, key_encodable,
    le16, le32, le64, lemma_enc_attrs_push, lemma_enc_hashes_push, lemma_enc_nodes_push,
    lemma_enc_strs_push, lemma_enc_u16s_push, lemma_enc_u32s_push, lemma_enc_u64s_push,
    node_encodable, str_encodable, u16_of_i16, u32_of_i32, u64_of_i64, u8_of_i8, value_encodable,
    EncodeError,
};

verus! {

fn put_u16(buf: &mut Vec<u8>, v: u16)
    ensures
        final(buf)@ == old(buf)@ + le16(v),
{
    buf.push((v % 0x100) as u8);
    buf.push((v / 0x100) as u8);
    proof {
        assert(buf@ =~= old(buf)@ + le16(v));
    }
}

fn put_u32(buf: &mut Vec<u8>, v: u32)
    ensures
        final(buf)@ == old(buf)@ + le32(v),
{
    put_u16(buf, (v % 0x1_0000) as u16);
    put_u16(buf, (v / 0x1_0000) as u16);
    proof {
        assert(buf@ =~= old(buf)@ + le32(v));
    }
}

fn put_u64(buf: &mut Vec<u8>, v: u64)
    ensures
        final(buf)@ == old(buf)@ + le64(v),
{
    put_u32(buf, (v % 0x1_0000_0000) as u32);
    put_u32(buf, (v / 0x1_0000_0000) as u32);
    proof {
        assert(buf@ =~= old(buf)@ + le64(v));
    }
}

/// A string: a four-byte byte-length prefix, then the UTF-8 bytes.
pub fn write_string(buf: &mut Vec<u8>, s: &String) -> (r: Result<usize, EncodeError>)
    ensures
        str_encodable(s@) ==> (r matches Ok(n) && final(buf)@ == old(buf)@ + enc_str(s@) && n
            == enc_str(s@).len()),
        !str_encodable(s@) ==> r == Err::<usize, EncodeError>(EncodeError::Oversize) && final(buf)@
            == old(buf)@,
{
    let bytes = s.as_str().as_bytes();
    if (bytes.len() as u64) <= (u32::MAX as u64) {
        let start = buf.len();
        put_u32(buf, bytes.len() as u32);
        buf.extend_from_slice(bytes);
        proof {
            assert(buf@ =~= old(buf)@ + enc_str(s@));
        }
        Ok(buf.len() - start)
    } else {
        Err(EncodeError::Oversize)
    }
}

/// A key: a one-byte length prefix (the key's UTF-8 form must fit 255
/// bytes), then the UTF-8 bytes.
pub fn write_key(buf: &mut Vec<u8>, s: &String) -> (r: Result<usize, EncodeError>)
    ensures
        key_encodable(s@) ==> (r matches Ok(n) && final(buf)@ == old(buf)@ + enc_key(s@) && n
            == enc_key(s@).len()),
        !key_encodable(s@) ==> r == Err::<usize, EncodeError>(EncodeError::KeyTooLong) && final(buf)@
            == old(buf)@,
{
    let bytes = s.as_str().as_bytes();
    if bytes.len() <= 255 {
        let start = buf.len();
        buf.push(bytes.len() as u8);
        buf.extend_from_slice(bytes);
        proof {
            assert(buf@ =~= old(buf)@ + enc_key(s@));
        }
        Ok(buf.len() - start)
    } else {
        Err(EncodeError::KeyTooLong)
    }
}

/// A vector of raw bytes (the char and unsigned 8-bit kinds): a four-byte
/// count, then the bytes.
pub fn write_vec_u8(buf: &mut Vec<u8>, value: &Vec<u8>) -> (r: Result<usize, EncodeError>)
    ensures
        value@.len() <= u32::MAX ==> (r matches Ok(n) && final(buf)@ == old(buf)@ + le32(
            value@.len() as u32,
        ) + value@ && n == 4 + value@.len()),
        value@.len() > u32::MAX ==> r == Err::<usize, EncodeError>(EncodeError::Oversize)
            && final(buf)@ == old(buf)@,
{
    if (value.len() as u64) <= (u32::MAX as u64) {
        let start = buf.len();
        put_u32(buf, value.len() as u32);
        buf.extend_from_slice(value.as_slice());
        Ok(buf.len() - start)
    } else {
        Err(EncodeError::Oversize)
    }
}

/// A vector of single-byte chars, framed exactly like a byte vector.
pub fn write_vec_char(buf: &mut Vec<u8>, value: &Vec<u8>) -> (r: Result<usize, EncodeError>)
    ensures
        value@.len() <= u32::MAX ==> (r matches Ok(n) && final(buf)@ == old(buf)@ + le32(
            value@.len() as u32,
        ) + value@ && n == 4 + value@.len()),
        value@.len() > u32::MAX ==> r == Err::<usize, EncodeError>(EncodeError::Oversize)
            && final(buf)@ == old(buf)@,
{
    write_vec_u8(buf, value)
}

/// A vector of booleans: a four-byte count, then one byte per element, 1
/// for true and 0 for false.
pub fn write_vec_bool(buf: &mut Vec<u8>, value: &Vec<bool>) -> (r: Result<usize, EncodeError>)
    ensures
        value@.len() <= u32::MAX ==> (r matches Ok(n) && final(buf)@ == old(buf)@ + le32(
            value@.len() as u32,
        ) + enc_bools(value@) && n == 4 + value@.len()),
        value@.len() > u32::MAX ==> r == Err::<usize, EncodeError>(EncodeError::Oversize)
            && final(buf)@ == old(buf)@,
{
    if (value.len() as u64) <= (u32::MAX as u64) {
        let start = buf.len();
        put_u32(buf, value.len() as u32);
        let ghost snap = buf@;
        let n = value.len();
        let mut i: usize = 0;
        while i < n
            invariant
                n == value@.len(),
                0 <= i <= n,
                buf@ =~= snap + enc_bools(value@).take(i as int),
            decreases n - i,
        {
            if value[i] {
                buf.push(1);
            } else {
                buf.push(0);
            }
            proof {
                assert(enc_bools(value@).take(i + 1) =~= enc_bools(value@).take(i as int).push(
                    enc_bools(value@)[i as int],
                ));
                assert(buf@ =~= snap + enc_bools(value@).take(i + 1));
            }
            i += 1;
        }
        proof {
            assert(enc_bools(value@).take(n as int) =~= enc_bools(value@));
            assert(buf@ =~= old(buf)@ + le32(value@.len() as u32) + enc_bools(value@));
        }
        Ok(buf.len() - start)
    } else {
        Err(EncodeError::Oversize)
    }
}

/// A vector of signed bytes: a four-byte count, then one byte per element.
pub fn write_vec_i8(buf: &mut Vec<u8>, value: &Vec<i8>) -> (r: Result<usize, EncodeError>)
    ensures
        value@.len() <= u32::MAX ==> (r matches Ok(n) && final(buf)@ == old(buf)@ + le32(
            value@.len() as u32,
        ) + enc_i8s(value@) && n == 4 + value@.len()),
        value@.len() > u32::MAX ==> r == Err::<usize, EncodeError>(EncodeError::Oversize)
            && final(buf)@ == old(buf)@,
{
    if (value.len() as u64) <= (u32::MAX as u64) {
        let start = buf.len();
        put_u32(buf, value.len() as u32);
        let ghost snap = buf@;
        let n = value.len();
        let mut i: usize = 0;
        while i < n
            invariant
                n == value@.len(),
                0 <= i <= n,
                buf@ =~= snap + enc_i8s(value@).take(i as int),
            decreases n - i,
        {
            let x = value[i];
            let b: u8 = if x >= 0 {
                x as u8
            } else {
                ((x as i16) + 0x100) as u8
            };
            buf.push(b);
            proof {
                assert(b == u8_of_i8(value@[i as int]));
                assert(enc_i8s(value@).take(i + 1) =~= enc_i8s(value@).take(i as int).push(
                    enc_i8s(value@)[i as int],
                ));
                assert(buf@ =~= snap + enc_i8s(value@).take(i + 1));
            }
            i += 1;
        }
        proof {
            assert(enc_i8s(value@).take(n as int) =~= enc_i8s(value@));
            assert(buf@ =~= old(buf)@ + le32(value@.len() as u32) + enc_i8s(value@));
        }
        Ok(buf.len() - start)
    } else {
        Err(EncodeError::Oversize)
    }
}

/// A vector of 16-bit unsigned values: a four-byte count, then the packed
/// little-endian elements.
pub fn write_vec_u16(buf: &mut Vec<u8>, value: &Vec<u16>) -> (r: Result<usize, EncodeError>)
    ensures
        value@.len() <= u32::MAX ==> (r matches Ok(n) && final(buf)@ == old(buf)@ + le32(
            value@.len() as u32,
        ) + enc_u16s(value@) && n == 4 + 2 * value@.len()),
        value@.len() > u32::MAX ==> r == Err::<usize, EncodeError>(EncodeError::Oversize)
            && final(buf)@ == old(buf)@,
{
    if (value.len() as u64) <= (u32::MAX as u64) {
        let start = buf.len();
        put_u32(buf, value.len() as u32);
        let ghost snap = buf@;
        let n = value.len();
        let mut i: usize = 0;
        while i < n
            invariant
                n == value@.len(),
                0 <= i <= n,
                buf@ =~= snap + enc_u16s(value@.take(i as int)),
            decreases n - i,
        {
            put_u16(buf, value[i]);
            proof {
                lemma_enc_u16s_push(value@.take(i as int), value@[i as int]);
                assert(value@.take(i + 1) =~= value@.take(i as int).push(value@[i as int]));
                assert(buf@ =~= snap + enc_u16s(value@.take(i + 1)));
            }
            i += 1;
        }
        proof {
            assert(value@.take(n as int) =~= value@);
            assert(buf@ =~= old(buf)@ + le32(value@.len() as u32) + enc_u16s(value@));
            crate::wire::lemma_enc_u16s_len(value@);
        }
        Ok(buf.len() - start)
    } else {
        Err(EncodeError::Oversize)
    }
}

/// A vector of 16-bit signed values.
pub fn write_vec_i16(buf: &mut Vec<u8>, value: &Vec<i16>) -> (r: Result<usize, EncodeError>)
    ensures
        value@.len() <= u32::MAX ==> (r matches Ok(n) && final(buf)@ == old(buf)@ + le32(
            value@.len() as u32,
        ) + crate::wire::enc_i16s(value@) && n == 4 + 2 * value@.len()),
        value@.len() > u32::MAX ==> r == Err::<usize, EncodeError>(EncodeError::Oversize)
            && final(buf)@ == old(buf)@,
{
    let n = value.len();
    let mut conv: Vec<u16> = Vec::new();
    let mut i: usize = 0;
    while i < n
        invariant
            n == value@.len(),
            0 <= i <= n,
            conv@.len() == i,
            forall|j: int| 0 <= j < i ==> conv@[j] == u16_of_i16(value@[j]),
        decreases n - i,
    {
        let x = value[i];
        let u: u16 = if x >= 0 {
            x as u16
        } else {
            ((x as i32) + 0x1_0000) as u16
        };
        conv.push(u);
        i += 1;
    }
    proof {
        assert(conv@ =~= value@.map_values(|v: i16| u16_of_i16(v)));
    }
    write_vec_u16(buf, &conv)
}

/// A vector of 32-bit unsigned values.
pub fn write_vec_u32(buf: &mut Vec<u8>, value: &Vec<u32>) -> (r: Result<usize, EncodeError>)
    ensures
        value@.len() <= u32::MAX ==> (r matches Ok(n) && final(buf)@ == old(buf)@ + le32(
            value@.len() as u32,
        ) + enc_u32s(value@) && n == 4 + 4 * value@.len()),
        value@.len() > u32::MAX ==> r == Err::<usize, EncodeError>(EncodeError::Oversize)
            && final(buf)@ == old(buf)@,
{
    if (value.len() as u64) <= (u32::MAX as u64) {
        let start = buf.len();
        put_u32(buf, value.len() as u32);
        let ghost snap = buf@;
        let n = value.len();
        let mut i: usize = 0;
        while i < n
            invariant
                n == value@.len(),
                0 <= i <= n,
                buf@ =~= snap + enc_u32s(value@.take(i as int)),
            decreases n - i,
        {
            put_u32(buf, value[i]);
            proof {
                lemma_enc_u32s_push(value@.take(i as int), value@[i as int]);
                assert(value@.take(i + 1) =~= value@.take(i as int).push(value@[i as int]));
                assert(buf@ =~= snap + enc_u32s(value@.take(i + 1)));
            }
            i += 1;
        }
        proof {
            assert(value@.take(n as int) =~= value@);
            assert(buf@ =~= old(buf)@ + le32(value@.len() as u32) + enc_u32s(value@));
            crate::wire::lemma_enc_u32s_len(value@);
        }
        Ok(buf.len() - start)
    } else {
        Err(EncodeError::Oversize)
    }
}

/// A vector of 32-bit signed values.
pub fn write_vec_i32(buf: &mut Vec<u8>, value: &Vec<i32>) -> (r: Result<usize, EncodeError>)
    ensures
        value@.len() <= u32::MAX ==> (r matches Ok(n) && final(buf)@ == old(buf)@ + le32(
            value@.len() as u32,
        ) + crate::wire::enc_i32s(value@) && n == 4 + 4 * value@.len()),
        value@.len() > u32::MAX ==> r == Err::<usize, EncodeError>(EncodeError::Oversize)
            && final(buf)@ == old(buf)@,
{
    let n = value.len();
    let mut conv: Vec<u32> = Vec::new();
    let mut i: usize = 0;
    while i < n
        invariant
            n == value@.len(),
            0 <= i <= n,
            conv@.len() == i,
            forall|j: int| 0 <= j < i ==> conv@[j] == u32_of_i32(value@[j]),
        decreases n - i,
    {
        let x = value[i];
        let u: u32 = if x >= 0 {
            x as u32
        } else {
            ((x as i64) + 0x1_0000_0000) as u32
        };
        conv.push(u);
        i += 1;
    }
    proof {
        assert(conv@ =~= value@.map_values(|v: i32| u32_of_i32(v)));
    }
    write_vec_u32(buf, &conv)
}

/// A vector of 64-bit unsigned values.
pub fn write_vec_u64(buf: &mut Vec<u8>, value: &Vec<u64>) -> (r: Result<usize, EncodeError>)
    ensures
        value@.len() <= u32::MAX ==> (r matches Ok(n) && final(buf)@ == old(buf)@ + le32(
            value@.len() as u32,
        ) + enc_u64s(value@) && n == 4 + 8 * value@.len()),
        value@.len() > u32::MAX ==> r == Err::<usize, EncodeError>(EncodeError::Oversize)
            && final(buf)@ == old(buf)@,
{
    if (value.len() as u64) <= (u32::MAX as u64) {
        let start = buf.len();
        put_u32(buf, value.len() as u32);
        let ghost snap = buf@;
        let n = value.len();
        let mut i: usize = 0;
        while i < n
            invariant
                n == value@.len(),
                0 <= i <= n,
                buf@ =~= snap + enc_u64s(value@.take(i as int)),
            decreases n - i,
        {
            put_u64(buf, value[i]);
            proof {
                lemma_enc_u64s_push(value@.take(i as int), value@[i as int]);
                assert(value@.take(i + 1) =~= value@.take(i as int).push(value@[i as int]));
                assert(buf@ =~= snap + enc_u64s(value@.take(i + 1)));
            }
            i += 1;
        }
        proof {
            assert(value@.take(n as int) =~= value@);
            assert(buf@ =~= old(buf)@ + le32(value@.len() as u32) + enc_u64s(value@));
            crate::wire::lemma_enc_u64s_len(value@);
        }
        Ok(buf.len() - start)
    } else {
        Err(EncodeError::Oversize)
    }
}

/// A vector of 64-bit signed values.
pub fn write_vec_i64(buf: &mut Vec<u8>, value: &Vec<i64>) -> (r: Result<usize, EncodeError>)
    ensures
        value@.len() <= u32::MAX ==> (r matches Ok(n) && final(buf)@ == old(buf)@ + le32(
            value@.len() as u32,
        ) + crate::wire::enc_i64s(value@) && n == 4 + 8 * value@.len()),
        value@.len() > u32::MAX ==> r == Err::<usize, EncodeError>(EncodeError::Oversize)
            && final(buf)@ == old(buf)@,
{
    let n = value.len();
    let mut conv: Vec<u64> = Vec::new();
    let mut i: usize = 0;
    while i < n
        invariant
            n == value@.len(),
            0 <= i <= n,
            conv@.len() == i,
            forall|j: int| 0 <= j < i ==> conv@[j] == u64_of_i64(value@[j]),
        decreases n - i,
    {
        let x = value[i];
        let u: u64 = if x >= 0 {
            x as u64
        } else {
            (((x as i128) + 0x1_0000_0000_0000_0000) as u64)
        };
        conv.push(u);
        i += 1;
    }
    proof {
        assert(conv@ =~= value@.map_values(|v: i64| u64_of_i64(v)));
    }
    write_vec_u64(buf, &conv)
}

/// A vector of strings: a four-byte element count, then each string with
/// its own length prefix.  Refused when the count or any string's byte
/// length does not fit 32 bits, leaving the output untouched.
pub fn write_vstring(buf: &mut Vec<u8>, value: &Vec<String>) -> (r: Result<usize, EncodeError>)
    ensures
        (value@.len() <= u32::MAX && forall|i: int|
            0 <= i < value@.len() ==> str_encodable(value.deep_view()[i])) ==> (r matches Ok(n)
            && final(buf)@ == old(buf)@ + le32(value@.len() as u32) + enc_strs(value.deep_view())
            && n == (le32(value@.len() as u32) + enc_strs(value.deep_view())).len()),
        !(value@.len() <= u32::MAX && forall|i: int|
            0 <= i < value@.len() ==> str_encodable(value.deep_view()[i])) ==> r == Err::<
            usize,
            EncodeError,
        >(EncodeError::Oversize) && final(buf)@ == old(buf)@,
{
    if (value.len() as u64) > (u32::MAX as u64) {
        return Err(EncodeError::Oversize);
    }
    let n = value.len();
    let mut i: usize = 0;
    while i < n
        invariant
            n == value@.len(),
            0 <= i <= n,
            forall|j: int| 0 <= j < i ==> str_encodable(value.deep_view()[j]),
        decreases n - i,
    {
        proof {
            assert(value.deep_view()[i as int] == value@[i as int]@);
        }
        let bytes_len = value[i].as_str().as_bytes().len();
        if (bytes_len as u64) > (u32::MAX as u64) {
            proof {
                assert(!str_encodable(value.deep_view()[i as int]));
            }
            return Err(EncodeError::Oversize);
        }
        i += 1;
    }
    let start = buf.len();
    put_u32(buf, n as u32);
    let ghost snap = buf@;
    let mut i: usize = 0;
    while i < n
        invariant
            n == value@.len(),
            0 <= i <= n,
            forall|j: int| 0 <= j < n ==> str_encodable(value.deep_view()[j]),
            buf@ =~= snap + enc_strs(value.deep_view().take(i as int)),
        decreases n - i,
    {
        proof {
            assert(value.deep_view()[i as int] == value@[i as int]@);
        }
        match write_string(buf, &value[i]) {
            Ok(_) => (),
            Err(_) => {
                proof {
                    assert(false);
                }
            },
        };
        proof {
            lemma_enc_strs_push(
                value.deep_view().take(i as int),
                value.deep_view()[i as int],
            );
            assert(value.deep_view().take(i + 1) =~= value.deep_view().take(i as int).push(
                value.deep_view()[i as int],
            ));
            assert(buf@ =~= snap + enc_strs(value.deep_view().take(i + 1)));
        }
        i += 1;
    }
    proof {
        assert(value.deep_view().take(n as int) =~= value.deep_view());
        assert(buf@ =~= old(buf)@ + le32(value@.len() as u32) + enc_strs(value.deep_view()));
    }
    Ok(buf.len() - start)
}


/// A value's wire form: the bytes `enc_value` specifies.  Refused exactly
/// when the value is not encodable, leaving the output untouched.
#[verifier::loop_isolation(false)]
#[verifier::rlimit(100)]
#[verifier::spinoff_prover]
fn write_value(buf: &mut Vec<u8>, value: &HashValue) -> (r: Result<usize, EncodeError>)
    ensures
        value_encodable(value@) ==> (r matches Ok(n) && final(buf)@ == old(buf)@ + enc_value(
            value@,
        ) && n == enc_value(value@).len()),
        !value_encodable(value@) ==> (r is Err) && final(buf)@ == old(buf)@,
    decreases value@,
{
    let start = buf.len();
    match value {
        HashValue::Bool(x) => {
            if *x {
                buf.push(1);
            } else {
                buf.push(0);
            }
            proof {
                assert(buf@ =~= old(buf)@ + enc_value(value@));
            }
            Ok(1)
        },
        HashValue::VectorBool(x) => write_vec_bool(buf, x),
        HashValue::Char(x) => {
            buf.push(*x);
            proof {
                assert(buf@ =~= old(buf)@ + enc_value(value@));
            }
            Ok(1)
        },
        HashValue::VectorChar(x) => write_vec_char(buf, x),
        HashValue::Int8(x) => {
            let b: u8 = if *x >= 0 {
                *x as u8
            } else {
                ((*x as i16) + 0x100) as u8
            };
            buf.push(b);
            proof {
                assert(buf@ =~= old(buf)@ + enc_value(value@));
            }
            Ok(1)
        },
        HashValue::VectorInt8(x) => write_vec_i8(buf, x),
        HashValue::UInt8(x) => {
            buf.push(*x);
            proof {
                assert(buf@ =~= old(buf)@ + enc_value(value@));
            }
            Ok(1)
        },
        HashValue::VectorUInt8(x) => write_vec_u8(buf, x),
        HashValue::Int16(x) => {
            let u: u16 = if *x >= 0 {
                *x as u16
            } else {
                ((*x as i32) + 0x1_0000) as u16
            };
            put_u16(buf, u);
            Ok(2)
        },
        HashValue::VectorInt16(x) => {
            proof {
                crate::wire::lemma_enc_u16s_len(x@.map_values(|v: i16| u16_of_i16(v)));
            }
            write_vec_i16(buf, x)
        },
        HashValue::UInt16(x) => {
            put_u16(buf, *x);
            Ok(2)
        },
        HashValue::VectorUInt16(x) => {
            proof {
                crate::wire::lemma_enc_u16s_len(x@);
            }
            write_vec_u16(buf, x)
        },
        HashValue::Int32(x) => {
            let u: u32 = if *x >= 0 {
                *x as u32
            } else {
                ((*x as i64) + 0x1_0000_0000) as u32
            };
            put_u32(buf, u);
            Ok(4)
        },
        HashValue::VectorInt32(x) => {
            proof {
                crate::wire::lemma_enc_u32s_len(x@.map_values(|v: i32| u32_of_i32(v)));
            }
            write_vec_i32(buf, x)
        },
        HashValue::UInt32(x) => {
            put_u32(buf, *x);
            Ok(4)
        },
        HashValue::VectorUInt32(x) => {
            proof {
                crate::wire::lemma_enc_u32s_len(x@);
            }
            write_vec_u32(buf, x)
        },
        HashValue::Int64(x) => {
            let u: u64 = if *x >= 0 {
                *x as u64
            } else {
                (((*x as i128) + 0x1_0000_0000_0000_0000) as u64)
            };
            put_u64(buf, u);
            Ok(8)
        },
        HashValue::VectorInt64(x) => {
            proof {
                crate::wire::lemma_enc_u64s_len(x@.map_values(|v: i64| u64_of_i64(v)));
            }
            write_vec_i64(buf, x)
        },
        HashValue::UInt64(x) => {
            put_u64(buf, *x);
            Ok(8)
        },
        HashValue::VectorUInt64(x) => {
            proof {
                crate::wire::lemma_enc_u64s_len(x@);
            }
            write_vec_u64(buf, x)
        },
        HashValue::Float32(x) => {
            put_u32(buf, *x);
            Ok(4)
        },
        HashValue::VectorFloat32(x) => {
            proof {
                crate::wire::lemma_enc_u32s_len(x@);
            }
            write_vec_u32(buf, x)
        },
        HashValue::Float64(x) => {
            put_u64(buf, *x);
            Ok(8)
        },
        HashValue::VectorFloat64(x) => {
            proof {
                crate::wire::lemma_enc_u64s_len(x@);
            }
            write_vec_u64(buf, x)
        },
        HashValue::String(x) => write_string(buf, x),
        HashValue::VectorString(x) => write_vstring(buf, x),
        HashValue::Hash(h) => {
            proof {
                assert(value@ == ValueModel::Hash(h@));
                assert(decreases_to!(value@ => value@->Hash_0));
                assert(value@->Hash_0 == h@);
            }
            write_hash(buf, h)
        },
        HashValue::VectorHash(hs) => {
            proof {
                crate::types::lemma_hashes_seq_view(hs@);
                assert(value@ == ValueModel::VectorHash(crate::types::hashes_seq_view(hs@)));
                assert(decreases_to!(value@ => value@->VectorHash_0));
            }
            write_vhash(buf, hs)
        },
        HashValue::Schema(sc) => {
            proof {
                assert(value@ == ValueModel::Schema(sc@));
                assert(decreases_to!(value@ => value@->Schema_0));
                assert(value@->Schema_0 == sc@);
            }
            write_schema(buf, sc)
        },
    }
}

/// A vector of nested Hashes: a four-byte element count, then each Hash's
/// encoding.  Refused when the count does not fit 32 bits or any element is
/// not encodable, leaving the output untouched.
#[verifier::loop_isolation(false)]
#[verifier::rlimit(60)]
fn write_vhash(buf: &mut Vec<u8>, value: &Vec<crate::hash::Hash>) -> (r: Result<
    usize,
    EncodeError,
>)
    ensures
        (value@.len() <= u32::MAX && forall|i: int|
            0 <= i < value@.len() ==> hash_encodable(crate::types::hashes_seq_view(value@)[i]))
            ==> (r matches Ok(n) && final(buf)@ == old(buf)@ + le32(value@.len() as u32)
            + enc_hashes(crate::types::hashes_seq_view(value@)) && n == (le32(value@.len() as u32)
            + enc_hashes(crate::types::hashes_seq_view(value@))).len()),
        !(value@.len() <= u32::MAX && forall|i: int|
            0 <= i < value@.len() ==> hash_encodable(crate::types::hashes_seq_view(value@)[i]))
            ==> (r is Err) && final(buf)@ == old(buf)@,
    decreases crate::types::hashes_seq_view(value@), 1int,
{
    let start = buf.len();
    if (value.len() as u64) > (u32::MAX as u64) {
        return Err(EncodeError::Oversize);
    }
    let n = value.len();
    proof {
        crate::types::lemma_hashes_seq_view(value@);
    }
    put_u32(buf, n as u32);
    let ghost hsv = crate::types::hashes_seq_view(value@);
    let ghost snap = buf@;
    let mut i: usize = 0;
    while i < n
        invariant
            0 <= i <= n,
            buf@ =~= snap + enc_hashes(hsv.take(i as int)),
            forall|j: int| 0 <= j < i ==> hash_encodable(hsv[j]),
        decreases n - i,
    {
        proof {
            assert(value@[i as int]@ == hsv[i as int]);
            assert(decreases_to!(hsv => hsv[i as int]));
        }
        match write_hash(buf, &value[i]) {
            Ok(_) => (),
            Err(e) => {
                buf.truncate(start);
                proof {
                    assert(buf@ =~= old(buf)@);
                    assert(!hash_encodable(hsv[i as int]));
                }
                return Err(e);
            },
        };
        proof {
            lemma_enc_hashes_push(hsv.take(i as int), hsv[i as int]);
            assert(hsv.take(i + 1) =~= hsv.take(i as int).push(hsv[i as int]));
            assert(buf@ =~= snap + enc_hashes(hsv.take(i + 1)));
        }
        i += 1;
    }
    proof {
        assert(hsv.take(n as int) =~= hsv);
        assert(buf@ =~= old(buf)@ + le32(value@.len() as u32) + enc_hashes(hsv));
    }
    Ok(buf.len() - start)
}

/// A Schema: its class-id key and nested Hash are laid down behind a
/// four-byte length of those bytes, which must precede the content it
/// measures.  Refused exactly when the Schema is not encodable, leaving the
/// output untouched.
#[verifier::rlimit(60)]
fn write_schema(buf: &mut Vec<u8>, schema: &Schema) -> (r: Result<usize, EncodeError>)
    ensures
        crate::wire::schema_encodable(schema@) ==> (r matches Ok(n) && final(buf)@ == old(buf)@
            + crate::wire::enc_schema(schema@) && n == crate::wire::enc_schema(schema@).len()),
        !crate::wire::schema_encodable(schema@) ==> (r is Err) && final(buf)@ == old(buf)@,
    decreases schema@, 1int,
{
    let start = buf.len();
    let mut c: Vec<u8> = Vec::new();
    match write_key(&mut c, &schema.class_id) {
        Ok(_) => (),
        Err(e) => {
            return Err(e);
        },
    };
    proof {
        assert(decreases_to!(schema@ => schema@.hash));
        assert((schema.hash)@ == schema@.hash);
    }
    match write_hash(&mut c, &schema.hash) {
        Ok(_) => (),
        Err(e) => {
            return Err(e);
        },
    };
    if (c.len() as u64) > (u32::MAX as u64) {
        return Err(EncodeError::Oversize);
    }
    put_u32(buf, c.len() as u32);
    buf.append(&mut c);
    proof {
        assert(buf@ =~= old(buf)@ + crate::wire::enc_schema(schema@));
    }
    Ok(buf.len() - start)
}

/// One node: key, type code/// One node: key, type code, attribute count, attributes, value.  On
/// refusal the bytes already appended stay (the caller discards them).
#[verifier::loop_isolation(false)]
#[verifier::rlimit(100)]
#[verifier::spinoff_prover]
fn write_node(buf: &mut Vec<u8>, node: &crate::hash::Node) -> (r: Result<(), EncodeError>)
    ensures
        r is Ok ==> node_encodable(node@) && final(buf)@ == old(buf)@ + enc_node(node@),
        r is Err ==> !node_encodable(node@) && old(buf)@.is_prefix_of(final(buf)@),
    decreases node@,
{
    let ghost nm = node@;
    match write_key(buf, &node.key) {
        Ok(_) => (),
        Err(e) => {
            return Err(e);
        },
    };
    put_u32(buf, get_hashtype(&node.value));
    let na = node.attrs.len();
    if (na as u64) > (u32::MAX as u64) {
        return Err(EncodeError::Oversize);
    }
    put_u32(buf, na as u32);
    let ghost asnap = buf@;
    let mut j: usize = 0;
    while j < na
        invariant
            0 <= j <= na,
            buf@ =~= asnap + enc_attrs(nm.attrs.take(j as int)),
            forall|k: int| 0 <= k < j ==> attr_encodable(nm.attrs[k]),
        decreases na - j,
    {
        let attr = match node.attrs.get_index(j) {
            Some(a) => a,
            None => vstd::pervasive::unreached(),
        };
        let ghost am = nm.attrs[j as int];
        proof {
            assert(attr@ == am);
        }
        match write_key(buf, &attr.key) {
            Ok(_) => (),
            Err(e) => {
                proof {
                    assert(!attr_encodable(am));
                    assert(!node_encodable(nm));
                }
                return Err(e);
            },
        };
        put_u32(buf, get_hashtype(&attr.value));
        proof {
            assert(decreases_to!(nm.attrs => nm.attrs[j as int]));
            assert((attr.value)@ == am.value);
        }
        match write_value(buf, &attr.value) {
            Ok(_) => (),
            Err(e) => {
                proof {
                    assert(!attr_encodable(am));
                    assert(!node_encodable(nm));
                }
                return Err(e);
            },
        };
        proof {
            lemma_enc_attrs_push(nm.attrs.take(j as int), am);
            assert(nm.attrs.take(j + 1) =~= nm.attrs.take(j as int).push(am));
            assert(buf@ =~= asnap + enc_attrs(nm.attrs.take(j + 1)));
        }
        j += 1;
    }
    proof {
        assert(nm.attrs.take(na as int) =~= nm.attrs);
    }
    proof {
        assert(decreases_to!(nm => nm.value));
        assert((node.value)@ == nm.value);
    }
    match write_value(buf, &node.value) {
        Ok(_) => (),
        Err(e) => {
            return Err(e);
        },
    };
    proof {
        assert(buf@ =~= old(buf)@ + enc_node(nm));
    }
    Ok(())
}

/// A whole Hash: a four-byte key count, then each node — key, type code,
/// attribute count, attributes, value — in insertion order, exactly the
/// bytes `enc_hash` specifies.  Returns the number of bytes written.
/// Refused exactly when the Hash is not encodable (a key longer than 255
/// UTF-8 bytes, or a count or byte length past 32 bits), leaving the output
/// untouched.
#[verifier::loop_isolation(false)]
#[verifier::rlimit(60)]
pub fn write_hash(buf: &mut Vec<u8>, hash: &crate::hash::Hash) -> (r: Result<usize, EncodeError>)
    ensures
        hash_encodable(hash@) ==> (r matches Ok(n) && final(buf)@ == old(buf)@ + enc_hash(hash@)
            && n == enc_hash(hash@).len()),
        !hash_encodable(hash@) ==> (r is Err) && final(buf)@ == old(buf)@,
    decreases hash@,
{
    let start = buf.len();
    let n = hash.len();
    if (n as u64) > (u32::MAX as u64) {
        return Err(EncodeError::Oversize);
    }
    put_u32(buf, n as u32);
    let ghost hv = hash@;
    let ghost snap = buf@;
    let mut i: usize = 0;
    while i < n
        invariant
            0 <= i <= n,
            buf@ =~= snap + enc_nodes(hv.take(i as int)),
            forall|j: int| 0 <= j < i ==> node_encodable(hv[j]),
        decreases n - i,
    {
        let node = match hash.get_index(i) {
            Some(nd) => nd,
            None => vstd::pervasive::unreached(),
        };
        let ghost nm = hv[i as int];
        proof {
            assert(node@ == nm);
            assert(decreases_to!(hv => hv[i as int]));
        }
        match write_node(buf, node) {
            Ok(_) => (),
            Err(e) => {
                buf.truncate(start);
                proof {
                    assert(buf@ =~= old(buf)@);
                    assert(!node_encodable(nm));
                }
                return Err(e);
            },
        };
        proof {
            lemma_enc_nodes_push(hv.take(i as int), nm);
            assert(hv.take(i + 1) =~= hv.take(i as int).push(nm));
            assert(buf@ =~= snap + enc_nodes(hv.take(i + 1)));
        }
        i += 1;
    }
    proof {
        assert(hv.take(n as int) =~= hv);
        assert(buf@ =~= old(buf)@ + enc_hash(hv));
    }
    Ok(buf.len() - start)
}

} // verus!
