//! The decoder: recursive descent over a byte slice, reconstructing a Hash
//! tree.  Every reader's contract says that it returns exactly what the
//! corresponding parsing function in `wire` describes, for every input; a
//! short read, invalid UTF-8 or an unknown type code surfaces as a
//! `DecodeError`, and decoding is all-or-nothing.

use vstd::prelude::*;

use crate::attributes::Attributes;
use crate::model::{attr_insert, node_insert, AttrModel, NodeModel};
use crate::text::string_from_utf8;
use crate::schema::Schema;
use crate::types::{hashes_seq_view, lemma_hashes_seq_view, nodes_seq_view, HashValue};
use crate::wire::{
    i16_of_u16, i32_of_u32, i64_of_u64, i8_of_u8, p_attrs, p_hash, p_hashes, p_key, p_node,
    p_nodes, p_schema, p_str, p_u16, p_u32, p_u64, p_u8, p_value, p_vbool, p_vi16, p_vi32,
    lemma_p_nodes_lower, p_vi64, p_vi8, p_vstr, p_vu16, p_vu32, p_vu64, p_vu8, u16_le, u32_le,
    u64_le, DecodeError, Parsed,
};

verus! {

/// A cursor over the byte stream being decoded.
pub struct ByteReader<'a> {
    pub bytes: &'a [u8],
    pub pos: usize,
}

impl<'a> ByteReader<'a> {
    /// The cursor is within its slice.
    pub open spec fn wf(self) -> bool {
        self.pos <= self.bytes@.len()
    }

    /// A cursor at the start of the given bytes.
    pub fn new(bytes: &'a [u8]) -> (r: ByteReader<'a>)
        ensures
            r.bytes@ == bytes@,
            r.pos == 0,
            r.wf(),
    {
        ByteReader { bytes, pos: 0 }
    }

    /// The current position: how many bytes have been consumed.
    pub fn position(&self) -> (r: usize)
        ensures
            r == self.pos,
    {
        self.pos
    }
}

/// The common contract of a reader whose result is compared directly to the
/// parsed value.
pub open spec fn advances<'a, T>(
    pre: ByteReader<'a>,
    post: ByteReader<'a>,
    r: Result<T, DecodeError>,
    parsed: Parsed<T>,
) -> bool {
    &&& post.bytes@ == pre.bytes@
    &&& pre.pos <= post.pos <= pre.bytes@.len()
    &&& match parsed {
        Parsed::Found(v, p) => (r matches Ok(x) && x == v) && post.pos == p,
        Parsed::Fail(e) => r matches Err(e2) && e2 == e,
    }
}

/// The common contract of a reader whose result is compared to the parsed
/// value through its view.
pub open spec fn reads_to<'a, T: View>(
    pre: ByteReader<'a>,
    post: ByteReader<'a>,
    r: Result<T, DecodeError>,
    parsed: Parsed<T::V>,
) -> bool {
    &&& post.bytes@ == pre.bytes@
    &&& pre.pos <= post.pos <= pre.bytes@.len()
    &&& match parsed {
        Parsed::Found(v, p) => (r matches Ok(x) && x@ == v) && post.pos == p,
        Parsed::Fail(e) => r matches Err(e2) && e2 == e,
    }
}

/// One byte.
pub fn read_u8(buf: &mut ByteReader) -> (r: Result<u8, DecodeError>)
    requires
        old(buf).wf(),
    ensures
        final(buf).wf(),
        advances(*old(buf), *final(buf), r, p_u8(old(buf).bytes@, old(buf).pos as int)),
{
    if buf.bytes.len() - buf.pos >= 1 {
        let v = buf.bytes[buf.pos];
        buf.pos = buf.pos + 1;
        Ok(v)
    } else {
        Err(DecodeError::Truncated)
    }
}

/// One byte reinterpreted as a signed value.
pub fn read_i8(buf: &mut ByteReader) -> (r: Result<i8, DecodeError>)
    requires
        old(buf).wf(),
    ensures
        final(buf).wf(),
        advances(
            *old(buf),
            *final(buf),
            r,
            (match p_u8(old(buf).bytes@, old(buf).pos as int) {
                Parsed::Found(v, p) => Parsed::Found(i8_of_u8(v), p),
                Parsed::Fail(e) => Parsed::Fail(e),
            }),
        ),
{
    match read_u8(buf) {
        Ok(v) => {
            if v < 0x80 {
                Ok(v as i8)
            } else {
                Ok(((v as i16) - 0x100) as i8)
            }
        },
        Err(e) => Err(e),
    }
}

/// One byte as a boolean: nonzero is true.
pub fn read_bool(buf: &mut ByteReader) -> (r: Result<bool, DecodeError>)
    requires
        old(buf).wf(),
    ensures
        final(buf).wf(),
        advances(
            *old(buf),
            *final(buf),
            r,
            (match p_u8(old(buf).bytes@, old(buf).pos as int) {
                Parsed::Found(v, p) => Parsed::Found(v != 0, p),
                Parsed::Fail(e) => Parsed::Fail(e),
            }),
        ),
{
    match read_u8(buf) {
        Ok(v) => Ok(v != 0),
        Err(e) => Err(e),
    }
}

/// One byte as a single-byte char.
pub fn read_char(buf: &mut ByteReader) -> (r: Result<u8, DecodeError>)
    requires
        old(buf).wf(),
    ensures
        final(buf).wf(),
        advances(*old(buf), *final(buf), r, p_u8(old(buf).bytes@, old(buf).pos as int)),
{
    read_u8(buf)
}

/// Two bytes, little-endian.
pub fn read_u16(buf: &mut ByteReader) -> (r: Result<u16, DecodeError>)
    requires
        old(buf).wf(),
    ensures
        final(buf).wf(),
        advances(*old(buf), *final(buf), r, p_u16(old(buf).bytes@, old(buf).pos as int)),
{
    if buf.bytes.len() - buf.pos >= 2 {
        let b0 = buf.bytes[buf.pos] as u16;
        let b1 = buf.bytes[buf.pos + 1] as u16;
        buf.pos = buf.pos + 2;
        Ok(b0 + 0x100 * b1)
    } else {
        Err(DecodeError::Truncated)
    }
}

/// Two bytes, little-endian, reinterpreted as a signed value.
pub fn read_i16(buf: &mut ByteReader) -> (r: Result<i16, DecodeError>)
    requires
        old(buf).wf(),
    ensures
        final(buf).wf(),
        advances(
            *old(buf),
            *final(buf),
            r,
            (match p_u16(old(buf).bytes@, old(buf).pos as int) {
                Parsed::Found(v, p) => Parsed::Found(i16_of_u16(v), p),
                Parsed::Fail(e) => Parsed::Fail(e),
            }),
        ),
{
    match read_u16(buf) {
        Ok(v) => {
            if v < 0x8000 {
                Ok(v as i16)
            } else {
                Ok(((v as i32) - 0x1_0000) as i16)
            }
        },
        Err(e) => Err(e),
    }
}

/// Four bytes, little-endian.
pub fn read_u32(buf: &mut ByteReader) -> (r: Result<u32, DecodeError>)
    requires
        old(buf).wf(),
    ensures
        final(buf).wf(),
        advances(*old(buf), *final(buf), r, p_u32(old(buf).bytes@, old(buf).pos as int)),
{
    if buf.bytes.len() - buf.pos >= 4 {
        let b0 = buf.bytes[buf.pos] as u32;
        let b1 = buf.bytes[buf.pos + 1] as u32;
        let b2 = buf.bytes[buf.pos + 2] as u32;
        let b3 = buf.bytes[buf.pos + 3] as u32;
        buf.pos = buf.pos + 4;
        Ok(b0 + 0x100 * b1 + 0x1_0000 * b2 + 0x100_0000 * b3)
    } else {
        Err(DecodeError::Truncated)
    }
}

/// Four bytes, little-endian, reinterpreted as a signed value.
pub fn read_i32(buf: &mut ByteReader) -> (r: Result<i32, DecodeError>)
    requires
        old(buf).wf(),
    ensures
        final(buf).wf(),
        advances(
            *old(buf),
            *final(buf),
            r,
            (match p_u32(old(buf).bytes@, old(buf).pos as int) {
                Parsed::Found(v, p) => Parsed::Found(i32_of_u32(v), p),
                Parsed::Fail(e) => Parsed::Fail(e),
            }),
        ),
{
    match read_u32(buf) {
        Ok(v) => {
            if v < 0x8000_0000 {
                Ok(v as i32)
            } else {
                Ok(((v as i64) - 0x1_0000_0000) as i32)
            }
        },
        Err(e) => Err(e),
    }
}

/// Eight bytes, little-endian.
pub fn read_u64(buf: &mut ByteReader) -> (r: Result<u64, DecodeError>)
    requires
        old(buf).wf(),
    ensures
        final(buf).wf(),
        advances(*old(buf), *final(buf), r, p_u64(old(buf).bytes@, old(buf).pos as int)),
{
    if buf.bytes.len() - buf.pos >= 8 {
        let b0 = buf.bytes[buf.pos] as u32;
        let b1 = buf.bytes[buf.pos + 1] as u32;
        let b2 = buf.bytes[buf.pos + 2] as u32;
        let b3 = buf.bytes[buf.pos + 3] as u32;
        let b4 = buf.bytes[buf.pos + 4] as u32;
        let b5 = buf.bytes[buf.pos + 5] as u32;
        let b6 = buf.bytes[buf.pos + 6] as u32;
        let b7 = buf.bytes[buf.pos + 7] as u32;
        let lo = b0 + 0x100 * b1 + 0x1_0000 * b2 + 0x100_0000 * b3;
        let hi = b4 + 0x100 * b5 + 0x1_0000 * b6 + 0x100_0000 * b7;
        buf.pos = buf.pos + 8;
        Ok((lo as u64) + 0x1_0000_0000 * (hi as u64))
    } else {
        Err(DecodeError::Truncated)
    }
}

/// Eight bytes, little-endian, reinterpreted as a signed value.
pub fn read_i64(buf: &mut ByteReader) -> (r: Result<i64, DecodeError>)
    requires
        old(buf).wf(),
    ensures
        final(buf).wf(),
        advances(
            *old(buf),
            *final(buf),
            r,
            (match p_u64(old(buf).bytes@, old(buf).pos as int) {
                Parsed::Found(v, p) => Parsed::Found(i64_of_u64(v), p),
                Parsed::Fail(e) => Parsed::Fail(e),
            }),
        ),
{
    match read_u64(buf) {
        Ok(v) => {
            if v < 0x8000_0000_0000_0000 {
                Ok(v as i64)
            } else {
                Ok(((v as i128) - 0x1_0000_0000_0000_0000) as i64)
            }
        },
        Err(e) => Err(e),
    }
}

/// A run of raw bytes of known length, copied out of the stream.
fn read_raw(buf: &mut ByteReader, n: usize) -> (r: Result<Vec<u8>, DecodeError>)
    requires
        old(buf).wf(),
    ensures
        final(buf).wf(),
        final(buf).bytes@ == old(buf).bytes@,
        old(buf).pos <= final(buf).pos <= old(buf).bytes@.len(),
        (if old(buf).pos + n <= old(buf).bytes@.len() {
            (r matches Ok(v) && v@ == old(buf).bytes@.subrange(
                old(buf).pos as int,
                old(buf).pos + n,
            )) && final(buf).pos == old(buf).pos + n
        } else {
            r == Err::<Vec<u8>, DecodeError>(DecodeError::Truncated)
        }),
{
    let len = buf.bytes.len();
    if n <= len - buf.pos {
        let start = buf.pos;
        let mut out: Vec<u8> = Vec::new();
        let mut i: usize = 0;
        while i < n
            invariant
                buf.wf(),
                buf.bytes@ == old(buf).bytes@,
                buf.pos == start,
                len == buf.bytes@.len(),
                start + n <= len,
                0 <= i <= n,
                out@.len() == i,
                forall|j: int| 0 <= j < i ==> out@[j] == buf.bytes@[start + j],
            decreases n - i,
        {
            out.push(buf.bytes[start + i]);
            i += 1;
        }
        buf.pos = buf.pos + n;
        proof {
            assert(out@ =~= old(buf).bytes@.subrange(start as int, start + n));
        }
        Ok(out)
    } else {
        Err(DecodeError::Truncated)
    }
}

/// A key: a one-byte length prefix, then that many UTF-8 bytes.
pub fn read_key(buf: &mut ByteReader) -> (r: Result<String, DecodeError>)
    requires
        old(buf).wf(),
    ensures
        final(buf).wf(),
        reads_to(*old(buf), *final(buf), r, p_key(old(buf).bytes@, old(buf).pos as int)),
{
    let n = match read_u8(buf) {
        Ok(n) => n,
        Err(e) => {
            return Err(e);
        },
    };
    let bytes = match read_raw(buf, n as usize) {
        Ok(v) => v,
        Err(e) => {
            return Err(e);
        },
    };
    match string_from_utf8(bytes) {
        Some(s) => Ok(s),
        None => Err(DecodeError::InvalidUtf8),
    }
}

/// A string: a four-byte length prefix, then that many UTF-8 bytes.
pub fn read_string(buf: &mut ByteReader) -> (r: Result<String, DecodeError>)
    requires
        old(buf).wf(),
    ensures
        final(buf).wf(),
        reads_to(*old(buf), *final(buf), r, p_str(old(buf).bytes@, old(buf).pos as int)),
{
    let n = match read_u32(buf) {
        Ok(n) => n,
        Err(e) => {
            return Err(e);
        },
    };
    let bytes = match read_raw(buf, n as usize) {
        Ok(v) => v,
        Err(e) => {
            return Err(e);
        },
    };
    match string_from_utf8(bytes) {
        Some(s) => Ok(s),
        None => Err(DecodeError::InvalidUtf8),
    }
}


/// A vector of booleans: a four-byte count, then one byte per element,
/// nonzero meaning true.
pub fn read_vbool(buf: &mut ByteReader) -> (r: Result<Vec<bool>, DecodeError>)
    requires
        old(buf).wf(),
    ensures
        final(buf).wf(),
        reads_to(*old(buf), *final(buf), r, p_vbool(old(buf).bytes@, old(buf).pos as int)),
{
    let ghost b = old(buf).bytes@;
    let ghost pos0 = old(buf).pos as int;
    let n = match read_u32(buf) {
        Ok(n) => n,
        Err(e) => {
            return Err(e);
        },
    };
    let n = n as usize;
    let len = buf.bytes.len();
    if n <= len - buf.pos {
        let start = buf.pos;
        let mut out: Vec<bool> = Vec::new();
        let mut i: usize = 0;
        while i < n
            invariant
                buf.wf(),
                buf.bytes@ == b,
                buf.pos == start,
                len == b.len(),
                start + n <= len,
                0 <= i <= n,
                out@.len() == i,
                forall|j: int| 0 <= j < i ==> out@[j] == (b[start + j] != 0),
            decreases n - i,
        {
            out.push(buf.bytes[start + i] != 0);
            i += 1;
        }
        buf.pos = buf.pos + n;
        proof {
            assert(out@ =~= Seq::new(n as nat, |i: int| b[start + i] != 0));
        }
        Ok(out)
    } else {
        Err(DecodeError::Truncated)
    }
}

/// A vector of single-byte chars: a four-byte count, then the raw bytes.
pub fn read_vchar(buf: &mut ByteReader) -> (r: Result<Vec<u8>, DecodeError>)
    requires
        old(buf).wf(),
    ensures
        final(buf).wf(),
        reads_to(*old(buf), *final(buf), r, p_vu8(old(buf).bytes@, old(buf).pos as int)),
{
    read_vu8(buf)
}

/// A vector of unsigned bytes: a four-byte count, then the raw bytes.
pub fn read_vu8(buf: &mut ByteReader) -> (r: Result<Vec<u8>, DecodeError>)
    requires
        old(buf).wf(),
    ensures
        final(buf).wf(),
        reads_to(*old(buf), *final(buf), r, p_vu8(old(buf).bytes@, old(buf).pos as int)),
{
    let n = match read_u32(buf) {
        Ok(n) => n,
        Err(e) => {
            return Err(e);
        },
    };
    read_raw(buf, n as usize)
}

/// A vector of signed bytes: a four-byte count, then one byte per element.
pub fn read_vi8(buf: &mut ByteReader) -> (r: Result<Vec<i8>, DecodeError>)
    requires
        old(buf).wf(),
    ensures
        final(buf).wf(),
        reads_to(*old(buf), *final(buf), r, p_vi8(old(buf).bytes@, old(buf).pos as int)),
{
    let ghost b = old(buf).bytes@;
    let n = match read_u32(buf) {
        Ok(n) => n,
        Err(e) => {
            return Err(e);
        },
    };
    let n = n as usize;
    let len = buf.bytes.len();
    if n <= len - buf.pos {
        let start = buf.pos;
        let mut out: Vec<i8> = Vec::new();
        let mut i: usize = 0;
        while i < n
            invariant
                buf.wf(),
                buf.bytes@ == b,
                buf.pos == start,
                len == b.len(),
                start + n <= len,
                0 <= i <= n,
                out@.len() == i,
                forall|j: int| 0 <= j < i ==> out@[j] == i8_of_u8(b[start + j]),
            decreases n - i,
        {
            let v = buf.bytes[start + i];
            let sv: i8 = if v < 0x80 {
                v as i8
            } else {
                ((v as i16) - 0x100) as i8
            };
            out.push(sv);
            i += 1;
        }
        buf.pos = buf.pos + n;
        proof {
            assert(out@ =~= Seq::new(n as nat, |i: int| i8_of_u8(b[start + i])));
        }
        Ok(out)
    } else {
        Err(DecodeError::Truncated)
    }
}

/// A vector of 16-bit unsigned values: a four-byte count, then the packed
/// little-endian elements.
pub fn read_vu16(buf: &mut ByteReader) -> (r: Result<Vec<u16>, DecodeError>)
    requires
        old(buf).wf(),
    ensures
        final(buf).wf(),
        reads_to(*old(buf), *final(buf), r, p_vu16(old(buf).bytes@, old(buf).pos as int)),
{
    let ghost b = old(buf).bytes@;
    let n = match read_u32(buf) {
        Ok(n) => n,
        Err(e) => {
            return Err(e);
        },
    };
    let n = n as usize;
    let len = buf.bytes.len();
    if n <= (len - buf.pos) / 2 {
        let start = buf.pos;
        let mut out: Vec<u16> = Vec::new();
        let mut i: usize = 0;
        while i < n
            invariant
                buf.wf(),
                buf.bytes@ == b,
                len == b.len(),
                start + 2 * n <= len,
                0 <= i <= n,
                buf.pos == start + 2 * i,
                out@.len() == i,
                forall|j: int| 0 <= j < i ==> out@[j] == u16_le(b[start + 2 * j], b[start + 2 * j + 1]),
            decreases n - i,
        {
            let v = match read_u16(buf) {
                Ok(v) => v,
                Err(_) => vstd::pervasive::unreached(),
            };
            out.push(v);
            i += 1;
        }
        proof {
            assert(out@ =~= Seq::new(n as nat, |i: int| u16_le(b[start + 2 * i], b[start + 2 * i + 1])));
        }
        Ok(out)
    } else {
        Err(DecodeError::Truncated)
    }
}

/// A vector of 16-bit signed values.
pub fn read_vi16(buf: &mut ByteReader) -> (r: Result<Vec<i16>, DecodeError>)
    requires
        old(buf).wf(),
    ensures
        final(buf).wf(),
        reads_to(*old(buf), *final(buf), r, p_vi16(old(buf).bytes@, old(buf).pos as int)),
{
    let v = match read_vu16(buf) {
        Ok(v) => v,
        Err(e) => {
            return Err(e);
        },
    };
    let n = v.len();
    let mut out: Vec<i16> = Vec::new();
    let mut i: usize = 0;
    while i < n
        invariant
            n == v@.len(),
            0 <= i <= n,
            out@.len() == i,
            forall|j: int| 0 <= j < i ==> out@[j] == i16_of_u16(v@[j]),
        decreases n - i,
    {
        let x = v[i];
        let sv: i16 = if x < 0x8000 {
            x as i16
        } else {
            ((x as i32) - 0x1_0000) as i16
        };
        out.push(sv);
        i += 1;
    }
    proof {
        assert(out@ =~= v@.map_values(|x: u16| i16_of_u16(x)));
    }
    Ok(out)
}

/// A vector of 32-bit unsigned values.
pub fn read_vu32(buf: &mut ByteReader) -> (r: Result<Vec<u32>, DecodeError>)
    requires
        old(buf).wf(),
    ensures
        final(buf).wf(),
        reads_to(*old(buf), *final(buf), r, p_vu32(old(buf).bytes@, old(buf).pos as int)),
{
    let ghost b = old(buf).bytes@;
    let n = match read_u32(buf) {
        Ok(n) => n,
        Err(e) => {
            return Err(e);
        },
    };
    let n = n as usize;
    let len = buf.bytes.len();
    if n <= (len - buf.pos) / 4 {
        let start = buf.pos;
        let mut out: Vec<u32> = Vec::new();
        let mut i: usize = 0;
        while i < n
            invariant
                buf.wf(),
                buf.bytes@ == b,
                len == b.len(),
                start + 4 * n <= len,
                0 <= i <= n,
                buf.pos == start + 4 * i,
                out@.len() == i,
                forall|j: int|
                    0 <= j < i ==> out@[j] == u32_le(
                        b[start + 4 * j],
                        b[start + 4 * j + 1],
                        b[start + 4 * j + 2],
                        b[start + 4 * j + 3],
                    ),
            decreases n - i,
        {
            let v = match read_u32(buf) {
                Ok(v) => v,
                Err(_) => vstd::pervasive::unreached(),
            };
            out.push(v);
            i += 1;
        }
        proof {
            assert(out@ =~= Seq::new(
                n as nat,
                |i: int|
                    u32_le(
                        b[start + 4 * i],
                        b[start + 4 * i + 1],
                        b[start + 4 * i + 2],
                        b[start + 4 * i + 3],
                    ),
            ));
        }
        Ok(out)
    } else {
        Err(DecodeError::Truncated)
    }
}

/// A vector of 32-bit signed values.
pub fn read_vi32(buf: &mut ByteReader) -> (r: Result<Vec<i32>, DecodeError>)
    requires
        old(buf).wf(),
    ensures
        final(buf).wf(),
        reads_to(*old(buf), *final(buf), r, p_vi32(old(buf).bytes@, old(buf).pos as int)),
{
    let v = match read_vu32(buf) {
        Ok(v) => v,
        Err(e) => {
            return Err(e);
        },
    };
    let n = v.len();
    let mut out: Vec<i32> = Vec::new();
    let mut i: usize = 0;
    while i < n
        invariant
            n == v@.len(),
            0 <= i <= n,
            out@.len() == i,
            forall|j: int| 0 <= j < i ==> out@[j] == i32_of_u32(v@[j]),
        decreases n - i,
    {
        let x = v[i];
        let sv: i32 = if x < 0x8000_0000 {
            x as i32
        } else {
            ((x as i64) - 0x1_0000_0000) as i32
        };
        out.push(sv);
        i += 1;
    }
    proof {
        assert(out@ =~= v@.map_values(|x: u32| i32_of_u32(x)));
    }
    Ok(out)
}

/// A vector of 64-bit unsigned values.
pub fn read_vu64(buf: &mut ByteReader) -> (r: Result<Vec<u64>, DecodeError>)
    requires
        old(buf).wf(),
    ensures
        final(buf).wf(),
        reads_to(*old(buf), *final(buf), r, p_vu64(old(buf).bytes@, old(buf).pos as int)),
{
    let ghost b = old(buf).bytes@;
    let n = match read_u32(buf) {
        Ok(n) => n,
        Err(e) => {
            return Err(e);
        },
    };
    let n = n as usize;
    let len = buf.bytes.len();
    if n <= (len - buf.pos) / 8 {
        let start = buf.pos;
        let mut out: Vec<u64> = Vec::new();
        let mut i: usize = 0;
        while i < n
            invariant
                buf.wf(),
                buf.bytes@ == b,
                len == b.len(),
                start + 8 * n <= len,
                0 <= i <= n,
                buf.pos == start + 8 * i,
                out@.len() == i,
                forall|j: int|
                    0 <= j < i ==> out@[j] == u64_le(
                        b[start + 8 * j],
                        b[start + 8 * j + 1],
                        b[start + 8 * j + 2],
                        b[start + 8 * j + 3],
                        b[start + 8 * j + 4],
                        b[start + 8 * j + 5],
                        b[start + 8 * j + 6],
                        b[start + 8 * j + 7],
                    ),
            decreases n - i,
        {
            let v = match read_u64(buf) {
                Ok(v) => v,
                Err(_) => vstd::pervasive::unreached(),
            };
            out.push(v);
            i += 1;
        }
        proof {
            assert(out@ =~= Seq::new(
                n as nat,
                |i: int|
                    u64_le(
                        b[start + 8 * i],
                        b[start + 8 * i + 1],
                        b[start + 8 * i + 2],
                        b[start + 8 * i + 3],
                        b[start + 8 * i + 4],
                        b[start + 8 * i + 5],
                        b[start + 8 * i + 6],
                        b[start + 8 * i + 7],
                    ),
            ));
        }
        Ok(out)
    } else {
        Err(DecodeError::Truncated)
    }
}

/// A vector of 64-bit signed values.
pub fn read_vi64(buf: &mut ByteReader) -> (r: Result<Vec<i64>, DecodeError>)
    requires
        old(buf).wf(),
    ensures
        final(buf).wf(),
        reads_to(*old(buf), *final(buf), r, p_vi64(old(buf).bytes@, old(buf).pos as int)),
{
    let v = match read_vu64(buf) {
        Ok(v) => v,
        Err(e) => {
            return Err(e);
        },
    };
    let n = v.len();
    let mut out: Vec<i64> = Vec::new();
    let mut i: usize = 0;
    while i < n
        invariant
            n == v@.len(),
            0 <= i <= n,
            out@.len() == i,
            forall|j: int| 0 <= j < i ==> out@[j] == i64_of_u64(v@[j]),
        decreases n - i,
    {
        let x = v[i];
        let sv: i64 = if x < 0x8000_0000_0000_0000 {
            x as i64
        } else {
            ((x as i128) - 0x1_0000_0000_0000_0000) as i64
        };
        out.push(sv);
        i += 1;
    }
    proof {
        assert(out@ =~= v@.map_values(|x: u64| i64_of_u64(x)));
    }
    Ok(out)
}

/// A vector of strings: a four-byte element count, then that many strings.
pub fn read_vstring(buf: &mut ByteReader) -> (r: Result<Vec<String>, DecodeError>)
    requires
        old(buf).wf(),
    ensures
        final(buf).wf(),
        final(buf).bytes@ == old(buf).bytes@,
        old(buf).pos <= final(buf).pos <= old(buf).bytes@.len(),
        (match p_u32(old(buf).bytes@, old(buf).pos as int) {
            Parsed::Found(k, p1) => (match p_vstr(
                old(buf).bytes@,
                p1,
                k as nat,
                Seq::empty(),
            ) {
                Parsed::Found(ss, p2) => (r matches Ok(v) && v.deep_view() == ss)
                    && final(buf).pos == p2,
                Parsed::Fail(e) => r matches Err(e2) && e2 == e,
            }),
            Parsed::Fail(e) => r matches Err(e2) && e2 == e,
        }),
{
    let ghost b = old(buf).bytes@;
    let k = match read_u32(buf) {
        Ok(k) => k,
        Err(e) => {
            return Err(e);
        },
    };
    let ghost p1 = buf.pos as int;
    let mut out: Vec<String> = Vec::new();
    let mut i: u32 = 0;
    proof {
        assert(out.deep_view() =~= Seq::<Seq<char>>::empty());
    }
    while i < k
        invariant
            buf.wf(),
            b == old(buf).bytes@,
            buf.bytes@ == b,
            old(buf).pos <= p1,
            p1 <= buf.pos <= b.len(),
            p_u32(b, old(buf).pos as int) == Parsed::<u32>::Found(k as u32, p1),
            0 <= i <= k,
            p_vstr(b, p1, k as nat, Seq::empty()) == p_vstr(
                b,
                buf.pos as int,
                (k - i) as nat,
                out.deep_view(),
            ),
        decreases k - i,
    {
        let ghost pos_i = buf.pos as int;
        let ghost acc = out.deep_view();
        let s = match read_string(buf) {
            Ok(s) => s,
            Err(e) => {
                return Err(e);
            },
        };
        proof {
            let ghost sv = s@;
            assert(p_str(b, pos_i) == Parsed::<Seq<char>>::Found(sv, buf.pos as int));
        }
        out.push(s);
        proof {
            assert(out.deep_view() =~= acc.push(out@[out@.len() - 1]@));
        }
        i += 1;
    }
    Ok(out)
}


/// A nested Hash.  The node sequence a Hash encoding describes is folded in
/// by insert-or-overwrite, exactly as `p_hash` specifies.
#[verifier::loop_isolation(false)]
pub fn read_hash(buf: &mut ByteReader) -> (r: Result<crate::hash::Hash, DecodeError>)
    requires
        old(buf).wf(),
    ensures
        final(buf).wf(),
        reads_to(*old(buf), *final(buf), r, p_hash(old(buf).bytes@, old(buf).pos as int)),
    decreases old(buf).bytes@.len() - old(buf).pos, 1int,
{
    let ghost b = old(buf).bytes@;
    let ghost pos0 = old(buf).pos as int;
    let nkeys = match read_u32(buf) {
        Ok(n) => n,
        Err(e) => {
            return Err(e);
        },
    };
    let ghost p1 = buf.pos as int;
    let mut hash = crate::hash::Hash::new();
    let mut i: u32 = 0;
    while i < nkeys
        invariant
            buf.wf(),
            buf.bytes@ == b,
            p1 <= buf.pos <= b.len(),
            0 <= i <= nkeys,
            p_nodes(b, p1, nkeys as nat, Seq::<NodeModel>::empty()) == p_nodes(
                b,
                buf.pos as int,
                (nkeys - i) as nat,
                hash@,
            ),
        decreases nkeys - i,
    {
        let ghost pos_i = buf.pos as int;
        let ghost acc = hash@;
        let ghost rem = (nkeys - i) as nat;
        let key = match read_key(buf) {
            Ok(k) => k,
            Err(e) => {
                proof {
                    assert(p_node(b, pos_i) == Parsed::<NodeModel>::Fail(e));
                    assert(p_nodes(b, pos_i, rem, acc) == Parsed::<Seq<NodeModel>>::Fail(e));
                }
                return Err(e);
            },
        };
        let ghost pk = buf.pos as int;
        let code = match read_u32(buf) {
            Ok(c) => c,
            Err(e) => {
                proof {
                    assert(p_node(b, pos_i) == Parsed::<NodeModel>::Fail(e));
                    assert(p_nodes(b, pos_i, rem, acc) == Parsed::<Seq<NodeModel>>::Fail(e));
                }
                return Err(e);
            },
        };
        let ghost pc = buf.pos as int;
        let nattrs = match read_u32(buf) {
            Ok(m) => m,
            Err(e) => {
                proof {
                    assert(p_node(b, pos_i) == Parsed::<NodeModel>::Fail(e));
                    assert(p_nodes(b, pos_i, rem, acc) == Parsed::<Seq<NodeModel>>::Fail(e));
                }
                return Err(e);
            },
        };
        let ghost p3 = buf.pos as int;
        let mut attrs = Attributes::new();
        let mut j: u32 = 0;
        while j < nattrs
            invariant
                buf.wf(),
                buf.bytes@ == b,
                p3 <= buf.pos <= b.len(),
                0 <= j <= nattrs,
                p_attrs(b, p3, nattrs as nat, Seq::<AttrModel>::empty()) == p_attrs(
                    b,
                    buf.pos as int,
                    (nattrs - j) as nat,
                    attrs@,
                ),
            decreases nattrs - j,
        {
            let ghost pos_j = buf.pos as int;
            let ghost aacc = attrs@;
            let ghost arem = (nattrs - j) as nat;
            let akey = match read_key(buf) {
                Ok(k) => k,
                Err(e) => {
                    proof {
                        assert(p_attrs(b, pos_j, arem, aacc) == Parsed::<Seq<AttrModel>>::Fail(e));
                        assert(p_node(b, pos_i) == Parsed::<NodeModel>::Fail(e));
                        assert(p_nodes(b, pos_i, rem, acc) == Parsed::<Seq<NodeModel>>::Fail(e));
                    }
                    return Err(e);
                },
            };
            let acode = match read_u32(buf) {
                Ok(c) => c,
                Err(e) => {
                    proof {
                        assert(p_attrs(b, pos_j, arem, aacc) == Parsed::<Seq<AttrModel>>::Fail(e));
                        assert(p_node(b, pos_i) == Parsed::<NodeModel>::Fail(e));
                        assert(p_nodes(b, pos_i, rem, acc) == Parsed::<Seq<NodeModel>>::Fail(e));
                    }
                    return Err(e);
                },
            };
            let avalue = match read_value(buf, acode) {
                Ok(v) => v,
                Err(e) => {
                    proof {
                        assert(p_attrs(b, pos_j, arem, aacc) == Parsed::<Seq<AttrModel>>::Fail(e));
                        assert(p_node(b, pos_i) == Parsed::<NodeModel>::Fail(e));
                        assert(p_nodes(b, pos_i, rem, acc) == Parsed::<Seq<NodeModel>>::Fail(e));
                    }
                    return Err(e);
                },
            };
            let ghost am = AttrModel { key: akey@, value: avalue@ };
            attrs.insert(akey.as_str(), avalue);
            proof {
                assert(attrs@ == attr_insert(aacc, am));
                assert(p_attrs(b, pos_j, arem, aacc) == p_attrs(
                    b,
                    buf.pos as int,
                    (arem - 1) as nat,
                    attrs@,
                ));
            }
            j += 1;
        }
        let ghost p4 = buf.pos as int;
        proof {
            assert(p_attrs(b, p3, nattrs as nat, Seq::<AttrModel>::empty()) == Parsed::<
                Seq<AttrModel>,
            >::Found(attrs@, p4));
        }
        let ghost attrs_m = attrs@;
        let value = match read_value(buf, code) {
            Ok(v) => v,
            Err(e) => {
                proof {
                    assert(p_node(b, pos_i) == Parsed::<NodeModel>::Fail(e));
                    assert(p_nodes(b, pos_i, rem, acc) == Parsed::<Seq<NodeModel>>::Fail(e));
                }
                return Err(e);
            },
        };
        let ghost p5 = buf.pos as int;
        let ghost nm = NodeModel { key: key@, value: value@, attrs: attrs_m };
        proof {
            assert(p_node(b, pos_i) == Parsed::<NodeModel>::Found(nm, p5));
        }
        hash.insert_attrs(key.as_str(), value, attrs);
        proof {
            assert(hash@ == node_insert(acc, nm));
            assert(p_nodes(b, pos_i, rem, acc) == p_nodes(b, p5, (rem - 1) as nat, hash@));
        }
        i += 1;
    }
    Ok(hash)
}

/// A vector of nested Hashes: a four-byte element count, then that many
/// Hash encodings.
#[verifier::loop_isolation(false)]
pub fn read_vhash(buf: &mut ByteReader) -> (r: Result<Vec<crate::hash::Hash>, DecodeError>)
    requires
        old(buf).wf(),
    ensures
        final(buf).wf(),
        final(buf).bytes@ == old(buf).bytes@,
        old(buf).pos <= final(buf).pos <= old(buf).bytes@.len(),
        (match p_u32(old(buf).bytes@, old(buf).pos as int) {
            Parsed::Found(k, p1) => (match p_hashes(
                old(buf).bytes@,
                p1,
                k as nat,
                Seq::empty(),
            ) {
                Parsed::Found(hs, p2) => (r matches Ok(v) && hashes_seq_view(v@) == hs)
                    && final(buf).pos == p2,
                Parsed::Fail(e) => r matches Err(e2) && e2 == e,
            }),
            Parsed::Fail(e) => r matches Err(e2) && e2 == e,
        }),
    decreases old(buf).bytes@.len() - old(buf).pos, 2int,
{
    let ghost b = old(buf).bytes@;
    let k = match read_u32(buf) {
        Ok(k) => k,
        Err(e) => {
            return Err(e);
        },
    };
    let ghost p1 = buf.pos as int;
    let mut out: Vec<crate::hash::Hash> = Vec::new();
    let mut i: u32 = 0;
    proof {
        assert(hashes_seq_view(out@) =~= Seq::<Seq<NodeModel>>::empty());
    }
    while i < k
        invariant
            buf.wf(),
            buf.bytes@ == b,
            p1 <= buf.pos <= b.len(),
            0 <= i <= k,
            p_hashes(b, p1, k as nat, Seq::empty()) == p_hashes(
                b,
                buf.pos as int,
                (k - i) as nat,
                hashes_seq_view(out@),
            ),
        decreases k - i,
    {
        let ghost pos_i = buf.pos as int;
        let ghost acc = hashes_seq_view(out@);
        let h = match read_hash(buf) {
            Ok(h) => h,
            Err(e) => {
                return Err(e);
            },
        };
        proof {
            let n2 = (match p_u32(b, pos_i) {
                Parsed::Found(n2, _) => n2,
                Parsed::Fail(_) => 0u32,
            });
            lemma_p_nodes_lower(b, pos_i + 4, n2 as nat, Seq::<NodeModel>::empty());
            assert(pos_i < buf.pos as int <= b.len());
            lemma_hashes_seq_view(out@);
        }
        let ghost ov = out@;
        let ghost hv = h;
        out.push(h);
        proof {
            lemma_hashes_seq_view(ov);
            lemma_hashes_seq_view(out@);
            assert(out@ == ov.push(hv));
            assert forall|j: int|
                0 <= j < out@.len() implies hashes_seq_view(out@)[j] == acc.push(
                nodes_seq_view(hv.store@),
            )[j] by {
                assert(hashes_seq_view(out@)[j] == nodes_seq_view(out@[j].store@));
                if j < ov.len() {
                    assert(out@[j] == ov[j]);
                    assert(hashes_seq_view(ov)[j] == nodes_seq_view(ov[j].store@));
                } else {
                    assert(out@[j] == hv);
                }
            }
            assert(hashes_seq_view(out@) =~= acc.push(nodes_seq_view(hv.store@)));
        }
        i += 1;
    }
    Ok(out)
}

/// A Schema: a four-byte total length (observed, not validated), a class-id
/// key, then a nested Hash.
pub fn read_schema(buf: &mut ByteReader) -> (r: Result<Schema, DecodeError>)
    requires
        old(buf).wf(),
    ensures
        final(buf).wf(),
        reads_to(*old(buf), *final(buf), r, p_schema(old(buf).bytes@, old(buf).pos as int)),
    decreases old(buf).bytes@.len() - old(buf).pos, 2int,
{
    match read_u32(buf) {
        Ok(_) => (),
        Err(e) => {
            return Err(e);
        },
    };
    let class_id = match read_key(buf) {
        Ok(k) => k,
        Err(e) => {
            return Err(e);
        },
    };
    let hash = match read_hash(buf) {
        Ok(h) => h,
        Err(e) => {
            return Err(e);
        },
    };
    Ok(Schema::new(class_id, hash))
}

/// A value of the kind a type code names; a code the format does not define
/// is a fatal decode error.
pub fn read_value(buf: &mut ByteReader, type_: u32) -> (r: Result<HashValue, DecodeError>)
    requires
        old(buf).wf(),
    ensures
        final(buf).wf(),
        reads_to(*old(buf), *final(buf), r, p_value(old(buf).bytes@, old(buf).pos as int, type_)),
    decreases old(buf).bytes@.len() - old(buf).pos, 3int,
{
    match type_ {
        0 => match read_bool(buf) {
            Ok(x) => Ok(HashValue::Bool(x)),
            Err(e) => Err(e),
        },
        1 => match read_vbool(buf) {
            Ok(x) => Ok(HashValue::VectorBool(x)),
            Err(e) => Err(e),
        },
        2 => match read_char(buf) {
            Ok(x) => Ok(HashValue::Char(x)),
            Err(e) => Err(e),
        },
        3 => match read_vchar(buf) {
            Ok(x) => Ok(HashValue::VectorChar(x)),
            Err(e) => Err(e),
        },
        4 => match read_i8(buf) {
            Ok(x) => Ok(HashValue::Int8(x)),
            Err(e) => Err(e),
        },
        5 => match read_vi8(buf) {
            Ok(x) => Ok(HashValue::VectorInt8(x)),
            Err(e) => Err(e),
        },
        6 => match read_u8(buf) {
            Ok(x) => Ok(HashValue::UInt8(x)),
            Err(e) => Err(e),
        },
        7 => match read_vu8(buf) {
            Ok(x) => Ok(HashValue::VectorUInt8(x)),
            Err(e) => Err(e),
        },
        8 => match read_i16(buf) {
            Ok(x) => Ok(HashValue::Int16(x)),
            Err(e) => Err(e),
        },
        9 => match read_vi16(buf) {
            Ok(x) => Ok(HashValue::VectorInt16(x)),
            Err(e) => Err(e),
        },
        10 => match read_u16(buf) {
            Ok(x) => Ok(HashValue::UInt16(x)),
            Err(e) => Err(e),
        },
        11 => match read_vu16(buf) {
            Ok(x) => Ok(HashValue::VectorUInt16(x)),
            Err(e) => Err(e),
        },
        12 => match read_i32(buf) {
            Ok(x) => Ok(HashValue::Int32(x)),
            Err(e) => Err(e),
        },
        13 => match read_vi32(buf) {
            Ok(x) => Ok(HashValue::VectorInt32(x)),
            Err(e) => Err(e),
        },
        14 => match read_u32(buf) {
            Ok(x) => Ok(HashValue::UInt32(x)),
            Err(e) => Err(e),
        },
        15 => match read_vu32(buf) {
            Ok(x) => Ok(HashValue::VectorUInt32(x)),
            Err(e) => Err(e),
        },
        16 => match read_i64(buf) {
            Ok(x) => Ok(HashValue::Int64(x)),
            Err(e) => Err(e),
        },
        17 => match read_vi64(buf) {
            Ok(x) => Ok(HashValue::VectorInt64(x)),
            Err(e) => Err(e),
        },
        18 => match read_u64(buf) {
            Ok(x) => Ok(HashValue::UInt64(x)),
            Err(e) => Err(e),
        },
        19 => match read_vu64(buf) {
            Ok(x) => Ok(HashValue::VectorUInt64(x)),
            Err(e) => Err(e),
        },
        20 => match read_u32(buf) {
            Ok(x) => Ok(HashValue::Float32(x)),
            Err(e) => Err(e),
        },
        21 => match read_vu32(buf) {
            Ok(x) => Ok(HashValue::VectorFloat32(x)),
            Err(e) => Err(e),
        },
        22 => match read_u64(buf) {
            Ok(x) => Ok(HashValue::Float64(x)),
            Err(e) => Err(e),
        },
        23 => match read_vu64(buf) {
            Ok(x) => Ok(HashValue::VectorFloat64(x)),
            Err(e) => Err(e),
        },
        28 => match read_string(buf) {
            Ok(x) => Ok(HashValue::String(x)),
            Err(e) => Err(e),
        },
        29 => match read_vstring(buf) {
            Ok(x) => Ok(HashValue::VectorString(x)),
            Err(e) => Err(e),
        },
        30 => match read_hash(buf) {
            Ok(x) => Ok(HashValue::Hash(x)),
            Err(e) => Err(e),
        },
        31 => match read_vhash(buf) {
            Ok(x) => Ok(HashValue::VectorHash(x)),
            Err(e) => Err(e),
        },
        32 => match read_schema(buf) {
            Ok(x) => Ok(HashValue::Schema(x)),
            Err(e) => Err(e),
        },
        _ => Err(DecodeError::UnknownTypeCode(type_)),
    }
}

} // verus!
