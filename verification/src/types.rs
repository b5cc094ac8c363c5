//! The value union `HashValue` and the views of all container types.
//!
//! The recursive view functions mapping executable values to their models in
//! `model` all live here; the `View` impls in the sibling modules are thin
//! wrappers over them.

use vstd::prelude::*;

use crate::attributes::Attribute;
use crate::hash::Node;
use crate::model::{
    code_of, AttrModel, NodeModel, SchemaModel, ValueModel,
};
use crate::schema::Schema;

verus! {

/// A value stored in a `Hash` or in an attribute: the closed union of scalar,
/// vector and container kinds.
///
/// A wire `char` is a single raw byte and is carried as `u8`; floating-point
/// payloads are carried as their IEEE-754 bit patterns (`u32` for the 32-bit
/// kind, `u64` for the 64-bit kind), which the wire format stores verbatim.
#[derive(Debug)]
pub enum HashValue {
    Bool(bool),
    VectorBool(Vec<bool>),
    Char(u8),
    VectorChar(Vec<u8>),
    UInt8(u8),
    VectorUInt8(Vec<u8>),
    Int8(i8),
    VectorInt8(Vec<i8>),
    UInt16(u16),
    VectorUInt16(Vec<u16>),
    Int16(i16),
    VectorInt16(Vec<i16>),
    UInt32(u32),
    VectorUInt32(Vec<u32>),
    Int32(i32),
    VectorInt32(Vec<i32>),
    UInt64(u64),
    VectorUInt64(Vec<u64>),
    Int64(i64),
    VectorInt64(Vec<i64>),
    Float32(u32),
    VectorFloat32(Vec<u32>),
    Float64(u64),
    VectorFloat64(Vec<u64>),
    String(String),
    VectorString(Vec<String>),
    Hash(crate::hash::Hash),
    VectorHash(Vec<crate::hash::Hash>),
    Schema(Schema),
}

pub open spec fn value_view(v: HashValue) -> ValueModel
    decreases v,
{
    match v {
        HashValue::Bool(x) => ValueModel::Bool(x),
        HashValue::VectorBool(x) => ValueModel::VectorBool(x@),
        HashValue::Char(x) => ValueModel::Char(x),
        HashValue::VectorChar(x) => ValueModel::VectorChar(x@),
        HashValue::UInt8(x) => ValueModel::UInt8(x),
        HashValue::VectorUInt8(x) => ValueModel::VectorUInt8(x@),
        HashValue::Int8(x) => ValueModel::Int8(x),
        HashValue::VectorInt8(x) => ValueModel::VectorInt8(x@),
        HashValue::UInt16(x) => ValueModel::UInt16(x),
        HashValue::VectorUInt16(x) => ValueModel::VectorUInt16(x@),
        HashValue::Int16(x) => ValueModel::Int16(x),
        HashValue::VectorInt16(x) => ValueModel::VectorInt16(x@),
        HashValue::UInt32(x) => ValueModel::UInt32(x),
        HashValue::VectorUInt32(x) => ValueModel::VectorUInt32(x@),
        HashValue::Int32(x) => ValueModel::Int32(x),
        HashValue::VectorInt32(x) => ValueModel::VectorInt32(x@),
        HashValue::UInt64(x) => ValueModel::UInt64(x),
        HashValue::VectorUInt64(x) => ValueModel::VectorUInt64(x@),
        HashValue::Int64(x) => ValueModel::Int64(x),
        HashValue::VectorInt64(x) => ValueModel::VectorInt64(x@),
        HashValue::Float32(x) => ValueModel::Float32(x),
        HashValue::VectorFloat32(x) => ValueModel::VectorFloat32(x@),
        HashValue::Float64(x) => ValueModel::Float64(x),
        HashValue::VectorFloat64(x) => ValueModel::VectorFloat64(x@),
        HashValue::String(x) => ValueModel::String(x@),
        HashValue::VectorString(x) => ValueModel::VectorString(x.deep_view()),
        HashValue::Hash(h) => ValueModel::Hash(nodes_seq_view(h.store@)),
        HashValue::VectorHash(x) => ValueModel::VectorHash(hashes_seq_view(x@)),
        HashValue::Schema(s) => ValueModel::Schema(
            SchemaModel { class_id: s.class_id@, hash: nodes_seq_view(s.hash.store@) },
        ),
    }
}

pub open spec fn attr_view(a: Attribute) -> AttrModel
    decreases a,
{
    AttrModel { key: a.key@, value: value_view(a.value) }
}

pub open spec fn attrs_seq_view(s: Seq<Attribute>) -> Seq<AttrModel>
    decreases s,
{
    if s.len() == 0 {
        Seq::empty()
    } else {
        attrs_seq_view(s.drop_last()).push(attr_view(s.last()))
    }
}

pub open spec fn node_view(n: Node) -> NodeModel
    decreases n,
{
    NodeModel {
        key: n.key@,
        value: value_view(n.value),
        attrs: attrs_seq_view(n.attrs.store@),
    }
}

pub open spec fn nodes_seq_view(s: Seq<Node>) -> Seq<NodeModel>
    decreases s,
{
    if s.len() == 0 {
        Seq::empty()
    } else {
        nodes_seq_view(s.drop_last()).push(node_view(s.last()))
    }
}

pub open spec fn hashes_seq_view(s: Seq<crate::hash::Hash>) -> Seq<Seq<NodeModel>>
    decreases s,
{
    if s.len() == 0 {
        Seq::empty()
    } else {
        hashes_seq_view(s.drop_last()).push(nodes_seq_view(s.last().store@))
    }
}

impl View for HashValue {
    type V = ValueModel;

    open spec fn view(&self) -> ValueModel {
        value_view(*self)
    }
}

/// The view of an attribute sequence is as long as the sequence and is
/// element-wise the view of its entries.
pub proof fn lemma_attrs_seq_view(s: Seq<Attribute>)
    ensures
        attrs_seq_view(s).len() == s.len(),
        forall|i: int| 0 <= i < s.len() ==> attrs_seq_view(s)[i] == attr_view(#[trigger] s[i]),
    decreases s.len(),
{
    if s.len() > 0 {
        lemma_attrs_seq_view(s.drop_last());
        assert forall|i: int| 0 <= i < s.len() implies attrs_seq_view(s)[i] == attr_view(s[i]) by {
            if i < s.len() - 1 {
                assert(s.drop_last()[i] == s[i]);
            } else {
                assert(s.last() == s[i]);
            }
        }
    }
}

/// The view of a node sequence is as long as the sequence and is element-wise
/// the view of its entries.
pub proof fn lemma_nodes_seq_view(s: Seq<Node>)
    ensures
        nodes_seq_view(s).len() == s.len(),
        forall|i: int| 0 <= i < s.len() ==> nodes_seq_view(s)[i] == node_view(#[trigger] s[i]),
    decreases s.len(),
{
    if s.len() > 0 {
        lemma_nodes_seq_view(s.drop_last());
        assert forall|i: int| 0 <= i < s.len() implies nodes_seq_view(s)[i] == node_view(s[i]) by {
            if i < s.len() - 1 {
                assert(s.drop_last()[i] == s[i]);
            } else {
                assert(s.last() == s[i]);
            }
        }
    }
}

/// `lemma_nodes_seq_view`, available by broadcast where contracts mention
/// the view of a changed store.
pub broadcast proof fn lemma_nodes_seq_view_auto(s: Seq<Node>)
    ensures
        (#[trigger] nodes_seq_view(s)).len() == s.len(),
        forall|i: int| 0 <= i < s.len() ==> nodes_seq_view(s)[i] == node_view(#[trigger] s[i]),
{
    lemma_nodes_seq_view(s);
}

/// `lemma_attrs_seq_view`, available by broadcast where contracts mention
/// the view of a changed store.
pub broadcast proof fn lemma_attrs_seq_view_auto(s: Seq<Attribute>)
    ensures
        (#[trigger] attrs_seq_view(s)).len() == s.len(),
        forall|i: int| 0 <= i < s.len() ==> attrs_seq_view(s)[i] == attr_view(#[trigger] s[i]),
{
    lemma_attrs_seq_view(s);
}

/// Updating one attribute updates one entry of the view.
pub broadcast proof fn lemma_attrs_seq_view_update(s: Seq<Attribute>, i: int, a: Attribute)
    requires
        0 <= i < s.len(),
    ensures
        #[trigger] attrs_seq_view(s.update(i, a)) == attrs_seq_view(s).update(i, attr_view(a)),
{
    lemma_attrs_seq_view(s);
    lemma_attrs_seq_view(s.update(i, a));
    assert forall|j: int|
        0 <= j < s.len() implies attrs_seq_view(s.update(i, a))[j] == attrs_seq_view(s).update(
        i,
        attr_view(a),
    )[j] by {
        if j == i {
            assert(s.update(i, a)[j] == a);
        } else {
            assert(s.update(i, a)[j] == s[j]);
        }
    }
    assert(attrs_seq_view(s.update(i, a)) =~= attrs_seq_view(s).update(i, attr_view(a)));
}

/// Updating one node updates one entry of the view.
pub broadcast proof fn lemma_nodes_seq_view_update(s: Seq<Node>, i: int, nd: Node)
    requires
        0 <= i < s.len(),
    ensures
        #[trigger] nodes_seq_view(s.update(i, nd)) == nodes_seq_view(s).update(i, node_view(nd)),
{
    lemma_nodes_seq_view(s);
    lemma_nodes_seq_view(s.update(i, nd));
    assert forall|j: int|
        0 <= j < s.len() implies nodes_seq_view(s.update(i, nd))[j] == nodes_seq_view(s).update(
        i,
        node_view(nd),
    )[j] by {
        if j == i {
            assert(s.update(i, nd)[j] == nd);
        } else {
            assert(s.update(i, nd)[j] == s[j]);
        }
    }
    assert(nodes_seq_view(s.update(i, nd)) =~= nodes_seq_view(s).update(i, node_view(nd)));
}

/// The view of a Hash sequence is as long as the sequence and is element-wise
/// the view of its entries' contents.
pub proof fn lemma_hashes_seq_view(s: Seq<crate::hash::Hash>)
    ensures
        hashes_seq_view(s).len() == s.len(),
        forall|i: int|
            0 <= i < s.len() ==> hashes_seq_view(s)[i] == nodes_seq_view(
                (#[trigger] s[i]).store@,
            ),
    decreases s.len(),
{
    if s.len() > 0 {
        lemma_hashes_seq_view(s.drop_last());
        assert forall|i: int|
            0 <= i < s.len() implies hashes_seq_view(s)[i] == nodes_seq_view(s[i].store@) by {
            if i < s.len() - 1 {
                assert(s.drop_last()[i] == s[i]);
            } else {
                assert(s.last() == s[i]);
            }
        }
    }
}

impl HashValue {
    /// The payload if this is the signed 8-bit kind, else absent.
    pub fn as_i8(&self) -> (r: Option<i8>)
        ensures
            r == (match self@ {
                ValueModel::Int8(x) => Some(x),
                _ => None::<i8>,
            }),
    {
        match *self {
            HashValue::Int8(value) => Some(value),
            _ => None,
        }
    }

    /// The payload if this is the unsigned 8-bit kind, else absent.
    pub fn as_u8(&self) -> (r: Option<u8>)
        ensures
            r == (match self@ {
                ValueModel::UInt8(x) => Some(x),
                _ => None::<u8>,
            }),
    {
        match *self {
            HashValue::UInt8(value) => Some(value),
            _ => None,
        }
    }

    /// The payload if this is the signed 16-bit kind, else absent.
    pub fn as_i16(&self) -> (r: Option<i16>)
        ensures
            r == (match self@ {
                ValueModel::Int16(x) => Some(x),
                _ => None::<i16>,
            }),
    {
        match *self {
            HashValue::Int16(value) => Some(value),
            _ => None,
        }
    }

    /// The payload if this is the unsigned 16-bit kind, else absent.
    pub fn as_u16(&self) -> (r: Option<u16>)
        ensures
            r == (match self@ {
                ValueModel::UInt16(x) => Some(x),
                _ => None::<u16>,
            }),
    {
        match *self {
            HashValue::UInt16(value) => Some(value),
            _ => None,
        }
    }

    /// The payload if this is the signed 32-bit kind, else absent.
    pub fn as_i32(&self) -> (r: Option<i32>)
        ensures
            r == (match self@ {
                ValueModel::Int32(x) => Some(x),
                _ => None::<i32>,
            }),
    {
        match *self {
            HashValue::Int32(value) => Some(value),
            _ => None,
        }
    }

    /// The payload if this is the unsigned 32-bit kind, else absent.
    pub fn as_u32(&self) -> (r: Option<u32>)
        ensures
            r == (match self@ {
                ValueModel::UInt32(x) => Some(x),
                _ => None::<u32>,
            }),
    {
        match *self {
            HashValue::UInt32(value) => Some(value),
            _ => None,
        }
    }

    /// The payload if this is the signed 64-bit kind, else absent.
    pub fn as_i64(&self) -> (r: Option<i64>)
        ensures
            r == (match self@ {
                ValueModel::Int64(x) => Some(x),
                _ => None::<i64>,
            }),
    {
        match *self {
            HashValue::Int64(value) => Some(value),
            _ => None,
        }
    }

    /// The payload if this is the unsigned 64-bit kind, else absent.
    pub fn as_u64(&self) -> (r: Option<u64>)
        ensures
            r == (match self@ {
                ValueModel::UInt64(x) => Some(x),
                _ => None::<u64>,
            }),
    {
        match *self {
            HashValue::UInt64(value) => Some(value),
            _ => None,
        }
    }

    /// The IEEE-754 bit pattern if this is the 32-bit floating-point kind,
    /// else absent.
    pub fn as_f32_bits(&self) -> (r: Option<u32>)
        ensures
            r == (match self@ {
                ValueModel::Float32(x) => Some(x),
                _ => None::<u32>,
            }),
    {
        match *self {
            HashValue::Float32(value) => Some(value),
            _ => None,
        }
    }

    /// The IEEE-754 bit pattern if this is the 64-bit floating-point kind,
    /// else absent.
    pub fn as_f64_bits(&self) -> (r: Option<u64>)
        ensures
            r == (match self@ {
                ValueModel::Float64(x) => Some(x),
                _ => None::<u64>,
            }),
    {
        match *self {
            HashValue::Float64(value) => Some(value),
            _ => None,
        }
    }

    /// The nested container if this is the Hash kind, else absent.
    pub fn as_hash(&self) -> (r: Option<&crate::hash::Hash>)
        ensures
            (r is Some) == (self@ is Hash),
            r matches Some(h) ==> self@ == ValueModel::Hash(h@),
    {
        match self {
            HashValue::Hash(value) => Some(value),
            _ => None,
        }
    }

    /// The shape description if this is the Schema kind, else absent.
    pub fn as_schema(&self) -> (r: Option<&Schema>)
        ensures
            (r is Some) == (self@ is Schema),
            r matches Some(s) ==> self@ == ValueModel::Schema(s@),
    {
        match self {
            HashValue::Schema(value) => Some(value),
            _ => None,
        }
    }
}

/// The stable numeric discriminator of a value's kind, as framed on the wire.
pub fn get_hashtype(value: &HashValue) -> (code: u32)
    ensures
        code == code_of(value@),
{
    match value {
        HashValue::Bool(_) => 0,
        HashValue::VectorBool(_) => 1,
        HashValue::Char(_) => 2,
        HashValue::VectorChar(_) => 3,
        HashValue::Int8(_) => 4,
        HashValue::VectorInt8(_) => 5,
        HashValue::UInt8(_) => 6,
        HashValue::VectorUInt8(_) => 7,
        HashValue::Int16(_) => 8,
        HashValue::VectorInt16(_) => 9,
        HashValue::UInt16(_) => 10,
        HashValue::VectorUInt16(_) => 11,
        HashValue::Int32(_) => 12,
        HashValue::VectorInt32(_) => 13,
        HashValue::UInt32(_) => 14,
        HashValue::VectorUInt32(_) => 15,
        HashValue::Int64(_) => 16,
        HashValue::VectorInt64(_) => 17,
        HashValue::UInt64(_) => 18,
        HashValue::VectorUInt64(_) => 19,
        HashValue::Float32(_) => 20,
        HashValue::VectorFloat32(_) => 21,
        HashValue::Float64(_) => 22,
        HashValue::VectorFloat64(_) => 23,
        HashValue::String(_) => 28,
        HashValue::VectorString(_) => 29,
        HashValue::Hash(_) => 30,
        HashValue::VectorHash(_) => 31,
        HashValue::Schema(_) => 32,
    }
}

} // verus!
