//! Mathematical model of the container types.
//!
//! `ValueModel`, `AttrModel`, `NodeModel` and `SchemaModel` mirror the
//! executable `HashValue`, `Attribute`, `Node` and `Schema` types, with
//! sequences in place of vectors and character sequences in place of owned
//! strings.  Every executable type's view lands here, and all contracts are
//! stated over these models.

use vstd::prelude::*;

verus! {

/// Model of a value: the closed union of scalar, vector and container kinds.
/// Floating-point payloads are carried as their IEEE-754 bit patterns, and a
/// wire `char` is a single raw byte.
pub enum ValueModel {
    Bool(bool),
    VectorBool(Seq<bool>),
    Char(u8),
    VectorChar(Seq<u8>),
    Int8(i8),
    VectorInt8(Seq<i8>),
    UInt8(u8),
    VectorUInt8(Seq<u8>),
    Int16(i16),
    VectorInt16(Seq<i16>),
    UInt16(u16),
    VectorUInt16(Seq<u16>),
    Int32(i32),
    VectorInt32(Seq<i32>),
    UInt32(u32),
    VectorUInt32(Seq<u32>),
    Int64(i64),
    VectorInt64(Seq<i64>),
    UInt64(u64),
    VectorUInt64(Seq<u64>),
    Float32(u32),
    VectorFloat32(Seq<u32>),
    Float64(u64),
    VectorFloat64(Seq<u64>),
    String(Seq<char>),
    VectorString(Seq<Seq<char>>),
    Hash(Seq<NodeModel>),
    VectorHash(Seq<Seq<NodeModel>>),
    Schema(SchemaModel),
}

/// Model of one metadata entry: a key with its value.
pub struct AttrModel {
    pub key: Seq<char>,
    pub value: ValueModel,
}

/// Model of one labeled, annotated entry of a Hash.
pub struct NodeModel {
    pub key: Seq<char>,
    pub value: ValueModel,
    pub attrs: Seq<AttrModel>,
}

/// Model of a named shape description.
pub struct SchemaModel {
    pub class_id: Seq<char>,
    pub hash: Seq<NodeModel>,
}

/// The stable numeric discriminator ("type code") of a value kind, as used on
/// the wire.  Codes 0 to 23 cover the scalar and vector families, 24 to 27
/// are a reserved gap, and 28 to 32 cover string, Hash and Schema kinds.
pub open spec fn code_of(v: ValueModel) -> u32 {
    match v {
        ValueModel::Bool(_) => 0,
        ValueModel::VectorBool(_) => 1,
        ValueModel::Char(_) => 2,
        ValueModel::VectorChar(_) => 3,
        ValueModel::Int8(_) => 4,
        ValueModel::VectorInt8(_) => 5,
        ValueModel::UInt8(_) => 6,
        ValueModel::VectorUInt8(_) => 7,
        ValueModel::Int16(_) => 8,
        ValueModel::VectorInt16(_) => 9,
        ValueModel::UInt16(_) => 10,
        ValueModel::VectorUInt16(_) => 11,
        ValueModel::Int32(_) => 12,
        ValueModel::VectorInt32(_) => 13,
        ValueModel::UInt32(_) => 14,
        ValueModel::VectorUInt32(_) => 15,
        ValueModel::Int64(_) => 16,
        ValueModel::VectorInt64(_) => 17,
        ValueModel::UInt64(_) => 18,
        ValueModel::VectorUInt64(_) => 19,
        ValueModel::Float32(_) => 20,
        ValueModel::VectorFloat32(_) => 21,
        ValueModel::Float64(_) => 22,
        ValueModel::VectorFloat64(_) => 23,
        ValueModel::String(_) => 28,
        ValueModel::VectorString(_) => 29,
        ValueModel::Hash(_) => 30,
        ValueModel::VectorHash(_) => 31,
        ValueModel::Schema(_) => 32,
    }
}

/// The keys of a node sequence, in order.
pub open spec fn keys_of(nodes: Seq<NodeModel>) -> Seq<Seq<char>> {
    Seq::new(nodes.len(), |i: int| nodes[i].key)
}

/// Index of the first node with the given key, or -1 when absent.
pub open spec fn node_key_idx(nodes: Seq<NodeModel>, key: Seq<char>) -> int
    decreases nodes.len(),
{
    if nodes.len() == 0 {
        -1
    } else if nodes[0].key == key {
        0
    } else {
        let r = node_key_idx(nodes.drop_first(), key);
        if r < 0 {
            -1
        } else {
            r + 1
        }
    }
}

pub open spec fn has_node(nodes: Seq<NodeModel>, key: Seq<char>) -> bool {
    node_key_idx(nodes, key) >= 0
}

/// Insert-or-overwrite: an existing key is overwritten in place, a new key is
/// appended.
pub open spec fn node_insert(nodes: Seq<NodeModel>, node: NodeModel) -> Seq<NodeModel> {
    if has_node(nodes, node.key) {
        nodes.update(node_key_idx(nodes, node.key), node)
    } else {
        nodes.push(node)
    }
}

/// Index of the first attribute with the given key, or -1 when absent.
pub open spec fn attr_key_idx(attrs: Seq<AttrModel>, key: Seq<char>) -> int
    decreases attrs.len(),
{
    if attrs.len() == 0 {
        -1
    } else if attrs[0].key == key {
        0
    } else {
        let r = attr_key_idx(attrs.drop_first(), key);
        if r < 0 {
            -1
        } else {
            r + 1
        }
    }
}

pub open spec fn has_attr(attrs: Seq<AttrModel>, key: Seq<char>) -> bool {
    attr_key_idx(attrs, key) >= 0
}

pub open spec fn attr_insert(attrs: Seq<AttrModel>, attr: AttrModel) -> Seq<AttrModel> {
    if has_attr(attrs, attr.key) {
        attrs.update(attr_key_idx(attrs, attr.key), attr)
    } else {
        attrs.push(attr)
    }
}

pub open spec fn attr_keys_of(attrs: Seq<AttrModel>) -> Seq<Seq<char>> {
    Seq::new(attrs.len(), |i: int| attrs[i].key)
}

/// Key uniqueness at one level.
pub open spec fn nodes_unique(nodes: Seq<NodeModel>) -> bool {
    forall|i: int, j: int|
        0 <= i < j < nodes.len() ==> (#[trigger] nodes[i]).key != (#[trigger] nodes[j]).key
}

pub open spec fn attrs_unique(attrs: Seq<AttrModel>) -> bool {
    forall|i: int, j: int|
        0 <= i < j < attrs.len() ==> (#[trigger] attrs[i]).key != (#[trigger] attrs[j]).key
}

/// Deep well-formedness of a value: every contained node sequence has unique
/// keys, recursively.
pub open spec fn value_wf(v: ValueModel) -> bool
    decreases v,
{
    match v {
        ValueModel::Hash(h) => nodes_wf(h),
        ValueModel::VectorHash(hs) => forall|i: int|
            0 <= i < hs.len() ==> nodes_wf(#[trigger] hs[i]),
        ValueModel::Schema(s) => nodes_wf(s.hash),
        _ => true,
    }
}

pub open spec fn node_wf(n: NodeModel) -> bool
    decreases n,
{
    &&& attrs_unique(n.attrs)
    &&& value_wf(n.value)
    &&& forall|i: int| 0 <= i < n.attrs.len() ==> value_wf((#[trigger] n.attrs[i]).value)
}

pub open spec fn nodes_wf(nodes: Seq<NodeModel>) -> bool
    decreases nodes,
{
    &&& nodes_unique(nodes)
    &&& forall|i: int| 0 <= i < nodes.len() ==> node_wf(#[trigger] nodes[i])
}

/// Index of the first '.' in a path, or -1 when the path has none.
pub open spec fn dot_idx(path: Seq<char>) -> int
    decreases path.len(),
{
    if path.len() == 0 {
        -1
    } else if path[0] == '.' {
        0
    } else {
        let r = dot_idx(path.drop_first());
        if r < 0 {
            -1
        } else {
            r + 1
        }
    }
}

/// Dotted-path lookup.  A path without a '.' names a top-level key; otherwise
/// the first segment must name a node whose value is itself a Hash, in which
/// case the remainder of the path is resolved there.  A missing segment or a
/// non-Hash intermediate yields `None`.
pub open spec fn hash_get(nodes: Seq<NodeModel>, path: Seq<char>) -> Option<ValueModel>
    decreases path.len(),
{
    let d = dot_idx(path);
    if !(0 <= d < path.len()) {
        if has_node(nodes, path) {
            Some(nodes[node_key_idx(nodes, path)].value)
        } else {
            None
        }
    } else {
        let head = path.subrange(0, d);
        let rest = path.subrange(d + 1, path.len() as int);
        if has_node(nodes, head) {
            match nodes[node_key_idx(nodes, head)].value {
                ValueModel::Hash(inner) => hash_get(inner, rest),
                _ => None,
            }
        } else {
            None
        }
    }
}

/// Structural, key-set-based deep equality of two node sequences: same
/// length, and every entry of one has a same-keyed entry in the other with an
/// equal value and equal attributes.
pub open spec fn nodes_equiv(a: Seq<NodeModel>, b: Seq<NodeModel>) -> bool
    decreases a,
{
    a.len() == b.len() && forall|i: int| 0 <= i < a.len() ==> node_matched_in(#[trigger] a[i], b)
}

pub open spec fn node_matched_in(n: NodeModel, b: Seq<NodeModel>) -> bool
    decreases n,
{
    &&& has_node(b, n.key)
    &&& value_equiv(n.value, b[node_key_idx(b, n.key)].value)
    &&& attrs_equiv(n.attrs, b[node_key_idx(b, n.key)].attrs)
}

/// Key-set-based equality of two attribute sequences.
pub open spec fn attrs_equiv(a: Seq<AttrModel>, b: Seq<AttrModel>) -> bool
    decreases a,
{
    a.len() == b.len() && forall|i: int| 0 <= i < a.len() ==> attr_matched_in(#[trigger] a[i], b)
}

pub open spec fn attr_matched_in(attr: AttrModel, b: Seq<AttrModel>) -> bool
    decreases attr,
{
    &&& has_attr(b, attr.key)
    &&& value_equiv(attr.value, b[attr_key_idx(b, attr.key)].value)
}

/// Deep structural equality of two values: same kind and equal payload;
/// nested Hashes compare by `nodes_equiv`, Schemas by class id and contents.
pub open spec fn value_equiv(a: ValueModel, b: ValueModel) -> bool
    decreases a,
{
    match (a, b) {
        (ValueModel::Hash(x), ValueModel::Hash(y)) => nodes_equiv(x, y),
        (ValueModel::VectorHash(x), ValueModel::VectorHash(y)) => {
            x.len() == y.len() && forall|i: int|
                0 <= i < x.len() ==> nodes_equiv(#[trigger] x[i], y[i])
        },
        (ValueModel::Schema(x), ValueModel::Schema(y)) => {
            x.class_id == y.class_id && nodes_equiv(x.hash, y.hash)
        },
        (ValueModel::Hash(_), _) => false,
        (ValueModel::VectorHash(_), _) => false,
        (ValueModel::Schema(_), _) => false,
        _ => a == b,
    }
}

/// The first-index search agrees with existential membership, and lands on
/// the first matching position.
pub proof fn lemma_node_key_idx(nodes: Seq<NodeModel>, key: Seq<char>)
    ensures
        has_node(nodes, key) == exists|i: int|
            0 <= i < nodes.len() && (#[trigger] nodes[i]).key == key,
        has_node(nodes, key) ==> {
            let idx = node_key_idx(nodes, key);
            &&& 0 <= idx < nodes.len()
            &&& nodes[idx].key == key
            &&& forall|j: int| 0 <= j < idx ==> (#[trigger] nodes[j]).key != key
        },
    decreases nodes.len(),
{
    if nodes.len() > 0 && nodes[0].key != key {
        lemma_node_key_idx(nodes.drop_first(), key);
        let rest = nodes.drop_first();
        if has_node(rest, key) {
            let r = node_key_idx(rest, key);
            assert(nodes[r + 1] == rest[r]);
            assert(forall|j: int| 0 <= j < r ==> (#[trigger] rest[j]).key != key);
            assert(forall|j: int| 1 <= j < r + 1 ==> nodes[j] == rest[j - 1]);
        } else {
            assert(forall|i: int|
                1 <= i < nodes.len() ==> (#[trigger] nodes[i]).key == rest[i - 1].key);
        }
    }
}

pub proof fn lemma_attr_key_idx(attrs: Seq<AttrModel>, key: Seq<char>)
    ensures
        has_attr(attrs, key) == exists|i: int|
            0 <= i < attrs.len() && (#[trigger] attrs[i]).key == key,
        has_attr(attrs, key) ==> {
            let idx = attr_key_idx(attrs, key);
            &&& 0 <= idx < attrs.len()
            &&& attrs[idx].key == key
            &&& forall|j: int| 0 <= j < idx ==> (#[trigger] attrs[j]).key != key
        },
    decreases attrs.len(),
{
    if attrs.len() > 0 && attrs[0].key != key {
        lemma_attr_key_idx(attrs.drop_first(), key);
        let rest = attrs.drop_first();
        if has_attr(rest, key) {
            let r = attr_key_idx(rest, key);
            assert(attrs[r + 1] == rest[r]);
            assert(forall|j: int| 0 <= j < r ==> (#[trigger] rest[j]).key != key);
            assert(forall|j: int| 1 <= j < r + 1 ==> attrs[j] == rest[j - 1]);
        } else {
            assert(forall|i: int|
                1 <= i < attrs.len() ==> (#[trigger] attrs[i]).key == rest[i - 1].key);
        }
    }
}

/// The first '.' search agrees with existential membership and lands on the
/// first dot.
pub proof fn lemma_dot_idx(path: Seq<char>)
    ensures
        (dot_idx(path) >= 0) == exists|i: int| 0 <= i < path.len() && path[i] == '.',
        dot_idx(path) >= 0 ==> {
            let d = dot_idx(path);
            &&& 0 <= d < path.len()
            &&& path[d] == '.'
            &&& forall|j: int| 0 <= j < d ==> path[j] != '.'
        },
    decreases path.len(),
{
    if path.len() > 0 && path[0] != '.' {
        lemma_dot_idx(path.drop_first());
        let rest = path.drop_first();
        if dot_idx(rest) >= 0 {
            let r = dot_idx(rest);
            assert(path[r + 1] == rest[r]);
            assert(forall|j: int| 1 <= j < r + 1 ==> path[j] == rest[j - 1]);
        } else {
            assert(forall|i: int| 1 <= i < path.len() ==> path[i] == rest[i - 1]);
        }
    }
}

} // verus!
