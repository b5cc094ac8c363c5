//! Deep structural equality.
//!
//! Two Hashes are equal when they have the same number of entries and every
//! entry of one has a same-keyed entry in the other with a deeply equal
//! value and deeply equal attributes (key-set equality, not positional).
//! Values compare by kind and payload, nested containers recursively.

use vstd::prelude::*;

use crate::attributes::Attributes;
use crate::model::{
    attrs_equiv, attr_matched_in, code_of, node_matched_in, nodes_equiv, value_equiv, ValueModel,
};
use crate::text::str_eq;
use crate::types::{get_hashtype, lemma_attrs_seq_view, lemma_nodes_seq_view, HashValue};

verus! {

/// Deeply equal values have the same type code.
pub proof fn lemma_value_equiv_code(a: ValueModel, b: ValueModel)
    ensures
        value_equiv(a, b) ==> code_of(a) == code_of(b),
{
    if value_equiv(a, b) {
        match a {
            ValueModel::Hash(_) => {
                assert(b is Hash);
            },
            ValueModel::VectorHash(_) => {
                assert(b is VectorHash);
            },
            ValueModel::Schema(_) => {
                assert(b is Schema);
            },
            _ => {
                assert(a == b);
            },
        }
    }
}

/// Deep equality of two values, deciding `value_equiv` of their models.
#[verifier::loop_isolation(false)]
#[verifier::rlimit(100)]
#[verifier::spinoff_prover]
pub fn value_equiv_exec(a: &HashValue, b: &HashValue) -> (r: bool)
    ensures
        r == value_equiv(a@, b@),
    decreases a@, 2int,
{
    if get_hashtype(a) != get_hashtype(b) {
        proof {
            lemma_value_equiv_code(a@, b@);
        }
        return false;
    }
    match (a, b) {
        (HashValue::Bool(x), HashValue::Bool(y)) => *x == *y,
        (HashValue::VectorBool(x), HashValue::VectorBool(y)) => eq_bools(x, y),
        (HashValue::Char(x), HashValue::Char(y)) => *x == *y,
        (HashValue::VectorChar(x), HashValue::VectorChar(y)) => eq_u8s(x, y),
        (HashValue::UInt8(x), HashValue::UInt8(y)) => *x == *y,
        (HashValue::VectorUInt8(x), HashValue::VectorUInt8(y)) => eq_u8s(x, y),
        (HashValue::Int8(x), HashValue::Int8(y)) => *x == *y,
        (HashValue::VectorInt8(x), HashValue::VectorInt8(y)) => eq_i8s(x, y),
        (HashValue::UInt16(x), HashValue::UInt16(y)) => *x == *y,
        (HashValue::VectorUInt16(x), HashValue::VectorUInt16(y)) => eq_u16s(x, y),
        (HashValue::Int16(x), HashValue::Int16(y)) => *x == *y,
        (HashValue::VectorInt16(x), HashValue::VectorInt16(y)) => eq_i16s(x, y),
        (HashValue::UInt32(x), HashValue::UInt32(y)) => *x == *y,
        (HashValue::VectorUInt32(x), HashValue::VectorUInt32(y)) => eq_u32s(x, y),
        (HashValue::Int32(x), HashValue::Int32(y)) => *x == *y,
        (HashValue::VectorInt32(x), HashValue::VectorInt32(y)) => eq_i32s(x, y),
        (HashValue::UInt64(x), HashValue::UInt64(y)) => *x == *y,
        (HashValue::VectorUInt64(x), HashValue::VectorUInt64(y)) => eq_u64s(x, y),
        (HashValue::Int64(x), HashValue::Int64(y)) => *x == *y,
        (HashValue::VectorInt64(x), HashValue::VectorInt64(y)) => eq_i64s(x, y),
        (HashValue::Float32(x), HashValue::Float32(y)) => *x == *y,
        (HashValue::VectorFloat32(x), HashValue::VectorFloat32(y)) => eq_u32s(x, y),
        (HashValue::Float64(x), HashValue::Float64(y)) => *x == *y,
        (HashValue::VectorFloat64(x), HashValue::VectorFloat64(y)) => eq_u64s(x, y),
        (HashValue::String(x), HashValue::String(y)) => str_eq(x.as_str(), y.as_str()),
        (HashValue::VectorString(x), HashValue::VectorString(y)) => eq_strings(x, y),
        (HashValue::Hash(x), HashValue::Hash(y)) => {
            proof {
                assert(a@ == ValueModel::Hash(x@));
                assert(decreases_to!(a@ => a@->Hash_0));
                assert(a@->Hash_0 == x@);
            }
            hash_equiv_exec(x, y)
        },
        (HashValue::VectorHash(x), HashValue::VectorHash(y)) => {
            if x.len() != y.len() {
                proof {
                    crate::types::lemma_hashes_seq_view(x@);
                    crate::types::lemma_hashes_seq_view(y@);
                }
                return false;
            }
            let n = x.len();
            proof {
                crate::types::lemma_hashes_seq_view(x@);
                crate::types::lemma_hashes_seq_view(y@);
            }
            let ghost xv = crate::types::hashes_seq_view(x@);
            let ghost yv = crate::types::hashes_seq_view(y@);
            let mut i: usize = 0;
            while i < n
                invariant
                    0 <= i <= n,
                    forall|j: int| 0 <= j < i ==> nodes_equiv(xv[j], yv[j]),
                decreases n - i,
            {
                proof {
                    assert(a@ == ValueModel::VectorHash(xv));
                    assert(decreases_to!(a@ => a@->VectorHash_0));
                    assert(a@->VectorHash_0 == xv);
                    assert(decreases_to!(xv => xv[i as int]));
                    assert(x@[i as int]@ == xv[i as int]);
                }
                if !hash_equiv_exec(&x[i], &y[i]) {
                    return false;
                }
                i += 1;
            }
            true
        },
        (HashValue::Schema(x), HashValue::Schema(y)) => {
            if !str_eq(x.class_id.as_str(), y.class_id.as_str()) {
                return false;
            }
            proof {
                assert(a@ == ValueModel::Schema(x@));
                assert(decreases_to!(a@ => a@->Schema_0));
                assert(decreases_to!(a@->Schema_0 => a@->Schema_0.hash));
                assert(a@->Schema_0.hash == (x.hash)@);
            }
            hash_equiv_exec(&x.hash, &y.hash)
        },
        _ => {
            proof {
                assert(false);
            }
            false
        },
    }
}

/// Key-set deep equality of two Hashes, deciding `nodes_equiv`.
#[verifier::loop_isolation(false)]
pub fn hash_equiv_exec(a: &crate::hash::Hash, b: &crate::hash::Hash) -> (r: bool)
    ensures
        r == nodes_equiv(a@, b@),
    decreases a@, 1int,
{
    proof {
        lemma_nodes_seq_view(a.store@);
        lemma_nodes_seq_view(b.store@);
    }
    if a.store.len() != b.store.len() {
        return false;
    }
    let n = a.store.len();
    let mut i: usize = 0;
    while i < n
        invariant
            0 <= i <= n,
            forall|j: int| 0 <= j < i ==> node_matched_in(#[trigger] a@[j], b@),
        decreases n - i,
    {
        let node = &a.store[i];
        proof {
            assert(node@ == a@[i as int]);
            assert(decreases_to!(a@ => a@[i as int]));
        }
        match b.find_node(node.key.as_str()) {
            Some(k) => {
                let other = match b.get_index(k) {
                    Some(nd) => nd,
                    None => vstd::pervasive::unreached(),
                };
                proof {
                    assert(decreases_to!(a@[i as int] => a@[i as int].value));
                    assert((node.value)@ == a@[i as int].value);
                }
                if !value_equiv_exec(&node.value, &other.value) {
                    return false;
                }
                proof {
                    assert(decreases_to!(a@[i as int] => a@[i as int].attrs));
                    assert((node.attrs)@ == a@[i as int].attrs);
                }
                if !attrs_equiv_exec(&node.attrs, &other.attrs) {
                    return false;
                }
                proof {
                    assert(node_matched_in(a@[i as int], b@));
                }
            },
            None => {
                proof {
                    assert(!node_matched_in(a@[i as int], b@));
                }
                return false;
            },
        }
        i += 1;
    }
    true
}

/// Key-set deep equality of two attribute maps, deciding `attrs_equiv`.
#[verifier::loop_isolation(false)]
pub fn attrs_equiv_exec(a: &Attributes, b: &Attributes) -> (r: bool)
    ensures
        r == attrs_equiv(a@, b@),
    decreases a@, 1int,
{
    proof {
        lemma_attrs_seq_view(a.store@);
        lemma_attrs_seq_view(b.store@);
    }
    if a.store.len() != b.store.len() {
        return false;
    }
    let n = a.store.len();
    let mut i: usize = 0;
    while i < n
        invariant
            0 <= i <= n,
            forall|j: int| 0 <= j < i ==> attr_matched_in(#[trigger] a@[j], b@),
        decreases n - i,
    {
        let attr = &a.store[i];
        proof {
            assert(attr@ == a@[i as int]);
            assert(decreases_to!(a@ => a@[i as int]));
        }
        match b.find_key(attr.key.as_str()) {
            Some(k) => {
                let other = match b.get_index(k) {
                    Some(x) => x,
                    None => vstd::pervasive::unreached(),
                };
                proof {
                    assert(decreases_to!(a@[i as int] => a@[i as int].value));
                    assert((attr.value)@ == a@[i as int].value);
                }
                if !value_equiv_exec(&attr.value, &other.value) {
                    return false;
                }
                proof {
                    assert(attr_matched_in(a@[i as int], b@));
                }
            },
            None => {
                proof {
                    assert(!attr_matched_in(a@[i as int], b@));
                }
                return false;
            },
        }
        i += 1;
    }
    true
}

fn eq_bools(a: &Vec<bool>, b: &Vec<bool>) -> (r: bool)
    ensures
        r == (a@ == b@),
{
    if a.len() != b.len() {
        proof {
            assert(a@.len() != b@.len());
        }
        return false;
    }
    let n = a.len();
    let mut i: usize = 0;
    while i < n
        invariant
            n == a@.len() == b@.len(),
            0 <= i <= n,
            forall|j: int| 0 <= j < i ==> a@[j] == b@[j],
        decreases n - i,
    {
        if a[i] != b[i] {
            return false;
        }
        i += 1;
    }
    proof {
        assert(a@ =~= b@);
    }
    true
}

fn eq_u8s(a: &Vec<u8>, b: &Vec<u8>) -> (r: bool)
    ensures
        r == (a@ == b@),
{
    if a.len() != b.len() {
        proof {
            assert(a@.len() != b@.len());
        }
        return false;
    }
    let n = a.len();
    let mut i: usize = 0;
    while i < n
        invariant
            n == a@.len() == b@.len(),
            0 <= i <= n,
            forall|j: int| 0 <= j < i ==> a@[j] == b@[j],
        decreases n - i,
    {
        if a[i] != b[i] {
            return false;
        }
        i += 1;
    }
    proof {
        assert(a@ =~= b@);
    }
    true
}

fn eq_i8s(a: &Vec<i8>, b: &Vec<i8>) -> (r: bool)
    ensures
        r == (a@ == b@),
{
    if a.len() != b.len() {
        proof {
            assert(a@.len() != b@.len());
        }
        return false;
    }
    let n = a.len();
    let mut i: usize = 0;
    while i < n
        invariant
            n == a@.len() == b@.len(),
            0 <= i <= n,
            forall|j: int| 0 <= j < i ==> a@[j] == b@[j],
        decreases n - i,
    {
        if a[i] != b[i] {
            return false;
        }
        i += 1;
    }
    proof {
        assert(a@ =~= b@);
    }
    true
}

fn eq_u16s(a: &Vec<u16>, b: &Vec<u16>) -> (r: bool)
    ensures
        r == (a@ == b@),
{
    if a.len() != b.len() {
        proof {
            assert(a@.len() != b@.len());
        }
        return false;
    }
    let n = a.len();
    let mut i: usize = 0;
    while i < n
        invariant
            n == a@.len() == b@.len(),
            0 <= i <= n,
            forall|j: int| 0 <= j < i ==> a@[j] == b@[j],
        decreases n - i,
    {
        if a[i] != b[i] {
            return false;
        }
        i += 1;
    }
    proof {
        assert(a@ =~= b@);
    }
    true
}

fn eq_i16s(a: &Vec<i16>, b: &Vec<i16>) -> (r: bool)
    ensures
        r == (a@ == b@),
{
    if a.len() != b.len() {
        proof {
            assert(a@.len() != b@.len());
        }
        return false;
    }
    let n = a.len();
    let mut i: usize = 0;
    while i < n
        invariant
            n == a@.len() == b@.len(),
            0 <= i <= n,
            forall|j: int| 0 <= j < i ==> a@[j] == b@[j],
        decreases n - i,
    {
        if a[i] != b[i] {
            return false;
        }
        i += 1;
    }
    proof {
        assert(a@ =~= b@);
    }
    true
}

fn eq_u32s(a: &Vec<u32>, b: &Vec<u32>) -> (r: bool)
    ensures
        r == (a@ == b@),
{
    if a.len() != b.len() {
        proof {
            assert(a@.len() != b@.len());
        }
        return false;
    }
    let n = a.len();
    let mut i: usize = 0;
    while i < n
        invariant
            n == a@.len() == b@.len(),
            0 <= i <= n,
            forall|j: int| 0 <= j < i ==> a@[j] == b@[j],
        decreases n - i,
    {
        if a[i] != b[i] {
            return false;
        }
        i += 1;
    }
    proof {
        assert(a@ =~= b@);
    }
    true
}

fn eq_i32s(a: &Vec<i32>, b: &Vec<i32>) -> (r: bool)
    ensures
        r == (a@ == b@),
{
    if a.len() != b.len() {
        proof {
            assert(a@.len() != b@.len());
        }
        return false;
    }
    let n = a.len();
    let mut i: usize = 0;
    while i < n
        invariant
            n == a@.len() == b@.len(),
            0 <= i <= n,
            forall|j: int| 0 <= j < i ==> a@[j] == b@[j],
        decreases n - i,
    {
        if a[i] != b[i] {
            return false;
        }
        i += 1;
    }
    proof {
        assert(a@ =~= b@);
    }
    true
}

fn eq_u64s(a: &Vec<u64>, b: &Vec<u64>) -> (r: bool)
    ensures
        r == (a@ == b@),
{
    if a.len() != b.len() {
        proof {
            assert(a@.len() != b@.len());
        }
        return false;
    }
    let n = a.len();
    let mut i: usize = 0;
    while i < n
        invariant
            n == a@.len() == b@.len(),
            0 <= i <= n,
            forall|j: int| 0 <= j < i ==> a@[j] == b@[j],
        decreases n - i,
    {
        if a[i] != b[i] {
            return false;
        }
        i += 1;
    }
    proof {
        assert(a@ =~= b@);
    }
    true
}

fn eq_i64s(a: &Vec<i64>, b: &Vec<i64>) -> (r: bool)
    ensures
        r == (a@ == b@),
{
    if a.len() != b.len() {
        proof {
            assert(a@.len() != b@.len());
        }
        return false;
    }
    let n = a.len();
    let mut i: usize = 0;
    while i < n
        invariant
            n == a@.len() == b@.len(),
            0 <= i <= n,
            forall|j: int| 0 <= j < i ==> a@[j] == b@[j],
        decreases n - i,
    {
        if a[i] != b[i] {
            return false;
        }
        i += 1;
    }
    proof {
        assert(a@ =~= b@);
    }
    true
}

fn eq_strings(a: &Vec<String>, b: &Vec<String>) -> (r: bool)
    ensures
        r == (a.deep_view() == b.deep_view()),
{
    if a.len() != b.len() {
        proof {
            assert(a.deep_view().len() != b.deep_view().len());
        }
        return false;
    }
    let n = a.len();
    let mut i: usize = 0;
    while i < n
        invariant
            n == a@.len() == b@.len(),
            0 <= i <= n,
            forall|j: int| 0 <= j < i ==> a.deep_view()[j] == b.deep_view()[j],
        decreases n - i,
    {
        if !str_eq(a[i].as_str(), b[i].as_str()) {
            proof {
                assert(a.deep_view()[i as int] == a@[i as int]@);
                assert(b.deep_view()[i as int] == b@[i as int]@);
            }
            return false;
        }
        proof {
            assert(a.deep_view()[i as int] == a@[i as int]@);
            assert(b.deep_view()[i as int] == b@[i as int]@);
        }
        i += 1;
    }
    proof {
        assert(a.deep_view() =~= b.deep_view());
    }
    true
}

impl PartialEq for crate::hash::Hash {
    /// Key-set-based deep equality: same entry count, and every entry has a
    /// same-keyed counterpart with an equal value and equal attributes.
    fn eq(&self, other: &Self) -> (r: bool) {
        hash_equiv_exec(self, other)
    }
}

impl vstd::std_specs::cmp::PartialEqSpecImpl for crate::hash::Hash {
    open spec fn obeys_eq_spec() -> bool {
        true
    }

    open spec fn eq_spec(&self, other: &Self) -> bool {
        nodes_equiv(self@, other@)
    }
}

impl PartialEq for Attributes {
    /// Key-set-based deep equality: same entry count, and every key of one
    /// present in the other with a deeply equal value.
    fn eq(&self, other: &Self) -> (r: bool) {
        attrs_equiv_exec(self, other)
    }
}

impl vstd::std_specs::cmp::PartialEqSpecImpl for Attributes {
    open spec fn obeys_eq_spec() -> bool {
        true
    }

    open spec fn eq_spec(&self, other: &Self) -> bool {
        attrs_equiv(self@, other@)
    }
}

} // verus!
