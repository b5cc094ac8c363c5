//! The primary container: an ordered map from string keys to annotated
//! values, unique by key, insertion order preserved, overwrite in place.
//!
//! `get` resolves dotted paths ("a.b" descends into the nested Hash stored
//! under "a"); insertion and attribute lookup always use the exact top-level
//! key.

use vstd::prelude::*;

use crate::attributes::Attributes;
use crate::model::{
    dot_idx, has_node, hash_get, keys_of, lemma_dot_idx, lemma_node_key_idx, node_insert,
    node_key_idx, NodeModel,
};
use crate::text::str_eq;
use crate::types::{lemma_nodes_seq_view, node_view, nodes_seq_view, HashValue};
use vstd::string::StrSliceExecFns;

verus! {

/// One labeled, annotated entry of a Hash.
#[derive(Debug)]
pub struct Node {
    pub key: String,
    pub value: HashValue,
    pub attrs: Attributes,
}

impl View for Node {
    type V = NodeModel;

    open spec fn view(&self) -> NodeModel {
        node_view(*self)
    }
}

/// Ordered, keyed, recursive container: the primary data-interchange
/// structure.
#[derive(Debug)]
pub struct Hash {
    pub store: Vec<Node>,
}

impl View for Hash {
    type V = Seq<NodeModel>;

    open spec fn view(&self) -> Seq<NodeModel> {
        nodes_seq_view(self.store@)
    }
}

impl Hash {
    /// An empty Hash.
    pub fn new() -> (r: Self)
        ensures
            r@ == Seq::<NodeModel>::empty(),
    {
        Hash { store: Vec::new() }
    }

    /// Number of top-level entries.
    pub fn len(&self) -> (n: usize)
        ensures
            n == self@.len(),
    {
        proof {
            lemma_nodes_seq_view(self.store@);
        }
        self.store.len()
    }

    /// Whether the Hash holds no entry.
    pub fn is_empty(&self) -> (r: bool)
        ensures
            r == (self@.len() == 0),
    {
        proof {
            lemma_nodes_seq_view(self.store@);
        }
        self.store.is_empty()
    }

    /// Position of the entry stored under an exact top-level key, or absent
    /// when the key is unknown.
    pub(crate) fn find_node(&self, key: &str) -> (r: Option<usize>)
        ensures
            (r is Some) == has_node(self@, key@),
            r matches Some(i) ==> i < self@.len() && i as int == node_key_idx(self@, key@),
    {
        proof {
            lemma_nodes_seq_view(self.store@);
            lemma_node_key_idx(self@, key@);
        }
        let n = self.store.len();
        let mut i: usize = 0;
        while i < n
            invariant
                n == self.store@.len(),
                n == self@.len(),
                0 <= i <= n,
                forall|j: int| 0 <= j < i ==> self@[j].key != key@,
                forall|j: int|
                    0 <= j < self@.len() ==> self@[j].key == (#[trigger] self.store@[j]).key@,
            decreases n - i,
        {
            if str_eq(self.store[i].key.as_str(), key) {
                proof {
                    assert(self@[i as int].key == key@);
                    lemma_node_key_idx(self@, key@);
                }
                return Some(i);
            }
            i += 1;
        }
        proof {
            lemma_node_key_idx(self@, key@);
        }
        None
    }

    /// The node at a position in insertion order, or absent when the
    /// position is past the end.
    pub fn get_index(&self, index: usize) -> (r: Option<&Node>)
        ensures
            (r is Some) == (index < self@.len()),
            r matches Some(nd) ==> nd@ == self@[index as int],
    {
        proof {
            lemma_nodes_seq_view(self.store@);
        }
        if index < self.store.len() {
            Some(&self.store[index])
        } else {
            None
        }
    }

    /// All top-level keys, in insertion order.
    pub fn keys(&self) -> (r: Vec<String>)
        ensures
            r.deep_view() == keys_of(self@),
    {
        proof {
            lemma_nodes_seq_view(self.store@);
        }
        let mut out: Vec<String> = Vec::new();
        let n = self.store.len();
        let mut i: usize = 0;
        while i < n
            invariant
                n == self.store@.len(),
                0 <= i <= n,
                out@.len() == i,
                forall|j: int| 0 <= j < i ==> (#[trigger] out@[j])@ == self.store@[j].key@,
            decreases n - i,
        {
            out.push(self.store[i].key.clone());
            i += 1;
        }
        proof {
            lemma_nodes_seq_view(self.store@);
            assert(out.deep_view() =~= keys_of(self@));
        }
        out
    }

    /// Position of the first '.' in a lookup path, or absent when the path
    /// has none.
    fn find_dot(key: &str) -> (r: Option<usize>)
        ensures
            (r is Some) == (dot_idx(key@) >= 0),
            r matches Some(d) ==> d < key@.len() && d as int == dot_idx(key@),
    {
        proof {
            lemma_dot_idx(key@);
        }
        let n = key.unicode_len();
        let mut i: usize = 0;
        while i < n
            invariant
                n == key@.len(),
                0 <= i <= n,
                forall|j: int| 0 <= j < i ==> key@[j] != '.',
            decreases n - i,
        {
            if key.get_char(i) == '.' {
                proof {
                    lemma_dot_idx(key@);
                }
                return Some(i);
            }
            i += 1;
        }
        proof {
            lemma_dot_idx(key@);
        }
        None
    }

    /// Dotted-path lookup: a '.' in the path descends into a nested Hash.
    /// Absent when any segment is missing or an intermediate value is not a
    /// Hash.  This never fails: a miss is a normal outcome.
    pub fn get(&self, key: &str) -> (r: Option<&HashValue>)
        ensures
            (r is Some) == (hash_get(self@, key@) is Some),
            r matches Some(v) ==> hash_get(self@, key@) == Some(v@),
        decreases key@.len(),
    {
        match Self::find_dot(key) {
            None => {
                proof {
                    lemma_nodes_seq_view(self.store@);
                }
                match self.find_node(key) {
                    Some(i) => Some(&self.store[i].value),
                    None => None,
                }
            },
            Some(d) => {
                let n = key.unicode_len();
                let head = key.substring_char(0, d);
                let rest = key.substring_char(d + 1, n);
                proof {
                    lemma_nodes_seq_view(self.store@);
                }
                match self.find_node(head) {
                    Some(i) => match self.store[i].value.as_hash() {
                        Some(inner) => inner.get(rest),
                        None => None,
                    },
                    None => None,
                }
            },
        }
    }

    /// The attributes of the named top-level entry (no path traversal), or
    /// absent when the key is unknown.
    pub fn get_attributes(&self, key: &str) -> (r: Option<&Attributes>)
        ensures
            (r is Some) == has_node(self@, key@),
            r matches Some(a) ==> a@ == self@[node_key_idx(self@, key@)].attrs,
    {
        proof {
            lemma_nodes_seq_view(self.store@);
        }
        match self.find_node(key) {
            Some(i) => Some(&self.store[i].attrs),
            None => None,
        }
    }

    /// Direct keyed access: the value at a path that must exist.  A missing
    /// key is a fatal error, unlike `get`, whose miss is a normal outcome.
    pub fn index(&self, key: &str) -> (r: &HashValue)
        requires
            hash_get(self@, key@) is Some,
        ensures
            hash_get(self@, key@) == Some(r@),
    {
        match self.get(key) {
            Some(v) => v,
            None => vstd::pervasive::unreached(),
        }
    }

    /// Mutable access to the value under an exact top-level key (no path
    /// traversal), or absent when the key is unknown.  The entry keeps its
    /// key, attributes and position; only its value follows the borrow.
    pub fn get_mut(&mut self, key: &str) -> (r: Option<&mut HashValue>)
        ensures
            (r is Some) == has_node(old(self)@, key@),
            r matches Some(v) ==> {
                let i = node_key_idx(old(self)@, key@);
                &&& (*v)@ == old(self)@[i].value
                &&& final(self)@.len() == old(self)@.len()
                &&& final(self)@[i].key == old(self)@[i].key
                &&& final(self)@[i].attrs == old(self)@[i].attrs
                &&& final(self)@[i].value == (*final(v))@
                &&& forall|j: int|
                    0 <= j < old(self)@.len() && j != i ==> final(self)@[j] == old(self)@[j]
            },
            r is None ==> *final(self) == *old(self),
    {
        broadcast use crate::types::lemma_nodes_seq_view_auto;
        broadcast use crate::types::lemma_nodes_seq_view_update;

        match self.find_node(key) {
            Some(i) => {
                let node = vstd::std_specs::vec::vec_index_mut(&mut self.store, i);
                Some(Self::node_value_mut(node))
            },
            None => None,
        }
    }

    /// Mutable access to the attributes of the named top-level entry (no
    /// path traversal), or absent when the key is unknown.  The entry keeps
    /// its key, value and position; only its attributes follow the borrow.
    pub fn get_mut_attributes(&mut self, key: &str) -> (r: Option<&mut Attributes>)
        ensures
            (r is Some) == has_node(old(self)@, key@),
            r matches Some(a) ==> {
                let i = node_key_idx(old(self)@, key@);
                &&& (*a)@ == old(self)@[i].attrs
                &&& final(self)@.len() == old(self)@.len()
                &&& final(self)@[i].key == old(self)@[i].key
                &&& final(self)@[i].value == old(self)@[i].value
                &&& final(self)@[i].attrs == (*final(a))@
                &&& forall|j: int|
                    0 <= j < old(self)@.len() && j != i ==> final(self)@[j] == old(self)@[j]
            },
            r is None ==> *final(self) == *old(self),
    {
        broadcast use crate::types::lemma_nodes_seq_view_auto;
        broadcast use crate::types::lemma_nodes_seq_view_update;

        match self.find_node(key) {
            Some(i) => {
                let node = vstd::std_specs::vec::vec_index_mut(&mut self.store, i);
                Some(Self::node_attrs_mut(node))
            },
            None => None,
        }
    }

    fn node_attrs_mut(node: &mut Node) -> (a: &mut Attributes)
        ensures
            *a == old(node).attrs,
            *final(node) == (Node {
                key: old(node).key,
                value: old(node).value,
                attrs: *final(a),
            }),
    {
        &mut node.attrs
    }

    fn node_value_mut(node: &mut Node) -> (v: &mut HashValue)
        ensures
            *v == old(node).value,
            *final(node) == (Node {
                key: old(node).key,
                value: *final(v),
                attrs: old(node).attrs,
            }),
    {
        &mut node.value
    }

    /// Insert or overwrite under an exact top-level key, with empty
    /// attributes: an existing key keeps its position and gets the new
    /// value; a new key is appended.
    pub fn insert(&mut self, key: &str, value: HashValue)
        ensures
            final(self)@ == node_insert(
                old(self)@,
                NodeModel { key: key@, value: value@, attrs: Seq::empty() },
            ),
    {
        let attrs = Attributes::new();
        self.insert_index_attrs(key, value, attrs);
    }

    /// Insert or overwrite under an exact top-level key, with the given
    /// attributes.
    pub fn insert_attrs(&mut self, key: &str, value: HashValue, attrs: Attributes)
        ensures
            final(self)@ == node_insert(
                old(self)@,
                NodeModel { key: key@, value: value@, attrs: attrs@ },
            ),
    {
        self.insert_index_attrs(key, value, attrs);
    }

    pub(crate) fn insert_index_attrs(&mut self, key: &str, value: HashValue, attrs: Attributes)
        ensures
            final(self)@ == node_insert(
                old(self)@,
                NodeModel { key: key@, value: value@, attrs: attrs@ },
            ),
    {
        let ghost nm = NodeModel { key: key@, value: value@, attrs: attrs@ };
        let new_node = Node { key: key.to_owned(), value, attrs };
        let ghost na = new_node;
        proof {
            assert(na@ == nm);
        }
        match self.find_node(key) {
            Some(i) => {
                proof {
                    lemma_nodes_seq_view(self.store@);
                }
                self.store.set(i, new_node);
                proof {
                    lemma_nodes_seq_view(self.store@);
                    lemma_nodes_seq_view(old(self).store@);
                    assert(self.store@ == old(self).store@.update(i as int, na));
                    assert(self@.len() == old(self)@.len());
                    assert forall|j: int| 0 <= j < self@.len() implies self@[j] == old(self)@.update(
                        i as int,
                        nm,
                    )[j] by {
                        if j != i as int {
                            assert(self.store@[j] == old(self).store@[j]);
                            assert(self@[j] == node_view(self.store@[j]));
                            assert(old(self)@[j] == node_view(old(self).store@[j]));
                        } else {
                            assert(self.store@[j] == na);
                            assert(self@[j] == node_view(na));
                        }
                    }
                    assert(self@ =~= old(self)@.update(i as int, nm));
                    assert(self@ =~= node_insert(old(self)@, nm));
                }
            },
            None => {
                self.store.push(new_node);
                proof {
                    lemma_nodes_seq_view(self.store@);
                    lemma_nodes_seq_view(old(self).store@);
                    assert(self.store@.drop_last() =~= old(self).store@);
                    assert(self@ =~= node_insert(old(self)@, nm));
                }
            },
        }
    }

    /// An iterator-style cursor over the entries in insertion order.
    pub fn iter(&self) -> (r: HashIterator<'_>)
        ensures
            r.hash == *self,
            r.index == 0,
    {
        HashIterator { hash: self, index: 0 }
    }
}

/// A cursor over a Hash, yielding entries in insertion order.
pub struct HashIterator<'a> {
    pub hash: &'a Hash,
    pub index: usize,
}

impl<'a> HashIterator<'a> {
    /// The next entry in insertion order, or absent when exhausted.
    pub fn next(&mut self) -> (r: Option<&'a Node>)
        ensures
            final(self).hash == old(self).hash,
            old(self).index < old(self).hash@.len() ==> {
                &&& r matches Some(nd) && nd@ == old(self).hash@[old(self).index as int]
                &&& final(self).index == old(self).index + 1
            },
            old(self).index >= old(self).hash@.len() ==> r is None && final(self).index == old(
                self,
            ).index,
    {
        let n = self.hash.len();
        if self.index < n {
            let result = self.hash.get_index(self.index);
            self.index += 1;
            result
        } else {
            None
        }
    }
}

} // verus!
