//! Ordered metadata map attached to a node: string keys to values, unique by
//! key, insertion order preserved, overwrite in place.

use vstd::prelude::*;

use crate::model::{
    attr_insert, attr_key_idx, attr_keys_of, has_attr, lemma_attr_key_idx, AttrModel,
};
use crate::text::str_eq;
use crate::types::{attr_view, attrs_seq_view, lemma_attrs_seq_view, HashValue};

verus! {

/// One metadata entry: a key with its value.
#[derive(Debug)]
pub struct Attribute {
    pub key: String,
    pub value: HashValue,
}

impl View for Attribute {
    type V = AttrModel;

    open spec fn view(&self) -> AttrModel {
        attr_view(*self)
    }
}

/// Ordered metadata map: a sequence of attributes unique by key.
#[derive(Debug)]
pub struct Attributes {
    pub store: Vec<Attribute>,
}

impl View for Attributes {
    type V = Seq<AttrModel>;

    open spec fn view(&self) -> Seq<AttrModel> {
        attrs_seq_view(self.store@)
    }
}

impl Attributes {
    /// An empty attribute map.
    pub fn new() -> (r: Self)
        ensures
            r@ == Seq::<AttrModel>::empty(),
    {
        Attributes { store: Vec::new() }
    }

    /// Number of attributes.
    pub fn len(&self) -> (n: usize)
        ensures
            n == self@.len(),
    {
        proof {
            lemma_attrs_seq_view(self.store@);
        }
        self.store.len()
    }

    /// Whether the map holds no attribute.
    pub fn is_empty(&self) -> (r: bool)
        ensures
            r == (self@.len() == 0),
    {
        proof {
            lemma_attrs_seq_view(self.store@);
        }
        self.store.is_empty()
    }

    /// Position of the entry stored under a key, or absent when the key is
    /// unknown.
    pub(crate) fn find_key(&self, key: &str) -> (r: Option<usize>)
        ensures
            (r is Some) == has_attr(self@, key@),
            r matches Some(i) ==> i < self@.len() && i as int == attr_key_idx(self@, key@),
    {
        proof {
            lemma_attrs_seq_view(self.store@);
            lemma_attr_key_idx(self@, key@);
        }
        let n = self.store.len();
        let mut i: usize = 0;
        while i < n
            invariant
                n == self.store@.len(),
                n == self@.len(),
                0 <= i <= n,
                forall|j: int| 0 <= j < i ==> self@[j].key != key@,
                forall|j: int|
                    0 <= j < self@.len() ==> self@[j].key == (#[trigger] self.store@[j]).key@,
            decreases n - i,
        {
            if str_eq(self.store[i].key.as_str(), key) {
                proof {
                    assert(self@[i as int].key == key@);
                    lemma_attr_key_idx(self@, key@);
                }
                return Some(i);
            }
            i += 1;
        }
        proof {
            lemma_attr_key_idx(self@, key@);
        }
        None
    }

    /// The attribute at a position in insertion order, or absent when the
    /// position is past the end.
    pub fn get_index(&self, index: usize) -> (r: Option<&Attribute>)
        ensures
            (r is Some) == (index < self@.len()),
            r matches Some(a) ==> a@ == self@[index as int],
    {
        proof {
            lemma_attrs_seq_view(self.store@);
        }
        if index < self.store.len() {
            Some(&self.store[index])
        } else {
            None
        }
    }

    /// All keys, in insertion order.
    pub fn keys(&self) -> (r: Vec<String>)
        ensures
            r.deep_view() == attr_keys_of(self@),
    {
        proof {
            lemma_attrs_seq_view(self.store@);
        }
        let mut out: Vec<String> = Vec::new();
        let n = self.store.len();
        let mut i: usize = 0;
        while i < n
            invariant
                n == self.store@.len(),
                0 <= i <= n,
                out@.len() == i,
                forall|j: int| 0 <= j < i ==> (#[trigger] out@[j])@ == self.store@[j].key@,
            decreases n - i,
        {
            out.push(self.store[i].key.clone());
            i += 1;
        }
        proof {
            lemma_attrs_seq_view(self.store@);
            assert(out.deep_view() =~= attr_keys_of(self@));
        }
        out
    }

    /// The value stored under a key, or absent when the key is unknown.
    pub fn get(&self, key: &str) -> (r: Option<&HashValue>)
        ensures
            (r is Some) == has_attr(self@, key@),
            r matches Some(v) ==> v@ == self@[attr_key_idx(self@, key@)].value,
    {
        proof {
            lemma_attrs_seq_view(self.store@);
        }
        match self.find_key(key) {
            Some(i) => Some(&self.store[i].value),
            None => None,
        }
    }

    /// Mutable access to the value stored under a key, or absent when the
    /// key is unknown.  The entry keeps its key and position; only its
    /// value follows the borrow.
    pub fn get_mut(&mut self, key: &str) -> (r: Option<&mut HashValue>)
        ensures
            (r is Some) == has_attr(old(self)@, key@),
            r matches Some(v) ==> {
                let i = attr_key_idx(old(self)@, key@);
                &&& (*v)@ == old(self)@[i].value
                &&& final(self)@.len() == old(self)@.len()
                &&& final(self)@[i].key == old(self)@[i].key
                &&& final(self)@[i].value == (*final(v))@
                &&& forall|j: int|
                    0 <= j < old(self)@.len() && j != i ==> final(self)@[j] == old(self)@[j]
            },
            r is None ==> *final(self) == *old(self),
    {
        broadcast use crate::types::lemma_attrs_seq_view_auto;
        broadcast use crate::types::lemma_attrs_seq_view_update;

        match self.find_key(key) {
            Some(i) => {
                let attr = vstd::std_specs::vec::vec_index_mut(&mut self.store, i);
                Some(Self::attr_value_mut(attr))
            },
            None => None,
        }
    }

    fn attr_value_mut(attr: &mut Attribute) -> (v: &mut HashValue)
        ensures
            *v == old(attr).value,
            *final(attr) == (Attribute { key: old(attr).key, value: *final(v) }),
    {
        &mut attr.value
    }

    /// Insert or overwrite: an existing key keeps its position and gets the
    /// new value; a new key is appended.
    pub fn insert(&mut self, key: &str, value: HashValue)
        ensures
            final(self)@ == attr_insert(old(self)@, AttrModel { key: key@, value: value@ }),
    {
        self.insert_index(key, value);
    }

    pub(crate) fn insert_index(&mut self, key: &str, value: HashValue)
        ensures
            final(self)@ == attr_insert(old(self)@, AttrModel { key: key@, value: value@ }),
    {
        let ghost am = AttrModel { key: key@, value: value@ };
        let new_attr = Attribute { key: key.to_owned(), value };
        let ghost na = new_attr;
        proof {
            assert(na@ == am);
        }
        match self.find_key(key) {
            Some(i) => {
                proof {
                    lemma_attrs_seq_view(self.store@);
                }
                self.store.set(i, new_attr);
                proof {
                    lemma_attrs_seq_view(self.store@);
                    lemma_attrs_seq_view(old(self).store@);
                    assert(self.store@ == old(self).store@.update(i as int, na));
                    assert(self@.len() == old(self)@.len());
                    assert forall|j: int| 0 <= j < self@.len() implies self@[j] == old(self)@.update(
                        i as int,
                        am,
                    )[j] by {
                        if j != i as int {
                            assert(self.store@[j] == old(self).store@[j]);
                            assert(self@[j] == attr_view(self.store@[j]));
                            assert(old(self)@[j] == attr_view(old(self).store@[j]));
                        } else {
                            assert(self.store@[j] == na);
                            assert(self@[j] == attr_view(na));
                        }
                    }
                    assert(self@ =~= old(self)@.update(i as int, am));
                    assert(self@ =~= attr_insert(old(self)@, am));
                }
            },
            None => {
                self.store.push(new_attr);
                proof {
                    lemma_attrs_seq_view(self.store@);
                    lemma_attrs_seq_view(old(self).store@);
                    assert(self.store@.drop_last() =~= old(self).store@);
                    assert(self@ =~= attr_insert(old(self)@, am));
                }
            },
        }
    }

    /// An iterator-style cursor over the attributes in insertion order.
    pub fn iter(&self) -> (r: AttributesIterator<'_>)
        ensures
            r.attrs == *self,
            r.index == 0,
    {
        AttributesIterator { attrs: self, index: 0 }
    }
}

/// A cursor over an attribute map, yielding entries in insertion order.
pub struct AttributesIterator<'a> {
    pub attrs: &'a Attributes,
    pub index: usize,
}

impl<'a> AttributesIterator<'a> {
    /// The next attribute in insertion order, or absent when exhausted.
    pub fn next(&mut self) -> (r: Option<&'a Attribute>)
        ensures
            final(self).attrs == old(self).attrs,
            old(self).index < old(self).attrs@.len() ==> {
                &&& r matches Some(a) && a@ == old(self).attrs@[old(self).index as int]
                &&& final(self).index == old(self).index + 1
            },
            old(self).index >= old(self).attrs@.len() ==> r is None && final(self).index == old(
                self,
            ).index,
    {
        let n = self.attrs.len();
        if self.index < n {
            let result = self.attrs.get_index(self.index);
            self.index += 1;
            result
        } else {
            None
        }
    }
}

} // verus!
