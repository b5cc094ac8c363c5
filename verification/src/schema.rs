//! A named description of a Hash's shape.

use vstd::prelude::*;

use crate::model::SchemaModel;
use crate::types::nodes_seq_view;

verus! {

/// A (class id, Hash) pair naming a shape; itself usable as a value kind.
#[derive(Debug)]
pub struct Schema {
    pub class_id: String,
    pub hash: crate::hash::Hash,
}

impl View for Schema {
    type V = SchemaModel;

    open spec fn view(&self) -> SchemaModel {
        SchemaModel { class_id: self.class_id@, hash: nodes_seq_view(self.hash.store@) }
    }
}

impl Schema {
    /// Pair a class id with the Hash it describes.
    pub fn new(class_id: String, hash: crate::hash::Hash) -> (r: Schema)
        ensures
            r@ == (SchemaModel { class_id: class_id@, hash: hash@ }),
    {
        Schema { class_id, hash }
    }
}

} // verus!
