//! An ordered, recursively nested key/value container ("Hash") together with
//! its exact little-endian binary wire encoding.
//!
//! A `Hash` is an insertion-ordered map from string keys to annotated values
//! (`Node`s); each node carries a value drawn from a closed union of scalar,
//! vector and container kinds (`HashValue`) plus an ordered metadata map
//! (`Attributes`).  The encoder and decoder realize a self-describing binary
//! format; their contracts are stated over a byte-exact specification of that
//! format.

pub mod model;
pub mod text;
pub mod types;
pub mod attributes;
pub mod hash;
pub mod schema;
pub mod wire;
pub mod binary_readers;
pub mod binary_writers;
pub mod equality;
pub mod laws;
