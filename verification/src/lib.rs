//! A verified core for a persistent vector database: partitioned storage for
//! collections, documents, chunks and vectors; a bounded LRU vector cache;
//! and a two-tier cosine-similarity search over fixed-point embeddings.

pub mod types;
pub mod cache;
pub mod collections;
pub mod documents;
pub mod embeddings;
pub mod hashing;
pub mod laws;
pub mod ops;
pub mod scale;
pub mod similarity;
pub mod store;
pub mod util;
pub mod vectors;

use vstd::prelude::*;

verus! {

} // verus!
