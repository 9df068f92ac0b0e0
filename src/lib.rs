//! Query-execution core of a vector search engine: per-dimension score
//! explanations, coalescing of partitioned requests, and the decisions made
//! around a single explained search.

pub mod types;
pub mod explain;
pub mod batching;
pub mod query;
