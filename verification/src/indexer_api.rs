//! The indexing pipeline: records, routing, batching and retrieval.

pub mod grouping;
pub mod infrastructure;
pub mod models;
pub mod service;
pub mod traits;
