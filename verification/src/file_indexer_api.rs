//! The file indexer: files queued in bulk and written once enough have
//! gathered.

pub mod service;
