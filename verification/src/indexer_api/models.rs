//! The data that travels through the pipeline.

pub mod file_model;
pub mod payload;
pub mod search_query_models;
