//! Small helpers shared by the pipeline.

pub mod hashing;
pub mod vec;
