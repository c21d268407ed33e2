//! What a record type has to offer to take part in the pipeline.

pub mod indexable;
