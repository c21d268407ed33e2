//! Client-side indexing and retrieval in front of a remote vector store.
//!
//! Records are turned into points (identity, embedding, payload), routed to
//! their collection and written in batches; search results are rebuilt into
//! typed records. Everything that decides or computes lives here and is
//! verified; talking to the store, the embedding model and the channel is
//! left to the caller.

pub mod file_indexer_api;
pub mod indexable_macro;
pub mod indexer_api;
pub mod util;

pub use indexer_api::infrastructure::db_manager::FileVectorDbManager;
pub use indexer_api::infrastructure::index_worker::IndexWorker;
pub use indexer_api::models::file_model::FileModel;
pub use indexer_api::models::payload::{Payload, PayloadValue};
pub use indexer_api::models::search_query_models::VectorQueryModel;
pub use indexer_api::service::VevtorService;
pub use indexer_api::traits::indexable::{Indexable, IntoPayload};
