//! The contract between the pipeline and the record types it serves.
//!
//! The pipeline never looks into a record. It asks for the identity, the
//! collection, the text to embed and the payload, and it rebuilds records
//! from stored payloads. What these answers have to satisfy is stated here
//! once, over what a record says to the pipeline, and proved by every impl
//! that is verified. An impl written outside the verifier is taken at its
//! word: what is proved about the pipeline holds for the record types whose
//! impl was checked.

use crate::indexer_api::models::payload::{Payload, ValueModel};
use vstd::prelude::*;

verus! {

/// What a record says to the pipeline.
#[verifier::ext_equal]
pub struct RecordModel {
    /// The 64-bit identity, unique within the collection.
    pub identity: u64,
    /// The name of the collection that the record belongs to.
    pub collection: Seq<char>,
    /// The text from which the embedding is computed.
    pub label: Seq<char>,
    /// The payload stored for the record.
    pub payload: Map<Seq<char>, ValueModel>,
}

/// A record type that can be indexed and found again.
pub trait Indexable: Send + Sync + Sized + 'static {
    /// What this record says to the pipeline. An impl that does not say
    /// leaves it open.
    open spec fn model(&self) -> RecordModel {
        arbitrary()
    }

    /// What the record that a stored payload stands for says to the
    /// pipeline, if the payload stands for a record. An impl that does not
    /// say leaves it open.
    open spec fn record_of(payload: Map<Seq<char>, ValueModel>) -> Option<RecordModel> {
        arbitrary()
    }

    /// The payload of this record.
    ///
    /// The payload stands for a record, and that record has the same
    /// payload: every field that is stored comes back as it was.
    fn as_map(&self) -> (payload: Payload)
        ensures
            payload@ == self.model().payload,
            Self::record_of(payload@) matches Some(back) && back.payload == payload@,
    ;

    /// The identity of this record.
    fn get_id(&self) -> (id: u64)
        ensures
            id == self.model().identity,
    ;

    /// The collection of this record.
    fn collection(&self) -> (name: String)
        ensures
            name@ == self.model().collection,
    ;

    /// The text to embed for this record.
    fn embed_label(&self) -> (label: &str)
        ensures
            label@ == self.model().label,
    ;

    /// Rebuilds a record from a stored payload.
    ///
    /// Succeeds exactly on the payloads that stand for a record, and then
    /// with that record; the outcome depends on the payload alone.
    fn from_qdrant_payload(payload: &Payload) -> (rebuilt: Result<Self, String>)
        ensures
            match rebuilt {
                Ok(record) => Self::record_of(payload@) == Some(record.model()),
                Err(_) => Self::record_of(payload@).is_none(),
            },
    ;
}

/// Takes a record through its payload and back, as writing it to the store
/// and reading it again would.
///
/// This succeeds for every record, and the record that comes back stores
/// the same payload: no stored field is lost or changed on the way. Fields
/// that the record type keeps out of its payload are as the type's reading
/// makes them.
pub fn round_trip<T: Indexable>(record: &T) -> (rebuilt: Result<T, String>)
    ensures
        rebuilt matches Ok(copy) && copy.model().payload == record.model().payload,
{
    T::from_qdrant_payload(&record.as_map())
}

/// A record that can be given up for its payload.
pub trait IntoPayload: Indexable {
    /// Turns the record into its payload, the same that `as_map` gives.
    fn into_payload(self) -> (payload: Payload)
        ensures
            payload@ == self.model().payload,
            Self::record_of(payload@) matches Some(back) && back.payload == payload@,
    ;
}

} // verus!
