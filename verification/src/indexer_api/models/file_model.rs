//! The record of a file.

use crate::indexer_api::models::payload::{Payload, PayloadValue, ValueModel};
use crate::indexer_api::traits::indexable::{Indexable, IntoPayload, RecordModel};
use crate::util::hashing::{string_to_u64, text_identity};
use vstd::prelude::*;

verus! {

/// A file, known by its name and filed under a collection.
///
/// The name is stored in the payload. The collection is not: it says where
/// the record is kept, and whoever reads a payload back supplies it.
#[derive(Clone, Debug, PartialEq, Eq)]
pub struct FileModel {
    pub name: String,
    pub collection: String,
}

/// The payload stored for a file of the given name.
pub open spec fn file_payload(name: Seq<char>) -> Map<Seq<char>, ValueModel> {
    Map::<Seq<char>, ValueModel>::empty().insert("name"@, ValueModel::Text(name))
}

/// The file name that a payload holds: the text of its field `name`.
pub open spec fn file_name_in(payload: Map<Seq<char>, ValueModel>) -> Option<Seq<char>> {
    if payload.contains_key("name"@) {
        match payload["name"@] {
            ValueModel::Text(name) => Some(name),
            _ => None,
        }
    } else {
        None
    }
}

impl FileModel {
    /// The payload of this file: its name under `name`, nothing else.
    pub fn as_map(&self) -> (payload: Payload)
        ensures
            payload@ == file_payload(self.name@),
    {
        let mut map = Payload::new();
        map.insert("name".to_owned(), PayloadValue::Text(self.name.clone()));
        map
    }

    /// Rebuilds a file from a stored payload and the collection it was
    /// read from.
    ///
    /// Fails exactly if the payload has no text under `name`.
    pub fn from_qdrant_payload(payload: &Payload, collection: String) -> (rebuilt: Result<
        FileModel,
        String,
    >)
        ensures
            match rebuilt {
                Ok(file) => file_name_in(payload@) == Some(file.name@) && file.collection
                    == collection,
                Err(reason) => file_name_in(payload@).is_none() && reason@
                    == "Name field doesn't exist"@,
            },
    {
        match payload.get("name") {
            Some(value) => match value.as_str() {
                Some(name) => Ok(FileModel { name: name.to_owned(), collection }),
                None => Err("Name field doesn't exist".to_owned()),
            },
            None => Err("Name field doesn't exist".to_owned()),
        }
    }

    /// The identity of this file: the digest of its name.
    pub fn get_id(&self) -> (id: u64)
        ensures
            id == text_identity(self.name@),
    {
        string_to_u64(self.name.as_str())
    }
}

/// What a file of the given name and collection says to the pipeline.
pub open spec fn file_record(name: Seq<char>, collection: Seq<char>) -> RecordModel {
    RecordModel {
        identity: text_identity(name),
        collection,
        label: name,
        payload: file_payload(name),
    }
}

impl Indexable for FileModel {
    open spec fn model(&self) -> RecordModel {
        file_record(self.name@, self.collection@)
    }

    open spec fn record_of(payload: Map<Seq<char>, ValueModel>) -> Option<RecordModel> {
        match file_name_in(payload) {
            Some(name) => Some(file_record(name, Seq::empty())),
            None => None,
        }
    }

    fn as_map(&self) -> (payload: Payload) {
        FileModel::as_map(self)
    }

    fn get_id(&self) -> (id: u64) {
        FileModel::get_id(self)
    }

    fn collection(&self) -> (name: String) {
        self.collection.clone()
    }

    fn embed_label(&self) -> (label: &str) {
        self.name.as_str()
    }

    /// The payload does not say where it was kept, so the rebuilt file
    /// carries an empty collection name.
    fn from_qdrant_payload(payload: &Payload) -> (rebuilt: Result<Self, String>) {
        FileModel::from_qdrant_payload(payload, String::new())
    }
}

impl IntoPayload for FileModel {
    fn into_payload(self) -> (payload: Payload) {
        FileModel::as_map(&self)
    }
}

/// The identity of a file depends on its name alone, and it is the
/// identity that the name gives as a textual key: two files of one name
/// have one identity, whenever and wherever it is derived, and a deletion
/// by that name names the file.
pub proof fn lemma_file_identity_is_that_of_its_name(file: FileModel, other: FileModel)
    ensures
        file.model().identity == text_identity(file.name@),
        file.name@ == other.name@ ==> file.model().identity == other.model().identity,
{
}

/// A file's payload, read back, gives the file's name again. The
/// collection is not stored: it is the one supplied at reading.
pub proof fn lemma_file_round_trip(name: Seq<char>)
    ensures
        file_name_in(file_payload(name)) == Some(name),
{
}

} // verus!
