//! The service: the manager's operations as callers name them.

use crate::indexer_api::grouping::{grouped, groups_view, keyed};
use crate::indexer_api::infrastructure::db_manager::{
    hits_view, rebuilt, results_view, EnsureStep, FileVectorDbManager,
};
use crate::indexer_api::models::payload::Payload;
use crate::indexer_api::traits::indexable::Indexable;
use crate::util::hashing::{string_to_u64, text_identity};
use vstd::prelude::*;
use vstd::string::StringExecFns;

verus! {

/// Each (collection, key) pair with the key replaced by its identity.
pub open spec fn identified(ids: Seq<(String, String)>) -> Seq<(Seq<char>, u64)> {
    ids.map_values(|id: (String, String)| (id.0@, text_identity(id.1@)))
}

/// The service in front of the index manager.
pub struct VevtorService {
    db_manager: FileVectorDbManager,
}

impl VevtorService {
    /// The names that the service's manager knows to exist.
    pub closed spec fn known(&self) -> Seq<Seq<char>> {
        self.db_manager.known()
    }

    /// The vector length that new collections are created with.
    pub closed spec fn vector_dim(&self) -> u64 {
        self.db_manager.vector_dim()
    }

    /// A service whose manager knows no collection yet.
    pub fn new(embedding_dim_len: u64) -> (service: Self)
        ensures
            service.known() == Seq::<Seq<char>>::empty(),
            service.vector_dim() == embedding_dim_len,
    {
        VevtorService { db_manager: FileVectorDbManager::new(embedding_dim_len) }
    }

    /// Rebuilds typed records from what the store found: see the manager.
    pub fn search<T: Indexable, S>(found: Result<Vec<(Payload, S)>, String>) -> (results: Result<
        Vec<(T, S)>,
        String,
    >)
        ensures
            match (found, results) {
                (Ok(hits), Ok(records)) => results_view(records@) == rebuilt::<T, S>(
                    hits_view(hits@),
                ),
                (Err(why), Err(message)) => message@ == "Search error: "@ + why@,
                _ => false,
            },
    {
        FileVectorDbManager::search(found)
    }

    /// First step of making sure that a collection exists: nothing for a
    /// known name, a refresh for an unknown one.
    pub fn ensure_collection_exists(&self, name: &str) -> (step: EnsureStep)
        ensures
            step == if self.known().contains(name@) {
                EnsureStep::Ready
            } else {
                EnsureStep::Refresh
            },
    {
        self.db_manager.ensure_collection_exists(name)
    }

    /// Replaces the known names by what the store lists.
    pub fn refresh_known_collections(&mut self, listed: Vec<String>)
        ensures
            final(self).known() == listed@.map_values(|name: String| name@),
            final(self).vector_dim() == old(self).vector_dim(),
    {
        self.db_manager.refresh_known_collections(listed)
    }

    /// Second step, after a refresh: nothing for a listed name, creation
    /// for any other.
    pub fn ensure_after_refresh(&self, name: &str) -> (step: EnsureStep)
        ensures
            step == if self.known().contains(name@) {
                EnsureStep::Ready
            } else {
                EnsureStep::Create { vector_dim: self.vector_dim() }
            },
    {
        self.db_manager.ensure_after_refresh(name)
    }

    /// The message for a collection that the service could not make exist.
    pub fn ensure_failed(why: &str) -> (message: String)
        ensures
            message@ == "Error when ensuring that collection exists: "@ + why@,
    {
        "Error when ensuring that collection exists: ".to_owned().concat(why)
    }

    /// Plans the deletion of records named by textual keys.
    ///
    /// Each key is turned into an identity by the same digest by which
    /// records with a textual identity field are written, so the plan names
    /// exactly the points that were written under these keys.
    pub fn delete_by_str_id(ids: Vec<(String, String)>) -> (plan: Vec<(String, Vec<u64>)>)
        ensures
            groups_view(plan@) == grouped(identified(ids@)),
            forall|g: int, h: int|
                0 <= g < h < plan.len() ==> (#[trigger] plan[g]).0@ != (#[trigger] plan[h]).0@,
    {
        let mut numbered: Vec<(String, u64)> = Vec::new();
        let ghost all = ids@;
        for id in it: ids
            invariant
                it.seq() == all,
                keyed(numbered@) == identified(all.take(it.index() as int)),
        {
            let (collection, key) = id;
            let identity = string_to_u64(key.as_str());
            proof {
                let ghost seen = all.take(it.index() as int);
                assert(all.take(it.index() + 1) =~= seen.push((collection, key)));
                assert(keyed(numbered@.push((collection, identity))) =~= keyed(numbered@).push(
                    (collection@, identity),
                ));
                assert(identified(seen.push((collection, key))) =~= identified(seen).push(
                    (collection@, text_identity(key@)),
                ));
            }
            numbered.push((collection, identity));
        }
        assert(all.take(all.len() as int) =~= all);
        FileVectorDbManager::delete_many(numbered)
    }

    /// Plans the deletion of records named by their identities.
    pub fn delete_by_id(ids: Vec<(String, u64)>) -> (plan: Vec<(String, Vec<u64>)>)
        ensures
            groups_view(plan@) == grouped(keyed(ids@)),
            forall|g: int, h: int|
                0 <= g < h < plan.len() ==> (#[trigger] plan[g]).0@ != (#[trigger] plan[h]).0@,
    {
        FileVectorDbManager::delete_many(ids)
    }
}

} // verus!
