//! The index manager: what is written where, and what comes back.
//!
//! The manager decides; it does not talk to the store. Each operation is
//! split where the store or the embedding model is needed: the caller makes
//! the remote call and hands the outcome to the next step.

use crate::indexer_api::grouping::{
    group_pairs, grouped, groups_view, keyed, keys_in_order, keys_of, lemma_distinct_keys_count,
    lemma_grouping_partitions, lemma_keys_in_order_contains, under,
};
use crate::indexer_api::models::payload::{Payload, ValueModel};
use crate::indexer_api::traits::indexable::{Indexable, IntoPayload, RecordModel};
use crate::util::vec::{zip, zipped};
use vstd::prelude::*;
use vstd::string::StringExecFns;

verus! {

/// A point as the store takes it: embedding, payload, identity.
pub type Point<E> = (E, Payload, u64);

/// A point with its payload as a mathematical mapping.
pub type PointModel<E> = (E, Map<Seq<char>, ValueModel>, u64);

/// The point written for a record and its embedding.
pub open spec fn point_of<T: Indexable, E>(entry: (T, E)) -> PointModel<E> {
    (entry.1, entry.0.model().payload, entry.0.model().identity)
}

/// The points of a vector, each with its payload as a mapping.
pub open spec fn points_view<E>(points: Seq<Point<E>>) -> Seq<PointModel<E>> {
    points.map_values(|point: Point<E>| (point.0, point.1@, point.2))
}

/// A write plan as a sequence of named sequences of points.
pub open spec fn upserts_view<E>(plan: Seq<(String, Vec<Point<E>>)>) -> Seq<
    (Seq<char>, Seq<PointModel<E>>),
> {
    plan.map_values(|batch: (String, Vec<Point<E>>)| (batch.0@, points_view(batch.1@)))
}

/// Each entry under the name of its record's collection.
pub open spec fn by_collection<T: Indexable, E>(entries: Seq<(T, E)>) -> Seq<(Seq<char>, (T, E))> {
    entries.map_values(|entry: (T, E)| (entry.0.model().collection, entry))
}

/// The points of a group of entries, in the order of the entries.
pub open spec fn points_of<T: Indexable, E>(group: (Seq<char>, Seq<(T, E)>)) -> (
    Seq<char>,
    Seq<PointModel<E>>,
) {
    (group.0, group.1.map_values(|entry: (T, E)| point_of(entry)))
}

/// The write plan of a batch: the entries grouped by collection, each
/// group turned into its points.
pub open spec fn upserts_of<T: Indexable, E>(entries: Seq<T>, embeddings: Seq<E>) -> Seq<
    (Seq<char>, Seq<PointModel<E>>),
> {
    grouped(by_collection(zipped(entries, embeddings))).map_values(
        |group: (Seq<char>, Seq<(T, E)>)| points_of(group),
    )
}

/// The texts to embed, one per record, in the order of the records.
pub open spec fn labels_of<T: Indexable>(entries: Seq<T>) -> Seq<Seq<char>> {
    entries.map_values(|entry: T| entry.model().label)
}

/// The delete plan of a list of (collection, identity) pairs.
pub open spec fn deletes_of(ids: Seq<(String, u64)>) -> Seq<(Seq<char>, Seq<u64>)> {
    grouped(keyed(ids))
}

/// The hits of a vector, each with its payload as a mapping.
pub open spec fn hits_view<S>(hits: Seq<(Payload, S)>) -> Seq<(Map<Seq<char>, ValueModel>, S)> {
    hits.map_values(|hit: (Payload, S)| (hit.0@, hit.1))
}

/// The results of a vector, each record as what it says to the pipeline.
pub open spec fn results_view<T: Indexable, S>(results: Seq<(T, S)>) -> Seq<(RecordModel, S)> {
    results.map_values(|result: (T, S)| (result.0.model(), result.1))
}

/// The record of a hit with the hit's score, if the payload stands for a
/// record.
pub open spec fn rebuilt_hit<T: Indexable, S>(hit: (Map<Seq<char>, ValueModel>, S)) -> Option<
    (RecordModel, S),
> {
    match T::record_of(hit.0) {
        Some(record) => Some((record, hit.1)),
        None => None,
    }
}

/// The results of a search: the hits whose payload stands for a record,
/// in the order of the hits, each with its score.
pub open spec fn rebuilt<T: Indexable, S>(hits: Seq<(Map<Seq<char>, ValueModel>, S)>) -> Seq<
    (RecordModel, S),
> {
    hits.filter_map(|hit: (Map<Seq<char>, ValueModel>, S)| rebuilt_hit::<T, S>(hit))
}

/// Whether a hit's payload stands for a record.
pub open spec fn rebuilds<T: Indexable, S>(hit: (Map<Seq<char>, ValueModel>, S)) -> bool {
    T::record_of(hit.0).is_some()
}

/// Search drops what cannot be rebuilt and nothing else, and keeps the
/// store's order.
///
/// There are as many results as hits that stand for a record, hence never
/// more results than hits. Every result is the record and score of a hit,
/// every hit that stands for a record is among the results, and two
/// results stand in the order of the hits they come from.
pub proof fn lemma_search_drops_only_failures<T: Indexable, S>(
    hits: Seq<(Map<Seq<char>, ValueModel>, S)>,
)
    ensures
        rebuilt::<T, S>(hits).len() == hits.filter(
            |hit: (Map<Seq<char>, ValueModel>, S)| rebuilds::<T, S>(hit),
        ).len(),
        rebuilt::<T, S>(hits).len() <= hits.len(),
        forall|r: int|
            0 <= r < rebuilt::<T, S>(hits).len() ==> exists|h: int|
                0 <= h < hits.len() && rebuilt_hit::<T, S>(#[trigger] hits[h]) == Some(
                    #[trigger] rebuilt::<T, S>(hits)[r],
                ),
        forall|h: int|
            0 <= h < hits.len() && rebuilds::<T, S>(#[trigger] hits[h]) ==> rebuilt::<T, S>(
                hits,
            ).contains(rebuilt_hit::<T, S>(hits[h]).unwrap()),
        forall|r: int, s: int|
            0 <= r < s < rebuilt::<T, S>(hits).len() ==> exists|h: int, k: int|
                0 <= h < k < hits.len() && rebuilt_hit::<T, S>(#[trigger] hits[h]) == Some(
                    #[trigger] rebuilt::<T, S>(hits)[r],
                ) && rebuilt_hit::<T, S>(#[trigger] hits[k]) == Some(
                    #[trigger] rebuilt::<T, S>(hits)[s],
                ),
    decreases hits.len(),
{
    let ok = |hit: (Map<Seq<char>, ValueModel>, S)| rebuilds::<T, S>(hit);
    let results = rebuilt::<T, S>(hits);
    if hits.len() == 0 {
        reveal(Seq::filter);
    } else {
        let earlier = hits.drop_last();
        let last = hits.last();
        let before = rebuilt::<T, S>(earlier);
        lemma_search_drops_only_failures::<T, S>(earlier);
        assert(earlier.push(last) =~= hits);
        earlier.lemma_filter_push(last, ok);
        hits.lemma_filter_len(ok);
        assert forall|r: int| 0 <= r < results.len() implies exists|h: int|
            0 <= h < hits.len() && rebuilt_hit::<T, S>(#[trigger] hits[h]) == Some(
                #[trigger] results[r],
            ) by {
            if r < before.len() {
                let h = choose|h: int|
                    0 <= h < earlier.len() && rebuilt_hit::<T, S>(#[trigger] earlier[h]) == Some(
                        before[r],
                    );
                assert(hits[h] == earlier[h]);
            } else {
                assert(rebuilt_hit::<T, S>(hits[hits.len() - 1]) == Some(results[r]));
            }
        }
        assert forall|h: int|
            0 <= h < hits.len() && rebuilds::<T, S>(#[trigger] hits[h]) implies results.contains(
            rebuilt_hit::<T, S>(hits[h]).unwrap(),
        ) by {
            if h < earlier.len() {
                assert(hits[h] == earlier[h]);
                let r = choose|r: int|
                    0 <= r < before.len() && before[r] == rebuilt_hit::<T, S>(earlier[h]).unwrap();
                assert(results[r] == before[r]);
            } else {
                assert(results[results.len() - 1] == rebuilt_hit::<T, S>(hits[h]).unwrap());
            }
        }
        assert forall|r: int, s: int| 0 <= r < s < results.len() implies exists|h: int, k: int|
            0 <= h < k < hits.len() && rebuilt_hit::<T, S>(#[trigger] hits[h]) == Some(
                #[trigger] results[r],
            ) && rebuilt_hit::<T, S>(#[trigger] hits[k]) == Some(#[trigger] results[s]) by {
            if s < before.len() {
                let (h, k) = choose|h: int, k: int|
                    0 <= h < k < earlier.len() && rebuilt_hit::<T, S>(#[trigger] earlier[h])
                        == Some(before[r]) && rebuilt_hit::<T, S>(#[trigger] earlier[k]) == Some(
                        before[s],
                    );
                assert(hits[h] == earlier[h]);
                assert(hits[k] == earlier[k]);
            } else {
                let h = choose|h: int|
                    0 <= h < earlier.len() && rebuilt_hit::<T, S>(#[trigger] earlier[h]) == Some(
                        before[r],
                    );
                assert(hits[h] == earlier[h]);
                assert(rebuilt_hit::<T, S>(hits[hits.len() - 1]) == Some(results[s]));
            }
        }
    }
}

/// Results are ranked as the hits were: whatever relation holds between
/// the scores of any earlier and any later hit (such as "not lower than")
/// holds between the scores of any earlier and any later result.
pub proof fn lemma_search_keeps_ranking<T: Indexable, S>(
    hits: Seq<(Map<Seq<char>, ValueModel>, S)>,
    ranks_before: spec_fn(S, S) -> bool,
)
    requires
        forall|h: int, k: int|
            0 <= h < k < hits.len() ==> ranks_before((#[trigger] hits[h]).1, (#[trigger] hits[k]).1),
    ensures
        forall|r: int, s: int|
            0 <= r < s < rebuilt::<T, S>(hits).len() ==> ranks_before(
                (#[trigger] rebuilt::<T, S>(hits)[r]).1,
                (#[trigger] rebuilt::<T, S>(hits)[s]).1,
            ),
{
    let results = rebuilt::<T, S>(hits);
    lemma_search_drops_only_failures::<T, S>(hits);
    assert forall|r: int, s: int| 0 <= r < s < results.len() implies ranks_before(
        (#[trigger] results[r]).1,
        (#[trigger] results[s]).1,
    ) by {
        let (h, k) = choose|h: int, k: int|
            0 <= h < k < hits.len() && rebuilt_hit::<T, S>(#[trigger] hits[h]) == Some(results[r])
                && rebuilt_hit::<T, S>(#[trigger] hits[k]) == Some(results[s]);
        assert(ranks_before(hits[h].1, hits[k].1));
    }
}

/// However many records of a batch belong to a collection, the plan holds
/// one write for it, so the collection is ensured once and created at most
/// once while the batch is processed; a collection to which no record of
/// the batch belongs is neither ensured nor written.
pub proof fn lemma_one_write_per_collection<T: Indexable, E>(
    entries: Seq<T>,
    embeddings: Seq<E>,
    collection: Seq<char>,
)
    ensures
        upserts_of(entries, embeddings).filter(under(collection)).len() == if keys_of(
            by_collection(zipped(entries, embeddings)),
        ).contains(collection) {
            1nat
        } else {
            0nat
        },
{
    let routed = by_collection(zipped(entries, embeddings));
    let groups = grouped(routed);
    let plan = upserts_of(entries, embeddings);
    let names = keys_in_order(keys_of(routed));
    lemma_grouping_partitions(routed);
    lemma_keys_in_order_contains(keys_of(routed), collection);
    assert forall|g: int, h: int| 0 <= g < h < plan.len() implies (#[trigger] plan[g]).0 != (
    #[trigger] plan[h]).0 by {
        assert(plan[g].0 == groups[g].0);
        assert(plan[h].0 == groups[h].0);
    }
    lemma_distinct_keys_count(plan, collection);
    if keys_of(routed).contains(collection) {
        let g = choose|g: int| 0 <= g < names.len() && names[g] == collection;
        assert(plan[g].0 == groups[g].0);
    } else {
        assert forall|g: int| 0 <= g < plan.len() implies (#[trigger] plan[g]).0 != collection by {
            assert(plan[g].0 == groups[g].0);
            assert(names[g] == groups[g].0);
        }
    }
}

/// What has to happen next for a collection to exist.
#[derive(Clone, Copy, Debug, PartialEq, Eq, Structural)]
pub enum EnsureStep {
    /// The collection is known to exist: nothing to do, no remote call.
    Ready,
    /// The collection is not known: ask the store for its collections,
    /// hand the list to `refresh_known_collections`, and ask again with
    /// `ensure_after_refresh`.
    Refresh,
    /// The store does not have the collection: create it, with vectors of
    /// this length.
    Create { vector_dim: u64 },
}

/// The names of the collections known to exist, and the vector length for
/// new ones.
pub struct FileVectorDbManager {
    known_collections: Vec<String>,
    embedding_dim_len: u64,
}

/// Joins what failed and why.
fn describe(what: &str, why: &str) -> (message: String)
    ensures
        message@ == what@ + why@,
{
    what.to_owned().concat(why)
}

impl FileVectorDbManager {
    /// The names known to exist.
    pub closed spec fn known(&self) -> Seq<Seq<char>> {
        self.known_collections@.map_values(|name: String| name@)
    }

    /// The vector length that new collections are created with.
    pub closed spec fn vector_dim(&self) -> u64 {
        self.embedding_dim_len
    }

    /// A manager that knows no collection yet.
    pub fn new(embedding_dim_len: u64) -> (manager: Self)
        ensures
            manager.known() == Seq::<Seq<char>>::empty(),
            manager.vector_dim() == embedding_dim_len,
    {
        let manager = FileVectorDbManager { known_collections: Vec::new(), embedding_dim_len };
        assert(manager.known() =~= Seq::<Seq<char>>::empty());
        manager
    }

    /// The vector length that new collections are created with.
    pub fn dim(&self) -> (vector_dim: u64)
        ensures
            vector_dim == self.vector_dim(),
    {
        self.embedding_dim_len
    }

    /// Whether `name` is among the known names.
    pub(crate) fn knows(&self, name: &str) -> (known: bool)
        ensures
            known == self.known().contains(name@),
    {
        let wanted: String = name.to_owned();
        let mut i: usize = 0;
        while i < self.known_collections.len()
            invariant
                i <= self.known_collections.len(),
                wanted@ == name@,
                forall|j: int| 0 <= j < i ==> self.known()[j] != name@,
            decreases self.known_collections.len() - i,
        {
            if self.known_collections[i] == wanted {
                assert(self.known()[i as int] == name@);
                return true;
            }
            i = i + 1;
        }
        false
    }

    /// First step of making sure that a collection exists.
    ///
    /// A known collection needs nothing. An unknown one may have been
    /// created by someone else in the meantime, so the next step is to
    /// refresh, never to create.
    pub fn ensure_collection_exists(&self, name: &str) -> (step: EnsureStep)
        ensures
            step == if self.known().contains(name@) {
                EnsureStep::Ready
            } else {
                EnsureStep::Refresh
            },
    {
        if self.knows(name) {
            EnsureStep::Ready
        } else {
            EnsureStep::Refresh
        }
    }

    /// Replaces the known names by what the store lists.
    pub fn refresh_known_collections(&mut self, listed: Vec<String>)
        ensures
            final(self).known() == listed@.map_values(|name: String| name@),
            final(self).vector_dim() == old(self).vector_dim(),
    {
        self.known_collections = listed;
    }

    /// Second step, after a refresh: a collection that the store lists
    /// needs nothing, any other is created with the configured vector
    /// length. The created name is not added to the known names; the next
    /// refresh brings it.
    pub fn ensure_after_refresh(&self, name: &str) -> (step: EnsureStep)
        ensures
            step == if self.known().contains(name@) {
                EnsureStep::Ready
            } else {
                EnsureStep::Create { vector_dim: self.vector_dim() }
            },
    {
        if self.knows(name) {
            EnsureStep::Ready
        } else {
            EnsureStep::Create { vector_dim: self.embedding_dim_len }
        }
    }

    /// The message for a collection that could not be made to exist.
    pub fn ensure_failed(why: &str) -> (message: String)
        ensures
            message@ == "Error ensuring collection exists: "@ + why@,
    {
        describe("Error ensuring collection exists: ", why)
    }

    /// The report for a collection whose deletions failed.
    pub fn delete_failed(collection: &str, why: &str) -> (message: String)
        ensures
            message@ == "Error deleting ids from collection '"@ + collection@ + "': "@ + why@,
    {
        describe("Error deleting ids from collection '", collection).concat("': ").concat(why)
    }

    /// The texts to embed for a batch, in the order of its records.
    pub fn embed_labels<T: Indexable>(entries: &Vec<T>) -> (labels: Vec<&str>)
        ensures
            labels@.map_values(|label: &str| label@) == labels_of(entries@),
    {
        let mut labels: Vec<&str> = Vec::new();
        let mut i: usize = 0;
        while i < entries.len()
            invariant
                i <= entries.len(),
                labels@.map_values(|label: &str| label@) == labels_of(entries@.take(i as int)),
            decreases entries.len() - i,
        {
            let label = entries[i].embed_label();
            proof {
                assert(entries@.take(i + 1) =~= entries@.take(i as int).push(entries[i as int]));
                assert(labels@.push(label).map_values(|label: &str| label@) =~= labels_of(
                    entries@.take(i as int),
                ).push(label@));
                assert(labels_of(entries@.take(i as int).push(entries[i as int])) =~= labels_of(
                    entries@.take(i as int),
                ).push(entries[i as int].model().label));
            }
            labels.push(label);
            i = i + 1;
        }
        assert(entries@.take(entries.len() as int) =~= entries@);
        labels
    }

    /// Groups (record, embedding) pairs by the record's collection.
    pub fn group_entries<T: Indexable, E>(zip: Vec<(T, E)>) -> (groups: Vec<
        (String, Vec<(T, E)>),
    >)
        ensures
            groups_view(groups@) == grouped(by_collection(zip@)),
    {
        let mut named: Vec<(String, (T, E))> = Vec::new();
        let ghost all = zip@;
        for entry in it: zip
            invariant
                it.seq() == all,
                keyed(named@) == by_collection(all.take(it.index() as int)),
        {
            let collection = entry.0.collection();
            proof {
                let ghost seen = all.take(it.index() as int);
                assert(all.take(it.index() + 1) =~= seen.push(entry));
                assert(keyed(named@.push((collection, entry))) =~= keyed(named@).push(
                    (collection@, entry),
                ));
                assert(by_collection(seen.push(entry)) =~= by_collection(seen).push(
                    (entry.0.model().collection, entry),
                ));
            }
            named.push((collection, entry));
        }
        assert(all.take(all.len() as int) =~= all);
        group_pairs(named)
    }

    /// Groups identities by collection.
    pub fn group_ids(zip: Vec<(String, u64)>) -> (groups: Vec<(String, Vec<u64>)>)
        ensures
            groups_view(groups@) == deletes_of(zip@),
    {
        group_pairs(zip)
    }

    /// Turns the entries of one group into points.
    fn to_points<T: Indexable + IntoPayload, E>(group: Vec<(T, E)>) -> (points: Vec<Point<E>>)
        ensures
            points_view(points@) == group@.map_values(|entry: (T, E)| point_of(entry)),
    {
        let mut points: Vec<Point<E>> = Vec::new();
        let ghost all = group@;
        for entry in it: group
            invariant
                it.seq() == all,
                points_view(points@) == all.take(it.index() as int).map_values(
                    |entry: (T, E)| point_of(entry),
                ),
        {
            let (record, embedding) = entry;
            let id = record.get_id();
            let payload = record.into_payload();
            proof {
                let ghost seen = all.take(it.index() as int);
                assert(all.take(it.index() + 1) =~= seen.push((record, embedding)));
                assert(points_view(points@.push((embedding, payload, id))) =~= points_view(
                    points@,
                ).push((embedding, payload@, id)));
                assert(seen.push((record, embedding)).map_values(|entry: (T, E)| point_of(entry))
                    =~= seen.map_values(|entry: (T, E)| point_of(entry)).push(
                    point_of((record, embedding)),
                ));
            }
            points.push((embedding, payload, id));
        }
        assert(all.take(all.len() as int) =~= all);
        points
    }

    /// Plans the writes for a batch of records.
    ///
    /// `embeddings` is what the embedding model gave for the texts of
    /// `embed_labels`: one embedding per record, in order. If the
    /// model failed, nothing is written and the failure is reported. Else
    /// the plan holds one write per distinct collection of the batch, in the
    /// order in which the collections first occur, each with the points of
    /// its records in the order of the batch. Each collection of the plan is
    /// to be ensured once, before its write.
    pub fn insert_many<T: Indexable + IntoPayload, E>(
        entries: Vec<T>,
        embeddings: Result<Vec<E>, String>,
    ) -> (plan: Result<Vec<(String, Vec<Point<E>>)>, String>)
        ensures
            match (embeddings, plan) {
                (Ok(vectors), Ok(batches)) => {
                    &&& upserts_view(batches@) == upserts_of(entries@, vectors@)
                    &&& forall|g: int, h: int|
                        0 <= g < h < batches.len() ==> (#[trigger] batches[g]).0@ != (
                        #[trigger] batches[h]).0@
                },
                (Err(why), Err(message)) => message@ == "Error generating embeddings: "@ + why@,
                _ => false,
            },
    {
        match embeddings {
            Err(why) => Err(describe("Error generating embeddings: ", why.as_str())),
            Ok(vectors) => {
                let ghost want = grouped(by_collection(zipped(entries@, vectors@)));
                let groups = Self::group_entries(zip(entries, vectors));
                let mut batches: Vec<(String, Vec<Point<E>>)> = Vec::new();
                let ghost all = groups@;
                for group in it: groups
                    invariant
                        it.seq() == all,
                        groups_view(all) == want,
                        upserts_view(batches@) == want.take(it.index() as int).map_values(
                            |group: (Seq<char>, Seq<(T, E)>)| points_of(group),
                        ),
                {
                    let (collection, members) = group;
                    let points = Self::to_points(members);
                    proof {
                        let ghost done = want.take(it.index() as int);
                        assert(want[it.index() as int] == (collection@, members@));
                        assert(want.take(it.index() + 1) =~= done.push((collection@, members@)));
                        assert(upserts_view(batches@.push((collection, points))) =~= upserts_view(
                            batches@,
                        ).push((collection@, points_view(points@))));
                        assert(done.push((collection@, members@)).map_values(
                            |group: (Seq<char>, Seq<(T, E)>)| points_of(group),
                        ) =~= done.map_values(
                            |group: (Seq<char>, Seq<(T, E)>)| points_of(group),
                        ).push(points_of::<T, E>((collection@, members@))));
                    }
                    batches.push((collection, points));
                }
                proof {
                    assert(want.take(want.len() as int) =~= want);
                    lemma_grouping_partitions(by_collection(zipped(entries@, vectors@)));
                    assert forall|g: int, h: int| 0 <= g < h < batches.len() implies (
                    #[trigger] batches[g]).0@ != (#[trigger] batches[h]).0@ by {
                        assert(upserts_view(batches@)[g].0 == want[g].0);
                        assert(upserts_view(batches@)[h].0 == want[h].0);
                    }
                }
                Ok(batches)
            },
        }
    }

    /// Rebuilds typed records from what the store found.
    ///
    /// `found` is the store's answer: the hits in its order, each a payload
    /// and a score, or its failure. A hit whose payload does not stand for a
    /// record of type `T` is left out, silently; the others come back in the
    /// store's order with their scores. A failure of the store is reported.
    pub fn search<T: Indexable, S>(found: Result<Vec<(Payload, S)>, String>) -> (results: Result<
        Vec<(T, S)>,
        String,
    >)
        ensures
            match (found, results) {
                (Ok(hits), Ok(records)) => results_view(records@) == rebuilt::<T, S>(
                    hits_view(hits@),
                ),
                (Err(why), Err(message)) => message@ == "Search error: "@ + why@,
                _ => false,
            },
    {
        match found {
            Err(why) => Err(describe("Search error: ", why.as_str())),
            Ok(hits) => {
                let mut records: Vec<(T, S)> = Vec::new();
                let ghost all = hits@;
                for hit in it: hits
                    invariant
                        it.seq() == all,
                        results_view(records@) == rebuilt::<T, S>(
                            hits_view(all.take(it.index() as int)),
                        ),
                {
                    let (payload, score) = hit;
                    proof {
                        let ghost seen = hits_view(all.take(it.index() as int));
                        assert(hits_view(all.take(it.index() + 1)) =~= seen.push(
                            (payload@, score),
                        ));
                        assert(seen.push((payload@, score)).drop_last() =~= seen);
                    }
                    match T::from_qdrant_payload(&payload) {
                        Ok(record) => {
                            assert(results_view(records@.push((record, score))) =~= results_view(
                                records@,
                            ) + seq![(record.model(), score)]);
                            records.push((record, score));
                        },
                        Err(_) => {},
                    }
                }
                assert(all.take(all.len() as int) =~= all);
                Ok(records)
            },
        }
    }

    /// Plans the deletions for a list of (collection, identity) pairs: one
    /// request per distinct collection, in the order in which the
    /// collections first occur, each with its identities in the order given.
    pub fn delete_many(ids: Vec<(String, u64)>) -> (plan: Vec<(String, Vec<u64>)>)
        ensures
            groups_view(plan@) == deletes_of(ids@),
            forall|g: int, h: int|
                0 <= g < h < plan.len() ==> (#[trigger] plan[g]).0@ != (#[trigger] plan[h]).0@,
    {
        let plan = Self::group_ids(ids);
        proof {
            lemma_grouping_partitions(keyed(ids@));
            assert forall|g: int, h: int| 0 <= g < h < plan.len() implies (#[trigger] plan[g]).0@
                != (#[trigger] plan[h]).0@ by {
                assert(groups_view(plan@)[g].0 == deletes_of(ids@)[g].0);
                assert(groups_view(plan@)[h].0 == deletes_of(ids@)[h].0);
            }
        }
        plan
    }
}

} // verus!
