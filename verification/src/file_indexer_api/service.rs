//! The queue in front of the file index.

use crate::indexer_api::models::file_model::{file_name_in, FileModel};
use crate::indexer_api::models::payload::{Payload, ValueModel};
use crate::util::vec::extract_vec_from_lock;
use vstd::prelude::*;
use vstd::string::StringExecFns;

verus! {

/// The name of the file that a hit stands for, with the hit's score, if the
/// hit's payload holds a file name.
pub open spec fn found_file<S>(hit: (Map<Seq<char>, ValueModel>, S)) -> Option<(Seq<char>, S)> {
    match file_name_in(hit.0) {
        Some(name) => Some((name, hit.1)),
        None => None,
    }
}

/// The files that a list of hits stands for: name and score of every hit
/// whose payload holds a file name, in the order of the hits.
pub open spec fn found_files<S>(hits: Seq<(Map<Seq<char>, ValueModel>, S)>) -> Seq<
    (Seq<char>, S),
> {
    hits.filter_map(|hit: (Map<Seq<char>, ValueModel>, S)| found_file(hit))
}

/// Files waiting to be written, and the number above which they are
/// written.
pub struct FileVectorDbService {
    queue: Vec<FileModel>,
    batch_size: usize,
}

impl FileVectorDbService {
    /// The files added and not yet handed out, oldest first.
    pub closed spec fn pending(&self) -> Seq<FileModel> {
        self.queue@
    }

    /// The number of waiting files above which the queue is handed out.
    pub closed spec fn batch_size(&self) -> usize {
        self.batch_size
    }

    /// A service with nothing waiting.
    pub fn new(batch_size: usize) -> (service: Self)
        ensures
            service.pending() == Seq::<FileModel>::empty(),
            service.batch_size() == batch_size,
    {
        FileVectorDbService { queue: Vec::new(), batch_size }
    }

    /// Rebuilds files from what the store found in `collection`.
    ///
    /// A hit whose payload holds no file name is left out, silently; the
    /// others come back in the store's order with their scores, each as a
    /// file of `collection`. A failure of the store is reported.
    pub fn search<S>(found: Result<Vec<(Payload, S)>, String>, collection: &str) -> (results: Result<
        Vec<(FileModel, S)>,
        String,
    >)
        ensures
            match (found, results) {
                (Ok(hits), Ok(files)) => {
                    &&& files@.map_values(|file: (FileModel, S)| (file.0.name@, file.1))
                        == found_files(hits@.map_values(|hit: (Payload, S)| (hit.0@, hit.1)))
                    &&& forall|i: int|
                        0 <= i < files.len() ==> (#[trigger] files[i]).0.collection@ == collection@
                },
                (Err(why), Err(message)) => message@ == "Search error: "@ + why@,
                _ => false,
            },
    {
        match found {
            Err(why) => Err("Search error: ".to_owned().concat(why.as_str())),
            Ok(hits) => {
                let mut files: Vec<(FileModel, S)> = Vec::new();
                let ghost all = hits@;
                for hit in it: hits
                    invariant
                        it.seq() == all,
                        files@.map_values(|file: (FileModel, S)| (file.0.name@, file.1))
                            == found_files(
                            all.take(it.index() as int).map_values(
                                |hit: (Payload, S)| (hit.0@, hit.1),
                            ),
                        ),
                        forall|i: int|
                            0 <= i < files.len() ==> (#[trigger] files[i]).0.collection@
                                == collection@,
                {
                    let (payload, score) = hit;
                    proof {
                        let ghost seen = all.take(it.index() as int).map_values(
                            |hit: (Payload, S)| (hit.0@, hit.1),
                        );
                        assert(all.take(it.index() + 1).map_values(
                            |hit: (Payload, S)| (hit.0@, hit.1),
                        ) =~= seen.push((payload@, score)));
                        assert(seen.push((payload@, score)).drop_last() =~= seen);
                    }
                    match FileModel::from_qdrant_payload(&payload, collection.to_owned()) {
                        Ok(file) => {
                            assert(files@.push((file, score)).map_values(
                                |file: (FileModel, S)| (file.0.name@, file.1),
                            ) =~= files@.map_values(
                                |file: (FileModel, S)| (file.0.name@, file.1),
                            ) + seq![(file.name@, score)]);
                            files.push((file, score));
                        },
                        Err(_) => {},
                    }
                }
                assert(all.take(all.len() as int) =~= all);
                Ok(files)
            },
        }
    }

    /// Hands out everything that waits, if more than `batch_size` files
    /// wait.
    fn check_to_dispatch_queue(&mut self) -> (dispatch: Option<Vec<FileModel>>)
        ensures
            final(self).batch_size() == old(self).batch_size(),
            if old(self).pending().len() > old(self).batch_size() {
                &&& dispatch matches Some(batch)
                &&& batch@ == old(self).pending()
                &&& final(self).pending() == Seq::<FileModel>::empty()
            } else {
                &&& dispatch is None
                &&& final(self).pending() == old(self).pending()
            },
    {
        if self.queue.len() > self.batch_size {
            Some(extract_vec_from_lock(&mut self.queue))
        } else {
            None
        }
    }

    /// Adds files to the queue, taking them out of `files`.
    ///
    /// If more than `batch_size` files wait after that, all of them are
    /// handed out for writing, oldest first, and the queue is empty again.
    pub fn add_files(&mut self, files: &mut Vec<FileModel>) -> (dispatch: Option<Vec<FileModel>>)
        ensures
            final(files)@ == Seq::<FileModel>::empty(),
            final(self).batch_size() == old(self).batch_size(),
            if old(self).pending().len() + old(files)@.len() > old(self).batch_size() {
                &&& dispatch matches Some(batch)
                &&& batch@ == old(self).pending() + old(files)@
                &&& final(self).pending() == Seq::<FileModel>::empty()
            } else {
                &&& dispatch is None
                &&& final(self).pending() == old(self).pending() + old(files)@
            },
    {
        self.queue.append(files);
        self.check_to_dispatch_queue()
    }
}

} // verus!
