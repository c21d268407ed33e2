//! Making sure of the collections of one batch.
//!
//! Before a batch is written, each of its collections has to exist. A run
//! holds the names still to be made sure of, each once. Names known to
//! exist are passed over without a remote call. At the first unknown name
//! the caller refreshes the manager's list from the store; if the name is
//! still unknown after that, the run hands it out for creation. A name
//! handed out leaves the run, so no name is created twice in one run.

use crate::indexer_api::grouping::{keys_in_order, lemma_keys_in_order_contains, lemma_keys_in_order_distinct};
use crate::indexer_api::infrastructure::db_manager::FileVectorDbManager;
use vstd::prelude::*;

verus! {

/// The names of a vector of names, as character sequences.
pub open spec fn names_of(names: Seq<String>) -> Seq<Seq<char>> {
    names.map_values(|name: String| name@)
}

/// What is left of `waiting` once the names in front that are known have
/// been passed over.
pub open spec fn pass_known(waiting: Seq<Seq<char>>, known: Seq<Seq<char>>) -> Seq<Seq<char>>
    decreases waiting.len(),
{
    if waiting.len() == 0 {
        waiting
    } else if known.contains(waiting.first()) {
        pass_known(waiting.drop_first(), known)
    } else {
        waiting
    }
}

/// Passing over known names takes names away and adds none: a name that
/// does not wait before does not wait after.
pub proof fn lemma_pass_known_adds_nothing(
    waiting: Seq<Seq<char>>,
    known: Seq<Seq<char>>,
    name: Seq<char>,
)
    requires
        !waiting.contains(name),
    ensures
        !pass_known(waiting, known).contains(name),
    decreases waiting.len(),
{
    if waiting.len() > 0 && known.contains(waiting.first()) {
        let rest = waiting.drop_first();
        assert forall|i: int| 0 <= i < rest.len() implies rest[i] != name by {
            assert(waiting[i + 1] != name);
        }
        lemma_pass_known_adds_nothing(rest, known, name);
    }
}

/// What a run asks of the caller.
#[derive(Clone, Copy, Debug, PartialEq, Eq, Structural)]
pub enum EnsureRequest {
    /// Every collection of the batch has been made sure of.
    Done,
    /// The next collection is not known: ask the store for its collections,
    /// hand the list to the manager's `refresh_known_collections`, then
    /// call `refreshed`.
    Refresh,
}

/// The collections of one batch that are still to be made sure of.
pub struct EnsureRun {
    waiting: Vec<String>,
}

/// Whether `name` is among `names`.
fn contains_name(names: &Vec<String>, name: &String) -> (found: bool)
    ensures
        found == names_of(names@).contains(name@),
{
    let mut i: usize = 0;
    while i < names.len()
        invariant
            i <= names.len(),
            forall|j: int| 0 <= j < i ==> names_of(names@)[j] != name@,
        decreases names.len() - i,
    {
        if names[i] == *name {
            assert(names_of(names@)[i as int] == name@);
            return true;
        }
        i = i + 1;
    }
    false
}

impl EnsureRun {
    /// No name waits twice.
    #[verifier::type_invariant]
    spec fn waits_once(self) -> bool {
        names_of(self.waiting@).no_duplicates()
    }

    /// The names still to be made sure of, next first.
    pub closed spec fn remaining(&self) -> Seq<Seq<char>> {
        names_of(self.waiting@)
    }

    /// A run over the collections named in `names`: each distinct name
    /// once, in the order of first occurrence.
    pub fn new(names: Vec<String>) -> (run: Self)
        ensures
            run.remaining() == keys_in_order(names_of(names@)),
            run.remaining().no_duplicates(),
    {
        let mut waiting: Vec<String> = Vec::new();
        let ghost all = names@;
        for name in it: names
            invariant
                it.seq() == all,
                names_of(waiting@) == keys_in_order(names_of(all.take(it.index() as int))),
        {
            proof {
                let ghost seen = names_of(all.take(it.index() as int));
                assert(names_of(all.take(it.index() + 1)) =~= seen.push(name@));
                assert(seen.push(name@).drop_last() =~= seen);
            }
            if !contains_name(&waiting, &name) {
                assert(names_of(waiting@.push(name)) =~= names_of(waiting@).push(name@));
                waiting.push(name);
            }
        }
        proof {
            assert(all.take(all.len() as int) =~= all);
            lemma_keys_in_order_distinct(names_of(all));
        }
        EnsureRun { waiting }
    }

    /// A run over the collections of a write plan.
    pub fn for_batches<P>(plan: &Vec<(String, P)>) -> (run: Self)
        ensures
            run.remaining() == keys_in_order(plan@.map_values(|batch: (String, P)| batch.0@)),
            run.remaining().no_duplicates(),
    {
        let mut names: Vec<String> = Vec::new();
        let mut i: usize = 0;
        while i < plan.len()
            invariant
                i <= plan.len(),
                names_of(names@) == plan@.take(i as int).map_values(|batch: (String, P)| batch.0@),
            decreases plan.len() - i,
        {
            let name = plan[i].0.clone();
            proof {
                assert(names_of(names@.push(name)) =~= names_of(names@).push(name@));
                assert(plan@.take(i + 1).map_values(|batch: (String, P)| batch.0@) =~= plan@.take(
                    i as int,
                ).map_values(|batch: (String, P)| batch.0@).push(plan[i as int].0@));
            }
            names.push(name);
            i = i + 1;
        }
        assert(plan@.take(plan.len() as int) =~= plan@);
        Self::new(names)
    }

    /// Passes over the collections that are known to exist and says what
    /// the first unknown one needs.
    pub fn next(&mut self, manager: &FileVectorDbManager) -> (request: EnsureRequest)
        ensures
            final(self).remaining() == pass_known(old(self).remaining(), manager.known()),
            final(self).remaining().no_duplicates(),
            request == if final(self).remaining().len() == 0 {
                EnsureRequest::Done
            } else {
                EnsureRequest::Refresh
            },
    {
        proof {
            use_type_invariant(&*self);
        }
        let ghost before = self.remaining();
        let mut waiting: Vec<String> = Vec::new();
        std::mem::swap(&mut self.waiting, &mut waiting);
        while waiting.len() > 0 && manager.knows(waiting[0].as_str())
            invariant
                names_of(waiting@).no_duplicates(),
                pass_known(names_of(waiting@), manager.known()) == pass_known(
                    before,
                    manager.known(),
                ),
            decreases waiting.len(),
        {
            proof {
                assert(names_of(waiting@).first() == waiting[0]@);
                assert(names_of(waiting@.remove(0)) =~= names_of(waiting@).drop_first());
            }
            let _ = waiting.remove(0);
        }
        proof {
            if waiting.len() > 0 {
                assert(names_of(waiting@).first() == waiting[0]@);
            }
        }
        let request = if waiting.len() == 0 {
            EnsureRequest::Done
        } else {
            EnsureRequest::Refresh
        };
        self.waiting = waiting;
        request
    }

    /// Settles the next collection after the manager's list has been
    /// refreshed from the store.
    ///
    /// The next name leaves the run. If the store does not list it, it is
    /// handed out for creation together with the vector length to create
    /// it with; since it has left the run, it is not handed out again.
    pub fn refreshed(&mut self, manager: &FileVectorDbManager) -> (create: Option<(String, u64)>)
        ensures
            final(self).remaining() == if old(self).remaining().len() == 0 {
                old(self).remaining()
            } else {
                old(self).remaining().drop_first()
            },
            final(self).remaining().no_duplicates(),
            match create {
                Some((name, vector_dim)) => {
                    &&& old(self).remaining().len() > 0
                    &&& name@ == old(self).remaining().first()
                    &&& !manager.known().contains(name@)
                    &&& vector_dim == manager.vector_dim()
                    &&& !final(self).remaining().contains(name@)
                },
                None => old(self).remaining().len() > 0 ==> manager.known().contains(
                    old(self).remaining().first(),
                ),
            },
    {
        proof {
            use_type_invariant(&*self);
        }
        let mut waiting: Vec<String> = Vec::new();
        std::mem::swap(&mut self.waiting, &mut waiting);
        if waiting.len() == 0 {
            self.waiting = waiting;
            return None;
        }
        let ghost before = names_of(waiting@);
        let name = waiting.remove(0);
        proof {
            assert(names_of(waiting@) =~= before.drop_first());
            assert(before.first() == name@);
            assert forall|i: int| 0 <= i < before.drop_first().len() implies before.drop_first()[i]
                != name@ by {
                assert(before[i + 1] != before[0]);
            }
        }
        let known = manager.knows(name.as_str());
        let vector_dim = manager.dim();
        self.waiting = waiting;
        if known {
            None
        } else {
            Some((name, vector_dim))
        }
    }
}

} // verus!
