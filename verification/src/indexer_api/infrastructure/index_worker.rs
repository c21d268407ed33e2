//! The batch worker: items come in one by one and leave in batches.
//!
//! The worker owns a queue. Every item received is appended; as soon as the
//! queue holds `batch_size` items it is handed out whole and the worker
//! starts again with an empty queue. When no more items can come, what is
//! left is handed out as a last, shorter batch.

use crate::util::vec::extract_vec_from_lock;
use vstd::prelude::*;

verus! {

/// The number of items at which a queue is handed out. A batch size of
/// zero behaves as a batch size of one: every item leaves at once.
pub open spec fn batch_len(batch_size: usize) -> int {
    if batch_size < 1 {
        1
    } else {
        batch_size as int
    }
}

/// The batches in which `items` leave a worker of the given batch size:
/// full batches from the front, and what is left as a last batch.
pub open spec fn batches<T>(items: Seq<T>, batch_size: usize) -> Seq<Seq<T>>
    decreases items.len(),
{
    if items.len() == 0 {
        Seq::empty()
    } else if items.len() <= batch_len(batch_size) {
        seq![items]
    } else {
        seq![items.take(batch_len(batch_size))] + batches(
            items.skip(batch_len(batch_size)),
            batch_size,
        )
    }
}

/// The batches of a vector, each as a sequence.
pub open spec fn batches_view<T>(batches: Seq<Vec<T>>) -> Seq<Seq<T>> {
    batches.map_values(|batch: Vec<T>| batch@)
}

/// A full batch in front of more items is the first batch of the whole.
proof fn lemma_batches_after_full<T>(full: Seq<T>, rest: Seq<T>, batch_size: usize)
    requires
        full.len() == batch_len(batch_size),
    ensures
        batches(full + rest, batch_size) == seq![full] + batches(rest, batch_size),
{
    let whole = full + rest;
    if rest.len() == 0 {
        assert(whole =~= full);
        assert(batches(rest, batch_size) =~= Seq::<Seq<T>>::empty());
        assert(batches(whole, batch_size) =~= seq![full] + batches(rest, batch_size));
    } else {
        assert(whole.take(batch_len(batch_size)) =~= full);
        assert(whole.skip(batch_len(batch_size)) =~= rest);
    }
}

/// The batches of a stream are the stream, cut: put together again they
/// give the items as they came, none lost, none twice, none out of place.
/// No batch is empty, none is longer than the batch size, and only the last
/// may be shorter.
pub proof fn lemma_batches_partition<T>(items: Seq<T>, batch_size: usize)
    ensures
        batches(items, batch_size).flatten() == items,
        forall|b: int|
            0 <= b < batches(items, batch_size).len() ==> 0 < (#[trigger] batches(
                items,
                batch_size,
            )[b]).len() <= batch_len(batch_size),
        forall|b: int|
            0 <= b < batches(items, batch_size).len() - 1 ==> (#[trigger] batches(
                items,
                batch_size,
            )[b]).len() == batch_len(batch_size),
    decreases items.len(),
{
    let step = batch_len(batch_size);
    let all = batches(items, batch_size);
    if items.len() == 0 {
    } else if items.len() <= step {
        assert(all.first() == items);
        assert(all.drop_first() =~= Seq::<Seq<T>>::empty());
        assert(all.drop_first().flatten() =~= Seq::<T>::empty());
        assert(all.flatten() =~= items);
    } else {
        let rest = batches(items.skip(step), batch_size);
        lemma_batches_partition(items.skip(step), batch_size);
        assert(all.first() == items.take(step));
        assert(all.drop_first() =~= rest);
        assert(all.flatten() =~= items.take(step) + items.skip(step));
        assert(items.take(step) + items.skip(step) =~= items);
        assert(rest.len() > 0);
        assert forall|b: int| 0 <= b < all.len() implies 0 < (#[trigger] all[b]).len() <= step by {
            if b > 0 {
                assert(all[b] == rest[b - 1]);
            }
        }
        assert forall|b: int| 0 <= b < all.len() - 1 implies (#[trigger] all[b]).len() == step by {
            if b > 0 {
                assert(all[b] == rest[b - 1]);
            }
        }
    }
}

/// Hands out the whole queue and leaves it empty.
pub fn dispatch_queue<T>(queue: &mut Vec<T>) -> (dispatch: Vec<T>)
    ensures
        dispatch@ == old(queue)@,
        final(queue)@ == Seq::<T>::empty(),
{
    extract_vec_from_lock(queue)
}

/// A worker between two items: its queue and its batch size.
pub struct IndexWorker<T> {
    queue: Vec<T>,
    batch_size: usize,
}

impl<T> IndexWorker<T> {
    /// A queue below the batch size is the only one a worker ever keeps.
    #[verifier::type_invariant]
    spec fn queue_is_short(self) -> bool {
        self.queue@.len() < batch_len(self.batch_size)
    }

    /// The items received and not yet handed out, oldest first.
    pub closed spec fn pending(&self) -> Seq<T> {
        self.queue@
    }

    /// The batch size that the worker was started with.
    pub closed spec fn batch_size(&self) -> usize {
        self.batch_size
    }

    /// A worker with an empty queue.
    pub fn new(batch_size: usize) -> (worker: Self)
        ensures
            worker.pending() == Seq::<T>::empty(),
            worker.batch_size() == batch_size,
    {
        IndexWorker { queue: Vec::new(), batch_size }
    }

    /// Receives one item.
    ///
    /// The item joins the queue. If the queue has thereby reached the batch
    /// size, the whole queue is handed out for writing and the worker goes
    /// on with an empty one; else nothing is handed out.
    pub fn receive(&mut self, item: T) -> (dispatch: Option<Vec<T>>)
        ensures
            final(self).batch_size() == old(self).batch_size(),
            final(self).pending().len() < batch_len(final(self).batch_size()),
            if old(self).pending().len() + 1 >= batch_len(old(self).batch_size()) {
                &&& final(self).pending() == Seq::<T>::empty()
                &&& dispatch matches Some(batch)
                &&& batch@ == old(self).pending().push(item)
            } else {
                &&& final(self).pending() == old(self).pending().push(item)
                &&& dispatch is None
            },
    {
        proof {
            use_type_invariant(&*self);
        }
        let mut queue: Vec<T> = Vec::new();
        std::mem::swap(&mut self.queue, &mut queue);
        queue.push(item);
        if queue.len() >= self.batch_size {
            Some(queue)
        } else {
            self.queue = queue;
            None
        }
    }

    /// Ends the worker when no more items can come: what is left in the
    /// queue is handed out as a last batch, if anything is left.
    pub fn close(self) -> (dispatch: Option<Vec<T>>)
        ensures
            if self.pending().len() > 0 {
                dispatch matches Some(batch) && batch@ == self.pending()
            } else {
                dispatch is None
            },
    {
        let mut worker = self;
        let mut queue: Vec<T> = Vec::new();
        std::mem::swap(&mut worker.queue, &mut queue);
        if queue.len() > 0 {
            Some(queue)
        } else {
            None
        }
    }
}

/// Runs a worker over a whole stream: every item of `items` is received in
/// order, then the stream ends. Returns the batches handed out, in order.
pub fn index_worker<T>(batch_size: usize, items: Vec<T>) -> (dispatched: Vec<Vec<T>>)
    ensures
        batches_view(dispatched@) == batches(items@, batch_size),
{
    let mut worker: IndexWorker<T> = IndexWorker::new(batch_size);
    let mut dispatched: Vec<Vec<T>> = Vec::new();
    let ghost all = items@;
    let ghost start: int = 0;
    proof {
        assert(all.skip(0) =~= all);
        assert(batches_view(dispatched@) + batches(all, batch_size) =~= batches(all, batch_size));
    }
    for item in it: items
        invariant
            it.seq() == all,
            worker.batch_size() == batch_size,
            0 <= start <= it.index(),
            worker.pending() == all.subrange(start, it.index() as int),
            worker.pending().len() < batch_len(batch_size),
            batches_view(dispatched@) + batches(all.skip(start), batch_size) == batches(
                all,
                batch_size,
            ),
    {
        let ghost queued = worker.pending().push(item);
        proof {
            assert(queued =~= all.subrange(start, it.index() + 1));
        }
        match worker.receive(item) {
            Some(batch) => {
                proof {
                    assert(all.skip(start) =~= batch@ + all.skip(it.index() + 1));
                    lemma_batches_after_full(batch@, all.skip(it.index() + 1), batch_size);
                    assert(batches_view(dispatched@.push(batch)) =~= batches_view(dispatched@)
                        + seq![batch@]);
                    start = it.index() + 1;
                    assert(all.subrange(start, it.index() + 1) =~= Seq::<T>::empty());
                }
                dispatched.push(batch);
            },
            None => {},
        }
    }
    let ghost rest = worker.pending();
    proof {
        assert(rest =~= all.skip(start));
    }
    match worker.close() {
        Some(batch) => {
            proof {
                assert(batches(rest, batch_size) =~= seq![rest]);
                assert(batches_view(dispatched@.push(batch)) =~= batches_view(dispatched@)
                    + seq![batch@]);
            }
            dispatched.push(batch);
        },
        None => {
            assert(batches_view(dispatched@) + Seq::<Seq<T>>::empty() =~= batches_view(
                dispatched@,
            ));
        },
    }
    dispatched
}

} // verus!
