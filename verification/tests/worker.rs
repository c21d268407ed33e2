use vevtor::indexer_api::infrastructure::index_worker::{dispatch_queue, index_worker};
use vevtor::util::vec::{extract_vec_from_lock, zip};
use vevtor::IndexWorker;

#[test]
fn five_items_in_batches_of_three() {
    let dispatched = index_worker(3, vec!["A", "B", "C", "D", "E"]);
    assert_eq!(dispatched, vec![vec!["A", "B", "C"], vec!["D", "E"]]);
}

#[test]
fn a_full_last_batch_leaves_nothing_to_flush() {
    let dispatched = index_worker(2, vec![1, 2, 3, 4]);
    assert_eq!(dispatched, vec![vec![1, 2], vec![3, 4]]);
}

#[test]
fn batch_size_one_dispatches_every_item() {
    let dispatched = index_worker(1, vec![1, 2, 3]);
    assert_eq!(dispatched, vec![vec![1], vec![2], vec![3]]);
}

#[test]
fn batch_size_zero_dispatches_every_item() {
    let dispatched = index_worker(0, vec![1, 2, 3]);
    assert_eq!(dispatched, vec![vec![1], vec![2], vec![3]]);
}

#[test]
fn nothing_in_nothing_out() {
    let dispatched = index_worker(3, Vec::<u8>::new());
    assert!(dispatched.is_empty());
}

#[test]
fn fewer_items_than_a_batch_leave_at_the_end() {
    let dispatched = index_worker(32, (0..10).collect::<Vec<u32>>());
    assert_eq!(dispatched, vec![(0..10).collect::<Vec<u32>>()]);
}

#[test]
fn batches_put_together_are_the_stream() {
    for size in 0..8usize {
        for n in 0..30u32 {
            let items: Vec<u32> = (0..n).collect();
            let dispatched = index_worker(size, items.clone());
            let limit = size.max(1);
            for (b, batch) in dispatched.iter().enumerate() {
                assert!(!batch.is_empty());
                assert!(batch.len() <= limit);
                if b + 1 < dispatched.len() {
                    assert_eq!(batch.len(), limit);
                }
            }
            assert_eq!(dispatched.concat(), items);
        }
    }
}

#[test]
fn worker_dispatches_when_the_queue_reaches_the_batch_size() {
    let mut worker = IndexWorker::new(3);
    assert_eq!(worker.receive('a'), None);
    assert_eq!(worker.receive('b'), None);
    assert_eq!(worker.receive('c'), Some(vec!['a', 'b', 'c']));
    assert_eq!(worker.receive('d'), None);
    assert_eq!(worker.close(), Some(vec!['d']));
}

#[test]
fn worker_with_an_empty_queue_closes_without_a_batch() {
    let worker: IndexWorker<u8> = IndexWorker::new(3);
    assert_eq!(worker.close(), None);
    let mut worker = IndexWorker::new(2);
    assert_eq!(worker.receive(1), None);
    assert_eq!(worker.receive(2), Some(vec![1, 2]));
    assert_eq!(worker.close(), None);
}

#[test]
fn dispatch_takes_the_whole_queue() {
    let mut queue = vec![1, 2, 3];
    let taken = dispatch_queue(&mut queue);
    assert_eq!(taken, vec![1, 2, 3]);
    assert!(queue.is_empty());
    let again = dispatch_queue(&mut queue);
    assert!(again.is_empty());
}

#[test]
fn extract_leaves_the_guarded_vector_empty() {
    let mut shared = vec!["x".to_string(), "y".to_string()];
    let taken = extract_vec_from_lock(&mut shared);
    assert_eq!(taken, vec!["x".to_string(), "y".to_string()]);
    assert!(shared.is_empty());
}

#[test]
fn zip_pairs_place_by_place() {
    assert_eq!(
        zip(vec![1, 2, 3], vec!['a', 'b', 'c']),
        vec![(1, 'a'), (2, 'b'), (3, 'c')]
    );
    assert_eq!(zip(vec![1, 2, 3], vec!['a']), vec![(1, 'a')]);
    assert_eq!(zip(vec![1], vec!['a', 'b']), vec![(1, 'a')]);
    assert_eq!(zip(Vec::<u8>::new(), vec!['a']), vec![]);
}
