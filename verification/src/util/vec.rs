//! Moving the contents of vectors.

use vstd::prelude::*;

verus! {

/// The pairs of two sequences, place by place, as far as both reach.
pub open spec fn zipped<A, B>(left: Seq<A>, right: Seq<B>) -> Seq<(A, B)> {
    Seq::new(
        if left.len() <= right.len() {
            left.len()
        } else {
            right.len()
        },
        |i: int| (left[i], right[i]),
    )
}

/// Pairs two vectors place by place; what the longer one has beyond the
/// shorter is dropped.
pub fn zip<A, B>(left: Vec<A>, right: Vec<B>) -> (pairs: Vec<(A, B)>)
    ensures
        pairs@ == zipped(left@, right@),
{
    let ghost want = zipped(left@, right@);
    let mut left = left;
    let mut right = right;
    let n: usize = if left.len() <= right.len() {
        left.len()
    } else {
        right.len()
    };
    left.truncate(n);
    right.truncate(n);
    let mut backwards: Vec<(A, B)> = Vec::new();
    while left.len() > 0
        invariant
            left.len() == right.len(),
            left.len() + backwards.len() == n,
            want.len() == n,
            forall|i: int| 0 <= i < left.len() ==> want[i] == (left[i], right[i]),
            forall|j: int| 0 <= j < backwards.len() ==> backwards[j] == want[n - 1 - j],
        decreases left.len(),
    {
        let a = left.pop().unwrap();
        let b = right.pop().unwrap();
        backwards.push((a, b));
    }
    let mut pairs: Vec<(A, B)> = Vec::new();
    while backwards.len() > 0
        invariant
            backwards.len() + pairs.len() == n,
            want.len() == n,
            forall|j: int| 0 <= j < backwards.len() ==> backwards[j] == want[n - 1 - j],
            forall|i: int| 0 <= i < pairs.len() ==> pairs[i] == want[i],
        decreases backwards.len(),
    {
        let pair = backwards.pop().unwrap();
        pairs.push(pair);
    }
    assert(pairs@ =~= want);
    pairs
}

/// Takes everything out of the vector that a lock guards and leaves it
/// empty, so that the lock is held for the swap alone.
pub fn extract_vec_from_lock<T>(queue: &mut Vec<T>) -> (taken: Vec<T>)
    ensures
        taken@ == old(queue)@,
        final(queue)@ == Seq::<T>::empty(),
{
    let mut taken: Vec<T> = Vec::new();
    taken.append(queue);
    taken
}

} // verus!
