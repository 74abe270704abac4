//! A queue of numbered items ordered by a count, kept in a
//! `DoublePriorityQueue`.
//!
//! Verus does not look inside a `DoublePriorityQueue`. What it holds is
//! named by `queue_entries`, and each method that the library calls is given
//! a contract over that name.

use vstd::prelude::*;
use priority_queue::DoublePriorityQueue;

verus! {

/// Makes `DoublePriorityQueue` known to the verifier, as a type it cannot
/// look into.
#[verifier::external_type_specification]
#[verifier::external_body]
#[verifier::reject_recursive_types(I)]
#[verifier::reject_recursive_types(P)]
#[verifier::reject_recursive_types(H)]
pub struct ExDoublePriorityQueue<I, P, H>(DoublePriorityQueue<I, P, H>);

/// A queue of items that are numbers, each with a count as its priority.
pub type CountQueue = DoublePriorityQueue<usize, usize>;

/// The priority of each item in `q`.
pub uninterp spec fn queue_entries(q: CountQueue) -> Map<usize, usize>;

/// An empty queue.
///
/// Trusted: `DoublePriorityQueue::new` builds a queue without items.
#[verifier::external_body]
pub(crate) fn queue_new() -> (q: CountQueue)
    ensures
        (queue_entries(q) == Map::<usize, usize>::empty()),
{
    DoublePriorityQueue::new()
}

/// Puts `item` into the queue with `priority`, or changes its priority if it
/// is there already; returns the priority it had.
///
/// Trusted: `DoublePriorityQueue::push` is documented to insert the pair,
/// and for an item already in the queue to update its priority and return
/// the old one.
#[verifier::external_body]
pub(crate) fn queue_push(q: &mut CountQueue, item: usize, priority: usize) -> (before: Option<usize>)
    ensures
        queue_entries(*final(q)) == queue_entries(*old(q)).insert(item, priority),
        before == if queue_entries(*old(q)).contains_key(item) {
            Some(queue_entries(*old(q))[item])
        } else {
            None
        },
{
    q.push(item, priority)
}

/// Takes an item of lowest priority out of the queue.
///
/// Trusted: `DoublePriorityQueue::pop_min` is documented to remove the item
/// with the lowest priority and return it with its priority, or `None` if
/// the queue is empty. Which of several items of the same lowest priority
/// leaves is not stated here.
#[verifier::external_body]
pub(crate) fn queue_pop_min(q: &mut CountQueue) -> (least: Option<(usize, usize)>)
    ensures
        match least {
            Some((item, priority)) => {
                &&& queue_entries(*old(q)).contains_key(item)
                &&& queue_entries(*old(q))[item] == priority
                &&& forall|other: usize|
                    queue_entries(*old(q)).contains_key(other) ==> priority <= #[trigger] queue_entries(
                        *old(q),
                    )[other]
                &&& queue_entries(*final(q)) == queue_entries(*old(q)).remove(item)
            },
            None => {
                &&& queue_entries(*old(q)).dom() == Set::<usize>::empty()
                &&& queue_entries(*final(q)) == queue_entries(*old(q))
            },
        },
{
    q.pop_min()
}

/// The number of items in the queue.
///
/// Trusted: `DoublePriorityQueue::len` returns the number of items.
#[verifier::external_body]
pub(crate) fn queue_len(q: &CountQueue) -> (n: usize)
    ensures
        n == queue_entries(*q).dom().len(),
{
    q.len()
}

} // verus!
