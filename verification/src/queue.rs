//! The bounded multi-producer multi-consumer queue of `crossbeam_queue`,
//! shared between the code that fills it and the code that drains it.
//!
//! A queue that is shared can be pushed to or popped from by any holder at
//! any moment, so nothing is claimed about what a pop returns or whether the
//! queue is empty; a failed push hands the value back.
use vstd::prelude::*;
use crossbeam_queue::ArrayQueue;

verus! {

#[verifier::external_type_specification]
#[verifier::external_body]
#[verifier::reject_recursive_types(T)]
pub struct ExArrayQueue<T>(ArrayQueue<T>);

/// The number of values that a queue of task ids was made to hold; a queue
/// keeps the capacity it was made with (`ArrayQueue::capacity`).
pub uninterp spec fn queue_capacity(queue: ArrayQueue<u64>) -> nat;

/// An empty queue of task ids that holds at most `cap` of them. Calls
/// `ArrayQueue::new`, which panics on a capacity of zero or one whose next
/// power of two overflows, and keeps `cap` as the capacity of the queue.
#[verifier::external_body]
pub(crate) fn queue_new(cap: usize) -> (r: ArrayQueue<u64>)
    requires
        0 < cap <= 0x1_0000_0000,
    ensures
        queue_capacity(r) == cap,
{
    ArrayQueue::new(cap)
}

/// Calls `ArrayQueue::push`: either the value is queued, or the queue is full
/// and the value comes back unchanged.
#[verifier::external_body]
pub(crate) fn queue_push<T>(queue: &ArrayQueue<T>, value: T) -> (r: Result<(), T>)
    ensures
        r matches Err(v) ==> v == value,
{
    queue.push(value)
}

/// Calls `ArrayQueue::pop`: the oldest queued value, or `None` when the queue
/// is empty at that moment.
#[verifier::external_body]
pub(crate) fn queue_pop<T>(queue: &ArrayQueue<T>) -> Option<T> {
    queue.pop()
}

/// Calls `ArrayQueue::is_empty`: whether the queue was empty at that moment.
#[verifier::external_body]
pub(crate) fn queue_is_empty<T>(queue: &ArrayQueue<T>) -> bool {
    queue.is_empty()
}

} // verus!
