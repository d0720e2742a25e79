//! The bounded admission queue between the trigger and the scheduler:
//! crossbeam's lock-free `ArrayQueue`, shared by reference between threads.
//!
//! Other threads may push and pop at any moment, so the contracts here say
//! only what holds of every outcome.

use crate::animation::Admission;
use crossbeam::queue::ArrayQueue;
use vstd::prelude::*;

verus! {

#[verifier::external_type_specification]
#[verifier::external_body]
#[verifier::reject_recursive_types(T)]
pub struct ExArrayQueue<T>(ArrayQueue<T>);

/// The capacity that a queue was made with.
pub uninterp spec fn queue_capacity(q: ArrayQueue<Admission>) -> nat;

/// Largest capacity accepted. `ArrayQueue::new` panics when the next power of
/// two above the capacity does not fit in its index type, or when the buffer
/// of slots (a stamp and a request, 32 bytes each) would exceed `isize::MAX`
/// bytes; this bound rules out both.
pub const MAX_CAPACITY: usize = usize::MAX / 64;

/// Relies on `ArrayQueue::new`: an empty queue that holds at most `cap`
/// items; it panics on a capacity of zero or one too large (see `MAX_CAPACITY`).
#[verifier::external_body]
pub(crate) fn array_queue_new(cap: usize) -> (r: ArrayQueue<Admission>)
    requires
        0 < cap <= MAX_CAPACITY,
    ensures
        queue_capacity(r) == cap,
{
    ArrayQueue::new(cap)
}

/// Relies on `ArrayQueue::capacity`: the capacity the queue was made with.
#[verifier::external_body]
pub(crate) fn array_queue_capacity(q: &ArrayQueue<Admission>) -> (r: usize)
    ensures
        r == queue_capacity(*q),
{
    q.capacity()
}

/// Relies on `ArrayQueue::push`: never blocks; when the queue is full the
/// item comes back unchanged in `Err`.
#[verifier::external_body]
pub(crate) fn array_queue_push(q: &ArrayQueue<Admission>, a: Admission) -> (r: Result<(), Admission>)
    ensures
        r matches Err(b) ==> b == a,
{
    q.push(a)
}

/// Relies on `ArrayQueue::pop`: never blocks; `None` when the queue is empty.
#[verifier::external_body]
pub(crate) fn array_queue_pop(q: &ArrayQueue<Admission>) -> (r: Option<Admission>) {
    q.pop()
}

/// Relies on `ArrayQueue::is_empty`: whether the queue held no item when looked at.
#[verifier::external_body]
pub(crate) fn array_queue_is_empty(q: &ArrayQueue<Admission>) -> (r: bool) {
    q.is_empty()
}

/// A new admission queue with room for `capacity` requests.
pub fn new_queue(capacity: usize) -> (r: ArrayQueue<Admission>)
    requires
        0 < capacity <= MAX_CAPACITY,
    ensures
        queue_capacity(r) == capacity,
{
    array_queue_new(capacity)
}

/// The number of requests the queue can hold.
pub fn capacity(q: &ArrayQueue<Admission>) -> (r: usize)
    ensures
        r == queue_capacity(*q),
{
    array_queue_capacity(q)
}

/// Whether the queue held no request when looked at.
pub fn is_empty(q: &ArrayQueue<Admission>) -> (r: bool) {
    array_queue_is_empty(q)
}

} // verus!
