use heapless::spsc::{Consumer, Producer};
use vstd::prelude::*;

verus! {

/// `heapless::spsc::Consumer`, the receiving end of a single-producer
/// single-consumer ring buffer shared with another thread.
#[verifier::external_type_specification]
#[verifier::external_body]
#[verifier::reject_recursive_types(T)]
pub struct ExConsumer<'a, T>(Consumer<'a, T>);

/// `heapless::spsc::Producer`, the sending end of such a ring buffer.
#[verifier::external_type_specification]
#[verifier::external_body]
#[verifier::reject_recursive_types(T)]
pub struct ExProducer<'a, T>(Producer<'a, T>);

/// `Consumer::dequeue`: the oldest item of the queue, or `None` when it is
/// empty. The queue is filled by another thread at the same time, so
/// nothing is stated of what comes out.
#[verifier::external_body]
pub(crate) fn queue_dequeue<T>(c: &mut Consumer<'_, T>) -> (r: Option<T>) {
    c.dequeue()
}

/// `Producer::enqueue`: appends `item`, or hands it back unchanged when the
/// queue is full. Whether it is full depends on the consuming thread, so
/// only what comes back on failure is stated.
#[verifier::external_body]
pub(crate) fn queue_enqueue<T>(p: &mut Producer<'_, T>, item: T) -> (r: Result<(), T>)
    ensures
        r matches Err(back) ==> back == item,
{
    p.enqueue(item)
}

} // verus!
