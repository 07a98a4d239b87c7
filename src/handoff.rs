use vstd::prelude::*;

verus! {

#[verifier::external_type_specification]
#[verifier::external_body]
#[verifier::reject_recursive_types(T)]
pub struct ExProducer<T>(rtrb::Producer<T>);

#[verifier::external_type_specification]
#[verifier::external_body]
#[verifier::reject_recursive_types(T)]
pub struct ExConsumer<T>(rtrb::Consumer<T>);

/// Relies on rtrb::RingBuffer::new: a bounded single-producer single-consumer
/// queue of `capacity` slots, handed out as its two ends.
#[verifier::external_body]
fn ring_buffer<T>(capacity: usize) -> (rtrb::Producer<T>, rtrb::Consumer<T>) {
    rtrb::RingBuffer::new(capacity)
}

/// Relies on rtrb::Producer::push: where the queue is full the value is not
/// stored and comes back in `PushError::Full`.
#[verifier::external_body]
fn try_push<T>(producer: &mut rtrb::Producer<T>, value: T) -> (r: Result<(), T>)
    ensures
        r matches Err(v) ==> v == value,
{
    match producer.push(value) {
        Ok(()) => Ok(()),
        Err(rtrb::PushError::Full(v)) => Err(v),
    }
}

/// Relies on rtrb::Consumer::pop: the oldest queued value, or `PopError::Empty`
/// without waiting.
#[verifier::external_body]
fn try_pop<T>(consumer: &mut rtrb::Consumer<T>) -> Option<T> {
    consumer.pop().ok()
}

/// A handoff channel of `capacity` slots: the producer end for one thread,
/// the consumer end for another.
pub fn channel<T>(capacity: usize) -> (rtrb::Producer<T>, rtrb::Consumer<T>)
    requires
        capacity * vstd::layout::size_of::<T>() <= isize::MAX,
{
    ring_buffer(capacity)
}

/// Offers a value without blocking; on a full channel the value is dropped
/// and `false` comes back.
pub fn offer<T>(producer: &mut rtrb::Producer<T>, value: T) -> (accepted: bool) {
    match try_push(producer, value) {
        Ok(()) => true,
        Err(_dropped) => false,
    }
}

/// The value to use this cycle: the one just received, else the last good one.
pub fn latest_or_cached<T>(received: Option<T>, cached: Option<T>) -> (r: Option<T>)
    ensures
        r == (if received is Some {
            received
        } else {
            cached
        }),
{
    match received {
        Some(v) => Some(v),
        None => cached,
    }
}

/// Polls the channel without blocking and falls back on `cached` where it is
/// empty; the flag tells whether a value was received.
pub fn poll_or_cached<T>(consumer: &mut rtrb::Consumer<T>, cached: Option<T>) -> (r: (
    Option<T>,
    bool,
))
    ensures
        r.1 ==> r.0 is Some,
        !r.1 ==> r.0 == cached,
{
    let received = try_pop(consumer);
    let fresh = received.is_some();
    (latest_or_cached(received, cached), fresh)
}

} // verus!
