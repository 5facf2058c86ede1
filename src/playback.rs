//! The bridge from the decode task to the output callback: a lock-free
//! single-producer single-consumer ring of samples.
//!
//! Samples travel through the ring as the bit patterns of 32-bit floats; the
//! output callback turns them back into floats. Neither side ever waits: a
//! sample that finds the ring full is dropped, and a callback that finds it
//! empty plays silence.

use crate::format::RING_CAPACITY;
use rtrb::{Consumer, Producer, RingBuffer};
use vstd::prelude::*;

verus! {

#[verifier::external_type_specification]
#[verifier::external_body]
#[verifier::reject_recursive_types(T)]
pub struct ExProducer<T>(Producer<T>);

#[verifier::external_type_specification]
#[verifier::external_body]
#[verifier::reject_recursive_types(T)]
pub struct ExConsumer<T>(Consumer<T>);

/// The sample played when the ring is empty: the bits of `+0.0`.
pub const SILENCE: u32 = 0;

/// The number of slots of the ring that `p` writes to.
pub uninterp spec fn producer_capacity(p: Producer<u32>) -> nat;

/// The number of slots of the ring that `c` reads from.
pub uninterp spec fn consumer_capacity(c: Consumer<u32>) -> nat;

/// Every sample stored in the ring through `p`, oldest first.
pub uninterp spec fn written_of(p: Producer<u32>) -> Seq<u32>;

/// Every sample offered to the ring through `p`, stored or not, oldest first.
pub uninterp spec fn offered_of(p: Producer<u32>) -> Seq<u32>;

/// Every sample taken from the ring through `c`, oldest first.
pub uninterp spec fn taken_of(c: Consumer<u32>) -> Seq<u32>;

/// What each attempt to take a sample through `c` yielded, oldest first:
/// the sample, or nothing when the ring was empty.
pub uninterp spec fn polled_of(c: Consumer<u32>) -> Seq<Option<u32>>;

/// The sample played for what one attempt to take a sample yielded.
pub open spec fn played(polled: Option<u32>) -> u32 {
    match polled {
        Some(s) => s,
        None => SILENCE,
    }
}

/// `kept` is `frame` with some of its samples left out, the others in order.
pub open spec fn is_subsequence(kept: Seq<u32>, frame: Seq<u32>) -> bool
    decreases frame.len(),
{
    if frame.len() == 0 {
        kept.len() == 0
    } else {
        ||| is_subsequence(kept, frame.drop_last())
        ||| (kept.len() > 0 && kept.last() == frame.last() && is_subsequence(
            kept.drop_last(),
            frame.drop_last(),
        ))
    }
}

/// Relies on `rtrb::RingBuffer::new`: the two halves of one new, empty ring
/// of `capacity` slots, which it allocates at once.
#[verifier::external_body]
fn ring_buffer(capacity: usize) -> (r: (Producer<u32>, Consumer<u32>))
    requires
        capacity * 4 <= isize::MAX,
    ensures
        producer_capacity(r.0) == capacity,
        consumer_capacity(r.1) == capacity,
        written_of(r.0) == Seq::<u32>::empty(),
        offered_of(r.0) == Seq::<u32>::empty(),
        taken_of(r.1) == Seq::<u32>::empty(),
        polled_of(r.1) == Seq::<Option<u32>>::empty(),
{
    RingBuffer::new(capacity)
}

/// Relies on `rtrb::Producer::push`: the sample is stored, or handed back
/// when the ring is full; the ring keeps its capacity.
#[verifier::external_body]
fn ring_push(producer: &mut Producer<u32>, sample: u32) -> (stored: bool)
    ensures
        producer_capacity(*final(producer)) == producer_capacity(*old(producer)),
        stored ==> written_of(*final(producer)) == written_of(*old(producer)).push(sample),
        !stored ==> written_of(*final(producer)) == written_of(*old(producer)),
        offered_of(*final(producer)) == offered_of(*old(producer)).push(sample),
{
    producer.push(sample).is_ok()
}

/// Relies on `rtrb::Consumer::pop`: the oldest stored sample, or nothing
/// when the ring is empty; the ring keeps its capacity.
#[verifier::external_body]
fn ring_pop(consumer: &mut Consumer<u32>) -> (r: Option<u32>)
    ensures
        consumer_capacity(*final(consumer)) == consumer_capacity(*old(consumer)),
        match r {
            Some(s) => taken_of(*final(consumer)) == taken_of(*old(consumer)).push(s),
            None => taken_of(*final(consumer)) == taken_of(*old(consumer)),
        },
        polled_of(*final(consumer)) == polled_of(*old(consumer)).push(r),
{
    consumer.pop().ok()
}

/// A new playback ring holding `RING_CAPACITY` samples (200 ms).
pub fn playback_ring() -> (r: (Producer<u32>, Consumer<u32>))
    ensures
        producer_capacity(r.0) == RING_CAPACITY,
        consumer_capacity(r.1) == RING_CAPACITY,
        written_of(r.0) == Seq::<u32>::empty(),
        offered_of(r.0) == Seq::<u32>::empty(),
        taken_of(r.1) == Seq::<u32>::empty(),
        polled_of(r.1) == Seq::<Option<u32>>::empty(),
{
    ring_buffer(RING_CAPACITY)
}

/// Offers every sample of a decoded frame to the ring, in order, without
/// waiting: a sample that finds the ring full is dropped. Returns how many
/// were stored; those are appended to what the ring was given, in frame
/// order.
pub fn push_frame(producer: &mut Producer<u32>, frame: &[u32]) -> (stored: usize)
    ensures
        stored <= frame@.len(),
        producer_capacity(*final(producer)) == producer_capacity(*old(producer)),
        offered_of(*final(producer)) == offered_of(*old(producer)) + frame@,
        exists|kept: Seq<u32>|
            {
                &&& kept.len() == stored
                &&& is_subsequence(kept, frame@)
                &&& #[trigger] written_of(*final(producer)) == written_of(*old(producer)) + kept
            },
{
    let mut stored: usize = 0;
    let mut i: usize = 0;
    let ghost mut kept: Seq<u32> = Seq::empty();
    assert(written_of(*producer) =~= written_of(*old(producer)) + kept);
    assert(offered_of(*producer) =~= offered_of(*old(producer)) + frame@.subrange(0, 0));
    while i < frame.len()
        invariant
            i <= frame@.len(),
            stored <= i,
            kept.len() == stored,
            is_subsequence(kept, frame@.subrange(0, i as int)),
            written_of(*producer) == written_of(*old(producer)) + kept,
            offered_of(*producer) == offered_of(*old(producer)) + frame@.subrange(0, i as int),
            producer_capacity(*producer) == producer_capacity(*old(producer)),
        decreases frame@.len() - i,
    {
        let ghost before = frame@.subrange(0, i as int);
        let ghost after = frame@.subrange(0, i as int + 1);
        assert(after.drop_last() =~= before);
        if ring_push(producer, frame[i]) {
            stored += 1;
            proof {
                let old_kept = kept;
                kept = kept.push(frame@[i as int]);
                assert(kept.drop_last() =~= old_kept);
                assert(written_of(*producer) =~= written_of(*old(producer)) + kept);
            }
        }
        assert(offered_of(*producer) =~= offered_of(*old(producer)) + after);
        i += 1;
    }
    assert(frame@.subrange(0, frame@.len() as int) =~= frame@);
    stored
}

/// The sample to play for one output slot, given what the ring yielded:
/// the sample, or silence when the ring was empty.
pub fn output_sample(popped: Option<u32>) -> (sample: u32)
    ensures
        sample == played(popped),
{
    match popped {
        Some(s) => s,
        None => SILENCE,
    }
}

/// Takes the sample for the next output slot from the ring, never waiting:
/// the oldest sample in the ring, now taken, or silence when it is empty.
pub fn next_output_sample(consumer: &mut Consumer<u32>) -> (sample: u32)
    ensures
        consumer_capacity(*final(consumer)) == consumer_capacity(*old(consumer)),
        polled_of(*final(consumer)).len() == polled_of(*old(consumer)).len() + 1,
        polled_of(*final(consumer)) == polled_of(*old(consumer)).push(
            polled_of(*final(consumer)).last(),
        ),
        sample == played(polled_of(*final(consumer)).last()),
        taken_of(*final(consumer)) == taken_of(*old(consumer)).push(sample) || (sample == SILENCE
            && taken_of(*final(consumer)) == taken_of(*old(consumer))),
{
    output_sample(ring_pop(consumer))
}

} // verus!
