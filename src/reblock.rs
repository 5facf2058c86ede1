//! Reblocking of variable-sized capture buffers into fixed frames.

use crate::format::SAMPLES_PER_FRAME;
use vstd::prelude::*;

verus! {

/// The part of `stream` that frame number `k` holds.
pub open spec fn frame_of<T>(stream: Seq<T>, k: int) -> Seq<T> {
    stream.subrange(k * SAMPLES_PER_FRAME, (k + 1) * SAMPLES_PER_FRAME)
}

/// Accumulates interleaved samples as the OS hands them over and cuts them
/// into frames of exactly `SAMPLES_PER_FRAME` samples, in order.
pub struct Reblocker<T> {
    pending: Vec<T>,
}

impl<T> View for Reblocker<T> {
    type V = Seq<T>;

    /// The samples received so far that do not fill a frame yet.
    closed spec fn view(&self) -> Seq<T> {
        self.pending@
    }
}

impl<T> Reblocker<T> {
    #[verifier::type_invariant]
    spec fn holds_less_than_a_frame(self) -> bool {
        self.pending.len() < SAMPLES_PER_FRAME
    }
}

impl<T: Copy> Reblocker<T> {
    /// A reblocker that holds no samples.
    pub fn new() -> (r: Self)
        ensures
            r@ == Seq::<T>::empty(),
    {
        Reblocker { pending: Vec::new() }
    }

    /// Number of samples waiting for the next frame.
    pub fn pending_len(&self) -> (n: usize)
        ensures
            n == self@.len(),
            n < SAMPLES_PER_FRAME,
    {
        proof {
            use_type_invariant(self);
        }
        self.pending.len()
    }

    /// Appends `samples` and returns every frame that is now complete.
    ///
    /// The frames are consecutive slices of the pending samples followed by
    /// `samples`; what is left over, less than one frame, stays pending.
    pub fn push(&mut self, samples: &[T]) -> (frames: Vec<Vec<T>>)
        ensures
            frames.len() == (old(self)@.len() + samples@.len()) as int / (SAMPLES_PER_FRAME as int),
            forall|k: int| 0 <= k < frames.len() ==> #[trigger] frames[k]@.len() == SAMPLES_PER_FRAME,
            forall|k: int|
                0 <= k < frames.len() ==> #[trigger] frames[k]@ == frame_of(
                    old(self)@ + samples@,
                    k,
                ),
            final(self)@ == (old(self)@ + samples@).subrange(
                frames.len() * SAMPLES_PER_FRAME,
                (old(self)@.len() + samples@.len()) as int,
            ),
            final(self)@.len() < SAMPLES_PER_FRAME,
    {
        proof {
            use_type_invariant(&*self);
        }
        let mut current: Vec<T> = Vec::new();
        std::mem::swap(&mut current, &mut self.pending);
        let ghost stream = current@ + samples@;
        let ghost start = current@.len();
        let mut frames: Vec<Vec<T>> = Vec::new();
        let mut i: usize = 0;
        while i < samples.len()
            invariant
                stream.len() == start + samples@.len(),
                forall|j: int| 0 <= j < samples@.len() ==> stream[start + j] == samples@[j],
                i <= samples@.len(),
                current.len() < SAMPLES_PER_FRAME,
                frames.len() * SAMPLES_PER_FRAME + current.len() == start + i,
                current@ == stream.subrange(frames.len() * SAMPLES_PER_FRAME, start + i),
                forall|k: int|
                    0 <= k < frames.len() ==> #[trigger] frames[k]@ == frame_of(stream, k),
            decreases samples@.len() - i,
        {
            let ghost base = frames.len() * SAMPLES_PER_FRAME;
            assert((frames.len() + 1) * SAMPLES_PER_FRAME == frames.len() * SAMPLES_PER_FRAME
                + SAMPLES_PER_FRAME) by (nonlinear_arith);
            current.push(samples[i]);
            assert(current@ =~= stream.subrange(base, start + i + 1)) by {
                assert(stream[start + i] == samples@[i as int]);
            }
            if current.len() == SAMPLES_PER_FRAME {
                let mut full: Vec<T> = Vec::new();
                std::mem::swap(&mut full, &mut current);
                frames.push(full);
                assert(current@ =~= stream.subrange(base + SAMPLES_PER_FRAME, start + i + 1));
            }
            i += 1;
        }
        self.pending = current;
        frames
    }
}

} // verus!
