//! The playback ring buffer: a capacity-bounded FIFO of Q15 mono samples
//! sitting between decode/resample work and the real-time output callback.
//! When a refill would push it past its capacity, the oldest samples are
//! dropped first, so buffered latency stays bounded.

use vstd::prelude::*;
use std::collections::VecDeque;

verus! {

/// What a bounded FIFO holds after appending `samples` to `contents` under
/// capacity `cap`: the whole appended sequence if it fits, else its last
/// `cap` elements (the oldest are dropped first).
pub open spec fn bounded_append<T>(contents: Seq<T>, samples: Seq<T>, cap: nat) -> Seq<T> {
    let all = contents + samples;
    if all.len() <= cap {
        all
    } else {
        all.skip(all.len() - cap)
    }
}

/// The bounded-append policy in one statement: the buffer never exceeds
/// its capacity, and what it retains is exactly the newest part of the
/// appended whole, in order — the oldest elements are the ones dropped.
pub proof fn lemma_bounded_append_keeps_newest<T>(contents: Seq<T>, samples: Seq<T>, cap: nat)
    ensures
        bounded_append(contents, samples, cap).len() <= cap,
        bounded_append(contents, samples, cap).len() == vstd::math::min(
            (contents.len() + samples.len()) as int,
            cap as int,
        ),
        forall|k: int| 0 <= k < bounded_append(contents, samples, cap).len()
            ==> bounded_append(contents, samples, cap)[k] == (contents + samples)[
                contents.len() + samples.len() - bounded_append(contents, samples, cap).len() + k
            ],
{
    let all = contents + samples;
    if all.len() > cap {
        assert(bounded_append(contents, samples, cap) == all.skip(all.len() - cap));
    } else {
        assert(bounded_append(contents, samples, cap) =~= all.skip(0));
    }
}

/// A continuously drained, continuously refilled FIFO of Q15 mono samples
/// with a hard capacity bound.
pub struct RingBuffer {
    buf: VecDeque<i16>,
    cap: usize,
}

impl RingBuffer {
    /// The buffered samples, oldest first.
    pub closed spec fn contents(self) -> Seq<i16> {
        self.buf@
    }

    /// The configured capacity bound, in samples.
    pub closed spec fn capacity(self) -> usize {
        self.cap
    }

    /// The buffer never holds more samples than its capacity.
    pub open spec fn inv(self) -> bool {
        &&& self.contents().len() <= self.capacity()
        &&& self.capacity() >= 1
    }

    /// Creates an empty ring buffer with the given capacity bound.
    pub fn new(cap: usize) -> (r: RingBuffer)
        requires
            cap >= 1,
        ensures
            r.inv(),
            r.capacity() == cap,
            r.contents() == Seq::<i16>::empty(),
    {
        RingBuffer { buf: VecDeque::new(), cap }
    }

    /// Number of samples currently buffered.
    pub fn available_len(&self) -> (n: usize)
        ensures
            n == self.contents().len(),
    {
        self.buf.len()
    }

    /// Appends `samples` at the back; if the result would exceed the
    /// capacity, the oldest samples are dropped first until it fits.
    pub fn refill_from(&mut self, samples: &Vec<i16>)
        requires
            old(self).inv(),
        ensures
            final(self).inv(),
            final(self).capacity() == old(self).capacity(),
            final(self).contents() == bounded_append(
                old(self).contents(),
                samples@,
                old(self).capacity() as nat,
            ),
    {
        let ghost orig = self.buf@;
        let mut i: usize = 0;
        while i < samples.len()
            invariant
                i <= samples@.len(),
                self.cap == old(self).cap,
                self.buf@.len() <= self.cap,
                self.cap >= 1,
                self.buf@ == bounded_append(orig, samples@.take(i as int), self.cap as nat),
            decreases samples@.len() - i,
        {
            if self.buf.len() == self.cap {
                self.buf.pop_front();
            }
            self.buf.push_back(samples[i]);
            proof {
                assert(self.buf@ =~= bounded_append(
                    orig,
                    samples@.take(i + 1 as int),
                    self.cap as nat,
                ));
            }
            i = i + 1;
        }
        proof {
            assert(samples@.take(samples@.len() as int) =~= samples@);
        }
    }

    /// Removes and returns up to `n` samples from the front; if fewer are
    /// buffered, returns exactly what exists.
    pub fn take_front(&mut self, n: usize) -> (out: Vec<i16>)
        requires
            old(self).inv(),
        ensures
            final(self).inv(),
            final(self).capacity() == old(self).capacity(),
            out@.len() == vstd::math::min(n as int, old(self).contents().len() as int),
            out@ == old(self).contents().take(out@.len() as int),
            final(self).contents() == old(self).contents().skip(out@.len() as int),
    {
        let mut out: Vec<i16> = Vec::new();
        let ghost orig = self.buf@;
        while out.len() < n && self.buf.len() > 0
            invariant
                self.cap == old(self).cap,
                out@.len() <= n,
                out@.len() <= orig.len(),
                out@ == orig.take(out@.len() as int),
                self.buf@ == orig.skip(out@.len() as int),
                out@.len() < n || out@.len() == n,
            decreases n - out@.len(),
        {
            let s = self.buf.pop_front();
            match s {
                Some(x) => {
                    proof {
                        assert(orig.skip(out@.len() as int)[0] == orig[out@.len() as int]);
                    }
                    out.push(x);
                    proof {
                        assert(out@ =~= orig.take(out@.len() as int));
                        assert(self.buf@ =~= orig.skip(out@.len() as int));
                    }
                },
                None => {
                    // unreachable: the loop condition guarantees a non-empty buffer
                },
            }
        }
        out
    }
}

} // verus!
