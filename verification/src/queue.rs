//! The packet queue: a bounded, ordered hand-off buffer of raw byte packets
//! between a non-real-time producer and the engine. When the queue is full,
//! the oldest packet is evicted before the new one is appended — a
//! bounded-latency policy, not an error.

use vstd::prelude::*;
use std::collections::VecDeque;
use crate::ring::bounded_append;

verus! {

/// A bounded FIFO of raw audio packets.
pub struct PacketQueue {
    queue: VecDeque<Vec<u8>>,
    cap: usize,
}

impl PacketQueue {
    /// The queued packets, oldest first, as byte sequences.
    pub closed spec fn contents(self) -> Seq<Seq<u8>> {
        self.queue@.map_values(|p: Vec<u8>| p@)
    }

    /// The configured maximum number of queued packets.
    pub closed spec fn capacity(self) -> usize {
        self.cap
    }

    /// The queue never holds more packets than its capacity.
    pub open spec fn inv(self) -> bool {
        &&& self.contents().len() <= self.capacity()
        &&& self.capacity() >= 1
    }

    /// Creates an empty queue with the given depth bound.
    pub fn new(cap: usize) -> (r: PacketQueue)
        requires
            cap >= 1,
        ensures
            r.inv(),
            r.capacity() == cap,
            r.contents() == Seq::<Seq<u8>>::empty(),
    {
        let q = PacketQueue { queue: VecDeque::new(), cap };
        proof {
            assert(q.contents() =~= Seq::<Seq<u8>>::empty());
        }
        q
    }

    /// Number of packets currently queued.
    pub fn len(&self) -> (n: usize)
        ensures
            n == self.contents().len(),
    {
        self.queue.len()
    }

    /// Whether the queue holds no packets.
    pub fn is_empty(&self) -> (r: bool)
        ensures
            r == (self.contents().len() == 0),
    {
        self.queue.len() == 0
    }

    /// Appends `packet` at the back; if the queue is already at capacity,
    /// the oldest packet is evicted first. The retained packets are always
    /// the most recently enqueued ones, up to the capacity.
    pub fn enqueue(&mut self, packet: Vec<u8>)
        requires
            old(self).inv(),
        ensures
            final(self).inv(),
            final(self).capacity() == old(self).capacity(),
            final(self).contents() == bounded_append(
                old(self).contents(),
                seq![packet@],
                old(self).capacity() as nat,
            ),
    {
        if self.queue.len() == self.cap {
            self.queue.pop_front();
        }
        self.queue.push_back(packet);
        proof {
            assert(final(self).contents() =~= bounded_append(
                old(self).contents(),
                seq![packet@],
                old(self).capacity() as nat,
            ));
        }
    }

    /// Atomically removes and returns every queued packet in arrival order,
    /// leaving the queue empty.
    pub fn dequeue_all_available(&mut self) -> (out: Vec<Vec<u8>>)
        requires
            old(self).inv(),
        ensures
            final(self).inv(),
            final(self).capacity() == old(self).capacity(),
            out@.map_values(|p: Vec<u8>| p@) == old(self).contents(),
            final(self).contents() == Seq::<Seq<u8>>::empty(),
    {
        let ghost orig = self.queue@;
        let mut out: Vec<Vec<u8>> = Vec::new();
        while self.queue.len() > 0
            invariant
                self.cap == old(self).cap,
                out@.len() + self.queue@.len() == orig.len(),
                out@ == orig.take(out@.len() as int),
                self.queue@ == orig.skip(out@.len() as int),
            decreases self.queue@.len(),
        {
            let p = self.queue.pop_front();
            match p {
                Some(x) => {
                    proof {
                        assert(orig.skip(out@.len() as int)[0] == orig[out@.len() as int]);
                    }
                    out.push(x);
                    proof {
                        assert(out@ =~= orig.take(out@.len() as int));
                        assert(self.queue@ =~= orig.skip(out@.len() as int));
                    }
                },
                None => {},
            }
        }
        proof {
            assert(out@ =~= orig);
            assert(out@.map_values(|p: Vec<u8>| p@) =~= old(self).contents());
            assert(final(self).contents() =~= Seq::<Seq<u8>>::empty());
        }
        out
    }

    /// Removes and returns the single oldest packet, or `None` if the queue
    /// is empty.
    pub fn try_dequeue_one(&mut self) -> (r: Option<Vec<u8>>)
        requires
            old(self).inv(),
        ensures
            final(self).inv(),
            final(self).capacity() == old(self).capacity(),
            match r {
                Some(p) => {
                    &&& old(self).contents().len() > 0
                    &&& p@ == old(self).contents()[0]
                    &&& final(self).contents() == old(self).contents().skip(1)
                },
                None => {
                    &&& old(self).contents().len() == 0
                    &&& final(self).contents() == old(self).contents()
                },
            },
    {
        let r = self.queue.pop_front();
        proof {
            if r is Some {
                assert(final(self).contents() =~= old(self).contents().skip(1));
            } else {
                assert(final(self).contents() =~= old(self).contents());
            }
        }
        r
    }
}

} // verus!
