//! The bounded transfer ring that hands captured samples from the capture
//! callback to the processing loop.
//!
//! The ring itself is ringbuf's heap-allocated SPSC ring buffer, used here
//! through a handful of trusted wrappers; everything layered on top of the
//! wrappers is verified.  The policy is deliberately lossy on the producer
//! side: a push onto a full ring drops the incoming sample and reports it,
//! so the capture callback never blocks.

use vstd::prelude::*;
use ringbuf::Rb;

verus! {

/// Fixed-capacity FIFO of 16-bit samples.  Oldest sample out first; a push
/// onto a full ring is refused and the sample dropped.
#[verifier::external_body]
pub struct TransferBuffer {
    ring: ringbuf::HeapRb<i16>,
}

/// The samples the ring currently holds, oldest first.
pub uninterp spec fn ring_contents(b: TransferBuffer) -> Seq<i16>;

/// The fixed capacity the ring was created with.
pub uninterp spec fn ring_capacity(b: TransferBuffer) -> nat;

impl TransferBuffer {
    /// Relies on `ringbuf::HeapRb::new`, which builds an empty ring of
    /// exactly the requested capacity and panics on a zero capacity.
    #[verifier::external_body]
    fn ring_new(capacity: usize) -> (r: TransferBuffer)
        requires
            capacity >= 1,
        ensures
            ring_capacity(r) == capacity,
            ring_contents(r) == Seq::<i16>::empty(),
    {
        TransferBuffer { ring: ringbuf::HeapRb::new(capacity) }
    }

    /// Relies on `ringbuf::Rb::push`: appends to the back unless the ring
    /// is full (`len == capacity`), in which case it returns the sample in
    /// an `Err` and leaves the ring unchanged.
    #[verifier::external_body]
    fn ring_push(&mut self, s: i16) -> (ok: bool)
        ensures
            ring_capacity(*final(self)) == ring_capacity(*old(self)),
            ok == (ring_contents(*old(self)).len() < ring_capacity(*old(self))),
            ok ==> ring_contents(*final(self)) == ring_contents(*old(self)).push(s),
            !ok ==> ring_contents(*final(self)) == ring_contents(*old(self)),
            ring_contents(*final(self)).len() <= ring_capacity(*final(self)),
    {
        self.ring.push(s).is_ok()
    }

    /// Relies on `ringbuf::Rb::pop`: removes and returns the oldest sample,
    /// or returns `None` on an empty ring.
    #[verifier::external_body]
    fn ring_pop(&mut self) -> (r: Option<i16>)
        ensures
            ring_capacity(*final(self)) == ring_capacity(*old(self)),
            ring_contents(*old(self)).len() == 0 ==> r is None && ring_contents(*final(self))
                == ring_contents(*old(self)),
            ring_contents(*old(self)).len() > 0 ==> r == Some(ring_contents(*old(self))[0])
                && ring_contents(*final(self)) == ring_contents(*old(self)).skip(1),
            ring_contents(*final(self)).len() <= ring_capacity(*final(self)),
    {
        self.ring.pop()
    }

    /// Relies on `ringbuf::Rb::len`, the number of stored samples, which
    /// the head/tail discipline keeps at or below the capacity.
    #[verifier::external_body]
    fn ring_len(&self) -> (n: usize)
        ensures
            n == ring_contents(*self).len(),
            n <= ring_capacity(*self),
    {
        self.ring.len()
    }

    /// Relies on `ringbuf::Rb::capacity`, the constant creation capacity.
    #[verifier::external_body]
    fn ring_cap(&self) -> (n: usize)
        ensures
            n == ring_capacity(*self),
    {
        self.ring.capacity()
    }

    /// Create an empty transfer ring holding at most `capacity` samples.
    pub fn new(capacity: usize) -> (r: TransferBuffer)
        requires
            capacity >= 1,
        ensures
            ring_capacity(r) == capacity,
            ring_contents(r) == Seq::<i16>::empty(),
    {
        TransferBuffer::ring_new(capacity)
    }

    /// Number of samples currently buffered.
    pub fn len(&self) -> (n: usize)
        ensures
            n == ring_contents(*self).len(),
    {
        self.ring_len()
    }

    /// The capacity the ring was created with.
    pub fn capacity(&self) -> (n: usize)
        ensures
            n == ring_capacity(*self),
    {
        self.ring_cap()
    }

    /// Enqueue one sample.  On a full ring the sample is dropped and
    /// `false` returned: the producer never blocks and the ring never
    /// grows past its capacity.
    pub fn push(&mut self, s: i16) -> (ok: bool)
        ensures
            ring_capacity(*final(self)) == ring_capacity(*old(self)),
            ok == (ring_contents(*old(self)).len() < ring_capacity(*old(self))),
            ok ==> ring_contents(*final(self)) == ring_contents(*old(self)).push(s),
            !ok ==> ring_contents(*final(self)) == ring_contents(*old(self)),
            ring_contents(*final(self)).len() <= ring_capacity(*final(self)),
    {
        self.ring_push(s)
    }

    /// Dequeue the oldest sample, or `None` if the ring is empty: the
    /// consumer never blocks.
    pub fn pop(&mut self) -> (r: Option<i16>)
        ensures
            ring_capacity(*final(self)) == ring_capacity(*old(self)),
            ring_contents(*old(self)).len() == 0 ==> r is None && ring_contents(*final(self))
                == ring_contents(*old(self)),
            ring_contents(*old(self)).len() > 0 ==> r == Some(ring_contents(*old(self))[0])
                && ring_contents(*final(self)) == ring_contents(*old(self)).skip(1),
    {
        self.ring_pop()
    }

    /// Enqueue a whole capture buffer, oldest first, dropping whatever no
    /// longer fits.  Returns how many samples were accepted.  However many
    /// are offered, the ring keeps the samples it already held, followed by
    /// the longest prefix of `samples` that fits, and never exceeds its
    /// capacity.
    pub fn push_all(&mut self, samples: &Vec<i16>) -> (accepted: usize)
        ensures
            ring_capacity(*final(self)) == ring_capacity(*old(self)),
            accepted == min_spec(
                samples@.len() as int,
                ring_capacity(*old(self)) - ring_contents(*old(self)).len(),
            ),
            ring_contents(*final(self)) == ring_contents(*old(self)) + samples@.take(
                accepted as int,
            ),
            ring_contents(*final(self)).len() <= ring_capacity(*final(self)),
    {
        let cap: usize = self.ring_cap();
        let used: usize = self.ring_len();
        let ghost free0: int = cap - used;
        let mut i: usize = 0;
        let mut accepted: usize = 0;
        let n: usize = samples.len();
        while i < n
            invariant
                i <= n,
                n == samples@.len(),
                free0 >= 0,
                ring_capacity(*self) == ring_capacity(*old(self)),
                free0 == ring_capacity(*old(self)) - ring_contents(*old(self)).len(),
                accepted == min_spec(i as int, free0),
                ring_contents(*self) == ring_contents(*old(self)) + samples@.take(
                    accepted as int,
                ),
            decreases n - i,
        {
            let ok: bool = self.ring_push(samples[i]);
            proof {
                if ok {
                    assert(accepted < free0);
                    assert(samples@.take(accepted + 1) =~= samples@.take(accepted as int).push(
                        samples@[i as int],
                    ));
                    assert(ring_contents(*self) =~= ring_contents(*old(self)) + samples@.take(
                        accepted + 1,
                    ));
                } else {
                    assert(accepted == free0);
                }
            }
            if ok {
                accepted = accepted + 1;
            }
            i = i + 1;
        }
        accepted
    }

    /// Preload the ring with `n` zero-valued samples (deterministic startup
    /// latency headroom), dropping whatever no longer fits.  Returns how
    /// many zeros were accepted.
    pub fn preload_silence(&mut self, n: usize) -> (accepted: usize)
        ensures
            ring_capacity(*final(self)) == ring_capacity(*old(self)),
            accepted == min_spec(
                n as int,
                ring_capacity(*old(self)) - ring_contents(*old(self)).len(),
            ),
            ring_contents(*final(self)) == ring_contents(*old(self)) + Seq::<i16>::new(
                accepted as nat,
                |j: int| 0i16,
            ),
            ring_contents(*final(self)).len() <= ring_capacity(*final(self)),
    {
        let cap: usize = self.ring_cap();
        let used: usize = self.ring_len();
        let ghost free0: int = cap - used;
        let mut i: usize = 0;
        let mut accepted: usize = 0;
        while i < n
            invariant
                i <= n,
                free0 >= 0,
                ring_capacity(*self) == ring_capacity(*old(self)),
                free0 == ring_capacity(*old(self)) - ring_contents(*old(self)).len(),
                accepted == min_spec(i as int, free0),
                ring_contents(*self) == ring_contents(*old(self)) + Seq::<i16>::new(
                    accepted as nat,
                    |j: int| 0i16,
                ),
            decreases n - i,
        {
            let ok: bool = self.ring_push(0i16);
            proof {
                if ok {
                    assert(accepted < free0);
                    assert(Seq::<i16>::new((accepted + 1) as nat, |j: int| 0i16)
                        =~= Seq::<i16>::new(accepted as nat, |j: int| 0i16).push(0i16));
                    assert(ring_contents(*self) =~= ring_contents(*old(self)) + Seq::<i16>::new(
                        (accepted + 1) as nat,
                        |j: int| 0i16,
                    ));
                } else {
                    assert(accepted == free0);
                }
            }
            if ok {
                accepted = accepted + 1;
            }
            i = i + 1;
        }
        accepted
    }
}

/// The smaller of two integers.
pub open spec fn min_spec(a: int, b: int) -> int {
    if a <= b {
        a
    } else {
        b
    }
}

} // verus!
