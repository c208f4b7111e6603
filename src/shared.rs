//! The sample history shared between the sampling loop and any number of
//! readers, behind one lock that admits a single accessor at a time.

use vstd::prelude::*;
use vstd::rwlock::{RwLock, RwLockPredicate};
use crate::ring::{keep_latest, MAX_CAPACITY, Sample, TelemetryRing};

verus! {

/// What every state of a shared ring satisfies: it is well formed and keeps
/// the capacity it was made with.
pub struct RingBound {
    pub capacity: usize,
}

impl RwLockPredicate<TelemetryRing> for RingBound {
    open spec fn inv(self, v: TelemetryRing) -> bool {
        v.wf() && v.spec_capacity() == self.capacity
    }
}

/// A telemetry ring behind an exclusive lock. Pushes and snapshots each hold
/// the lock only for the ring operation itself, so no reader sees a push
/// half done.
pub struct SharedTelemetry {
    lock: RwLock<TelemetryRing, RingBound>,
}

impl SharedTelemetry {
    /// The capacity of the ring inside.
    pub closed spec fn spec_capacity(&self) -> nat {
        self.lock.pred().capacity as nat
    }

    /// A shared, empty ring that keeps the newest `capacity` samples.
    pub fn new(capacity: usize) -> (r: Self)
        requires
            0 < capacity <= MAX_CAPACITY,
        ensures
            r.spec_capacity() == capacity,
    {
        let ring = TelemetryRing::new(capacity);
        SharedTelemetry { lock: RwLock::new(ring, Ghost(RingBound { capacity })) }
    }

    /// Pushes a sample under the lock, as one step that no other accessor
    /// can split. Returns the ring's content just before and just after that
    /// step: the sample is appended and, if that went over the capacity, the
    /// oldest sample is dropped.
    pub fn push(&self, sample: Sample) -> (step: Ghost<(Seq<Sample>, Seq<Sample>)>)
        ensures
            step@.0.len() <= self.spec_capacity(),
            step@.1 == keep_latest(step@.0.push(sample), self.spec_capacity()),
            step@.1.len() <= self.spec_capacity(),
            step@.1.len() > 0,
            step@.1.last() == sample,
    {
        let (mut ring, handle) = self.lock.acquire_write();
        let ghost before = ring@;
        proof {
            ring.lemma_bounded();
        }
        ring.push(sample);
        proof {
            ring.lemma_bounded();
            let s = before.push(sample);
            assert(ring@.last() == s.last());
        }
        let step = Ghost((before, ring@));
        handle.release_write(ring);
        step
    }

    /// A copy of the ring's content at one instant, oldest first. However
    /// pushes interleave with it, it never holds more than the capacity.
    pub fn snapshot(&self) -> (r: Vec<Sample>)
        ensures
            r@.len() <= self.spec_capacity(),
    {
        let (ring, handle) = self.lock.acquire_write();
        let copy = ring.snapshot();
        handle.release_write(ring);
        copy
    }
}

} // verus!
