//! The bounded history of sensor samples: a fixed-capacity ring that evicts
//! its oldest sample when a new one arrives while it is full.

use vstd::prelude::*;
use ringbuffer::{AllocRingBuffer, RingBuffer};

verus! {

#[verifier::external_type_specification]
#[verifier::external_body]
#[verifier::reject_recursive_types(T)]
pub struct ExAllocRingBuffer<T>(AllocRingBuffer<T>);

/// Number of readings in one sample.
pub const CHANNELS: usize = 2;

/// Largest capacity a ring can be made with: the buffer behind it is
/// allocated at the next power of two, which must stay addressable on a
/// 32-bit target.
pub const MAX_CAPACITY: usize = 67108864;

/// One measurement: a timestamp in seconds since the epoch and its readings
/// in thousandths of their unit (milli-degrees Celsius, milli-percent of
/// relative humidity).
#[derive(Clone, Copy, Debug, PartialEq, Eq)]
pub struct Sample {
    pub time: i64,
    pub readings: [i32; 2],
}

/// The samples a buffer holds, oldest first.
pub uninterp spec fn ring_items(b: AllocRingBuffer<Sample>) -> Seq<Sample>;

/// The capacity a buffer was made with.
pub uninterp spec fn ring_capacity(b: AllocRingBuffer<Sample>) -> nat;

/// Relies on AllocRingBuffer::new: an empty buffer of the given capacity
/// (it panics on zero, and on a capacity whose allocation cannot be laid out).
#[verifier::external_body]
fn buffer_new(capacity: usize) -> (b: AllocRingBuffer<Sample>)
    requires
        0 < capacity <= MAX_CAPACITY,
    ensures
        ring_items(b) == Seq::<Sample>::empty(),
        ring_capacity(b) == capacity,
{
    AllocRingBuffer::new(capacity)
}

/// Relies on RingBuffer::push of AllocRingBuffer: when the buffer is full the
/// oldest sample is dropped, then the new one goes to the back.
#[verifier::external_body]
fn buffer_push(b: &mut AllocRingBuffer<Sample>, s: Sample)
    requires
        ring_items(*old(b)).len() <= ring_capacity(*old(b)),
    ensures
        ring_capacity(*final(b)) == ring_capacity(*old(b)),
        ring_items(*final(b)) == if ring_items(*old(b)).len() == ring_capacity(*old(b)) {
            ring_items(*old(b)).drop_first().push(s)
        } else {
            ring_items(*old(b)).push(s)
        },
{
    b.push(s)
}

/// Relies on RingBuffer::to_vec of AllocRingBuffer: a copy of the samples,
/// from the one pushed longest ago to the newest.
#[verifier::external_body]
fn buffer_items(b: &AllocRingBuffer<Sample>) -> (v: Vec<Sample>)
    ensures
        v@ == ring_items(*b),
{
    b.to_vec()
}

/// Relies on RingBuffer::len of AllocRingBuffer: the number of samples held.
#[verifier::external_body]
fn buffer_len(b: &AllocRingBuffer<Sample>) -> (n: usize)
    ensures
        n == ring_items(*b).len(),
{
    b.len()
}

/// The newest `n` elements of `s`, or all of them where there are fewer.
pub open spec fn keep_latest<T>(s: Seq<T>, n: nat) -> Seq<T> {
    if s.len() <= n {
        s
    } else {
        s.subrange(s.len() - n, s.len() as int)
    }
}

/// The contents of a ring of capacity `n`, empty at first, after each of
/// `pushes` was pushed in order.
pub open spec fn after_pushes(n: nat, pushes: Seq<Sample>) -> Seq<Sample>
    decreases pushes.len(),
{
    if pushes.len() == 0 {
        Seq::empty()
    } else {
        keep_latest(after_pushes(n, pushes.drop_last()).push(pushes.last()), n)
    }
}

/// A fixed-capacity history of samples in the order they were pushed.
pub struct TelemetryRing {
    buffer: AllocRingBuffer<Sample>,
    capacity: usize,
}

impl TelemetryRing {
    pub closed spec fn view(&self) -> Seq<Sample> {
        ring_items(self.buffer)
    }

    pub closed spec fn spec_capacity(&self) -> nat {
        self.capacity as nat
    }

    pub closed spec fn wf(&self) -> bool {
        &&& ring_capacity(self.buffer) == self.capacity
        &&& 0 < self.capacity <= MAX_CAPACITY
        &&& ring_items(self.buffer).len() <= self.capacity
    }

    /// The ring always holds at most its capacity, which is positive.
    pub proof fn lemma_bounded(&self)
        requires
            self.wf(),
        ensures
            self@.len() <= self.spec_capacity(),
            0 < self.spec_capacity() <= MAX_CAPACITY,
    {
    }

    /// An empty ring that keeps the newest `capacity` samples.
    pub fn new(capacity: usize) -> (r: Self)
        requires
            0 < capacity <= MAX_CAPACITY,
        ensures
            r.wf(),
            r@ == Seq::<Sample>::empty(),
            r.spec_capacity() == capacity,
    {
        TelemetryRing { buffer: buffer_new(capacity), capacity }
    }

    /// Appends a sample, first evicting the oldest one when the ring is full.
    pub fn push(&mut self, sample: Sample)
        requires
            old(self).wf(),
        ensures
            final(self).wf(),
            final(self).spec_capacity() == old(self).spec_capacity(),
            final(self)@ == keep_latest(old(self)@.push(sample), old(self).spec_capacity()),
    {
        buffer_push(&mut self.buffer, sample);
        proof {
            let s = old(self)@.push(sample);
            if old(self)@.len() == self.capacity {
                assert(old(self)@.drop_first().push(sample) =~= s.subrange(
                    s.len() - self.capacity,
                    s.len() as int,
                ));
            }
        }
    }

    /// A copy of the samples held, oldest first.
    pub fn snapshot(&self) -> (r: Vec<Sample>)
        requires
            self.wf(),
        ensures
            r@ == self@,
            r@.len() <= self.spec_capacity(),
    {
        buffer_items(&self.buffer)
    }

    /// Number of samples held.
    pub fn len(&self) -> (n: usize)
        requires
            self.wf(),
        ensures
            n == self@.len(),
    {
        buffer_len(&self.buffer)
    }

    /// Number of samples the ring keeps at most.
    pub fn capacity(&self) -> (n: usize)
        ensures
            n == self.spec_capacity(),
    {
        self.capacity
    }
}

/// Pushing samples one by one into an empty ring of capacity `n` leaves the
/// newest `n` of them in the order they were pushed: when `k` more than `n`
/// were pushed, exactly `n` remain and the first `k` are gone.
pub proof fn lemma_keeps_newest(n: nat, pushes: Seq<Sample>)
    requires
        n > 0,
    ensures
        after_pushes(n, pushes) == keep_latest(pushes, n),
        pushes.len() > n ==> after_pushes(n, pushes).len() == n && after_pushes(n, pushes)
            == pushes.subrange(pushes.len() - n, pushes.len() as int),
    decreases pushes.len(),
{
    if pushes.len() > 0 {
        let init = pushes.drop_last();
        lemma_keeps_newest(n, init);
        let prev = keep_latest(init, n);
        let s = prev.push(pushes.last());
        if init.len() <= n {
            assert(s =~= pushes);
        } else {
            assert(keep_latest(s, n) =~= keep_latest(pushes, n));
        }
    }
}

/// The readings of one channel as (time, value) pairs, in order.
pub open spec fn channel_series(samples: Seq<Sample>, channel: int) -> Seq<(i64, i32)> {
    samples.map_values(|s: Sample| (s.time, s.readings@[channel]))
}

/// Projects a sequence of samples onto one channel, keeping their order.
pub fn extract_channel(samples: &Vec<Sample>, channel: usize) -> (r: Vec<(i64, i32)>)
    requires
        channel < CHANNELS,
    ensures
        r@ == channel_series(samples@, channel as int),
{
    let mut out: Vec<(i64, i32)> = Vec::new();
    let mut i: usize = 0;
    while i < samples.len()
        invariant
            i <= samples@.len(),
            channel < CHANNELS,
            out@ == channel_series(samples@.take(i as int), channel as int),
        decreases samples@.len() - i,
    {
        let s = samples[i];
        out.push((s.time, s.readings[channel]));
        assert(channel_series(samples@.take(i + 1), channel as int) =~= channel_series(
            samples@.take(i as int),
            channel as int,
        ).push((s.time, s.readings@[channel as int])));
        i = i + 1;
    }
    assert(samples@.take(i as int) =~= samples@);
    out
}

} // verus!
