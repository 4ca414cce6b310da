//! Shared producer-side state: the sample buffer plus latency bookkeeping.
//!
//! A hardware callback delivers chunks of samples. Each delivery grows the
//! buffer when the chunk exceeds the free capacity, appends the chunk, and
//! then records a latency sample using the occupied length taken
//! immediately after the push — one consistent choice, on which the
//! window-alignment arithmetic of the engine relies. Because growth always
//! precedes an oversized push, a delivery never drops samples.
//!
//! The buffer and the bookkeeping form one logical resource: callers that
//! share a [`SrcInfo`] across threads guard the whole value with a single
//! lock, held for the duration of one delivery or one discard-and-read.

use vstd::prelude::*;

verus! {

use crate::latency::LatencyInfo;
use crate::ring_buffer::RingBuffer;

/// Producer/consumer shared state: sample buffer and latency records.
pub struct SrcInfo {
    /// The sample queue the consumer reads from.
    pub sample_cons: RingBuffer,
    /// Latency records taken at each delivery.
    pub latency_info: LatencyInfo,
}

impl SrcInfo {
    /// The unread samples, oldest first.
    pub open spec fn buf(&self) -> Seq<i32> {
        self.sample_cons.contents()
    }

    /// The buffer capacity.
    pub open spec fn cap(&self) -> int {
        self.sample_cons.capacity_spec()
    }

    /// The latest recorded (count, instant) pair.
    pub open spec fn recorded(&self) -> Option<(usize, u64)> {
        self.latency_info.sample_at_instant
    }

    /// The latest recorded inter-delivery gap.
    pub open spec fn gap(&self) -> Option<u64> {
        self.latency_info.max_latency
    }

    /// Consistency: the parts are well formed, and a recorded count never
    /// exceeds the occupied length — deliveries record the occupied length
    /// and discards shrink both together.
    pub open spec fn wf(&self) -> bool {
        &&& self.sample_cons.wf()
        &&& self.latency_info.wf()
        &&& (self.latency_info.sample_at_instant matches Some((c, t)) ==> c
            <= self.sample_cons.contents().len())
    }

    /// Creates shared state with an empty buffer of the given capacity and
    /// no latency records.
    pub fn new(sample_buffer_size: usize) -> (r: SrcInfo)
        requires
            1 <= sample_buffer_size <= usize::MAX / 2,
        ensures
            r.wf(),
            r.buf() == Seq::<i32>::empty(),
            r.cap() == sample_buffer_size,
            r.recorded() is None,
            r.gap() is None,
    {
        SrcInfo { sample_cons: RingBuffer::new(sample_buffer_size), latency_info: LatencyInfo::new() }
    }

    /// One delivery from the hardware callback: grow the buffer if the
    /// chunk exceeds the free capacity, append the chunk — never dropping a
    /// sample — and record (occupied length after the push, `now`).
    pub fn push_callback_data(&mut self, data: &Vec<i32>, sample_buffer_size: usize, now: u64)
        requires
            old(self).wf(),
            old(self).recorded() matches Some((c, t)) ==> t <= now,
            old(self).buf().len() + 2 * data@.len() + sample_buffer_size <= usize::MAX / 2,
        ensures
            final(self).wf(),
            final(self).buf() == old(self).buf() + data@,
            final(self).recorded() == Some(
                ((old(self).buf().len() + data@.len()) as usize, now),
            ),
            final(self).gap() == match old(self).recorded() {
                Some((c, t)) => Some((now - t) as u64),
                None => None::<u64>,
            },
            final(self).cap() == if old(self).buf().len() + data@.len() <= old(self).cap() {
                old(self).cap()
            } else {
                old(self).buf().len() + 2 * data@.len() + sample_buffer_size
            },
    {
        let ghost old_buf = self.buf();
        let len = self.sample_cons.len();
        let capacity = self.sample_cons.capacity();
        proof {
            self.sample_cons.lemma_len_le_capacity();
        }
        let free = capacity - len;
        if data.len() > free {
            let new_cap = len + data.len() * 2 + sample_buffer_size;
            self.sample_cons.grow(new_cap);
        }
        self.sample_cons.push(data);
        proof {
            assert(self.buf() =~= old_buf + data@);
        }
        let count = self.sample_cons.len();
        self.latency_info.record(count, now);
    }

    /// Returns the buffer consumer state.
    pub fn sample_cons(&self) -> (r: &RingBuffer)
        ensures
            *r == self.sample_cons,
    {
        &self.sample_cons
    }

    /// Returns the latency records.
    pub fn latency_info(&self) -> (r: &LatencyInfo)
        ensures
            *r == self.latency_info,
    {
        &self.latency_info
    }
}

} // verus!
