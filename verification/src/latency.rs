//! Latency bookkeeping for the sample producer.
//!
//! On each delivery the producer records the pair (logical sample count,
//! instant of delivery in nanoseconds). Once two deliveries have been
//! recorded, the gap between the two most recent instants approximates the
//! worst-case callback period and is exposed as `max_latency`.

use vstd::prelude::*;

verus! {

/// The most recent (sample count, instant) record and the latest
/// inter-delivery gap, both `None` until enough deliveries happened.
pub struct LatencyInfo {
    /// Sample count at the latest delivery, paired with its instant
    /// (nanoseconds).
    pub sample_at_instant: Option<(usize, u64)>,
    /// Gap in nanoseconds between the two most recent deliveries; `None`
    /// until at least two were recorded.
    pub max_latency: Option<u64>,
}

impl LatencyInfo {
    /// A latency gap is only ever derived from a recorded delivery.
    pub open spec fn wf(&self) -> bool {
        self.max_latency is Some ==> self.sample_at_instant is Some
    }

    /// Creates empty bookkeeping: nothing recorded yet.
    pub fn new() -> (r: LatencyInfo)
        ensures
            r.wf(),
            r.sample_at_instant is None,
            r.max_latency is None,
    {
        LatencyInfo { sample_at_instant: None, max_latency: None }
    }

    /// Records a delivery of `count` total unread samples at instant `now`,
    /// deriving the latency gap from the previously recorded instant, if
    /// any. Instants must not run backwards.
    pub fn record(&mut self, count: usize, now: u64)
        requires
            old(self).sample_at_instant matches Some((c, t)) ==> t <= now,
        ensures
            final(self).wf(),
            final(self).sample_at_instant == Some((count, now)),
            final(self).max_latency == match old(self).sample_at_instant {
                Some((c, t)) => Some((now - t) as u64),
                None => None::<u64>,
            },
    {
        self.max_latency = match self.sample_at_instant {
            Some((_, t)) => Some(now - t),
            None => None,
        };
        self.sample_at_instant = Some((count, now));
    }

    /// Returns `None` until two deliveries have been recorded, then the
    /// latest (count, instant, max latency) triple.
    pub fn estimate(&self) -> (r: Option<(usize, u64, u64)>)
        requires
            self.wf(),
        ensures
            r == match (self.sample_at_instant, self.max_latency) {
                (Some((c, t)), Some(l)) => Some((c, t, l)),
                _ => None::<(usize, u64, u64)>,
            },
    {
        match (self.sample_at_instant, self.max_latency) {
            (Some((c, t)), Some(l)) => Some((c, t, l)),
            _ => None,
        }
    }
}

} // verus!
