//! Tests for the latency bookkeeping: no estimate until two deliveries,
//! then the latest count, instant and inter-delivery gap.

use sliding_spectrum::latency::LatencyInfo;

#[test]
fn estimate_none_until_two_records() {
    let mut li = LatencyInfo::new();
    assert_eq!(li.estimate(), None);
    li.record(100, 1_000_000);
    assert_eq!(li.estimate(), None);
    li.record(250, 1_500_000);
    assert_eq!(li.estimate(), Some((250, 1_500_000, 500_000)));
}

#[test]
fn gap_tracks_latest_pair() {
    let mut li = LatencyInfo::new();
    li.record(10, 100);
    li.record(20, 400);
    li.record(30, 450);
    // The gap is the distance between the two most recent instants.
    assert_eq!(li.estimate(), Some((30, 450, 50)));
}
