//! Tests for the sliding spectrum engine: window sizing, starvation
//! no-ops, exact window selection and repeat-call stability.

use sliding_spectrum::engine::{window_start_sample, SlidingDft};
use sliding_spectrum::fft::ContractViolation;
use sliding_spectrum::source::SrcInfo;

/// 1024 samples at 44100 Hz, in nanoseconds (rounds to exactly 1024).
const WINDOW_1024_NANOS: u64 = 23_219_955;
const RATE: u32 = 44100;

fn engine_1024() -> SlidingDft {
    let dft = SlidingDft::new(RATE, WINDOW_1024_NANOS).unwrap();
    assert_eq!(dft.window_size(), 1024);
    dft
}

#[test]
fn new_computes_window_size() {
    let dft = engine_1024();
    assert_eq!(dft.sample_rate(), RATE);
    assert_eq!(dft.dft().len(), 513);
    assert_eq!(dft.min_buffer_size(), 2048);
    assert!(dft.dft().iter().all(|c| c.re == 0 && c.im == 0));
}

#[test]
fn new_rejects_non_power_of_two_window() {
    // 22_675_736 ns at 44100 Hz rounds to 1000 samples: not a power of two.
    assert!(matches!(
        SlidingDft::new(RATE, 22_675_736),
        Err(ContractViolation::LengthNotPowerOfTwo)
    ));
    // A window of one sample or less is rejected too.
    assert!(matches!(
        SlidingDft::new(RATE, 1),
        Err(ContractViolation::LengthNotPowerOfTwo)
    ));
}

#[test]
fn new_rejects_oversized_window() {
    // Ten seconds at 44100 Hz: 441000 samples, beyond the supported maximum.
    assert!(matches!(
        SlidingDft::new(RATE, 10_000_000_000),
        Err(ContractViolation::LengthTooLarge)
    ));
}

#[test]
fn starvation_idempotence() {
    // Repeated update() with zero samples delivered never mutates the
    // spectrum and never fails.
    let mut dft = engine_1024();
    let mut src = SrcInfo::new(dft.min_buffer_size());
    let before = dft.dft().clone();
    for step in 0..5u64 {
        dft.update(&mut src, 1_000_000_000 + step * 10_000_000);
        assert_eq!(*dft.dft(), before);
        assert_eq!(src.sample_cons().len(), 0);
    }
}

#[test]
fn update_starved_after_single_delivery() {
    // One delivery records a count but no latency gap: still a no-op.
    let mut dft = engine_1024();
    let mut src = SrcInfo::new(dft.min_buffer_size());
    src.push_callback_data(&vec![0; 100], 2048, 1_000_000_000);
    let before = dft.dft().clone();
    dft.update(&mut src, 1_100_000_000);
    assert_eq!(*dft.dft(), before);
    assert_eq!(src.sample_cons().len(), 100);
}

#[test]
fn window_selection_formula() {
    // Synthetic tracker state (count, instant T, max latency d): the
    // discarded count equals the documented formula exactly.
    let count: usize = 2000;
    let instant: u64 = 2_000_000_000;
    let lat: u64 = 10_000_000;
    let now: u64 = 2_005_000_000;

    // Reference computation, written out from the algorithm description.
    let window_end = now - lat;
    let window_start = window_end - WINDOW_1024_NANOS;
    let elapsed = (instant - window_start) as u128;
    let back = (elapsed * RATE as u128 + 500_000_000) / 1_000_000_000;
    let expected = count - back as usize;
    assert_eq!(back, 1245);
    assert_eq!(
        window_start_sample(count, instant, lat, WINDOW_1024_NANOS, RATE, now),
        expected
    );

    // Driving the engine with the same synthetic state discards exactly
    // that many samples.
    let mut dft = engine_1024();
    let mut src = SrcInfo::new(4096);
    src.push_callback_data(&vec![0; 0], 4096, instant - lat);
    src.push_callback_data(&vec![1; count], 4096, instant);
    dft.update(&mut src, now);
    assert_eq!(src.sample_cons().len(), count - expected);
}

#[test]
fn window_start_clamps_to_zero() {
    // When the subtraction would underflow — more samples lie between the
    // window start and the recorded instant than were ever counted — the
    // whole available history is the window.
    assert_eq!(
        window_start_sample(10, 2_000_000_000, 0, 3_000_000_000, RATE, 2_500_000_000),
        0
    );
}

#[test]
fn repeat_call_bit_identical() {
    // Two consecutive update() calls with no intervening pushes leave the
    // spectrum bit-identical the second time.
    let mut dft = engine_1024();
    let mut src = SrcInfo::new(dft.min_buffer_size());
    let chunk: Vec<i32> = (0..4096).map(|i| if i % 2 == 0 { 1 << 20 } else { -(1 << 20) }).collect();
    src.push_callback_data(&vec![0; 0], 2048, 1_000_000_000);
    src.push_callback_data(&chunk, 2048, 1_050_000_000);
    let now = 1_080_000_000;
    dft.update(&mut src, now);
    let first = dft.dft().clone();
    // The delivery was loud enough that a window was computed.
    assert!(first.iter().any(|c| c.re != 0 || c.im != 0));
    let len_after_first = src.sample_cons().len();
    dft.update(&mut src, now);
    assert_eq!(*dft.dft(), first);
    assert_eq!(src.sample_cons().len(), len_after_first);
}
