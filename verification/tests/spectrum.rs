//! Tests for the half-spectrum planner: the tone scenario and error
//! reporting.

use sliding_spectrum::complex::Cpx;
use sliding_spectrum::fft::ContractViolation;
use sliding_spectrum::spectrum::RealSpectrumPlanner;

const ONE_F: f64 = 1073741824.0;

fn sine_window(rate: f64, f0: f64, len: usize, amplitude: f64) -> Vec<i32> {
    (0..len)
        .map(|t| {
            let x = amplitude * (2.0 * std::f64::consts::PI * f0 * t as f64 / rate).sin();
            (x * ONE_F) as i32
        })
        .collect()
}

fn peak_bin(spectrum: &[Cpx]) -> usize {
    let mut best = 0usize;
    let mut best_mag = -1.0f64;
    for (k, c) in spectrum.iter().enumerate() {
        let mag = (c.re as f64) * (c.re as f64) + (c.im as f64) * (c.im as f64);
        if mag > best_mag {
            best_mag = mag;
            best = k;
        }
    }
    best
}

#[test]
fn tone_peak_at_expected_bin() {
    // A pure sine at f0 = R/8, R = 44100 Hz, window length 1024: the
    // magnitude peak sits at bin round(f0 * N / R) = 128, within one bin.
    let rate = 44100.0;
    let f0 = rate / 8.0;
    let window = sine_window(rate, f0, 1024, 0.4);
    let mut planner = RealSpectrumPlanner::new();
    let mut out: Vec<Cpx> = Vec::new();
    planner.process(&window, &mut out).unwrap();
    assert_eq!(out.len(), 513);
    let peak = peak_bin(&out);
    assert!((127..=129).contains(&peak), "peak at bin {}", peak);
}

#[test]
fn process_rejects_bad_lengths() {
    let mut planner = RealSpectrumPlanner::new();
    let mut out: Vec<Cpx> = Vec::new();
    assert_eq!(
        planner.process(&vec![0; 100], &mut out).unwrap_err(),
        ContractViolation::LengthNotPowerOfTwo
    );
    assert_eq!(
        planner.process(&vec![0; 131072], &mut out).unwrap_err(),
        ContractViolation::LengthTooLarge
    );
    assert!(out.is_empty());
}

#[test]
fn process_repeated_calls_reuse_plan() {
    // Two calls at the same window size give bit-identical spectra.
    let window = sine_window(48000.0, 1000.0, 512, 0.3);
    let mut planner = RealSpectrumPlanner::new();
    let mut out1: Vec<Cpx> = Vec::new();
    let mut out2: Vec<Cpx> = Vec::new();
    planner.process(&window, &mut out1).unwrap();
    planner.process(&window, &mut out2).unwrap();
    assert_eq!(out1, out2);
    assert_eq!(out1.len(), 257);
}
