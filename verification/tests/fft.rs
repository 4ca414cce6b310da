//! Tests for the fixed-point FFT: exact small transforms, error reporting,
//! normalisation, and the round-trip accuracy of forward plus backward
//! transforms on random inputs.

use sliding_spectrum::complex::{cadd, cmul, csub, Cpx, FRAC_ONE};
use sliding_spectrum::fft::{ContractViolation, Direction, FFTransformer};

const ONE_F: f64 = 1073741824.0;

fn lcg(state: &mut u64) -> u64 {
    *state = state
        .wrapping_mul(6364136223846793005)
        .wrapping_add(1442695040888963407);
    *state
}

fn rand_unit(state: &mut u64) -> f64 {
    ((lcg(state) >> 11) as f64) / ((1u64 << 53) as f64)
}

fn to_q30(x: f64) -> i64 {
    (x * ONE_F).round() as i64
}

fn gen_rand_buffer(len: usize, state: &mut u64) -> Vec<Cpx> {
    assert!(len.is_power_of_two());
    let mut xs = Vec::with_capacity(len);
    for _ in 0..len {
        xs.push(Cpx {
            re: to_q30(rand_unit(state)),
            im: to_q30(rand_unit(state)),
        });
    }
    xs
}

/// Values within 0.1% of each other, with an absolute tolerance covering
/// the Q30 rounding noise that a long transform accumulates.
fn assert_close(a: f64, b: f64) {
    let diff = (a - b).abs();
    assert!(
        diff <= 1e-4 || diff <= 0.001 * a.abs().max(b.abs()),
        "values differ: {} vs {}",
        a,
        b
    );
}

fn fft_is_injective(len: usize, state: &mut u64) {
    let xs = gen_rand_buffer(len, state);
    let transformer = FFTransformer::new();
    let transformed_xs = transformer.fft(&xs, Direction::FORWARD).unwrap();
    let mut xs_reverted = transformer.fft(&transformed_xs, Direction::BACKWARD).unwrap();
    FFTransformer::normalise(&mut xs_reverted);
    for i in 0..xs.len() {
        /* Ensure values are within 0.1% of eachother. */
        assert_close(xs[i].re as f64 / ONE_F, xs_reverted[i].re as f64 / ONE_F);
        assert_close(xs[i].im as f64 / ONE_F, xs_reverted[i].im as f64 / ONE_F);
    }
}

#[test]
fn fft_is_injective_many() {
    let mut state: u64 = 0x5eed_1234_5678_9abc;
    for _ in 0..100 {
        let n: u8 = (lcg(&mut state) >> 32) as u8 % 15;
        fft_is_injective(2 << n, &mut state);
    }
}

#[test]
fn fft_exact_four_points() {
    // The length-4 twiddle factors are exact in Q30, so the transform of
    // small integers equals the textbook DFT exactly:
    // [1, 2, 3, 4] -> [10, -2+2i, -2, -2-2i].
    let xs = vec![
        Cpx { re: 1, im: 0 },
        Cpx { re: 2, im: 0 },
        Cpx { re: 3, im: 0 },
        Cpx { re: 4, im: 0 },
    ];
    let transformer = FFTransformer::new();
    let r = transformer.fft(&xs, Direction::FORWARD).unwrap();
    assert_eq!(r.len(), 4);
    assert_eq!(r[0], Cpx { re: 10, im: 0 });
    assert_eq!(r[1], Cpx { re: -2, im: 2 });
    assert_eq!(r[2], Cpx { re: -2, im: 0 });
    assert_eq!(r[3], Cpx { re: -2, im: -2 });
}

#[test]
fn fft_exact_two_points() {
    let xs = vec![Cpx { re: 7, im: -1 }, Cpx { re: 3, im: 5 }];
    let transformer = FFTransformer::new();
    let r = transformer.fft(&xs, Direction::FORWARD).unwrap();
    assert_eq!(r[0], Cpx { re: 10, im: 4 });
    assert_eq!(r[1], Cpx { re: 4, im: -6 });
}

#[test]
fn fft_rejects_non_power_of_two() {
    let transformer = FFTransformer::new();
    let xs = vec![Cpx { re: 1, im: 0 }; 3];
    assert_eq!(
        transformer.fft(&xs, Direction::FORWARD).unwrap_err(),
        ContractViolation::LengthNotPowerOfTwo
    );
    let xs = vec![Cpx { re: 1, im: 0 }; 1];
    assert_eq!(
        transformer.fft(&xs, Direction::FORWARD).unwrap_err(),
        ContractViolation::LengthNotPowerOfTwo
    );
    let xs: Vec<Cpx> = Vec::new();
    assert_eq!(
        transformer.fft(&xs, Direction::FORWARD).unwrap_err(),
        ContractViolation::LengthNotPowerOfTwo
    );
}

#[test]
fn fft_rejects_oversized_length() {
    let transformer = FFTransformer::new();
    let xs = vec![Cpx { re: 0, im: 0 }; 131072];
    assert_eq!(
        transformer.fft(&xs, Direction::FORWARD).unwrap_err(),
        ContractViolation::LengthTooLarge
    );
}

#[test]
fn normalise_truncates_toward_zero() {
    let mut xs = vec![Cpx { re: 10, im: -7 }, Cpx { re: -9, im: 3 }];
    FFTransformer::normalise(&mut xs);
    assert_eq!(xs[0], Cpx { re: 5, im: -3 });
    assert_eq!(xs[1], Cpx { re: -4, im: 1 });
}

#[test]
fn complex_ops_exact_values() {
    let a = Cpx { re: 3 * FRAC_ONE, im: -2 * FRAC_ONE };
    let b = Cpx { re: FRAC_ONE, im: FRAC_ONE };
    assert_eq!(
        cadd(a, b),
        Cpx { re: 4 * FRAC_ONE, im: -FRAC_ONE }
    );
    assert_eq!(
        csub(a, b),
        Cpx { re: 2 * FRAC_ONE, im: -3 * FRAC_ONE }
    );
    // (3 - 2i) * (1 + i) = 5 + i, exact in Q30.
    assert_eq!(
        cmul(a, b),
        Cpx { re: 5 * FRAC_ONE, im: FRAC_ONE }
    );
}

#[test]
fn fft_deterministic_repeat() {
    let mut state: u64 = 42;
    let xs = gen_rand_buffer(256, &mut state);
    let transformer = FFTransformer::new();
    let r1 = transformer.fft(&xs, Direction::FORWARD).unwrap();
    let r2 = transformer.fft(&xs, Direction::FORWARD).unwrap();
    assert_eq!(r1, r2);
}
