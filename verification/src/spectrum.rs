//! Half-spectrum adapter for real-valued windows.
//!
//! A real-valued window of power-of-two length `N` has a complex spectrum
//! with conjugate symmetry: bin `k` and bin `N−k` are conjugates, so the
//! bins `0 ..= N/2` carry all the information. The planner runs the full
//! complex transform on the window (imaginary parts zero) and keeps those
//! `N/2 + 1` bins. A staging buffer — the per-size plan — is kept and
//! reused, so repeated calls at a fixed window size allocate nothing new
//! for the input.

use vstd::prelude::*;

verus! {

use crate::complex::{cpxs, in_bound, Cpx};
use crate::fft::{
    check_pow2, is_pow2, spec_fft, ContractViolation, Direction, FFTransformer, MAX_FFT_LEN,
    SAMPLE_BOUND,
};

/// The samples of `s` as complex values with zero imaginary part.
pub open spec fn real_to_cpx(s: Seq<i32>) -> Seq<(int, int)> {
    Seq::new(s.len(), |i: int| (s[i] as int, 0int))
}

/// The `N/2 + 1` half spectrum of the real window `s`: the leading bins of
/// the forward transform of `s` taken as complex values.
pub open spec fn spec_real_spectrum(s: Seq<i32>) -> Seq<(int, int)> {
    spec_fft(real_to_cpx(s), Direction::FORWARD).take(s.len() as int / 2 + 1)
}

/// Computes half spectra of real windows, caching a staging buffer per
/// window size.
pub struct RealSpectrumPlanner {
    transformer: FFTransformer,
    staging: Vec<Cpx>,
}

impl RealSpectrumPlanner {
    /// Creates a planner with no plan cached yet.
    pub fn new() -> (r: RealSpectrumPlanner) {
        RealSpectrumPlanner { transformer: FFTransformer::new(), staging: Vec::new() }
    }

    /// Computes the half spectrum of `input` into `output`.
    ///
    /// Succeeds exactly when the window length is a power of two between 2
    /// and [`MAX_FFT_LEN`]; `output` is then resized to `N/2 + 1` bins
    /// holding exactly [`spec_real_spectrum`] of the window. A violating
    /// length is reported explicitly and `output` is left untouched.
    pub fn process(&mut self, input: &Vec<i32>, output: &mut Vec<Cpx>) -> (r: Result<
        (),
        ContractViolation,
    >)
        ensures
            match r {
                Ok(()) => {
                    &&& 2 <= input@.len() <= MAX_FFT_LEN
                    &&& is_pow2(input@.len() as nat)
                    &&& final(output)@.len() == input@.len() / 2 + 1
                    &&& cpxs(final(output)@) == spec_real_spectrum(input@)
                },
                Err(e) => {
                    &&& !(2 <= input@.len() <= MAX_FFT_LEN && is_pow2(input@.len() as nat))
                    &&& e == (if input@.len() <= 1 || !is_pow2(input@.len() as nat) {
                        ContractViolation::LengthNotPowerOfTwo
                    } else {
                        ContractViolation::LengthTooLarge
                    })
                    &&& *final(output) == *old(output)
                },
            },
    {
        let n = input.len();
        if n <= 1 || !check_pow2(n) {
            return Err(ContractViolation::LengthNotPowerOfTwo);
        }
        if n > MAX_FFT_LEN {
            return Err(ContractViolation::LengthTooLarge);
        }
        if self.staging.len() != n {
            // A new window size: build a fresh plan for it.
            let mut st: Vec<Cpx> = Vec::with_capacity(n);
            let mut i: usize = 0;
            while i < n
                invariant
                    i <= n,
                    n == input@.len(),
                    st@.len() == i,
                    forall|j: int| 0 <= j < i ==> cpxs(st@)[j] == (input@[j] as int, 0int),
                decreases n - i,
            {
                let ghost pre = st@;
                st.push(Cpx { re: input[i] as i64, im: 0 });
                proof {
                    assert forall|j: int| 0 <= j < i + 1 implies cpxs(st@)[j] == (
                        input@[j] as int,
                        0int,
                    ) by {
                        if j < i {
                            assert(st@[j] == pre[j]);
                            assert(cpxs(pre)[j] == pre[j]@);
                        }
                    }
                }
                i = i + 1;
            }
            self.staging = st;
        } else {
            let mut i: usize = 0;
            while i < n
                invariant
                    i <= n,
                    n == input@.len(),
                    self.staging@.len() == n,
                    forall|j: int| 0 <= j < i ==> cpxs(self.staging@)[j] == (input@[j] as int, 0int),
                decreases n - i,
            {
                let ghost pre = self.staging@;
                self.staging[i] = Cpx { re: input[i] as i64, im: 0 };
                proof {
                    assert forall|j: int| 0 <= j < i + 1 implies cpxs(self.staging@)[j] == (
                        input@[j] as int,
                        0int,
                    ) by {
                        if j < i {
                            assert(self.staging@[j] == pre[j]);
                            assert(cpxs(pre)[j] == pre[j]@);
                        }
                    }
                }
                i = i + 1;
            }
        }
        proof {
            assert(cpxs(self.staging@) =~= real_to_cpx(input@));
            assert forall|j: int| 0 <= j < n implies in_bound(
                #[trigger] cpxs(self.staging@)[j],
                SAMPLE_BOUND as int,
            ) by {
                assert(cpxs(self.staging@)[j] == (input@[j] as int, 0int));
            }
        }
        let full = match self.transformer.fft(&self.staging, Direction::FORWARD) {
            Ok(v) => v,
            Err(_) => {
                proof {
                    assert(false);
                }
                return Err(ContractViolation::LengthNotPowerOfTwo);
            },
        };
        output.clear();
        let half = n / 2;
        let mut i: usize = 0;
        while i < half + 1
            invariant
                i <= half + 1,
                half == input@.len() / 2,
                n == input@.len(),
                2 <= n,
                full@.len() == n,
                cpxs(full@) == spec_fft(real_to_cpx(input@), Direction::FORWARD),
                output@.len() == i,
                forall|j: int| 0 <= j < i ==> cpxs(output@)[j] == cpxs(full@)[j],
            decreases half + 1 - i,
        {
            let ghost pre = output@;
            output.push(full[i]);
            proof {
                assert forall|j: int| 0 <= j < i + 1 implies cpxs(output@)[j] == cpxs(full@)[j] by {
                    if j < i {
                        assert(output@[j] == pre[j]);
                        assert(cpxs(pre)[j] == pre[j]@);
                    }
                }
            }
            i = i + 1;
        }
        proof {
            assert(cpxs(output@) =~= spec_real_spectrum(input@));
        }
        Ok(())
    }
}

} // verus!
