//! Sliding spectrum engine: aligns wall-clock time to a sample window,
//! discards stale samples and recomputes the spectrum in place.
//!
//! Every call of [`SlidingDft::update`] runs the same algorithm:
//!
//! 1. take the latest latency estimate; none yet — do nothing;
//! 2. the window ends one maximum latency before `now` and starts one
//!    window duration earlier (both saturating at zero);
//! 3. if the window end lies after the last recorded instant the producer
//!    is behind schedule (starvation) — do nothing;
//! 4. compute [`spec_window_start_sample`]: the recorded count minus the
//!    rounded number of samples between window start and the recorded
//!    instant, clamped at zero;
//! 5. discard exactly that many samples and reduce the recorded count by
//!    the same amount;
//! 6. if fewer than a full window of samples remains — leave the spectrum
//!    untouched;
//! 7. otherwise read one window without copying the buffer and write its
//!    half spectrum into the owned spectrum buffer.
//!
//! Every branch but step 7 is a benign no-op, so the engine tolerates any
//! call cadence; a transient shortage is never an error.

use vstd::prelude::*;

verus! {

use crate::complex::{cpxs, Cpx};
use crate::fft::{check_pow2, is_pow2, ContractViolation, MAX_FFT_LEN};
use crate::source::SrcInfo;
use crate::spectrum::{spec_real_spectrum, RealSpectrumPlanner};

/// `a - b`, saturating at zero.
pub open spec fn spec_sat_sub(a: int, b: int) -> int {
    if a >= b {
        a - b
    } else {
        0
    }
}

/// The window size in samples: `window_duration × sample_rate`, rounded to
/// the nearest integer (half up), with the duration given in nanoseconds.
pub open spec fn spec_window_size(sample_rate: u32, window_duration_nanos: u64) -> int {
    (sample_rate * window_duration_nanos + 500_000_000) / 1_000_000_000
}

/// How many of the oldest unread samples lie before the current window:
/// the recorded count minus the rounded number of samples between the
/// window start instant and the recorded instant, saturating at zero — if
/// the subtraction would underflow, the whole available history is the
/// window.
pub open spec fn spec_window_start_sample(
    count: int,
    instant: u64,
    max_latency: u64,
    window_duration_nanos: u64,
    sample_rate: u32,
    now: u64,
) -> int {
    let window_end = spec_sat_sub(now as int, max_latency as int);
    let window_start = spec_sat_sub(window_end, window_duration_nanos as int);
    let elapsed = spec_sat_sub(instant as int, window_start);
    let back = (elapsed * sample_rate + 500_000_000) / 1_000_000_000;
    spec_sat_sub(count, back)
}

/// Law: window selection is idempotent. After one selection has discarded
/// `w` samples and reduced the recorded count by `w`, selecting again at
/// the same clock reading asks for zero further samples — so a repeated
/// `update` with no intervening delivery recomputes, at most, exactly the
/// same window.
pub proof fn lemma_window_selection_idempotent(
    count: int,
    instant: u64,
    max_latency: u64,
    window_duration_nanos: u64,
    sample_rate: u32,
    now: u64,
)
    requires
        0 <= count,
    ensures
        ({
            let w = spec_window_start_sample(
                count,
                instant,
                max_latency,
                window_duration_nanos,
                sample_rate,
                now,
            );
            spec_window_start_sample(
                count - w,
                instant,
                max_latency,
                window_duration_nanos,
                sample_rate,
                now,
            ) == 0
        }),
{
}

/// Law: starvation is a no-op. While no latency estimate exists — nothing
/// delivered yet, or only once — or while the producer is behind schedule,
/// an update leaves the engine — and so its spectrum — and the source
/// exactly as they were; calling again changes nothing either, however
/// often it is repeated.
pub proof fn lemma_starvation_never_mutates(
    pre: SlidingDft,
    pre_src: SrcInfo,
    now: u64,
    post: SlidingDft,
    post_src: SrcInfo,
)
    requires
        spec_update(pre, pre_src, now, post, post_src),
        match (pre_src.recorded(), pre_src.gap()) {
            (Some((c, t)), Some(l)) => spec_sat_sub(now as int, l as int) > t,
            _ => true,
        },
    ensures
        post == pre,
        post_src == pre_src,
{
}

/// Law: a second update at the same clock reading, with no delivery in
/// between, leaves the spectrum bit-identical and the source state
/// unchanged — the second window selection discards nothing, so at most
/// the very same window is recomputed, and recomputation is
/// deterministic.
pub proof fn lemma_repeat_update_identical(
    pre: SlidingDft,
    src0: SrcInfo,
    now: u64,
    mid: SlidingDft,
    src1: SrcInfo,
    post: SlidingDft,
    src2: SrcInfo,
)
    requires
        spec_update(pre, src0, now, mid, src1),
        spec_update(mid, src1, now, post, src2),
    ensures
        post.spectrum() == mid.spectrum(),
        src2.buf() == src1.buf(),
        src2.recorded() == src1.recorded(),
        src2.gap() == src1.gap(),
        src2.cap() == src1.cap(),
{
    match (src0.recorded(), src0.gap()) {
        (Some((c, t)), Some(l)) => {
            if spec_sat_sub(now as int, l as int) > t as int {
                // Starved on the first call, so starved on the second too.
            } else {
                let w = spec_window_start_sample(
                    c as int,
                    t,
                    l,
                    pre.window_duration_spec(),
                    pre.sample_rate_spec(),
                    now,
                );
                lemma_window_selection_idempotent(
                    c as int,
                    t,
                    l,
                    pre.window_duration_spec(),
                    pre.sample_rate_spec(),
                    now,
                );
                let remaining = src0.buf().skip(w);
                assert(remaining.skip(0) =~= remaining);
                if remaining.len() < pre.window_size_spec() {
                    assert(post == mid);
                } else {
                    // The second call recomputes the same window.
                    assert(mid.window_duration_spec() == pre.window_duration_spec());
                }
            }
        },
        _ => {
        },
    }
}

/// Computes [`spec_window_start_sample`] exactly; the result never exceeds
/// `count`.
pub fn window_start_sample(
    count: usize,
    instant: u64,
    max_latency: u64,
    window_duration_nanos: u64,
    sample_rate: u32,
    now: u64,
) -> (r: usize)
    ensures
        r == spec_window_start_sample(
            count as int,
            instant,
            max_latency,
            window_duration_nanos,
            sample_rate,
            now,
        ),
        r <= count,
{
    let window_end = if now >= max_latency {
        now - max_latency
    } else {
        0
    };
    let window_start = if window_end >= window_duration_nanos {
        window_end - window_duration_nanos
    } else {
        0
    };
    let elapsed: u128 = if instant >= window_start {
        (instant - window_start) as u128
    } else {
        0
    };
    proof {
        assert(elapsed * (sample_rate as u128) <= 0xffff_ffff_ffff_ffff * 0xffff_ffffu128)
            by (nonlinear_arith)
            requires
                0 <= elapsed <= 0xffff_ffff_ffff_ffffu128,
                0 <= sample_rate as u128 <= 0xffff_ffffu128,
        ;
    }
    let back: u128 = (elapsed * (sample_rate as u128) + 500_000_000) / 1_000_000_000;
    if back >= count as u128 {
        0
    } else {
        count - (back as usize)
    }
}

/// What one [`SlidingDft::update`] call does: the relation between the
/// engine and source states before (`pre`, `pre_src`) and after (`post`,
/// `post_src`) a call at clock reading `now`.
pub open spec fn spec_update(
    pre: SlidingDft,
    pre_src: SrcInfo,
    now: u64,
    post: SlidingDft,
    post_src: SrcInfo,
) -> bool {
    match (pre_src.recorded(), pre_src.gap()) {
        (Some((c, t)), Some(l)) => if spec_sat_sub(now as int, l as int) > t as int {
            // Starvation: the producer is behind schedule; try again later.
            post == pre && post_src == pre_src
        } else {
            let w = spec_window_start_sample(
                c as int,
                t,
                l,
                pre.window_duration_spec(),
                pre.sample_rate_spec(),
                now,
            );
            let remaining = pre_src.buf().skip(w);
            &&& post_src.buf() == remaining
            &&& post_src.cap() == pre_src.cap()
            &&& post_src.recorded() == Some(((c - w) as usize, t))
            &&& post_src.gap() == Some(l)
            &&& if remaining.len() < pre.window_size_spec() {
                post == pre
            } else {
                &&& post.spectrum() == spec_real_spectrum(
                    remaining.take(pre.window_size_spec()),
                )
                &&& post.window_size_spec() == pre.window_size_spec()
                &&& post.sample_rate_spec() == pre.sample_rate_spec()
                &&& post.window_duration_spec() == pre.window_duration_spec()
            }
        },
        _ => post == pre && post_src == pre_src,
    }
}

/// The orchestrator: owns the output spectrum, the window parameters and
/// the cached transform plan.
pub struct SlidingDft {
    fft_planner: RealSpectrumPlanner,
    sliding_dft: Vec<Cpx>,
    window_size: usize,
    window_duration_nanos: u64,
    sample_rate: u32,
}

impl SlidingDft {
    /// The current spectrum: `window_size / 2 + 1` complex bins, bin `k`
    /// standing for frequency `k · sample_rate / window_size`.
    pub closed spec fn spectrum(&self) -> Seq<(int, int)> {
        cpxs(self.sliding_dft@)
    }

    /// The window size in samples.
    pub closed spec fn window_size_spec(&self) -> int {
        self.window_size as int
    }

    /// The sample rate the engine was built for.
    pub closed spec fn sample_rate_spec(&self) -> u32 {
        self.sample_rate
    }

    /// The window duration in nanoseconds the engine was built for.
    pub closed spec fn window_duration_spec(&self) -> u64 {
        self.window_duration_nanos
    }

    /// The window size is a supported power of two, the sample rate is
    /// positive, and the spectrum buffer holds one half spectrum.
    pub closed spec fn wf(&self) -> bool {
        &&& is_pow2(self.window_size as nat)
        &&& 2 <= self.window_size <= MAX_FFT_LEN
        &&& self.sliding_dft@.len() == self.window_size / 2 + 1
        &&& 1 <= self.sample_rate
    }

    /// Creates an engine for the given sample rate and window duration.
    ///
    /// The window size is `sample_rate × window_duration`, rounded; it must
    /// come out a supported power of two greater than 1, otherwise the
    /// contract violation is reported explicitly. The spectrum starts as
    /// `window_size / 2 + 1` zero bins and is only ever rewritten whole.
    pub fn new(sample_rate: u32, window_duration_nanos: u64) -> (r: Result<
        SlidingDft,
        ContractViolation,
    >)
        requires
            1 <= sample_rate,
        ensures
            ({
                let n = spec_window_size(sample_rate, window_duration_nanos);
                match r {
                    Ok(d) => {
                        &&& 2 <= n <= MAX_FFT_LEN
                        &&& is_pow2(n as nat)
                        &&& d.wf()
                        &&& d.window_size_spec() == n
                        &&& d.sample_rate_spec() == sample_rate
                        &&& d.window_duration_spec() == window_duration_nanos
                        &&& d.spectrum() =~= Seq::new((n / 2 + 1) as nat, |i: int| (0int, 0int))
                    },
                    Err(e) => {
                        &&& !(2 <= n <= MAX_FFT_LEN && is_pow2(n as nat))
                        &&& e == (if n > MAX_FFT_LEN {
                            ContractViolation::LengthTooLarge
                        } else {
                            ContractViolation::LengthNotPowerOfTwo
                        })
                    },
                }
            }),
    {
        proof {
            assert((sample_rate as u128) * (window_duration_nanos as u128) <= 0xffff_ffffu128
                * 0xffff_ffff_ffff_ffffu128)
                by (nonlinear_arith)
                requires
                    0 <= sample_rate as u128 <= 0xffff_ffffu128,
                    0 <= window_duration_nanos as u128 <= 0xffff_ffff_ffff_ffffu128,
            ;
        }
        let prod: u128 = (sample_rate as u128) * (window_duration_nanos as u128) + 500_000_000;
        let n_wide: u128 = prod / 1_000_000_000;
        if n_wide > MAX_FFT_LEN as u128 {
            return Err(ContractViolation::LengthTooLarge);
        }
        let n = n_wide as usize;
        if n <= 1 || !check_pow2(n) {
            return Err(ContractViolation::LengthNotPowerOfTwo);
        }
        let bins = n / 2 + 1;
        let mut dft: Vec<Cpx> = Vec::with_capacity(bins);
        while dft.len() < bins
            invariant
                dft@.len() <= bins,
                forall|i: int| 0 <= i < dft@.len() ==> cpxs(dft@)[i] == (0int, 0int),
            decreases bins - dft@.len(),
        {
            let ghost pre = dft@;
            dft.push(Cpx { re: 0, im: 0 });
            proof {
                assert forall|i: int| 0 <= i < dft@.len() implies cpxs(dft@)[i] == (0int, 0int) by {
                    if i < pre.len() {
                        assert(dft@[i] == pre[i]);
                        assert(cpxs(pre)[i] == pre[i]@);
                    }
                }
            }
        }
        Ok(
            SlidingDft {
                fft_planner: RealSpectrumPlanner::new(),
                sliding_dft: dft,
                window_size: n,
                window_duration_nanos,
                sample_rate,
            },
        )
    }

    /// The smallest sample buffer capacity the engine expects its source to
    /// provide: two windows.
    pub fn min_buffer_size(&self) -> (r: usize)
        requires
            self.wf(),
        ensures
            r == 2 * self.window_size_spec(),
    {
        self.window_size * 2
    }

    /// Updates the spectrum from the shared source state at clock reading
    /// `now` (nanoseconds), following the algorithm described at the top of
    /// this module; the exact effect is [`spec_update`].
    pub fn update(&mut self, src: &mut SrcInfo, now: u64)
        requires
            old(self).wf(),
            old(src).wf(),
        ensures
            final(self).wf(),
            final(src).wf(),
            spec_update(*old(self), *old(src), now, *final(self), *final(src)),
    {
        let est = src.latency_info.estimate();
        let (count, instant, lat) = match est {
            Some(x) => x,
            None => {
                return ;
            },
        };
        let window_end = if now >= lat {
            now - lat
        } else {
            0
        };
        if window_end > instant {
            // Starvation: latency is longer than expected; return and try
            // again later with better information.
            return ;
        }
        let w = window_start_sample(
            count,
            instant,
            lat,
            self.window_duration_nanos,
            self.sample_rate,
            now,
        );
        src.sample_cons.discard(w);
        src.latency_info.sample_at_instant = Some((count - w, instant));
        if src.sample_cons.len() < self.window_size {
            return ;
        }
        let n = self.window_size;
        let (s1, s2) = src.sample_cons.access();
        let s1_len = s1.len();
        let mut window: Vec<i32> = Vec::with_capacity(n);
        let mut i: usize = 0;
        while i < n
            invariant
                i <= n,
                window@.len() == i,
                s1@ + s2@ == src.sample_cons.contents(),
                s1_len == s1@.len(),
                n <= src.sample_cons.contents().len(),
                forall|j: int| 0 <= j < i ==> window@[j] == src.sample_cons.contents()[j],
            decreases n - i,
        {
            let v = if i < s1_len {
                s1[i]
            } else {
                proof {
                    assert((s1@ + s2@)[i as int] == s2@[i - s1_len]);
                }
                s2[i - s1_len]
            };
            window.push(v);
            i = i + 1;
        }
        proof {
            assert(window@ =~= src.sample_cons.contents().take(n as int));
        }
        match self.fft_planner.process(&window, &mut self.sliding_dft) {
            Ok(()) => {},
            Err(_) => {
                proof {
                    assert(false);
                }
            },
        }
    }

    /// Returns the current spectrum.
    pub fn dft(&self) -> (r: &Vec<Cpx>)
        ensures
            cpxs(r@) == self.spectrum(),
    {
        &self.sliding_dft
    }

    /// The sample rate the engine was built for.
    pub fn sample_rate(&self) -> (r: u32)
        ensures
            r == self.sample_rate_spec(),
    {
        self.sample_rate
    }

    /// The window size in samples.
    pub fn window_size(&self) -> (r: usize)
        ensures
            r == self.window_size_spec(),
    {
        self.window_size
    }
}

} // verus!
