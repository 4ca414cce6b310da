//! From-scratch power-of-two FFT over fixed-point complex values.
//!
//! The transform is specified by [`spec_fft`], a recursive
//! decimation-in-time definition over unbounded integers: split the input
//! into even- and odd-indexed subsequences, transform each, and combine with
//! the twiddle factor for the current length. The executable transform is
//! proved to return exactly that sequence, so identical input and direction
//! always give bit-identical output.
//!
//! Twiddle factors are the Q30 unit roots `exp(∓2πi/N)` (negative angle
//! forward, positive backward), tabulated for every supported power of two.
//! Each tabulated root has squared norm at most `FRAC_ONE²`, which is what
//! keeps every intermediate value inside the proved magnitude bound
//! [`fft_bound`].
//!
//! The combine stage writes each recursion level into fresh half-size
//! buffers instead of overwriting the input in place with a reduced
//! scratch area: the in-place scheme is aliasing-prone, and the extra
//! memory buys a proof that follows the specification line by line.

use vstd::prelude::*;

verus! {

use crate::complex::{
    cadd, cmul, cpxs, csub, in_bound, in_bounds_seq, lemma_cmul_in_bound, lemma_cmul_norm2,
    lemma_norm2_in_bound, norm2, spec_cadd, spec_cmul, spec_csub, tdiv, Cpx, FRAC_ONE,
};

/// Direction of a transform. The backward transform is unnormalized; callers
/// apply [`FFTransformer::normalise`] after it.
#[derive(Clone, Copy, PartialEq, Eq, Structural, Debug)]
#[allow(non_camel_case_types)]
pub enum Direction {
    FORWARD,
    BACKWARD,
}

/// A precondition stated by the caller was not met; the violation is
/// reported explicitly rather than silently absorbed.
#[derive(Clone, Copy, PartialEq, Eq, Structural, Debug)]
pub enum ContractViolation {
    /// The length was 0, 1 or not a power of two.
    LengthNotPowerOfTwo,
    /// The length was a power of two above the supported maximum of 65536.
    LengthTooLarge,
}

/// Largest supported transform length.
pub const MAX_FFT_LEN: usize = 65536;

/// Componentwise magnitude bound assumed of transform inputs: `2^31`, which
/// admits every `i32` sample and every Q30 value up to twice the unit.
pub const SAMPLE_BOUND: i64 = 0x8000_0000;

/// `n` is a power of two (so at least 1).
pub open spec fn is_pow2(n: nat) -> bool
    decreases n,
{
    if n == 0 {
        false
    } else if n == 1 {
        true
    } else {
        n % 2 == 0 && is_pow2(n / 2)
    }
}

/// The even-indexed elements of `s`.
pub open spec fn evens(s: Seq<(int, int)>) -> Seq<(int, int)> {
    Seq::new(s.len() / 2, |i: int| s[2 * i])
}

/// The odd-indexed elements of `s`.
pub open spec fn odds(s: Seq<(int, int)>) -> Seq<(int, int)> {
    Seq::new(s.len() / 2, |i: int| s[2 * i + 1])
}

/// `n` elements of `s` starting at `start`, `step` indices apart.
pub open spec fn stride(s: Seq<(int, int)>, start: int, step: int, n: nat) -> Seq<(int, int)> {
    Seq::new(n, |i: int| s[start + i * step])
}

/// The Q30 point `(cos(2π/n), sin(2π/n))` for each supported power of two
/// `n`, rounded toward zero so its squared norm never exceeds `FRAC_ONE²`.
pub open spec fn spec_unit_root(n: int) -> (int, int) {
    if n == 2 {
        (-1073741824, 0)
    } else if n == 4 {
        (0, 1073741824)
    } else if n == 8 {
        (759250124, 759250124)
    } else if n == 16 {
        (992008094, 410903206)
    } else if n == 32 {
        (1053110175, 209476638)
    } else if n == 64 {
        (1068571463, 105245103)
    } else if n == 128 {
        (1072448454, 52686014)
    } else if n == 256 {
        (1073418433, 26350943)
    } else if n == 512 {
        (1073660973, 13176463)
    } else if n == 1024 {
        (1073721611, 6588355)
    } else if n == 2048 {
        (1073736770, 3294193)
    } else if n == 4096 {
        (1073740560, 1647098)
    } else if n == 8192 {
        (1073741508, 823549)
    } else if n == 16384 {
        (1073741745, 411774)
    } else if n == 32768 {
        (1073741804, 205887)
    } else if n == 65536 {
        (1073741819, 102943)
    } else {
        (1073741824, 0)
    }
}

/// The twiddle factor `exp(∓2πi/n)`: the unit root with its imaginary part
/// negated for the forward direction.
pub open spec fn spec_twiddle(n: int, dir: Direction) -> (int, int) {
    let u = spec_unit_root(n);
    match dir {
        Direction::FORWARD => (u.0, -u.1),
        Direction::BACKWARD => (u.0, u.1),
    }
}

/// The `k`-th power of the twiddle factor `w`, accumulated exactly as the
/// executable combine loop does: by repeated rescaled multiplication.
pub open spec fn wpow(w: (int, int), k: nat) -> (int, int)
    decreases k,
{
    if k == 0 {
        (FRAC_ONE as int, 0)
    } else {
        spec_cmul(wpow(w, (k - 1) as nat), w)
    }
}

/// The recursive decimation-in-time transform: the exact value, including
/// the fixed-point rounding of every butterfly, of transforming `s`.
pub open spec fn spec_fft(s: Seq<(int, int)>, dir: Direction) -> Seq<(int, int)>
    decreases s.len(),
{
    if s.len() < 2 {
        s
    } else {
        let w = spec_twiddle(s.len() as int, dir);
        let e = spec_fft(evens(s), dir);
        let o = spec_fft(odds(s), dir);
        let half = s.len() / 2;
        Seq::new(
            s.len(),
            |k: int|
                if k < half {
                    spec_cadd(e[k], spec_cmul(o[k], wpow(w, k as nat)))
                } else {
                    spec_csub(e[k - half], spec_cmul(o[k - half], wpow(w, (k - half) as nat)))
                },
        )
    }
}

/// Componentwise magnitude bound on the output of a transform of length `n`
/// whose input is bounded by [`SAMPLE_BOUND`]: each combine level at most
/// triples the bound.
pub open spec fn fft_bound(n: nat) -> int
    decreases n,
{
    if n < 2 {
        SAMPLE_BOUND as int
    } else {
        3 * fft_bound(n / 2)
    }
}

pub proof fn lemma_fft_bound_pos(n: nat)
    ensures
        fft_bound(n) >= SAMPLE_BOUND as int,
    decreases n,
{
    if n >= 2 {
        lemma_fft_bound_pos(n / 2);
    }
}

pub proof fn lemma_fft_bound_mono(n: nat, m: nat)
    requires
        n <= m,
    ensures
        fft_bound(n) <= fft_bound(m),
    decreases m,
{
    if n < 2 {
        lemma_fft_bound_pos(m);
    } else {
        lemma_fft_bound_mono(n / 2, m / 2);
    }
}

/// The bound for the largest supported length still leaves headroom in
/// `i64`: `3^16 * 2^31 < 2^61`.
pub proof fn lemma_fft_bound_max()
    ensures
        fft_bound(MAX_FFT_LEN as nat) <= 0x2000_0000_0000_0000,
{
    assert(fft_bound(1nat) == 0x8000_0000);
    assert(fft_bound(2nat) == 3 * fft_bound(1nat));
    assert(fft_bound(4nat) == 3 * fft_bound(2nat));
    assert(fft_bound(8nat) == 3 * fft_bound(4nat));
    assert(fft_bound(16nat) == 3 * fft_bound(8nat));
    assert(fft_bound(32nat) == 3 * fft_bound(16nat));
    assert(fft_bound(64nat) == 3 * fft_bound(32nat));
    assert(fft_bound(128nat) == 3 * fft_bound(64nat));
    assert(fft_bound(256nat) == 3 * fft_bound(128nat));
    assert(fft_bound(512nat) == 3 * fft_bound(256nat));
    assert(fft_bound(1024nat) == 3 * fft_bound(512nat));
    assert(fft_bound(2048nat) == 3 * fft_bound(1024nat));
    assert(fft_bound(4096nat) == 3 * fft_bound(2048nat));
    assert(fft_bound(8192nat) == 3 * fft_bound(4096nat));
    assert(fft_bound(16384nat) == 3 * fft_bound(8192nat));
    assert(fft_bound(32768nat) == 3 * fft_bound(16384nat));
    assert(fft_bound(65536nat) == 3 * fft_bound(32768nat));
}

/// Every tabulated unit root, and hence every twiddle factor, has squared
/// norm at most `FRAC_ONE²`.
pub proof fn lemma_twiddle_norm(n: int, dir: Direction)
    ensures
        norm2(spec_twiddle(n, dir)) <= (FRAC_ONE as int) * (FRAC_ONE as int),
        in_bound(spec_twiddle(n, dir), FRAC_ONE as int),
{
    let u = spec_unit_root(n);
    assert(norm2(u) <= (FRAC_ONE as int) * (FRAC_ONE as int));
    assert((-u.1) * (-u.1) == u.1 * u.1) by (nonlinear_arith);
    lemma_norm2_in_bound(spec_twiddle(n, dir), FRAC_ONE as int);
}

/// Splitting a strided view into its even and odd halves doubles the step.
pub proof fn lemma_stride_split(s: Seq<(int, int)>, start: int, step: int, n: nat)
    requires
        n % 2 == 0,
    ensures
        evens(stride(s, start, step, n)) == stride(s, start, 2 * step, n / 2),
        odds(stride(s, start, step, n)) == stride(s, start + step, 2 * step, n / 2),
{
    let t = stride(s, start, step, n);
    assert forall|i: int| 0 <= i < n / 2 implies evens(t)[i] == stride(s, start, 2 * step, n / 2)[i] by {
        assert((2 * i) * step == i * (2 * step)) by (nonlinear_arith);
    }
    assert(evens(t) =~= stride(s, start, 2 * step, n / 2));
    assert forall|i: int| 0 <= i < n / 2 implies odds(t)[i] == stride(s, start + step, 2 * step, n / 2)[i] by {
        assert((2 * i + 1) * step == i * (2 * step) + step) by (nonlinear_arith);
    }
    assert(odds(t) =~= stride(s, start + step, 2 * step, n / 2));
}

/// A stride over the whole sequence is the sequence itself.
pub proof fn lemma_stride_id(s: Seq<(int, int)>)
    ensures
        stride(s, 0, 1, s.len()) == s,
{
    assert forall|i: int| 0 <= i < s.len() implies stride(s, 0, 1, s.len())[i] == s[i] by {
        assert(0 + i * 1 == i);
    }
    assert(stride(s, 0, 1, s.len()) =~= s);
}

/// Whether `n` is a power of two, decided by repeated halving.
pub fn check_pow2(n: usize) -> (r: bool)
    ensures
        r == is_pow2(n as nat),
{
    if n == 0 {
        return false;
    }
    let mut m = n;
    while m % 2 == 0
        invariant
            1 <= m <= n,
            is_pow2(n as nat) == is_pow2(m as nat),
        decreases m,
    {
        m = m / 2;
    }
    m == 1
}

/// The tabulated Q30 unit root for length `n`.
fn unit_root(n: usize) -> (r: Cpx)
    ensures
        r@ == spec_unit_root(n as int),
{
    if n == 2 {
        Cpx { re: -1073741824, im: 0 }
    } else if n == 4 {
        Cpx { re: 0, im: 1073741824 }
    } else if n == 8 {
        Cpx { re: 759250124, im: 759250124 }
    } else if n == 16 {
        Cpx { re: 992008094, im: 410903206 }
    } else if n == 32 {
        Cpx { re: 1053110175, im: 209476638 }
    } else if n == 64 {
        Cpx { re: 1068571463, im: 105245103 }
    } else if n == 128 {
        Cpx { re: 1072448454, im: 52686014 }
    } else if n == 256 {
        Cpx { re: 1073418433, im: 26350943 }
    } else if n == 512 {
        Cpx { re: 1073660973, im: 13176463 }
    } else if n == 1024 {
        Cpx { re: 1073721611, im: 6588355 }
    } else if n == 2048 {
        Cpx { re: 1073736770, im: 3294193 }
    } else if n == 4096 {
        Cpx { re: 1073740560, im: 1647098 }
    } else if n == 8192 {
        Cpx { re: 1073741508, im: 823549 }
    } else if n == 16384 {
        Cpx { re: 1073741745, im: 411774 }
    } else if n == 32768 {
        Cpx { re: 1073741804, im: 205887 }
    } else if n == 65536 {
        Cpx { re: 1073741819, im: 102943 }
    } else {
        Cpx { re: 1073741824, im: 0 }
    }
}

/// The twiddle factor for length `n` in direction `dir`.
fn twiddle(n: usize, dir: Direction) -> (r: Cpx)
    ensures
        r@ == spec_twiddle(n as int, dir),
{
    let u = unit_root(n);
    proof {
        lemma_twiddle_norm(n as int, Direction::BACKWARD);
        lemma_twiddle_norm(n as int, Direction::FORWARD);
    }
    match dir {
        Direction::FORWARD => Cpx { re: u.re, im: -u.im },
        Direction::BACKWARD => u,
    }
}

/// Transform the `n` elements of `xs` found at `start`, `start + step`,
/// `start + 2*step`, ..., returning exactly the sequence that [`spec_fft`]
/// assigns to that strided view.
fn fft_rec(xs: &Vec<Cpx>, start: usize, step: usize, n: usize, dir: Direction) -> (r: Vec<Cpx>)
    requires
        is_pow2(n as nat),
        1 <= step,
        n * step <= MAX_FFT_LEN,
        start + (n - 1) * step < xs@.len(),
        in_bounds_seq(cpxs(xs@), SAMPLE_BOUND as int),
    ensures
        r@.len() == n,
        cpxs(r@) == spec_fft(stride(cpxs(xs@), start as int, step as int, n as nat), dir),
        in_bounds_seq(cpxs(r@), fft_bound(n as nat)),
    decreases n,
{
    let ghost gs = stride(cpxs(xs@), start as int, step as int, n as nat);
    let xs_len = xs.len();
    if n == 1 {
        let mut r: Vec<Cpx> = Vec::new();
        r.push(xs[start]);
        proof {
            assert(start as int + 0 * (step as int) == start as int);
            assert(gs[0] == cpxs(xs@)[start as int]);
            assert(cpxs(r@) =~= gs);
        }
        return r;
    }
    proof {
        assert(n >= 2);
        assert(2 * step <= n * step) by (nonlinear_arith)
            requires
                n >= 2,
                step >= 1,
        ;
        assert(step <= (n - 1) * step) by (nonlinear_arith)
            requires
                n >= 2,
                step >= 1,
        ;
    }
    let half = n / 2;
    let step2 = step * 2;
    proof {
        assert(half * step2 == n * step) by (nonlinear_arith)
            requires
                half == n / 2,
                step2 == 2 * step,
                n % 2 == 0,
        ;
        assert((half - 1) * step2 <= (n - 1) * step) by (nonlinear_arith)
            requires
                half == n / 2,
                step2 == 2 * step,
                n % 2 == 0,
                n >= 2,
                step >= 1,
        ;
        assert(step + (half - 1) * step2 == (n - 1) * step) by (nonlinear_arith)
            requires
                half == n / 2,
                step2 == 2 * step,
                n % 2 == 0,
        ;
    }
    let e = fft_rec(xs, start, step2, half, dir);
    let o = fft_rec(xs, start + step, step2, half, dir);
    proof {
        lemma_stride_split(cpxs(xs@), start as int, step as int, n as nat);
    }
    let ghost ge = spec_fft(evens(gs), dir);
    let ghost go = spec_fft(odds(gs), dir);
    let ghost gw = spec_twiddle(n as int, dir);
    let ghost hb = fft_bound(half as nat);
    proof {
        lemma_fft_bound_pos(half as nat);
        assert(n <= n * step) by (nonlinear_arith)
            requires
                step >= 1,
                n >= 0,
        ;
        lemma_fft_bound_mono(n as nat, MAX_FFT_LEN as nat);
        lemma_fft_bound_max();
        lemma_twiddle_norm(n as int, dir);
    }
    let w = twiddle(n, dir);
    let mut lo: Vec<Cpx> = Vec::with_capacity(half);
    let mut hi: Vec<Cpx> = Vec::with_capacity(half);
    let mut cur = Cpx { re: FRAC_ONE, im: 0 };
    let mut k: usize = 0;
    while k < half
        invariant
            k <= half,
            half == n / 2,
            n % 2 == 0,
            2 <= n,
            e@.len() == half,
            o@.len() == half,
            cpxs(e@) == ge,
            cpxs(o@) == go,
            in_bounds_seq(ge, hb),
            in_bounds_seq(go, hb),
            hb == fft_bound(half as nat),
            fft_bound(n as nat) == 3 * hb,
            SAMPLE_BOUND <= hb,
            3 * hb <= 0x2000_0000_0000_0000,
            w@ == gw,
            norm2(gw) <= (FRAC_ONE as int) * (FRAC_ONE as int),
            cur@ == wpow(gw, k as nat),
            norm2(cur@) <= (FRAC_ONE as int) * (FRAC_ONE as int),
            lo@.len() == k,
            hi@.len() == k,
            forall|j: int|
                0 <= j < k ==> cpxs(lo@)[j] == spec_cadd(ge[j], spec_cmul(go[j], wpow(gw, j as nat))),
            forall|j: int|
                0 <= j < k ==> cpxs(hi@)[j] == spec_csub(ge[j], spec_cmul(go[j], wpow(gw, j as nat))),
            in_bounds_seq(cpxs(lo@), 3 * hb),
            in_bounds_seq(cpxs(hi@), 3 * hb),
        decreases half - k,
    {
        proof {
            lemma_norm2_in_bound(cur@, FRAC_ONE as int);
            lemma_norm2_in_bound(gw, FRAC_ONE as int);
            assert(cpxs(o@)[k as int] == go[k as int]);
            assert(in_bound(go[k as int], hb));
            lemma_cmul_in_bound(go[k as int], cur@, hb);
            assert(cpxs(e@)[k as int] == ge[k as int]);
            assert(in_bound(ge[k as int], hb));
        }
        let t = cmul(o[k], cur);
        let x = cadd(e[k], t);
        let y = csub(e[k], t);
        let ghost lo_pre = lo@;
        let ghost hi_pre = hi@;
        lo.push(x);
        hi.push(y);
        proof {
            lemma_cmul_norm2(cur@, gw);
            assert(x@ == spec_cadd(ge[k as int], spec_cmul(go[k as int], wpow(gw, k as nat))));
            assert(y@ == spec_csub(ge[k as int], spec_cmul(go[k as int], wpow(gw, k as nat))));
            assert forall|j: int| 0 <= j < k + 1 implies cpxs(lo@)[j] == spec_cadd(
                ge[j],
                spec_cmul(go[j], wpow(gw, j as nat)),
            ) && cpxs(hi@)[j] == spec_csub(ge[j], spec_cmul(go[j], wpow(gw, j as nat)))
                && in_bound(cpxs(lo@)[j], 3 * hb) && in_bound(cpxs(hi@)[j], 3 * hb) by {
                if j < k {
                    assert(lo@[j] == lo_pre[j]);
                    assert(hi@[j] == hi_pre[j]);
                    assert(cpxs(lo_pre)[j] == lo_pre[j]@);
                    assert(cpxs(hi_pre)[j] == hi_pre[j]@);
                    assert(in_bound(cpxs(lo_pre)[j], 3 * hb));
                    assert(in_bound(cpxs(hi_pre)[j], 3 * hb));
                } else {
                    assert(lo@[j] == x);
                    assert(hi@[j] == y);
                }
            }
        }
        cur = cmul(cur, w);
        proof {
            assert(cur@ == spec_cmul(wpow(gw, k as nat), gw));
            assert(cur@ == wpow(gw, (k + 1) as nat));
        }
        k = k + 1;
    }
    let ghost lo_s = lo@;
    let ghost hi_s = hi@;
    let mut r = lo;
    r.append(&mut hi);
    proof {
        let res = spec_fft(gs, dir);
        assert(gs.len() == n);
        assert(gs.len() >= 2);
        assert(res == Seq::new(
            gs.len(),
            |k: int|
                if k < gs.len() / 2 {
                    spec_cadd(ge[k], spec_cmul(go[k], wpow(gw, k as nat)))
                } else {
                    spec_csub(
                        ge[k - gs.len() / 2],
                        spec_cmul(go[k - gs.len() / 2], wpow(gw, (k - gs.len() / 2) as nat)),
                    )
                },
        ));
        assert forall|j: int| 0 <= j < n implies cpxs(r@)[j] == res[j] && in_bound(
            #[trigger] cpxs(r@)[j],
            fft_bound(n as nat),
        ) by {
            if j < half {
                assert(r@[j] == lo_s[j]);
                assert(cpxs(r@)[j] == cpxs(lo_s)[j]);
            } else {
                assert(r@[j] == hi_s[j - half]);
                assert(cpxs(r@)[j] == cpxs(hi_s)[j - half]);
            }
        }
        assert(cpxs(r@) =~= res);
    }
    r
}

/// Performs transforms; the transform itself is stateless, the struct is the
/// capability callers hold.
pub struct FFTransformer {}

impl FFTransformer {
    /// Creates a new FFTransformer.
    pub fn new() -> (r: FFTransformer) {
        FFTransformer {  }
    }

    /// Transforms `xs` in the direction `dir`. Every input component must
    /// lie within [`SAMPLE_BOUND`], which rules out overflow throughout.
    ///
    /// Succeeds exactly when the length is a power of two between 2 and
    /// [`MAX_FFT_LEN`]; the result is then exactly [`spec_fft`] of the
    /// input — a given input and direction always yield bit-identical
    /// output. A violating length is reported as an explicit error and the
    /// input is left untouched.
    pub fn fft(&self, xs: &Vec<Cpx>, dir: Direction) -> (r: Result<Vec<Cpx>, ContractViolation>)
        requires
            in_bounds_seq(cpxs(xs@), SAMPLE_BOUND as int),
        ensures
            match r {
                Ok(v) => {
                    &&& 2 <= xs@.len() <= MAX_FFT_LEN
                    &&& is_pow2(xs@.len() as nat)
                    &&& v@.len() == xs@.len()
                    &&& cpxs(v@) == spec_fft(cpxs(xs@), dir)
                    &&& in_bounds_seq(cpxs(v@), fft_bound(xs@.len() as nat))
                },
                Err(e) => {
                    &&& !(2 <= xs@.len() <= MAX_FFT_LEN && is_pow2(xs@.len() as nat))
                    &&& e == (if xs@.len() <= 1 || !is_pow2(xs@.len() as nat) {
                        ContractViolation::LengthNotPowerOfTwo
                    } else {
                        ContractViolation::LengthTooLarge
                    })
                },
            },
    {
        let n = xs.len();
        if n <= 1 || !check_pow2(n) {
            return Err(ContractViolation::LengthNotPowerOfTwo);
        }
        if n > MAX_FFT_LEN {
            return Err(ContractViolation::LengthTooLarge);
        }
        let r = fft_rec(xs, 0, 1, n, dir);
        proof {
            lemma_stride_id(cpxs(xs@));
        }
        Ok(r)
    }

    /// Divides every element of `xs` by the length, truncating toward zero;
    /// the caller invokes this after a backward transform.
    pub fn normalise(xs: &mut Vec<Cpx>)
        ensures
            final(xs)@.len() == old(xs)@.len(),
            forall|i: int|
                0 <= i < old(xs)@.len() ==> cpxs(final(xs)@)[i] == (
                    tdiv(old(xs)@[i].re as int, old(xs)@.len() as int),
                    tdiv(old(xs)@[i].im as int, old(xs)@.len() as int),
                ),
    {
        let len = xs.len();
        if len == 0 {
            return ;
        }
        let m = len as i128;
        let mut i: usize = 0;
        while i < len
            invariant
                i <= len,
                len == xs@.len(),
                len >= 1,
                m == len as i128,
                forall|j: int| i <= j < len ==> xs@[j] == old(xs)@[j],
                forall|j: int|
                    0 <= j < i ==> cpxs(xs@)[j] == (
                        tdiv(old(xs)@[j].re as int, len as int),
                        tdiv(old(xs)@[j].im as int, len as int),
                    ),
            decreases len - i,
        {
            let ghost pre = xs@;
            proof {
                assert(xs@[i as int] == old(xs)@[i as int]);
            }
            let c = xs[i];
            let nre = tdiv_wide(c.re as i128, m);
            let nim = tdiv_wide(c.im as i128, m);
            xs[i] = Cpx { re: nre as i64, im: nim as i64 };
            proof {
                assert forall|j: int| 0 <= j < i + 1 implies cpxs(xs@)[j] == (
                    tdiv(old(xs)@[j].re as int, len as int),
                    tdiv(old(xs)@[j].im as int, len as int),
                ) by {
                    if j < i {
                        assert(xs@[j] == pre[j]);
                        assert(cpxs(pre)[j] == pre[j]@);
                    }
                }
            }
            i = i + 1;
        }
    }
}

/// Truncating division of a double-width value by a positive divisor; the
/// magnitude never grows.
fn tdiv_wide(a: i128, m: i128) -> (r: i128)
    requires
        m >= 1,
        i128::MIN < a,
    ensures
        r == tdiv(a as int, m as int),
        0 <= a ==> 0 <= r <= a,
        a < 0 ==> a <= r <= 0,
{
    if a >= 0 {
        proof {
            vstd::arithmetic::div_mod::lemma_div_basics_4(a as int, m as int);
            vstd::arithmetic::div_mod::lemma_div_basics_5(a as int, m as int);
        }
        a / m
    } else {
        proof {
            vstd::arithmetic::div_mod::lemma_div_basics_4(-a as int, m as int);
            vstd::arithmetic::div_mod::lemma_div_basics_5(-a as int, m as int);
        }
        -((-a) / m)
    }
}

} // verus!
