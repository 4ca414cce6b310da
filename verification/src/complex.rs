//! Fixed-point complex arithmetic.
//!
//! A complex value holds two signed Q30 fixed-point components: the real unit
//! is [`FRAC_ONE`]. Multiplication scales the double-width product back by
//! [`FRAC_ONE`] with truncation toward zero ([`tdiv`]), which never increases
//! a magnitude; every operation is specified exactly, so transforms built on
//! these operations are deterministic by construction.

use vstd::prelude::*;

verus! {

/// The fixed-point unit: 2^30. A component `c` represents the real `c / 2^30`.
pub const FRAC_ONE: i64 = 0x4000_0000;

/// A complex value in signed Q30 fixed point.
#[derive(Clone, Copy, PartialEq, Eq, Structural, Debug)]
pub struct Cpx {
    pub re: i64,
    pub im: i64,
}

impl View for Cpx {
    type V = (int, int);

    open spec fn view(&self) -> (int, int) {
        (self.re as int, self.im as int)
    }
}

/// The components of a sequence of complex values, as unbounded integers.
pub open spec fn cpxs(s: Seq<Cpx>) -> Seq<(int, int)> {
    Seq::new(s.len(), |i: int| s[i]@)
}

/// Division truncated toward zero, the rounding used when rescaling products.
pub open spec fn tdiv(a: int, m: int) -> int {
    if a >= 0 {
        a / m
    } else {
        -((-a) / m)
    }
}

/// Complex sum, exact.
pub open spec fn spec_cadd(a: (int, int), b: (int, int)) -> (int, int) {
    (a.0 + b.0, a.1 + b.1)
}

/// Complex difference, exact.
pub open spec fn spec_csub(a: (int, int), b: (int, int)) -> (int, int) {
    (a.0 - b.0, a.1 - b.1)
}

/// Complex product rescaled by [`FRAC_ONE`] with truncation toward zero.
pub open spec fn spec_cmul(a: (int, int), w: (int, int)) -> (int, int) {
    (
        tdiv(a.0 * w.0 - a.1 * w.1, FRAC_ONE as int),
        tdiv(a.0 * w.1 + a.1 * w.0, FRAC_ONE as int),
    )
}

/// Both components of `c` lie in `[-b, b]`.
pub open spec fn in_bound(c: (int, int), b: int) -> bool {
    -b <= c.0 <= b && -b <= c.1 <= b
}

/// Every element of `s` lies in `[-b, b]` componentwise.
pub open spec fn in_bounds_seq(s: Seq<(int, int)>, b: int) -> bool {
    forall|i: int| 0 <= i < s.len() ==> in_bound(#[trigger] s[i], b)
}

/// The squared Euclidean norm of `c`.
pub open spec fn norm2(c: (int, int)) -> int {
    c.0 * c.0 + c.1 * c.1
}

/// Truncating division by a positive divisor never increases a magnitude:
/// from `|a| <= b * m` follows `|tdiv(a, m)| <= b`.
pub proof fn lemma_tdiv_bound(a: int, m: int, b: int)
    requires
        m >= 1,
        b >= 0,
        -(b * m) <= a <= b * m,
    ensures
        -b <= tdiv(a, m) <= b,
{
    assert(b * m == m * b) by (nonlinear_arith);
    assert((m * b) / m == b) by {
        vstd::arithmetic::div_mod::lemma_div_multiples_vanish(b, m);
    }
    if a >= 0 {
        assert(a / m <= (m * b) / m) by {
            vstd::arithmetic::div_mod::lemma_div_is_ordered(a, m * b, m);
        }
        assert(0 <= a / m) by {
            vstd::arithmetic::div_mod::lemma_div_pos_is_pos(a, m);
        }
    } else {
        assert((-a) / m <= (m * b) / m) by {
            vstd::arithmetic::div_mod::lemma_div_is_ordered(-a, m * b, m);
        }
        assert(0 <= (-a) / m) by {
            vstd::arithmetic::div_mod::lemma_div_pos_is_pos(-a, m);
        }
    }
}

/// Componentwise bound through a complex product: a factor whose components
/// are at most [`FRAC_ONE`] at most doubles a componentwise bound.
pub proof fn lemma_cmul_in_bound(a: (int, int), w: (int, int), b: int)
    requires
        b >= 0,
        in_bound(a, b),
        in_bound(w, FRAC_ONE as int),
    ensures
        in_bound(spec_cmul(a, w), 2 * b),
{
    let m = FRAC_ONE as int;
    assert(-(b * m) <= a.0 * w.0 <= b * m && -(b * m) <= a.1 * w.1 <= b * m
        && -(b * m) <= a.0 * w.1 <= b * m && -(b * m) <= a.1 * w.0 <= b * m)
        by (nonlinear_arith)
        requires
            -b <= a.0 <= b,
            -b <= a.1 <= b,
            -m <= w.0 <= m,
            -m <= w.1 <= m,
            b >= 0,
            m >= 1,
    ;
    assert(2 * b * m == (2 * b) * m) by (nonlinear_arith);
    lemma_tdiv_bound(a.0 * w.0 - a.1 * w.1, m, 2 * b);
    lemma_tdiv_bound(a.0 * w.1 + a.1 * w.0, m, 2 * b);
}

/// A squared-norm bound gives a componentwise bound.
pub proof fn lemma_norm2_in_bound(c: (int, int), m: int)
    requires
        m >= 0,
        norm2(c) <= m * m,
    ensures
        in_bound(c, m),
{
    assert(-m <= c.0 <= m && -m <= c.1 <= m) by (nonlinear_arith)
        requires
            c.0 * c.0 + c.1 * c.1 <= m * m,
            m >= 0,
    ;
}

/// The rescaled complex product of two values of squared norm at most
/// `FRAC_ONE^2` again has squared norm at most `FRAC_ONE^2`: truncation
/// toward zero never increases a magnitude, and the exact product of two
/// unit-or-smaller values is unit or smaller.
pub proof fn lemma_cmul_norm2(a: (int, int), w: (int, int))
    requires
        norm2(a) <= (FRAC_ONE as int) * (FRAC_ONE as int),
        norm2(w) <= (FRAC_ONE as int) * (FRAC_ONE as int),
    ensures
        norm2(spec_cmul(a, w)) <= (FRAC_ONE as int) * (FRAC_ONE as int),
{
    let m = FRAC_ONE as int;
    let a0 = a.0;
    let a1 = a.1;
    let w0 = w.0;
    let w1 = w.1;
    let x = a0 * w0 - a1 * w1;
    let y = a0 * w1 + a1 * w0;
    let na = a0 * a0 + a1 * a1;
    let nw = w0 * w0 + w1 * w1;
    assert(a0 * a0 >= 0 && a1 * a1 >= 0 && w0 * w0 >= 0 && w1 * w1 >= 0) by (nonlinear_arith);
    let p = a0 * w0;
    let q = a1 * w1;
    let r = a0 * w1;
    let s = a1 * w0;
    assert(p * q == r * s) by (nonlinear_arith)
        requires
            p == a0 * w0,
            q == a1 * w1,
            r == a0 * w1,
            s == a1 * w0,
    ;
    assert(x * x == p * p - 2 * (p * q) + q * q) by (nonlinear_arith)
        requires
            x == p - q,
    ;
    assert(y * y == r * r + 2 * (r * s) + s * s) by (nonlinear_arith)
        requires
            y == r + s,
    ;
    assert(p * p == (a0 * a0) * (w0 * w0)) by (nonlinear_arith)
        requires
            p == a0 * w0,
    ;
    assert(q * q == (a1 * a1) * (w1 * w1)) by (nonlinear_arith)
        requires
            q == a1 * w1,
    ;
    assert(r * r == (a0 * a0) * (w1 * w1)) by (nonlinear_arith)
        requires
            r == a0 * w1,
    ;
    assert(s * s == (a1 * a1) * (w0 * w0)) by (nonlinear_arith)
        requires
            s == a1 * w0,
    ;
    assert(na * nw == (a0 * a0) * (w0 * w0) + (a0 * a0) * (w1 * w1) + (a1 * a1) * (w0 * w0) + (a1
        * a1) * (w1 * w1)) by (nonlinear_arith)
        requires
            na == a0 * a0 + a1 * a1,
            nw == w0 * w0 + w1 * w1,
    ;
    assert(x * x + y * y == na * nw);
    assert(na * nw <= (m * m) * (m * m)) by (nonlinear_arith)
        requires
            0 <= na <= m * m,
            0 <= nw <= m * m,
    ;
    let qx = tdiv(x, m);
    let qy = tdiv(y, m);
    lemma_tdiv_sq_bound(x, m);
    lemma_tdiv_sq_bound(y, m);
    assert(qx * qx * (m * m) + qy * qy * (m * m) <= x * x + y * y);
    assert(qx * qx + qy * qy <= m * m) by (nonlinear_arith)
        requires
            qx * qx * (m * m) + qy * qy * (m * m) <= (m * m) * (m * m),
            m * m > 0,
    ;
}

/// The square of a magnitude truncated by `m` is at most the square of the
/// original divided by `m^2`.
proof fn lemma_tdiv_sq_bound(x: int, m: int)
    requires
        m >= 1,
    ensures
        tdiv(x, m) * tdiv(x, m) * (m * m) <= x * x,
{
    let ax = if x >= 0 { x } else { -x };
    let q = ax / m;
    vstd::arithmetic::div_mod::lemma_div_pos_is_pos(ax, m);
    vstd::arithmetic::div_mod::lemma_fundamental_div_mod(ax, m);
    vstd::arithmetic::div_mod::lemma_mod_bound(ax, m);
    assert(q * m <= ax);
    assert(q * q * (m * m) <= ax * ax) by (nonlinear_arith)
        requires
            0 <= q,
            0 <= q * m <= ax,
    ;
    assert(tdiv(x, m) == q || tdiv(x, m) == -q);
    assert((-q) * (-q) == q * q) by (nonlinear_arith);
    assert(ax * ax == x * x) by (nonlinear_arith)
        requires
            ax == x || ax == -x,
    ;
}

/// Complex sum; the operands must not overflow componentwise.
pub fn cadd(a: Cpx, b: Cpx) -> (r: Cpx)
    requires
        i64::MIN <= a.re + b.re <= i64::MAX,
        i64::MIN <= a.im + b.im <= i64::MAX,
    ensures
        r@ == spec_cadd(a@, b@),
{
    Cpx { re: a.re + b.re, im: a.im + b.im }
}

/// Complex difference; the operands must not overflow componentwise.
pub fn csub(a: Cpx, b: Cpx) -> (r: Cpx)
    requires
        i64::MIN <= a.re - b.re <= i64::MAX,
        i64::MIN <= a.im - b.im <= i64::MAX,
    ensures
        r@ == spec_csub(a@, b@),
{
    Cpx { re: a.re - b.re, im: a.im - b.im }
}

/// Truncating division of a double-width value by [`FRAC_ONE`].
fn tdiv_frac(a: i128) -> (r: i128)
    requires
        i128::MIN < a,
    ensures
        r == tdiv(a as int, FRAC_ONE as int),
{
    let m = FRAC_ONE as i128;
    if a >= 0 {
        a / m
    } else {
        -((-a) / m)
    }
}

/// Complex product rescaled by [`FRAC_ONE`]; the first factor is bounded by
/// `2^61` and the second by [`FRAC_ONE`] componentwise, so nothing overflows.
pub fn cmul(a: Cpx, w: Cpx) -> (r: Cpx)
    requires
        in_bound(a@, 0x2000_0000_0000_0000),
        in_bound(w@, FRAC_ONE as int),
    ensures
        r@ == spec_cmul(a@, w@),
{
    let ghost b: int = 0x2000_0000_0000_0000;
    let ghost m: int = FRAC_ONE as int;
    proof {
        assert(-(b * m) <= (a.re as int) * (w.re as int) <= b * m
            && -(b * m) <= (a.im as int) * (w.im as int) <= b * m
            && -(b * m) <= (a.re as int) * (w.im as int) <= b * m
            && -(b * m) <= (a.im as int) * (w.re as int) <= b * m)
            by (nonlinear_arith)
            requires
                -b <= a.re as int <= b,
                -b <= a.im as int <= b,
                -m <= w.re as int <= m,
                -m <= w.im as int <= m,
                b >= 0,
                m >= 1,
        ;
        assert(2 * b * m == (2 * b) * m) by (nonlinear_arith);
        lemma_tdiv_bound((a.re as int) * (w.re as int) - (a.im as int) * (w.im as int), m, 2 * b);
        lemma_tdiv_bound((a.re as int) * (w.im as int) + (a.im as int) * (w.re as int), m, 2 * b);
    }
    let xr = (a.re as i128) * (w.re as i128) - (a.im as i128) * (w.im as i128);
    let xi = (a.re as i128) * (w.im as i128) + (a.im as i128) * (w.re as i128);
    let rr = tdiv_frac(xr);
    let ri = tdiv_frac(xi);
    Cpx { re: rr as i64, im: ri as i64 }
}

} // verus!
