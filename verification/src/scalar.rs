//! Fixed-point scalars.
//!
//! A scalar is an `i64` that counts millionths: the real number `x` is held as
//! `x * UNIT`. Sums and differences are exact until they leave the range of
//! `i64`, where they stay at the nearest end of it. Products and quotients are
//! cut towards zero to the nearest millionth.

use vstd::prelude::*;

verus! {

/// The scalar that stands for the real number one.
pub const UNIT: i64 = 1_000_000;

/// The largest magnitude a coordinate of a search space may have.
///
/// Nine scalars of at most this magnitude can be summed without leaving `i64`.
pub const COORD_MAX: i64 = 1_000_000_000_000_000_000;

/// The nearest `i64` to `x`.
pub open spec fn clip(x: int) -> i64 {
    if x > i64::MAX {
        i64::MAX
    } else if x < i64::MIN {
        i64::MIN
    } else {
        x as i64
    }
}

/// `n / UNIT`, cut towards zero.
pub open spec fn descale(n: int) -> int {
    if n >= 0 {
        n / (UNIT as int)
    } else {
        -((-n) / (UNIT as int))
    }
}

/// `n / d`, cut towards zero, for `d != 0`.
pub open spec fn quotient(n: int, d: int) -> int {
    let q = (if n >= 0 { n } else { -n }) / (if d >= 0 { d } else { -d });
    if (n >= 0) == (d >= 0) {
        q
    } else {
        -q
    }
}

/// The saturating sum of two scalars.
pub open spec fn sat_add(a: i64, b: i64) -> i64 {
    clip(a + b)
}

/// The saturating difference of two scalars.
pub open spec fn sat_sub(a: i64, b: i64) -> i64 {
    clip(a - b)
}

/// The fixed-point product of two scalars.
pub open spec fn fx_mul(a: i64, b: i64) -> i64 {
    clip(descale(a * b))
}

/// The fixed-point quotient of two scalars.
///
/// A division by zero gives the end of the range on the side of the
/// numerator, and zero for a zero numerator.
pub open spec fn fx_div(a: i64, b: i64) -> i64 {
    if b == 0 {
        if a > 0 {
            i64::MAX
        } else if a < 0 {
            i64::MIN
        } else {
            0
        }
    } else {
        clip(quotient(a * UNIT, b as int))
    }
}

/// `x` clamped into `[lo, hi]`; the lower end is tested first.
pub open spec fn clamp_to(x: i64, lo: i64, hi: i64) -> i64 {
    if x < lo {
        lo
    } else if x > hi {
        hi
    } else {
        x
    }
}

/// The scalar at `center + (x - center) * factor`.
pub open spec fn shrink_toward(x: i64, center: i64, factor: i64) -> i64 {
    (x + descale((center - x) * (UNIT - factor))) as i64
}

/// The scalar halfway from `lo` to `hi`, cut towards `lo`.
pub open spec fn midpoint(lo: i64, hi: i64) -> i64 {
    (lo + quotient(hi - lo, 2)) as i64
}

/// `r` is the integer part of the square root of `n`.
pub open spec fn is_floor_sqrt(n: int, r: int) -> bool {
    &&& 0 <= r
    &&& r * r <= n
    &&& n < (r + 1) * (r + 1)
}

/// The integer part of the square root of `n`, for `n >= 0`.
pub open spec fn floor_sqrt(n: int) -> int {
    choose|r: int| is_floor_sqrt(n, r)
}

/// Whether `f` is a valid shrink or scale fraction, between zero and one.
pub open spec fn is_fraction(f: i64) -> bool {
    0 <= f <= UNIT
}

/// The magnitude of `x` is at most `COORD_MAX`.
pub open spec fn moderate(x: i64) -> bool {
    -COORD_MAX <= x <= COORD_MAX
}

/// The magnitude of `x` is at most three times `COORD_MAX`: the working range,
/// in which sums and differences of three scalars are exact.
pub open spec fn workable(x: i64) -> bool {
    -3 * COORD_MAX <= x <= 3 * COORD_MAX
}

// ---------------------------------------------------------------------------
// Facts about cutting towards zero
// ---------------------------------------------------------------------------

/// A number has one integer square root.
pub proof fn lemma_floor_sqrt_unique(n: int, r: int)
    requires
        is_floor_sqrt(n, r),
    ensures
        floor_sqrt(n) == r,
{
    let s = floor_sqrt(n);
    assert(is_floor_sqrt(n, s));
    if s < r {
        assert((s + 1) * (s + 1) <= r * r) by (nonlinear_arith)
            requires
                0 <= s,
                s + 1 <= r,
        ;
    }
    if r < s {
        assert((r + 1) * (r + 1) <= s * s) by (nonlinear_arith)
            requires
                0 <= r,
                r + 1 <= s,
        ;
    }
}

/// Cutting towards zero is monotone.
pub proof fn lemma_descale_monotone(a: int, b: int)
    requires
        a <= b,
    ensures
        descale(a) <= descale(b),
{
}

/// Adding `n` whole units to the numerator adds at most `n` to the result.
pub proof fn lemma_descale_shift(b: int, n: int)
    requires
        n >= 0,
    ensures
        descale(b) <= descale(b + n * UNIT) <= descale(b) + n,
{
}

/// A whole multiple of `UNIT` rescales exactly.
pub proof fn lemma_descale_exact(k: int)
    ensures
        descale(k * UNIT) == k,
{
}

/// The rescaled value of a fraction of `d` lies between zero and `d`.
pub proof fn lemma_descale_fraction(d: int, g: int)
    requires
        0 <= g <= UNIT,
    ensures
        d >= 0 ==> 0 <= descale(d * g) <= d,
        d <= 0 ==> d <= descale(d * g) <= 0,
        descale((-d) * g) == -descale(d * g),
{
    assert(d >= 0 ==> 0 <= d * g <= d * UNIT) by (nonlinear_arith)
        requires
            0 <= g <= UNIT,
    ;
    assert(d <= 0 ==> d * UNIT <= d * g <= 0) by (nonlinear_arith)
        requires
            0 <= g <= UNIT,
    ;
    assert((-d) * g == -(d * g)) by (nonlinear_arith);
}

/// Shrinking never moves a scalar past the centre or away from it.
pub proof fn lemma_shrink_between(x: i64, center: i64, factor: i64)
    requires
        is_fraction(factor),
    ensures
        x <= center ==> x <= shrink_toward(x, center, factor) <= center,
        x >= center ==> center <= shrink_toward(x, center, factor) <= x,
        shrink_toward(x, center, factor) == x + descale((center - x) * (UNIT - factor)),
{
    lemma_descale_fraction(center - x, UNIT - factor);
}

/// Shrinking by one leaves a scalar where it is.
pub proof fn lemma_shrink_by_one(x: i64, center: i64)
    ensures
        shrink_toward(x, center, UNIT) == x,
{
    assert((center - x) * (UNIT - UNIT) == 0);
}

/// Shrinking by zero moves a scalar onto the centre.
pub proof fn lemma_shrink_by_zero(x: i64, center: i64)
    ensures
        shrink_toward(x, center, 0) == center,
{
    lemma_descale_exact(center - x);
}

/// Shrinking towards one centre by one factor keeps the order of two scalars.
pub proof fn lemma_shrink_monotone(x: i64, y: i64, center: i64, factor: i64)
    requires
        is_fraction(factor),
        x <= y,
    ensures
        shrink_toward(x, center, factor) <= shrink_toward(y, center, factor),
{
    let g = UNIT - factor;
    let n = y - x;
    let a = (center - x) * g;
    let b = (center - y) * g;
    lemma_shrink_between(x, center, factor);
    lemma_shrink_between(y, center, factor);
    assert(a == b + n * g) by (nonlinear_arith)
        requires
            a == (center - x) * g,
            b == (center - y) * g,
            n == y - x,
    ;
    assert(n * g <= n * UNIT) by (nonlinear_arith)
        requires
            n >= 0,
            g <= UNIT,
    ;
    lemma_descale_monotone(a, b + n * UNIT);
    lemma_descale_shift(b, n);
}

/// The midpoint lies between its two ends, and no further from the lower end
/// than from the upper one.
pub proof fn lemma_midpoint_between(lo: i64, hi: i64)
    requires
        lo <= hi,
    ensures
        lo <= midpoint(lo, hi) <= hi,
        midpoint(lo, hi) == lo + (hi - lo) / 2,
        0 <= (hi - midpoint(lo, hi)) - (midpoint(lo, hi) - lo) <= 1,
{
}

/// Shrinking both ends of an interval towards its midpoint keeps the midpoint.
pub proof fn lemma_shrink_keeps_midpoint(lo: i64, hi: i64, factor: i64)
    requires
        lo <= hi,
        is_fraction(factor),
    ensures
        midpoint(
            shrink_toward(lo, midpoint(lo, hi), factor),
            shrink_toward(hi, midpoint(lo, hi), factor),
        ) == midpoint(lo, hi),
        shrink_toward(lo, midpoint(lo, hi), factor) <= shrink_toward(hi, midpoint(lo, hi), factor),
{
    let c = midpoint(lo, hi);
    let g = UNIT - factor;
    lemma_midpoint_between(lo, hi);
    lemma_shrink_between(lo, c, factor);
    lemma_shrink_between(hi, c, factor);
    let h1 = c - lo;
    let h2 = hi - c;
    lemma_descale_fraction(h2, g);
    lemma_descale_fraction(h1, g);
    assert((c - hi) * g == (-h2) * g);
    let t1 = descale(h1 * g);
    let t2 = descale(h2 * g);
    if h2 == h1 {
        assert(t1 == t2);
    } else {
        assert(h2 * g == h1 * g + g) by (nonlinear_arith)
            requires
                h2 == h1 + 1,
        ;
        lemma_descale_monotone(h1 * g, h1 * g + g);
        lemma_descale_monotone(h1 * g + g, h1 * g + UNIT);
        lemma_descale_shift(h1 * g, 1);
    }
}

// ---------------------------------------------------------------------------
// Executable arithmetic
// ---------------------------------------------------------------------------

/// Brings a wide integer back into `i64`.
pub fn scalar_clip(x: i128) -> (r: i64)
    ensures
        r == clip(x as int),
{
    if x > i64::MAX as i128 {
        i64::MAX
    } else if x < i64::MIN as i128 {
        i64::MIN
    } else {
        x as i64
    }
}

/// The saturating sum `a + b`.
pub fn scalar_add(a: i64, b: i64) -> (r: i64)
    ensures
        r == sat_add(a, b),
{
    scalar_clip(a as i128 + b as i128)
}

/// The saturating difference `a - b`.
pub fn scalar_sub(a: i64, b: i64) -> (r: i64)
    ensures
        r == sat_sub(a, b),
{
    scalar_clip(a as i128 - b as i128)
}

/// The exact product of two scalars, in units of `UNIT * UNIT`.
pub fn wide_product(a: i64, b: i64) -> (r: i128)
    ensures
        r == a * b,
        -0x4000_0000_0000_0000_0000_0000_0000_0000 <= r <= 0x4000_0000_0000_0000_0000_0000_0000_0000,
{
    assert(-0x4000_0000_0000_0000_0000_0000_0000_0000 <= a * b
        <= 0x4000_0000_0000_0000_0000_0000_0000_0000) by (nonlinear_arith)
        requires
            -0x8000_0000_0000_0000 <= a < 0x8000_0000_0000_0000,
            -0x8000_0000_0000_0000 <= b < 0x8000_0000_0000_0000,
    ;
    (a as i128) * (b as i128)
}

/// The fixed-point product `a * b`.
pub fn scalar_mul(a: i64, b: i64) -> (r: i64)
    ensures
        r == fx_mul(a, b),
{
    let w = wide_product(a, b);
    scalar_clip(w / (UNIT as i128))
}

/// The fixed-point quotient `a / b`.
pub fn scalar_div(a: i64, b: i64) -> (r: i64)
    ensures
        r == fx_div(a, b),
{
    if b == 0 {
        if a > 0 {
            i64::MAX
        } else if a < 0 {
            i64::MIN
        } else {
            0
        }
    } else {
        let n: i128 = wide_product(a, UNIT);
        let d: i128 = b as i128;
        let n_abs: i128 = if n >= 0 { n } else { -n };
        let d_abs: i128 = if d >= 0 { d } else { -d };
        let q: i128 = n_abs / d_abs;
        assert(0 <= q <= n_abs) by (nonlinear_arith)
            requires
                q == n_abs / d_abs,
                n_abs >= 0,
                d_abs >= 1,
        ;
        if (n >= 0) == (d >= 0) {
            scalar_clip(q)
        } else {
            scalar_clip(-q)
        }
    }
}

/// `x` clamped into `[lo, hi]`.
pub fn scalar_clamp(x: i64, lo: i64, hi: i64) -> (r: i64)
    ensures
        r == clamp_to(x, lo, hi),
{
    if x < lo {
        lo
    } else if x > hi {
        hi
    } else {
        x
    }
}

/// The scalar at `center + (x - center) * factor`, for a fraction `factor`.
pub fn scalar_shrink(x: i64, center: i64, factor: i64) -> (r: i64)
    requires
        is_fraction(factor),
    ensures
        r == shrink_toward(x, center, factor),
{
    let d: i128 = center as i128 - x as i128;
    let g: i128 = UNIT as i128 - factor as i128;
    proof {
        lemma_descale_fraction(d as int, g as int);
        lemma_shrink_between(x, center, factor);
        assert(d >= 0 ==> 0 <= d * g <= d * UNIT) by (nonlinear_arith)
            requires
                0 <= g <= UNIT,
        ;
        assert(d <= 0 ==> d * UNIT <= d * g <= 0) by (nonlinear_arith)
            requires
                0 <= g <= UNIT,
        ;
    }
    let t: i128 = (d * g) / (UNIT as i128);
    (x as i128 + t) as i64
}

/// The scalar halfway from `lo` to `hi`.
pub fn scalar_midpoint(lo: i64, hi: i64) -> (r: i64)
    ensures
        r == midpoint(lo, hi),
{
    let d: i128 = hi as i128 - lo as i128;
    (lo as i128 + d / 2) as i64
}

/// The integer part of the square root of `n`.
pub fn integer_sqrt(n: u128) -> (r: u128)
    ensures
        is_floor_sqrt(n as int, r as int),
        r < 0x1_0000_0000_0000_0000,
{
    let mut lo: u128 = 0;
    let mut hi: u128 = 0x1_0000_0000_0000_0000;
    assert(hi * hi == 0x1_0000_0000_0000_0000_0000_0000_0000_0000) by (nonlinear_arith)
        requires
            hi == 0x1_0000_0000_0000_0000,
    ;
    while hi - lo > 1
        invariant
            lo < hi <= 0x1_0000_0000_0000_0000,
            lo * lo <= n,
            n < hi * hi,
        decreases hi - lo,
    {
        let mid: u128 = lo + (hi - lo) / 2;
        assert(mid * mid < 0x1_0000_0000_0000_0000_0000_0000_0000_0000) by (nonlinear_arith)
            requires
                0 <= mid < 0x1_0000_0000_0000_0000,
        ;
        if mid * mid <= n {
            lo = mid;
        } else {
            hi = mid;
        }
    }
    lo
}

/// The fixed-point square root of a scalar that is not negative.
pub fn scalar_sqrt(x: i64) -> (r: i64)
    requires
        x >= 0,
    ensures
        is_floor_sqrt(x * UNIT, r as int),
        r == floor_sqrt(x * UNIT),
{
    let w: i128 = wide_product(x, UNIT);
    let root: u128 = integer_sqrt(w as u128);
    assert(root <= i64::MAX) by (nonlinear_arith)
        requires
            root * root <= x * UNIT,
            x <= i64::MAX,
            0 <= root,
            UNIT == 1_000_000,
    ;
    proof {
        lemma_floor_sqrt_unique(x * UNIT, root as int);
    }
    root as i64
}

} // verus!
