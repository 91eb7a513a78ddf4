//! The factor by which the search region shrinks after a step.
//!
//! The factor is `1 - 0.2 * e^(-3r)` for the distance `r` between two
//! successive best points, taken relative to the size of the region. The
//! exponential is computed as `(1 - x / 2^20)^(2^20)` by twenty squarings at
//! eighteen decimal digits.

use vstd::prelude::*;

use crate::scalar::{clip, scalar_clip, UNIT};

verus! {

/// The number that stands for one while the exponential is computed.
pub const PRECISION: u128 = 1_000_000_000_000_000_000;

/// `PRECISION / UNIT`.
pub const DOWNSCALE: u128 = 1_000_000_000_000;

/// The exponent of the power of two by which the argument is divided.
pub const SQUARINGS: u32 = 20;

/// `2^SQUARINGS`.
pub const DIVISOR: u128 = 1_048_576;

/// `b` squared `k` times, each square cut to eighteen digits.
pub open spec fn squared_times(b: int, k: nat) -> int
    decreases k,
{
    if k == 0 {
        b
    } else {
        squared_times(b * b / (PRECISION as int), (k - 1) as nat)
    }
}

/// `1 - x / 2^20` at eighteen digits, for a scalar `x`.
pub open spec fn decay_base(x: i64) -> int {
    PRECISION - (x * DOWNSCALE) / (DIVISOR as int)
}

/// The approximation of `e^(-x)` that this library computes; it errs towards
/// zero.
///
/// For `x <= 0` this is one. For larger `x` it is `(1 - x / 2^20)^(2^20)`
/// while the base is positive, and zero from there on.
pub open spec fn decay_of(x: i64) -> i64 {
    if x <= 0 {
        UNIT
    } else if decay_base(x) <= 0 {
        0
    } else {
        (squared_times(decay_base(x), SQUARINGS as nat) / (DOWNSCALE as int)) as i64
    }
}

/// The shrink factor for the renormalized distance `r`: `1 - 0.2 * e^(-3r)`,
/// cut down to a scalar below one.
pub open spec fn factor_of(r: i64) -> i64 {
    let fifth = (decay_of(clip(3 * r)) + 4) / 5;
    (UNIT - if fifth < 1 {
        1
    } else {
        fifth
    }) as i64
}

proof fn lemma_square_step(a: int, b: int)
    requires
        0 <= a <= b <= PRECISION,
    ensures
        0 <= a * a / (PRECISION as int) <= b * b / (PRECISION as int) <= PRECISION,
{
    assert(0 <= a * a <= b * b) by (nonlinear_arith)
        requires
            0 <= a <= b,
    ;
    assert(b * b <= PRECISION * PRECISION) by (nonlinear_arith)
        requires
            0 <= b <= PRECISION,
    ;
    assert(PRECISION * PRECISION / (PRECISION as int) == PRECISION) by (nonlinear_arith);
    vstd::arithmetic::div_mod::lemma_div_is_ordered(a * a, b * b, PRECISION as int);
    vstd::arithmetic::div_mod::lemma_div_is_ordered(b * b, PRECISION * PRECISION, PRECISION as int);
    vstd::arithmetic::div_mod::lemma_div_is_ordered(0, a * a, PRECISION as int);
}

/// Squaring keeps the order of two numbers between zero and one.
pub proof fn lemma_squared_monotone(a: int, b: int, k: nat)
    requires
        0 <= a <= b <= PRECISION,
    ensures
        0 <= squared_times(a, k) <= squared_times(b, k) <= PRECISION,
    decreases k,
{
    if k > 0 {
        lemma_square_step(a, b);
        lemma_squared_monotone(a * a / (PRECISION as int), b * b / (PRECISION as int), (k - 1) as nat);
    }
}

/// One squared stays one.
pub proof fn lemma_squared_one(k: nat)
    ensures
        squared_times(PRECISION as int, k) == PRECISION,
    decreases k,
{
    if k > 0 {
        assert(PRECISION * PRECISION / (PRECISION as int) == PRECISION) by (nonlinear_arith);
        lemma_squared_one((k - 1) as nat);
    }
}

/// The decay lies between zero and one, and is one at zero.
pub proof fn lemma_decay_bounds(x: i64)
    ensures
        0 <= decay_of(x) <= UNIT,
        decay_of(0) == UNIT,
{
    if x > 0 && decay_base(x) > 0 {
        lemma_squared_monotone(decay_base(x), PRECISION as int, SQUARINGS as nat);
        lemma_squared_one(SQUARINGS as nat);
    }
}

/// The decay does not grow with its argument.
pub proof fn lemma_decay_monotone(x: i64, y: i64)
    requires
        x <= y,
    ensures
        decay_of(y) <= decay_of(x),
{
    lemma_decay_bounds(x);
    lemma_decay_bounds(y);
    if x > 0 && decay_base(y) > 0 {
        assert(x * DOWNSCALE <= y * DOWNSCALE) by (nonlinear_arith)
            requires
                x <= y,
        ;
        vstd::arithmetic::div_mod::lemma_div_is_ordered(
            x * DOWNSCALE,
            y * DOWNSCALE,
            DIVISOR as int,
        );
        lemma_squared_monotone(decay_base(y), decay_base(x), SQUARINGS as nat);
    }
}

/// At the distance zero the shrink factor is exactly `0.8`.
pub proof fn lemma_factor_at_zero()
    ensures
        factor_of(0) == 800_000,
{
}

/// The shrink factor is at least `0.8` and stays below one, at every
/// distance.
pub proof fn lemma_factor_bounds(r: i64)
    ensures
        800_000 <= factor_of(r) < UNIT,
{
    lemma_decay_bounds(clip(3 * r));
}

/// The shrink factor does not fall as the distance grows.
pub proof fn lemma_factor_monotone(r1: i64, r2: i64)
    requires
        r1 <= r2,
    ensures
        factor_of(r1) <= factor_of(r2),
{
    lemma_decay_monotone(clip(3 * r1), clip(3 * r2));
    lemma_decay_bounds(clip(3 * r1));
    lemma_decay_bounds(clip(3 * r2));
}

/// From the distance at which the decay has fallen to zero the shrink factor
/// is the largest scalar below one.
pub proof fn lemma_factor_far(r: i64)
    requires
        decay_of(clip(3 * r)) == 0,
    ensures
        factor_of(r) == UNIT - 1,
{
}

/// An approximation of `e^(-x)` that errs towards zero.
pub fn decay(x: i64) -> (r: i64)
    ensures
        r == decay_of(x),
        0 <= r <= UNIT,
{
    proof {
        lemma_decay_bounds(x);
    }
    if x <= 0 {
        return UNIT;
    }
    assert(x * DOWNSCALE <= 0x8000_0000_0000_0000 * DOWNSCALE) by (nonlinear_arith)
        requires
            0 < x < 0x8000_0000_0000_0000,
    ;
    let step: u128 = (x as u128) * DOWNSCALE / DIVISOR;
    if step >= PRECISION {
        return 0;
    }
    let ghost base = decay_base(x);
    let mut b: u128 = PRECISION - step;
    let mut k: u32 = 0;
    while k < SQUARINGS
        invariant
            k <= SQUARINGS,
            0 <= b <= PRECISION,
            squared_times(b as int, (SQUARINGS - k) as nat) == squared_times(base, SQUARINGS as nat),
        decreases SQUARINGS - k,
    {
        proof {
            lemma_square_step(b as int, b as int);
            assert(b * b <= PRECISION * PRECISION) by (nonlinear_arith)
                requires
                    0 <= b <= PRECISION,
            ;
        }
        b = b * b / PRECISION;
        k += 1;
    }
    (b / DOWNSCALE) as i64
}

/// The shrink factor for the renormalized distance `r`.
///
/// The factor is `0.8` at the distance zero, grows towards one with the
/// distance, and never reaches one.
pub fn convergence_factor(r: i64) -> (factor: i64)
    ensures
        factor == factor_of(r),
        800_000 <= factor < UNIT,
        r == 0 ==> factor == 800_000,
{
    proof {
        lemma_factor_bounds(r);
    }
    let tripled = scalar_clip(3 * (r as i128));
    let fifth = (decay(tripled) + 4) / 5;
    if fifth < 1 {
        UNIT - 1
    } else {
        UNIT - fifth
    }
}

} // verus!
