//! Vectors of fixed-point scalars.

use std::cmp::Ordering;
use std::ops::{Add, Div, Mul, Sub};

use rand::distributions::Distribution;
use rayon::iter::{IndexedParallelIterator, IntoParallelRefIterator, ParallelIterator};
use vstd::prelude::*;
use vstd::std_specs::cmp::PartialEqSpecImpl;
use vstd::std_specs::ops::{AddSpecImpl, DivSpecImpl, MulSpecImpl, SubSpecImpl};

use crate::bounds::HypercubeBounds;
use crate::scalar::{
    clamp_to, clip, floor_sqrt, fx_div, fx_mul, integer_sqrt, is_fraction, lemma_floor_sqrt_unique,
    lemma_shrink_by_one, lemma_shrink_by_zero, sat_add, sat_sub, scalar_add, scalar_clamp,
    scalar_clip, scalar_div, scalar_mul, scalar_shrink, scalar_sub, shrink_toward, wide_product,
};

verus! {

// ---------------------------------------------------------------------------
// The model: sequences of scalars
// ---------------------------------------------------------------------------

/// The sequence that holds `value` at each of `n` places.
pub open spec fn seq_fill(value: i64, n: nat) -> Seq<i64> {
    Seq::new(n, |i: int| value)
}

/// The elementwise saturating sum.
pub open spec fn seq_add(a: Seq<i64>, b: Seq<i64>) -> Seq<i64> {
    Seq::new(a.len(), |i: int| sat_add(a[i], b[i]))
}

/// The elementwise saturating difference.
pub open spec fn seq_sub(a: Seq<i64>, b: Seq<i64>) -> Seq<i64> {
    Seq::new(a.len(), |i: int| sat_sub(a[i], b[i]))
}

/// The elementwise fixed-point product.
pub open spec fn seq_mul(a: Seq<i64>, b: Seq<i64>) -> Seq<i64> {
    Seq::new(a.len(), |i: int| fx_mul(a[i], b[i]))
}

/// The elementwise fixed-point quotient.
pub open spec fn seq_div(a: Seq<i64>, b: Seq<i64>) -> Seq<i64> {
    Seq::new(a.len(), |i: int| fx_div(a[i], b[i]))
}

/// Each element multiplied by `factor`.
pub open spec fn seq_scale(a: Seq<i64>, factor: i64) -> Seq<i64> {
    Seq::new(a.len(), |i: int| fx_mul(a[i], factor))
}

/// Each element moved towards the matching element of `center`.
pub open spec fn seq_shrink(a: Seq<i64>, center: Seq<i64>, factor: i64) -> Seq<i64> {
    Seq::new(a.len(), |i: int| shrink_toward(a[i], center[i], factor))
}

/// Each element clamped between the matching elements of `lower` and `upper`.
pub open spec fn seq_clamp(a: Seq<i64>, lower: Seq<i64>, upper: Seq<i64>) -> Seq<i64> {
    Seq::new(a.len(), |i: int| clamp_to(a[i], lower[i], upper[i]))
}

/// Every element of `a` lies between the matching elements of `lower` and
/// `upper`.
pub open spec fn seq_inside(a: Seq<i64>, lower: Seq<i64>, upper: Seq<i64>) -> bool {
    forall|i: int| 0 <= i < a.len() ==> lower[i] <= #[trigger] a[i] <= upper[i]
}

/// The exact sum of the elements.
pub open spec fn seq_sum(a: Seq<i64>) -> int
    decreases a.len(),
{
    if a.len() == 0 {
        0
    } else {
        seq_sum(a.drop_last()) + a.last()
    }
}

/// The exact sum of the squares of the elements.
pub open spec fn seq_sum_squares(a: Seq<i64>) -> int
    decreases a.len(),
{
    if a.len() == 0 {
        0
    } else {
        seq_sum_squares(a.drop_last()) + a.last() * a.last()
    }
}

/// `m` occurs in `a` and no element of `a` is larger.
pub open spec fn is_max_of(a: Seq<i64>, m: i64) -> bool {
    &&& exists|i: int| 0 <= i < a.len() && a[i] == m
    &&& forall|i: int| 0 <= i < a.len() ==> a[i] <= m
}

/// `m` occurs in `a` and no element of `a` is smaller.
pub open spec fn is_min_of(a: Seq<i64>, m: i64) -> bool {
    &&& exists|i: int| 0 <= i < a.len() && a[i] == m
    &&& forall|i: int| 0 <= i < a.len() ==> a[i] >= m
}

/// The Euclidean length of `a`: the integer part of the square root of the
/// sum of squares, or `i64::MAX` where that root is larger.
pub open spec fn length_of(a: Seq<i64>) -> i64 {
    if seq_sum_squares(a) >= i64::MAX * i64::MAX {
        i64::MAX
    } else {
        floor_sqrt(seq_sum_squares(a)) as i64
    }
}

proof fn lemma_take_step(a: Seq<i64>, i: int)
    requires
        0 <= i < a.len(),
    ensures
        a.take(i + 1).drop_last() == a.take(i),
        a.take(i + 1).last() == a[i],
        a.take(a.len() as int) == a,
{
    assert(a.take(i + 1).drop_last() =~= a.take(i));
    assert(a.take(a.len() as int) =~= a);
}

proof fn lemma_sum_squares_grows(a: Seq<i64>, i: int)
    requires
        0 <= i <= a.len(),
    ensures
        0 <= seq_sum_squares(a.take(i)) <= seq_sum_squares(a),
    decreases a.len() - i,
{
    if i == a.len() {
        assert(a.take(i) =~= a);
        lemma_sum_squares_nonnegative(a);
    } else {
        lemma_take_step(a, i);
        lemma_sum_squares_grows(a, i + 1);
        lemma_sum_squares_nonnegative(a.take(i));
        assert(a[i] * a[i] >= 0) by (nonlinear_arith);
    }
}

proof fn lemma_sum_squares_nonnegative(a: Seq<i64>)
    ensures
        seq_sum_squares(a) >= 0,
    decreases a.len(),
{
    if a.len() > 0 {
        lemma_sum_squares_nonnegative(a.drop_last());
        assert(a.last() * a.last() >= 0) by (nonlinear_arith);
    }
}

// ---------------------------------------------------------------------------
// Laws of the model
// ---------------------------------------------------------------------------

/// Clamping a vector that lies inside the bounds leaves it unchanged.
pub proof fn lemma_clamp_inside_is_identity(a: Seq<i64>, lower: Seq<i64>, upper: Seq<i64>)
    requires
        seq_inside(a, lower, upper),
    ensures
        seq_clamp(a, lower, upper) == a,
{
    assert(seq_clamp(a, lower, upper) =~= a);
}

/// Shrinking a vector by the factor one leaves it unchanged.
pub proof fn lemma_shrink_one_is_identity(a: Seq<i64>, center: Seq<i64>)
    ensures
        seq_shrink(a, center, crate::scalar::UNIT) == a,
{
    assert forall|i: int| 0 <= i < a.len() implies #[trigger] seq_shrink(
        a,
        center,
        crate::scalar::UNIT,
    )[i] == a[i] by {
        lemma_shrink_by_one(a[i], center[i]);
    }
    assert(seq_shrink(a, center, crate::scalar::UNIT) =~= a);
}

/// Shrinking a vector by the factor zero moves it onto the centre.
pub proof fn lemma_shrink_zero_is_center(a: Seq<i64>, center: Seq<i64>)
    requires
        a.len() == center.len(),
    ensures
        seq_shrink(a, center, 0) == center,
{
    assert forall|i: int| 0 <= i < a.len() implies #[trigger] seq_shrink(a, center, 0)[i]
        == center[i] by {
        lemma_shrink_by_zero(a[i], center[i]);
    }
    assert(seq_shrink(a, center, 0) =~= center);
}

// ---------------------------------------------------------------------------
// Calls into the crates `rand` and `rayon`
// ---------------------------------------------------------------------------

/// Draws one scalar from the uniform distribution over `[lower, upper]`.
///
/// Calls `rand::distributions::Uniform::new_inclusive` and samples it once
/// with the thread's generator. The constructor panics when `lower > upper`;
/// the sampler returns `lower` plus an offset below the width of the range.
/// Nothing else is claimed of the value drawn.
#[verifier::external_body]
fn sample_inclusive(lower: i64, upper: i64) -> (r: i64)
    requires
        lower <= upper,
    ensures
        lower <= r <= upper,
{
    rand::distributions::Uniform::new_inclusive(lower, upper).sample(&mut rand::thread_rng())
}

/// Combines two vectors of one length element by element, in parallel.
///
/// Calls rayon's `par_iter`, `zip_eq`, `map` and `collect`. `zip_eq` panics
/// when the lengths differ; collecting an indexed parallel iterator keeps the
/// order of the items, so the element at each index is what `f` returned for
/// the two elements at that index.
#[verifier::external_body]
fn par_zip_with<F: Fn(i64, i64) -> i64 + Sync + Send>(
    a: &Vec<i64>,
    b: &Vec<i64>,
    f: F,
) -> (r: Vec<i64>)
    requires
        a.len() == b.len(),
        forall|x: i64, y: i64| call_requires(f, (x, y)),
    ensures
        r.len() == a.len(),
        forall|i: int| 0 <= i < r.len() ==> call_ensures(f, (a[i], b[i]), #[trigger] r[i]),
{
    a.par_iter().zip_eq(b.par_iter()).map(|pair| f(*pair.0, *pair.1)).collect()
}

// ---------------------------------------------------------------------------
// Point
// ---------------------------------------------------------------------------

/// A vector of fixed-point scalars whose dimension is fixed when it is made.
#[derive(Debug)]
pub struct Point {
    coords: Vec<i64>,
}

impl View for Point {
    type V = Seq<i64>;

    closed spec fn view(&self) -> Seq<i64> {
        self.coords@
    }
}

impl Clone for Point {
    fn clone(&self) -> (r: Self)
        ensures
            r@ == self@,
    {
        Point { coords: self.coords.clone() }
    }
}

impl PartialEqSpecImpl for Point {
    open spec fn obeys_eq_spec() -> bool {
        true
    }

    open spec fn eq_spec(&self, other: &Point) -> bool {
        self@ == other@
    }
}

impl PartialEq for Point {
    /// Two points are equal when they hold the same coordinates.
    fn eq(&self, other: &Point) -> (r: bool) {
        let r = self.coords == other.coords;
        proof {
            if r {
                assert(self.coords@ =~= other.coords@);
            }
        }
        r
    }
}

impl Point {
    /// A point has at least one coordinate, and its dimension fits in `u32`.
    pub open spec fn wf(&self) -> bool {
        0 < self@.len() <= u32::MAX
    }

    /// The point that holds the coordinates of `vector`.
    pub fn from_vec(vector: Vec<i64>) -> (r: Self)
        requires
            0 < vector.len() <= u32::MAX,
        ensures
            r@ == vector@,
            r.wf(),
    {
        Point { coords: vector }
    }

    /// The point that holds `element` in each of `n` coordinates.
    pub fn fill(element: i64, n: u32) -> (r: Self)
        requires
            n != 0,
        ensures
            r@ == seq_fill(element, n as nat),
            r.wf(),
    {
        let mut coords: Vec<i64> = Vec::new();
        let mut i: u32 = 0;
        while i < n
            invariant
                i <= n,
                coords@ == seq_fill(element, i as nat),
            decreases n - i,
        {
            coords.push(element);
            i += 1;
            assert(coords@ =~= seq_fill(element, i as nat));
        }
        Point { coords }
    }

    /// The Euclidean length of the point.
    pub fn len(&self) -> (r: i64)
        requires
            self.wf(),
        ensures
            r == length_of(self@),
            r >= 0,
    {
        let mut acc: u128 = 0;
        let mut i: usize = 0;
        while i < self.coords.len()
            invariant
                i <= self.coords.len(),
                acc == seq_sum_squares(self@.take(i as int)),
            decreases self.coords.len() - i,
        {
            let x = self.coords[i];
            let square: i128 = wide_product(x, x);
            proof {
                lemma_take_step(self@, i as int);
                lemma_sum_squares_grows(self@, i as int + 1);
                assert(x * x >= 0) by (nonlinear_arith);
            }
            match acc.checked_add(square as u128) {
                Some(next) => {
                    acc = next;
                },
                None => {
                    assert(i64::MAX * i64::MAX < 0x1_0000_0000_0000_0000_0000_0000_0000_0000)
                        by (nonlinear_arith);
                    return i64::MAX;
                },
            }
            i += 1;
        }
        proof {
            assert(self@.take(i as int) =~= self@);
        }
        let root = integer_sqrt(acc);
        if root >= i64::MAX as u128 {
            assert(seq_sum_squares(self@) >= i64::MAX * i64::MAX) by (nonlinear_arith)
                requires
                    root * root <= seq_sum_squares(self@),
                    root >= i64::MAX,
            ;
            i64::MAX
        } else {
            assert(seq_sum_squares(self@) < i64::MAX * i64::MAX) by (nonlinear_arith)
                requires
                    seq_sum_squares(self@) < (root + 1) * (root + 1),
                    0 <= root < i64::MAX,
            ;
            proof {
                lemma_floor_sqrt_unique(seq_sum_squares(self@), root as int);
            }
            root as i64
        }
    }

    /// A point of `dimension` coordinates, each drawn uniformly from
    /// `[lower, upper]`.
    pub fn random(dimension: u32, lower: i64, upper: i64) -> (r: Self)
        requires
            dimension != 0,
            upper > lower,
        ensures
            r.wf(),
            r@.len() == dimension,
            forall|i: int| 0 <= i < r@.len() ==> lower <= #[trigger] r@[i] <= upper,
    {
        let mut coords: Vec<i64> = Vec::new();
        let mut i: u32 = 0;
        while i < dimension
            invariant
                i <= dimension,
                lower < upper,
                coords.len() == i,
                forall|k: int| 0 <= k < coords.len() ==> lower <= #[trigger] coords[k] <= upper,
            decreases dimension - i,
        {
            coords.push(sample_inclusive(lower, upper));
            i += 1;
        }
        Point { coords }
    }

    /// A point whose every coordinate is drawn uniformly between the matching
    /// coordinates of `lower` and `upper`.
    pub fn random_between(lower: &Point, upper: &Point) -> (r: Self)
        requires
            lower.wf(),
            upper@.len() == lower@.len(),
            forall|i: int| 0 <= i < lower@.len() ==> lower@[i] <= upper@[i],
        ensures
            r.wf(),
            r@.len() == lower@.len(),
            seq_inside(r@, lower@, upper@),
    {
        let mut coords: Vec<i64> = Vec::new();
        let mut i: usize = 0;
        while i < lower.coords.len()
            invariant
                i <= lower.coords.len(),
                upper@.len() == lower@.len(),
                forall|k: int| 0 <= k < lower@.len() ==> lower@[k] <= upper@[k],
                coords.len() == i,
                forall|k: int| 0 <= k < coords.len() ==> lower@[k] <= #[trigger] coords[k] <= upper@[k],
            decreases lower.coords.len() - i,
        {
            coords.push(sample_inclusive(lower.coords[i], upper.coords[i]));
            i += 1;
        }
        Point { coords }
    }

    /// Moves the point to `center + (self - center) * scale_factor`.
    ///
    /// The factor zero moves it onto `center`; the factor one leaves it where
    /// it is.
    pub fn shrink_towards_center_in_place(&mut self, center: &Point, scale_factor: i64)
        requires
            old(self).wf(),
            center@.len() == old(self)@.len(),
            is_fraction(scale_factor),
        ensures
            final(self)@ == seq_shrink(old(self)@, center@, scale_factor),
            final(self).wf(),
    {
        let mut i: usize = 0;
        while i < self.coords.len()
            invariant
                i <= self.coords.len(),
                self.coords.len() == old(self).coords.len(),
                center.coords.len() == self.coords.len(),
                is_fraction(scale_factor),
                forall|k: int| 0 <= k < i ==> #[trigger] self.coords[k] == shrink_toward(
                    old(self).coords[k],
                    center.coords[k],
                    scale_factor,
                ),
                forall|k: int| i <= k < self.coords.len() ==> #[trigger] self.coords[k] == old(self).coords[k],
            decreases self.coords.len() - i,
        {
            let moved = scalar_shrink(self.coords[i], center.coords[i], scale_factor);
            self.coords.set(i, moved);
            i += 1;
        }
        assert(self@ =~= seq_shrink(old(self)@, center@, scale_factor));
    }

    /// The coordinate at `index`, or `None` past the last one.
    pub fn get(&self, index: usize) -> (r: Option<&i64>)
        ensures
            index < self@.len() ==> r == Some(&self@[index as int]),
            index >= self@.len() ==> r is None,
    {
        if index < self.coords.len() {
            Some(&self.coords[index])
        } else {
            None
        }
    }

    /// The largest coordinate.
    pub fn max_val(&self) -> (r: Option<i64>)
        ensures
            self@.len() == 0 ==> r is None,
            self@.len() > 0 ==> r is Some && is_max_of(self@, r->0),
    {
        if self.coords.len() == 0 {
            return None;
        }
        let mut best = self.coords[0];
        let mut i: usize = 1;
        while i < self.coords.len()
            invariant
                1 <= i <= self.coords.len(),
                exists|k: int| 0 <= k < i && self.coords[k] == best,
                forall|k: int| 0 <= k < i ==> self.coords[k] <= best,
            decreases self.coords.len() - i,
        {
            if self.coords[i] > best {
                best = self.coords[i];
            }
            i += 1;
        }
        Some(best)
    }

    /// The smallest coordinate.
    pub fn min_val(&self) -> (r: Option<i64>)
        ensures
            self@.len() == 0 ==> r is None,
            self@.len() > 0 ==> r is Some && is_min_of(self@, r->0),
    {
        if self.coords.len() == 0 {
            return None;
        }
        let mut best = self.coords[0];
        let mut i: usize = 1;
        while i < self.coords.len()
            invariant
                1 <= i <= self.coords.len(),
                exists|k: int| 0 <= k < i && self.coords[k] == best,
                forall|k: int| 0 <= k < i ==> self.coords[k] >= best,
            decreases self.coords.len() - i,
        {
            if self.coords[i] < best {
                best = self.coords[i];
            }
            i += 1;
        }
        Some(best)
    }

    /// An iterator over the coordinates, in order.
    pub fn iter(&self) -> (r: std::slice::Iter<'_, i64>)
        ensures
            vstd::std_specs::slice::into_iter_elts(r) == self@,
    {
        self.coords.iter()
    }

    /// The coordinates, in order.
    pub fn to_vec(&self) -> (r: Vec<i64>)
        ensures
            r@ == self@,
    {
        self.coords.clone()
    }

    /// The number of coordinates.
    pub fn dim(&self) -> (r: u32)
        requires
            self.wf(),
        ensures
            r == self@.len(),
            r >= 1,
    {
        self.coords.len() as u32
    }

    /// Multiplies every coordinate by `scale_factor`.
    pub fn scale_in_place(&mut self, scale_factor: i64)
        ensures
            final(self)@ == seq_scale(old(self)@, scale_factor),
    {
        let mut i: usize = 0;
        while i < self.coords.len()
            invariant
                i <= self.coords.len(),
                self.coords.len() == old(self).coords.len(),
                forall|k: int| 0 <= k < i ==> #[trigger] self.coords[k] == fx_mul(
                    old(self).coords[k],
                    scale_factor,
                ),
                forall|k: int| i <= k < self.coords.len() ==> #[trigger] self.coords[k] == old(self).coords[k],
            decreases self.coords.len() - i,
        {
            let scaled = scalar_mul(self.coords[i], scale_factor);
            self.coords.set(i, scaled);
            i += 1;
        }
        assert(self@ =~= seq_scale(old(self)@, scale_factor));
    }

    /// The point with every coordinate multiplied by `scale_factor`.
    pub fn scale(&self, scale_factor: i64) -> (r: Self)
        ensures
            r@ == seq_scale(self@, scale_factor),
    {
        let mut result = self.clone();
        result.scale_in_place(scale_factor);
        result
    }

    /// The point with every coordinate clamped between the matching
    /// coordinates of the corners of `bound`.
    ///
    /// A point inside the bounds is returned unchanged.
    pub fn clamp(&self, bound: &HypercubeBounds) -> (r: Point)
        requires
            self.wf(),
            bound@.lower.len() == self@.len(),
            bound@.upper.len() == self@.len(),
        ensures
            r@ == seq_clamp(self@, bound@.lower, bound@.upper),
            seq_inside(self@, bound@.lower, bound@.upper) ==> r@ == self@,
            r.wf(),
    {
        let lower = bound.get_lower();
        let upper = bound.get_upper();
        let mut clipped_vector: Vec<i64> = Vec::new();
        let mut i: usize = 0;
        while i < self.coords.len()
            invariant
                i <= self.coords.len(),
                lower@.len() == self.coords.len(),
                upper@.len() == self.coords.len(),
                clipped_vector.len() == i,
                forall|k: int| 0 <= k < i ==> #[trigger] clipped_vector[k] == clamp_to(
                    self.coords[k],
                    lower@[k],
                    upper@[k],
                ),
            decreases self.coords.len() - i,
        {
            clipped_vector.push(scalar_clamp(self.coords[i], lower.coords[i], upper.coords[i]));
            i += 1;
        }
        assert(clipped_vector@ =~= seq_clamp(self@, bound@.lower, bound@.upper));
        proof {
            if seq_inside(self@, bound@.lower, bound@.upper) {
                lemma_clamp_inside_is_identity(self@, bound@.lower, bound@.upper);
            }
        }
        Point::from_vec(clipped_vector)
    }

    /// The saturating sum of the coordinates.
    pub fn sum(&self) -> (r: i64)
        requires
            self.wf(),
        ensures
            r == clip(seq_sum(self@)),
    {
        let mut acc: i128 = 0;
        let mut i: usize = 0;
        while i < self.coords.len()
            invariant
                i <= self.coords.len(),
                self.coords.len() <= u32::MAX,
                acc == seq_sum(self@.take(i as int)),
                -(i * 0x8000_0000_0000_0000) <= acc <= i * 0x8000_0000_0000_0000,
            decreases self.coords.len() - i,
        {
            proof {
                lemma_take_step(self@, i as int);
            }
            acc = acc + self.coords[i] as i128;
            i += 1;
        }
        proof {
            assert(self@.take(i as int) =~= self@);
        }
        scalar_clip(acc)
    }

    /// The elementwise saturating sum of two points of one dimension.
    pub fn add(&self, other: &Point) -> (r: Point)
        requires
            self@.len() == other@.len(),
        ensures
            r@ == seq_add(self@, other@),
    {
        let coords = par_zip_with(&self.coords, &other.coords, scalar_add);
        assert(coords@ =~= seq_add(self@, other@));
        Point { coords }
    }

    /// The elementwise saturating difference of two points of one dimension.
    pub fn sub(&self, other: &Point) -> (r: Point)
        requires
            self@.len() == other@.len(),
        ensures
            r@ == seq_sub(self@, other@),
    {
        let coords = par_zip_with(&self.coords, &other.coords, scalar_sub);
        assert(coords@ =~= seq_sub(self@, other@));
        Point { coords }
    }

    /// The elementwise fixed-point product of two points of one dimension.
    pub fn mul(&self, other: &Point) -> (r: Point)
        requires
            self@.len() == other@.len(),
        ensures
            r@ == seq_mul(self@, other@),
    {
        let mut coords: Vec<i64> = Vec::new();
        let mut i: usize = 0;
        while i < self.coords.len()
            invariant
                i <= self.coords.len(),
                self.coords.len() == other.coords.len(),
                coords.len() == i,
                forall|k: int| 0 <= k < i ==> #[trigger] coords[k] == fx_mul(
                    self.coords[k],
                    other.coords[k],
                ),
            decreases self.coords.len() - i,
        {
            coords.push(scalar_mul(self.coords[i], other.coords[i]));
            i += 1;
        }
        assert(coords@ =~= seq_mul(self@, other@));
        Point { coords }
    }

    /// The elementwise fixed-point quotient of two points of one dimension.
    pub fn div(&self, other: &Point) -> (r: Point)
        requires
            self@.len() == other@.len(),
        ensures
            r@ == seq_div(self@, other@),
    {
        let mut coords: Vec<i64> = Vec::new();
        let mut i: usize = 0;
        while i < self.coords.len()
            invariant
                i <= self.coords.len(),
                self.coords.len() == other.coords.len(),
                coords.len() == i,
                forall|k: int| 0 <= k < i ==> #[trigger] coords[k] == fx_div(
                    self.coords[k],
                    other.coords[k],
                ),
            decreases self.coords.len() - i,
        {
            coords.push(scalar_div(self.coords[i], other.coords[i]));
            i += 1;
        }
        assert(coords@ =~= seq_div(self@, other@));
        Point { coords }
    }

    /// Adds `rhs` to the point, coordinate by coordinate.
    pub fn add_assign(&mut self, rhs: Point)
        requires
            old(self)@.len() == rhs@.len(),
        ensures
            final(self)@ == seq_add(old(self)@, rhs@),
    {
        let mut i: usize = 0;
        while i < self.coords.len()
            invariant
                i <= self.coords.len(),
                self.coords.len() == old(self).coords.len(),
                self.coords.len() == rhs.coords.len(),
                forall|k: int| 0 <= k < i ==> #[trigger] self.coords[k] == sat_add(
                    old(self).coords[k],
                    rhs.coords[k],
                ),
                forall|k: int| i <= k < self.coords.len() ==> #[trigger] self.coords[k] == old(self).coords[k],
            decreases self.coords.len() - i,
        {
            let summed = scalar_add(self.coords[i], rhs.coords[i]);
            self.coords.set(i, summed);
            i += 1;
        }
        assert(self@ =~= seq_add(old(self)@, rhs@));
    }
}

// The operators `+`, `-`, `*` and `/` on references to points. No
// specification function can build a point, so the operator specifications
// are switched off and each result is stated on the method itself, over the
// views of the operands.

impl<'a, 'b> AddSpecImpl<&'b Point> for &'a Point {
    open spec fn obeys_add_spec() -> bool {
        false
    }

    open spec fn add_req(self, other: &'b Point) -> bool {
        self@.len() == other@.len()
    }

    open spec fn add_spec(self, other: &'b Point) -> Point {
        *self
    }
}

impl<'a, 'b> Add<&'b Point> for &'a Point {
    type Output = Point;

    /// The elementwise saturating sum.
    fn add(self, other: &'b Point) -> (r: Point)
        ensures
            r@ == seq_add(self@, other@),
    {
        Point::add(self, other)
    }
}

impl<'a, 'b> SubSpecImpl<&'b Point> for &'a Point {
    open spec fn obeys_sub_spec() -> bool {
        false
    }

    open spec fn sub_req(self, other: &'b Point) -> bool {
        self@.len() == other@.len()
    }

    open spec fn sub_spec(self, other: &'b Point) -> Point {
        *self
    }
}

impl<'a, 'b> Sub<&'b Point> for &'a Point {
    type Output = Point;

    /// The elementwise saturating difference.
    fn sub(self, other: &'b Point) -> (r: Point)
        ensures
            r@ == seq_sub(self@, other@),
    {
        Point::sub(self, other)
    }
}

impl<'a, 'b> MulSpecImpl<&'b Point> for &'a Point {
    open spec fn obeys_mul_spec() -> bool {
        false
    }

    open spec fn mul_req(self, other: &'b Point) -> bool {
        self@.len() == other@.len()
    }

    open spec fn mul_spec(self, other: &'b Point) -> Point {
        *self
    }
}

impl<'a, 'b> Mul<&'b Point> for &'a Point {
    type Output = Point;

    /// The elementwise fixed-point product.
    fn mul(self, other: &'b Point) -> (r: Point)
        ensures
            r@ == seq_mul(self@, other@),
    {
        Point::mul(self, other)
    }
}

impl<'a, 'b> DivSpecImpl<&'b Point> for &'a Point {
    open spec fn obeys_div_spec() -> bool {
        false
    }

    open spec fn div_req(self, other: &'b Point) -> bool {
        self@.len() == other@.len()
    }

    open spec fn div_spec(self, other: &'b Point) -> Point {
        *self
    }
}

impl<'a, 'b> Div<&'b Point> for &'a Point {
    type Output = Point;

    /// The elementwise fixed-point quotient.
    fn div(self, other: &'b Point) -> (r: Point)
        ensures
            r@ == seq_div(self@, other@),
    {
        Point::div(self, other)
    }
}

impl std::ops::AddAssign for Point {
    /// Adds `rhs` to the point, coordinate by coordinate.
    fn add_assign(&mut self, rhs: Point)
        requires
            old(self)@.len() == rhs@.len(),
        ensures
            final(self)@ == seq_add(old(self)@, rhs@),
    {
        Point::add_assign(self, rhs)
    }
}

/// Orders two scalars.
pub fn cmp(lhs: &i64, rhs: &i64) -> (r: Ordering)
    ensures
        *lhs < *rhs ==> r == Ordering::Less,
        *lhs == *rhs ==> r == Ordering::Equal,
        *lhs > *rhs ==> r == Ordering::Greater,
{
    if *lhs < *rhs {
        Ordering::Less
    } else if *lhs > *rhs {
        Ordering::Greater
    } else {
        Ordering::Equal
    }
}

} // verus!
