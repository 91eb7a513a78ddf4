//! Axis-aligned regions: containment, translation, shrinking and clamping.

use vstd::prelude::*;
use vstd::std_specs::cmp::PartialEqSpecImpl;

use crate::point::{
    lemma_shrink_one_is_identity, lemma_shrink_zero_is_center, seq_add, seq_clamp, seq_fill,
    seq_scale, seq_shrink, seq_sub, Point,
};
use crate::scalar::{
    clamp_to, is_fraction, lemma_descale_exact, midpoint, moderate, sat_sub, scalar_midpoint,
    scalar_sub, workable, UNIT,
};

verus! {

/// Names one corner of a region.
#[derive(Debug, PartialEq, Eq, Structural, Clone, Copy)]
pub enum BoundType {
    LowerBound,
    UpperBound,
}

/// How a region lies relative to a limit: which of its corners leave it.
#[derive(Debug, PartialEq, Eq, Structural, Clone, Copy)]
pub enum BoundsOverlap {
    UpperOutOfBounds,
    LowerOutOfBounds,
    BothOutOfBounds,
    NoneOutOfBounds,
}

// ---------------------------------------------------------------------------
// The model: a pair of corner sequences
// ---------------------------------------------------------------------------

/// The lower and the upper corner of a region.
pub struct Region {
    pub lower: Seq<i64>,
    pub upper: Seq<i64>,
}

/// Both corners have `n` coordinates.
pub open spec fn region_has_dim(r: Region, n: nat) -> bool {
    r.lower.len() == n && r.upper.len() == n
}

/// No coordinate of the lower corner exceeds that of the upper corner.
pub open spec fn region_sorted(r: Region) -> bool {
    forall|i: int| 0 <= i < r.lower.len() ==> r.lower[i] <= r.upper[i]
}

/// Every coordinate of both corners is within the working range.
pub open spec fn region_workable(r: Region) -> bool {
    &&& forall|i: int| 0 <= i < r.lower.len() ==> workable(#[trigger] r.lower[i])
    &&& forall|i: int| 0 <= i < r.upper.len() ==> workable(#[trigger] r.upper[i])
}

/// Some coordinate of the upper corner of `r` lies above the upper corner of
/// `limit`.
pub open spec fn upper_exceeds(r: Region, limit: Region) -> bool {
    exists|i: int| 0 <= i < r.upper.len() && r.upper[i] > limit.upper[i]
}

/// Some coordinate of the lower corner of `r` lies below the lower corner of
/// `limit`.
pub open spec fn lower_exceeds(r: Region, limit: Region) -> bool {
    exists|i: int| 0 <= i < r.lower.len() && r.lower[i] < limit.lower[i]
}

/// In some coordinate `r` lies wholly on one side of `limit`.
pub open spec fn regions_apart(r: Region, limit: Region) -> bool {
    ||| exists|i: int| 0 <= i < r.upper.len() && r.upper[i] < limit.lower[i]
    ||| exists|i: int| 0 <= i < r.lower.len() && r.lower[i] > limit.upper[i]
}

/// The classification of `r` against `limit`.
pub open spec fn region_within(r: Region, limit: Region) -> BoundsOverlap {
    if regions_apart(r, limit) {
        BoundsOverlap::BothOutOfBounds
    } else if lower_exceeds(r, limit) && upper_exceeds(r, limit) {
        BoundsOverlap::BothOutOfBounds
    } else if lower_exceeds(r, limit) {
        BoundsOverlap::LowerOutOfBounds
    } else if upper_exceeds(r, limit) {
        BoundsOverlap::UpperOutOfBounds
    } else {
        BoundsOverlap::NoneOutOfBounds
    }
}

/// `r` translated by `vector`.
pub open spec fn region_displace(r: Region, vector: Seq<i64>) -> Region {
    Region { lower: seq_add(r.lower, vector), upper: seq_add(r.upper, vector) }
}

/// Both corners of `r` multiplied by `factor`.
pub open spec fn region_scale(r: Region, factor: i64) -> Region {
    Region { lower: seq_scale(r.lower, factor), upper: seq_scale(r.upper, factor) }
}

/// Both corners of `r` moved towards `center`.
pub open spec fn region_shrink(r: Region, center: Seq<i64>, factor: i64) -> Region {
    Region {
        lower: seq_shrink(r.lower, center, factor),
        upper: seq_shrink(r.upper, center, factor),
    }
}

/// The vector from the lower to the upper corner.
pub open spec fn region_diagonal(r: Region) -> Seq<i64> {
    seq_sub(r.upper, r.lower)
}

/// The midpoint of the two corners.
pub open spec fn region_center(r: Region) -> Seq<i64> {
    Seq::new(r.lower.len(), |i: int| midpoint(r.lower[i], r.upper[i]))
}

/// The upper corner clamped into `limit`, and the lower corner moved by the
/// same displacement.
pub open spec fn region_clamp_upper(r: Region, limit: Region) -> Region {
    let new_upper = seq_clamp(r.upper, limit.lower, limit.upper);
    Region { lower: seq_add(r.lower, seq_sub(new_upper, r.upper)), upper: new_upper }
}

/// The lower corner clamped into `limit`, and the upper corner moved by the
/// same displacement.
pub open spec fn region_clamp_lower(r: Region, limit: Region) -> Region {
    let new_lower = seq_clamp(r.lower, limit.lower, limit.upper);
    Region { lower: new_lower, upper: seq_add(r.upper, seq_sub(new_lower, r.lower)) }
}

/// `r` clamped into `limit`.
///
/// A region inside the limit is unchanged. Where one corner leaves the limit,
/// that corner is clamped and the other follows. Where both leave it, the
/// lower corner is clamped first, and the upper corner of the lower-clamped
/// region is then clamped in its turn: of a region wider than the limit the
/// upper corner ends inside.
pub open spec fn region_clamp(r: Region, limit: Region) -> Region {
    match region_within(r, limit) {
        BoundsOverlap::NoneOutOfBounds => r,
        BoundsOverlap::UpperOutOfBounds => region_clamp_upper(r, limit),
        BoundsOverlap::LowerOutOfBounds => region_clamp_lower(r, limit),
        BoundsOverlap::BothOutOfBounds => region_clamp_upper(region_clamp_lower(r, limit), limit),
    }
}

// ---------------------------------------------------------------------------
// Laws of the model
// ---------------------------------------------------------------------------

/// A region whose corners are in order lies within itself.
pub proof fn lemma_within_reflexive(a: Region)
    requires
        a.lower.len() == a.upper.len(),
        region_sorted(a),
    ensures
        region_within(a, a) == BoundsOverlap::NoneOutOfBounds,
{
}

/// Shrinking a region by the factor one leaves it unchanged.
pub proof fn lemma_region_shrink_one_is_identity(r: Region, center: Seq<i64>)
    ensures
        region_shrink(r, center, UNIT) == r,
{
    lemma_shrink_one_is_identity(r.lower, center);
    lemma_shrink_one_is_identity(r.upper, center);
}

/// Shrinking a region by the factor zero collapses both corners onto the
/// centre.
pub proof fn lemma_region_shrink_zero_is_center(r: Region, center: Seq<i64>)
    requires
        region_has_dim(r, center.len()),
    ensures
        region_shrink(r, center, 0) == (Region { lower: center, upper: center }),
{
    lemma_shrink_zero_is_center(r.lower, center);
    lemma_shrink_zero_is_center(r.upper, center);
}

/// A translation and the opposite translation after it restore a region,
/// where the region and the vector lie within the working range.
pub proof fn lemma_region_round_trip(r: Region, vector: Seq<i64>)
    requires
        region_has_dim(r, vector.len()),
        region_workable(r),
        forall|i: int| 0 <= i < vector.len() ==> workable(#[trigger] vector[i]),
    ensures
        region_displace(region_displace(r, vector), seq_scale(vector, -1_000_000i64)) == r,
{
    let back = seq_scale(vector, -1_000_000i64);
    let home = region_displace(region_displace(r, vector), back);
    assert forall|i: int| 0 <= i < vector.len() implies #[trigger] back[i] == -vector[i] by {
        assert(workable(vector[i]));
        assert(vector[i] * (-1_000_000i64) == (-vector[i]) * UNIT) by (nonlinear_arith);
        lemma_descale_exact(-vector[i]);
    }
    assert forall|i: int| 0 <= i < vector.len() implies #[trigger] home.lower[i] == r.lower[i] by {
        assert(workable(vector[i]));
        assert(workable(r.lower[i]));
        assert(back[i] == -vector[i]);
    }
    assert forall|i: int| 0 <= i < vector.len() implies #[trigger] home.upper[i] == r.upper[i] by {
        assert(workable(vector[i]));
        assert(workable(r.upper[i]));
        assert(back[i] == -vector[i]);
    }
    assert(home.lower =~= r.lower);
    assert(home.upper =~= r.upper);
}

/// Clamping one corner translates the region: within the working range the
/// diagonal of the result is the diagonal of the region.
pub proof fn lemma_clamp_corner_keeps_diagonal(r: Region, limit: Region)
    requires
        region_has_dim(r, limit.lower.len()),
        region_has_dim(limit, limit.lower.len()),
        region_workable(r),
        region_workable(limit),
    ensures
        region_diagonal(region_clamp_upper(r, limit)) == region_diagonal(r),
        region_diagonal(region_clamp_lower(r, limit)) == region_diagonal(r),
{
    assert(region_diagonal(region_clamp_upper(r, limit)) =~= region_diagonal(r));
    assert(region_diagonal(region_clamp_lower(r, limit)) =~= region_diagonal(r));
}

/// The lower corner of `r` can follow the upper corner as that is clamped
/// into `limit`: moved by the same displacement, every coordinate of it stays
/// in the range of `i64`.
pub open spec fn lower_can_follow(r: Region, limit: Region) -> bool {
    forall|i: int|
        0 <= i < r.lower.len() ==> (#[trigger] r.lower[i]) + (clamp_to(
            r.upper[i],
            limit.lower[i],
            limit.upper[i],
        ) - r.upper[i]) >= i64::MIN
}

/// Clamping a region of which the upper corner alone leaves the limit keeps
/// its diagonal: the region slides and is not deformed.
///
/// This holds wherever the lower corner can follow, as it always can within
/// the working range.
pub proof fn lemma_clamp_upper_out_keeps_diagonal(r: Region, limit: Region)
    requires
        region_has_dim(r, limit.lower.len()),
        region_has_dim(limit, limit.lower.len()),
        region_within(r, limit) == BoundsOverlap::UpperOutOfBounds,
        lower_can_follow(r, limit),
    ensures
        region_diagonal(region_clamp(r, limit)) == region_diagonal(r),
{
    let clamped = region_clamp(r, limit);
    assert forall|i: int| 0 <= i < r.lower.len() implies #[trigger] region_diagonal(clamped)[i]
        == region_diagonal(r)[i] by {
        if r.lower[i] < limit.lower[i] {
            assert(lower_exceeds(r, limit));
        }
        if r.upper[i] < limit.lower[i] {
            assert(regions_apart(r, limit));
        }
        if r.lower[i] > limit.upper[i] {
            assert(regions_apart(r, limit));
        }
        assert(r.lower[i] + (clamp_to(r.upper[i], limit.lower[i], limit.upper[i]) - r.upper[i])
            >= i64::MIN);
    }
    assert(region_diagonal(clamped) =~= region_diagonal(r));
}

/// Within the working range the lower corner can follow the upper corner.
pub proof fn lemma_workable_can_follow(r: Region, limit: Region)
    requires
        region_has_dim(r, limit.lower.len()),
        region_has_dim(limit, limit.lower.len()),
        region_workable(r),
        region_workable(limit),
    ensures
        lower_can_follow(r, limit),
{
    assert forall|i: int| 0 <= i < r.lower.len() implies (#[trigger] r.lower[i]) + (clamp_to(
        r.upper[i],
        limit.lower[i],
        limit.upper[i],
    ) - r.upper[i]) >= i64::MIN by {
        assert(workable(r.lower[i]));
        assert(workable(r.upper[i]));
        assert(workable(limit.lower[i]));
        assert(workable(limit.upper[i]));
    }
}

/// Every coordinate of both corners is moderate.
pub open spec fn region_moderate(r: Region) -> bool {
    &&& forall|i: int| 0 <= i < r.lower.len() ==> moderate(#[trigger] r.lower[i])
    &&& forall|i: int| 0 <= i < r.upper.len() ==> moderate(#[trigger] r.upper[i])
}

/// Clamping never deforms a region: for moderate regions the diagonal of the
/// result is the diagonal of the region, however it lies to the limit.
pub proof fn lemma_clamp_keeps_diagonal(r: Region, limit: Region)
    requires
        region_has_dim(r, limit.lower.len()),
        region_has_dim(limit, limit.lower.len()),
        region_moderate(r),
        region_moderate(limit),
    ensures
        region_diagonal(region_clamp(r, limit)) == region_diagonal(r),
{
    let clamped = region_clamp(r, limit);
    assert forall|i: int| 0 <= i < r.lower.len() implies #[trigger] region_diagonal(clamped)[i]
        == region_diagonal(r)[i] by {
        assert(moderate(r.lower[i]));
        assert(moderate(r.upper[i]));
        assert(moderate(limit.lower[i]));
        assert(moderate(limit.upper[i]));
    }
    assert(region_diagonal(clamped) =~= region_diagonal(r));
}

// ---------------------------------------------------------------------------
// HypercubeBounds
// ---------------------------------------------------------------------------

/// The lower and upper corner of an axis-aligned region.
#[derive(Debug)]
pub struct HypercubeBounds {
    lower: Point,
    upper: Point,
}

impl View for HypercubeBounds {
    type V = Region;

    closed spec fn view(&self) -> Region {
        Region { lower: self.lower@, upper: self.upper@ }
    }
}

impl Clone for HypercubeBounds {
    fn clone(&self) -> (r: Self)
        ensures
            r@ == self@,
    {
        HypercubeBounds { lower: self.lower.clone(), upper: self.upper.clone() }
    }
}

impl PartialEqSpecImpl for HypercubeBounds {
    open spec fn obeys_eq_spec() -> bool {
        true
    }

    open spec fn eq_spec(&self, other: &HypercubeBounds) -> bool {
        self@ == other@
    }
}

impl PartialEq for HypercubeBounds {
    /// Two bounds are equal when their corners are.
    fn eq(&self, other: &HypercubeBounds) -> (r: bool) {
        self.lower == other.lower && self.upper == other.upper
    }
}

impl HypercubeBounds {
    /// Both corners are points of one dimension.
    pub open spec fn wf(&self) -> bool {
        &&& 0 < self@.lower.len() <= u32::MAX
        &&& self@.upper.len() == self@.lower.len()
    }

    /// The region from `lower` to `upper` in each of `dimension` coordinates.
    pub fn new(dimension: u32, lower: i64, upper: i64) -> (r: Self)
        requires
            upper > lower,
            dimension != 0,
        ensures
            r@.lower == seq_fill(lower, dimension as nat),
            r@.upper == seq_fill(upper, dimension as nat),
            r.wf(),
    {
        HypercubeBounds { lower: Point::fill(lower, dimension), upper: Point::fill(upper, dimension) }
    }

    /// The region with the two given corners.
    pub fn from_points(lower: Point, upper: Point) -> (r: Self)
        requires
            lower.wf(),
            upper@.len() == lower@.len(),
        ensures
            r@.lower == lower@,
            r@.upper == upper@,
            r.wf(),
    {
        HypercubeBounds { lower, upper }
    }

    /// Classifies how the region lies within `rhs`.
    ///
    /// The answer is `BothOutOfBounds` where the two regions lie apart in some
    /// coordinate, or where both corners leave `rhs`; otherwise it names the
    /// one corner that leaves `rhs`, or none.
    pub fn within(&self, rhs: &Self) -> (r: BoundsOverlap)
        requires
            self.wf(),
            rhs.wf(),
            rhs@.lower.len() == self@.lower.len(),
        ensures
            r == region_within(self@, rhs@),
    {
        let n = self.upper.dim() as usize;
        let mut lower_outside_range = false;
        let mut upper_outside_range = false;

        let mut i: usize = 0;
        while i < n
            invariant
                i <= n,
                n == self@.upper.len(),
                n == self@.lower.len(),
                n == rhs@.upper.len(),
                n == rhs@.lower.len(),
                upper_outside_range <==> exists|k: int|
                    0 <= k < i && self@.upper[k] > rhs@.upper[k],
                forall|k: int| 0 <= k < i ==> self@.upper[k] >= rhs@.lower[k],
            decreases n - i,
        {
            let element = *self.upper.get(i).unwrap();
            if element > *rhs.upper.get(i).unwrap() {
                upper_outside_range = true;
            }
            if element < *rhs.lower.get(i).unwrap() {
                return BoundsOverlap::BothOutOfBounds;
            }
            i += 1;
        }

        let mut j: usize = 0;
        while j < n
            invariant
                j <= n,
                n == self@.upper.len(),
                n == self@.lower.len(),
                n == rhs@.upper.len(),
                n == rhs@.lower.len(),
                lower_outside_range <==> exists|k: int|
                    0 <= k < j && self@.lower[k] < rhs@.lower[k],
                forall|k: int| 0 <= k < j ==> self@.lower[k] <= rhs@.upper[k],
            decreases n - j,
        {
            let element = *self.lower.get(j).unwrap();
            if element < *rhs.lower.get(j).unwrap() {
                lower_outside_range = true;
            }
            if element > *rhs.upper.get(j).unwrap() {
                return BoundsOverlap::BothOutOfBounds;
            }
            j += 1;
        }

        if lower_outside_range && upper_outside_range {
            BoundsOverlap::BothOutOfBounds
        } else if lower_outside_range {
            BoundsOverlap::LowerOutOfBounds
        } else if upper_outside_range {
            BoundsOverlap::UpperOutOfBounds
        } else {
            BoundsOverlap::NoneOutOfBounds
        }
    }

    /// The region translated by `vector`.
    pub fn displace_by(&self, vector: &Point) -> (r: Self)
        requires
            self.wf(),
            vector@.len() == self@.lower.len(),
        ensures
            r@ == region_displace(self@, vector@),
            r.wf(),
    {
        HypercubeBounds { lower: self.lower.add(vector), upper: self.upper.add(vector) }
    }

    /// Translates the region by `vector`.
    pub fn displace_by_in_place(&mut self, vector: &Point)
        requires
            old(self).wf(),
            vector@.len() == old(self)@.lower.len(),
        ensures
            final(self)@ == region_displace(old(self)@, vector@),
            final(self).wf(),
    {
        self.lower = self.lower.add(vector);
        self.upper = self.upper.add(vector);
    }

    /// Multiplies both corners by `scale_factor`.
    pub fn scale_in_place(&mut self, scale_factor: i64)
        requires
            old(self).wf(),
        ensures
            final(self)@ == region_scale(old(self)@, scale_factor),
            final(self).wf(),
    {
        self.lower.scale_in_place(scale_factor);
        self.upper.scale_in_place(scale_factor);
    }

    /// The region with both corners moved towards `center` by `scale_factor`.
    pub fn shrink_towards_center(&self, center: &Point, scale_factor: i64) -> (r: Self)
        requires
            self.wf(),
            is_fraction(scale_factor),
            center@.len() == self@.lower.len(),
        ensures
            r@ == region_shrink(self@, center@, scale_factor),
            r.wf(),
    {
        let mut new_lower = self.lower.clone();
        let mut new_upper = self.upper.clone();
        new_lower.shrink_towards_center_in_place(center, scale_factor);
        new_upper.shrink_towards_center_in_place(center, scale_factor);
        HypercubeBounds { lower: new_lower, upper: new_upper }
    }

    /// The vector from the lower to the upper corner.
    pub fn get_diagonal(&self) -> (r: Point)
        requires
            self.wf(),
        ensures
            r@ == region_diagonal(self@),
            r.wf(),
    {
        self.upper.sub(&self.lower)
    }

    /// The lower corner.
    pub fn get_lower(&self) -> (r: &Point)
        ensures
            r@ == self@.lower,
    {
        &self.lower
    }

    /// The upper corner.
    pub fn get_upper(&self) -> (r: &Point)
        ensures
            r@ == self@.upper,
    {
        &self.upper
    }

    /// The number of coordinates.
    pub fn dim(&self) -> (r: u32)
        requires
            self.wf(),
        ensures
            r == self@.lower.len(),
            r >= 1,
    {
        self.upper.dim()
    }

    /// The corner that `bound` names.
    pub fn get(&self, bound: &BoundType) -> (r: &Point)
        ensures
            *bound == BoundType::LowerBound ==> r@ == self@.lower,
            *bound == BoundType::UpperBound ==> r@ == self@.upper,
    {
        match bound {
            BoundType::LowerBound => &self.lower,
            BoundType::UpperBound => &self.upper,
        }
    }

    /// The point halfway between the two corners.
    pub fn compute_center(&self) -> (r: Point)
        requires
            self.wf(),
        ensures
            r@ == region_center(self@),
            r.wf(),
    {
        let n = self.lower.dim() as usize;
        let mut coords: Vec<i64> = Vec::new();
        let mut i: usize = 0;
        while i < n
            invariant
                i <= n,
                n == self@.lower.len(),
                n == self@.upper.len(),
                coords.len() == i,
                forall|k: int|
                    0 <= k < i ==> #[trigger] coords[k] == midpoint(self@.lower[k], self@.upper[k]),
            decreases n - i,
        {
            coords.push(scalar_midpoint(*self.lower.get(i).unwrap(), *self.upper.get(i).unwrap()));
            i += 1;
        }
        assert(coords@ =~= region_center(self@));
        Point::from_vec(coords)
    }

    /// The side length: the span of the first coordinate.
    pub fn get_length(&self) -> (r: i64)
        requires
            self.wf(),
        ensures
            r == sat_sub(self@.upper[0], self@.lower[0]),
    {
        let upper = self.upper.get(0);
        let lower = self.lower.get(0);
        scalar_sub(*upper.unwrap(), *lower.unwrap())
    }

    fn clamp_upper(&self, limit: &HypercubeBounds) -> (r: HypercubeBounds)
        requires
            self.wf(),
            limit.wf(),
            limit@.lower.len() == self@.lower.len(),
        ensures
            r@ == region_clamp_upper(self@, limit@),
            r.wf(),
    {
        let new_upper = self.upper.clamp(limit);
        let old_upper_to_new_upper = new_upper.sub(&self.upper);
        let new_lower = self.lower.add(&old_upper_to_new_upper);
        HypercubeBounds::from_points(new_lower, new_upper)
    }

    fn clamp_lower(&self, limit: &HypercubeBounds) -> (r: HypercubeBounds)
        requires
            self.wf(),
            limit.wf(),
            limit@.lower.len() == self@.lower.len(),
        ensures
            r@ == region_clamp_lower(self@, limit@),
            r.wf(),
    {
        let new_lower = self.lower.clamp(limit);
        let old_lower_to_new_lower = new_lower.sub(&self.lower);
        let new_upper = self.upper.add(&old_lower_to_new_lower);
        HypercubeBounds::from_points(new_lower, new_upper)
    }

    /// The region moved so as to fit `limit`, without changing its size.
    ///
    /// A region inside `limit` is returned unchanged. Where one corner leaves
    /// `limit`, that corner is clamped into it and the other corner moves by
    /// the same displacement. Where both leave it, the lower corner is clamped
    /// first, and the upper corner of the lower-clamped region is then clamped
    /// in its turn.
    pub fn clamp(&self, limit: &HypercubeBounds) -> (r: HypercubeBounds)
        requires
            self.wf(),
            limit.wf(),
            limit@.lower.len() == self@.lower.len(),
        ensures
            r@ == region_clamp(self@, limit@),
            r.wf(),
    {
        match self.within(limit) {
            BoundsOverlap::NoneOutOfBounds => self.clone(),
            BoundsOverlap::UpperOutOfBounds => self.clamp_upper(limit),
            BoundsOverlap::LowerOutOfBounds => self.clamp_lower(limit),
            BoundsOverlap::BothOutOfBounds => {
                let lower_clamp_result = self.clamp_lower(limit);
                lower_clamp_result.clamp_upper(limit)
            },
        }
    }
}

} // verus!
