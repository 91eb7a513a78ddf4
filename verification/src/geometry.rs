//! How a search region behaves inside the region it started from.
//!
//! A search region is tracked beside the limit it was created with. The facts
//! here say what translating, shrinking and clamping do to one that is in
//! order and lies inside the limit.

use vstd::prelude::*;

use crate::bounds::{
    region_clamp, region_clamp_lower, region_clamp_upper, region_has_dim, region_within,
    BoundsOverlap, Region,
};
use crate::scalar::{
    is_fraction, lemma_midpoint_between, lemma_shrink_between, lemma_shrink_keeps_midpoint,
    lemma_shrink_monotone, midpoint, moderate, sat_add, sat_sub, shrink_toward,
};

verus! {

/// In coordinate `i` the limit is a proper interval of moderate scalars.
pub open spec fn limit_ok_at(limit: Region, i: int) -> bool {
    &&& moderate(limit.lower[i])
    &&& moderate(limit.upper[i])
    &&& limit.lower[i] < limit.upper[i]
}

/// In coordinate `i` the region is in order and lies inside the limit.
pub open spec fn fits_at(r: Region, limit: Region, i: int) -> bool {
    limit.lower[i] <= r.lower[i] <= r.upper[i] <= limit.upper[i]
}

/// In coordinate `i` both corners of the region lie inside the limit.
pub open spec fn inside_at(r: Region, limit: Region, i: int) -> bool {
    &&& limit.lower[i] <= r.lower[i] <= limit.upper[i]
    &&& limit.lower[i] <= r.upper[i] <= limit.upper[i]
}

/// The limit is a proper region of moderate scalars in `n` coordinates.
pub open spec fn limit_ok(limit: Region, n: nat) -> bool {
    &&& region_has_dim(limit, n)
    &&& forall|i: int| 0 <= i < n ==> #[trigger] limit_ok_at(limit, i)
}

/// The region is in order and lies inside the limit, in each of `n`
/// coordinates.
pub open spec fn fits(r: Region, limit: Region, n: nat) -> bool {
    &&& region_has_dim(r, n)
    &&& forall|i: int| 0 <= i < n ==> #[trigger] fits_at(r, limit, i)
}

/// The region is in order and no wider than the limit, in each of `n`
/// coordinates; it may lie anywhere.
pub open spec fn sized_at(r: Region, limit: Region, i: int) -> bool {
    &&& r.lower[i] <= r.upper[i]
    &&& r.upper[i] - r.lower[i] <= limit.upper[i] - limit.lower[i]
    &&& -4 * crate::scalar::COORD_MAX <= r.lower[i]
    &&& r.upper[i] <= 4 * crate::scalar::COORD_MAX
}

/// A region lies within a limit exactly when it lies inside it in every
/// coordinate.
pub proof fn lemma_within_none(r: Region, limit: Region, n: nat)
    requires
        region_has_dim(r, n),
        region_has_dim(limit, n),
    ensures
        region_within(r, limit) == BoundsOverlap::NoneOutOfBounds <==> (forall|i: int|
            0 <= i < n ==> #[trigger] inside_at(r, limit, i)),
{
    if region_within(r, limit) == BoundsOverlap::NoneOutOfBounds {
        assert forall|i: int| 0 <= i < n implies #[trigger] inside_at(r, limit, i) by {
            if r.lower[i] < limit.lower[i] {
                assert(crate::bounds::lower_exceeds(r, limit));
            }
            if r.upper[i] > limit.upper[i] {
                assert(crate::bounds::upper_exceeds(r, limit));
            }
            if r.upper[i] < limit.lower[i] || r.lower[i] > limit.upper[i] {
                assert(crate::bounds::regions_apart(r, limit));
            }
        }
    }
    if forall|i: int| 0 <= i < n ==> #[trigger] inside_at(r, limit, i) {
        if crate::bounds::upper_exceeds(r, limit) {
            let i = choose|i: int| 0 <= i < r.upper.len() && r.upper[i] > limit.upper[i];
            assert(inside_at(r, limit, i));
        }
        if crate::bounds::lower_exceeds(r, limit) {
            let i = choose|i: int| 0 <= i < r.lower.len() && r.lower[i] < limit.lower[i];
            assert(inside_at(r, limit, i));
        }
        if exists|i: int| 0 <= i < r.upper.len() && r.upper[i] < limit.lower[i] {
            let i = choose|i: int| 0 <= i < r.upper.len() && r.upper[i] < limit.lower[i];
            assert(inside_at(r, limit, i));
        }
        if exists|i: int| 0 <= i < r.lower.len() && r.lower[i] > limit.upper[i] {
            let i = choose|i: int| 0 <= i < r.lower.len() && r.lower[i] > limit.upper[i];
            assert(inside_at(r, limit, i));
        }
    }
}

/// A translation that lands a fitting region within the limit is exact: no
/// sum saturates, and a scalar between the corners stays between them.
pub proof fn lemma_translate_exact(
    lower: i64,
    upper: i64,
    inner: i64,
    shift: i64,
    limit_lower: i64,
    limit_upper: i64,
)
    requires
        moderate(limit_lower),
        moderate(limit_upper),
        lower <= inner <= upper,
        limit_lower <= sat_add(lower, shift),
        sat_add(upper, shift) <= limit_upper,
    ensures
        sat_add(lower, shift) == lower + shift,
        sat_add(upper, shift) == upper + shift,
        sat_add(inner, shift) == inner + shift,
        sat_sub(sat_add(upper, shift), sat_add(lower, shift)) == upper - lower,
        midpoint(sat_add(lower, shift), sat_add(upper, shift)) == midpoint(lower, upper) + shift,
{
}

/// Coordinate by coordinate, what clamping does to a region that is in order
/// and no wider than the limit: each rule puts the lower corner at the nearest
/// place from which the region fits.
proof fn lemma_clamp_coordinate(lower: i64, upper: i64, limit_lower: i64, limit_upper: i64)
    requires
        moderate(limit_lower),
        moderate(limit_upper),
        limit_lower < limit_upper,
        lower <= upper,
        upper - lower <= limit_upper - limit_lower,
        -4 * crate::scalar::COORD_MAX <= lower,
        upper <= 4 * crate::scalar::COORD_MAX,
    ensures
        ({
            // the upper corner is clamped, the lower corner follows
            let new_upper = crate::scalar::clamp_to(upper, limit_lower, limit_upper);
            let new_lower = sat_add(lower, sat_sub(new_upper, upper));
            &&& new_upper - new_lower == upper - lower
            &&& limit_lower <= lower ==> new_lower == nearest_fit(
                lower,
                upper,
                limit_lower,
                limit_upper,
            )
        }),
        ({
            // the lower corner is clamped, the upper corner follows
            let new_lower = crate::scalar::clamp_to(lower, limit_lower, limit_upper);
            let new_upper = sat_add(upper, sat_sub(new_lower, lower));
            &&& new_upper - new_lower == upper - lower
            &&& upper <= limit_upper ==> new_lower == nearest_fit(
                lower,
                upper,
                limit_lower,
                limit_upper,
            )
        }),
        ({
            // the lower corner is clamped first; the upper corner of the
            // result is clamped then
            let mid_lower = crate::scalar::clamp_to(lower, limit_lower, limit_upper);
            let mid_upper = sat_add(upper, sat_sub(mid_lower, lower));
            let new_upper = crate::scalar::clamp_to(mid_upper, limit_lower, limit_upper);
            let new_lower = sat_add(mid_lower, sat_sub(new_upper, mid_upper));
            &&& new_upper - new_lower == upper - lower
            &&& new_lower == nearest_fit(lower, upper, limit_lower, limit_upper)
        }),
        (limit_lower <= lower && upper <= limit_upper) ==> lower == nearest_fit(
            lower,
            upper,
            limit_lower,
            limit_upper,
        ),
{
}

/// Where the lower corner of the interval `[lower, upper]` comes to lie when
/// the interval is moved the shortest way into `[limit_lower, limit_upper]`.
pub open spec fn nearest_fit(lower: i64, upper: i64, limit_lower: i64, limit_upper: i64) -> i64 {
    crate::scalar::clamp_to(lower, limit_lower, (limit_upper - (upper - lower)) as i64)
}

/// In coordinate `i`, `landed` is `r` moved the shortest way into the limit,
/// without a change of size.
pub open spec fn landed_at(r: Region, limit: Region, landed: Region, i: int) -> bool {
    &&& landed.upper[i] - landed.lower[i] == r.upper[i] - r.lower[i]
    &&& landed.lower[i] == nearest_fit(r.lower[i], r.upper[i], limit.lower[i], limit.upper[i])
    &&& limit.lower[i] <= landed.lower[i]
    &&& landed.upper[i] <= limit.upper[i]
    &&& midpoint(landed.lower[i], landed.upper[i]) - midpoint(r.lower[i], r.upper[i])
        == landed.lower[i] - r.lower[i]
}

/// Clamping moves a region into the limit without deforming it.
///
/// For a region in order and no wider than a proper limit, the clamped region
/// has the same size, lies within the limit, and is in every coordinate the
/// nearest such region.
pub proof fn lemma_clamp_lands(r: Region, limit: Region, n: nat)
    requires
        limit_ok(limit, n),
        region_has_dim(r, n),
        forall|i: int| 0 <= i < n ==> #[trigger] sized_at(r, limit, i),
    ensures
        region_has_dim(region_clamp(r, limit), n),
        forall|i: int| 0 <= i < n ==> #[trigger] landed_at(r, limit, region_clamp(r, limit), i),
        region_within(region_clamp(r, limit), limit) == BoundsOverlap::NoneOutOfBounds,
{
    let landed = region_clamp(r, limit);
    let kind = region_within(r, limit);
    assert forall|i: int| 0 <= i < n implies #[trigger] landed_at(r, limit, landed, i) by {
        assert(limit_ok_at(limit, i));
        assert(sized_at(r, limit, i));
        lemma_clamp_coordinate(r.lower[i], r.upper[i], limit.lower[i], limit.upper[i]);
        lemma_midpoint_between(r.lower[i], r.upper[i]);
        if kind == BoundsOverlap::NoneOutOfBounds {
            lemma_within_none(r, limit, n);
            assert(inside_at(r, limit, i));
        } else if kind == BoundsOverlap::UpperOutOfBounds {
            if r.lower[i] < limit.lower[i] {
                assert(crate::bounds::lower_exceeds(r, limit));
            }
        } else if kind == BoundsOverlap::LowerOutOfBounds {
            if r.upper[i] > limit.upper[i] {
                assert(crate::bounds::upper_exceeds(r, limit));
            }
        } else {
            let lowered = region_clamp_lower(r, limit);
            assert(landed == region_clamp_upper(lowered, limit));
        }
        lemma_midpoint_between(landed.lower[i], landed.upper[i]);
    }
    lemma_within_none(landed, limit, n);
    assert forall|i: int| 0 <= i < n implies #[trigger] inside_at(landed, limit, i) by {
        assert(landed_at(r, limit, landed, i));
        assert(limit_ok_at(limit, i));
        assert(sized_at(r, limit, i));
    }
}

/// Shrinking a region towards its own centre keeps the centre, keeps the
/// order of the corners, and keeps inside it every scalar that was inside.
pub proof fn lemma_shrink_coordinate(lower: i64, upper: i64, inner: i64, factor: i64)
    requires
        lower <= inner <= upper,
        is_fraction(factor),
    ensures
        ({
            let center = midpoint(lower, upper);
            let new_lower = shrink_toward(lower, center, factor);
            let new_upper = shrink_toward(upper, center, factor);
            let new_inner = shrink_toward(inner, center, factor);
            &&& lower <= new_lower <= new_inner <= new_upper <= upper
            &&& midpoint(new_lower, new_upper) == center
        }),
{
    let center = midpoint(lower, upper);
    lemma_midpoint_between(lower, upper);
    lemma_shrink_keeps_midpoint(lower, upper, factor);
    lemma_shrink_between(lower, center, factor);
    lemma_shrink_between(upper, center, factor);
    lemma_shrink_monotone(lower, inner, center, factor);
    lemma_shrink_monotone(inner, upper, center, factor);
}

} // verus!
