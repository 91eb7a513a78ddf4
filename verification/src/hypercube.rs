//! The search region with its population of sample points.

use vstd::multiset::Multiset;
use vstd::prelude::*;
use vstd::seq_lib::{lemma_multiset_commutative, to_multiset_build};
use vstd::std_specs::cmp::PartialEqSpecImpl;

use crate::bounds::{
    region_center, region_clamp, region_diagonal, region_displace, region_shrink, region_within,
    BoundsOverlap, HypercubeBounds, Region,
};
use crate::evaluation::{Evaluation, PointEval};
use crate::geometry::{
    fits, fits_at, inside_at, landed_at, lemma_clamp_lands, lemma_shrink_coordinate,
    lemma_translate_exact, lemma_within_none, limit_ok, limit_ok_at, sized_at,
};
use crate::point::{length_of, seq_add, seq_fill, seq_inside, seq_scale, seq_shrink, seq_sub, Point};
use crate::queue::{popped, views_of, BestQueue};
use crate::scalar::{
    clamp_to, is_fraction, lemma_descale_exact, lemma_midpoint_between, midpoint, moderate,
    sat_add, sat_sub, workable, COORD_MAX, UNIT,
};

verus! {

// ---------------------------------------------------------------------------
// The model
// ---------------------------------------------------------------------------

/// What a hypercube holds.
pub struct CubeState {
    /// The number of coordinates.
    pub dimension: u32,
    /// The number of points in the population.
    pub population_size: u64,
    /// The region the hypercube was created with.
    pub init: Region,
    /// The region that is searched now.
    pub current: Region,
    /// The vector from the lower to the upper corner of `current`.
    pub diagonal: Seq<i64>,
    /// The midpoint of `current`.
    pub center: Seq<i64>,
    /// The sample points.
    pub population: Seq<Seq<i64>>,
    /// The evaluations of the population, in the order they were made.
    pub values: Seq<Evaluation>,
    /// The same evaluations as the best-first structure holds them.
    pub ordered: Multiset<Evaluation>,
}

/// The number of coordinates of a hypercube.
pub open spec fn cube_dim(s: CubeState) -> nat {
    s.init.lower.len()
}

/// `p` is a point of `n` coordinates inside `r`.
pub open spec fn member_ok(p: Seq<i64>, r: Region, n: nat) -> bool {
    p.len() == n && seq_inside(p, r.lower, r.upper)
}

/// `p` is one of the points of `population`.
pub open spec fn is_member(population: Seq<Seq<i64>>, p: Seq<i64>) -> bool {
    exists|k: int| 0 <= k < population.len() && #[trigger] population[k] == p
}

/// The invariant of a hypercube.
///
/// The initial region is a proper region of moderate scalars. The current
/// region is in order and lies within the initial one. The centre is the
/// midpoint of the current region, the diagonal is its diagonal, and every
/// point of the population lies inside it. No evaluation is stale: each one is of a point
/// of the population, and the best-first structure holds none that the list
/// of evaluations does not hold.
pub open spec fn cube_wf(s: CubeState) -> bool {
    let n = cube_dim(s);
    &&& 0 < n <= u32::MAX
    &&& s.dimension == n
    &&& s.population_size == s.population.len()
    &&& limit_ok(s.init, n)
    &&& fits(s.current, s.init, n)
    &&& cube_contained(s)
    &&& s.center == region_center(s.current)
    &&& s.diagonal == region_diagonal(s.current)
    &&& forall|k: int|
        0 <= k < s.population.len() ==> member_ok(#[trigger] s.population[k], s.current, n)
    &&& forall|j: int|
        0 <= j < s.values.len() ==> is_member(s.population, (#[trigger] s.values[j]).point)
    &&& s.ordered.subset_of(s.values.to_multiset())
}

/// The current region lies within the initial one.
pub open spec fn cube_contained(s: CubeState) -> bool {
    region_within(s.current, s.init) == BoundsOverlap::NoneOutOfBounds
}

/// Every point of `population` translated by `vector`.
pub open spec fn all_displaced(population: Seq<Seq<i64>>, vector: Seq<i64>) -> Seq<Seq<i64>> {
    population.map_values(|p: Seq<i64>| seq_add(p, vector))
}

/// Every point of `population` moved towards `center`.
pub open spec fn all_shrunk(population: Seq<Seq<i64>>, center: Seq<i64>, factor: i64) -> Seq<
    Seq<i64>,
> {
    population.map_values(|p: Seq<i64>| seq_shrink(p, center, factor))
}

/// The state after a translation by `vector`: region, centre and population
/// move, and the evaluations are dropped.
pub open spec fn cube_displaced(s: CubeState, vector: Seq<i64>) -> CubeState {
    CubeState {
        dimension: s.dimension,
        population_size: s.population_size,
        init: s.init,
        current: region_displace(s.current, vector),
        diagonal: region_diagonal(region_displace(s.current, vector)),
        center: seq_add(s.center, vector),
        population: all_displaced(s.population, vector),
        values: Seq::empty(),
        ordered: Multiset::empty(),
    }
}

/// The state after shrinking towards the centre by `factor`: region and
/// population shrink, the centre stays, and the evaluations are dropped.
pub open spec fn cube_shrunk(s: CubeState, factor: i64) -> CubeState {
    CubeState {
        dimension: s.dimension,
        population_size: s.population_size,
        init: s.init,
        current: region_shrink(s.current, s.center, factor),
        diagonal: region_diagonal(region_shrink(s.current, s.center, factor)),
        center: s.center,
        population: all_shrunk(s.population, s.center, factor),
        values: Seq::empty(),
        ordered: Multiset::empty(),
    }
}

/// Where a hypercube lands that is sent to `destination`: the region moved
/// there, clamped into the initial region.
pub open spec fn landing(s: CubeState, destination: Seq<i64>) -> Region {
    region_clamp(region_displace(s.current, seq_sub(destination, s.center)), s.init)
}

/// The nearest place to `destination` at which the centre of the hypercube
/// can lie with the hypercube inside its initial region: each coordinate of
/// `destination` clamped between the ends of the initial region, less the
/// reach of the current region to either side of its centre.
pub open spec fn nearest_center(s: CubeState, destination: Seq<i64>) -> Seq<i64> {
    Seq::new(
        destination.len(),
        |i: int|
            clamp_to(
                destination[i],
                (s.init.lower[i] + (s.center[i] - s.current.lower[i])) as i64,
                (s.init.upper[i] - (s.current.upper[i] - s.center[i])) as i64,
            ),
    )
}

/// The state after the hypercube was sent to `destination`.
pub open spec fn cube_sent(s: CubeState, destination: Seq<i64>) -> CubeState {
    cube_displaced(s, seq_sub(region_center(landing(s, destination)), s.center))
}

/// How many points a hypercube of the given dimension and span holds: the
/// square of the dimension for each whole unit of the span.
pub open spec fn population_count(dimension: u32, lower: i64, upper: i64) -> int {
    dimension * dimension * ((upper - lower) / (UNIT as int))
}

/// Every coordinate of `a` is within the working range.
pub open spec fn seq_workable(a: Seq<i64>) -> bool {
    forall|i: int| 0 <= i < a.len() ==> workable(#[trigger] a[i])
}

// ---------------------------------------------------------------------------
// Laws of the model
// ---------------------------------------------------------------------------

/// Every evaluation in the best-first structure is of a point of the
/// population.
pub proof fn lemma_held_is_member(s: CubeState, e: Evaluation)
    requires
        cube_wf(s),
        s.ordered.contains(e),
    ensures
        is_member(s.population, e.point),
{
    s.values.to_multiset_ensures();
    assert(s.values.to_multiset().count(e) >= s.ordered.count(e));
    assert(s.values.contains(e));
    let j = choose|j: int| 0 <= j < s.values.len() && s.values[j] == e;
    assert(is_member(s.population, s.values[j].point));
}

/// Every point of the population has the dimension of the hypercube and
/// lies within the initial region.
pub proof fn lemma_member_inside(s: CubeState, k: int)
    requires
        cube_wf(s),
        0 <= k < s.population.len(),
    ensures
        s.population[k].len() == cube_dim(s),
        seq_inside(s.population[k], s.init.lower, s.init.upper),
        seq_workable(s.population[k]),
{
    let p = s.population[k];
    assert(member_ok(p, s.current, cube_dim(s)));
    assert forall|i: int| 0 <= i < p.len() implies s.init.lower[i] <= #[trigger] p[i]
        <= s.init.upper[i] && workable(p[i]) by {
        assert(fits_at(s.current, s.init, i));
        assert(limit_ok_at(s.init, i));
    }
}

/// A translation that lands the current region within the initial one keeps
/// the invariant, and is exact in every coordinate.
pub proof fn lemma_displaced_wf(s: CubeState, vector: Seq<i64>)
    requires
        cube_wf(s),
        vector.len() == cube_dim(s),
        region_within(region_displace(s.current, vector), s.init)
            == BoundsOverlap::NoneOutOfBounds,
    ensures
        cube_wf(cube_displaced(s, vector)),
        cube_contained(cube_displaced(s, vector)),
        forall|i: int|
            0 <= i < cube_dim(s) ==> #[trigger] region_displace(s.current, vector).lower[i]
                == s.current.lower[i] + vector[i] && region_displace(s.current, vector).upper[i]
                == s.current.upper[i] + vector[i] && seq_add(s.center, vector)[i] == s.center[i]
                + vector[i],
{
    let n = cube_dim(s);
    let t = region_displace(s.current, vector);
    let f = cube_displaced(s, vector);
    lemma_within_none(t, s.init, n);
    assert forall|i: int| 0 <= i < n implies #[trigger] fits_at(t, s.init, i) && f.center[i]
        == midpoint(t.lower[i], t.upper[i]) && t.lower[i] == s.current.lower[i] + vector[i]
        && t.upper[i] == s.current.upper[i] + vector[i] && f.center[i] == s.center[i]
        + vector[i] by {
        assert(inside_at(t, s.init, i));
        assert(fits_at(s.current, s.init, i));
        assert(limit_ok_at(s.init, i));
        lemma_midpoint_between(s.current.lower[i], s.current.upper[i]);
        lemma_translate_exact(
            s.current.lower[i],
            s.current.upper[i],
            s.center[i],
            vector[i],
            s.init.lower[i],
            s.init.upper[i],
        );
    }
    assert forall|i: int| 0 <= i < n implies #[trigger] f.center[i] == region_center(t)[i] by {
        assert(fits_at(t, s.init, i));
    }
    assert(f.center =~= region_center(t));
    assert forall|i: int| 0 <= i < cube_dim(s) implies #[trigger] region_displace(
        s.current,
        vector,
    ).lower[i] == s.current.lower[i] + vector[i] && region_displace(s.current, vector).upper[i]
        == s.current.upper[i] + vector[i] && seq_add(s.center, vector)[i] == s.center[i]
        + vector[i] by {
        assert(fits_at(t, s.init, i));
    }
    assert forall|k: int| 0 <= k < f.population.len() implies member_ok(
        #[trigger] f.population[k],
        f.current,
        n,
    ) by {
        let p = s.population[k];
        assert(member_ok(p, s.current, n));
        assert forall|i: int| 0 <= i < n implies t.lower[i] <= #[trigger] f.population[k][i]
            <= t.upper[i] by {
            assert(inside_at(t, s.init, i));
            assert(fits_at(s.current, s.init, i));
            assert(limit_ok_at(s.init, i));
            lemma_translate_exact(
                s.current.lower[i],
                s.current.upper[i],
                p[i],
                vector[i],
                s.init.lower[i],
                s.init.upper[i],
            );
        }
    }
}

/// Shrinking towards the centre keeps the invariant: the hypercube stays
/// within its initial region.
pub proof fn lemma_shrunk_wf(s: CubeState, factor: i64)
    requires
        cube_wf(s),
        is_fraction(factor),
    ensures
        cube_wf(cube_shrunk(s, factor)),
        cube_contained(cube_shrunk(s, factor)),
{
    let n = cube_dim(s);
    let f = cube_shrunk(s, factor);
    assert forall|i: int| 0 <= i < n implies #[trigger] fits_at(f.current, s.init, i)
        && f.center[i] == midpoint(f.current.lower[i], f.current.upper[i]) && s.current.lower[i]
        <= f.current.lower[i] && f.current.upper[i] <= s.current.upper[i] by {
        assert(fits_at(s.current, s.init, i));
        assert(s.center[i] == midpoint(s.current.lower[i], s.current.upper[i]));
        lemma_shrink_coordinate(s.current.lower[i], s.current.upper[i], s.current.lower[i], factor);
    }
    assert forall|i: int| 0 <= i < n implies #[trigger] f.center[i] == region_center(
        f.current,
    )[i] by {
        assert(fits_at(f.current, s.init, i));
    }
    assert(f.center =~= region_center(f.current));
    assert forall|k: int| 0 <= k < f.population.len() implies member_ok(
        #[trigger] f.population[k],
        f.current,
        n,
    ) by {
        let p = s.population[k];
        assert(member_ok(p, s.current, n));
        assert forall|i: int| 0 <= i < n implies f.current.lower[i]
            <= #[trigger] f.population[k][i] <= f.current.upper[i] by {
            assert(fits_at(s.current, s.init, i));
            assert(s.center[i] == midpoint(s.current.lower[i], s.current.upper[i]));
            lemma_shrink_coordinate(s.current.lower[i], s.current.upper[i], p[i], factor);
        }
    }
    lemma_within_none(f.current, s.init, n);
    assert forall|i: int| 0 <= i < n implies #[trigger] inside_at(f.current, s.init, i) by {
        assert(fits_at(f.current, s.init, i));
    }
}

proof fn lemma_target_coordinate(
    lower: i64,
    upper: i64,
    destination: i64,
    limit_lower: i64,
    limit_upper: i64,
)
    requires
        moderate(limit_lower),
        moderate(limit_upper),
        limit_lower < limit_upper,
        limit_lower <= lower <= upper <= limit_upper,
        workable(destination),
    ensures
        ({
            let center = midpoint(lower, upper);
            let shift = sat_sub(destination, center);
            let new_lower = sat_add(lower, shift);
            let new_upper = sat_add(upper, shift);
            &&& new_lower == lower + destination - center
            &&& new_upper == upper + destination - center
            &&& -4 * COORD_MAX <= new_lower <= new_upper <= 4 * COORD_MAX
            &&& midpoint(new_lower, new_upper) == destination
            &&& sat_add(center, shift) == destination
        }),
{
}

proof fn lemma_landing_coordinate(
    lower: i64,
    upper: i64,
    inner: i64,
    destination: i64,
    limit_lower: i64,
    limit_upper: i64,
    landed_lower: i64,
    landed_upper: i64,
)
    requires
        moderate(limit_lower),
        moderate(limit_upper),
        limit_lower < limit_upper,
        limit_lower <= lower <= inner,
        inner <= upper <= limit_upper,
        workable(destination),
        landed_upper - landed_lower == upper - lower,
        limit_lower <= landed_lower,
        landed_upper <= limit_upper,
        midpoint(landed_lower, landed_upper) - destination == landed_lower - (lower + destination
            - midpoint(lower, upper)),
    ensures
        ({
            let center = midpoint(lower, upper);
            let shift = sat_sub(midpoint(landed_lower, landed_upper), center);
            &&& sat_add(lower, shift) == landed_lower
            &&& sat_add(upper, shift) == landed_upper
            &&& sat_add(center, shift) == midpoint(landed_lower, landed_upper)
            &&& landed_lower <= sat_add(inner, shift) <= landed_upper
        }),
{
}

/// Sending a hypercube to a destination lands it on the clamped region, with
/// its centre at the nearest place to the destination from which it lies
/// within its initial region, and keeps the invariant.
pub proof fn lemma_sent_wf(s: CubeState, destination: Seq<i64>)
    requires
        cube_wf(s),
        destination.len() == cube_dim(s),
        seq_workable(destination),
    ensures
        cube_sent(s, destination).current == landing(s, destination),
        cube_sent(s, destination).center == region_center(landing(s, destination)),
        cube_sent(s, destination).center == nearest_center(s, destination),
        cube_sent(s, destination) == cube_displaced(
            s,
            seq_sub(nearest_center(s, destination), s.center),
        ),
        cube_wf(cube_sent(s, destination)),
        cube_contained(cube_sent(s, destination)),
        region_within(region_displace(s.current, seq_sub(destination, s.center)), s.init)
            == BoundsOverlap::NoneOutOfBounds ==> cube_sent(s, destination) == cube_displaced(
            s,
            seq_sub(destination, s.center),
        ) && cube_sent(s, destination).center == destination,
{
    let n = cube_dim(s);
    let t = region_displace(s.current, seq_sub(destination, s.center));
    let landed = landing(s, destination);
    let f = cube_sent(s, destination);
    let shift = seq_sub(region_center(landed), s.center);
    assert forall|i: int| 0 <= i < n implies #[trigger] sized_at(t, s.init, i) && midpoint(
        t.lower[i],
        t.upper[i],
    ) == destination[i] && t.lower[i] == s.current.lower[i] + destination[i] - s.center[i] by {
        assert(fits_at(s.current, s.init, i));
        assert(limit_ok_at(s.init, i));
        assert(workable(destination[i]));
        assert(s.center[i] == midpoint(s.current.lower[i], s.current.upper[i]));
        lemma_target_coordinate(
            s.current.lower[i],
            s.current.upper[i],
            destination[i],
            s.init.lower[i],
            s.init.upper[i],
        );
    }
    lemma_clamp_lands(t, s.init, n);
    assert forall|i: int| 0 <= i < n implies #[trigger] fits_at(landed, s.init, i)
        && f.current.lower[i] == landed.lower[i] && f.current.upper[i] == landed.upper[i]
        && f.center[i] == midpoint(landed.lower[i], landed.upper[i]) && f.center[i]
        == nearest_center(s, destination)[i] by {
        assert(fits_at(s.current, s.init, i));
        lemma_midpoint_between(s.current.lower[i], s.current.upper[i]);
        assert(limit_ok_at(s.init, i));
        assert(workable(destination[i]));
        assert(sized_at(t, s.init, i));
        assert(landed_at(t, s.init, landed, i));
        assert(s.center[i] == midpoint(s.current.lower[i], s.current.upper[i]));
        lemma_landing_coordinate(
            s.current.lower[i],
            s.current.upper[i],
            s.current.lower[i],
            destination[i],
            s.init.lower[i],
            s.init.upper[i],
            landed.lower[i],
            landed.upper[i],
        );
    }
    assert forall|i: int| 0 <= i < n implies #[trigger] f.current.lower[i] == landed.lower[i] by {
        assert(fits_at(landed, s.init, i));
    }
    assert forall|i: int| 0 <= i < n implies #[trigger] f.current.upper[i] == landed.upper[i] by {
        assert(fits_at(landed, s.init, i));
    }
    assert forall|i: int| 0 <= i < n implies #[trigger] f.center[i] == region_center(landed)[i] by {
        assert(fits_at(landed, s.init, i));
    }
    assert forall|i: int| 0 <= i < n implies #[trigger] f.center[i] == nearest_center(
        s,
        destination,
    )[i] by {
        assert(fits_at(landed, s.init, i));
    }
    assert(f.current.lower =~= landed.lower);
    assert(f.current.upper =~= landed.upper);
    assert(f.center =~= region_center(landed));
    assert(f.center =~= nearest_center(s, destination));
    assert(region_center(landed) == nearest_center(s, destination));
    assert forall|k: int| 0 <= k < f.population.len() implies member_ok(
        #[trigger] f.population[k],
        f.current,
        n,
    ) by {
        let p = s.population[k];
        assert(member_ok(p, s.current, n));
        assert forall|i: int| 0 <= i < n implies landed.lower[i] <= #[trigger] f.population[k][i]
            <= landed.upper[i] by {
            assert(fits_at(s.current, s.init, i));
            assert(limit_ok_at(s.init, i));
            assert(workable(destination[i]));
            assert(sized_at(t, s.init, i));
            assert(landed_at(t, s.init, landed, i));
            assert(s.center[i] == midpoint(s.current.lower[i], s.current.upper[i]));
            lemma_landing_coordinate(
                s.current.lower[i],
                s.current.upper[i],
                p[i],
                destination[i],
                s.init.lower[i],
                s.init.upper[i],
                landed.lower[i],
                landed.upper[i],
            );
        }
    }
    if region_within(t, s.init) == BoundsOverlap::NoneOutOfBounds {
        assert(landed == t);
        assert forall|i: int| 0 <= i < n implies #[trigger] f.center[i] == destination[i] by {
            assert(sized_at(t, s.init, i));
            assert(fits_at(landed, s.init, i));
        }
        assert(f.center =~= destination);
        assert(shift =~= seq_sub(destination, s.center)) by {
            assert forall|i: int| 0 <= i < n implies shift[i] == seq_sub(destination, s.center)[i] by {
                assert(sized_at(t, s.init, i));
            }
        }
    }
}

/// A translation and the opposite translation after it restore the region,
/// the centre and the population of a hypercube, where the first translation
/// leaves the hypercube within its initial region.
pub proof fn lemma_displace_round_trip(s: CubeState, vector: Seq<i64>)
    requires
        cube_wf(s),
        vector.len() == cube_dim(s),
        region_within(region_displace(s.current, vector), s.init)
            == BoundsOverlap::NoneOutOfBounds,
    ensures
        ({
            let there = cube_displaced(s, vector);
            let back = seq_scale(vector, -1_000_000i64);
            &&& region_within(region_displace(there.current, back), s.init)
                == BoundsOverlap::NoneOutOfBounds
            &&& cube_displaced(there, back).current == s.current
            &&& cube_displaced(there, back).center == s.center
            &&& cube_displaced(there, back).population == s.population
            &&& cube_displaced(there, back).diagonal == s.diagonal
        }),
{
    let n = cube_dim(s);
    let there = cube_displaced(s, vector);
    let back = seq_scale(vector, -1_000_000i64);
    let home = cube_displaced(there, back);
    lemma_displaced_wf(s, vector);
    lemma_within_none(s.current, s.init, n);
    lemma_within_none(there.current, s.init, n);
    assert forall|i: int| 0 <= i < n implies back[i] == -vector[i] && #[trigger] home.current.lower[i]
        == s.current.lower[i] && home.current.upper[i] == s.current.upper[i] && home.center[i]
        == s.center[i] by {
        assert(inside_at(s.current, s.init, i));
        assert(inside_at(there.current, s.init, i));
        assert(limit_ok_at(s.init, i));
        assert(fits_at(s.current, s.init, i));
        assert(there.current.lower[i] == s.current.lower[i] + vector[i]);
        assert(vector[i] * (-1_000_000i64) == (-vector[i]) * UNIT) by (nonlinear_arith);
        lemma_descale_exact(-vector[i]);
        lemma_midpoint_between(s.current.lower[i], s.current.upper[i]);
    }
    assert(home.current.lower =~= s.current.lower);
    assert(home.current.upper =~= s.current.upper);
    assert(home.center =~= s.center);
    assert(home.diagonal =~= s.diagonal);
    assert forall|k: int| 0 <= k < s.population.len() implies #[trigger] home.population[k]
        == s.population[k] by {
        let p = s.population[k];
        assert(member_ok(p, s.current, n));
        assert forall|i: int| 0 <= i < n implies home.population[k][i] == p[i] by {
            assert(inside_at(s.current, s.init, i));
            assert(inside_at(there.current, s.init, i));
            assert(limit_ok_at(s.init, i));
            assert(home.current.lower[i] == s.current.lower[i]);
            assert(there.current.lower[i] == s.current.lower[i] + vector[i]);
            assert(back[i] == -vector[i]);
        }
        assert(home.population[k] =~= p);
    }
    assert(home.population =~= s.population);
    assert(region_displace(there.current, back) == s.current);
}

// ---------------------------------------------------------------------------
// Hypercube
// ---------------------------------------------------------------------------

/// The views of a sequence of points.
pub open spec fn points_of(points: Seq<Point>) -> Seq<Seq<i64>> {
    points.map_values(|p: Point| p@)
}

/// `value` is an image of the point with the coordinates `point` under
/// `function`.
pub open spec fn is_image<F: Fn(&Point) -> i64>(function: F, point: Seq<i64>, value: i64) -> bool {
    exists|q: Point| q@ == point && call_ensures(function, (&q,), value)
}

/// `function` accepts every point of `n` coordinates.
pub open spec fn accepts_all<F: Fn(&Point) -> i64>(function: F, n: nat) -> bool {
    forall|q: &Point| q@.len() == n ==> call_requires(function, (q,))
}

/// The message of a displacement that would leave the initial region.
pub const DISPLACEMENT_OUT_OF_BOUNDS: &'static str =
    "cannot displace, displacement results in hypercube out of bounds";

/// A search region that moves and shrinks within its initial region, with a
/// population of sample points and their evaluations.
#[derive(Debug)]
pub struct Hypercube {
    dimension: u32,
    init_bounds: HypercubeBounds,
    current_bounds: HypercubeBounds,
    diagonal: Point,
    center: Point,
    population_size: u64,
    population: Vec<Point>,
    values: Vec<PointEval>,
    ordered_values: BestQueue,
}

impl View for Hypercube {
    type V = CubeState;

    closed spec fn view(&self) -> CubeState {
        CubeState {
            dimension: self.dimension,
            population_size: self.population_size,
            init: self.init_bounds@,
            current: self.current_bounds@,
            diagonal: self.diagonal@,
            center: self.center@,
            population: points_of(self.population@),
            values: views_of(self.values@),
            ordered: self.ordered_values.contents(),
        }
    }
}

impl Clone for Hypercube {
    fn clone(&self) -> (r: Self)
        ensures
            r@ == self@,
            self.consistent() ==> r.consistent(),
    {
        let mut population: Vec<Point> = Vec::new();
        let mut k: usize = 0;
        while k < self.population.len()
            invariant
                k <= self.population.len(),
                population.len() == k,
                forall|j: int| 0 <= j < k ==> (#[trigger] population[j])@ == self.population[j]@,
            decreases self.population.len() - k,
        {
            population.push(self.population[k].clone());
            k += 1;
        }
        let mut values: Vec<PointEval> = Vec::new();
        let mut v: usize = 0;
        while v < self.values.len()
            invariant
                v <= self.values.len(),
                values.len() == v,
                forall|j: int| 0 <= j < v ==> (#[trigger] values[j])@ == self.values[j]@,
            decreases self.values.len() - v,
        {
            values.push(self.values[v].clone());
            v += 1;
        }
        proof {
            assert(points_of(population@) =~= points_of(self.population@));
            assert(views_of(values@) =~= views_of(self.values@));
        }
        Hypercube {
            dimension: self.dimension,
            init_bounds: self.init_bounds.clone(),
            current_bounds: self.current_bounds.clone(),
            diagonal: self.diagonal.clone(),
            center: self.center.clone(),
            population_size: self.population_size,
            population,
            values,
            ordered_values: self.ordered_values.clone(),
        }
    }
}

impl PartialEqSpecImpl for Hypercube {
    open spec fn obeys_eq_spec() -> bool {
        true
    }

    open spec fn eq_spec(&self, other: &Hypercube) -> bool {
        self.same_search(other)
    }
}

impl PartialEq for Hypercube {
    /// Two hypercubes are equal when they agree in everything but the
    /// evaluations they hold.
    fn eq(&self, other: &Hypercube) -> (r: bool) {
        let same_population = self.population == other.population;
        proof {
            if same_population {
                assert(points_of(self.population@) =~= points_of(other.population@));
            }
            if self@.population == other@.population {
                assert(self.population@.len() == self@.population.len());
                assert(other.population@.len() == other@.population.len());
                assert forall|j: int| 0 <= j < self.population.len() implies (
                #[trigger] self.population[j])@ == other.population[j]@ by {
                    assert(self@.population[j] == self.population[j]@);
                    assert(other@.population[j] == other.population[j]@);
                }
            }
        }
        self.dimension == other.dimension && self.init_bounds == other.init_bounds
            && self.current_bounds == other.current_bounds && self.diagonal == other.diagonal
            && self.center == other.center && self.population_size == other.population_size
            && same_population
    }
}

/// Every point of `population` translated by `vector`.
fn displace_all(population: &Vec<Point>, vector: &Point) -> (r: Vec<Point>)
    requires
        forall|k: int| 0 <= k < population.len() ==> (#[trigger] population[k])@.len() == vector@.len(),
    ensures
        r.len() == population.len(),
        points_of(r@) == all_displaced(points_of(population@), vector@),
{
    let mut moved: Vec<Point> = Vec::new();
    let mut k: usize = 0;
    while k < population.len()
        invariant
            k <= population.len(),
            moved.len() == k,
            forall|j: int| 0 <= j < population.len() ==> (#[trigger] population[j])@.len() == vector@.len(),
            forall|j: int| 0 <= j < k ==> (#[trigger] moved[j])@ == seq_add(population[j]@, vector@),
        decreases population.len() - k,
    {
        moved.push(population[k].add(vector));
        k += 1;
    }
    assert(points_of(moved@) =~= all_displaced(points_of(population@), vector@));
    moved
}

/// Every point of `population` moved towards `center`.
fn shrink_all(population: &Vec<Point>, center: &Point, factor: i64) -> (r: Vec<Point>)
    requires
        is_fraction(factor),
        0 < center@.len() <= u32::MAX,
        forall|k: int| 0 <= k < population.len() ==> (#[trigger] population[k])@.len() == center@.len(),
    ensures
        r.len() == population.len(),
        points_of(r@) == all_shrunk(points_of(population@), center@, factor),
{
    let mut moved: Vec<Point> = Vec::new();
    let mut k: usize = 0;
    while k < population.len()
        invariant
            k <= population.len(),
            moved.len() == k,
            is_fraction(factor),
            0 < center@.len() <= u32::MAX,
            forall|j: int| 0 <= j < population.len() ==> (#[trigger] population[j])@.len() == center@.len(),
            forall|j: int| 0 <= j < k ==> (#[trigger] moved[j])@ == seq_shrink(
                population[j]@,
                center@,
                factor,
            ),
        decreases population.len() - k,
    {
        let mut point = population[k].clone();
        point.shrink_towards_center_in_place(center, factor);
        moved.push(point);
        k += 1;
    }
    assert(points_of(moved@) =~= all_shrunk(points_of(population@), center@, factor));
    moved
}

impl Hypercube {
    /// The best-first structure is in order.
    pub closed spec fn consistent(&self) -> bool {
        self.ordered_values.wf()
    }

    /// The two hypercubes agree in dimension, regions, diagonal, centre and
    /// population.
    pub open spec fn same_search(&self, other: &Hypercube) -> bool {
        &&& self@.dimension == other@.dimension
        &&& self@.init == other@.init
        &&& self@.current == other@.current
        &&& self@.diagonal == other@.diagonal
        &&& self@.center == other@.center
        &&& self@.population_size == other@.population_size
        &&& self@.population == other@.population
    }

    /// The invariant of a hypercube holds.
    pub open spec fn wf(&self) -> bool {
        cube_wf(self@) && self.consistent()
    }

    /// A hypercube over `[lower_bound, upper_bound]` in each of `dimension`
    /// coordinates, with a population drawn uniformly from it.
    pub fn new(dimension: u32, lower_bound: i64, upper_bound: i64) -> (r: Self)
        requires
            dimension != 0,
            upper_bound > lower_bound,
            moderate(lower_bound),
            moderate(upper_bound),
            population_count(dimension, lower_bound, upper_bound) <= u32::MAX,
        ensures
            r.wf(),
            cube_contained(r@),
            r@.dimension == dimension,
            r@.population_size == population_count(dimension, lower_bound, upper_bound),
            r@.init.lower == seq_fill(lower_bound, dimension as nat),
            r@.init.upper == seq_fill(upper_bound, dimension as nat),
            r@.current == r@.init,
            r@.center == seq_fill(midpoint(lower_bound, upper_bound), dimension as nat),
            r@.diagonal == seq_fill((upper_bound - lower_bound) as i64, dimension as nat),
            r@.population.len() == population_count(dimension, lower_bound, upper_bound),
            r@.values == Seq::<Evaluation>::empty(),
            r@.ordered == Multiset::<Evaluation>::empty(),
    {
        let init_bounds = HypercubeBounds::new(dimension, lower_bound, upper_bound);
        let current_bounds = HypercubeBounds::new(dimension, lower_bound, upper_bound);
        let num_points = Hypercube::count_points(dimension, lower_bound, upper_bound);
        let hypercube_diagonal = Point::fill(upper_bound, dimension).sub(
            &Point::fill(lower_bound, dimension),
        );
        let random_points = Hypercube::generate_random_points(
            dimension,
            num_points,
            lower_bound,
            upper_bound,
        );
        let population_size = random_points.len() as u64;
        let central_value = crate::scalar::scalar_midpoint(lower_bound, upper_bound);
        let center = Point::fill(central_value, dimension);
        let r = Hypercube {
            dimension,
            init_bounds,
            current_bounds,
            diagonal: hypercube_diagonal,
            center,
            population_size,
            population: random_points,
            values: Vec::new(),
            ordered_values: BestQueue::new(),
        };
        proof {
            let s = r@;
            let n = dimension as nat;
            assert(s.current == s.init);
            assert forall|i: int| 0 <= i < n implies #[trigger] limit_ok_at(s.init, i) by {}
            assert forall|i: int| 0 <= i < n implies #[trigger] fits_at(s.current, s.init, i) by {}
            assert(s.center =~= region_center(s.current));
            assert(s.diagonal =~= region_diagonal(s.current));
            assert(s.diagonal =~= seq_fill((upper_bound - lower_bound) as i64, n));
            assert(s.values =~= Seq::<Evaluation>::empty());
            assert forall|k: int| 0 <= k < s.population.len() implies member_ok(
                #[trigger] s.population[k],
                s.current,
                n,
            ) by {
                assert(s.population[k] == r.population[k]@);
            }
            lemma_within_none(s.current, s.init, n);
            assert forall|i: int| 0 <= i < n implies #[trigger] inside_at(s.current, s.init, i) by {}
        }
        r
    }

    /// Computes the size of the population.
    fn count_points(dimension: u32, lower_bound: i64, upper_bound: i64) -> (r: u64)
        requires
            upper_bound > lower_bound,
            moderate(lower_bound),
            moderate(upper_bound),
            population_count(dimension, lower_bound, upper_bound) <= u32::MAX,
        ensures
            r == population_count(dimension, lower_bound, upper_bound),
    {
        let span: i64 = (upper_bound - lower_bound) / UNIT;
        assert(dimension * dimension <= 0x1_0000_0000_0000_0000) by (nonlinear_arith)
            requires
                0 <= dimension <= 0xffff_ffff,
        ;
        let squared: u128 = (dimension as u128) * (dimension as u128);
        assert(squared * span <= 0x1_0000_0000_0000_0000 * 2_000_000_000_000) by (nonlinear_arith)
            requires
                0 <= squared <= 0x1_0000_0000_0000_0000,
                0 <= span <= 2_000_000_000_000,
        ;
        let count: u128 = squared * (span as u128);
        assert(squared * span == dimension * dimension * span) by (nonlinear_arith)
            requires
                squared == dimension * dimension,
        ;
        count as u64
    }

    /// `num_points` points of `dimension` coordinates, each coordinate drawn
    /// uniformly from `[lower_bound, upper_bound]`.
    fn generate_random_points(
        dimension: u32,
        num_points: u64,
        lower_bound: i64,
        upper_bound: i64,
    ) -> (r: Vec<Point>)
        requires
            dimension != 0,
            upper_bound > lower_bound,
            num_points <= u32::MAX,
        ensures
            r.len() == num_points,
            forall|k: int|
                0 <= k < r.len() ==> (#[trigger] r[k])@.len() == dimension && seq_inside(
                    r[k]@,
                    seq_fill(lower_bound, dimension as nat),
                    seq_fill(upper_bound, dimension as nat),
                ),
    {
        let mut random_points: Vec<Point> = Vec::new();
        let mut k: u64 = 0;
        while k < num_points
            invariant
                k <= num_points,
                dimension != 0,
                upper_bound > lower_bound,
                random_points.len() == k,
                forall|j: int|
                    0 <= j < random_points.len() ==> (#[trigger] random_points[j])@.len()
                        == dimension && seq_inside(
                        random_points[j]@,
                        seq_fill(lower_bound, dimension as nat),
                        seq_fill(upper_bound, dimension as nat),
                    ),
            decreases num_points - k,
        {
            let point = Point::random(dimension, lower_bound, upper_bound);
            random_points.push(point);
            k += 1;
        }
        random_points
    }

    /// Evaluates `point_function` at every point of the population, and adds
    /// the evaluations to those the hypercube holds.
    ///
    /// The evaluations are appended in the order of the population. Evaluating
    /// twice without a change of the population in between holds every
    /// evaluation twice.
    pub fn evaluate<F: Fn(&Point) -> i64>(&mut self, point_function: F)
        requires
            old(self).wf(),
            accepts_all(point_function, cube_dim(old(self)@)),
        ensures
            final(self).wf(),
            final(self)@.dimension == old(self)@.dimension,
            final(self)@.population_size == old(self)@.population_size,
            final(self)@.init == old(self)@.init,
            final(self)@.current == old(self)@.current,
            final(self)@.diagonal == old(self)@.diagonal,
            final(self)@.center == old(self)@.center,
            final(self)@.population == old(self)@.population,
            final(self)@.values.len() == old(self)@.values.len() + old(self)@.population.len(),
            final(self)@.values.take(old(self)@.values.len() as int) == old(self)@.values,
            forall|j: int|
                old(self)@.values.len() <= j < final(self)@.values.len() ==> (
                #[trigger] final(self)@.values[j]).point == old(self)@.population[j - old(
                    self,
                )@.values.len()] && is_image(
                    point_function,
                    old(self)@.population[j - old(self)@.values.len()],
                    final(self)@.values[j].value,
                ),
            final(self)@.ordered == old(self)@.ordered.add(
                final(self)@.values.skip(old(self)@.values.len() as int).to_multiset(),
            ),
    {
        let ghost before = self@;
        let ghost start = self.values@.len() as int;
        let mut k: usize = 0;
        proof {
            assert(self@.values.skip(start) =~= Seq::<Evaluation>::empty());
            self@.values.skip(start).to_multiset_ensures();
            assert(self@.ordered =~= before.ordered.add(self@.values.skip(start).to_multiset()));
            assert(self@.values.take(start) =~= before.values);
        }
        while k < self.population.len()
            invariant
                k <= self.population.len(),
                cube_wf(before),
                accepts_all(point_function, cube_dim(before)),
                self.consistent(),
                self@.dimension == before.dimension,
                self@.population_size == before.population_size,
                self@.init == before.init,
                self@.current == before.current,
                self@.diagonal == before.diagonal,
                self@.center == before.center,
                self@.population == before.population,
                self.values@.len() == start + k,
                start == before.values.len(),
                self@.values.take(start) == before.values,
                forall|j: int|
                    start <= j < start + k ==> (#[trigger] self@.values[j]).point
                        == before.population[j - start] && is_image(
                        point_function,
                        before.population[j - start],
                        self@.values[j].value,
                    ),
                self@.ordered == before.ordered.add(self@.values.skip(start).to_multiset()),
            decreases self.population.len() - k,
        {
            let ghost values_before = self@.values;
            let ghost ordered_before = self@.ordered;
            let point = self.population[k].clone();
            proof {
                assert(before.population[k as int] == self.population[k as int]@);
                assert(member_ok(before.population[k as int], before.current, cube_dim(before)));
            }
            let image = point_function(&point);
            let new_eval = PointEval::new(point, image);
            self.values.push(new_eval.clone());
            self.ordered_values.push(new_eval);
            proof {
                let added = new_eval@;
                assert(self@.values =~= values_before.push(added));
                assert(self@.values.take(start) =~= values_before.take(start));
                assert(self@.values.skip(start) =~= values_before.skip(start).push(added));
                to_multiset_build(values_before.skip(start), added);
                assert(self@.ordered =~= before.ordered.add(
                    self@.values.skip(start).to_multiset(),
                ));
                assert forall|j: int| start <= j < start + k + 1 implies (
                #[trigger] self@.values[j]).point == before.population[j - start] && is_image(
                    point_function,
                    before.population[j - start],
                    self@.values[j].value,
                ) by {
                    if j < start + k {
                        assert(self@.values[j] == values_before[j]);
                    } else {
                        assert(self@.values[j] == added);
                    }
                }
            }
            k += 1;
        }
        proof {
            let after = self@;
            assert forall|j: int| 0 <= j < after.values.len() implies is_member(
                after.population,
                (#[trigger] after.values[j]).point,
            ) by {
                if j < start {
                    assert(after.values[j] == after.values.take(start)[j]);
                    assert(is_member(before.population, before.values[j].point));
                } else {
                    assert(after.population[j - start] == after.values[j].point);
                }
            }
            assert(after.values =~= after.values.take(start) + after.values.skip(start));
            lemma_multiset_commutative(after.values.take(start), after.values.skip(start));
        }
    }

    /// The best evaluation the hypercube holds, or `None` where it holds none.
    pub fn peek_best_value(&self) -> (r: Option<PointEval>)
        requires
            self.wf(),
        ensures
            r is None <==> self@.ordered.len() == 0,
            r is Some ==> self@.ordered.contains(r->0@) && crate::queue::is_best_of(
                self@.ordered,
                r->0@,
            ),
            r is Some ==> is_member(self@.population, r->0@.point),
    {
        match self.ordered_values.peek() {
            Some(v) => {
                proof {
                    lemma_held_is_member(self@, v@);
                }
                Some(v.clone())
            },
            None => None,
        }
    }

    /// Takes the best evaluation out of the best-first structure, or returns
    /// `None` where it is empty.
    pub fn pop_best_value(&mut self) -> (r: Option<PointEval>)
        requires
            old(self).wf(),
        ensures
            final(self).wf(),
            r is None <==> old(self)@.ordered.len() == 0,
            r is None ==> final(self)@ == old(self)@,
            r is Some ==> popped(old(self)@.ordered, r->0@, final(self)@.ordered),
            r is Some ==> is_member(old(self)@.population, r->0@.point),
            final(self)@.dimension == old(self)@.dimension,
            final(self)@.population_size == old(self)@.population_size,
            final(self)@.init == old(self)@.init,
            final(self)@.current == old(self)@.current,
            final(self)@.diagonal == old(self)@.diagonal,
            final(self)@.center == old(self)@.center,
            final(self)@.population == old(self)@.population,
            final(self)@.values == old(self)@.values,
    {
        let best = self.ordered_values.pop();
        proof {
            assert(self@.init == old(self)@.init);
            assert(self@.current == old(self)@.current);
            assert(self@.population == old(self)@.population);
            if best is Some {
                assert(old(self)@.ordered.contains(best->0@));
                lemma_held_is_member(old(self)@, best->0@);
            }
        }
        best
    }

    /// Translates the hypercube by `vector`, unless that would take it out of
    /// its initial region.
    ///
    /// On success region, centre and population have moved by `vector` and the
    /// evaluations are dropped. On failure nothing has changed.
    pub fn try_displace_by(&mut self, vector: &Point) -> (r: Result<(), &'static str>)
        requires
            old(self).wf(),
            vector@.len() == cube_dim(old(self)@),
        ensures
            final(self).wf(),
            r is Ok <==> region_within(region_displace(old(self)@.current, vector@), old(self)@.init)
                == BoundsOverlap::NoneOutOfBounds,
            r is Ok ==> final(self)@ == cube_displaced(old(self)@, vector@) && cube_contained(
                final(self)@,
            ),
            r is Err ==> final(self)@ == old(self)@ && r == Err::<(), &'static str>(
                DISPLACEMENT_OUT_OF_BOUNDS,
            ),
    {
        let new_bounds = self.current_bounds.displace_by(vector);
        match new_bounds.within(&self.init_bounds) {
            BoundsOverlap::NoneOutOfBounds => {
                proof {
                    lemma_displaced_wf(self@, vector@);
                }
                self.apply_displacement(vector);
                Ok(())
            },
            _ => Err(DISPLACEMENT_OUT_OF_BOUNDS),
        }
    }

    /// Moves the centre of the hypercube to `destination`, unless that would
    /// take it out of its initial region.
    pub fn try_displace_to(&mut self, destination: &Point) -> (r: Result<(), &'static str>)
        requires
            old(self).wf(),
            destination@.len() == cube_dim(old(self)@),
        ensures
            final(self).wf(),
            r is Ok <==> region_within(
                region_displace(old(self)@.current, seq_sub(destination@, old(self)@.center)),
                old(self)@.init,
            ) == BoundsOverlap::NoneOutOfBounds,
            r is Ok ==> final(self)@ == cube_displaced(
                old(self)@,
                seq_sub(destination@, old(self)@.center),
            ) && cube_contained(final(self)@),
            r is Err ==> final(self)@ == old(self)@ && r == Err::<(), &'static str>(
                DISPLACEMENT_OUT_OF_BOUNDS,
            ),
    {
        let center_to_destination = destination.sub(&self.center);
        self.try_displace_by(&center_to_destination)
    }

    /// Moves the centre of the hypercube to `destination`, or as near to it as
    /// clamping the moved region into the initial region allows.
    ///
    /// The region lands on the moved region clamped into the initial region:
    /// the nearest place to the destination at which the hypercube lies
    /// within its initial region. Centre and population move with it, and the
    /// evaluations are dropped.
    pub fn displace_to(&mut self, destination: &Point)
        requires
            old(self).wf(),
            destination@.len() == cube_dim(old(self)@),
            seq_workable(destination@),
        ensures
            final(self).wf(),
            final(self)@ == cube_sent(old(self)@, destination@),
            final(self)@.current == landing(old(self)@, destination@),
            final(self)@.center == region_center(landing(old(self)@, destination@)),
            final(self)@.center == nearest_center(old(self)@, destination@),
            cube_contained(final(self)@),
            region_within(
                region_displace(old(self)@.current, seq_sub(destination@, old(self)@.center)),
                old(self)@.init,
            ) == BoundsOverlap::NoneOutOfBounds ==> final(self)@.center == destination@,
    {
        proof {
            lemma_sent_wf(self@, destination@);
        }
        let center_to_destination = destination.sub(&self.center);
        let new_bounds = self.current_bounds.displace_by(&center_to_destination);
        match new_bounds.within(&self.init_bounds) {
            BoundsOverlap::NoneOutOfBounds => {
                self.raw_displace_to(destination);
            },
            _ => {
                let clamped_bounds = new_bounds.clamp(&self.init_bounds);
                let clamped_center = clamped_bounds.compute_center();
                self.raw_displace_to(&clamped_center);
            },
        }
    }

    /// Moves the centre of the hypercube to `destination`, whatever the
    /// initial region is.
    fn raw_displace_to(&mut self, destination: &Point)
        requires
            cube_wf(old(self)@),
            old(self).consistent(),
            destination@.len() == cube_dim(old(self)@),
        ensures
            final(self)@ == cube_displaced(old(self)@, seq_sub(destination@, old(self)@.center)),
            final(self).consistent(),
    {
        let center_to_destination = destination.sub(&self.center);
        self.apply_displacement(&center_to_destination);
    }

    /// Translates region, centre and population by `vector`, and drops the
    /// evaluations.
    fn apply_displacement(&mut self, vector: &Point)
        requires
            cube_wf(old(self)@),
            old(self).consistent(),
            vector@.len() == cube_dim(old(self)@),
        ensures
            final(self)@ == cube_displaced(old(self)@, vector@),
            final(self).consistent(),
    {
        proof {
            assert forall|k: int| 0 <= k < self.population.len() implies (
            #[trigger] self.population[k])@.len() == vector@.len() by {
                assert(member_ok(self@.population[k], self@.current, cube_dim(self@)));
            }
        }
        let moved = displace_all(&self.population, vector);
        self.population = moved;
        self.current_bounds = self.current_bounds.displace_by(vector);
        self.center.add_assign(vector.clone());
        self.values.clear();
        self.ordered_values.clear();
        self.diagonal = self.current_bounds.get_upper().sub(self.current_bounds.get_lower());
        proof {
            assert(self@.values =~= Seq::<Evaluation>::empty());
        }
    }

    /// Shrinks the hypercube towards its centre by `factor`.
    ///
    /// Region and population shrink towards the centre, the centre stays, and
    /// the evaluations are dropped.
    pub fn shrink(&mut self, factor: i64)
        requires
            old(self).wf(),
            0 < factor <= UNIT,
        ensures
            final(self).wf(),
            final(self)@ == cube_shrunk(old(self)@, factor),
            cube_contained(final(self)@),
    {
        proof {
            lemma_shrunk_wf(self@, factor);
            assert forall|k: int| 0 <= k < self.population.len() implies (
            #[trigger] self.population[k])@.len() == self.center@.len() by {
                assert(member_ok(self@.population[k], self@.current, cube_dim(self@)));
            }
        }
        self.current_bounds = self.current_bounds.shrink_towards_center(&self.center, factor);
        let moved = shrink_all(&self.population, &self.center, factor);
        self.population = moved;
        self.diagonal = self.current_bounds.get_diagonal();
        self.values.clear();
        self.ordered_values.clear();
        proof {
            assert(self@.values =~= Seq::<Evaluation>::empty());
        }
    }

    /// Draws a new population uniformly from the current region, and drops
    /// the evaluations.
    pub fn randomize_pop(&mut self)
        requires
            old(self).wf(),
        ensures
            final(self).wf(),
            final(self)@.dimension == old(self)@.dimension,
            final(self)@.population_size == old(self)@.population_size,
            final(self)@.init == old(self)@.init,
            final(self)@.current == old(self)@.current,
            final(self)@.diagonal == old(self)@.diagonal,
            final(self)@.center == old(self)@.center,
            final(self)@.population.len() == old(self)@.population.len(),
            final(self)@.values == Seq::<Evaluation>::empty(),
            final(self)@.ordered == Multiset::<Evaluation>::empty(),
            cube_contained(final(self)@),
    {
        let ghost before = self@;
        let mut new_random_points: Vec<Point> = Vec::new();
        let mut k: u64 = 0;
        while k < self.population_size
            invariant
                k <= self.population_size,
                self@ == before,
                cube_wf(before),
                self.consistent(),
                new_random_points.len() == k,
                forall|j: int|
                    0 <= j < new_random_points.len() ==> member_ok(
                        (#[trigger] new_random_points[j])@,
                        before.current,
                        cube_dim(before),
                    ),
            decreases self.population_size - k,
        {
            proof {
                assert forall|i: int| 0 <= i < cube_dim(before) implies before.current.lower[i]
                    <= before.current.upper[i] by {
                    assert(fits_at(before.current, before.init, i));
                }
            }
            let point = Point::random_between(
                self.current_bounds.get_lower(),
                self.current_bounds.get_upper(),
            );
            new_random_points.push(point);
            k += 1;
        }
        self.population = new_random_points;
        self.values.clear();
        self.ordered_values.clear();
        proof {
            assert(self@.values =~= Seq::<Evaluation>::empty());
            assert forall|j: int| 0 <= j < self@.population.len() implies member_ok(
                #[trigger] self@.population[j],
                self@.current,
                cube_dim(self@),
            ) by {
                assert(self@.population[j] == self.population[j]@);
            }
        }
    }

    /// Whether the current region differs from the initial one.
    pub fn has_shrunk(&self) -> (r: bool)
        ensures
            r == (self@.current != self@.init),
    {
        self.current_bounds != self.init_bounds
    }

    /// The Euclidean length of the diagonal of the current region.
    pub fn diagonal_len(&self) -> (r: i64)
        requires
            self.wf(),
        ensures
            r == length_of(self@.diagonal),
            r >= 0,
    {
        self.diagonal.len()
    }

    /// The number of points in the population.
    pub fn get_population_size(&self) -> (r: u64)
        ensures
            r == self@.population_size,
            self.wf() ==> r == self@.population.len(),
    {
        self.population_size
    }

    /// The centre of the current region.
    pub fn get_center(&self) -> (r: &Point)
        ensures
            r@ == self@.center,
    {
        &self.center
    }

    /// The side length of the current region: its span in the first
    /// coordinate.
    pub fn get_side_length(&self) -> (r: i64)
        requires
            self.wf(),
        ensures
            r == self@.current.upper[0] - self@.current.lower[0],
            r >= 0,
    {
        proof {
            assert(fits_at(self@.current, self@.init, 0));
            assert(limit_ok_at(self@.init, 0));
        }
        self.current_bounds.get_length()
    }

    /// The number of coordinates.
    pub fn dim(&self) -> (r: u32)
        ensures
            r == self@.dimension,
            self.wf() ==> r == cube_dim(self@),
    {
        self.dimension
    }

    /// The region the hypercube was created with.
    pub fn get_init_bounds(&self) -> (r: &HypercubeBounds)
        ensures
            r@ == self@.init,
    {
        &self.init_bounds
    }

    /// The region that is searched now.
    pub fn get_current_bounds(&self) -> (r: &HypercubeBounds)
        ensures
            r@ == self@.current,
    {
        &self.current_bounds
    }

    /// The vector from the lower to the upper corner of the current region.
    pub fn get_diagonal(&self) -> (r: &Point)
        ensures
            r@ == self@.diagonal,
    {
        &self.diagonal
    }

    /// The sample points.
    pub fn get_population(&self) -> (r: &Vec<Point>)
        ensures
            points_of(r@) == self@.population,
    {
        &self.population
    }

    /// The evaluations, in the order they were made.
    pub fn get_values(&self) -> (r: &Vec<PointEval>)
        ensures
            views_of(r@) == self@.values,
    {
        &self.values
    }
}

} // verus!
