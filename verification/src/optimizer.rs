//! The search loop: sample, compare, shrink and move.

use vstd::multiset::Multiset;
use vstd::prelude::*;

use crate::convergence::{convergence_factor, factor_of};
use crate::evaluation::{Evaluation, PointEval};
use crate::geometry::limit_ok_at;
use crate::hypercube::{
    accepts_all, cube_dim, cube_sent, cube_shrunk, cube_wf, is_image, population_count,
    seq_workable, CubeState, Hypercube,
};
use crate::point::{
    length_of, seq_add, seq_div, seq_fill, seq_inside, seq_scale, seq_sub, Point,
};
use crate::queue::{is_best_of, BestQueue};
use crate::result::HypercubeOptimizerResult;
use crate::scalar::{
    clip, floor_sqrt, fx_div, moderate, quotient, scalar_clip, scalar_div, scalar_sqrt, workable,
    UNIT,
};

verus! {

/// The number of successive iterations within tolerance that end the search.
pub const CONVERGENCE_WINDOW: usize = 30;

/// The scalar that stands for one half.
pub const HALF: i64 = 500_000;

// ---------------------------------------------------------------------------
// The model of one iteration
// ---------------------------------------------------------------------------

/// The running statistics of a search.
pub struct ProgressState {
    /// The best evaluation of the last iteration that moved the region, or
    /// that of the initial point.
    pub previous: Evaluation,
    /// The running mean of the best values.
    pub average: i64,
    /// The changes of the best value in the iterations within tolerance that
    /// came one after the other up to now.
    pub window: Seq<i64>,
    /// The better evaluation of every iteration.
    pub best: Multiset<Evaluation>,
}

/// The distance between two values.
pub open spec fn abs_delta(a: i64, b: i64) -> i64 {
    clip(
        if a >= b {
            a - b
        } else {
            b - a
        },
    )
}

/// The running mean after `value` came in as the `count`-th term.
pub open spec fn mean_update(average: i64, value: i64, count: int) -> i64 {
    (average + quotient(value - average, count)) as i64
}

/// `current` where its value is greater, `previous` otherwise.
pub open spec fn better_of(current: Evaluation, previous: Evaluation) -> Evaluation {
    if current.value > previous.value {
        current
    } else {
        previous
    }
}

/// The window after `current` was seen: one longer within tolerance, empty
/// otherwise.
pub open spec fn next_window(p: ProgressState, current: Evaluation, tol_f: i64) -> Seq<i64> {
    if abs_delta(current.value, p.previous.value) <= tol_f {
        p.window.push(abs_delta(current.value, p.previous.value))
    } else {
        Seq::empty()
    }
}

/// The search ends with `current`: the window is full.
pub open spec fn converges(p: ProgressState, current: Evaluation, tol_f: i64) -> bool {
    next_window(p, current, tol_f).len() >= CONVERGENCE_WINDOW
}

/// `current` is worse than the running mean or than the previous best.
pub open spec fn regresses(p: ProgressState, current: Evaluation, iteration: u32) -> bool {
    ||| current.value < mean_update(p.average, current.value, iteration + 1)
    ||| current.value < p.previous.value
}

/// The point halfway between two points.
pub open spec fn halfway(a: Seq<i64>, b: Seq<i64>) -> Seq<i64> {
    seq_scale(seq_add(a, b), HALF)
}

/// `p` relative to `center`, in units of `side`.
pub open spec fn normalized(p: Seq<i64>, center: Seq<i64>, side: i64) -> Seq<i64> {
    seq_div(seq_sub(p, center), seq_fill(side, p.len()))
}

/// The square root of the number of coordinates.
pub open spec fn root_of_dimension(n: nat) -> i64 {
    floor_sqrt(n * UNIT * UNIT) as i64
}

/// The distance between two points, normalized by centre and side length of
/// the region and divided by the square root of the dimension.
pub open spec fn renormalized_distance(
    current: Seq<i64>,
    previous: Seq<i64>,
    center: Seq<i64>,
    side: i64,
) -> i64 {
    fx_div(
        length_of(seq_sub(normalized(current, center, side), normalized(previous, center, side))),
        root_of_dimension(current.len()),
    )
}

/// The statistics after an iteration that found `current` as its best.
///
/// The better of `current` and the previous best joins the best-ever
/// evaluations and the window is updated. Unless the search converges, the
/// running mean takes `current` in. `current` becomes the previous best where
/// it does not regress.
pub open spec fn progress_after(
    p: ProgressState,
    iteration: u32,
    current: Evaluation,
    tol_f: i64,
) -> ProgressState {
    let converged = converges(p, current, tol_f);
    ProgressState {
        previous: if !converged && !regresses(p, current, iteration) {
            current
        } else {
            p.previous
        },
        average: if converged {
            p.average
        } else {
            mean_update(p.average, current.value, iteration + 1)
        },
        window: next_window(p, current, tol_f),
        best: p.best.insert(better_of(current, p.previous)),
    }
}

/// The statistics of a search that has evaluated only its initial point.
pub open spec fn progress_start(first: Evaluation) -> ProgressState {
    ProgressState {
        previous: first,
        average: first.value,
        window: Seq::empty(),
        best: Multiset::empty().insert(first),
    }
}

/// The statistics after the iterations whose best evaluations are `bests`,
/// in this order.
pub open spec fn progress_through(start: ProgressState, bests: Seq<Evaluation>, tol_f: i64)
    -> ProgressState
    decreases bests.len(),
{
    if bests.len() == 0 {
        start
    } else {
        progress_after(
            progress_through(start, bests.drop_last(), tol_f),
            (bests.len() - 1) as u32,
            bests.last(),
            tol_f,
        )
    }
}

/// None of the iterations whose best evaluations are `bests` ends the search.
pub open spec fn goes_on(start: ProgressState, bests: Seq<Evaluation>, tol_f: i64) -> bool {
    forall|j: int|
        0 <= j < bests.len() ==> !converges(
            progress_through(start, #[trigger] bests.take(j), tol_f),
            bests[j],
            tol_f,
        )
}

/// One iteration of a search: the hypercube as it stood when its population
/// had been evaluated, and the best evaluation the iteration handed on.
pub struct Round {
    pub cube: CubeState,
    pub best: Evaluation,
}

/// The best evaluations of `rounds`, in order.
pub open spec fn bests_of(rounds: Seq<Round>) -> Seq<Evaluation> {
    rounds.map_values(|r: Round| r.best)
}

/// The side length of a hypercube: the span of its first coordinate.
pub open spec fn side_of(cube: CubeState) -> i64 {
    (cube.current.upper[0] - cube.current.lower[0]) as i64
}

/// The hypercube of `round` holds one evaluation under `function` for each
/// point of its population, in order, and the best of the round is a best one
/// of them. Every point that was evaluated lies within the initial region.
pub open spec fn round_ok<F: Fn(&Point) -> i64>(function: F, round: Round) -> bool {
    let c = round.cube;
    &&& cube_wf(c)
    &&& c.values.len() == c.population.len()
    &&& forall|k: int|
        0 <= k < c.values.len() ==> (#[trigger] c.values[k]).point == c.population[k] && is_image(
            function,
            c.population[k],
            c.values[k].value,
        ) && c.population[k].len() == cube_dim(c) && seq_inside(
            c.population[k],
            c.init.lower,
            c.init.upper,
        )
    &&& c.ordered == c.values.to_multiset()
    &&& c.ordered.contains(round.best)
    &&& is_best_of(c.ordered, round.best)
}

/// The hypercube after an iteration that evaluated `cube` and found `best`,
/// with the statistics `p` before it: unchanged where the search ends or the
/// iteration regresses, and else shrunk by the factor that belongs to the
/// distance between `best` and the previous best, and then sent halfway
/// between the two.
pub open spec fn cube_after(
    cube: CubeState,
    p: ProgressState,
    iteration: u32,
    best: Evaluation,
    tol_f: i64,
) -> CubeState {
    if converges(p, best, tol_f) || regresses(p, best, iteration) {
        cube
    } else {
        cube_sent(
            cube_shrunk(
                cube,
                factor_of(
                    renormalized_distance(best.point, p.previous.point, cube.center, side_of(cube)),
                ),
            ),
            halfway(best.point, p.previous.point),
        )
    }
}

/// The hypercube with which iteration `j` begins: the one the search began
/// with, or what the iteration before left.
#[verifier::opaque]
pub open spec fn cube_before(
    start_cube: CubeState,
    start: ProgressState,
    rounds: Seq<Round>,
    j: int,
    tol_f: i64,
) -> CubeState {
    if j <= 0 {
        start_cube
    } else {
        cube_after(
            rounds[j - 1].cube,
            progress_through(start, bests_of(rounds).take(j - 1), tol_f),
            (j - 1) as u32,
            rounds[j - 1].best,
            tol_f,
        )
    }
}

/// `drawn` is `cube` with a new population of the same size and any
/// evaluations: the regions, the centre and the diagonal are the same.
pub open spec fn redrawn(drawn: CubeState, cube: CubeState) -> bool {
    &&& drawn.init == cube.init
    &&& drawn.current == cube.current
    &&& drawn.center == cube.center
    &&& drawn.diagonal == cube.diagonal
    &&& drawn.population.len() == cube.population.len()
}

/// Every round evaluated a population drawn in the hypercube that the round
/// before had left, and handed on a best evaluation of that population.
#[verifier::opaque]
pub open spec fn trace_ok<F: Fn(&Point) -> i64>(
    function: F,
    start_cube: CubeState,
    start: ProgressState,
    rounds: Seq<Round>,
    tol_f: i64,
) -> bool {
    &&& forall|j: int| 0 <= j < rounds.len() ==> round_ok(function, #[trigger] rounds[j])
    &&& forall|j: int|
        0 <= j < rounds.len() ==> redrawn(
            (#[trigger] rounds[j]).cube,
            cube_before(start_cube, start, rounds, j, tol_f),
        )
}

/// The exit code of a search that converged.
pub const CONVERGED: u32 = 0;

/// The exit code of a search that reached the largest number of iterations.
pub const ITERATION_LIMIT_REACHED: u32 = 2;

/// `report` and `end_cube` are what a search leaves that began with the
/// hypercube `start_cube`, whose initial point has the image `first`, and
/// whose iterations are `rounds`.
///
/// Every iteration evaluated a population drawn in the hypercube that the
/// iteration before had left, and handed on a best evaluation of that
/// population. The search has converged exactly where it reports fewer
/// iterations than `max_loop`: then the last round ended it and none before
/// did, the iteration reported is the last one, and the exit code is
/// `CONVERGED`. Otherwise `max_loop` iterations were run, none ended the
/// search, and the exit code is `ITERATION_LIMIT_REACHED`. The best
/// evaluation reported is a best one among the better evaluations of all the
/// iterations and that of the initial point, and the hypercube is left as the
/// last iteration left it.
pub open spec fn is_run<F: Fn(&Point) -> i64>(
    function: F,
    start_cube: CubeState,
    start_point: Seq<i64>,
    tol_f: i64,
    max_loop: u32,
    first: i64,
    rounds: Seq<Round>,
    end_cube: CubeState,
    report: crate::result::Report,
) -> bool {
    let start = progress_start(Evaluation { point: start_point, value: first });
    let bests = bests_of(rounds);
    let end = progress_through(start, bests, tol_f);
    &&& is_image(function, start_point, first)
    &&& trace_ok(function, start_cube, start, rounds, tol_f)
    &&& end_cube == cube_before(start_cube, start, rounds, rounds.len() as int, tol_f)
    &&& report.loops <= max_loop
    &&& if report.loops < max_loop {
        &&& rounds.len() == report.loops + 1
        &&& goes_on(start, bests.drop_last(), tol_f)
        &&& converges(progress_through(start, bests.drop_last(), tol_f), bests.last(), tol_f)
        &&& report.exit_code == CONVERGED
    } else {
        &&& rounds.len() == max_loop
        &&& goes_on(start, bests, tol_f)
        &&& report.exit_code == ITERATION_LIMIT_REACHED
    }
    &&& report.best is Some
    &&& end.best.contains(report.best->0)
    &&& is_best_of(end.best, report.best->0)
}

/// Some member of `bag` has a value of at least `value`.
pub open spec fn covered(bag: Multiset<Evaluation>, value: i64) -> bool {
    exists|m: Evaluation| #[trigger] bag.contains(m) && m.value >= value
}

/// `e` is one of `bests`.
pub open spec fn among(bests: Seq<Evaluation>, e: Evaluation) -> bool {
    exists|j: int| 0 <= j < bests.len() && #[trigger] bests[j] == e
}

/// The statistics hold nothing that was not handed to them, and lose nothing
/// better: the previous best and every best-ever evaluation is the initial
/// evaluation or one of `bests`, and each of those is covered by a best-ever
/// evaluation.
pub proof fn lemma_progress_members(first: Evaluation, bests: Seq<Evaluation>, tol_f: i64)
    ensures
        ({
            let p = progress_through(progress_start(first), bests, tol_f);
            &&& p.previous == first || among(bests, p.previous)
            &&& forall|e: Evaluation| #[trigger] p.best.contains(e) ==> e == first || among(bests, e)
            &&& covered(p.best, first.value)
            &&& forall|j: int| 0 <= j < bests.len() ==> covered(p.best, (#[trigger] bests[j]).value)
        }),
    decreases bests.len(),
{
    broadcast use vstd::multiset::group_multiset_axioms;

    let start = progress_start(first);
    let p = progress_through(start, bests, tol_f);
    if bests.len() == 0 {
        assert(p.best.contains(first));
    } else {
        let shorter = bests.drop_last();
        let q = progress_through(start, shorter, tol_f);
        let last = bests.last();
        let added = better_of(last, q.previous);
        lemma_progress_members(first, shorter, tol_f);
        assert(p.best == q.best.insert(added));
        assert(bests[bests.len() - 1] == last);
        if among(shorter, q.previous) {
            let j = choose|j: int| 0 <= j < shorter.len() && #[trigger] shorter[j] == q.previous;
            assert(bests[j] == q.previous);
        }
        assert(p.previous == first || among(bests, p.previous));
        assert(added == first || among(bests, added));
        assert forall|e: Evaluation| #[trigger] p.best.contains(e) implies e == first || among(
            bests,
            e,
        ) by {
            if e != added {
                assert(q.best.contains(e));
                if among(shorter, e) {
                    let j = choose|j: int| 0 <= j < shorter.len() && #[trigger] shorter[j] == e;
                    assert(bests[j] == e);
                }
            }
        }
        let m0 = choose|m: Evaluation| #[trigger] q.best.contains(m) && m.value >= first.value;
        assert(p.best.contains(m0));
        assert(p.best.contains(added));
        assert forall|j: int| 0 <= j < bests.len() implies covered(
            p.best,
            (#[trigger] bests[j]).value,
        ) by {
            if j < shorter.len() {
                assert(shorter[j] == bests[j]);
                let m = choose|m: Evaluation| #[trigger]
                    q.best.contains(m) && m.value >= shorter[j].value;
                assert(p.best.contains(m));
            } else {
                assert(added.value >= last.value);
            }
        }
    }
}

/// The best evaluation that a search reports is the greatest of all: it is
/// the evaluation of the initial point or one of the evaluations of a round,
/// and neither the initial point nor any point that a round evaluated has a
/// greater image. Where the best of some round is better than the initial
/// point, so is the reported one.
pub proof fn lemma_run_reports_the_greatest<F: Fn(&Point) -> i64>(
    function: F,
    start_cube: CubeState,
    start_point: Seq<i64>,
    tol_f: i64,
    max_loop: u32,
    first: i64,
    rounds: Seq<Round>,
    end_cube: CubeState,
    report: crate::result::Report,
)
    requires
        is_run(function, start_cube, start_point, tol_f, max_loop, first, rounds, end_cube, report),
    ensures
        report.best is Some,
        report.best->0.value >= first,
        forall|j: int, k: int|
            0 <= j < rounds.len() && 0 <= k < rounds[j].cube.values.len() ==> (
            #[trigger] rounds[j].cube.values[k]).value <= report.best->0.value,
        report.best->0 == (Evaluation { point: start_point, value: first }) || exists|
            j: int,
            k: int,
        |
            0 <= j < rounds.len() && 0 <= k < rounds[j].cube.values.len()
                && #[trigger] rounds[j].cube.values[k] == report.best->0,
        (exists|j: int| 0 <= j < rounds.len() && (#[trigger] rounds[j]).best.value > first)
            ==> report.best->0.value > first,
{
    reveal(trace_ok);
    let first_eval = Evaluation { point: start_point, value: first };
    let bests = bests_of(rounds);
    let end = progress_through(progress_start(first_eval), bests, tol_f);
    let best = report.best->0;
    lemma_progress_members(first_eval, bests, tol_f);
    let m0 = choose|m: Evaluation| #[trigger] end.best.contains(m) && m.value >= first;
    assert(best.value >= m0.value);
    assert forall|j: int| 0 <= j < rounds.len() implies (#[trigger] rounds[j]).best.value
        <= best.value by {
        assert(bests[j] == rounds[j].best);
        assert(covered(end.best, bests[j].value));
        let m = choose|m: Evaluation| #[trigger] end.best.contains(m) && m.value >= bests[j].value;
        assert(best.value >= m.value);
    }
    assert forall|j: int, k: int|
        0 <= j < rounds.len() && 0 <= k < rounds[j].cube.values.len() implies (
    #[trigger] rounds[j].cube.values[k]).value <= best.value by {
        let c = rounds[j].cube;
        assert(round_ok(function, rounds[j]));
        c.values.to_multiset_ensures();
        assert(c.values.contains(c.values[k]));
        assert(c.ordered.contains(c.values[k]));
        assert(rounds[j].best.value <= best.value);
    }
    if best != first_eval {
        assert(among(bests, best));
        let j = choose|j: int| 0 <= j < bests.len() && #[trigger] bests[j] == best;
        let c = rounds[j].cube;
        assert(round_ok(function, rounds[j]));
        assert(bests[j] == rounds[j].best);
        c.values.to_multiset_ensures();
        assert(c.values.contains(best));
        let k = choose|k: int| 0 <= k < c.values.len() && c.values[k] == best;
        assert(rounds[j].cube.values[k] == best);
    }
    if exists|j: int| 0 <= j < rounds.len() && (#[trigger] rounds[j]).best.value > first {
        let j = choose|j: int| 0 <= j < rounds.len() && (#[trigger] rounds[j]).best.value > first;
        assert(rounds[j].best.value <= best.value);
    }
}

/// The number of evaluations after the initial one and `rounds` evaluations
/// of a population of `population` points; it stays at `u32::MAX`.
pub open spec fn evaluations_used(rounds: int, population: int) -> u32 {
    if 1 + rounds * population > u32::MAX {
        u32::MAX
    } else {
        (1 + rounds * population) as u32
    }
}

// ---------------------------------------------------------------------------
// The arithmetic of one iteration
// ---------------------------------------------------------------------------

/// The distance between two values.
pub fn abs_difference(a: i64, b: i64) -> (r: i64)
    ensures
        r == abs_delta(a, b),
        r >= 0,
{
    if a >= b {
        scalar_clip(a as i128 - b as i128)
    } else {
        scalar_clip(b as i128 - a as i128)
    }
}

/// The running mean after `value` came in as the `count`-th term:
/// `average + (value - average) / count`.
pub fn running_mean(average: i64, value: i64, count: u32) -> (r: i64)
    requires
        count >= 1,
    ensures
        r == mean_update(average, value, count as int),
        average <= value ==> average <= r <= value,
        average >= value ==> value <= r <= average,
{
    let difference: i128 = value as i128 - average as i128;
    let magnitude: i128 = if difference >= 0 {
        difference
    } else {
        -difference
    };
    let share: i128 = magnitude / (count as i128);
    assert(0 <= share <= magnitude) by (nonlinear_arith)
        requires
            share == magnitude / (count as i128),
            magnitude >= 0,
            count >= 1,
    ;
    if difference >= 0 {
        (average as i128 + share) as i64
    } else {
        (average as i128 - share) as i64
    }
}

/// The point halfway between `a` and `b`.
pub fn midpoint_of(a: &Point, b: &Point) -> (r: Point)
    requires
        a@.len() == b@.len(),
    ensures
        r@ == halfway(a@, b@),
{
    a.add(b).scale(HALF)
}

/// The distance between `current` and `previous`, normalized by `center` and
/// `side` and divided by the square root of the dimension.
pub fn renormalize(current: &Point, previous: &Point, center: &Point, side: i64) -> (r: i64)
    requires
        current.wf(),
        previous@.len() == current@.len(),
        center@.len() == current@.len(),
    ensures
        r == renormalized_distance(current@, previous@, center@, side),
{
    let dimension = current.dim();
    let sides = Point::fill(side, dimension);
    let previous_normalized = previous.sub(center).div(&sides);
    let current_normalized = current.sub(center).div(&sides);
    let difference = current_normalized.sub(&previous_normalized);
    let normalized_distance = difference.len();
    assert(dimension * UNIT * UNIT == (dimension * UNIT) * UNIT) by (nonlinear_arith);
    let root = scalar_sqrt((dimension as i64) * UNIT);
    scalar_div(normalized_distance, root)
}

// ---------------------------------------------------------------------------
// The running statistics
// ---------------------------------------------------------------------------

/// What to do after an iteration.
#[derive(Debug)]
pub enum Decision {
    /// The best value has settled: stop.
    Converged,
    /// The iteration regressed: sample the same region again.
    Resample,
    /// Shrink the region by `factor`, then move it to `destination`.
    Move { destination: Point, factor: i64 },
}

/// The running statistics of a search.
#[derive(Debug)]
pub struct SearchProgress {
    previous_best: PointEval,
    average_f: i64,
    abs_delta_f_vec: Vec<i64>,
    best_evaluations: BestQueue,
}

impl View for SearchProgress {
    type V = ProgressState;

    closed spec fn view(&self) -> ProgressState {
        ProgressState {
            previous: self.previous_best@,
            average: self.average_f,
            window: self.abs_delta_f_vec@,
            best: self.best_evaluations.contents(),
        }
    }
}

impl SearchProgress {
    /// The best-first structure is in order.
    pub closed spec fn wf(&self) -> bool {
        self.best_evaluations.wf()
    }

    /// The statistics of a search that has evaluated its initial point.
    pub fn start(init_eval: PointEval) -> (r: Self)
        ensures
            r.wf(),
            r@.previous == init_eval@,
            r@.average == init_eval@.value,
            r@.window == Seq::<i64>::empty(),
            r@.best == Multiset::<Evaluation>::empty().insert(init_eval@),
    {
        let mut best_evaluations = BestQueue::new();
        best_evaluations.push(init_eval.clone());
        let average_f = init_eval.get_eval();
        SearchProgress {
            previous_best: init_eval,
            average_f,
            abs_delta_f_vec: Vec::new(),
            best_evaluations,
        }
    }

    /// Takes in the best evaluation of iteration `iteration` and decides how
    /// the search goes on.
    ///
    /// The search converges when the best value has changed by no more than
    /// `tol_f` in thirty iterations one after the other. Otherwise an
    /// iteration whose best is worse than the running mean or than the
    /// previous best asks for a new sample of the same region. Any other
    /// iteration moves the region halfway between the previous and the
    /// current best, after shrinking it by the factor that belongs to the
    /// distance of the two.
    pub fn observe(
        &mut self,
        iteration: u32,
        current_best: PointEval,
        tol_f: i64,
        center: &Point,
        side_length: i64,
    ) -> (r: Decision)
        requires
            old(self).wf(),
            old(self)@.window.len() < CONVERGENCE_WINDOW,
            iteration < u32::MAX,
            0 < current_best@.point.len() <= u32::MAX,
            old(self)@.previous.point.len() == current_best@.point.len(),
            center@.len() == current_best@.point.len(),
        ensures
            final(self).wf(),
            final(self)@ == progress_after(old(self)@, iteration, current_best@, tol_f),
            r is Converged <==> converges(old(self)@, current_best@, tol_f),
            r is Resample <==> !converges(old(self)@, current_best@, tol_f) && regresses(
                old(self)@,
                current_best@,
                iteration,
            ),
            r matches Decision::Move { destination, factor } ==> destination@ == halfway(
                current_best@.point,
                old(self)@.previous.point,
            ) && factor == factor_of(
                renormalized_distance(
                    current_best@.point,
                    old(self)@.previous.point,
                    center@,
                    side_length,
                ),
            ) && 800_000 <= factor < UNIT,
    {
        if current_best.get_eval() > self.previous_best.get_eval() {
            self.best_evaluations.push(current_best.clone());
        } else {
            self.best_evaluations.push(self.previous_best.clone());
        }
        let abs_delta_f = abs_difference(current_best.get_eval(), self.previous_best.get_eval());
        if abs_delta_f <= tol_f {
            self.abs_delta_f_vec.push(abs_delta_f);
            if self.abs_delta_f_vec.len() >= CONVERGENCE_WINDOW {
                return Decision::Converged;
            }
        } else {
            self.abs_delta_f_vec.clear();
        }
        self.average_f = running_mean(self.average_f, current_best.get_eval(), iteration + 1);
        if current_best.get_eval() < self.average_f || current_best.get_eval()
            < self.previous_best.get_eval() {
            return Decision::Resample;
        }
        let previous_point = self.previous_best.get_point();
        let current_point = current_best.get_point();
        let destination = midpoint_of(&current_point, &previous_point);
        let renormalized = renormalize(&current_point, &previous_point, center, side_length);
        let factor = convergence_factor(renormalized);
        self.previous_best = current_best;
        Decision::Move { destination, factor }
    }

    /// The best evaluation seen so far.
    pub fn best(&self) -> (r: Option<&PointEval>)
        requires
            self.wf(),
        ensures
            r is None <==> self@.best.len() == 0,
            r is Some ==> self@.best.contains(r->0@) && is_best_of(self@.best, r->0@),
    {
        self.best_evaluations.peek()
    }
}

// ---------------------------------------------------------------------------
// The optimizer
// ---------------------------------------------------------------------------

/// A freshly evaluated hypercube and its best evaluation make a round, and
/// that best is an image of a point inside the initial region.
proof fn lemma_fresh_round<F: Fn(&Point) -> i64>(function: F, s: CubeState, e: Evaluation)
    requires
        cube_wf(s),
        s.ordered == s.values.to_multiset(),
        s.values.len() == s.population.len(),
        forall|j: int|
            0 <= j < s.values.len() ==> (#[trigger] s.values[j]).point == s.population[j]
                && is_image(function, s.population[j], s.values[j].value),
        s.ordered.contains(e),
        is_best_of(s.ordered, e),
    ensures
        round_ok(function, Round { cube: s, best: e }),
        is_image(function, e.point, e.value),
        e.point.len() == cube_dim(s),
        seq_workable(e.point),
        seq_inside(e.point, s.init.lower, s.init.upper),
{
    s.values.to_multiset_ensures();
    assert(s.values.contains(e));
    let j = choose|j: int| 0 <= j < s.values.len() && s.values[j] == e;
    assert(s.values[j].point == s.population[j]);
    crate::hypercube::lemma_member_inside(s, j);
    assert forall|k: int| 0 <= k < s.values.len() implies (#[trigger] s.values[k]).point
        == s.population[k] && is_image(function, s.population[k], s.values[k].value)
        && s.population[k].len() == cube_dim(s) && seq_inside(
        s.population[k],
        s.init.lower,
        s.init.upper,
    ) by {
        crate::hypercube::lemma_member_inside(s, k);
    }
}

/// Adding a round leaves the earlier rounds and their best evaluations as
/// they were.
proof fn lemma_rounds_push(rounds: Seq<Round>, next: Round, k: int)
    requires
        0 <= k <= rounds.len(),
    ensures
        bests_of(rounds.push(next)) == bests_of(rounds).push(next.best),
        bests_of(rounds.push(next)).take(k) == bests_of(rounds).take(k),
        bests_of(rounds).take(rounds.len() as int) == bests_of(rounds),
        bests_of(rounds).len() == rounds.len(),
{
    assert(bests_of(rounds.push(next)) =~= bests_of(rounds).push(next.best));
    assert(bests_of(rounds.push(next)).take(k) =~= bests_of(rounds).take(k));
    assert(bests_of(rounds).take(rounds.len() as int) =~= bests_of(rounds));
}

/// The hypercube with which an iteration begins does not depend on the rounds
/// after it.
proof fn lemma_cube_before_stable(
    start_cube: CubeState,
    start: ProgressState,
    rounds: Seq<Round>,
    next: Round,
    j: int,
    tol_f: i64,
)
    requires
        0 <= j <= rounds.len(),
    ensures
        cube_before(start_cube, start, rounds.push(next), j, tol_f) == cube_before(
            start_cube,
            start,
            rounds,
            j,
            tol_f,
        ),
{
    reveal(cube_before);
    if j > 0 {
        lemma_rounds_push(rounds, next, j - 1);
        assert(rounds.push(next)[j - 1] == rounds[j - 1]);
    }
}

/// A search without rounds: the trace is in order and the hypercube is the
/// one the search began with.
proof fn lemma_trace_empty<F: Fn(&Point) -> i64>(
    function: F,
    start_cube: CubeState,
    start: ProgressState,
    tol_f: i64,
)
    ensures
        trace_ok(function, start_cube, start, Seq::<Round>::empty(), tol_f),
        cube_before(start_cube, start, Seq::<Round>::empty(), 0, tol_f) == start_cube,
        bests_of(Seq::<Round>::empty()) == Seq::<Evaluation>::empty(),
        goes_on(start, Seq::<Evaluation>::empty(), tol_f),
        progress_through(start, Seq::<Evaluation>::empty(), tol_f) == start,
{
    reveal(cube_before);
    reveal(trace_ok);
    assert(bests_of(Seq::<Round>::empty()) =~= Seq::<Evaluation>::empty());
}

/// One more round extends a trace that is in order, and the hypercube that
/// the round leaves is the one with which the next iteration begins.
proof fn lemma_trace_push<F: Fn(&Point) -> i64>(
    function: F,
    start_cube: CubeState,
    start: ProgressState,
    rounds: Seq<Round>,
    next: Round,
    tol_f: i64,
)
    requires
        rounds.len() < u32::MAX,
        trace_ok(function, start_cube, start, rounds, tol_f),
        round_ok(function, next),
        redrawn(next.cube, cube_before(start_cube, start, rounds, rounds.len() as int, tol_f)),
    ensures
        trace_ok(function, start_cube, start, rounds.push(next), tol_f),
        bests_of(rounds.push(next)) == bests_of(rounds).push(next.best),
        bests_of(rounds.push(next)).drop_last() == bests_of(rounds),
        bests_of(rounds.push(next)).last() == next.best,
        cube_before(
            start_cube,
            start,
            rounds.push(next),
            rounds.len() as int + 1,
            tol_f,
        ) == cube_after(
            next.cube,
            progress_through(start, bests_of(rounds), tol_f),
            rounds.len() as u32,
            next.best,
            tol_f,
        ),
{
    let longer = rounds.push(next);
    lemma_rounds_push(rounds, next, rounds.len() as int);
    assert(bests_of(longer).drop_last() =~= bests_of(rounds));
    assert(cube_before(start_cube, start, longer, rounds.len() as int + 1, tol_f) == cube_after(
        next.cube,
        progress_through(start, bests_of(rounds), tol_f),
        rounds.len() as u32,
        next.best,
        tol_f,
    )) by {
        reveal(cube_before);
        assert(longer[rounds.len() as int] == next);
    }
    assert(trace_ok(function, start_cube, start, longer, tol_f)) by {
        reveal(trace_ok);
        assert forall|j: int| 0 <= j < longer.len() implies round_ok(
            function,
            #[trigger] longer[j],
        ) by {
            if j < rounds.len() {
                assert(longer[j] == rounds[j]);
            }
        }
        assert forall|j: int| 0 <= j < longer.len() implies redrawn(
            (#[trigger] longer[j]).cube,
            cube_before(start_cube, start, longer, j, tol_f),
        ) by {
            lemma_cube_before_stable(start_cube, start, rounds, next, j, tol_f);
            if j < rounds.len() {
                assert(longer[j] == rounds[j]);
            }
        }
    }
}

/// Taking in one more best evaluation is one step of the rule, and a search
/// that went on goes on unless that evaluation ends it.
proof fn lemma_one_more(start: ProgressState, bests: Seq<Evaluation>, next: Evaluation, tol_f: i64)
    requires
        bests.len() < u32::MAX,
    ensures
        progress_through(start, bests.push(next), tol_f) == progress_after(
            progress_through(start, bests, tol_f),
            bests.len() as u32,
            next,
            tol_f,
        ),
        bests.push(next).drop_last() == bests,
        goes_on(start, bests, tol_f) && !converges(
            progress_through(start, bests, tol_f),
            next,
            tol_f,
        ) ==> goes_on(start, bests.push(next), tol_f),
{
    let longer = bests.push(next);
    assert(longer.drop_last() =~= bests);
    if goes_on(start, bests, tol_f) && !converges(progress_through(start, bests, tol_f), next, tol_f) {
        assert forall|j: int| 0 <= j < longer.len() implies !converges(
            progress_through(start, #[trigger] longer.take(j), tol_f),
            longer[j],
            tol_f,
        ) by {
            if j < bests.len() {
                assert(longer.take(j) =~= bests.take(j));
            } else {
                assert(longer.take(j) =~= bests);
            }
        }
    }
}

/// The point halfway between two points of the working range lies in the
/// working range.
proof fn lemma_halfway_workable(a: Seq<i64>, b: Seq<i64>)
    requires
        a.len() == b.len(),
        seq_workable(a),
        seq_workable(b),
    ensures
        halfway(a, b).len() == a.len(),
        seq_workable(halfway(a, b)),
{
    assert forall|i: int| 0 <= i < a.len() implies workable(#[trigger] halfway(a, b)[i]) by {
        assert(workable(a[i]));
        assert(workable(b[i]));
    }
}

/// A maximizer of an objective function over a hypercube.
#[derive(Debug)]
pub struct HypercubeOptimizer {
    /// The dimension of the problem.
    dimension: u32,
    /// The first point that is evaluated.
    init_point: Point,
    /// The hypercube that is searched.
    hypercube: Hypercube,
    /// The tolerance on the change of the best point; reserved.
    tol_x: i64,
    /// The tolerance on the change of the best value.
    tol_f: i64,
    /// The largest number of iterations.
    max_loop: u32,
    /// The largest number of evaluations; reserved.
    max_eval: u32,
    /// The largest running time; reserved.
    max_timeout: u32,
    /// The lower bound of the search space.
    lower_bound: i64,
    /// The upper bound of the search space.
    upper_bound: i64,
}

impl HypercubeOptimizer {
    /// The hypercube that is searched.
    pub closed spec fn cube(&self) -> CubeState {
        self.hypercube@
    }

    /// The coordinates of the initial point.
    pub closed spec fn start_point(&self) -> Seq<i64> {
        self.init_point@
    }

    /// The largest number of iterations.
    pub closed spec fn loop_limit(&self) -> u32 {
        self.max_loop
    }

    /// The tolerance on the change of the best value.
    pub closed spec fn value_tolerance(&self) -> i64 {
        self.tol_f
    }

    /// The hypercube is well formed and the initial point is a point of its
    /// initial region.
    pub closed spec fn wf(&self) -> bool {
        &&& self.hypercube.wf()
        &&& self.dimension == cube_dim(self.hypercube@)
        &&& self.init_point@.len() == cube_dim(self.hypercube@)
        &&& forall|i: int|
            0 <= i < self.init_point@.len() ==> self.hypercube@.init.lower[i]
                <= #[trigger] self.init_point@[i] <= self.hypercube@.init.upper[i]
    }

    /// An optimizer that starts at `init_point` and searches
    /// `[lower_bound, upper_bound]` in each coordinate.
    pub fn new(
        init_point: Point,
        lower_bound: i64,
        upper_bound: i64,
        tol_x: i64,
        tol_f: i64,
        max_loop: u32,
        max_eval: u32,
        max_timeout: u32,
    ) -> (r: Self)
        requires
            init_point.wf(),
            upper_bound > lower_bound,
            forall|i: int|
                0 <= i < init_point@.len() ==> lower_bound <= #[trigger] init_point@[i]
                    <= upper_bound,
            moderate(lower_bound),
            moderate(upper_bound),
            population_count(init_point@.len() as u32, lower_bound, upper_bound) <= u32::MAX,
        ensures
            r.wf(),
            r.start_point() == init_point@,
            r.loop_limit() == max_loop,
            r.value_tolerance() == tol_f,
            cube_dim(r.cube()) == init_point@.len(),
            r.cube().init.lower == seq_fill(lower_bound, init_point@.len()),
            r.cube().init.upper == seq_fill(upper_bound, init_point@.len()),
            r.cube().current == r.cube().init,
            r.cube().population.len() == population_count(
                init_point@.len() as u32,
                lower_bound,
                upper_bound,
            ),
    {
        let dimension = init_point.dim();
        let hypercube = Hypercube::new(dimension, lower_bound, upper_bound);
        HypercubeOptimizer {
            dimension,
            init_point,
            hypercube,
            tol_x,
            tol_f,
            max_loop,
            max_eval,
            max_timeout,
            lower_bound,
            upper_bound,
        }
    }

    /// The hypercube that is searched.
    pub fn hypercube(&self) -> (r: &Hypercube)
        ensures
            r@ == self.cube(),
            self.wf() ==> r.wf(),
    {
        &self.hypercube
    }

    /// The shrink factor for the renormalized distance
    /// `renormalized_distance`: `1 - 0.2 * e^(-3r)`.
    pub fn calculate_convergence(renormalized_distance: i64) -> (r: i64)
        ensures
            r == factor_of(renormalized_distance),
            800_000 <= r < UNIT,
            renormalized_distance == 0 ==> r == 800_000,
    {
        convergence_factor(renormalized_distance)
    }

    /// Runs one iteration: draws and evaluates a population, hands its best
    /// evaluation to `progress`, and shrinks and moves the hypercube where
    /// that is asked for. Returns whether the search has converged.
    fn play_round<F: Fn(&Point) -> i64>(
        &mut self,
        obj_function: &F,
        progress: &mut SearchProgress,
        iteration: u32,
    ) -> (r: (bool, Ghost<Round>))
        requires
            old(self).wf(),
            old(self).cube().population.len() > 0,
            accepts_all(*obj_function, cube_dim(old(self).cube())),
            old(progress).wf(),
            old(progress)@.window.len() < CONVERGENCE_WINDOW,
            iteration < u32::MAX,
            old(progress)@.previous.point.len() == cube_dim(old(self).cube()),
            seq_workable(old(progress)@.previous.point),
        ensures
            final(self).wf(),
            final(self).max_loop == old(self).max_loop,
            final(self).tol_f == old(self).tol_f,
            final(self).init_point == old(self).init_point,
            final(self).cube().init == old(self).cube().init,
            final(self).cube().population.len() == old(self).cube().population.len(),
            round_ok(*obj_function, r.1@),
            redrawn(r.1@.cube, old(self).cube()),
            is_image(*obj_function, r.1@.best.point, r.1@.best.value),
            r.1@.best.point.len() == cube_dim(old(self).cube()),
            seq_workable(r.1@.best.point),
            seq_inside(
                r.1@.best.point,
                old(self).cube().init.lower,
                old(self).cube().init.upper,
            ),
            final(progress).wf(),
            final(progress)@ == progress_after(
                old(progress)@,
                iteration,
                r.1@.best,
                old(self).tol_f,
            ),
            r.0 <==> converges(old(progress)@, r.1@.best, old(self).tol_f),
            final(self).cube() == cube_after(
                r.1@.cube,
                old(progress)@,
                iteration,
                r.1@.best,
                old(self).tol_f,
            ),
    {
        self.hypercube.randomize_pop();
        self.hypercube.evaluate(obj_function);
        let ghost evaluated = self.hypercube@;
        proof {
            assert(evaluated.values.skip(0) =~= evaluated.values);
            assert(evaluated.ordered =~= evaluated.values.to_multiset());
            evaluated.values.to_multiset_ensures();
        }
        let current_best = match self.hypercube.peek_best_value() {
            Some(v) => v,
            None => {
                proof {
                    assert(false);
                }
                return (true, Ghost(Round { cube: evaluated, best: progress@.previous }));
            },
        };
        let center = self.hypercube.get_center().clone();
        let side_length = self.hypercube.get_side_length();
        let ghost seen = progress@;
        let ghost round = Round { cube: evaluated, best: current_best@ };
        proof {
            lemma_fresh_round(*obj_function, evaluated, current_best@);
        }
        let decision = progress.observe(iteration, current_best, self.tol_f, &center, side_length);
        match decision {
            Decision::Converged => (true, Ghost(round)),
            Decision::Resample => (false, Ghost(round)),
            Decision::Move { destination, factor } => {
                proof {
                    lemma_halfway_workable(round.best.point, seen.previous.point);
                }
                self.hypercube.shrink(factor);
                self.hypercube.displace_to(&destination);
                (false, Ghost(round))
            },
        }
    }

    /// Searches for a point at which `obj_function` is large.
    ///
    /// The initial point is evaluated first. Every iteration then draws a new
    /// population in the hypercube, evaluates it and hands its best
    /// evaluation to [`SearchProgress::observe`], which ends the search, asks
    /// for a new sample, or has the hypercube shrunk and moved. The search
    /// ends after thirty iterations within tolerance one after the other, or
    /// after the largest number of iterations.
    ///
    /// The result reports whether the search converged (`CONVERGED`) or ran
    /// out of iterations (`ITERATION_LIMIT_REACHED`), the iteration at which
    /// it converged or else the largest number of iterations, the number of
    /// evaluations, and the best evaluation: no point that was evaluated has
    /// a greater image (see [`lemma_run_reports_the_greatest`]). Every point
    /// that is evaluated lies within the initial region, and the hypercube is
    /// left as the last iteration left it.
    pub fn maximize<F: Fn(&Point) -> i64>(&mut self, obj_function: F) -> (r:
        HypercubeOptimizerResult)
        requires
            old(self).wf(),
            old(self).loop_limit() == 0 || old(self).cube().population.len() > 0,
            accepts_all(obj_function, cube_dim(old(self).cube())),
        ensures
            final(self).wf(),
            final(self).cube().init == old(self).cube().init,
            final(self).cube().population.len() == old(self).cube().population.len(),
            final(self).start_point() == old(self).start_point(),
            final(self).loop_limit() == old(self).loop_limit(),
            final(self).value_tolerance() == old(self).value_tolerance(),
            r.wf(),
            r@.loops <= old(self).loop_limit(),
            r@.exit_code == if r@.loops < old(self).loop_limit() {
                CONVERGED
            } else {
                ITERATION_LIMIT_REACHED
            },
            r@.loops < old(self).loop_limit() ==> r@.loops + 1 >= CONVERGENCE_WINDOW,
            r@.fn_evals == evaluations_used(
                if r@.loops < old(self).loop_limit() {
                    r@.loops + 1
                } else {
                    r@.loops as int
                },
                old(self).cube().population.len() as int,
            ),
            r@.best is Some,
            r@.best->0.point.len() == cube_dim(old(self).cube()),
            seq_inside(
                r@.best->0.point,
                old(self).cube().init.lower,
                old(self).cube().init.upper,
            ),
            is_image(obj_function, r@.best->0.point, r@.best->0.value),
            exists|first: i64, rounds: Seq<Round>|
                is_run(
                    obj_function,
                    old(self).cube(),
                    old(self).start_point(),
                    old(self).value_tolerance(),
                    old(self).loop_limit(),
                    first,
                    rounds,
                    final(self).cube(),
                    r@,
                ),
    {
        let ghost n = cube_dim(self.cube());
        let ghost start_cube = self.cube();
        let ghost init = self.cube().init;
        let population = self.hypercube.get_population_size();
        let init_image = obj_function(&self.init_point);
        let init_eval = PointEval::new(self.init_point.clone(), init_image);
        let ghost start = progress_start(init_eval@);
        let ghost mut rounds: Seq<Round> = Seq::empty();
        let mut progress = SearchProgress::start(init_eval);
        let mut fn_eval: u32 = 1;
        let mut i: u32 = 0;
        proof {
            assert(is_image(obj_function, self.init_point@, init_image));
            assert forall|k: int| 0 <= k < n implies workable(#[trigger] self.init_point@[k]) by {
                assert(limit_ok_at(init, k));
            }
            assert(fn_eval == evaluations_used(0, population as int)) by (nonlinear_arith)
                requires
                    fn_eval == 1,
                    0 * population == 0,
            ;
            lemma_trace_empty(obj_function, start_cube, start, self.tol_f);
        }
        while i < self.max_loop
            invariant
                i <= self.max_loop,
                self.wf(),
                start_cube == old(self).cube(),
                init == start_cube.init,
                n == cube_dim(start_cube),
                population == start_cube.population.len(),
                self.cube().init == init,
                self.cube().population.len() == population,
                self.max_loop == 0 || population > 0,
                self.max_loop == old(self).max_loop,
                self.tol_f == old(self).tol_f,
                self.init_point == old(self).init_point,
                accepts_all(obj_function, n),
                progress.wf(),
                progress@.window.len() < CONVERGENCE_WINDOW,
                progress@.window.len() <= i,
                progress@.previous.point.len() == n,
                seq_workable(progress@.previous.point),
                forall|e: Evaluation| #[trigger]
                    progress@.best.contains(e) ==> is_image(obj_function, e.point, e.value)
                        && e.point.len() == n && seq_inside(e.point, init.lower, init.upper),
                is_image(obj_function, progress@.previous.point, progress@.previous.value),
                seq_inside(progress@.previous.point, init.lower, init.upper),
                progress@.best.len() > 0,
                is_image(obj_function, old(self).init_point@, init_image),
                fn_eval == evaluations_used(i as int, population as int),
                start == progress_start(
                    Evaluation { point: old(self).init_point@, value: init_image },
                ),
                rounds.len() == i,
                progress@ == progress_through(start, bests_of(rounds), self.tol_f),
                goes_on(start, bests_of(rounds), self.tol_f),
                trace_ok(obj_function, start_cube, start, rounds, self.tol_f),
                self.cube() == cube_before(start_cube, start, rounds, i as int, self.tol_f),
            decreases self.max_loop - i,
        {
            let ghost seen = progress@;
            let round_result = self.play_round(&obj_function, &mut progress, i);
            let converged = round_result.0;
            let ghost round = round_result.1@;
            proof {
                assert((i + 1) * population == i * population + population) by (nonlinear_arith);
            }
            fn_eval = if population >= (u32::MAX - fn_eval) as u64 {
                u32::MAX
            } else {
                fn_eval + population as u32
            };
            proof {
                lemma_trace_push(obj_function, start_cube, start, rounds, round, self.tol_f);
                lemma_one_more(start, bests_of(rounds), round.best, self.tol_f);
                assert forall|e: Evaluation| #[trigger] progress@.best.contains(e) implies is_image(
                    obj_function,
                    e.point,
                    e.value,
                ) && e.point.len() == n && seq_inside(e.point, init.lower, init.upper) by {
                    if !seen.best.contains(e) {
                        assert(e == better_of(round.best, seen.previous));
                    }
                }
                assert(progress@.best.len() > 0);
                rounds = rounds.push(round);
            }
            if converged {
                let result = HypercubeOptimizerResult::new(CONVERGED, i, fn_eval, progress.best());
                proof {
                    assert(is_run(
                        obj_function,
                        old(self).cube(),
                        old(self).start_point(),
                        old(self).value_tolerance(),
                        old(self).loop_limit(),
                        init_image,
                        rounds,
                        self.cube(),
                        result@,
                    ));
                }
                return result;
            }
            i += 1;
        }
        let result = HypercubeOptimizerResult::new(
            ITERATION_LIMIT_REACHED,
            self.max_loop,
            fn_eval,
            progress.best(),
        );
        proof {
            assert(is_run(
                obj_function,
                old(self).cube(),
                old(self).start_point(),
                old(self).value_tolerance(),
                old(self).loop_limit(),
                init_image,
                rounds,
                self.cube(),
                result@,
            ));
        }
        result
    }
}

} // verus!
