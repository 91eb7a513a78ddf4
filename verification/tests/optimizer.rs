use hypercube_optimizer::evaluation::PointEval;
use hypercube_optimizer::objective_functions::summation;
use hypercube_optimizer::optimizer::{
    abs_difference, midpoint_of, renormalize, running_mean, Decision, HypercubeOptimizer,
    SearchProgress,
};
use hypercube_optimizer::point::Point;

/// The scalar that stands for the real number `x`.
fn fx(x: f64) -> i64 {
    (x * 1_000_000.0).round() as i64
}

/// The real number that the scalar `x` stands for.
fn as_number(x: i64) -> f64 {
    x as f64 / 1_000_000.0
}

/// The point with the given real coordinates.
fn point(coords: &[f64]) -> Point {
    Point::from_vec(coords.iter().map(|x| fx(*x)).collect())
}

/// The negative of the Rastrigin function, in fixed point.
fn neg_rastrigin(input_point: &Point) -> i64 {
    let dimension = input_point.dim();
    let mut sum: f64 = 0.0;
    for val in input_point.iter() {
        let val = as_number(*val);
        sum += val.powf(2.0) - (10.0 * (2.0 * std::f64::consts::PI * val).cos());
    }
    fx(-(10.0 * dimension as f64 + sum))
}

/// The same value at every point.
fn flat(_input_point: &Point) -> i64 {
    7_000_000
}

#[test]
fn maximize_beats_the_initial_point_on_the_negative_rastrigin_function() {
    let initial_point = Point::fill(fx(60.0), 3);
    let initial_value = neg_rastrigin(&initial_point);
    let mut optimizer =
        HypercubeOptimizer::new(initial_point, fx(0.0), fx(120.0), fx(0.01), fx(0.1), 60, 5000, 120);

    let result = optimizer.maximize(neg_rastrigin);

    assert!(result.loops() <= 60);
    if result.loops() < 60 {
        assert_eq!(result.exit_code(), 0);
        assert_eq!(result.message(), "optimization successful");
    } else {
        assert_eq!(result.exit_code(), 2);
        assert_eq!(result.message(), "non-convergence within defined bounds");
    }
    let best_x = result.best_x().unwrap();
    let best_f = result.best_f().unwrap();
    assert!(best_f > initial_value);
    assert_eq!(best_f, neg_rastrigin(&best_x));
    assert_eq!(best_x.dim(), 3);
}

#[test]
fn maximize_homes_in_on_the_greatest_sum() {
    let initial_point = Point::fill(fx(1.0), 2);
    let mut optimizer =
        HypercubeOptimizer::new(initial_point, fx(0.0), fx(50.0), fx(0.01), fx(0.0), 40, 5000, 120);

    let result = optimizer.maximize(summation);

    // the sum is greatest in the corner (50, 50)
    let best_f = result.best_f().unwrap();
    assert!(best_f > fx(90.0));
    assert!(best_f <= fx(100.0));
    assert_eq!(best_f, summation(&result.best_x().unwrap()));
}

#[test]
fn maximize_of_a_flat_function_converges_after_thirty_iterations() {
    let initial_point = Point::fill(fx(5.0), 2);
    let mut optimizer =
        HypercubeOptimizer::new(initial_point, fx(0.0), fx(10.0), fx(0.01), fx(0.1), 2000, 5000, 120);
    let population = optimizer.hypercube().get_population_size();
    assert_eq!(population, 40);

    let result = optimizer.maximize(flat);

    // the thirtieth iteration has the index 29
    assert_eq!(result.exit_code(), 0);
    assert_eq!(result.loops(), 29);
    assert_eq!(result.fn_evals(), 1 + 30 * 40);
    assert_eq!(result.best_f(), Some(7_000_000));
}

#[test]
fn maximize_stops_at_the_largest_number_of_iterations() {
    let initial_point = Point::fill(fx(5.0), 2);
    let mut optimizer =
        HypercubeOptimizer::new(initial_point, fx(0.0), fx(10.0), fx(0.01), fx(0.1), 12, 5000, 120);

    let result = optimizer.maximize(flat);

    // the search was cut off before thirty quiet iterations had passed
    assert_eq!(result.exit_code(), 2);
    assert_eq!(result.message(), "non-convergence within defined bounds");
    assert_eq!(result.loops(), 12);
    assert_eq!(result.fn_evals(), 1 + 12 * 40);
    assert_eq!(result.best_f(), Some(7_000_000));
}

#[test]
fn maximize_without_iterations_reports_the_initial_point() {
    let initial_point = point(&[1.0, 2.5]);
    let mut optimizer = HypercubeOptimizer::new(
        initial_point.clone(),
        fx(0.0),
        fx(10.0),
        fx(0.01),
        fx(0.1),
        0,
        5000,
        120,
    );

    let result = optimizer.maximize(summation);

    assert_eq!(result.exit_code(), 2);
    assert_eq!(result.loops(), 0);
    assert_eq!(result.fn_evals(), 1);
    assert_eq!(result.best_x(), Some(initial_point));
    assert_eq!(result.best_f(), Some(fx(3.5)));
}

#[test]
fn maximize_without_iterations_needs_no_population() {
    // a span of less than one unit holds no points
    let initial_point = point(&[0.25, 0.5]);
    let mut optimizer = HypercubeOptimizer::new(
        initial_point.clone(),
        fx(0.0),
        fx(0.75),
        fx(0.01),
        fx(0.1),
        0,
        5000,
        120,
    );
    assert_eq!(optimizer.hypercube().get_population_size(), 0);

    let result = optimizer.maximize(summation);

    assert_eq!(result.exit_code(), 2);
    assert_eq!(result.loops(), 0);
    assert_eq!(result.fn_evals(), 1);
    assert_eq!(result.best_x(), Some(initial_point));
    assert_eq!(result.best_f(), Some(fx(0.75)));
}

#[test]
fn maximize_reports_the_greatest_image_it_saw() {
    let seen: std::cell::RefCell<Vec<i64>> = std::cell::RefCell::new(Vec::new());
    let objective = |p: &Point| {
        for x in p.iter() {
            assert!(fx(0.0) <= *x && *x <= fx(20.0));
        }
        let value = neg_rastrigin(p);
        seen.borrow_mut().push(value);
        value
    };
    let mut optimizer =
        HypercubeOptimizer::new(Point::fill(fx(15.0), 2), fx(0.0), fx(20.0), 0, fx(0.1), 25, 0, 0);

    let result = optimizer.maximize(objective);

    let seen = seen.into_inner();
    assert_eq!(seen.len() as u32, result.fn_evals());
    assert_eq!(result.best_f(), seen.iter().copied().max());
}

#[test]
fn maximize_keeps_the_hypercube_within_its_initial_bounds() {
    let initial_point = Point::fill(fx(60.0), 3);
    let mut optimizer =
        HypercubeOptimizer::new(initial_point, fx(0.0), fx(120.0), fx(0.01), fx(0.1), 40, 5000, 120);

    let result = optimizer.maximize(neg_rastrigin);

    let cube = optimizer.hypercube();
    let lower = cube.get_current_bounds().get_lower().to_vec();
    let upper = cube.get_current_bounds().get_upper().to_vec();
    for i in 0..3 {
        assert!(fx(0.0) <= lower[i] && lower[i] <= upper[i] && upper[i] <= fx(120.0));
    }
    assert_eq!(cube.get_center(), &cube.get_current_bounds().compute_center());
    assert_eq!(cube.get_population_size(), 1080);
    for x in result.best_x().unwrap().iter() {
        assert!(fx(0.0) <= *x && *x <= fx(120.0));
    }
}

#[test]
fn a_new_optimizer_starts_with_the_whole_search_space() {
    let optimizer =
        HypercubeOptimizer::new(point(&[1.0, 2.0, 3.0]), fx(0.0), fx(4.0), 0, 0, 10, 10, 10);
    let cube = optimizer.hypercube();
    assert_eq!(cube.dim(), 3);
    assert_eq!(cube.get_population_size(), 36);
    assert_eq!(cube.get_current_bounds(), cube.get_init_bounds());
    assert_eq!(cube.get_center(), &Point::fill(fx(2.0), 3));
}

#[test]
fn the_distance_between_two_values() {
    assert_eq!(abs_difference(fx(3.0), fx(5.5)), fx(2.5));
    assert_eq!(abs_difference(fx(5.5), fx(3.0)), fx(2.5));
    assert_eq!(abs_difference(fx(-1.0), fx(1.0)), fx(2.0));
    assert_eq!(abs_difference(4, 4), 0);
    assert_eq!(abs_difference(i64::MIN, i64::MAX), i64::MAX);
    assert_eq!(abs_difference(i64::MAX, i64::MIN), i64::MAX);
}

#[test]
fn the_running_mean() {
    assert_eq!(running_mean(fx(10.0), fx(20.0), 1), fx(20.0));
    assert_eq!(running_mean(fx(10.0), fx(20.0), 2), fx(15.0));
    assert_eq!(running_mean(fx(10.0), fx(20.0), 4), fx(12.5));
    assert_eq!(running_mean(fx(10.0), fx(4.0), 3), fx(8.0));
    // the share is cut towards zero
    assert_eq!(running_mean(0, 10, 3), 3);
    assert_eq!(running_mean(0, -10, 3), -3);
    assert_eq!(running_mean(i64::MIN, i64::MAX, 1), i64::MAX);
    assert_eq!(running_mean(i64::MAX, i64::MIN, 2), 0);
}

#[test]
fn the_point_halfway() {
    assert_eq!(
        midpoint_of(&point(&[0.0, 10.0, -4.0]), &point(&[1.0, 20.0, 4.0])),
        point(&[0.5, 15.0, 0.0])
    );
    assert_eq!(
        midpoint_of(&Point::from_vec(vec![1, -1]), &Point::from_vec(vec![2, -2])),
        Point::from_vec(vec![1, -1])
    );
}

#[test]
fn the_renormalized_distance() {
    let center = point(&[60.0, 60.0, 60.0]);
    // the two points lie a whole side apart in every coordinate: the
    // normalized distance is the square root of the dimension
    let a = point(&[0.0, 0.0, 0.0]);
    let b = point(&[120.0, 120.0, 120.0]);
    assert_eq!(renormalize(&b, &a, &center, fx(120.0)), 1_000_000);
    // no distance at all
    assert_eq!(renormalize(&a, &a, &center, fx(120.0)), 0);
    // half a side in one coordinate of four: 0.5 / 2
    let center = Point::fill(fx(5.0), 4);
    let a = point(&[5.0, 5.0, 5.0, 5.0]);
    let b = point(&[5.0, 10.0, 5.0, 5.0]);
    assert_eq!(renormalize(&b, &a, &center, fx(10.0)), 250_000);
    assert_eq!(renormalize(&a, &b, &center, fx(10.0)), 250_000);
}

#[test]
fn an_improvement_moves_the_region() {
    let previous = PointEval::new(point(&[10.0, 10.0]), fx(1.0));
    let current = PointEval::new(point(&[20.0, 40.0]), fx(5.0));
    let mut progress = SearchProgress::start(previous);

    let decision = progress.observe(0, current, fx(0.1), &point(&[60.0, 60.0]), fx(120.0));

    match decision {
        Decision::Move { destination, factor } => {
            assert_eq!(destination, point(&[15.0, 25.0]));
            let distance =
                renormalize(&point(&[20.0, 40.0]), &point(&[10.0, 10.0]), &point(&[60.0, 60.0]), fx(120.0));
            assert_eq!(factor, HypercubeOptimizer::calculate_convergence(distance));
            assert!(800_000 < factor && factor < 1_000_000);
        },
        other => panic!("expected a move, got {:?}", other),
    }
    assert_eq!(progress.best().unwrap().get_eval(), fx(5.0));
}

#[test]
fn a_regression_asks_for_a_new_sample() {
    let previous = PointEval::new(point(&[10.0, 10.0]), fx(5.0));
    let current = PointEval::new(point(&[20.0, 40.0]), fx(1.0));
    let mut progress = SearchProgress::start(previous);

    let decision = progress.observe(0, current, fx(0.1), &point(&[60.0, 60.0]), fx(120.0));

    assert!(matches!(decision, Decision::Resample));
    // the previous best stays the best
    assert_eq!(progress.best().unwrap().get_eval(), fx(5.0));
    assert_eq!(progress.best().unwrap().get_point(), point(&[10.0, 10.0]));
}

#[test]
fn a_value_below_the_running_mean_asks_for_a_new_sample() {
    let mut progress = SearchProgress::start(PointEval::new(point(&[0.0]), fx(0.0)));
    let center = point(&[5.0]);

    // 100 raises the mean to 100
    let first = progress.observe(0, PointEval::new(point(&[1.0]), fx(100.0)), 0, &center, fx(10.0));
    assert!(matches!(first, Decision::Move { .. }));
    // 100 again: the change is within the tolerance zero, the mean stays 100
    let second = progress.observe(1, PointEval::new(point(&[2.0]), fx(100.0)), 0, &center, fx(10.0));
    assert!(matches!(second, Decision::Move { .. }));
    // 101 is better than the previous best and better than the mean
    let third = progress.observe(2, PointEval::new(point(&[3.0]), fx(101.0)), 0, &center, fx(10.0));
    assert!(matches!(third, Decision::Move { .. }));
    // 100.5 is worse than the previous best
    let fourth = progress.observe(3, PointEval::new(point(&[4.0]), fx(100.5)), 0, &center, fx(10.0));
    assert!(matches!(fourth, Decision::Resample));
    assert_eq!(progress.best().unwrap().get_eval(), fx(101.0));
}

#[test]
fn thirty_quiet_iterations_end_the_search() {
    let mut progress = SearchProgress::start(PointEval::new(point(&[1.0]), fx(3.0)));
    let center = point(&[5.0]);
    for iteration in 0..29 {
        let decision = progress.observe(
            iteration,
            PointEval::new(point(&[1.0]), fx(3.05)),
            fx(0.1),
            &center,
            fx(10.0),
        );
        assert!(!matches!(decision, Decision::Converged));
    }
    let decision =
        progress.observe(29, PointEval::new(point(&[1.0]), fx(3.05)), fx(0.1), &center, fx(10.0));
    assert!(matches!(decision, Decision::Converged));
}

#[test]
fn a_loud_iteration_empties_the_window() {
    let mut progress = SearchProgress::start(PointEval::new(point(&[1.0]), fx(3.0)));
    let center = point(&[5.0]);
    for iteration in 0..29 {
        progress.observe(iteration, PointEval::new(point(&[1.0]), fx(3.0)), fx(0.1), &center, fx(10.0));
    }
    // the change of 0.2 breaks the run of quiet iterations
    let loud =
        progress.observe(29, PointEval::new(point(&[1.0]), fx(3.2)), fx(0.1), &center, fx(10.0));
    assert!(matches!(loud, Decision::Move { .. }));
    for iteration in 30..59 {
        let decision = progress.observe(
            iteration,
            PointEval::new(point(&[1.0]), fx(3.2)),
            fx(0.1),
            &center,
            fx(10.0),
        );
        assert!(!matches!(decision, Decision::Converged));
    }
    let last =
        progress.observe(59, PointEval::new(point(&[1.0]), fx(3.2)), fx(0.1), &center, fx(10.0));
    assert!(matches!(last, Decision::Converged));
}
