use hypercube_optimizer::bounds::{BoundType, BoundsOverlap, HypercubeBounds};
use hypercube_optimizer::point::Point;

/// The scalar that stands for the real number `x`.
fn fx(x: f64) -> i64 {
    (x * 1_000_000.0).round() as i64
}

/// The point with the given real coordinates.
fn point(coords: &[f64]) -> Point {
    Point::from_vec(coords.iter().map(|x| fx(*x)).collect())
}

/// The bounds from `lower` to `upper` in each of `dimension` coordinates.
fn bounds(dimension: u32, lower: f64, upper: f64) -> HypercubeBounds {
    HypercubeBounds::new(dimension, fx(lower), fx(upper))
}

#[test]
fn shrink_towards_center_1() {
    let a = bounds(3, 0.0, 120.0);
    let center = Point::fill(fx(60.0), 3);

    let b = a.shrink_towards_center(&center, fx(0.5));
    let expected_result = bounds(3, 30.0, 90.0);

    assert_eq!(expected_result, b);
}

#[test]
fn shrink_towards_center_3() {
    let a = bounds(3, 0.0, 120.0);
    let center = Point::fill(fx(60.0), 3);

    let b = a.shrink_towards_center(&center, fx(1.0));

    assert_eq!(a, b);
}

#[test]
fn new_bounds_1() {
    let a = bounds(5, 0.0, 10.0);

    let b = HypercubeBounds::from_points(Point::fill(fx(0.0), 5), Point::fill(fx(10.0), 5));

    assert_eq!(a, b);
    assert_eq!(a.get_lower(), &Point::fill(0, 5));
    assert_eq!(a.get_upper(), &Point::fill(10_000_000, 5));
}

#[test]
fn check_upper_lower_dim() {
    let a = bounds(3, 0.0, 120.0);
    assert_eq!(a.get_lower().dim(), a.get_upper().dim());
}

#[test]
fn displace_by_2() {
    let a = bounds(3, 0.0, 120.0);
    let displacement_vec = Point::fill(fx(0.0), 3);

    let calc_result = a.displace_by(&displacement_vec);

    let expected_result =
        HypercubeBounds::from_points(Point::fill(fx(0.0), 3), Point::fill(fx(120.0), 3));

    assert_eq!(expected_result, calc_result);
}

#[test]
fn displace_by_in_place_1() {
    let mut a = bounds(3, 0.0, 120.0);
    let displacement_vec = point(&[1.0, 22.3, 11.7]);

    a.displace_by_in_place(&displacement_vec);

    let expected_result =
        HypercubeBounds::from_points(point(&[1.0, 22.3, 11.7]), point(&[121.0, 142.3, 131.7]));

    assert_eq!(expected_result, a);
}

#[test]
fn displace_by_in_place_2() {
    let mut a = bounds(3, 0.0, 120.0);
    let displacement_vec = Point::fill(fx(0.0), 3);

    a.displace_by_in_place(&displacement_vec);

    let expected_result =
        HypercubeBounds::from_points(Point::fill(fx(0.0), 3), Point::fill(fx(120.0), 3));

    assert_eq!(expected_result, a);
}

#[test]
fn bounds_scale_in_place_1() {
    let mut a = bounds(3, 50.0, 120.0);

    a.scale_in_place(fx(0.0));

    let expected_result =
        HypercubeBounds::from_points(Point::fill(fx(0.0), 3), Point::fill(fx(0.0), 3));

    assert_eq!(expected_result, a);
}

#[test]
fn displace_by_1() {
    let a = bounds(3, 0.0, 120.0);
    let displacement_vec = point(&[1.0, 22.3, 11.7]);

    let calc_result = a.displace_by(&displacement_vec);

    let expected_result =
        HypercubeBounds::from_points(point(&[1.0, 22.3, 11.7]), point(&[121.0, 142.3, 131.7]));

    assert_eq!(expected_result, calc_result);
}

#[test]
fn shrink_towards_center_2() {
    let a = bounds(3, 0.0, 120.0);
    let center = Point::fill(fx(60.0), 3);

    let b = a.shrink_towards_center(&center, fx(0.0));
    let expected_result = HypercubeBounds::from_points(center.clone(), center.clone());

    assert_eq!(expected_result, b);
}

// <----- .within() tests ----->

#[test]
fn within_subset() {
    let a = bounds(3, 0.0, 120.0);
    let b = bounds(3, -10.0, 200.0);

    assert_eq!(a.within(&b), BoundsOverlap::NoneOutOfBounds);
}

#[test]
fn within_equal() {
    let a = bounds(3, 0.0, 120.0);

    assert_eq!(a.within(&a), BoundsOverlap::NoneOutOfBounds);
}

#[test]
fn not_within_right_overlap() {
    let a = bounds(3, 0.0, 120.0);
    let b = bounds(3, 100.0, 200.0);

    assert_eq!(a.within(&b), BoundsOverlap::LowerOutOfBounds);
}

#[test]
fn not_within_left_overlap() {
    let a = bounds(3, 0.0, 120.0);
    let b = bounds(3, -10.0, 90.0);

    assert_eq!(a.within(&b), BoundsOverlap::UpperOutOfBounds);
}

#[test]
fn not_within_superset() {
    let a = bounds(3, 0.0, 120.0);
    let b = bounds(3, 30.0, 90.0);

    assert_eq!(a.within(&b), BoundsOverlap::BothOutOfBounds);
}

#[test]
fn not_within_no_overlap() {
    let a = bounds(3, 0.0, 120.0);
    let b = bounds(3, -10.0, -5.0);

    assert_eq!(a.within(&b), BoundsOverlap::BothOutOfBounds);
}

// <----- .clamp() tests ----->

#[test]
fn clamp_subset() {
    let new_bounds = bounds(3, 30.0, 60.0);
    let init_bounds = bounds(3, 0.0, 120.0);

    let calculated_result = new_bounds.clamp(&init_bounds);

    // clamp shouldn't change `new_bounds`
    let expected_result = new_bounds.clone();

    assert_eq!(calculated_result, expected_result);
}

#[test]
fn clamp_both_out_of_bounds() {
    let mut new_bounds = bounds(3, 0.0, 120.0);
    let init_bounds = bounds(3, 0.0, 120.0);

    new_bounds.scale_in_place(fx(0.5));
    new_bounds.displace_by_in_place(&point(&[60.0, 60.0, -60.0]));

    let calculated_result = new_bounds.clamp(&init_bounds);

    let expected_result =
        HypercubeBounds::from_points(point(&[60.0, 60.0, 0.0]), point(&[120.0, 120.0, 60.0]));

    assert_eq!(calculated_result, expected_result);
    assert_eq!(
        calculated_result.get_diagonal().len(),
        expected_result.get_diagonal().len()
    )
}

#[test]
fn clamp_upper_out_of_bounds() {
    let mut new_bounds = bounds(3, 0.0, 120.0);
    let init_bounds = bounds(3, 0.0, 120.0);

    new_bounds.scale_in_place(fx(0.5));
    new_bounds.displace_by_in_place(&point(&[60.0, 60.0, 60.0]));

    let calculated_result = new_bounds.clamp(&init_bounds);

    let expected_result =
        HypercubeBounds::from_points(point(&[60.0, 60.0, 60.0]), point(&[120.0, 120.0, 120.0]));

    assert_eq!(calculated_result, expected_result);
    assert_eq!(
        calculated_result.get_diagonal().len(),
        expected_result.get_diagonal().len()
    );
}

#[test]
fn clamp_lower_out_of_bounds() {
    let mut new_bounds = bounds(3, 0.0, 120.0);
    let init_bounds = bounds(3, 0.0, 120.0);

    new_bounds.scale_in_place(fx(0.5));
    new_bounds.displace_by_in_place(&point(&[-60.0, -60.0, -60.0]));

    let calculated_result = new_bounds.clamp(&init_bounds);

    let expected_result =
        HypercubeBounds::from_points(point(&[0.0, 0.0, 0.0]), point(&[60.0, 60.0, 60.0]));

    assert_eq!(calculated_result, expected_result);
    assert_eq!(
        calculated_result.get_diagonal().len(),
        expected_result.get_diagonal().len()
    );
}

// ---------------------------------------------------------------------------

#[test]
fn clamp_slides_a_region_that_sticks_out_above() {
    let region = HypercubeBounds::from_points(point(&[100.0, 10.0]), point(&[130.0, 40.0]));
    let limit = bounds(2, 0.0, 120.0);
    assert_eq!(region.within(&limit), BoundsOverlap::UpperOutOfBounds);

    let clamped = region.clamp(&limit);

    assert_eq!(
        clamped,
        HypercubeBounds::from_points(point(&[90.0, 10.0]), point(&[120.0, 40.0]))
    );
    assert_eq!(clamped.get_diagonal(), region.get_diagonal());
    assert_eq!(clamped.within(&limit), BoundsOverlap::NoneOutOfBounds);
}

#[test]
fn clamp_slides_a_region_that_sticks_out_below() {
    let region = HypercubeBounds::from_points(point(&[-7.5, 10.0]), point(&[22.5, 40.0]));
    let limit = bounds(2, 0.0, 120.0);
    assert_eq!(region.within(&limit), BoundsOverlap::LowerOutOfBounds);

    let clamped = region.clamp(&limit);

    assert_eq!(
        clamped,
        HypercubeBounds::from_points(point(&[0.0, 10.0]), point(&[30.0, 40.0]))
    );
    assert_eq!(clamped.get_diagonal(), region.get_diagonal());
}

#[test]
fn clamp_with_both_corners_out_clamps_the_lower_corner_first_and_the_upper_corner_then() {
    // the lower corner leaves the limit in the first coordinate, the upper
    // corner in the second
    let region = HypercubeBounds::from_points(point(&[-10.0, 70.0]), point(&[50.0, 130.0]));
    let limit = bounds(2, 0.0, 120.0);
    assert_eq!(region.within(&limit), BoundsOverlap::BothOutOfBounds);

    // lower-clamped: [0, 70] to [60, 130]; its upper corner clamped: [60, 120]
    let clamped = region.clamp(&limit);

    assert_eq!(
        clamped,
        HypercubeBounds::from_points(point(&[0.0, 60.0]), point(&[60.0, 120.0]))
    );
    assert_eq!(clamped.get_diagonal(), region.get_diagonal());
    assert_eq!(clamped.within(&limit), BoundsOverlap::NoneOutOfBounds);
}

#[test]
fn clamp_with_both_corners_out_fits_the_region_into_the_limit() {
    let region = bounds(2, 0.0, 60.0).displace_by(&point(&[90.0, -30.0]));
    assert_eq!(region.get_lower(), &point(&[90.0, -30.0]));
    assert_eq!(region.get_upper(), &point(&[150.0, 30.0]));
    let limit = bounds(2, 0.0, 120.0);
    assert_eq!(region.within(&limit), BoundsOverlap::BothOutOfBounds);

    let clamped = region.clamp(&limit);

    assert_eq!(clamped.get_lower(), &point(&[60.0, 0.0]));
    assert_eq!(clamped.get_upper(), &point(&[120.0, 60.0]));
    assert_eq!(clamped.get_diagonal(), point(&[60.0, 60.0]));
    assert_eq!(clamped.within(&limit), BoundsOverlap::NoneOutOfBounds);
}

#[test]
fn clamp_of_a_region_apart_from_the_limit_brings_it_inside() {
    let region = HypercubeBounds::from_points(point(&[470.0]), point(&[530.0]));
    let limit = bounds(1, 0.0, 120.0);
    assert_eq!(region.within(&limit), BoundsOverlap::BothOutOfBounds);

    let clamped = region.clamp(&limit);

    assert_eq!(clamped, HypercubeBounds::from_points(point(&[60.0]), point(&[120.0])));
    assert_eq!(clamped.get_diagonal(), region.get_diagonal());

    let below = HypercubeBounds::from_points(point(&[-530.0]), point(&[-470.0]));
    assert_eq!(
        below.clamp(&limit),
        HypercubeBounds::from_points(point(&[0.0]), point(&[60.0]))
    );
}

#[test]
fn clamp_of_a_region_wider_than_the_limit_lets_the_upper_corner_win() {
    let region = HypercubeBounds::from_points(point(&[-10.0]), point(&[130.0]));
    let limit = bounds(1, 0.0, 120.0);
    assert_eq!(region.within(&limit), BoundsOverlap::BothOutOfBounds);

    // lower-clamped: [0, 140]; its upper corner clamped: [-20, 120]
    let clamped = region.clamp(&limit);

    assert_eq!(clamped, HypercubeBounds::from_points(point(&[-20.0]), point(&[120.0])));
    assert_eq!(clamped.get_diagonal(), region.get_diagonal());
}

#[test]
fn within_itself_needs_corners_in_order() {
    let sorted = HypercubeBounds::from_points(point(&[0.0, 5.0]), point(&[0.0, 6.0]));
    assert_eq!(sorted.within(&sorted), BoundsOverlap::NoneOutOfBounds);

    let crossed = HypercubeBounds::from_points(point(&[1.0]), point(&[0.0]));
    assert_eq!(crossed.within(&crossed), BoundsOverlap::BothOutOfBounds);
}

#[test]
fn within_names_the_corner_that_leaves() {
    let limit = bounds(2, 0.0, 10.0);
    let upper_out = HypercubeBounds::from_points(point(&[1.0, 1.0]), point(&[2.0, 10.000001]));
    let lower_out = HypercubeBounds::from_points(point(&[-0.000001, 1.0]), point(&[2.0, 10.0]));
    let both_out = HypercubeBounds::from_points(point(&[-1.0, 1.0]), point(&[2.0, 11.0]));
    assert_eq!(upper_out.within(&limit), BoundsOverlap::UpperOutOfBounds);
    assert_eq!(lower_out.within(&limit), BoundsOverlap::LowerOutOfBounds);
    assert_eq!(both_out.within(&limit), BoundsOverlap::BothOutOfBounds);
}

#[test]
fn displace_there_and_back() {
    let a = bounds(3, 0.0, 120.0);
    let v = point(&[1.0, -22.3, 11.7]);
    let back = v.scale(fx(-1.0));
    assert_eq!(a.displace_by(&v).displace_by(&back), a);
}

#[test]
fn diagonal_center_and_length() {
    let a = HypercubeBounds::from_points(point(&[1.0, -4.0]), point(&[4.0, 3.0]));
    assert_eq!(a.get_diagonal(), point(&[3.0, 7.0]));
    assert_eq!(a.compute_center(), point(&[2.5, -0.5]));
    assert_eq!(a.get_length(), fx(3.0));
    assert_eq!(a.dim(), 2);
}

#[test]
fn center_is_cut_towards_the_lower_corner() {
    let a = HypercubeBounds::from_points(Point::from_vec(vec![0, -3]), Point::from_vec(vec![3, 0]));
    assert_eq!(a.compute_center().to_vec(), vec![1, -2]);
}

#[test]
fn get_picks_the_named_corner() {
    let a = bounds(2, 1.0, 2.0);
    assert_eq!(a.get(&BoundType::LowerBound), a.get_lower());
    assert_eq!(a.get(&BoundType::UpperBound), a.get_upper());
    assert_eq!(a.get(&BoundType::LowerBound), &Point::fill(fx(1.0), 2));
    assert_eq!(a.get(&BoundType::UpperBound), &Point::fill(fx(2.0), 2));
}

#[test]
fn scale_in_place_scales_both_corners() {
    let mut a = bounds(2, -4.0, 6.0);
    a.scale_in_place(fx(0.25));
    assert_eq!(a, bounds(2, -1.0, 1.5));
}

#[test]
fn clamp_deforms_where_the_lower_corner_cannot_follow() {
    // the upper corner has to come down by more than the range leaves room
    // for below the lower corner
    let region = HypercubeBounds::from_points(
        Point::from_vec(vec![-10]),
        Point::from_vec(vec![i64::MAX - 10]),
    );
    let limit = HypercubeBounds::from_points(Point::from_vec(vec![-20]), Point::from_vec(vec![-10]));
    assert_eq!(region.within(&limit), BoundsOverlap::UpperOutOfBounds);

    let clamped = region.clamp(&limit);

    assert_eq!(clamped.get_upper().to_vec(), vec![-10]);
    assert_eq!(clamped.get_lower().to_vec(), vec![i64::MIN]);
    assert_eq!(region.get_diagonal().to_vec(), vec![i64::MAX]);
    assert_eq!(clamped.get_diagonal().to_vec(), vec![i64::MAX - 9]);
}
