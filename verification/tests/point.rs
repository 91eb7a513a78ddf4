use hypercube_optimizer::bounds::HypercubeBounds;
use hypercube_optimizer::point::{cmp, Point};
use std::cmp::Ordering;

/// The scalar that stands for the real number `x`.
fn fx(x: f64) -> i64 {
    (x * 1_000_000.0).round() as i64
}

/// The point with the given real coordinates.
fn point(coords: &[f64]) -> Point {
    Point::from_vec(coords.iter().map(|x| fx(*x)).collect())
}

#[test]
fn adding_two_point_refs_1() {
    let a = point(&[1.0, 2.0, 3.0, 4.0, 5.0, 6.0]);
    let b = point(&[1.0, 2.0, 3.0, 4.0, 5.0, 6.0]);

    let c = point(&[2.0, 4.0, 6.0, 8.0, 10.0, 12.0]);

    assert_eq!(&a + &b, c);
}

#[test]
fn adding_two_point_refs_2() {
    let a = point(&[129.0, 1211.3, 492.2]);
    let b = point(&[677.3, 4453.2, 223.1]);

    let c = point(&[129.0 + 677.3, 1211.3 + 4453.2, 492.2 + 223.1]);

    assert_eq!(&a + &b, c);
}

#[test]
fn compute_length_1() {
    let a = point(&[1.0, 1.0, 1.0]);

    // the square root of 3, cut to six digits
    let expected_length = 1_732_050;

    assert_eq!(a.len(), expected_length);
    assert_eq!(a.len(), ((3.0_f64).sqrt() * 1_000_000.0).floor() as i64);
}

#[test]
fn compute_length_2() {
    let a = point(&[2.0, 5.0, 3.0, 7.0]);

    // the square root of 87, cut to six digits
    let expected_length = 9_327_379;

    assert_eq!(a.len(), expected_length);
    assert_eq!(a.len(), ((87.0_f64).sqrt() * 1_000_000.0).floor() as i64);
}

#[test]
fn compute_length_3() {
    let a = point(&[4.9, 32.2, 3.1, 889.1]);

    // the square root of 791569.27, cut to six digits
    let expected_length = 889_701_787;

    assert_eq!(a.len(), expected_length);
    assert_eq!(a.len(), ((791569.27_f64).sqrt() * 1_000_000.0).floor() as i64);
}

#[test]
fn compute_length_4() {
    let a = Point::fill(fx(4.0), 5);

    // the square root of 80, cut to six digits
    let expected_length = 8_944_271;

    assert_eq!(a.len(), expected_length);
    assert_eq!(a.len(), ((80.0_f64).sqrt() * 1_000_000.0).floor() as i64);
}

#[test]
fn subtract_two_points_1() {
    let a = point(&[1.0, 2.0, 3.0, 4.0, 5.0, 6.0]);
    let b = point(&[1.0, 2.0, 3.0, 4.0, 5.0, 6.0]);

    let c = Point::fill(fx(0.0), 6);

    assert_eq!(&a - &b, c);
}

#[test]
fn subtract_two_points_2() {
    let a = Point::fill(fx(1.0), 5);
    let b = Point::fill(fx(1.0), 5);

    let c = Point::fill(fx(0.0), 5);

    assert_eq!(&a - &b, c);
}

#[test]
fn add_assign_1() {
    let mut a = Point::fill(fx(3.0), 4);
    let b = point(&[2.3, 4.3, 1.2, 6.7]);

    a += b;

    assert_eq!(a, point(&[5.3, 7.3, 4.2, 9.7]));
}

#[test]
fn add_assign_2() {
    let mut a = Point::fill(fx(5.6), 10);
    let b = Point::fill(fx(4.4), 10);

    a += b;

    assert_eq!(a, Point::fill(fx(10.0), 10));
}

#[test]
fn point_scale_in_place_1() {
    let mut a = point(&[2.0, 4.0, 6.0, 8.0]);

    a.scale_in_place(fx(0.5));

    assert_eq!(a, point(&[1.0, 2.0, 3.0, 4.0]));
}

#[test]
fn scale_in_place_2() {
    let mut a = point(&[2.0, 4.0, 6.0, 8.0]);

    a.scale_in_place(fx(-0.5));

    assert_eq!(a, point(&[-1.0, -2.0, -3.0, -4.0]));
}

#[test]
fn scale_in_place_3() {
    let mut a = point(&[2.0, 4.0, 6.0, 8.0]);

    a.scale_in_place(fx(0.0));

    assert_eq!(a, point(&[0.0, 0.0, 0.0, 0.0]));
}

#[test]
fn scale_in_place_4() {
    let mut a = point(&[2.0, 4.0, 6.0, 8.0]);

    a.scale_in_place(fx(2.0));

    assert_eq!(a, point(&[4.0, 8.0, 12.0, 16.0]));
}

#[test]
fn scale_1() {
    let a = point(&[2.0, 4.0, 6.0, 8.0]);
    let b = a.scale(fx(0.5));

    assert_eq!(b, point(&[1.0, 2.0, 3.0, 4.0]));
}

#[test]
fn scale_2() {
    let a = point(&[2.0, 4.0, 6.0, 8.0]);
    let b = a.scale(fx(-0.5));

    assert_eq!(b, point(&[-1.0, -2.0, -3.0, -4.0]));
}

#[test]
fn scale_3() {
    let a = point(&[2.0, 4.0, 6.0, 8.0]);
    let b = a.scale(fx(0.0));

    assert_eq!(b, point(&[0.0, 0.0, 0.0, 0.0]));
}

#[test]
fn scale_4() {
    let a = point(&[2.0, 4.0, 6.0, 8.0]);
    let b = a.scale(fx(2.0));

    assert_eq!(b, point(&[4.0, 8.0, 12.0, 16.0]));
}

#[test]
fn shrink_towards_center_in_place_1() {
    let mut a = Point::fill(fx(120.0), 3);
    let center = Point::fill(fx(60.0), 3);

    a.shrink_towards_center_in_place(&center, fx(0.5));
    let expected_result = Point::fill(fx(90.0), 3);

    assert_eq!(expected_result, a);
}

#[test]
fn shrink_towards_center_in_place_2() {
    let mut a = Point::fill(fx(120.0), 3);
    let center = Point::fill(fx(60.0), 3);

    a.shrink_towards_center_in_place(&center, fx(0.0));

    // point should move entirely onto the center
    let expected_result = Point::fill(fx(60.0), 3);

    assert_eq!(expected_result, a);
}

#[test]
fn shrink_towards_center_in_place_3() {
    let mut a = Point::fill(fx(120.0), 3);
    let center = Point::fill(fx(60.0), 3);

    a.shrink_towards_center_in_place(&center, fx(1.0));

    // point should be unchanged
    let expected_result = Point::fill(fx(120.0), 3);

    assert_eq!(expected_result, a);
}

#[test]
fn new_point_by_fill_1() {
    let a = Point::fill(fx(4.3), 10);
    let b = Point::from_vec(vec![fx(4.3); 10]);

    assert_eq!(a, b);
    assert_eq!(a.dim(), 10);
    assert_eq!(a.to_vec(), vec![4_300_000; 10]);
}

#[test]
fn new_point_from_vec_1() {
    let a = Point::from_vec(vec![fx(5.2), fx(4.5), fx(3.2)]);
    let b = point(&[5.2, 4.5, 3.2]);

    assert_eq!(a, b);
    assert_eq!(a.dim(), 3);
    assert_eq!(a.to_vec(), vec![5_200_000, 4_500_000, 3_200_000]);
}

#[test]
fn new_point_random_1() {
    let a = Point::random(3, fx(0.0), fx(10.0));

    assert_eq!(a.dim(), 3);
}

#[test]
fn clamp_1() {
    let test_bounds = HypercubeBounds::new(3, fx(23.0), fx(34.0));
    let test_point = point(&[50.0, 44.0, 900.0]);

    let calc_result = test_point.clamp(&test_bounds);
    let expected_result = Point::fill(fx(34.0), 3);

    assert_eq!(calc_result, expected_result);
}

#[test]
fn clamp_2() {
    let test_bounds = HypercubeBounds::new(3, fx(23.0), fx(34.0));
    let test_point = point(&[50.0, 30.0, 29.3]);

    let calc_result = test_point.clamp(&test_bounds);
    let expected_result = point(&[34.0, 30.0, 29.3]);

    assert_eq!(calc_result, expected_result);
}

#[test]
fn clamp_3() {
    let test_bounds = HypercubeBounds::new(3, fx(23.0), fx(34.0));
    let test_point = point(&[25.0, 26.4, 27.1]);

    let calc_result = test_point.clamp(&test_bounds);
    let expected_result = test_point;

    assert_eq!(calc_result, expected_result);
}

#[test]
fn clamp_4() {
    let test_bounds = HypercubeBounds::new(3, fx(23.0), fx(34.0));
    let test_point = point(&[3.0, 5.2, 2.3]);

    let calc_result = test_point.clamp(&test_bounds);
    let expected_result = Point::fill(fx(23.0), 3);

    assert_eq!(calc_result, expected_result);
}

#[test]
fn clamp_5() {
    let test_bounds = HypercubeBounds::new(3, fx(23.0), fx(34.0));
    let test_point = point(&[50.0, 20.3, 30.2]);

    let calc_result = test_point.clamp(&test_bounds);
    let expected_result = point(&[34.0, 23.0, 30.2]);

    assert_eq!(calc_result, expected_result);
}

// ---------------------------------------------------------------------------

#[test]
fn random_point_stays_in_its_interval() {
    let lower = fx(-2.5);
    let upper = fx(7.25);
    for _ in 0..200 {
        let a = Point::random(6, lower, upper);
        for x in a.iter() {
            assert!(lower <= *x && *x <= upper);
        }
    }
}

#[test]
fn random_point_is_not_a_corner() {
    // 64 draws from a range of two million values do not all hit one end
    let lower = fx(0.0);
    let upper = fx(2.0);
    let a = Point::random(64, lower, upper);
    assert!(a.iter().any(|x| *x != lower));
    assert!(a.iter().any(|x| *x != upper));
}

#[test]
fn random_between_follows_each_coordinate() {
    let lower = point(&[0.0, 10.0, -5.0]);
    let upper = point(&[1.0, 10.0, -4.0]);
    for _ in 0..100 {
        let a = Point::random_between(&lower, &upper);
        assert_eq!(a.dim(), 3);
        let coords = a.to_vec();
        assert!(fx(0.0) <= coords[0] && coords[0] <= fx(1.0));
        assert_eq!(coords[1], fx(10.0));
        assert!(fx(-5.0) <= coords[2] && coords[2] <= fx(-4.0));
    }
}

#[test]
fn sum_and_difference_are_elementwise() {
    let a = point(&[1.5, -2.0, 3.25]);
    let b = point(&[0.5, 4.0, -1.25]);
    assert_eq!((&a + &b).to_vec(), vec![2_000_000, 2_000_000, 2_000_000]);
    assert_eq!((&a - &b).to_vec(), vec![1_000_000, -6_000_000, 4_500_000]);
    assert_eq!(a.add(&b), &a + &b);
    assert_eq!(a.sub(&b), &a - &b);
}

#[test]
fn sum_and_difference_saturate() {
    let a = Point::from_vec(vec![i64::MAX, i64::MIN, 5]);
    let b = Point::from_vec(vec![1, -1, i64::MIN]);
    assert_eq!((&a + &b).to_vec(), vec![i64::MAX, i64::MIN, i64::MIN + 5]);
    assert_eq!((&a - &b).to_vec(), vec![i64::MAX - 1, i64::MIN + 1, i64::MAX]);
}

#[test]
fn product_and_quotient_are_elementwise() {
    let a = point(&[1.5, -2.0, 7.0, 0.0]);
    let b = point(&[2.0, 0.25, -3.0, 0.0]);
    assert_eq!((&a * &b).to_vec(), vec![3_000_000, -500_000, -21_000_000, 0]);
    // 7 / -3 is -2.333333..., cut towards zero; 0 / 0 is 0
    assert_eq!((&a / &b).to_vec(), vec![750_000, -8_000_000, -2_333_333, 0]);
}

#[test]
fn quotient_by_zero_goes_to_the_end_of_the_range() {
    let a = point(&[1.0, -1.0]);
    let b = point(&[0.0, 0.0]);
    assert_eq!((&a / &b).to_vec(), vec![i64::MAX, i64::MIN]);
}

#[test]
fn product_is_cut_towards_zero() {
    // 0.000001 * 0.5 is cut to zero from both sides
    let a = Point::from_vec(vec![1, -1, 3, -3]);
    assert_eq!(a.scale(fx(0.5)).to_vec(), vec![0, 0, 1, -1]);
}

#[test]
fn get_returns_none_past_the_end() {
    let a = point(&[1.0, 2.0]);
    assert_eq!(a.get(0), Some(&1_000_000));
    assert_eq!(a.get(1), Some(&2_000_000));
    assert_eq!(a.get(2), None);
}

#[test]
fn max_and_min_of_the_coordinates() {
    let a = point(&[3.0, -7.5, 12.25, 0.0]);
    assert_eq!(a.max_val(), Some(fx(12.25)));
    assert_eq!(a.min_val(), Some(fx(-7.5)));
}

#[test]
fn sum_of_the_coordinates() {
    let a = point(&[3.0, -7.5, 12.25, 0.0]);
    assert_eq!(a.sum(), fx(7.75));
    // the sum is exact before it is brought back into range
    let b = Point::from_vec(vec![i64::MAX, i64::MAX, i64::MIN]);
    assert_eq!(b.sum(), i64::MAX - 1);
    let c = Point::from_vec(vec![i64::MAX, 1]);
    assert_eq!(c.sum(), i64::MAX);
}

#[test]
fn length_of_a_very_long_vector_saturates() {
    let a = Point::from_vec(vec![i64::MAX, i64::MAX]);
    assert_eq!(a.len(), i64::MAX);
    let b = Point::from_vec(vec![i64::MIN; 8]);
    assert_eq!(b.len(), i64::MAX);
}

#[test]
fn iter_walks_the_coordinates_in_order() {
    let a = point(&[1.0, 2.0, 3.0]);
    let walked: Vec<i64> = a.iter().copied().collect();
    assert_eq!(walked, vec![1_000_000, 2_000_000, 3_000_000]);
}

#[test]
fn cmp_orders_scalars() {
    assert_eq!(cmp(&1, &2), Ordering::Less);
    assert_eq!(cmp(&2, &2), Ordering::Equal);
    assert_eq!(cmp(&3, &2), Ordering::Greater);
}

#[test]
fn clamp_inside_is_identity() {
    let bounds = HypercubeBounds::from_points(point(&[0.0, -3.0, 5.0]), point(&[1.0, 3.0, 5.0]));
    let inside = point(&[0.0, 2.999999, 5.0]);
    assert_eq!(inside.clamp(&bounds), inside);
}

#[test]
fn shrink_rounds_towards_the_point() {
    // 0.000003 towards 0 by 0.5 moves by 0.000001, the half cut towards zero
    let mut a = Point::from_vec(vec![3, -3]);
    let center = Point::from_vec(vec![0, 0]);
    a.shrink_towards_center_in_place(&center, fx(0.5));
    assert_eq!(a.to_vec(), vec![2, -2]);
}

#[test]
fn add_assign_as_a_method() {
    let mut a = point(&[1.0, -2.0]);
    a.add_assign(point(&[0.5, 0.5]));
    assert_eq!(a, point(&[1.5, -1.5]));
    a += Point::from_vec(vec![i64::MAX, i64::MIN]);
    assert_eq!(a.to_vec(), vec![i64::MAX, i64::MIN]);
}

#[test]
fn clone_and_equality() {
    let a = point(&[1.0, 2.0]);
    let b = a.clone();
    assert_eq!(a, b);
    assert_ne!(a, point(&[1.0, 2.000001]));
    assert_ne!(a, point(&[1.0, 2.0, 0.0]));
}
