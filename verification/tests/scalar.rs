use hypercube_optimizer::scalar::{
    integer_sqrt, scalar_add, scalar_clamp, scalar_clip, scalar_div, scalar_midpoint, scalar_mul,
    scalar_shrink, scalar_sqrt, scalar_sub, wide_product, COORD_MAX, UNIT,
};

/// The scalar that stands for the real number `x`.
fn fx(x: f64) -> i64 {
    (x * 1_000_000.0).round() as i64
}

#[test]
fn one_is_a_million_millionths() {
    assert_eq!(UNIT, 1_000_000);
    assert_eq!(COORD_MAX, 1_000_000_000_000_000_000);
    assert_eq!(fx(1.0), UNIT);
}

#[test]
fn clip_brings_back_into_range() {
    assert_eq!(scalar_clip(0), 0);
    assert_eq!(scalar_clip(i64::MAX as i128), i64::MAX);
    assert_eq!(scalar_clip(i64::MAX as i128 + 1), i64::MAX);
    assert_eq!(scalar_clip(i64::MIN as i128), i64::MIN);
    assert_eq!(scalar_clip(i64::MIN as i128 - 1), i64::MIN);
    assert_eq!(scalar_clip(-17), -17);
}

#[test]
fn sums_and_differences_saturate() {
    assert_eq!(scalar_add(fx(1.5), fx(2.25)), fx(3.75));
    assert_eq!(scalar_sub(fx(1.5), fx(2.25)), fx(-0.75));
    assert_eq!(scalar_add(i64::MAX, 1), i64::MAX);
    assert_eq!(scalar_add(i64::MIN, -1), i64::MIN);
    assert_eq!(scalar_sub(i64::MIN, 1), i64::MIN);
    assert_eq!(scalar_sub(0, i64::MIN), i64::MAX);
    assert_eq!(scalar_sub(i64::MAX, -1), i64::MAX);
}

#[test]
fn products_are_cut_towards_zero() {
    assert_eq!(scalar_mul(fx(1.5), fx(2.0)), fx(3.0));
    assert_eq!(scalar_mul(fx(-1.5), fx(2.0)), fx(-3.0));
    assert_eq!(scalar_mul(fx(-1.5), fx(-2.0)), fx(3.0));
    assert_eq!(scalar_mul(fx(0.001), fx(0.001)), fx(0.000001));
    assert_eq!(scalar_mul(fx(0.0001), fx(0.001)), 0);
    assert_eq!(scalar_mul(3, fx(0.5)), 1);
    assert_eq!(scalar_mul(-3, fx(0.5)), -1);
    assert_eq!(scalar_mul(i64::MAX, fx(2.0)), i64::MAX);
    assert_eq!(scalar_mul(i64::MIN, fx(2.0)), i64::MIN);
    assert_eq!(scalar_mul(i64::MIN, fx(-1.0)), i64::MAX);
    assert_eq!(scalar_mul(i64::MAX, UNIT), i64::MAX);
    assert_eq!(wide_product(i64::MIN, i64::MIN), 1i128 << 126);
}

#[test]
fn quotients_are_cut_towards_zero() {
    assert_eq!(scalar_div(fx(3.0), fx(2.0)), fx(1.5));
    assert_eq!(scalar_div(fx(1.0), fx(3.0)), 333_333);
    assert_eq!(scalar_div(fx(-1.0), fx(3.0)), -333_333);
    assert_eq!(scalar_div(fx(1.0), fx(-3.0)), -333_333);
    assert_eq!(scalar_div(fx(-1.0), fx(-3.0)), 333_333);
    assert_eq!(scalar_div(fx(2.0), fx(3.0)), 666_666);
    assert_eq!(scalar_div(fx(1.0), 1), 1_000_000_000_000);
    assert_eq!(scalar_div(i64::MAX, 1), i64::MAX);
    assert_eq!(scalar_div(i64::MIN, 1), i64::MIN);
    assert_eq!(scalar_div(i64::MIN, -1), i64::MAX);
}

#[test]
fn quotients_by_zero() {
    assert_eq!(scalar_div(fx(1.0), 0), i64::MAX);
    assert_eq!(scalar_div(fx(-1.0), 0), i64::MIN);
    assert_eq!(scalar_div(0, 0), 0);
}

#[test]
fn clamp_tests_the_lower_end_first() {
    assert_eq!(scalar_clamp(5, 0, 10), 5);
    assert_eq!(scalar_clamp(-5, 0, 10), 0);
    assert_eq!(scalar_clamp(15, 0, 10), 10);
    assert_eq!(scalar_clamp(0, 0, 10), 0);
    assert_eq!(scalar_clamp(10, 0, 10), 10);
    // the ends out of order
    assert_eq!(scalar_clamp(5, 10, 0), 10);
    assert_eq!(scalar_clamp(15, 10, 0), 0);
}

#[test]
fn shrink_moves_towards_the_center() {
    assert_eq!(scalar_shrink(fx(120.0), fx(60.0), fx(0.5)), fx(90.0));
    assert_eq!(scalar_shrink(fx(0.0), fx(60.0), fx(0.5)), fx(30.0));
    assert_eq!(scalar_shrink(fx(120.0), fx(60.0), fx(0.0)), fx(60.0));
    assert_eq!(scalar_shrink(fx(120.0), fx(60.0), fx(1.0)), fx(120.0));
    assert_eq!(scalar_shrink(fx(100.0), fx(60.0), fx(0.8)), fx(92.0));
    // the step towards the centre is cut towards zero
    assert_eq!(scalar_shrink(3, 0, fx(0.5)), 2);
    assert_eq!(scalar_shrink(-3, 0, fx(0.5)), -2);
}

#[test]
fn shrink_is_exact_at_the_ends_of_the_range() {
    assert_eq!(scalar_shrink(i64::MIN, i64::MAX, 0), i64::MAX);
    assert_eq!(scalar_shrink(i64::MAX, i64::MIN, 0), i64::MIN);
    assert_eq!(scalar_shrink(i64::MIN, i64::MAX, UNIT), i64::MIN);
    assert_eq!(scalar_shrink(i64::MAX, i64::MIN, UNIT), i64::MAX);
    assert_eq!(scalar_shrink(i64::MIN, i64::MAX, fx(0.5)), -1);
}

#[test]
fn midpoint_is_cut_towards_the_first_end() {
    assert_eq!(scalar_midpoint(fx(34.0), fx(120.0)), fx(77.0));
    assert_eq!(scalar_midpoint(0, 3), 1);
    assert_eq!(scalar_midpoint(-3, 0), -2);
    assert_eq!(scalar_midpoint(3, 0), 2);
    assert_eq!(scalar_midpoint(i64::MIN, i64::MAX), -1);
    assert_eq!(scalar_midpoint(i64::MAX, i64::MIN), 0);
    assert_eq!(scalar_midpoint(5, 5), 5);
}

#[test]
fn integer_square_roots() {
    assert_eq!(integer_sqrt(0), 0);
    assert_eq!(integer_sqrt(1), 1);
    assert_eq!(integer_sqrt(3), 1);
    assert_eq!(integer_sqrt(4), 2);
    assert_eq!(integer_sqrt(99), 9);
    assert_eq!(integer_sqrt(100), 10);
    assert_eq!(integer_sqrt(u128::MAX), u64::MAX as u128);
    let r = (1u128 << 64) - 1;
    assert_eq!(integer_sqrt(r * r), r);
    assert_eq!(integer_sqrt(r * r - 1), r - 1);
}

#[test]
fn fixed_point_square_roots() {
    assert_eq!(scalar_sqrt(fx(4.0)), fx(2.0));
    assert_eq!(scalar_sqrt(fx(2.0)), 1_414_213);
    assert_eq!(scalar_sqrt(fx(3.0)), 1_732_050);
    assert_eq!(scalar_sqrt(0), 0);
    assert_eq!(scalar_sqrt(1), 1_000);
    assert_eq!(scalar_sqrt(i64::MAX), 3_037_000_499_976);
}
