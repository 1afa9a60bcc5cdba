use trapezoid::bounds::random_bounds;
use trapezoid::integrands::{Constant, Identity, Square};
use trapezoid::rational::Rat;
use trapezoid::trapezoid::trapezoid_integration;

fn parts(r: Option<Rat>) -> (i128, i128) {
    let v = r.expect("integration should succeed on these inputs");
    (v.numerator(), v.denominator())
}

#[test]
fn square_four_steps_near_one_third() {
    // 4 steps over (1, 0): exactly 11/32, within a few percent of 1/3.
    let one = Rat::from_int(1);
    let zero = Rat::from_int(0);
    let (num, den) = parts(trapezoid_integration(4, (one, zero), &Square));
    assert_eq!(num, 11);
    assert_eq!(den, 32);
    // |11/32 - 1/3| = 1/96 < 1/25.
    assert!((num * 3 - den).abs() * 25 < 3 * den);
}

#[test]
fn square_thousand_steps_exact_value() {
    // 1000 steps over (1, 0): exactly 1/3 + (1/1000)^2 / 6 = 666667/2000000.
    let one = Rat::from_int(1);
    let zero = Rat::from_int(0);
    let (num, den) = parts(trapezoid_integration(1000, (one, zero), &Square));
    assert_eq!(num, 666667);
    assert_eq!(den, 2000000);
}

#[test]
fn square_hundred_thousand_steps_exact_value() {
    // 100000 steps over (20, 3): the rule gives (20^3 - 3^3)/3 + 17 * h^2 / 6
    // exactly, with h = 17/100000; checked by cross-multiplication.
    let upper = Rat::from_int(20);
    let lower = Rat::from_int(3);
    let (num, den) = parts(trapezoid_integration(100000, (upper, lower), &Square));
    assert_eq!(num * 60000000000, 159460000004913 * den);
}

#[test]
fn constant_integrand_spans_interval_exactly() {
    // f(x) = 5 over (7, 2) in 3 steps: exactly 5 * (7 - 2) = 25.
    let upper = Rat::from_int(7);
    let lower = Rat::from_int(2);
    let c = Constant::new(Rat::from_int(5));
    let (num, den) = parts(trapezoid_integration(3, (upper, lower), &c));
    assert_eq!(num, 25);
    assert_eq!(den, 1);
}

#[test]
fn constant_integrand_empty_interval_is_zero() {
    let five = Rat::from_int(5);
    let c = Constant::new(Rat::from_int(3));
    let (num, den) = parts(trapezoid_integration(2, (five, five), &c));
    assert_eq!(num, 0);
    assert_eq!(den, 1);
}

#[test]
fn identity_integrand_is_exact_for_any_step_count() {
    // f(x) = x over (4, 0): exactly (16 - 0)/2 = 8, whatever the step count.
    let upper = Rat::from_int(4);
    let zero = Rat::from_int(0);
    for n in [1u64, 2, 3, 4, 7, 50] {
        let (num, den) = parts(trapezoid_integration(n, (upper, zero), &Identity));
        assert_eq!(num, 8);
        assert_eq!(den, 1);
    }
    // f(x) = x over (3, 1): exactly (9 - 1)/2 = 4.
    let three = Rat::from_int(3);
    let one = Rat::from_int(1);
    let (num, den) = parts(trapezoid_integration(7, (three, one), &Identity));
    assert_eq!(num, 4);
    assert_eq!(den, 1);
}

#[test]
fn single_step_is_two_point_estimate() {
    // n = 1 must not fail and must return the two-point trapezoid estimate:
    // for x^2 over (2, 0) that is (4 + 0)/2 * 2 = 4.
    let two = Rat::from_int(2);
    let zero = Rat::from_int(0);
    let (num, den) = parts(trapezoid_integration(1, (two, zero), &Square));
    assert_eq!(num, 4);
    assert_eq!(den, 1);
}

#[test]
fn identical_inputs_give_identical_results() {
    let upper = Rat::from_int(9);
    let lower = Rat::from_int(4);
    let r1 = trapezoid_integration(37, (upper, lower), &Square);
    let r2 = trapezoid_integration(37, (upper, lower), &Square);
    assert_eq!(r1, r2);
}

#[test]
fn unrepresentable_intermediate_reports_none() {
    // Squaring 10^22 overflows the i128 representation.
    let big = Rat::new(10_000_000_000_000_000_000_000, 1).unwrap();
    let zero = Rat::from_int(0);
    assert!(trapezoid_integration(2, (big, zero), &Square).is_none());
}

#[test]
fn random_bounds_lie_in_their_ranges() {
    for _ in 0..100 {
        let (upper, lower) = random_bounds();
        assert!((15..=30).contains(&upper));
        assert!((1..=5).contains(&lower));
        assert!(lower < upper);
    }
}

#[test]
fn rational_constructor_reduces_and_rejects() {
    let half = Rat::new(2, 4).unwrap();
    assert_eq!(half.numerator(), 1);
    assert_eq!(half.denominator(), 2);
    let neg = Rat::new(-6, 4).unwrap();
    assert_eq!(neg.numerator(), -3);
    assert_eq!(neg.denominator(), 2);
    assert!(Rat::new(3, 0).is_none());
    assert!(Rat::new(3, -1).is_none());
    assert!(Rat::new(i128::MIN, 1).is_none());
    let whole = Rat::from_int(-7);
    assert_eq!(whole.numerator(), -7);
    assert_eq!(whole.denominator(), 1);
}

#[test]
fn rational_arithmetic_is_exact() {
    let half = Rat::new(1, 2).unwrap();
    let third = Rat::new(1, 3).unwrap();
    let sum = half.try_add(&third).unwrap();
    assert_eq!((sum.numerator(), sum.denominator()), (5, 6));
    let diff = half.try_sub(&third).unwrap();
    assert_eq!((diff.numerator(), diff.denominator()), (1, 6));
    let two_thirds = Rat::new(2, 3).unwrap();
    let three_quarters = Rat::new(3, 4).unwrap();
    let prod = two_thirds.try_mul(&three_quarters).unwrap();
    assert_eq!((prod.numerator(), prod.denominator()), (1, 2));
    let halved = third.try_half().unwrap();
    assert_eq!((halved.numerator(), halved.denominator()), (1, 6));
    let eighth = half.try_div_int(4).unwrap();
    assert_eq!((eighth.numerator(), eighth.denominator()), (1, 8));
}

#[test]
fn rational_arithmetic_reports_overflow() {
    let max = Rat::new(i128::MAX, 1).unwrap();
    assert!(max.try_add(&max).is_none());
    assert!(max.try_mul(&max).is_none());
}
