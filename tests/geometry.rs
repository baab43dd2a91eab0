use exact_gravity::body::Body;
use exact_gravity::vector::Vector3;
use exact_gravity::{ArithError, ExactRational};
use num_bigint::BigInt;
use num_rational::BigRational;

fn q(f: f64) -> ExactRational {
    let (n, d) = BigRational::from_float(f).unwrap().into_raw();
    ExactRational::new(n, d).unwrap()
}

fn frac(n: i64, d: i64) -> ExactRational {
    ExactRational::new(BigInt::from(n), BigInt::from(d)).unwrap()
}

fn v(x: f64, y: f64, z: f64) -> Vector3 {
    Vector3::new(q(x), q(y), q(z))
}

fn parts(r: &ExactRational) -> (BigInt, BigInt) {
    (r.numer(), r.denom())
}

fn big(i: i64) -> BigInt {
    BigInt::from(i)
}

#[test]
fn new_reduces_to_least_terms() {
    let r = frac(4, -6);
    assert_eq!(parts(&r), (big(-2), big(3)));
    let z = frac(0, -7);
    assert_eq!(parts(&z), (big(0), big(1)));
}

#[test]
fn new_with_zero_denominator_fails() {
    let r = ExactRational::new(big(3), big(0));
    assert_eq!(r.err(), Some(ArithError::DivisionByZero));
}

#[test]
fn from_integer_has_denominator_one() {
    assert_eq!(parts(&ExactRational::from_integer(-42)), (big(-42), big(1)));
}

#[test]
fn arithmetic_gives_exact_reduced_results() {
    let a = frac(1, 2);
    let b = frac(1, 3);
    assert_eq!(parts(&a.add(&b)), (big(5), big(6)));
    assert_eq!(parts(&a.sub(&b)), (big(1), big(6)));
    assert_eq!(parts(&a.mul(&b)), (big(1), big(6)));
    assert_eq!(parts(&a.div(&b).unwrap()), (big(3), big(2)));
    assert_eq!(parts(&a.neg()), (big(-1), big(2)));
    assert_eq!(parts(&frac(2, 3).pow(2)), (big(4), big(9)));
    let mut c = frac(1, 6);
    c.add_assign(&frac(1, 3));
    assert_eq!(parts(&c), (big(1), big(2)));
}

#[test]
fn results_stay_in_least_terms() {
    let r = frac(3, 4).mul(&frac(2, 9));
    assert_eq!(parts(&r), (big(1), big(6)));
    let s = frac(1, 6).add(&frac(1, 3));
    assert_eq!(parts(&s), (big(1), big(2)));
}

#[test]
fn rational_division_by_zero_fails() {
    let r = frac(1, 2).div(&ExactRational::from_integer(0));
    assert_eq!(r.err(), Some(ArithError::DivisionByZero));
}

#[test]
fn round_goes_half_away_from_zero() {
    assert_eq!(frac(5, 2).round(), big(3));
    assert_eq!(frac(-5, 2).round(), big(-3));
    assert_eq!(frac(12, 5).round(), big(2));
    assert_eq!(frac(13, 5).round(), big(3));
}

#[test]
fn floor_rounds_down() {
    assert_eq!(frac(7, 2).to_integer_floor(), big(3));
    assert_eq!(frac(-7, 2).to_integer_floor(), big(-4));
}

#[test]
fn sqrt_approx_takes_integer_roots_of_both_parts() {
    assert_eq!(parts(&frac(4, 9).sqrt_approx()), (big(2), big(3)));
    assert_eq!(parts(&frac(2, 1).sqrt_approx()), (big(1), big(1)));
    assert_eq!(parts(&frac(10, 17).sqrt_approx()), (big(3), big(4)));
}

#[test]
fn equality_compares_values() {
    assert!(frac(1, 2) == frac(2, 4));
    assert!(frac(1, 2) != frac(1, 3));
    assert!(frac(0, 5).is_zero());
    assert!(!frac(1, 5).is_zero());
    assert_eq!(parts(&frac(7, 3).clone()), (big(7), big(3)));
}

#[test]
fn squared_distance_is_exact() {
    let r1 = v(0.0, 0.1, 0.3);
    let r2 = v(100.0, 100.0, 200.0);
    let n = r2.sub(&r1).squared_norm();
    assert_eq!(n.round(), big(59860));
    let dx = BigRational::from_float(100.0).unwrap() - BigRational::from_float(0.0).unwrap();
    let dy = BigRational::from_float(100.0).unwrap() - BigRational::from_float(0.1).unwrap();
    let dz = BigRational::from_float(200.0).unwrap() - BigRational::from_float(0.3).unwrap();
    let expected = dx.clone() * dx + dy.clone() * dy + dz.clone() * dz;
    assert_eq!(parts(&n), expected.into_raw());
}

#[test]
fn vector_operations_work_axis_by_axis() {
    let a = Vector3::new(frac(1, 2), frac(3, 1), frac(-2, 1));
    let b = Vector3::new(frac(1, 4), frac(-1, 1), frac(4, 1));
    let s = a.add(&b);
    assert_eq!(parts(&s.x), (big(3), big(4)));
    assert_eq!(parts(&s.y), (big(2), big(1)));
    assert_eq!(parts(&s.z), (big(2), big(1)));
    let p = a.mul(&b);
    assert_eq!(parts(&p.x), (big(1), big(8)));
    assert_eq!(parts(&p.y), (big(-3), big(1)));
    assert_eq!(parts(&p.z), (big(-8), big(1)));
    let d = a.div(&b).unwrap();
    assert_eq!(parts(&d.x), (big(2), big(1)));
    assert_eq!(parts(&d.y), (big(-3), big(1)));
    assert_eq!(parts(&d.z), (big(-1), big(2)));
    let n = a.neg();
    assert_eq!(parts(&n.x), (big(-1), big(2)));
    let mut acc = a.clone();
    acc.add_assign(&b);
    assert!(acc == s);
}

#[test]
fn vector_division_by_zero_axis_fails() {
    let a = v(1.0, 2.0, 3.0);
    let b = v(1.0, 0.0, 3.0);
    assert_eq!(a.div(&b).err(), Some(ArithError::DivisionByZero));
}

#[test]
fn from_scalar_broadcasts() {
    let s = Vector3::from_scalar(&frac(2, 7));
    assert_eq!(parts(&s.x), (big(2), big(7)));
    assert_eq!(parts(&s.y), (big(2), big(7)));
    assert_eq!(parts(&s.z), (big(2), big(7)));
}

#[test]
fn subtraction_is_antisymmetric() {
    let a = v(0.0, 0.1, 0.3);
    let b = v(100.0, -2.5, 1e-3);
    assert!(a.sub(&b) == b.sub(&a).neg());
}

#[test]
fn add_then_sub_gives_back_start() {
    let a = v(0.0, 0.1, 0.3);
    let b = v(100.0, -2.5, 1e-3);
    assert!(a.add(&b).sub(&b) == a);
}

#[test]
fn magnitude_of_pythagorean_vector_is_exact() {
    let m = Vector3::new(frac(3, 1), frac(4, 1), frac(0, 1)).magnitude_approx();
    assert_eq!(parts(&m), (big(5), big(1)));
}

#[test]
fn magnitude_square_within_truncation_bound() {
    let a = Vector3::new(frac(1, 1), frac(1, 1), frac(1, 3));
    let n = a.squared_norm();
    assert_eq!(parts(&n), (big(19), big(9)));
    let m = a.magnitude_approx();
    assert_eq!(parts(&m), (big(4), big(3)));
    let r = big(4);
    let s = big(3);
    assert!(&r * &r <= n.numer() && n.numer() < (&r + 1) * (&r + 1));
    assert!(&s * &s <= n.denom() && n.denom() < (&s + 1) * (&s + 1));
}

fn g() -> ExactRational {
    q(6.674e-11)
}

#[test]
fn update_on_coincident_bodies_fails() {
    let mut a = Body::new(q(5.0), v(1.0, 2.0, 3.0));
    let b = Body::new(q(7.0), v(1.0, 2.0, 3.0));
    let c = Body::new(q(7.0), v(10.0, 2.0, 3.0));
    let r = a.update(&[&c, &b], &g());
    assert_eq!(r, Err(ArithError::DivisionByZero));
    assert!(a.position == v(1.0, 2.0, 3.0));
}

#[test]
fn update_with_no_others_keeps_position() {
    let mut a = Body::new(q(5.0), v(1.0, 2.0, 3.0));
    assert_eq!(a.update(&[], &g()), Ok(()));
    assert!(a.position == v(1.0, 2.0, 3.0));
}

#[test]
fn update_moves_by_exact_formula() {
    // g = 1, mass 2, other body 2 units away on x: d = (2,0,0), |d|² = 4,
    // approximate |d| = 2, so the step is -1·2·2/8 = -1/2 on x.
    let mut a = Body::new(frac(2, 1), v(2.0, 0.0, 0.0));
    let b = Body::new(frac(9, 1), v(0.0, 0.0, 0.0));
    assert_eq!(a.update(&[&b], &frac(1, 1)), Ok(()));
    assert_eq!(parts(&a.position.x), (big(3), big(2)));
    assert_eq!(parts(&a.position.y), (big(0), big(1)));
    assert_eq!(parts(&a.mass), (big(2), big(1)));
}

#[test]
fn earth_and_moon_attract_for_three_ticks() {
    let mut earth = Body::new(q(5.97e24), v(1.0, 0.0, 0.0));
    let mut moon = Body::new(q(7.342e22), v(362600e3, 0.0, 0.0));
    let gc = g();
    for _ in 0..3 {
        let moon_before = moon.position.clone();
        let earth_before = earth.position.clone();
        assert_eq!(moon.update(&[&earth], &gc), Ok(()));
        assert_eq!(earth.update(&[&moon], &gc), Ok(()));
        let moon_step = moon.position.sub(&moon_before);
        let earth_step = earth.position.sub(&earth_before);
        let zero = ExactRational::from_integer(0);
        assert!(moon_step.x.numer() < BigInt::from(0));
        assert!(earth_step.x.numer() > BigInt::from(0));
        assert!(moon_step.y == zero && moon_step.z == zero);
        assert!(earth_step.y == zero && earth_step.z == zero);
    }
    assert_eq!(moon.loc(), big(362599999));
    assert_eq!(earth.loc(), big(1));
}

#[test]
fn loc_reports_whole_distance() {
    let b = Body::new(q(1.0), v(3.0, 4.0, 0.0));
    assert_eq!(b.loc(), big(5));
}
