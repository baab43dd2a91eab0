use crate::bigint::{
    big_clone, big_eq, big_from_i64, big_is_zero, big_isqrt, big_mul, int_of, isqrt,
    lemma_isqrt_bounds,
};
use num_bigint::BigInt;
use vstd::prelude::*;
use vstd::arithmetic::div_mod::{
    lemma_div_multiples_vanish, lemma_fundamental_div_mod, lemma_mod_multiples_basic,
};
use vstd::arithmetic::power::pow;

verus! {

/// Greatest common divisor, by Euclid's algorithm.
pub open spec fn gcd(a: nat, b: nat) -> nat
    decreases b,
{
    if b == 0 {
        a
    } else {
        gcd(b, a % b)
    }
}

pub open spec fn abs(a: int) -> nat {
    if a < 0 {
        (-a) as nat
    } else {
        a as nat
    }
}

/// The least-terms form of the fraction `n / d` (for `d != 0`): both parts
/// divided by their gcd, with the sign carried by the numerator.
pub open spec fn canon(n: int, d: int) -> (int, int) {
    let g = gcd(abs(n), abs(d)) as int;
    if d > 0 {
        (n / g, d / g)
    } else {
        (-n / g, -d / g)
    }
}

/// A fraction `(numerator, denominator)` in least terms with a positive denominator.
pub open spec fn reduced(q: (int, int)) -> bool {
    q.1 > 0 && gcd(abs(q.0), abs(q.1)) == 1
}

/// Two fractions stand for the same rational number.
pub open spec fn same_value(a: (int, int), b: (int, int)) -> bool {
    a.0 * b.1 == b.0 * a.1
}

pub open spec fn q_add(a: (int, int), b: (int, int)) -> (int, int) {
    canon(a.0 * b.1 + b.0 * a.1, a.1 * b.1)
}

pub open spec fn q_sub(a: (int, int), b: (int, int)) -> (int, int) {
    canon(a.0 * b.1 - b.0 * a.1, a.1 * b.1)
}

pub open spec fn q_neg(a: (int, int)) -> (int, int) {
    (-a.0, a.1)
}

pub open spec fn q_mul(a: (int, int), b: (int, int)) -> (int, int) {
    canon(a.0 * b.0, a.1 * b.1)
}

/// Meaningful for `b.0 != 0`.
pub open spec fn q_div(a: (int, int), b: (int, int)) -> (int, int) {
    canon(a.0 * b.1, a.1 * b.0)
}

/// Errors of exact arithmetic.
#[derive(Debug, Clone, Copy, PartialEq, Eq, Structural)]
pub enum ArithError {
    /// The divisor was zero.
    DivisionByZero,
}

/// An arbitrary-precision fraction, always in least terms.
#[derive(Debug)]
pub struct ExactRational {
    numer: BigInt,
    denom: BigInt,
}

impl View for ExactRational {
    type V = (int, int);

    closed spec fn view(&self) -> (int, int) {
        (int_of(self.numer), int_of(self.denom))
    }
}

impl ExactRational {
    pub open spec fn wf(&self) -> bool {
        reduced(self@)
    }

    /// The integer `i` as a fraction.
    pub fn from_integer(i: i64) -> (r: ExactRational)
        ensures
            r.wf(),
            r@ == (i as int, 1int),
    {
        let r = ExactRational { numer: big_from_i64(i), denom: big_from_i64(1) };
        assert(gcd(abs(i as int), 1) == 1) by {
            assert(gcd(1, abs(i as int) % 1) == 1);
        }
        r
    }

    /// The fraction `numer / denom` in least terms; fails when `denom` is zero.
    pub fn new(numer: BigInt, denom: BigInt) -> (r: Result<ExactRational, ArithError>)
        ensures
            int_of(denom) == 0 <==> r is Err,
            r matches Ok(q) ==> q.wf() && q@ == canon(int_of(numer), int_of(denom)),
            r matches Err(e) ==> e == ArithError::DivisionByZero,
    {
        if big_is_zero(&denom) {
            Err(ArithError::DivisionByZero)
        } else {
            Ok(ratio_new(numer, denom))
        }
    }

    /// The numerator in least terms.
    pub fn numer(&self) -> (r: BigInt)
        ensures
            int_of(r) == self@.0,
    {
        big_clone(&self.numer)
    }

    /// The denominator in least terms; positive.
    pub fn denom(&self) -> (r: BigInt)
        ensures
            int_of(r) == self@.1,
    {
        big_clone(&self.denom)
    }

    pub fn is_zero(&self) -> (r: bool)
        ensures
            r == (self@.0 == 0),
    {
        big_is_zero(&self.numer)
    }

    pub fn add(&self, other: &ExactRational) -> (r: ExactRational)
        requires
            self.wf(),
            other.wf(),
        ensures
            r.wf(),
            r@ == q_add(self@, other@),
    {
        ratio_add(self, other)
    }

    pub fn sub(&self, other: &ExactRational) -> (r: ExactRational)
        requires
            self.wf(),
            other.wf(),
        ensures
            r.wf(),
            r@ == q_sub(self@, other@),
    {
        ratio_sub(self, other)
    }

    pub fn neg(&self) -> (r: ExactRational)
        requires
            self.wf(),
        ensures
            r.wf(),
            r@ == q_neg(self@),
    {
        ratio_neg(self)
    }

    pub fn mul(&self, other: &ExactRational) -> (r: ExactRational)
        requires
            self.wf(),
            other.wf(),
        ensures
            r.wf(),
            r@ == q_mul(self@, other@),
    {
        ratio_mul(self, other)
    }

    /// The quotient; fails exactly when `other` is zero.
    pub fn div(&self, other: &ExactRational) -> (r: Result<ExactRational, ArithError>)
        requires
            self.wf(),
            other.wf(),
        ensures
            other@.0 == 0 <==> r is Err,
            r matches Ok(q) ==> q.wf() && q@ == q_div(self@, other@),
            r matches Err(e) ==> e == ArithError::DivisionByZero,
    {
        if other.is_zero() {
            Err(ArithError::DivisionByZero)
        } else {
            Ok(ratio_div(self, other))
        }
    }

    /// Adds `other` in place.
    pub fn add_assign(&mut self, other: &ExactRational)
        requires
            old(self).wf(),
            other.wf(),
        ensures
            final(self).wf(),
            final(self)@ == q_add(old(self)@, other@),
    {
        *self = ratio_add(self, other);
    }

    /// Raises the value to the power `e`.
    pub fn pow(&self, e: u32) -> (r: ExactRational)
        requires
            self.wf(),
        ensures
            r.wf(),
            r@ == (pow(self@.0, e as nat), pow(self@.1, e as nat)),
    {
        ratio_pow(self, e)
    }

    /// The integer square roots of numerator and denominator, as a fraction in
    /// least terms: a lossy approximation of the square root.
    pub fn sqrt_approx(&self) -> (r: ExactRational)
        requires
            self.wf(),
            self@.0 >= 0,
        ensures
            r.wf(),
            r@ == canon(isqrt(self@.0 as nat) as int, isqrt(self@.1 as nat) as int),
    {
        let n = big_isqrt(&self.numer);
        let d = big_isqrt(&self.denom);
        proof {
            lemma_isqrt_bounds(self@.1 as nat);
            let s = isqrt(self@.1 as nat);
            assert(self@.1 > 0);
            assert(self@.1 < (s + 1) * (s + 1));
            assert(s == 0 ==> (s + 1) * (s + 1) == 1) by (nonlinear_arith);
            assert(int_of(d) == s);
        }
        ratio_new(n, d)
    }

    /// The nearest integer, half-way cases away from zero.
    pub fn round(&self) -> (r: BigInt)
        requires
            self.wf(),
        ensures
            int_of(r) == round_half_away(self@.0, self@.1),
    {
        ratio_round(self)
    }

    /// The largest integer not above the value.
    pub fn to_integer_floor(&self) -> (r: BigInt)
        requires
            self.wf(),
        ensures
            int_of(r) == self@.0 / self@.1,
    {
        ratio_floor(self)
    }

    /// A copy of the value.
    pub fn duplicate(&self) -> (r: ExactRational)
        ensures
            r@ == self@,
    {
        ExactRational { numer: big_clone(&self.numer), denom: big_clone(&self.denom) }
    }
}

impl Clone for ExactRational {
    fn clone(&self) -> (r: ExactRational)
        ensures
            r@ == self@,
    {
        self.duplicate()
    }
}

impl PartialEq for ExactRational {
    fn eq(&self, other: &ExactRational) -> (r: bool) {
        let lhs = big_mul(&self.numer, &other.denom);
        let rhs = big_mul(&other.numer, &self.denom);
        big_eq(&lhs, &rhs)
    }
}

impl vstd::std_specs::cmp::PartialEqSpecImpl for ExactRational {
    open spec fn obeys_eq_spec() -> bool {
        true
    }

    open spec fn eq_spec(&self, other: &ExactRational) -> bool {
        same_value(self@, other@)
    }
}


/// `n / d` rounded to the nearest integer, half-way cases away from zero
/// (for `d > 0`).
pub open spec fn round_half_away(n: int, d: int) -> int {
    if n >= 0 {
        (2 * n + d) / (2 * d)
    } else {
        -((-2 * n + d) / (2 * d))
    }
}

/// Relies on `Ratio::new`, which puts the fraction in least terms with a
/// positive denominator; it panics on a zero denominator.
#[verifier::external_body]
fn ratio_new(numer: BigInt, denom: BigInt) -> (r: ExactRational)
    requires
        int_of(denom) != 0,
    ensures
        r.wf(),
        r@ == canon(int_of(numer), int_of(denom)),
{
    let (numer, denom) = num_rational::Ratio::new(numer, denom).into_raw();
    ExactRational { numer, denom }
}

/// Relies on `Ratio<BigInt> + Ratio<BigInt>`: the exact sum, reduced by `Ratio::new`.
#[verifier::external_body]
fn ratio_add(a: &ExactRational, b: &ExactRational) -> (r: ExactRational)
    requires
        a.wf(),
        b.wf(),
    ensures
        r.wf(),
        r@ == q_add(a@, b@),
{
    let x = num_rational::Ratio::new_raw(a.numer.clone(), a.denom.clone());
    let y = num_rational::Ratio::new_raw(b.numer.clone(), b.denom.clone());
    let (numer, denom) = (x + y).into_raw();
    ExactRational { numer, denom }
}

/// Relies on `Ratio<BigInt> - Ratio<BigInt>`: the exact difference, reduced by `Ratio::new`.
#[verifier::external_body]
fn ratio_sub(a: &ExactRational, b: &ExactRational) -> (r: ExactRational)
    requires
        a.wf(),
        b.wf(),
    ensures
        r.wf(),
        r@ == q_sub(a@, b@),
{
    let x = num_rational::Ratio::new_raw(a.numer.clone(), a.denom.clone());
    let y = num_rational::Ratio::new_raw(b.numer.clone(), b.denom.clone());
    let (numer, denom) = (x - y).into_raw();
    ExactRational { numer, denom }
}

/// Relies on `Ratio<BigInt> * Ratio<BigInt>`: the exact product, reduced by `Ratio::new`.
#[verifier::external_body]
fn ratio_mul(a: &ExactRational, b: &ExactRational) -> (r: ExactRational)
    requires
        a.wf(),
        b.wf(),
    ensures
        r.wf(),
        r@ == q_mul(a@, b@),
{
    let x = num_rational::Ratio::new_raw(a.numer.clone(), a.denom.clone());
    let y = num_rational::Ratio::new_raw(b.numer.clone(), b.denom.clone());
    let (numer, denom) = (x * y).into_raw();
    ExactRational { numer, denom }
}

/// Relies on `Ratio<BigInt> / Ratio<BigInt>`: the exact quotient, reduced by
/// `Ratio::new`, which panics when the divisor is zero.
#[verifier::external_body]
fn ratio_div(a: &ExactRational, b: &ExactRational) -> (r: ExactRational)
    requires
        a.wf(),
        b.wf(),
        b@.0 != 0,
    ensures
        r.wf(),
        r@ == q_div(a@, b@),
{
    let x = num_rational::Ratio::new_raw(a.numer.clone(), a.denom.clone());
    let y = num_rational::Ratio::new_raw(b.numer.clone(), b.denom.clone());
    let (numer, denom) = (x / y).into_raw();
    ExactRational { numer, denom }
}

/// Relies on `-Ratio<BigInt>`, which negates the numerator and keeps the denominator.
#[verifier::external_body]
fn ratio_neg(a: &ExactRational) -> (r: ExactRational)
    requires
        a.wf(),
    ensures
        r.wf(),
        r@ == q_neg(a@),
{
    let x = num_rational::Ratio::new_raw(a.numer.clone(), a.denom.clone());
    let (numer, denom) = (-x).into_raw();
    ExactRational { numer, denom }
}

/// Relies on `Pow<u32> for &Ratio<BigInt>`, which raises numerator and
/// denominator to the power each; powers of coprime parts stay coprime.
#[verifier::external_body]
fn ratio_pow(a: &ExactRational, e: u32) -> (r: ExactRational)
    requires
        a.wf(),
    ensures
        r.wf(),
        r@ == (pow(a@.0, e as nat), pow(a@.1, e as nat)),
{
    let x = num_rational::Ratio::new_raw(a.numer.clone(), a.denom.clone());
    let (numer, denom) = num_traits::Pow::pow(&x, e).into_raw();
    ExactRational { numer, denom }
}

/// Relies on `Ratio::floor` (rounds towards minus infinity) and `Ratio::to_integer`.
#[verifier::external_body]
fn ratio_floor(a: &ExactRational) -> (r: BigInt)
    requires
        a.wf(),
    ensures
        int_of(r) == a@.0 / a@.1,
{
    let x = num_rational::Ratio::new_raw(a.numer.clone(), a.denom.clone());
    x.floor().to_integer()
}

/// Relies on `Ratio::round` (half-way cases away from zero) and `Ratio::to_integer`.
#[verifier::external_body]
fn ratio_round(a: &ExactRational) -> (r: BigInt)
    requires
        a.wf(),
    ensures
        int_of(r) == round_half_away(a@.0, a@.1),
{
    let x = num_rational::Ratio::new_raw(a.numer.clone(), a.denom.clone());
    x.round().to_integer()
}


/// The gcd divides both arguments, and is positive unless both are zero.
pub proof fn lemma_gcd_divides(a: nat, b: nat)
    ensures
        gcd(a, b) > 0 <==> (a > 0 || b > 0),
        gcd(a, b) > 0 ==> a % gcd(a, b) == 0 && b % gcd(a, b) == 0,
    decreases b,
{
    if b > 0 {
        let ai = a as int;
        let bi = b as int;
        let r: int = ai % bi;
        lemma_gcd_divides(b, r as nat);
        let g = gcd(b, r as nat) as int;
        assert(g == gcd(a, b));
        lemma_fundamental_div_mod(bi, g);
        lemma_fundamental_div_mod(r, g);
        lemma_fundamental_div_mod(ai, bi);
        let k: int = (ai / bi) * (bi / g) + r / g;
        assert(ai == k * g) by (nonlinear_arith)
            requires
                bi == g * (bi / g) + 0,
                r == g * (r / g) + 0,
                ai == bi * (ai / bi) + r,
                k == (ai / bi) * (bi / g) + r / g,
        ;
        lemma_mod_multiples_basic(k, g);
    }
}

/// The least-terms form has a positive denominator and the same value.
pub proof fn lemma_canon(n: int, d: int)
    requires
        d != 0,
    ensures
        canon(n, d).1 > 0,
        same_value(canon(n, d), (n, d)),
{
    let g = gcd(abs(n), abs(d)) as int;
    lemma_gcd_divides(abs(n), abs(d));
    lemma_fundamental_div_mod(abs(n) as int, g);
    lemma_fundamental_div_mod(abs(d) as int, g);
    let kn = abs(n) as int / g;
    let kd = abs(d) as int / g;
    assert(kd > 0) by (nonlinear_arith)
        requires
            abs(d) as int == g * kd,
            abs(d) > 0,
            g > 0,
    ;
    let sn: int = if n < 0 { -1 } else { 1 };
    let sd: int = if d < 0 { -1 } else { 1 };
    assert(abs(n) as int == g * kn);
    assert(abs(d) as int == g * kd);
    assert(n == sn * kn * g) by (nonlinear_arith)
        requires
            abs(n) as int == g * kn,
            sn == (if n < 0 { -1int } else { 1int }),
            abs(n) as int == (if n < 0 { -n } else { n }),
    ;
    assert(d == sd * kd * g) by (nonlinear_arith)
        requires
            abs(d) as int == g * kd,
            sd == (if d < 0 { -1int } else { 1int }),
            abs(d) as int == (if d < 0 { -d } else { d }),
    ;
    lemma_div_multiples_vanish(sn * kn, g);
    lemma_div_multiples_vanish(sd * kd, g);
    lemma_div_multiples_vanish(-sn * kn, g);
    lemma_div_multiples_vanish(-sd * kd, g);
    assert(n / g == sn * kn) by {
        assert(g * (sn * kn) == n) by (nonlinear_arith)
            requires
                n == sn * kn * g,
        ;
    }
    assert(d / g == sd * kd) by {
        assert(g * (sd * kd) == d) by (nonlinear_arith)
            requires
                d == sd * kd * g,
        ;
    }
    assert(-n / g == -sn * kn) by {
        assert(g * (-sn * kn) == -n) by (nonlinear_arith)
            requires
                n == sn * kn * g,
        ;
    }
    assert(-d / g == -sd * kd) by {
        assert(g * (-sd * kd) == -d) by (nonlinear_arith)
            requires
                d == sd * kd * g,
        ;
    }
    let c = canon(n, d);
    assert(c.0 * d == n * c.1) by (nonlinear_arith)
        requires
            c.0 == sd * sn * kn,
            c.1 == sd * sd * kd,
            n == sn * kn * g,
            d == sd * kd * g,
            sd * sd == 1,
    ;
}

} // verus!
