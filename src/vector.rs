use crate::bigint::isqrt;
use crate::rational::{
    canon, lemma_canon, q_add, q_div, q_mul, q_neg, q_sub, reduced, same_value, ArithError, ExactRational,
};
use vstd::arithmetic::power::{lemma_square_is_pow2, pow};
use vstd::prelude::*;

verus! {

/// Three fractions, one per axis.
pub type V3 = ((int, int), (int, int), (int, int));

pub open spec fn v_reduced(v: V3) -> bool {
    reduced(v.0) && reduced(v.1) && reduced(v.2)
}

/// Equal as rationals on every axis.
pub open spec fn v_same(a: V3, b: V3) -> bool {
    same_value(a.0, b.0) && same_value(a.1, b.1) && same_value(a.2, b.2)
}

pub open spec fn v_scalar(s: (int, int)) -> V3 {
    (s, s, s)
}

pub open spec fn v_add(a: V3, b: V3) -> V3 {
    (q_add(a.0, b.0), q_add(a.1, b.1), q_add(a.2, b.2))
}

pub open spec fn v_sub(a: V3, b: V3) -> V3 {
    (q_sub(a.0, b.0), q_sub(a.1, b.1), q_sub(a.2, b.2))
}

pub open spec fn v_neg(a: V3) -> V3 {
    (q_neg(a.0), q_neg(a.1), q_neg(a.2))
}

pub open spec fn v_mul(a: V3, b: V3) -> V3 {
    (q_mul(a.0, b.0), q_mul(a.1, b.1), q_mul(a.2, b.2))
}

/// Meaningful where no axis of `b` is zero.
pub open spec fn v_div(a: V3, b: V3) -> V3 {
    (q_div(a.0, b.0), q_div(a.1, b.1), q_div(a.2, b.2))
}

pub open spec fn q_square(a: (int, int)) -> (int, int) {
    (pow(a.0, 2), pow(a.1, 2))
}

/// `x² + y² + z²`, exactly.
pub open spec fn v_squared_norm(a: V3) -> (int, int) {
    q_add(q_add(q_square(a.0), q_square(a.1)), q_square(a.2))
}

/// Integer square roots of numerator and denominator, in least terms.
pub open spec fn q_sqrt_approx(a: (int, int)) -> (int, int) {
    canon(isqrt(a.0 as nat) as int, isqrt(a.1 as nat) as int)
}

pub open spec fn v_magnitude_approx(a: V3) -> (int, int) {
    q_sqrt_approx(v_squared_norm(a))
}

/// A three-axis vector of exact rationals, combined axis by axis.
#[derive(Debug)]
pub struct Vector3 {
    pub x: ExactRational,
    pub y: ExactRational,
    pub z: ExactRational,
}

impl View for Vector3 {
    type V = V3;

    open spec fn view(&self) -> V3 {
        (self.x@, self.y@, self.z@)
    }
}

impl Vector3 {
    pub open spec fn wf(&self) -> bool {
        v_reduced(self@)
    }

    pub fn new(x: ExactRational, y: ExactRational, z: ExactRational) -> (r: Vector3)
        ensures
            r@ == (x@, y@, z@),
    {
        Vector3 { x, y, z }
    }

    /// The same value on all three axes.
    pub fn from_scalar(s: &ExactRational) -> (r: Vector3)
        ensures
            r@ == v_scalar(s@),
    {
        Vector3 { x: s.duplicate(), y: s.duplicate(), z: s.duplicate() }
    }

    pub fn duplicate(&self) -> (r: Vector3)
        ensures
            r@ == self@,
    {
        Vector3 { x: self.x.duplicate(), y: self.y.duplicate(), z: self.z.duplicate() }
    }

    pub fn add(&self, other: &Vector3) -> (r: Vector3)
        requires
            self.wf(),
            other.wf(),
        ensures
            r.wf(),
            r@ == v_add(self@, other@),
    {
        Vector3 { x: self.x.add(&other.x), y: self.y.add(&other.y), z: self.z.add(&other.z) }
    }

    pub fn sub(&self, other: &Vector3) -> (r: Vector3)
        requires
            self.wf(),
            other.wf(),
        ensures
            r.wf(),
            r@ == v_sub(self@, other@),
    {
        Vector3 { x: self.x.sub(&other.x), y: self.y.sub(&other.y), z: self.z.sub(&other.z) }
    }

    pub fn neg(&self) -> (r: Vector3)
        requires
            self.wf(),
        ensures
            r.wf(),
            r@ == v_neg(self@),
    {
        Vector3 { x: self.x.neg(), y: self.y.neg(), z: self.z.neg() }
    }

    pub fn mul(&self, other: &Vector3) -> (r: Vector3)
        requires
            self.wf(),
            other.wf(),
        ensures
            r.wf(),
            r@ == v_mul(self@, other@),
    {
        Vector3 { x: self.x.mul(&other.x), y: self.y.mul(&other.y), z: self.z.mul(&other.z) }
    }

    /// Axis-by-axis quotient; fails exactly when some axis of `other` is zero.
    pub fn div(&self, other: &Vector3) -> (r: Result<Vector3, ArithError>)
        requires
            self.wf(),
            other.wf(),
        ensures
            (other@.0.0 == 0 || other@.1.0 == 0 || other@.2.0 == 0) <==> r is Err,
            r matches Ok(v) ==> v.wf() && v@ == v_div(self@, other@),
            r matches Err(e) ==> e == ArithError::DivisionByZero,
    {
        let x = self.x.div(&other.x)?;
        let y = self.y.div(&other.y)?;
        let z = self.z.div(&other.z)?;
        Ok(Vector3 { x, y, z })
    }

    /// Adds `other` in place, axis by axis.
    pub fn add_assign(&mut self, other: &Vector3)
        requires
            old(self).wf(),
            other.wf(),
        ensures
            final(self).wf(),
            final(self)@ == v_add(old(self)@, other@),
    {
        self.x.add_assign(&other.x);
        self.y.add_assign(&other.y);
        self.z.add_assign(&other.z);
    }

    /// `x² + y² + z²`, exactly.
    pub fn squared_norm(&self) -> (r: ExactRational)
        requires
            self.wf(),
        ensures
            r.wf(),
            r@ == v_squared_norm(self@),
    {
        let xx = self.x.pow(2);
        let yy = self.y.pow(2);
        let zz = self.z.pow(2);
        xx.add(&yy).add(&zz)
    }

    /// The integer-square-root approximation of the length.
    pub fn magnitude_approx(&self) -> (r: ExactRational)
        requires
            self.wf(),
        ensures
            r.wf(),
            r@ == v_magnitude_approx(self@),
    {
        let n = self.squared_norm();
        proof {
            lemma_squared_norm_nonneg(self@);
        }
        n.sqrt_approx()
    }
}

impl PartialEq for Vector3 {
    fn eq(&self, other: &Vector3) -> (r: bool) {
        self.x == other.x && self.y == other.y && self.z == other.z
    }
}

impl vstd::std_specs::cmp::PartialEqSpecImpl for Vector3 {
    open spec fn obeys_eq_spec() -> bool {
        true
    }

    open spec fn eq_spec(&self, other: &Vector3) -> bool {
        v_same(self@, other@)
    }
}

impl Clone for Vector3 {
    fn clone(&self) -> (r: Vector3)
        ensures
            r@ == self@,
    {
        self.duplicate()
    }
}

/// The squared norm is never negative, and is zero exactly when every axis is.
pub proof fn lemma_squared_norm_nonneg(a: V3)
    requires
        a.0.1 > 0,
        a.1.1 > 0,
        a.2.1 > 0,
    ensures
        v_squared_norm(a).0 >= 0,
        v_squared_norm(a).1 > 0,
        v_squared_norm(a).0 == 0 <==> (a.0.0 == 0 && a.1.0 == 0 && a.2.0 == 0),
{
    lemma_square_is_pow2(a.0.0);
    lemma_square_is_pow2(a.0.1);
    lemma_square_is_pow2(a.1.0);
    lemma_square_is_pow2(a.1.1);
    lemma_square_is_pow2(a.2.0);
    lemma_square_is_pow2(a.2.1);
    lemma_square_sign(a.0.0);
    lemma_square_sign(a.1.0);
    lemma_square_sign(a.2.0);
    lemma_square_sign(a.0.1);
    lemma_square_sign(a.1.1);
    lemma_square_sign(a.2.1);
    let sx = q_square(a.0);
    let sy = q_square(a.1);
    let sz = q_square(a.2);
    lemma_add_nonneg(sx, sy);
    lemma_add_nonneg(q_add(sx, sy), sz);
}

proof fn lemma_square_sign(x: int)
    ensures
        x * x >= 0,
        x * x == 0 <==> x == 0,
{
    assert(x * x >= 0 && (x * x == 0 <==> x == 0)) by (nonlinear_arith);
}

/// The sign of a least-terms form is the sign of the numerator it came from
/// (over a positive denominator).
pub proof fn lemma_canon_sign(n: int, d: int)
    requires
        d > 0,
    ensures
        canon(n, d).1 > 0,
        canon(n, d).0 >= 0 <==> n >= 0,
        canon(n, d).0 == 0 <==> n == 0,
        canon(n, d).0 > 0 <==> n > 0,
{
    lemma_canon(n, d);
    let c = canon(n, d);
    assert((c.0 >= 0 <==> n >= 0) && (c.0 == 0 <==> n == 0) && (c.0 > 0 <==> n > 0))
        by (nonlinear_arith)
        requires
            c.0 * d == n * c.1,
            d > 0,
            c.1 > 0,
    ;
}

/// A sum of two non-negative fractions is non-negative, and zero only when
/// both are.
proof fn lemma_add_nonneg(a: (int, int), b: (int, int))
    requires
        a.0 >= 0,
        b.0 >= 0,
        a.1 > 0,
        b.1 > 0,
    ensures
        q_add(a, b).0 >= 0,
        q_add(a, b).1 > 0,
        q_add(a, b).0 == 0 <==> (a.0 == 0 && b.0 == 0),
{
    let n = a.0 * b.1 + b.0 * a.1;
    assert(n >= 0 && (n == 0 <==> (a.0 == 0 && b.0 == 0)) && a.1 * b.1 > 0) by (nonlinear_arith)
        requires
            a.0 >= 0,
            b.0 >= 0,
            a.1 > 0,
            b.1 > 0,
            n == a.0 * b.1 + b.0 * a.1,
    ;
    lemma_canon_sign(n, a.1 * b.1);
}

} // verus!
