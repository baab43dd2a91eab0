use crate::bigint::{int_of, isqrt, lemma_isqrt_bounds};
use num_bigint::BigInt;
use crate::rational::{canon, q_mul, ArithError, ExactRational};
use crate::vector::{
    lemma_canon_sign, lemma_squared_norm_nonneg, q_sqrt_approx, v_add, v_div, v_magnitude_approx,
    v_mul, v_neg, v_same, v_scalar, v_squared_norm, v_sub, Vector3, V3,
};
use vstd::prelude::*;

verus! {

/// `|d|³`, approximated through one integer square root.
pub open spec fn q_cube_approx(d: V3) -> (int, int) {
    q_mul(v_squared_norm(d), v_magnitude_approx(d))
}

/// The displacement that a body of mass `m` at `p` takes from one other body at `o`,
/// under the constant `g`: `-g · m · (p - o) / |p - o|³`, axis by axis.
pub open spec fn pull(p: V3, m: (int, int), g: (int, int), o: V3) -> V3 {
    let diff = v_sub(p, o);
    v_div(v_mul(v_mul(v_neg(v_scalar(g)), v_scalar(m)), diff), v_scalar(q_cube_approx(diff)))
}

/// The pulls of all the bodies at `others`, summed in order from zero.
pub open spec fn total_pull(p: V3, m: (int, int), g: (int, int), others: Seq<V3>) -> V3
    decreases others.len(),
{
    if others.len() == 0 {
        v_scalar((0, 1))
    } else {
        v_add(total_pull(p, m, g, others.drop_last()), pull(p, m, g, others.last()))
    }
}

/// A point mass.
#[derive(Debug)]
pub struct Body {
    pub position: Vector3,
    pub mass: ExactRational,
}

pub open spec fn positions(others: Seq<&Body>) -> Seq<V3> {
    others.map_values(|b: &Body| b.position@)
}

pub open spec fn coincides(others: Seq<&Body>, p: V3) -> bool {
    exists|i: int| 0 <= i < others.len() && v_same(#[trigger] others[i].position@, p)
}

/// `|p - o|³` is zero exactly when `o` and `p` are the same point.
pub proof fn lemma_cube_zero(p: V3, o: V3)
    requires
        p.0.1 > 0 && p.1.1 > 0 && p.2.1 > 0,
        o.0.1 > 0 && o.1.1 > 0 && o.2.1 > 0,
    ensures
        q_cube_approx(v_sub(p, o)).0 == 0 <==> v_same(o, p),
        q_cube_approx(v_sub(p, o)).0 >= 0,
        q_cube_approx(v_sub(p, o)).1 > 0,
        v_sub(p, o).0.1 > 0 && v_sub(p, o).1.1 > 0 && v_sub(p, o).2.1 > 0,
{
    let d = v_sub(p, o);
    assert(p.0.1 * o.0.1 > 0 && p.1.1 * o.1.1 > 0 && p.2.1 * o.2.1 > 0) by (nonlinear_arith)
        requires
            p.0.1 > 0 && p.1.1 > 0 && p.2.1 > 0,
            o.0.1 > 0 && o.1.1 > 0 && o.2.1 > 0,
    ;
    lemma_canon_sign(p.0.0 * o.0.1 - o.0.0 * p.0.1, p.0.1 * o.0.1);
    lemma_canon_sign(p.1.0 * o.1.1 - o.1.0 * p.1.1, p.1.1 * o.1.1);
    lemma_canon_sign(p.2.0 * o.2.1 - o.2.0 * p.2.1, p.2.1 * o.2.1);
    lemma_squared_norm_nonneg(d);
    let n = v_squared_norm(d);
    lemma_isqrt_bounds(n.0 as nat);
    lemma_isqrt_bounds(n.1 as nat);
    let s0 = isqrt(n.0 as nat) as int;
    let s1 = isqrt(n.1 as nat) as int;
    assert(s1 > 0) by (nonlinear_arith)
        requires
            n.1 > 0,
            n.1 < (s1 + 1) * (s1 + 1),
            s1 >= 0,
    ;
    assert(s0 == 0 <==> n.0 == 0) by (nonlinear_arith)
        requires
            n.0 >= 0,
            s0 >= 0,
            s0 * s0 <= n.0,
            n.0 < (s0 + 1) * (s0 + 1),
    ;
    lemma_canon_sign(s0, s1);
    let m = q_sqrt_approx(n);
    assert(m == canon(s0, s1));
    assert(n.0 * m.0 == 0 <==> (n.0 == 0 || m.0 == 0)) by (nonlinear_arith);
    assert(n.0 * m.0 >= 0) by (nonlinear_arith)
        requires
            n.0 >= 0,
            m.0 >= 0,
    ;
    assert(n.1 * m.1 > 0) by (nonlinear_arith)
        requires
            n.1 > 0,
            m.1 > 0,
    ;
    lemma_canon_sign(n.0 * m.0, n.1 * m.1);
}

impl Body {
    pub open spec fn wf(&self) -> bool {
        self.position.wf() && self.mass.wf()
    }

    pub fn new(mass: ExactRational, position: Vector3) -> (r: Body)
        ensures
            r.mass@ == mass@,
            r.position@ == position@,
    {
        Body { position, mass }
    }

    /// One step: moves this body by the summed pull of `others` under the
    /// constant `g`. Fails, leaving the body where it was, when one of
    /// `others` stands exactly at this body's position.
    pub fn update(&mut self, others: &[&Body], g: &ExactRational) -> (r: Result<(), ArithError>)
        requires
            old(self).wf(),
            g.wf(),
            forall|i: int| 0 <= i < others@.len() ==> (#[trigger] others@[i]).wf(),
        ensures
            final(self).wf(),
            final(self).mass@ == old(self).mass@,
            r is Err <==> coincides(others@, old(self).position@),
            r matches Err(e) ==> e == ArithError::DivisionByZero && final(self).position@
                == old(self).position@,
            r is Ok ==> final(self).position@ == v_add(
                old(self).position@,
                total_pull(old(self).position@, old(self).mass@, g@, positions(others@)),
            ),
    {
        let ghost p = self.position@;
        let ghost ps = positions(others@);
        let mut change = Vector3::from_scalar(&ExactRational::from_integer(0));
        let big_g = Vector3::from_scalar(g);
        let m = Vector3::from_scalar(&self.mass);
        let neg_g_m = big_g.neg().mul(&m);
        let mut i: usize = 0;
        while i < others.len()
            invariant
                self.wf(),
                self.position@ == p,
                self.mass@ == old(self).mass@,
                p == old(self).position@,
                g.wf(),
                forall|j: int| 0 <= j < others@.len() ==> (#[trigger] others@[j]).wf(),
                ps == positions(others@),
                0 <= i <= others@.len(),
                change.wf(),
                neg_g_m.wf(),
                neg_g_m@ == v_mul(v_neg(v_scalar(g@)), v_scalar(self.mass@)),
                change@ == total_pull(p, self.mass@, g@, ps.take(i as int)),
                forall|j: int| 0 <= j < i ==> !v_same(#[trigger] others@[j].position@, p),
            decreases others@.len() - i,
        {
            let other = others[i];
            let diff = self.position.sub(&other.position);
            let cube = diff.squared_norm().mul(&diff.magnitude_approx());
            proof {
                lemma_cube_zero(p, other.position@);
            }
            let pull_i = neg_g_m.mul(&diff).div(&Vector3::from_scalar(&cube));
            match pull_i {
                Err(e) => {
                    return Err(e);
                },
                Ok(t) => {
                    proof {
                        assert(ps.take(i as int + 1).drop_last() =~= ps.take(i as int));
                    }
                    change.add_assign(&t);
                },
            }
            i = i + 1;
        }
        proof {
            assert(ps.take(i as int) =~= ps);
        }
        self.position.add_assign(&change);
        Ok(())
    }

    pub fn duplicate(&self) -> (r: Body)
        ensures
            r.position@ == self.position@,
            r.mass@ == self.mass@,
    {
        Body { position: self.position.duplicate(), mass: self.mass.duplicate() }
    }

    /// The distance from the origin, as a whole number.
    pub fn loc(&self) -> (r: BigInt)
        requires
            self.wf(),
        ensures
            int_of(r) == v_magnitude_approx(self.position@).0 / v_magnitude_approx(
                self.position@,
            ).1,
    {
        self.position.magnitude_approx().to_integer_floor()
    }
}

impl Clone for Body {
    fn clone(&self) -> (r: Body)
        ensures
            r.position@ == self.position@,
            r.mass@ == self.mass@,
    {
        self.duplicate()
    }
}

} // verus!
